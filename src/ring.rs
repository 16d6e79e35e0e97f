//! Index arithmetic shared by the submission and completion rings.

use vstd::arithmetic::div_mod::{lemma_fundamental_div_mod, lemma_mod_multiples_vanish};
use vstd::arithmetic::power2::{
    lemma2_to64, lemma_pow2_adds, lemma_pow2_pos, lemma_pow2_strictly_increases, lemma_pow2_unfold, pow2,
};
use vstd::bits::{low_bits_mask, lemma_u32_low_bits_mask_is_mod};
use vstd::prelude::*;

verus! {

/// Number of distinct values of a 32-bit ring index.
pub const INDEX_SPAN: u64 = 0x1_0000_0000;

/// Largest capacity a ring can have.
pub const MAX_CAPACITY: u32 = 0x8000_0000;

/// A capacity is valid when it is a power of two that fits an index; it
/// then divides the span of a 32-bit index.
pub open spec fn valid_capacity(cap: int) -> bool {
    &&& 1 <= cap <= MAX_CAPACITY
    &&& INDEX_SPAN as int % cap == 0
    &&& exists|k: nat| k < 32 && pow2(k) == cap
}

/// Executable test of `valid_capacity`.
pub fn is_valid_capacity(cap: u32) -> (r: bool)
    ensures
        r == valid_capacity(cap as int),
{
    let mut p: u64 = 1;
    let mut k: u32 = 0;
    proof {
        lemma2_to64();
    }
    while p < cap as u64
        invariant
            p == pow2(k as nat),
            k <= 32,
            forall|j: nat| j < k ==> pow2(j) < cap,
            pow2(32) == INDEX_SPAN,
        decreases 32 - k,
    {
        proof {
            if k == 32 {
                assert(false);
            }
            lemma_pow2_unfold((k + 1) as nat);
        }
        p = p * 2;
        k = k + 1;
    }
    if p == cap as u64 {
        proof {
            if k == 32 {
                assert(false);
            }
            lemma_pow2_adds(k as nat, (32 - k) as nat);
            lemma_pow2_pos((32 - k) as nat);
            lemma_mod_multiples_vanish(pow2((32 - k) as nat) as int, 0, cap as int);
            assert(INDEX_SPAN as int == cap * pow2((32 - k) as nat));
            if cap > MAX_CAPACITY {
                lemma_pow2_strictly_increases(31, 32);
                if k < 31 {
                    lemma_pow2_strictly_increases(k as nat, 31);
                }
                assert(false);
            }
        }
        true
    } else {
        proof {
            assert forall|j: nat| j < 32 implies pow2(j) != cap by {
                if j > k {
                    lemma_pow2_strictly_increases(k as nat, j);
                }
            }
        }
        false
    }
}

/// For a valid capacity, masking an index with capacity minus one selects
/// the same slot as taking it modulo the capacity.
pub proof fn lemma_mask_is_mod(x: u32, cap: u32)
    requires
        valid_capacity(cap as int),
    ensures
        x & ((cap - 1) as u32) == x % cap,
{
    let k = choose|k: nat| k < 32 && pow2(k) == cap;
    lemma_u32_low_bits_mask_is_mod(x, k);
    assert(low_bits_mask(k) == cap - 1);
}

/// Distance from index `from` forward to index `to`, modulo 2^32.
pub open spec fn dist(from: u32, to: u32) -> nat {
    if from <= to {
        (to - from) as nat
    } else {
        (to + INDEX_SPAN - from) as nat
    }
}

/// The index `k` steps after `from`, modulo 2^32 (for `k` below 2^32).
pub open spec fn advance(from: u32, k: nat) -> u32 {
    if from + k < INDEX_SPAN {
        (from + k) as u32
    } else {
        (from + k - INDEX_SPAN) as u32
    }
}

/// Physical slot selected by a logical index.
pub open spec fn slot_of(index: int, cap: int) -> int {
    index % cap
}

/// The `n` records that start at logical index `start`, in order.
pub open spec fn window<T>(slots: Seq<T>, start: u32, n: nat) -> Seq<T> {
    Seq::new(n, |i: int| slots[slot_of(start + i, slots.len() as int)])
}

/// Executable form of `dist`.
pub fn distance(from: u32, to: u32) -> (d: u32)
    ensures
        d as nat == dist(from, to),
{
    if from <= to {
        to - from
    } else {
        (to as u64 + INDEX_SPAN - from as u64) as u32
    }
}

/// Executable form of `advance(from, 1)`.
pub fn next_index(from: u32) -> (r: u32)
    ensures
        r == advance(from, 1),
        r as int == if from == u32::MAX { 0 } else { from + 1 },
{
    if from == u32::MAX {
        0
    } else {
        from + 1
    }
}

/// Executable form of `slot_of`: the low bits of an index, selected by
/// the mask `cap - 1`.
pub fn slot(index: u32, cap: u32) -> (s: usize)
    requires
        valid_capacity(cap as int),
    ensures
        s as int == slot_of(index as int, cap as int),
        s < cap,
{
    proof {
        lemma_mask_is_mod(index, cap);
    }
    (index & (cap - 1)) as usize
}

/// A wrap of the index space does not move the slot.
pub proof fn lemma_slot_wrap(x: int, cap: int)
    requires
        valid_capacity(cap),
    ensures
        slot_of(x + INDEX_SPAN, cap) == slot_of(x, cap),
{
    let m = INDEX_SPAN as int / cap;
    lemma_fundamental_div_mod(INDEX_SPAN as int, cap);
    assert(INDEX_SPAN as int == cap * m);
    lemma_mod_multiples_vanish(m, x, cap);
    assert(cap * m + x == x + INDEX_SPAN);
}

/// Fewer than `cap` consecutive indices select distinct slots.
pub proof fn lemma_distinct_slots(a: int, b: int, cap: int)
    requires
        cap > 0,
        a < b < a + cap,
    ensures
        slot_of(a, cap) != slot_of(b, cap),
{
    lemma_fundamental_div_mod(a, cap);
    lemma_fundamental_div_mod(b, cap);
    let qa = a / cap;
    let qb = b / cap;
    if a % cap == b % cap {
        let r = a % cap;
        assert(b - a == cap * (qb - qa)) by (nonlinear_arith)
            requires a == cap * qa + r, b == cap * qb + r;
        if qb - qa >= 1 {
            assert(cap * (qb - qa) >= cap) by (nonlinear_arith)
                requires qb - qa >= 1, cap > 0;
        } else {
            assert(cap * (qb - qa) <= 0) by (nonlinear_arith)
                requires qb - qa <= 0, cap > 0;
        }
    }
}

/// The logical index `start + k` selects the same slot as `advance(start, k)`.
pub proof fn lemma_advance_slot(start: u32, k: nat, cap: int)
    requires
        valid_capacity(cap),
        k < INDEX_SPAN,
    ensures
        slot_of(advance(start, k) as int, cap) == slot_of(start + k, cap),
{
    if start + k >= INDEX_SPAN {
        lemma_slot_wrap(start + k - INDEX_SPAN, cap);
    }
}

/// Moving `k` steps forward covers a distance of `k`.
pub proof fn lemma_dist_advance(from: u32, k: nat)
    requires
        k < INDEX_SPAN,
    ensures
        dist(from, advance(from, k)) == k,
{
}

/// Moving forward by the distance to an index reaches that index.
pub proof fn lemma_advance_dist(from: u32, to: u32)
    ensures
        advance(from, dist(from, to)) == to,
{
}

/// Distances add up along the index circle.
pub proof fn lemma_dist_step(a: u32, b: u32, k: nat)
    requires
        dist(a, b) + k < INDEX_SPAN,
    ensures
        dist(a, advance(b, k)) == dist(a, b) + k,
{
}

/// An index between `a` and `c` splits the distance from `a` to `c`.
pub proof fn lemma_dist_split(a: u32, b: u32, c: u32)
    requires
        dist(a, b) <= dist(a, c),
    ensures
        dist(b, c) == dist(a, c) - dist(a, b),
{
}

/// Writing the slot right after a window extends it by that record.
pub proof fn lemma_window_push<T>(slots: Seq<T>, start: u32, n: nat, r: T)
    requires
        valid_capacity(slots.len() as int),
        n < slots.len(),
    ensures
        window(slots.update(slot_of(start + n, slots.len() as int), r), start, n + 1)
            == window(slots, start, n).push(r),
{
    let cap = slots.len() as int;
    let s = slot_of(start + n, cap);
    let lhs = window(slots.update(s, r), start, n + 1);
    let rhs = window(slots, start, n).push(r);
    assert forall|i: int| 0 <= i < n + 1 implies lhs[i] == rhs[i] by {
        if i < n {
            lemma_distinct_slots(start + i, start + n, cap);
        }
    }
    assert(lhs =~= rhs);
}

/// Dropping the first `k` records of a window moves its start by `k`.
pub proof fn lemma_window_skip<T>(slots: Seq<T>, start: u32, n: nat, k: nat)
    requires
        valid_capacity(slots.len() as int),
        k <= n,
        n < INDEX_SPAN,
    ensures
        window(slots, advance(start, k), (n - k) as nat) == window(slots, start, n).skip(k as int),
{
    let cap = slots.len() as int;
    let lhs = window(slots, advance(start, k), (n - k) as nat);
    let rhs = window(slots, start, n).skip(k as int);
    assert forall|i: int| 0 <= i < n - k implies lhs[i] == rhs[i] by {
        let a = advance(start, k) as int;
        lemma_advance_slot(start, k, cap);
        if start + k >= INDEX_SPAN {
            lemma_slot_wrap(a + i, cap);
            assert(a + i + INDEX_SPAN == start + k + i);
        }
    }
    assert(lhs =~= rhs);
}

} // verus!
