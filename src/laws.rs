//! Properties of the ring protocol that span several operations.

use crate::cqueue::{lemma_drain_step, lemma_post_step, Cqe, CqModel};
use crate::ring::{dist, lemma_advance_dist, lemma_distinct_slots, lemma_slot_wrap, slot_of};
use crate::squeue::{lemma_consume_step, lemma_push_step, Sqe, SqModel};
use vstd::prelude::*;

verus! {

/// The submission ring after attempts to push each of `records`, in order.
pub open spec fn push_all(m: SqModel, records: Seq<Sqe>) -> SqModel
    decreases records.len(),
{
    if records.len() == 0 {
        m
    } else {
        push_all(m, records.drop_last()).pushed(records.last())
    }
}

/// The records among `records` that those pushes accepted, in order.
pub open spec fn accepted(m: SqModel, records: Seq<Sqe>) -> Seq<Sqe>
    decreases records.len(),
{
    if records.len() == 0 {
        Seq::empty()
    } else if push_all(m, records.drop_last()).is_full() {
        accepted(m, records.drop_last())
    } else {
        accepted(m, records.drop_last()).push(records.last())
    }
}

/// Pushes serialised in any order: the ring gains exactly the accepted
/// records, after what it held, so the number of records taken equals the
/// number of successful pushes; and what it holds never exceeds its
/// capacity and sits in pairwise distinct slots, so no push overwrites a
/// record the kernel has not consumed.
pub proof fn lemma_serialized_pushes(m: SqModel, records: Seq<Sqe>)
    requires
        m.wf(),
    ensures
        push_all(m, records).wf(),
        push_all(m, records).held() == m.held() + accepted(m, records),
        push_all(m, records).len() == m.len() + accepted(m, records).len(),
        push_all(m, records).published() == m.published(),
        push_all(m, records).head == m.head,
        push_all(m, records).capacity() == m.capacity(),
        push_all(m, records).held().len() <= m.capacity(),
        forall|i: int, j: int|
            0 <= i < j < push_all(m, records).held().len() ==> #[trigger] slot_of(m.head + i, m.capacity() as int)
                != #[trigger] slot_of(m.head + j, m.capacity() as int),
    decreases records.len(),
{
    if records.len() > 0 {
        let prefix = records.drop_last();
        lemma_serialized_pushes(m, prefix);
        let p = push_all(m, prefix);
        if !p.is_full() {
            lemma_push_step(p, records.last());
            assert(m.held() + accepted(m, prefix).push(records.last())
                =~= (m.held() + accepted(m, prefix)).push(records.last()));
        }
    }
    let q = push_all(m, records);
    crate::ring::lemma_dist_split(q.cached_head, q.head, q.local_tail);
    assert forall|i: int, j: int| 0 <= i < j < q.held().len() implies #[trigger] slot_of(m.head + i, m.capacity() as int)
        != #[trigger] slot_of(m.head + j, m.capacity() as int) by {
        lemma_distinct_slots(m.head + i, m.head + j, m.capacity() as int);
    }
}

/// Pushes that fit: the ring is never full before any of them, it then
/// holds exactly the pushed records after what it held, in push order, and
/// publishing the tail makes all of them visible in that order.
pub proof fn lemma_fill_in_order(m: SqModel, records: Seq<Sqe>)
    requires
        m.wf(),
        m.len() + records.len() <= m.capacity(),
    ensures
        forall|i: int| 0 <= i < records.len() ==> !(#[trigger] push_all(m, records.take(i))).is_full(),
        accepted(m, records) == records,
        push_all(m, records).held() == m.held() + records,
        push_all(m, records).flushed().published() == m.held() + records,
    decreases records.len(),
{
    if records.len() > 0 {
        let prefix = records.drop_last();
        lemma_fill_in_order(m, prefix);
        lemma_serialized_pushes(m, prefix);
        assert forall|i: int| 0 <= i < records.len() implies !(#[trigger] push_all(m, records.take(i))).is_full() by {
            if i < prefix.len() {
                assert(records.take(i) =~= prefix.take(i));
            } else {
                assert(records.take(i) =~= prefix);
            }
        }
    }
    lemma_serialized_pushes(m, records);
}

/// A single producer's records land in consecutive slots from its local
/// tail on, in push order.
pub proof fn lemma_slots_in_order(m: SqModel, records: Seq<Sqe>)
    requires
        m.wf(),
        m.len() + records.len() <= m.capacity(),
    ensures
        forall|i: int| 0 <= i < records.len() ==>
            push_all(m, records).slots[#[trigger] slot_of(m.local_tail + i, m.capacity() as int)] == records[i],
{
    lemma_fill_in_order(m, records);
    lemma_serialized_pushes(m, records);
    crate::ring::lemma_dist_split(m.cached_head, m.head, m.local_tail);
    let q = push_all(m, records);
    let c = m.capacity() as int;
    let h = dist(m.head, m.local_tail);
    lemma_advance_dist(m.head, m.local_tail);
    assert forall|i: int| 0 <= i < records.len() implies
        q.slots[#[trigger] slot_of(m.local_tail + i, c)] == records[i] by {
        assert(q.held()[h + i] == records[i]);
        if m.head + h != m.local_tail {
            lemma_slot_wrap(m.local_tail + i, c);
        }
    }
}

/// A record pushed, published and consumed by the kernel comes back in a
/// completion that carries the same correlation identifier and the result
/// code the kernel chose, and a drain pass yields exactly that completion.
pub proof fn lemma_round_trip(sq: SqModel, cq: CqModel, record: Sqe, res: i32, flags: u32)
    requires
        sq.wf(),
        sq.held().len() == 0,
        !sq.is_full(),
        cq.wf(),
        cq.available().len() == 0,
        !cq.is_full(),
    ensures
        sq.pushed(record).flushed().published() == seq![record],
        ({
            let c = Cqe { user_data: sq.pushed(record).flushed().published()[0].user_data, res, flags };
            &&& cq.posted(c).available() == seq![c]
            &&& cq.posted(c).available().take(1)[0].user_data == record.user_data
            &&& cq.posted(c).available().take(1)[0].res == res
            &&& cq.posted(c).drained(1).available().len() == 0
        }),
{
    lemma_push_step(sq, record);
    let pushed = sq.pushed(record);
    assert(pushed.flushed().published() =~= seq![record]);
    let c = Cqe { user_data: record.user_data, res, flags };
    lemma_post_step(cq, c);
    assert(cq.posted(c).available() =~= seq![c]);
    lemma_drain_step(cq.posted(c), 1);
}

/// Draining only the first `k` of the available completions releases
/// exactly `k` slots, and the next pass yields the rest, in order.
pub proof fn lemma_partial_drains(m: CqModel, k: nat)
    requires
        m.wf(),
        m.head == m.local_head,
        k <= m.available().len(),
    ensures
        dist(m.head, m.drained(k).head) == k,
        m.drained(k).available() == m.available().subrange(k as int, m.available().len() as int),
        m.available().take(k as int) + m.drained(k).available() == m.available(),
        m.drained(k).drained((m.available().len() - k) as nat).available().len() == 0,
{
    lemma_drain_step(m, k);
    crate::ring::lemma_dist_advance(m.local_head, k);
    let d = m.drained(k);
    assert(m.available().take(k as int) + d.available() =~= m.available());
    assert(d.available() =~= m.available().subrange(k as int, m.available().len() as int));
    lemma_drain_step(d, (m.available().len() - k) as nat);
}

/// Consuming records the kernel was shown removes them from the front:
/// the kernel sees submissions in the order they were published.
pub proof fn lemma_consume_in_order(m: SqModel, k: nat)
    requires
        m.wf(),
        k <= m.published().len(),
    ensures
        m.published().take(k as int) + m.consumed(k).published() == m.published(),
{
    lemma_consume_step(m, k);
    assert(m.published().take(k as int) + m.published().skip(k as int) =~= m.published());
}

} // verus!
