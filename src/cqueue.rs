//! Consumer side of the completion ring.

use crate::ring::{
    advance, dist, distance, lemma_advance_dist, lemma_advance_slot, lemma_dist_advance,
    lemma_dist_split, lemma_dist_step, lemma_distinct_slots, lemma_window_push, lemma_window_skip, next_index, slot,
    slot_of, is_valid_capacity, valid_capacity, window,
};
use vstd::prelude::*;

verus! {

/// A completion record: the correlation identifier of the submission it
/// answers, a result code (negative for an OS error code) and flags.
#[derive(Clone, Copy, Debug, PartialEq, Eq, Structural)]
pub struct Cqe {
    pub user_data: u64,
    pub res: i32,
    pub flags: u32,
}

impl Cqe {
    /// A completion record with the given fields.
    pub fn new(user_data: u64, res: i32, flags: u32) -> (r: Cqe)
        ensures
            r == (Cqe { user_data, res, flags }),
    {
        Cqe { user_data, res, flags }
    }

    /// The correlation identifier echoed from the submission.
    pub fn user_data(&self) -> (r: u64)
        ensures
            r == self.user_data,
    {
        self.user_data
    }

    /// The result code: bytes transferred and the like, or a negated OS error code.
    pub fn result(&self) -> (r: i32)
        ensures
            r == self.res,
    {
        self.res
    }

    /// The record's flags.
    pub fn flags(&self) -> (r: u32)
        ensures
            r == self.flags,
    {
        self.flags
    }
}

/// The completion ring and the consumer's local counters.
///
/// `tail` is owned by the kernel, which posts records behind it; `head` is
/// the consumer's published index, which frees slots for reuse. The consumer
/// reads up to `cached_tail`, a snapshot of `tail` taken by `sync`, moves
/// `local_head` over what it has read, and publishes it in one write.
pub struct CompletionQueue {
    entries: Vec<Cqe>,
    head: u32,
    tail: u32,
    cached_tail: u32,
    local_head: u32,
    overflow: u32,
}

/// Mathematical model of a completion ring.
pub struct CqModel {
    pub slots: Seq<Cqe>,
    pub head: u32,
    pub tail: u32,
    pub cached_tail: u32,
    pub local_head: u32,
    pub overflow: u32,
}

impl CqModel {
    pub open spec fn capacity(self) -> nat {
        self.slots.len()
    }

    /// The indices lie in the order head, local head, cached tail, tail,
    /// within one capacity.
    pub open spec fn wf(self) -> bool {
        &&& valid_capacity(self.capacity() as int)
        &&& dist(self.head, self.local_head) <= dist(self.head, self.cached_tail)
        &&& dist(self.head, self.cached_tail) <= dist(self.head, self.tail)
        &&& dist(self.head, self.tail) <= self.capacity()
    }

    /// Slots the kernel counts as taken.
    pub open spec fn len(self) -> nat {
        dist(self.head, self.tail)
    }

    pub open spec fn is_full(self) -> bool {
        self.len() == self.capacity()
    }

    /// Every posted record the consumer has not read, oldest first.
    pub open spec fn available(self) -> Seq<Cqe> {
        window(self.slots, self.local_head, dist(self.local_head, self.tail))
    }

    /// The records of the current snapshot still to be read, oldest first.
    pub open spec fn snapshot(self) -> Seq<Cqe> {
        window(self.slots, self.local_head, dist(self.local_head, self.cached_tail))
    }

    /// The ring after the kernel tries to post `record`: when full, the record
    /// is dropped and counted as overflow.
    pub open spec fn posted(self, record: Cqe) -> CqModel {
        if self.is_full() {
            CqModel { overflow: advance(self.overflow, 1), ..self }
        } else {
            CqModel {
                slots: self.slots.update(slot_of(self.tail as int, self.capacity() as int), record),
                tail: advance(self.tail, 1),
                ..self
            }
        }
    }

    /// The ring after a drain pass that read `k` records.
    pub open spec fn drained(self, k: nat) -> CqModel {
        CqModel {
            head: advance(self.local_head, k),
            local_head: advance(self.local_head, k),
            cached_tail: self.tail,
            ..self
        }
    }
}

/// Posting into a ring with room appends the record to what is available
/// and leaves the current snapshot alone.
pub proof fn lemma_post_step(m: CqModel, record: Cqe)
    requires
        m.wf(),
        !m.is_full(),
    ensures
        m.posted(record).wf(),
        m.posted(record).available() == m.available().push(record),
        m.posted(record).snapshot() == m.snapshot(),
{
    let p = m.posted(record);
    let c = m.capacity() as int;
    lemma_dist_split(m.head, m.local_head, m.tail);
    lemma_dist_split(m.head, m.cached_tail, m.tail);
    lemma_dist_step(m.head, m.tail, 1);
    lemma_dist_step(m.local_head, m.tail, 1);
    let n = dist(m.local_head, m.tail);
    lemma_advance_dist(m.local_head, m.tail);
    lemma_advance_slot(m.local_head, n, c);
    lemma_window_push(m.slots, m.local_head, n, record);
    lemma_dist_split(m.local_head, m.cached_tail, m.tail);
    let sl = dist(m.local_head, m.cached_tail);
    assert forall|i: int| 0 <= i < sl implies p.snapshot()[i] == m.snapshot()[i] by {
        lemma_distinct_slots(m.local_head + i, m.local_head + n, c);
    }
    assert(p.snapshot() =~= m.snapshot());
}

/// A drain pass that reads `k` records drops them from the front of what is
/// available and releases exactly their slots.
pub proof fn lemma_drain_step(m: CqModel, k: nat)
    requires
        m.wf(),
        k <= m.available().len(),
    ensures
        m.drained(k).wf(),
        m.drained(k).available() == m.available().skip(k as int),
        m.drained(k).snapshot() == m.available().skip(k as int),
        m.drained(k).len() == m.len() - dist(m.head, m.local_head) - k,
{
    lemma_dist_split(m.head, m.local_head, m.tail);
    lemma_dist_step(m.head, m.local_head, k);
    lemma_dist_split(m.local_head, advance(m.local_head, k), m.tail);
    lemma_dist_split(m.head, advance(m.local_head, k), m.tail);
    lemma_dist_advance(m.local_head, k);
    lemma_window_skip(m.slots, m.local_head, dist(m.local_head, m.tail), k);
}

impl View for CompletionQueue {
    type V = CqModel;

    closed spec fn view(&self) -> CqModel {
        CqModel {
            slots: self.entries@,
            head: self.head,
            tail: self.tail,
            cached_tail: self.cached_tail,
            local_head: self.local_head,
            overflow: self.overflow,
        }
    }
}

impl CompletionQueue {
    /// An empty ring of `capacity` zeroed slots, or `None` when the capacity
    /// is not a power of two of at most 2^31.
    pub fn new(capacity: u32) -> (r: Option<CompletionQueue>)
        ensures
            r.is_some() <==> valid_capacity(capacity as int),
            r matches Some(q) ==> {
                &&& q@.wf()
                &&& q@.capacity() == capacity
                &&& q@.head == 0 && q@.tail == 0 && q@.cached_tail == 0 && q@.local_head == 0
                &&& q@.overflow == 0
            },
    {
        if !is_valid_capacity(capacity) {
            return None;
        }
        let mut entries: Vec<Cqe> = Vec::new();
        while entries.len() < capacity as usize
            invariant
                entries.len() <= capacity,
            decreases capacity - entries.len(),
        {
            entries.push(Cqe::new(0, 0, 0));
        }
        Some(CompletionQueue { entries, head: 0, tail: 0, cached_tail: 0, local_head: 0, overflow: 0 })
    }

    /// Number of slots; a power of two.
    pub fn capacity(&self) -> (r: u32)
        requires
            self@.wf(),
        ensures
            r == self@.capacity(),
    {
        self.entries.len() as u32
    }

    /// Mask that selects a slot from an index: capacity minus one.
    pub fn mask(&self) -> (r: u32)
        requires
            self@.wf(),
        ensures
            r == self@.capacity() - 1,
    {
        self.entries.len() as u32 - 1
    }

    /// The published head index.
    pub fn head(&self) -> (r: u32)
        ensures
            r == self@.head,
    {
        self.head
    }

    /// The kernel-owned tail index.
    pub fn tail(&self) -> (r: u32)
        ensures
            r == self@.tail,
    {
        self.tail
    }

    /// Completions the kernel could not post because the ring was full.
    /// Growth of this counter means lost completions.
    pub fn overflow(&self) -> (r: u32)
        ensures
            r == self@.overflow,
    {
        self.overflow
    }

    /// Number of slots the kernel counts as taken.
    pub fn len(&self) -> (r: u32)
        ensures
            r == self@.len(),
    {
        distance(self.head, self.tail)
    }

    /// Whether the kernel has no record waiting to be read.
    pub fn is_empty(&self) -> (r: bool)
        ensures
            r == (self@.available().len() == 0),
    {
        self.local_head == self.tail
    }

    /// Whether every slot is taken, so that further completions overflow.
    pub fn is_full(&self) -> (r: bool)
        requires
            self@.wf(),
        ensures
            r == self@.is_full(),
    {
        distance(self.head, self.tail) == self.entries.len() as u32
    }

    /// Takes a snapshot of the kernel's tail: the records before it can be read.
    pub fn sync(&mut self)
        requires
            old(self)@.wf(),
        ensures
            final(self)@ == (CqModel { cached_tail: old(self)@.tail, ..old(self)@ }),
            final(self)@.wf(),
            final(self)@.snapshot() == old(self)@.available(),
    {
        self.cached_tail = self.tail;
    }

    /// Reads the next record of the snapshot, if any, and moves past it
    /// locally; the slot stays taken until `publish`.
    pub fn next(&mut self) -> (r: Option<Cqe>)
        requires
            old(self)@.wf(),
        ensures
            final(self)@.wf(),
            r is None <==> old(self)@.snapshot().len() == 0,
            r is None ==> final(self)@ == old(self)@,
            r matches Some(c) ==> {
                &&& c == old(self)@.snapshot()[0]
                &&& final(self)@ == (CqModel { local_head: advance(old(self)@.local_head, 1), ..old(self)@ })
                &&& final(self)@.snapshot() == old(self)@.snapshot().skip(1)
                &&& final(self)@.available() == old(self)@.available().skip(1)
            },
    {
        if self.local_head == self.cached_tail {
            return None;
        }
        let ghost pre = self@;
        let cap = self.entries.len() as u32;
        let c = self.entries[slot(self.local_head, cap)];
        self.local_head = next_index(self.local_head);
        proof {
            lemma_dist_split(pre.head, pre.local_head, pre.cached_tail);
            lemma_dist_split(pre.head, pre.local_head, pre.tail);
            lemma_dist_step(pre.head, pre.local_head, 1);
            lemma_dist_split(pre.local_head, self.local_head, pre.cached_tail);
            lemma_dist_split(pre.local_head, self.local_head, pre.tail);
            lemma_dist_split(pre.head, self.local_head, pre.cached_tail);
            lemma_dist_advance(pre.local_head, 1);
            lemma_window_skip(pre.slots, pre.local_head, dist(pre.local_head, pre.cached_tail), 1);
            lemma_window_skip(pre.slots, pre.local_head, dist(pre.local_head, pre.tail), 1);
        }
        Some(c)
    }

    /// Releases every record read so far to the kernel in one write of the head.
    pub fn publish(&mut self)
        requires
            old(self)@.wf(),
        ensures
            final(self)@ == (CqModel { head: old(self)@.local_head, ..old(self)@ }),
            final(self)@.wf(),
    {
        proof {
            lemma_dist_split(self.head, self.local_head, self.cached_tail);
            lemma_dist_split(self.head, self.local_head, self.tail);
            lemma_dist_split(self.head, self.cached_tail, self.tail);
        }
        self.head = self.local_head;
    }

    /// One drain pass: snapshots the kernel's tail, reads up to `max` records
    /// in order, and publishes the head past exactly those.
    pub fn drain(&mut self, max: usize) -> (r: Vec<Cqe>)
        requires
            old(self)@.wf(),
        ensures
            final(self)@.wf(),
            r@.len() == if max <= old(self)@.available().len() { max as nat } else { old(self)@.available().len() },
            r@ == old(self)@.available().take(r@.len() as int),
            final(self)@.available() == old(self)@.available().skip(r@.len() as int),
            final(self)@ == old(self)@.drained(r@.len()),
    {
        let ghost pre = self@;
        self.sync();
        let mut out: Vec<Cqe> = Vec::new();
        while out.len() < max
            invariant
                self@.wf(),
                self@.slots == pre.slots,
                self@.head == pre.head,
                self@.tail == pre.tail,
                self@.cached_tail == pre.tail,
                self@.overflow == pre.overflow,
                out@.len() <= max,
                out@.len() <= pre.available().len(),
                self@.local_head == advance(pre.local_head, out@.len()),
                out@ == pre.available().take(out@.len() as int),
                self@.snapshot() == pre.available().skip(out@.len() as int),
                self@.available() == pre.available().skip(out@.len() as int),
            ensures
                out@.len() == max || out@.len() == pre.available().len(),
            decreases max - out@.len(),
        {
            let ghost before = self@;
            match self.next() {
                None => {
                    assert(pre.available().skip(out@.len() as int).len() == 0);
                    break;
                },
                Some(c) => {
                    proof {
                        lemma_dist_step(pre.local_head, before.local_head, 1);
                        assert(pre.available().skip(out@.len() as int).skip(1)
                            =~= pre.available().skip(out@.len() as int + 1));
                    }
                    out.push(c);
                    proof {
                        assert(out@ =~= pre.available().take(out@.len() as int));
                    }
                },
            }
        }
        proof {
            lemma_dist_advance(pre.local_head, out@.len());
        }
        self.publish();
        out
    }

    /// Kernel side: posts `record` behind the tail, or, when every slot is
    /// taken, counts it as overflow and drops it.
    pub fn kernel_post(&mut self, record: Cqe) -> (r: bool)
        requires
            old(self)@.wf(),
        ensures
            final(self)@.wf(),
            r == !old(self)@.is_full(),
            final(self)@ == old(self)@.posted(record),
            !r ==> final(self)@.overflow == advance(old(self)@.overflow, 1),
            r ==> {
                &&& final(self)@.available() == old(self)@.available().push(record)
                &&& final(self)@.snapshot() == old(self)@.snapshot()
            },
    {
        let cap = self.entries.len() as u32;
        if distance(self.head, self.tail) == cap {
            self.overflow = next_index(self.overflow);
            return false;
        }
        proof {
            lemma_post_step(self@, record);
        }
        self.entries.set(slot(self.tail, cap), record);
        self.tail = next_index(self.tail);
        true
    }
}

} // verus!
