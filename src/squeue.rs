//! Producer side of the submission ring.

use crate::ring::{
    advance, dist, distance, lemma_advance_dist, lemma_dist_advance, lemma_advance_slot, lemma_dist_split,
    lemma_dist_step, lemma_distinct_slots, lemma_window_push, lemma_window_skip, next_index, slot, slot_of,
    is_valid_capacity, valid_capacity, window,
};
use vstd::prelude::*;

verus! {

/// A submission record. The ring stores and copies it and never reads
/// its operation-specific fields.
#[derive(Clone, Copy, Debug, PartialEq, Eq, Structural)]
pub struct Sqe {
    pub opcode: u8,
    pub flags: u8,
    pub ioprio: u16,
    pub fd: i32,
    pub off: u64,
    pub addr: u64,
    pub len: u32,
    pub op_flags: u32,
    pub user_data: u64,
}

impl Sqe {
    /// A record with every field zero.
    pub fn zeroed() -> (r: Sqe)
        ensures
            r.opcode == 0 && r.flags == 0 && r.ioprio == 0 && r.fd == 0,
            r.off == 0 && r.addr == 0 && r.len == 0 && r.op_flags == 0 && r.user_data == 0,
    {
        Sqe { opcode: 0, flags: 0, ioprio: 0, fd: 0, off: 0, addr: 0, len: 0, op_flags: 0, user_data: 0 }
    }

    /// The same record with its correlation identifier set.
    pub fn user_data(self, user_data: u64) -> (r: Sqe)
        ensures
            r == (Sqe { user_data, ..self }),
    {
        Sqe { user_data, ..self }
    }
}

/// The submission ring and the producer's local counters.
///
/// `head` is owned by the kernel, which advances it as it consumes
/// records; `tail` is the producer's published index. The producer works
/// on `local_tail` and publishes it in one write, and checks for room
/// against `cached_head`, a snapshot of `head` refreshed by `sync`.
pub struct SubmissionQueue {
    entries: Vec<Sqe>,
    head: u32,
    tail: u32,
    cached_head: u32,
    local_tail: u32,
    dropped: u32,
}

/// Mathematical model of a submission ring.
pub struct SqModel {
    pub slots: Seq<Sqe>,
    pub head: u32,
    pub tail: u32,
    pub cached_head: u32,
    pub local_tail: u32,
    pub dropped: u32,
}

impl SqModel {
    pub open spec fn capacity(self) -> nat {
        self.slots.len()
    }

    /// The indices lie in the order cached head, head, tail, local tail,
    /// within one capacity.
    pub open spec fn wf(self) -> bool {
        &&& valid_capacity(self.capacity() as int)
        &&& dist(self.cached_head, self.head) <= dist(self.cached_head, self.tail)
        &&& dist(self.cached_head, self.tail) <= dist(self.cached_head, self.local_tail)
        &&& dist(self.cached_head, self.local_tail) <= self.capacity()
    }

    /// Number of records the producer counts as in the ring.
    pub open spec fn len(self) -> nat {
        dist(self.cached_head, self.local_tail)
    }

    pub open spec fn is_full(self) -> bool {
        self.len() == self.capacity()
    }

    /// Every record written and not yet consumed by the kernel, oldest first.
    pub open spec fn held(self) -> Seq<Sqe> {
        window(self.slots, self.head, dist(self.head, self.local_tail))
    }

    /// The records visible to the kernel, oldest first.
    pub open spec fn published(self) -> Seq<Sqe> {
        window(self.slots, self.head, dist(self.head, self.tail))
    }

    /// The records written but not yet published, oldest first.
    pub open spec fn unpublished(self) -> Seq<Sqe> {
        window(self.slots, self.tail, dist(self.tail, self.local_tail))
    }

    /// Physical slot of the next push.
    pub open spec fn next_slot(self) -> int {
        slot_of(self.local_tail as int, self.capacity() as int)
    }

    /// The ring after an attempt to push `record`: unchanged when full.
    pub open spec fn pushed(self, record: Sqe) -> SqModel {
        if self.is_full() {
            self
        } else {
            SqModel {
                slots: self.slots.update(self.next_slot(), record),
                local_tail: advance(self.local_tail, 1),
                ..self
            }
        }
    }

    /// The ring after the local tail is published.
    pub open spec fn flushed(self) -> SqModel {
        SqModel { tail: self.local_tail, ..self }
    }

    /// The ring after the kernel consumes `k` published records.
    pub open spec fn consumed(self, k: nat) -> SqModel {
        SqModel { head: advance(self.head, k), ..self }
    }
}

/// One push on a ring with room appends the record to what the ring holds
/// and to what awaits publication, and leaves the published records alone.
pub proof fn lemma_push_step(m: SqModel, record: Sqe)
    requires
        m.wf(),
        !m.is_full(),
    ensures
        m.pushed(record).wf(),
        m.pushed(record).len() == m.len() + 1,
        m.pushed(record).held() == m.held().push(record),
        m.pushed(record).unpublished() == m.unpublished().push(record),
        m.pushed(record).published() == m.published(),
{
    let n = m.pushed(record);
    let c = m.capacity() as int;
    lemma_dist_split(m.cached_head, m.head, m.local_tail);
    lemma_dist_split(m.cached_head, m.tail, m.local_tail);
    lemma_dist_step(m.cached_head, m.local_tail, 1);
    lemma_dist_step(m.head, m.local_tail, 1);
    lemma_dist_step(m.tail, m.local_tail, 1);
    lemma_dist_split(m.cached_head, m.head, n.local_tail);
    lemma_dist_split(m.cached_head, m.tail, n.local_tail);
    let nh = dist(m.head, m.local_tail);
    let nt = dist(m.tail, m.local_tail);
    lemma_advance_dist(m.head, m.local_tail);
    lemma_advance_dist(m.tail, m.local_tail);
    lemma_advance_slot(m.head, nh, c);
    lemma_advance_slot(m.tail, nt, c);
    lemma_window_push(m.slots, m.head, nh, record);
    lemma_window_push(m.slots, m.tail, nt, record);
    let pl = dist(m.head, m.tail);
    assert forall|i: int| 0 <= i < pl implies n.published()[i] == m.published()[i] by {
        lemma_distinct_slots(m.head + i, m.head + nh, c);
    }
    assert(n.published() =~= m.published());
}

/// Consuming `k` published records drops them from the front of what is
/// published and of what the ring holds.
pub proof fn lemma_consume_step(m: SqModel, k: nat)
    requires
        m.wf(),
        k <= m.published().len(),
    ensures
        m.consumed(k).wf(),
        m.consumed(k).published() == m.published().skip(k as int),
        m.consumed(k).held() == m.held().skip(k as int),
        m.consumed(k).unpublished() == m.unpublished(),
{
    lemma_dist_split(m.cached_head, m.head, m.tail);
    lemma_dist_split(m.cached_head, m.head, m.local_tail);
    lemma_dist_step(m.cached_head, m.head, k);
    lemma_dist_split(m.head, advance(m.head, k), m.tail);
    lemma_dist_split(m.head, advance(m.head, k), m.local_tail);
    lemma_dist_advance(m.head, k);
    lemma_window_skip(m.slots, m.head, dist(m.head, m.tail), k);
    lemma_window_skip(m.slots, m.head, dist(m.head, m.local_tail), k);
}

impl View for SubmissionQueue {
    type V = SqModel;

    closed spec fn view(&self) -> SqModel {
        SqModel {
            slots: self.entries@,
            head: self.head,
            tail: self.tail,
            cached_head: self.cached_head,
            local_tail: self.local_tail,
            dropped: self.dropped,
        }
    }
}

impl SubmissionQueue {
    /// An empty ring of `capacity` zeroed slots, or `None` when the capacity
    /// is not a power of two of at most 2^31.
    pub fn new(capacity: u32) -> (r: Option<SubmissionQueue>)
        ensures
            r.is_some() <==> valid_capacity(capacity as int),
            r matches Some(q) ==> {
                &&& q@.wf()
                &&& q@.capacity() == capacity
                &&& q@.head == 0 && q@.tail == 0 && q@.cached_head == 0 && q@.local_tail == 0
                &&& q@.dropped == 0
            },
    {
        if !is_valid_capacity(capacity) {
            return None;
        }
        let mut entries: Vec<Sqe> = Vec::new();
        while entries.len() < capacity as usize
            invariant
                entries.len() <= capacity,
            decreases capacity - entries.len(),
        {
            entries.push(Sqe::zeroed());
        }
        Some(SubmissionQueue { entries, head: 0, tail: 0, cached_head: 0, local_tail: 0, dropped: 0 })
    }

    /// Number of slots; a power of two.
    pub fn capacity(&self) -> (r: u32)
        requires
            self@.wf(),
        ensures
            r == self@.capacity(),
    {
        self.entries.len() as u32
    }

    /// Mask that selects a slot from an index: capacity minus one.
    pub fn mask(&self) -> (r: u32)
        requires
            self@.wf(),
        ensures
            r == self@.capacity() - 1,
    {
        self.entries.len() as u32 - 1
    }

    /// The kernel-owned head index.
    pub fn head(&self) -> (r: u32)
        ensures
            r == self@.head,
    {
        self.head
    }

    /// The published tail index.
    pub fn tail(&self) -> (r: u32)
        ensures
            r == self@.tail,
    {
        self.tail
    }

    /// Records the kernel dropped as invalid.
    pub fn dropped(&self) -> (r: u32)
        ensures
            r == self@.dropped,
    {
        self.dropped
    }

    /// Number of records the producer counts as in the ring.
    pub fn len(&self) -> (r: u32)
        ensures
            r == self@.len(),
    {
        distance(self.cached_head, self.local_tail)
    }

    /// Whether the ring has no room for another record, as of the last `sync`.
    pub fn is_full(&self) -> (r: bool)
        requires
            self@.wf(),
        ensures
            r == self@.is_full(),
    {
        distance(self.cached_head, self.local_tail) == self.entries.len() as u32
    }

    /// Whether no pushed record is waiting to be published.
    pub fn is_empty(&self) -> (r: bool)
        ensures
            r == (self@.unpublished().len() == 0),
    {
        self.tail == self.local_tail
    }

    /// Re-reads the kernel's head so that slots it has consumed count as free.
    pub fn sync(&mut self)
        requires
            old(self)@.wf(),
        ensures
            final(self)@ == (SqModel { cached_head: old(self)@.head, ..old(self)@ }),
            final(self)@.wf(),
    {
        proof {
            lemma_dist_split(self.cached_head, self.head, self.tail);
            lemma_dist_split(self.cached_head, self.head, self.local_tail);
        }
        self.cached_head = self.head;
    }

    /// Makes every pushed record visible to the kernel in one write of the tail.
    pub fn publish(&mut self)
        requires
            old(self)@.wf(),
        ensures
            final(self)@ == old(self)@.flushed(),
            final(self)@.wf(),
            final(self)@.published() == old(self)@.held(),
            final(self)@.unpublished().len() == 0,
    {
        self.tail = self.local_tail;
    }

    /// Writes `record` into the next free slot and advances the local tail;
    /// when the ring is full, hands `record` back unchanged and changes nothing.
    pub fn push(&mut self, record: Sqe) -> (r: Result<(), Sqe>)
        requires
            old(self)@.wf(),
        ensures
            final(self)@.wf(),
            final(self)@ == old(self)@.pushed(record),
            r.is_err() <==> old(self)@.is_full(),
            r matches Err(e) ==> e == record && final(self)@ == old(self)@,
            r is Ok ==> {
                &&& final(self)@.held() == old(self)@.held().push(record)
                &&& final(self)@.unpublished() == old(self)@.unpublished().push(record)
                &&& final(self)@.published() == old(self)@.published()
                &&& final(self)@.len() == old(self)@.len() + 1
            },
    {
        let cap = self.entries.len() as u32;
        if distance(self.cached_head, self.local_tail) == cap {
            return Err(record);
        }
        proof {
            lemma_push_step(self@, record);
        }
        let s = slot(self.local_tail, cap);
        self.entries.set(s, record);
        self.local_tail = next_index(self.local_tail);
        Ok(())
    }

    /// Kernel side: consumes up to `n` published records, oldest first, and
    /// advances the shared head past them.
    pub fn kernel_consume(&mut self, n: u32) -> (r: Vec<Sqe>)
        requires
            old(self)@.wf(),
        ensures
            final(self)@.wf(),
            r@.len() == if n <= old(self)@.published().len() { n as nat } else { old(self)@.published().len() },
            r@ == old(self)@.published().take(r@.len() as int),
            final(self)@ == old(self)@.consumed(r@.len()),
            final(self)@.published() == old(self)@.published().skip(r@.len() as int),
            final(self)@.held() == old(self)@.held().skip(r@.len() as int),
    {
        let ghost pre = self@;
        let avail = distance(self.head, self.tail);
        let k = if n <= avail { n } else { avail };
        let cap = self.entries.len() as u32;
        let mut out: Vec<Sqe> = Vec::new();
        let mut i: u32 = 0;
        let mut idx = self.head;
        while i < k
            invariant
                pre == self@,
                pre.wf(),
                cap == pre.capacity(),
                k <= dist(pre.head, pre.tail),
                i <= k,
                idx == advance(pre.head, i as nat),
                out@ == pre.published().take(i as int),
            decreases k - i,
        {
            proof {
                lemma_advance_slot(pre.head, i as nat, cap as int);
            }
            let s = slot(idx, cap);
            out.push(self.entries[s]);
            proof {
                assert(out@ =~= pre.published().take(i + 1));
            }
            idx = next_index(idx);
            i = i + 1;
        }
        proof {
            lemma_consume_step(pre, k as nat);
        }
        self.head = idx;
        out
    }
}

} // verus!
