use io_uring::cqueue::{CompletionQueue, Cqe};
use io_uring::dispatch::{
    enter_outcome, polling_args, register_arg_size, relay_outcome, submit_and_wait_args,
    submit_args, EnterArgs, EnterOutcome, RelayOutcome, EBUSY, EINTR, FD_SIZE,
    IORING_ENTER_GETEVENTS, IORING_REGISTER_BUFFERS, IORING_REGISTER_EVENTFD,
    IORING_REGISTER_FILES, IORING_REGISTER_FILES_UPDATE,
};
use io_uring::ring::{distance, is_valid_capacity, next_index, slot};
use io_uring::squeue::{Sqe, SubmissionQueue};

fn rec(id: u64) -> Sqe {
    Sqe::zeroed().user_data(id)
}

#[test]
fn capacity_must_be_power_of_two() {
    assert!(SubmissionQueue::new(0).is_none());
    assert!(SubmissionQueue::new(3).is_none());
    assert!(SubmissionQueue::new(6).is_none());
    assert!(SubmissionQueue::new(0x8000_0001).is_none());
    assert!(CompletionQueue::new(12).is_none());
    let sq = SubmissionQueue::new(8).unwrap();
    assert_eq!(sq.capacity(), 8);
    assert_eq!(sq.mask(), 7);
    let cq = CompletionQueue::new(1).unwrap();
    assert_eq!(cq.capacity(), 1);
    assert_eq!(cq.mask(), 0);
}

#[test]
fn capacity_four_fills_then_frees_after_consumption() {
    let mut sq = SubmissionQueue::new(4).unwrap();
    let (a, b, c, d, e) = (rec(1), rec(2), rec(3), rec(4), rec(5));
    assert_eq!(sq.push(a), Ok(()));
    assert_eq!(sq.push(b), Ok(()));
    assert_eq!(sq.push(c), Ok(()));
    assert_eq!(sq.push(d), Ok(()));
    assert_eq!(sq.push(e), Err(e));
    assert!(sq.is_full());
    sq.publish();
    let taken = sq.kernel_consume(2);
    assert_eq!(taken, vec![a, b]);
    sq.sync();
    assert!(!sq.is_full());
    assert_eq!(sq.push(e), Ok(()));
    sq.publish();
    assert_eq!(sq.len(), 3);
    assert_eq!(sq.kernel_consume(10), vec![c, d, e]);
}

#[test]
fn drain_two_completions_in_order() {
    let mut cq = CompletionQueue::new(4).unwrap();
    assert!(cq.kernel_post(Cqe::new(7, 42, 0)));
    assert!(cq.kernel_post(Cqe::new(8, -32, 0)));
    let head = cq.head();
    let got = cq.drain(usize::MAX);
    assert_eq!(got, vec![Cqe::new(7, 42, 0), Cqe::new(8, -32, 0)]);
    assert_eq!(got[1].result(), -32);
    assert_eq!(got[0].user_data(), 7);
    assert_eq!(distance(head, cq.head()), 2);
    assert!(cq.is_empty());
    assert!(cq.drain(usize::MAX).is_empty());
}

#[test]
fn not_full_before_last_push_and_fifo_after_publish() {
    let mut sq = SubmissionQueue::new(8).unwrap();
    for id in 0..8u64 {
        assert!(!sq.is_full());
        assert_eq!(sq.push(rec(id)), Ok(()));
    }
    assert!(sq.is_full());
    assert!(!sq.is_empty());
    sq.publish();
    assert!(sq.is_empty());
    let ids: Vec<u64> = sq.kernel_consume(8).iter().map(|r| r.user_data).collect();
    assert_eq!(ids, (0..8u64).collect::<Vec<u64>>());
}

#[test]
fn full_push_leaves_tail_unchanged() {
    let mut sq = SubmissionQueue::new(2).unwrap();
    assert_eq!(sq.push(rec(1)), Ok(()));
    assert_eq!(sq.push(rec(2)), Ok(()));
    sq.publish();
    let tail = sq.tail();
    let rejected = Sqe { opcode: 9, fd: -1, len: 77, ..rec(3) };
    assert_eq!(sq.push(rejected), Err(rejected));
    assert_eq!(sq.tail(), tail);
    assert_eq!(sq.len(), 2);
}

#[test]
fn unpublished_records_are_invisible_to_kernel() {
    let mut sq = SubmissionQueue::new(4).unwrap();
    assert_eq!(sq.push(rec(1)), Ok(()));
    assert!(sq.kernel_consume(4).is_empty());
    sq.publish();
    assert_eq!(sq.kernel_consume(4), vec![rec(1)]);
}

#[test]
fn round_trip_keeps_identifier_and_result() {
    let mut sq = SubmissionQueue::new(4).unwrap();
    let mut cq = CompletionQueue::new(8).unwrap();
    let r = Sqe { opcode: 22, fd: 5, ..rec(0xdead_beef) };
    assert_eq!(sq.push(r), Ok(()));
    sq.publish();
    let taken = sq.kernel_consume(1);
    assert_eq!(taken, vec![r]);
    assert!(cq.kernel_post(Cqe::new(taken[0].user_data, 512, 0)));
    let got = cq.drain(8);
    assert_eq!(got.len(), 1);
    assert_eq!(got[0].user_data(), 0xdead_beef);
    assert_eq!(got[0].result(), 512);
}

#[test]
fn partial_drain_publishes_only_consumed() {
    let mut cq = CompletionQueue::new(8).unwrap();
    for id in 0..5u64 {
        assert!(cq.kernel_post(Cqe::new(id, id as i32, 0)));
    }
    let head = cq.head();
    let first = cq.drain(2);
    assert_eq!(first, vec![Cqe::new(0, 0, 0), Cqe::new(1, 1, 0)]);
    assert_eq!(distance(head, cq.head()), 2);
    assert_eq!(cq.len(), 3);
    let rest = cq.drain(100);
    assert_eq!(rest, vec![Cqe::new(2, 2, 0), Cqe::new(3, 3, 0), Cqe::new(4, 4, 0)]);
    assert_eq!(distance(head, cq.head()), 5);
}

#[test]
fn next_without_publish_keeps_slots_taken() {
    let mut cq = CompletionQueue::new(2).unwrap();
    assert!(cq.kernel_post(Cqe::new(1, 0, 0)));
    assert!(cq.kernel_post(Cqe::new(2, 0, 0)));
    assert!(cq.next().is_none());
    cq.sync();
    assert_eq!(cq.next(), Some(Cqe::new(1, 0, 0)));
    assert!(cq.is_full());
    assert!(!cq.kernel_post(Cqe::new(3, 0, 0)));
    assert_eq!(cq.overflow(), 1);
    cq.publish();
    assert!(!cq.is_full());
    assert!(cq.kernel_post(Cqe::new(3, 0, 0)));
    assert_eq!(cq.next(), Some(Cqe::new(2, 0, 0)));
    assert_eq!(cq.next(), None);
    cq.sync();
    assert_eq!(cq.next(), Some(Cqe::new(3, 0, 0)));
}

#[test]
fn overflow_counts_lost_completions() {
    let mut cq = CompletionQueue::new(1).unwrap();
    assert!(cq.kernel_post(Cqe::new(1, 0, 0)));
    assert!(!cq.kernel_post(Cqe::new(2, 0, 0)));
    assert!(!cq.kernel_post(Cqe::new(3, 0, 0)));
    assert_eq!(cq.overflow(), 2);
    assert_eq!(cq.drain(4), vec![Cqe::new(1, 0, 0)]);
}

#[test]
fn single_producer_slots_follow_push_order() {
    let mut sq = SubmissionQueue::new(4).unwrap();
    let start = sq.tail();
    let records = [rec(11), rec(12), rec(13)];
    for r in records {
        assert_eq!(sq.push(r), Ok(()));
    }
    let slots: Vec<usize> = (0..3u32).map(|i| slot(start.wrapping_add(i), 4)).collect();
    assert_eq!(slots, vec![0, 1, 2]);
    sq.publish();
    assert_eq!(sq.kernel_consume(3), records.to_vec());
}

#[test]
fn serialized_pushes_count_successes() {
    let mut sq = SubmissionQueue::new(4).unwrap();
    let mut ok = 0usize;
    for id in 0..10u64 {
        if sq.push(rec(id)).is_ok() {
            ok += 1;
        }
    }
    assert_eq!(ok, 4);
    assert_eq!(sq.len() as usize, ok);
    sq.publish();
    let ids: Vec<u64> = sq.kernel_consume(10).iter().map(|r| r.user_data).collect();
    assert_eq!(ids, vec![0, 1, 2, 3]);
}

#[test]
fn indices_wrap_around_the_index_space() {
    let mut sq = SubmissionQueue::new(2).unwrap();
    for round in 0..20u64 {
        assert_eq!(sq.push(rec(round)), Ok(()));
        sq.publish();
        assert_eq!(sq.kernel_consume(1), vec![rec(round)]);
        sq.sync();
    }
    assert_eq!(next_index(u32::MAX), 0);
    assert_eq!(next_index(41), 42);
    assert_eq!(distance(u32::MAX, 1), 2);
    assert_eq!(distance(3, 3), 0);
    assert_eq!(slot(u32::MAX, 4), 3);
    assert_eq!(slot(5, 4), 1);
}

#[test]
fn sqe_builder_sets_identifier_only() {
    let base = Sqe { opcode: 3, fd: 9, ..Sqe::zeroed() };
    let r = base.user_data(77);
    assert_eq!(r.user_data, 77);
    assert_eq!(r.opcode, 3);
    assert_eq!(r.fd, 9);
    assert_eq!(Sqe::zeroed().user_data, 0);
}

#[test]
fn enter_arguments() {
    assert_eq!(submit_args(3), EnterArgs { to_submit: 3, min_complete: 0, flags: 0 });
    assert_eq!(
        submit_and_wait_args(2, 1),
        EnterArgs { to_submit: 2, min_complete: 1, flags: IORING_ENTER_GETEVENTS }
    );
    assert_eq!(submit_and_wait_args(2, 0), EnterArgs { to_submit: 2, min_complete: 0, flags: 0 });
    assert_eq!(polling_args(), EnterArgs { to_submit: 1, min_complete: 0, flags: 0 });
}

#[test]
fn enter_outcomes() {
    assert_eq!(enter_outcome(5, 0), EnterOutcome::Submitted(5));
    assert_eq!(enter_outcome(0, EBUSY), EnterOutcome::Submitted(0));
    assert_eq!(enter_outcome(-1, EBUSY), EnterOutcome::Retry);
    assert_eq!(enter_outcome(-1, EINTR), EnterOutcome::Retry);
    assert_eq!(enter_outcome(-1, 13), EnterOutcome::Failed(13));
}

#[test]
fn register_sizes() {
    assert_eq!(register_arg_size(IORING_REGISTER_BUFFERS), Some(std::mem::size_of::<libc::iovec>()));
    assert_eq!(register_arg_size(IORING_REGISTER_FILES), Some(FD_SIZE));
    assert_eq!(register_arg_size(IORING_REGISTER_EVENTFD), Some(4));
    assert_eq!(register_arg_size(IORING_REGISTER_FILES_UPDATE), Some(4));
    assert_eq!(register_arg_size(1), None);
    assert_eq!(register_arg_size(99), None);
}

#[test]
fn relay_outcomes() {
    assert_eq!(relay_outcome(0, -2), RelayOutcome::Completed(-2));
    assert_eq!(relay_outcome(0, 7), RelayOutcome::Completed(7));
    assert_eq!(relay_outcome(1, 7), RelayOutcome::BoundaryFailed(1));
}

#[test]
fn valid_capacities_are_powers_of_two() {
    for k in 0..32u32 {
        assert!(is_valid_capacity(1u32 << k));
    }
    assert!(!is_valid_capacity(0));
    assert!(!is_valid_capacity(3));
    assert!(!is_valid_capacity(24));
    assert!(!is_valid_capacity(u32::MAX));
    assert!(!is_valid_capacity(0x8000_0001));
}
