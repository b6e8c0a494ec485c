use renderpool::pool::{SubmissionPhase, WorkerPool};

/// With capacity 3, a fourth concurrent submission is refused admission;
/// queued plus executing work never exceeds the capacity.
#[test]
fn admission_is_bounded_by_capacity() {
    let mut p = WorkerPool::new(3, 2);
    let s0 = p.submit();
    let s1 = p.submit();
    let s2 = p.submit();
    let s3 = p.submit();
    assert!(p.try_admit(s0));
    assert!(p.try_admit(s1));
    assert!(p.try_admit(s2));
    assert_eq!(p.permits_available(), 0);
    assert!(!p.try_admit(s3)); // capacity exhausted: keeps waiting
    assert_eq!(p.queued_len(), 3);

    // Dispatching does not release the permit; only delivery does.
    let picked = p.dispatch(0);
    assert_eq!(picked, s0);
    assert_eq!(p.permits_available(), 0);
    assert!(!p.try_admit(s3));
    p.finish(0, true);
    assert_eq!(p.permits_available(), 1);
    assert!(p.try_admit(s3));
}

/// Each delivery lands at the finished submission's own slot, exactly once;
/// other submissions are untouched.
#[test]
fn results_are_delivered_to_their_own_submission() {
    let mut p = WorkerPool::new(2, 2);
    let s0 = p.submit();
    let s1 = p.submit();
    assert!(p.try_admit(s0));
    assert!(p.try_admit(s1));
    let first = p.dispatch(0);
    let second = p.dispatch(1);
    assert_eq!(first, s0);
    assert_eq!(second, s1);
    let done = p.finish(1, false);
    assert_eq!(done, s1);
    assert_eq!(p.phase(s1), SubmissionPhase::Completed { ok: false });
    assert_eq!(p.phase(s0), SubmissionPhase::Executing { worker: 0 });
    let done = p.finish(0, true);
    assert_eq!(done, s0);
    assert_eq!(p.phase(s0), SubmissionPhase::Completed { ok: true });
    // The failing submission's result stayed exactly as delivered.
    assert_eq!(p.phase(s1), SubmissionPhase::Completed { ok: false });
}

/// An admission timeout has no side effect: the task was never queued, no
/// permit was consumed, and later pool activity never touches it.
#[test]
fn admission_timeout_leaves_no_trace() {
    let mut p = WorkerPool::new(1, 1);
    let s0 = p.submit();
    assert!(p.try_admit(s0));
    let s1 = p.submit();
    assert!(!p.try_admit(s1)); // capacity fully exhausted
    p.admission_timeout(s1);
    assert_eq!(p.phase(s1), SubmissionPhase::TimedOut);
    assert_eq!(p.queued_len(), 1);
    assert_eq!(p.permits_available(), 0);

    // The pool keeps working; the timed-out submission never runs.
    let picked = p.dispatch(0);
    assert_eq!(picked, s0);
    p.finish(0, true);
    assert_eq!(p.phase(s1), SubmissionPhase::TimedOut);
    assert_eq!(p.permits_available(), 1);
}

/// Capacity 2, one worker, three submissions: the first two are admitted at
/// once, the third only after a permit frees; the single worker serializes
/// execution in admission order.
#[test]
fn single_worker_serializes_in_fifo_order() {
    let mut p = WorkerPool::new(2, 1);
    let s0 = p.submit();
    let s1 = p.submit();
    let s2 = p.submit();
    assert!(p.try_admit(s0));
    assert!(p.try_admit(s1));
    assert!(!p.try_admit(s2)); // blocks until a permit frees

    let first = p.dispatch(0);
    assert_eq!(first, s0);
    assert!(p.worker_task(0).is_some()); // the only worker is busy
    assert!(!p.try_admit(s2)); // still no permit while s0 executes
    p.finish(0, true);
    assert!(p.try_admit(s2)); // a permit freed with s0's delivery

    let second = p.dispatch(0);
    assert_eq!(second, s1); // FIFO: admitted earlier, runs earlier
    p.finish(0, true);
    let third = p.dispatch(0);
    assert_eq!(third, s2);
    p.finish(0, true);
    assert_eq!(p.phase(s0), SubmissionPhase::Completed { ok: true });
    assert_eq!(p.phase(s1), SubmissionPhase::Completed { ok: true });
    assert_eq!(p.phase(s2), SubmissionPhase::Completed { ok: true });
}

/// A packet whose caller gave up before dispatch is dropped without
/// execution, and its permit is released.
#[test]
fn abandoned_packet_is_discarded_unexecuted() {
    let mut p = WorkerPool::new(1, 1);
    let s0 = p.submit();
    assert!(p.try_admit(s0));
    p.abandon(s0);
    assert_eq!(p.phase(s0), SubmissionPhase::Queued { caller_waiting: false });
    assert_eq!(p.permits_available(), 0); // still held until a worker pulls it
    p.discard_head();
    assert_eq!(p.phase(s0), SubmissionPhase::Discarded);
    assert_eq!(p.permits_available(), 1);
    assert_eq!(p.queued_len(), 0);
}

/// The queue head getter tracks admission order.
#[test]
fn head_follows_admission_order() {
    let mut p = WorkerPool::new(2, 1);
    let s0 = p.submit();
    let s1 = p.submit();
    assert_eq!(p.head(), None);
    assert!(p.try_admit(s1));
    assert!(p.try_admit(s0));
    assert_eq!(p.head(), Some(s1)); // s1 was admitted first
    assert_eq!(p.submissions(), 2);
    assert_eq!(p.capacity(), 2);
}
