use renderpool::retry::{
    retry_action, retry_step, Attempt, RetryAction, RetryEvent, RetryState,
};

/// A successful first run is final: one execution, first result surfaced.
#[test]
fn first_success_runs_once() {
    let s0 = RetryState::AwaitingFirst;
    assert_eq!(retry_action(s0), RetryAction::RunTask);
    let s1 = retry_step(s0, RetryEvent::AttemptCompleted { ok: true });
    assert_eq!(s1, RetryState::Delivered { attempt: Attempt::First });
    assert_eq!(retry_action(s1), RetryAction::Finish);
}

/// First run fails, rebuild succeeds: the task runs exactly twice and the
/// second run's result is final even though it also fails.
#[test]
fn failure_then_rebuild_runs_exactly_twice() {
    let s0 = RetryState::AwaitingFirst;
    let mut runs = 0;
    assert_eq!(retry_action(s0), RetryAction::RunTask);
    runs += 1;
    let s1 = retry_step(s0, RetryEvent::AttemptCompleted { ok: false });
    assert_eq!(s1, RetryState::AwaitingRebuild);
    assert_eq!(retry_action(s1), RetryAction::RebuildContext);
    let s2 = retry_step(s1, RetryEvent::RebuildCompleted { ok: true });
    assert_eq!(s2, RetryState::AwaitingSecond);
    assert_eq!(retry_action(s2), RetryAction::RunTask);
    runs += 1;
    let s3 = retry_step(s2, RetryEvent::AttemptCompleted { ok: false });
    assert_eq!(s3, RetryState::Delivered { attempt: Attempt::Second });
    assert_eq!(runs, 2);
}

/// First run fails, rebuild succeeds, second run succeeds: the second
/// result is surfaced.
#[test]
fn second_attempt_success_is_final() {
    let s1 = retry_step(RetryState::AwaitingFirst, RetryEvent::AttemptCompleted { ok: false });
    let s2 = retry_step(s1, RetryEvent::RebuildCompleted { ok: true });
    let s3 = retry_step(s2, RetryEvent::AttemptCompleted { ok: true });
    assert_eq!(s3, RetryState::Delivered { attempt: Attempt::Second });
}

/// Rebuild failure surfaces the original execution failure: the task ran
/// only once and the first attempt's result — not a rebuild error — is
/// delivered.
#[test]
fn rebuild_failure_surfaces_original_error() {
    let s1 = retry_step(RetryState::AwaitingFirst, RetryEvent::AttemptCompleted { ok: false });
    assert_eq!(s1, RetryState::AwaitingRebuild);
    let s2 = retry_step(s1, RetryEvent::RebuildCompleted { ok: false });
    assert_eq!(s2, RetryState::Delivered { attempt: Attempt::First });
    assert_eq!(retry_action(s2), RetryAction::Finish);
}
