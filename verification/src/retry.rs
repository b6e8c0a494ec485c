//! The retry-on-failure policy around one task execution: run the task; on
//! failure, attempt exactly one recovery by rebuilding the worker's context
//! and, if the rebuild succeeds, run the task exactly once more. Whatever the
//! second run yields is final. If the rebuild itself fails, the original
//! execution failure is surfaced, never a rebuild error. This is a
//! resource-recovery mechanism, not a general retry loop: there is never a
//! third run.
//!
//! The policy is a small state machine. A driver runs the action the current
//! state calls for (run the task, rebuild the context), reports how it went,
//! and steps the machine; the machine decides what happens next.

use vstd::prelude::*;

verus! {

/// Which execution attempt's result is surfaced to the caller.
#[derive(Debug, Clone, Copy, PartialEq, Eq, Structural)]
pub enum Attempt {
    First,
    Second,
}

/// State of one retry-wrapped task execution.
#[derive(Debug, Clone, Copy, PartialEq, Eq, Structural)]
pub enum RetryState {
    /// The task is to be run for the first time.
    AwaitingFirst,
    /// The first run failed; the context is to be rebuilt.
    AwaitingRebuild,
    /// The rebuild succeeded; the task is to be run once more.
    AwaitingSecond,
    /// Terminal: the named attempt's result is surfaced; nothing more runs.
    Delivered { attempt: Attempt },
}

/// What a driver of the policy reports between decisions.
#[derive(Debug, Clone, Copy, PartialEq, Eq, Structural)]
pub enum RetryEvent {
    /// A run of the task completed, successfully or not.
    AttemptCompleted { ok: bool },
    /// A rebuild of the context completed, successfully or not.
    RebuildCompleted { ok: bool },
}

/// What the driver must do in a given state.
#[derive(Debug, Clone, Copy, PartialEq, Eq, Structural)]
pub enum RetryAction {
    /// Run the task against the context and report how it went.
    RunTask,
    /// Tear down and recreate the context in place and report how it went.
    RebuildContext,
    /// Surface the recorded attempt's result to the caller.
    Finish,
}

/// The event a state is waiting for; a terminal state waits for nothing.
pub open spec fn retry_expects(s: RetryState, e: RetryEvent) -> bool {
    match s {
        RetryState::AwaitingFirst => e is AttemptCompleted,
        RetryState::AwaitingRebuild => e is RebuildCompleted,
        RetryState::AwaitingSecond => e is AttemptCompleted,
        RetryState::Delivered { .. } => false,
    }
}

/// The transition relation of the policy.
pub open spec fn retry_next(s: RetryState, e: RetryEvent) -> RetryState {
    match s {
        RetryState::AwaitingFirst => {
            if e->AttemptCompleted_ok {
                RetryState::Delivered { attempt: Attempt::First }
            } else {
                RetryState::AwaitingRebuild
            }
        },
        RetryState::AwaitingRebuild => {
            if e->RebuildCompleted_ok {
                RetryState::AwaitingSecond
            } else {
                RetryState::Delivered { attempt: Attempt::First }
            }
        },
        RetryState::AwaitingSecond => RetryState::Delivered { attempt: Attempt::Second },
        RetryState::Delivered { .. } => s,
    }
}

/// The action a state calls for.
pub open spec fn action_of(s: RetryState) -> RetryAction {
    match s {
        RetryState::AwaitingFirst => RetryAction::RunTask,
        RetryState::AwaitingRebuild => RetryAction::RebuildContext,
        RetryState::AwaitingSecond => RetryAction::RunTask,
        RetryState::Delivered { .. } => RetryAction::Finish,
    }
}

/// Step the policy on the report of the last action's outcome.
pub fn retry_step(s: RetryState, e: RetryEvent) -> (r: RetryState)
    requires
        retry_expects(s, e),
    ensures
        r == retry_next(s, e),
{
    match s {
        RetryState::AwaitingFirst => {
            match e {
                RetryEvent::AttemptCompleted { ok: true } => RetryState::Delivered {
                    attempt: Attempt::First,
                },
                _ => RetryState::AwaitingRebuild,
            }
        },
        RetryState::AwaitingRebuild => {
            match e {
                RetryEvent::RebuildCompleted { ok: true } => RetryState::AwaitingSecond,
                _ => RetryState::Delivered { attempt: Attempt::First },
            }
        },
        RetryState::AwaitingSecond => RetryState::Delivered { attempt: Attempt::Second },
        RetryState::Delivered { .. } => s,
    }
}

/// The action the driver must take in state `s`.
pub fn retry_action(s: RetryState) -> (a: RetryAction)
    ensures
        a == action_of(s),
{
    match s {
        RetryState::AwaitingFirst => RetryAction::RunTask,
        RetryState::AwaitingRebuild => RetryAction::RebuildContext,
        RetryState::AwaitingSecond => RetryAction::RunTask,
        RetryState::Delivered { .. } => RetryAction::Finish,
    }
}

/// The event the driver reports in state `s` when the task's first run went
/// `first_ok`, a rebuild (if one happens) goes `rebuild_ok`, and a second run
/// (if one happens) goes `second_ok`.
pub open spec fn retry_feed(
    s: RetryState,
    first_ok: bool,
    rebuild_ok: bool,
    second_ok: bool,
) -> RetryEvent {
    match s {
        RetryState::AwaitingFirst => RetryEvent::AttemptCompleted { ok: first_ok },
        RetryState::AwaitingRebuild => RetryEvent::RebuildCompleted { ok: rebuild_ok },
        _ => RetryEvent::AttemptCompleted { ok: second_ok },
    }
}

/// The states visited from `s` under those outcomes, `fuel` bounding the
/// number of steps taken.
pub open spec fn retry_trace_from(
    s: RetryState,
    first_ok: bool,
    rebuild_ok: bool,
    second_ok: bool,
    fuel: nat,
) -> Seq<RetryState>
    decreases fuel,
{
    if s is Delivered || fuel == 0 {
        seq![s]
    } else {
        seq![s] + retry_trace_from(
            retry_next(s, retry_feed(s, first_ok, rebuild_ok, second_ok)),
            first_ok,
            rebuild_ok,
            second_ok,
            (fuel - 1) as nat,
        )
    }
}

/// The full run of the policy under those outcomes. Three steps always reach
/// a terminal state.
pub open spec fn retry_trace(first_ok: bool, rebuild_ok: bool, second_ok: bool) -> Seq<
    RetryState,
> {
    retry_trace_from(RetryState::AwaitingFirst, first_ok, rebuild_ok, second_ok, 3)
}

/// How many times the task is run along a trace: the number of visited states
/// that call for running it.
pub open spec fn runs_in(tr: Seq<RetryState>) -> int
    decreases tr.len(),
{
    if tr.len() == 0 {
        0
    } else {
        runs_in(tr.drop_last()) + if action_of(tr.last()) is RunTask {
            1int
        } else {
            0int
        }
    }
}

/// The retry policy in full, for every combination of outcomes: the run
/// always terminates with a delivery; a task whose first run succeeds runs
/// exactly once and its own result is surfaced; a task whose first run fails
/// and whose context rebuild succeeds runs exactly twice, and the second
/// run's result — success or failure — is the one surfaced; if the rebuild
/// fails, the task ran only once and the surfaced result is the original
/// first-run failure, never a rebuild error.
pub proof fn lemma_retry_policy(first_ok: bool, rebuild_ok: bool, second_ok: bool)
    ensures
        ({
            let tr = retry_trace(first_ok, rebuild_ok, second_ok);
            &&& tr.last() is Delivered
            &&& runs_in(tr) == if first_ok {
                1int
            } else if rebuild_ok {
                2int
            } else {
                1int
            }
            &&& first_ok ==> tr.last()->attempt == Attempt::First
            &&& (!first_ok && rebuild_ok) ==> tr.last()->attempt == Attempt::Second
            &&& (!first_ok && !rebuild_ok) ==> tr.last()->attempt == Attempt::First
        }),
{
    reveal_with_fuel(retry_trace_from, 5);
    reveal_with_fuel(runs_in, 5);
    let tr = retry_trace(first_ok, rebuild_ok, second_ok);
    if first_ok {
        assert(tr =~= seq![
            RetryState::AwaitingFirst,
            RetryState::Delivered { attempt: Attempt::First },
        ]);
    } else if rebuild_ok {
        assert(tr =~= seq![
            RetryState::AwaitingFirst,
            RetryState::AwaitingRebuild,
            RetryState::AwaitingSecond,
            RetryState::Delivered { attempt: Attempt::Second },
        ]);
    } else {
        assert(tr =~= seq![
            RetryState::AwaitingFirst,
            RetryState::AwaitingRebuild,
            RetryState::Delivered { attempt: Attempt::First },
        ]);
    }
}

} // verus!
