//! Stopping a server process: a polite request first, a forced kill once
//! the grace period is over, and reaping in every case.

use vstd::prelude::*;

verus! {

/// How a stop ended.
#[derive(Clone, Copy, Debug, PartialEq, Eq, Structural)]
pub enum StopOutcome {
    /// The process exited within the grace period.
    Graceful,
    /// The process was killed after the grace period.
    Forced,
    /// The kill failed.
    Failed,
}

/// Where a stop stands.
#[derive(Clone, Copy, Debug, PartialEq, Eq, Structural)]
pub enum StopPhase {
    /// Not asked to stop yet.
    Live,
    /// Asked to exit; the grace period runs.
    Signalled,
    /// Killed; waiting to reap it.
    Killed,
    /// Reaped.
    Done(StopOutcome),
}

/// What the process's owner observes.
#[derive(Clone, Copy, Debug, PartialEq, Eq, Structural)]
pub enum StopEvent {
    /// The stop begins.
    Begin,
    /// The process has exited.
    Exited,
    /// The grace period is over.
    GraceElapsed,
    /// The forced kill did not succeed.
    KillFailed,
}

/// What the owner must do next.
#[derive(Clone, Copy, Debug, PartialEq, Eq, Structural)]
pub enum StopAction {
    /// Ask the process to exit, and start the grace period.
    SendTerminate,
    /// Kill the process.
    ForceKill,
    /// Wait for the process, releasing its entry in the process table.
    Reap,
    /// Nothing.
    Nothing,
}

/// The next phase and action. Every path to `Done` ends in `Reap`.
pub open spec fn stop_transition(p: StopPhase, e: StopEvent) -> (StopPhase, StopAction) {
    match (p, e) {
        (StopPhase::Live, StopEvent::Begin) => (StopPhase::Signalled, StopAction::SendTerminate),
        (StopPhase::Signalled, StopEvent::Exited) => (
            StopPhase::Done(StopOutcome::Graceful),
            StopAction::Reap,
        ),
        (StopPhase::Signalled, StopEvent::GraceElapsed) => (StopPhase::Killed, StopAction::ForceKill),
        (StopPhase::Killed, StopEvent::Exited) => (
            StopPhase::Done(StopOutcome::Forced),
            StopAction::Reap,
        ),
        (StopPhase::Killed, StopEvent::KillFailed) => (
            StopPhase::Done(StopOutcome::Failed),
            StopAction::Reap,
        ),
        _ => (p, StopAction::Nothing),
    }
}

/// One step of stopping a process.
pub fn stop_step(p: StopPhase, e: StopEvent) -> (r: (StopPhase, StopAction))
    ensures
        r == stop_transition(p, e),
        r.0 is Done && !(p is Done) ==> r.1 == StopAction::Reap,
{
    match (p, e) {
        (StopPhase::Live, StopEvent::Begin) => (StopPhase::Signalled, StopAction::SendTerminate),
        (StopPhase::Signalled, StopEvent::Exited) => (
            StopPhase::Done(StopOutcome::Graceful),
            StopAction::Reap,
        ),
        (StopPhase::Signalled, StopEvent::GraceElapsed) => (StopPhase::Killed, StopAction::ForceKill),
        (StopPhase::Killed, StopEvent::Exited) => (
            StopPhase::Done(StopOutcome::Forced),
            StopAction::Reap,
        ),
        (StopPhase::Killed, StopEvent::KillFailed) => (
            StopPhase::Done(StopOutcome::Failed),
            StopAction::Reap,
        ),
        _ => (p, StopAction::Nothing),
    }
}

/// How many of the stops ended with the process gone, gracefully or by force.
pub open spec fn count_stopped(s: Seq<StopOutcome>) -> nat
    decreases s.len(),
{
    if s.len() == 0 {
        0
    } else {
        count_stopped(s.drop_last()) + if s.last() == StopOutcome::Failed {
            0nat
        } else {
            1nat
        }
    }
}

/// How many of the stops ended with the process gone; a failed one does not
/// count, and does not keep the others from counting.
pub fn count_shut_down(outcomes: &[StopOutcome]) -> (r: usize)
    ensures
        r == count_stopped(outcomes@),
{
    let mut n: usize = 0;
    let mut i: usize = 0;
    while i < outcomes.len()
        invariant
            0 <= i <= outcomes@.len(),
            n == count_stopped(outcomes@.take(i as int)),
            n <= i,
        decreases outcomes@.len() - i,
    {
        assert(outcomes@.take(i + 1).drop_last() =~= outcomes@.take(i as int));
        if outcomes[i] != StopOutcome::Failed {
            n = n + 1;
        }
        i = i + 1;
    }
    assert(outcomes@.take(i as int) =~= outcomes@);
    n
}

} // verus!
