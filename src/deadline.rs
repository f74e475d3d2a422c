//! The decisions of the deadline enforcer's polling loop. The loop itself (starting the
//! isolated child, sleeping between polls, the termination signal) runs outside the library.
use vstd::prelude::*;

verus! {

/// What a non-blocking wait reported about the child running the trial.
#[derive(Debug, Clone, Copy, PartialEq, Eq, Structural)]
pub enum ChildState {
    Running,
    Terminated,
}

/// What the polling loop does next.
#[derive(Debug, Clone, Copy, PartialEq, Eq, Structural)]
pub enum PollAction {
    /// Stop polling: the trial finished in time.
    Completed,
    /// Poll again after the interval.
    Wait,
    /// Terminate the child: the trial did not finish in time.
    Kill,
}

/// One poll: a child that terminated (by any means) finished in time; a running child is
/// killed once more than `threshold_nanos` have passed since polling started.
pub fn poll_decision(state: ChildState, elapsed_nanos: u128, threshold_nanos: u128) -> (r: PollAction)
    ensures
        state == ChildState::Terminated ==> r == PollAction::Completed,
        state == ChildState::Running && elapsed_nanos > threshold_nanos ==> r == PollAction::Kill,
        state == ChildState::Running && elapsed_nanos <= threshold_nanos ==> r == PollAction::Wait,
{
    match state {
        ChildState::Terminated => PollAction::Completed,
        ChildState::Running => if elapsed_nanos > threshold_nanos {
            PollAction::Kill
        } else {
            PollAction::Wait
        },
    }
}

} // verus!
