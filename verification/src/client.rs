//! The decisions of the thread that collects librdkafka's answers.
use vstd::prelude::*;

verus! {

/// What the polling thread does after one poll of the answer queue.
#[derive(Clone, Copy, Debug, PartialEq, Eq, Structural)]
pub enum PollAction {
    /// Hand the answer that arrived to the request waiting for it.
    Deliver,
    /// Nothing arrived; poll again.
    PollAgain,
    /// Nothing arrived and the client is shutting down; end the thread.
    Stop,
}

/// Decides what the polling thread does: an answer that arrived is always
/// delivered, and the thread ends only on an empty poll once it was asked to
/// stop, so no answer that arrived is dropped.
pub fn next_poll_action(answer_arrived: bool, should_stop: bool) -> (a: PollAction)
    ensures
        answer_arrived ==> a == PollAction::Deliver,
        !answer_arrived && should_stop ==> a == PollAction::Stop,
        !answer_arrived && !should_stop ==> a == PollAction::PollAgain,
{
    if !answer_arrived {
        if should_stop {
            PollAction::Stop
        } else {
            PollAction::PollAgain
        }
    } else {
        PollAction::Deliver
    }
}

} // verus!
