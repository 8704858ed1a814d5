//! Engine-level failure kinds surfaced to a submitting caller.

use vstd::prelude::*;

verus! {

/// The two engine-level ways a submission can fail.  A domain error produced
/// by the submitted computation itself is *not* one of these: it travels
/// through the result channel like any success value.
#[derive(Clone, Copy, Debug, PartialEq, Eq, Structural)]
pub enum QueueError {
    /// The FIFO store rejected the push: the engine was already shut down.
    /// Surfaced immediately; nothing was queued.
    PushFailed,
    /// The paired sender was dropped without sending: the task was discarded
    /// unexecuted, and its caller will never see a result value.
    DeliveryFailed,
}

impl QueueError {
    /// A short human-readable description of the failure.
    pub fn describe(&self) -> (r: &'static str)
        ensures
            self is PushFailed ==> r@ == "the store rejected the push"@,
            self is DeliveryFailed ==> r@ == "tx is close"@,
    {
        match self {
            QueueError::PushFailed => "the store rejected the push",
            QueueError::DeliveryFailed => "tx is close",
        }
    }
}

} // verus!
