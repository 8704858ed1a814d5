//! The task wrapper's result delivery.
//!
//! Each submission is paired at creation with a single-use channel from
//! `async_oneshot`.  Driving the submitted computation to completion is a
//! suspension point outside this crate; once its result value exists, the
//! steps below publish it to the paired receiver and translate the channel's
//! failure modes into this library's error kinds.

use vstd::prelude::*;

use crate::errors::QueueError;

verus! {

/// Declares `async_oneshot::Sender`, the sending half of a task's paired
/// single-use channel; opaque to the verifier.
#[verifier::external_type_specification]
#[verifier::external_body]
#[verifier::reject_recursive_types(T)]
pub struct ExSender<T>(async_oneshot::Sender<T>);

/// Declares `async_oneshot::Closed`, the channel's sender-dropped marker.
#[verifier::external_type_specification]
#[verifier::external_body]
pub struct ExClosed(async_oneshot::Closed);

/// Relies on `async_oneshot::Sender::send`: on success the value is handed to
/// the paired receiver; it fails, discarding the value, when the receiver was
/// already dropped or a value was already sent.  Whether the receiver is
/// still attached depends on the other caller, so nothing more is promised of
/// the outcome.
#[verifier::external_body]
fn send_value<T>(tx: &mut async_oneshot::Sender<T>, v: T) -> (r: bool) {
    tx.send(v).is_ok()
}

/// Complete a task wrapper: publish the computed outcome through the paired
/// channel, consuming the sender so it can never be used twice.  The outcome
/// may itself be the computation's domain error: it travels as an ordinary
/// value.  The only failure this step can report is that the receiver was
/// already abandoned — the runner observes it and continues draining.
pub fn finish_task<T>(tx: async_oneshot::Sender<T>, outcome: T) -> (r: Result<(), QueueError>)
    ensures
        r matches Err(e) ==> e == QueueError::DeliveryFailed,
{
    let mut tx = tx;
    if send_value(&mut tx, outcome) {
        Ok(())
    } else {
        Err(QueueError::DeliveryFailed)
    }
}

/// The submitting caller's last step: interpret what its receiver resolved
/// to.  A value — success or the computation's own domain error — passes
/// through untouched; a closed channel means the task was discarded
/// unexecuted, surfaced as `DeliveryFailed`.
pub fn interpret_receipt<T>(got: Result<T, async_oneshot::Closed>) -> (r: Result<T, QueueError>)
    ensures
        got matches Ok(v) ==> r == Result::<T, QueueError>::Ok(v),
        got matches Err(_) ==> r == Result::<T, QueueError>::Err(QueueError::DeliveryFailed),
{
    match got {
        Ok(v) => Ok(v),
        Err(_) => Err(QueueError::DeliveryFailed),
    }
}

} // verus!
