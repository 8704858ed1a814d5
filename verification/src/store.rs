//! Trusted boundary around the shared FIFO store.
//!
//! The engine keeps its pending task handles in a
//! `concurrent_queue::ConcurrentQueue<u64>`.  The queue itself is outside
//! code; everything the engine relies on about it is stated here, against the
//! crate's own documentation and source: it is order-preserving (pop returns
//! items in push order), an unbounded queue accepts a push exactly as long as
//! it has not been closed, and closing it only stops future pushes while the
//! remaining items can still be popped.

use vstd::prelude::*;

verus! {

/// Declares `concurrent_queue::ConcurrentQueue` to the verifier; its values
/// are opaque, and the names below say everything the engine relies on.
#[verifier::external_type_specification]
#[verifier::external_body]
#[verifier::reject_recursive_types(T)]
pub struct ExConcurrentQueue<T>(concurrent_queue::ConcurrentQueue<T>);

/// The items currently held by the store, oldest first.
pub uninterp spec fn store_items(q: concurrent_queue::ConcurrentQueue<u64>) -> Seq<u64>;

/// Whether the store has been closed against further pushes.
pub uninterp spec fn store_closed(q: concurrent_queue::ConcurrentQueue<u64>) -> bool;

/// Whether the store was created with unlimited capacity.
pub uninterp spec fn store_unbounded(q: concurrent_queue::ConcurrentQueue<u64>) -> bool;

/// Relies on `ConcurrentQueue::unbounded`: a fresh unbounded queue holds
/// nothing and is open.
#[verifier::external_body]
pub(crate) fn store_new() -> (q: concurrent_queue::ConcurrentQueue<u64>)
    ensures
        store_items(q) == Seq::<u64>::empty(),
        !store_closed(q),
        store_unbounded(q),
{
    concurrent_queue::ConcurrentQueue::unbounded()
}

/// Relies on `ConcurrentQueue::push`: on success the item is appended behind
/// every item already held; a push onto an unbounded queue fails exactly when
/// the queue is closed, and a failed push leaves the queue unchanged.
#[verifier::external_body]
pub(crate) fn store_push(q: &mut concurrent_queue::ConcurrentQueue<u64>, v: u64) -> (r: bool)
    ensures
        store_closed(*final(q)) == store_closed(*old(q)),
        store_unbounded(*final(q)) == store_unbounded(*old(q)),
        r ==> store_items(*final(q)) == store_items(*old(q)).push(v),
        !r ==> store_items(*final(q)) == store_items(*old(q)),
        store_unbounded(*old(q)) ==> (r <==> !store_closed(*old(q))),
{
    q.push(v).is_ok()
}

/// Relies on `ConcurrentQueue::pop`: the queue is order-preserving, so pop
/// returns the oldest held item, or nothing when the queue holds nothing
/// (whether or not it was closed).
#[verifier::external_body]
pub(crate) fn store_pop(q: &mut concurrent_queue::ConcurrentQueue<u64>) -> (r: Option<u64>)
    ensures
        store_closed(*final(q)) == store_closed(*old(q)),
        store_unbounded(*final(q)) == store_unbounded(*old(q)),
        store_items(*old(q)).len() > 0 ==> {
            &&& r == Some(store_items(*old(q))[0])
            &&& store_items(*final(q)) == store_items(*old(q)).drop_first()
        },
        store_items(*old(q)).len() == 0 ==> {
            &&& r is None
            &&& store_items(*final(q)) == store_items(*old(q))
        },
{
    match q.pop() {
        Ok(v) => Some(v),
        Err(_) => None,
    }
}

/// Relies on `ConcurrentQueue::close`: after the call the queue refuses
/// pushes; the items it already holds stay poppable.  Returns whether this
/// call was the one that closed it.
#[verifier::external_body]
pub(crate) fn store_close(q: &mut concurrent_queue::ConcurrentQueue<u64>) -> (r: bool)
    ensures
        store_closed(*final(q)),
        store_unbounded(*final(q)) == store_unbounded(*old(q)),
        store_items(*final(q)) == store_items(*old(q)),
        r == !store_closed(*old(q)),
{
    q.close()
}

} // verus!
