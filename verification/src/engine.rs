//! The queue engine: an ordered store of pending task handles plus the
//! election state that designates at most one caller as the transient runner.
//!
//! A task handle is the `u64` ticket assigned at submission; tickets grow by
//! one per accepted submission, so ticket order *is* submission order.  The
//! caller that wins the Idle -> Draining election pops handles in FIFO order
//! and drives the matching tasks; everyone else merely awaits the receiver
//! paired with its own ticket.  Driving a task and awaiting a receiver are
//! suspension points that live outside this crate; the decision logic around
//! them is all here.

use vstd::prelude::*;

use crate::errors::QueueError;
use crate::store::store_close;
use crate::store::store_closed;
use crate::store::store_items;
use crate::store::store_new;
use crate::store::store_pop;
use crate::store::store_push;
use crate::store::store_unbounded;

verus! {

/// The election state: Idle means no caller owns the drain loop; Draining
/// means exactly one caller is popping and running tasks.
#[derive(Clone, Copy, Debug, PartialEq, Eq, Structural)]
pub enum EngineCtl {
    Idle,
    Draining,
}

/// The serialization engine.
pub struct Engine {
    store: concurrent_queue::ConcurrentQueue<u64>,
    ctl: EngineCtl,
    busy: bool,
    pushed: u64,
}

impl Engine {
    /// The tickets of the tasks still waiting in the store, oldest first.
    pub closed spec fn pending(&self) -> Seq<u64> {
        store_items(self.store)
    }

    /// How many submissions have been accepted so far; also the next ticket.
    pub closed spec fn submitted(&self) -> nat {
        self.pushed as nat
    }

    /// No caller owns the drain loop.
    pub closed spec fn is_idle(&self) -> bool {
        self.ctl is Idle
    }

    /// Some caller owns the drain loop.
    pub closed spec fn is_draining(&self) -> bool {
        self.ctl is Draining
    }

    /// The in-flight flag: a pop cycle is currently unresolved.
    pub closed spec fn in_flight(&self) -> bool {
        self.busy
    }

    /// The engine still accepts submissions (it has not been shut down).
    pub closed spec fn accepting(&self) -> bool {
        !store_closed(self.store)
    }

    /// Well-formedness: the store is the unbounded FIFO the engine was built
    /// with, the pending tickets are exactly the most recently assigned ones
    /// in assignment order, and no pop cycle is left unresolved between
    /// operations.
    pub closed spec fn wf(&self) -> bool {
        &&& store_unbounded(self.store)
        &&& self.pending().len() <= self.submitted()
        &&& (forall|i: int|
            0 <= i < self.pending().len() ==> #[trigger] self.pending()[i] as int
                == self.submitted() - self.pending().len() + i)
        &&& !self.busy
    }

    /// The store never reorders: the pending tickets of a well-formed engine
    /// are strictly ascending, so a drain pops them in submission order.
    pub proof fn lemma_pending_ascending(&self)
        requires
            self.wf(),
        ensures
            forall|i: int, j: int|
                0 <= i < j < self.pending().len() ==> self.pending()[i] < self.pending()[j],
    {
        assert forall|i: int, j: int|
            0 <= i < j < self.pending().len() implies self.pending()[i] < self.pending()[j] by {
            assert(self.pending()[i] as int == self.submitted() - self.pending().len() + i);
            assert(self.pending()[j] as int == self.submitted() - self.pending().len() + j);
        }
    }

    /// Construct an empty engine: nothing pending, nobody draining.
    pub fn new() -> (e: Engine)
        ensures
            e.wf(),
            e.is_idle(),
            !e.in_flight(),
            e.accepting(),
            e.pending() == Seq::<u64>::empty(),
            e.submitted() == 0,
    {
        Engine { store: store_new(), ctl: EngineCtl::Idle, busy: false, pushed: 0 }
    }

    /// Accept a submission: assign the next ticket and append it to the
    /// store.  Fails with `PushFailed`, leaving the engine unchanged, exactly
    /// when the engine was shut down.
    pub fn submit(&mut self) -> (r: Result<u64, QueueError>)
        requires
            old(self).wf(),
            old(self).submitted() < u64::MAX as nat,
        ensures
            final(self).wf(),
            final(self).is_idle() == old(self).is_idle(),
            final(self).in_flight() == old(self).in_flight(),
            final(self).accepting() == old(self).accepting(),
            old(self).accepting() ==> {
                &&& r == Result::<u64, QueueError>::Ok(old(self).submitted() as u64)
                &&& final(self).pending() == old(self).pending().push(
                    old(self).submitted() as u64,
                )
                &&& final(self).submitted() == old(self).submitted() + 1
            },
            !old(self).accepting() ==> {
                &&& r == Result::<u64, QueueError>::Err(QueueError::PushFailed)
                &&& final(self).pending() == old(self).pending()
                &&& final(self).submitted() == old(self).submitted()
            },
    {
        let id = self.pushed;
        if store_push(&mut self.store, id) {
            self.pushed = id + 1;
            Ok(id)
        } else {
            Err(QueueError::PushFailed)
        }
    }

    /// The spin condition of a submission: a new caller may attempt to become
    /// runner only once no pop cycle is mid-flight.
    pub fn may_elect(&self) -> (r: bool)
        ensures
            r == !self.in_flight(),
    {
        !self.busy
    }

    /// Attempt the Idle -> Draining election.  Succeeds exactly when nobody
    /// was draining; on failure nothing changes, and the active runner will
    /// reach every ticket pushed before this attempt.
    pub fn try_become_runner(&mut self) -> (r: bool)
        requires
            old(self).wf(),
        ensures
            final(self).wf(),
            r == old(self).is_idle(),
            final(self).is_draining(),
            final(self).pending() == old(self).pending(),
            final(self).submitted() == old(self).submitted(),
            final(self).accepting() == old(self).accepting(),
            final(self).in_flight() == old(self).in_flight(),
    {
        match self.ctl {
            EngineCtl::Idle => {
                self.ctl = EngineCtl::Draining;
                true
            },
            EngineCtl::Draining => false,
        }
    }

    /// One pop cycle of the runner: raise the in-flight flag, pop, and
    /// resolve.  With a ticket found the flag is lowered and the runner keeps
    /// the drain loop; with the store empty the runner steps down — the
    /// engine returns to Idle and the flag is lowered, in this order a single
    /// indivisible operation, so a concurrent pusher can never slip past the
    /// flag while the store's emptiness is already decided.
    pub fn pop_cycle(&mut self) -> (r: Option<u64>)
        requires
            old(self).wf(),
            old(self).is_draining(),
        ensures
            final(self).wf(),
            !final(self).in_flight(),
            final(self).submitted() == old(self).submitted(),
            final(self).accepting() == old(self).accepting(),
            old(self).pending().len() > 0 ==> {
                &&& r == Some(old(self).pending()[0])
                &&& final(self).pending() == old(self).pending().drop_first()
                &&& final(self).is_draining()
            },
            old(self).pending().len() == 0 ==> {
                &&& r is None
                &&& final(self).pending() == old(self).pending()
                &&& final(self).is_idle()
            },
    {
        self.busy = true;
        let got = store_pop(&mut self.store);
        match got {
            Some(id) => {
                self.busy = false;
                Some(id)
            },
            None => {
                self.ctl = EngineCtl::Idle;
                self.busy = false;
                None
            },
        }
    }

    /// The runner's drain loop: pop cycles until the store is empty, then
    /// step down.  Returns the drained tickets in pop order, which is exactly
    /// the pending tickets in submission order — the FIFO guarantee of one
    /// unbroken drain.
    pub fn drain(&mut self) -> (r: Vec<u64>)
        requires
            old(self).wf(),
            old(self).is_draining(),
        ensures
            final(self).wf(),
            final(self).is_idle(),
            !final(self).in_flight(),
            final(self).pending().len() == 0,
            final(self).submitted() == old(self).submitted(),
            final(self).accepting() == old(self).accepting(),
            r@ == old(self).pending(),
    {
        let mut out: Vec<u64> = Vec::new();
        loop
            invariant_except_break
                self.is_draining(),
            invariant
                self.wf(),
                self.submitted() == old(self).submitted(),
                self.accepting() == old(self).accepting(),
                out@ + self.pending() == old(self).pending(),
            ensures
                self.wf(),
                self.is_idle(),
                !self.in_flight(),
                self.pending().len() == 0,
                self.submitted() == old(self).submitted(),
                self.accepting() == old(self).accepting(),
                out@ == old(self).pending(),
            decreases self.pending().len(),
        {
            match self.pop_cycle() {
                Some(id) => {
                    out.push(id);
                    proof {
                        assert(out@ + self.pending() =~= old(self).pending());
                    }
                },
                None => {
                    proof {
                        assert(out@ + self.pending() =~= out@);
                    }
                    break ;
                },
            }
        }
        out
    }

    /// The whole runner side of one submission, as the original drain entry
    /// point runs it: attempt the election, and on success drain until empty.
    /// A caller that loses the election does nothing — the active runner owns
    /// every ticket pushed before the attempt.
    pub fn run_ing(&mut self) -> (r: Vec<u64>)
        requires
            old(self).wf(),
        ensures
            final(self).wf(),
            !final(self).in_flight(),
            final(self).submitted() == old(self).submitted(),
            final(self).accepting() == old(self).accepting(),
            old(self).is_idle() ==> {
                &&& r@ == old(self).pending()
                &&& final(self).is_idle()
                &&& final(self).pending().len() == 0
            },
            old(self).is_draining() ==> {
                &&& r@ == Seq::<u64>::empty()
                &&& final(self).is_draining()
                &&& final(self).pending() == old(self).pending()
            },
    {
        if self.try_become_runner() {
            self.drain()
        } else {
            Vec::new()
        }
    }

    /// The compute skeleton of one submission: push a ticket, wait out any
    /// mid-flight pop cycle, then attempt to run.  On acceptance returns the
    /// new ticket and the tickets this caller itself drained: all previously
    /// pending tickets followed by its own when it won the election, none
    /// when an already-active runner will drive them instead.
    pub fn submit_and_run(&mut self) -> (r: Result<(u64, Vec<u64>), QueueError>)
        requires
            old(self).wf(),
            old(self).submitted() < u64::MAX as nat,
        ensures
            final(self).wf(),
            final(self).submitted() <= old(self).submitted() + 1,
            final(self).accepting() == old(self).accepting(),
            !old(self).accepting() ==> {
                &&& r == Result::<(u64, Vec<u64>), QueueError>::Err(QueueError::PushFailed)
                &&& final(self).pending() == old(self).pending()
            },
            old(self).accepting() ==> match r {
                Ok((id, ran)) => {
                    &&& id == old(self).submitted() as u64
                    &&& final(self).submitted() == old(self).submitted() + 1
                    &&& (old(self).is_idle() ==> {
                        &&& ran@ == old(self).pending().push(id)
                        &&& final(self).is_idle()
                        &&& final(self).pending().len() == 0
                    })
                    &&& (old(self).is_draining() ==> {
                        &&& ran@ == Seq::<u64>::empty()
                        &&& final(self).is_draining()
                        &&& final(self).pending() == old(self).pending().push(id)
                    })
                },
                Err(_) => false,
            },
    {
        let id = match self.submit() {
            Ok(id) => id,
            Err(e) => {
                return Err(e);
            },
        };
        while !self.may_elect()
            invariant
                self.wf(),
            decreases 0int,
        {
        }
        let ran = self.run_ing();
        Ok((id, ran))
    }

    /// Tear the engine down: refuse all further submissions and discard every
    /// still-pending ticket.  Returns the discarded tickets in submission
    /// order; each one's paired sender must now be dropped unexecuted, which
    /// fails that caller's receiver.
    pub fn shut_down(&mut self) -> (r: Vec<u64>)
        requires
            old(self).wf(),
        ensures
            final(self).wf(),
            !final(self).accepting(),
            final(self).pending().len() == 0,
            final(self).submitted() == old(self).submitted(),
            final(self).is_idle() == old(self).is_idle(),
            final(self).in_flight() == old(self).in_flight(),
            r@ == old(self).pending(),
    {
        store_close(&mut self.store);
        let mut out: Vec<u64> = Vec::new();
        loop
            invariant
                self.wf(),
                !self.accepting(),
                self.submitted() == old(self).submitted(),
                self.ctl == old(self).ctl,
                out@ + self.pending() == old(self).pending(),
            ensures
                self.wf(),
                !self.accepting(),
                self.pending().len() == 0,
                self.submitted() == old(self).submitted(),
                self.ctl == old(self).ctl,
                out@ == old(self).pending(),
            decreases self.pending().len(),
        {
            match store_pop(&mut self.store) {
                Some(id) => {
                    out.push(id);
                    proof {
                        assert(out@ + self.pending() =~= old(self).pending());
                    }
                },
                None => {
                    proof {
                        assert(out@ + self.pending() =~= out@);
                    }
                    break ;
                },
            }
        }
        out
    }
}

} // verus!
