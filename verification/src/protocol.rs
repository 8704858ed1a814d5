//! The engine under many concurrent callers, as a transition system.
//!
//! The executable engine in this crate is necessarily exercised one call at a
//! time, but the design it implements is concurrent: many independent callers
//! interleave pushes, flag checks, elections and pop cycles at the
//! granularity of single atomic operations.  This module states that design
//! as a labelled transition system — one step per atomic operation of one
//! caller — and proves its announced guarantees as inductive invariants:
//! at most one caller ever drains, tasks complete in strict push order, every
//! channel resolves at most once and only from pending, a pending task always
//! has somebody attending to it, and a quiet engine is Idle and can elect a
//! fresh runner.
//!
//! The model covers a live engine: teardown — which discards queued tasks and
//! fails their receivers — is an end of the run, not a step, and is handled
//! by the executable engine's `shut_down` together with the task module.  A
//! caller here makes one submission and ends `Settled`; a real caller that
//! submits again simply counts as a fresh caller identity.
//!
//! One deliberate divergence from a naive reading of the drain loop: when the
//! runner's pop finds the store empty, stepping down (Draining -> Idle) and
//! lowering the in-flight flag happen as one atomic step.  Were they two
//! steps, a stale runner's late flag-lowering could uncover the window in
//! which a fresh pusher checks the flag, loses the election against a runner
//! that has already decided the store is empty, and strands its task.

use vstd::prelude::*;

verus! {

/// Where one caller stands in its interaction with the engine.  `t` is
/// always the ticket of the caller's own submission.
pub enum CallerPhase {
    /// Not engaged with the engine.
    Resting,
    /// Has pushed ticket `t`; waits for the in-flight flag to clear.
    Pushed { t: nat },
    /// Saw the flag clear; about to attempt the Idle -> Draining election.
    Electing { t: nat },
    /// Lost the election, or stepped down as runner; awaits its receiver.
    Waiting { t: nat },
    /// The runner, between pop cycles.
    RunnerPop { t: nat },
    /// The runner, flag raised, the pop's outcome not yet resolved.
    RunnerMidPop { t: nat },
    /// The runner, driving popped ticket `u` to completion.
    RunnerDrive { t: nat, u: nat },
    /// Its own receiver has resolved.
    Settled { t: nat },
}

/// The state of one task's single-use result channel while the engine lives.
pub enum ChanState {
    /// No value sent yet.
    Pending,
    /// The task's outcome went through: the channel resolved exactly once.
    Sent,
}

/// One instant of the whole system: the engine's shared state plus every
/// caller's position in the protocol.
pub struct Proto {
    /// The election word: `None` is Idle, `Some(c)` means caller `c` drains.
    pub ctl: Option<nat>,
    /// The in-flight flag: a pop cycle is currently unresolved.
    pub busy: bool,
    /// Tickets pushed and not yet popped, oldest first.
    pub queue: Seq<nat>,
    /// Tickets assigned so far; the next submission takes `pushed`.
    pub pushed: nat,
    /// Each created task's result channel.
    pub chans: Map<nat, ChanState>,
    /// Each caller's phase.
    pub callers: Map<nat, CallerPhase>,
}

/// The system before anything happened: engine idle and empty, every caller
/// resting.
pub open spec fn init(s: Proto) -> bool {
    &&& s.ctl is None
    &&& !s.busy
    &&& s.queue == Seq::<nat>::empty()
    &&& s.pushed == 0
    &&& s.chans == Map::<nat, ChanState>::empty()
    &&& (forall|c: nat| s.callers.dom().contains(c) ==> s.callers[c] is Resting)
}

/// Caller `c` pushes a fresh submission: it takes the next ticket, appends it
/// to the store, and creates the paired channel.
pub open spec fn step_push(s1: Proto, s2: Proto, c: nat) -> bool {
    &&& s1.callers.dom().contains(c)
    &&& s1.callers[c] is Resting
    &&& s2 == Proto {
        queue: s1.queue.push(s1.pushed),
        pushed: s1.pushed + 1,
        chans: s1.chans.insert(s1.pushed, ChanState::Pending),
        callers: s1.callers.insert(c, CallerPhase::Pushed { t: s1.pushed }),
        ..s1
    }
}

/// Caller `c`'s spin resolves: it observes the in-flight flag clear and may
/// now attempt the election.  While the flag is raised this step is simply
/// not enabled — that is the spin.
pub open spec fn step_observe(s1: Proto, s2: Proto, c: nat) -> bool {
    &&& s1.callers.dom().contains(c)
    &&& s1.callers[c] matches CallerPhase::Pushed { t }
    &&& !s1.busy
    &&& s2 == Proto { callers: s1.callers.insert(c, CallerPhase::Electing { t }), ..s1 }
}

/// Caller `c` wins the Idle -> Draining election.
pub open spec fn step_elect_win(s1: Proto, s2: Proto, c: nat) -> bool {
    &&& s1.callers.dom().contains(c)
    &&& s1.callers[c] matches CallerPhase::Electing { t }
    &&& s1.ctl is None
    &&& s2 == Proto {
        ctl: Some(c),
        callers: s1.callers.insert(c, CallerPhase::RunnerPop { t }),
        ..s1
    }
}

/// Caller `c` loses the election: another caller is already draining and owns
/// every ticket pushed before this attempt, so `c` just awaits its receiver.
pub open spec fn step_elect_lose(s1: Proto, s2: Proto, c: nat) -> bool {
    &&& s1.callers.dom().contains(c)
    &&& s1.callers[c] matches CallerPhase::Electing { t }
    &&& s1.ctl is Some
    &&& s2 == Proto { callers: s1.callers.insert(c, CallerPhase::Waiting { t }), ..s1 }
}

/// The runner raises the in-flight flag and starts a pop cycle.
pub open spec fn step_raise_flag(s1: Proto, s2: Proto, c: nat) -> bool {
    &&& s1.callers.dom().contains(c)
    &&& s1.callers[c] matches CallerPhase::RunnerPop { t }
    &&& s2 == Proto {
        busy: true,
        callers: s1.callers.insert(c, CallerPhase::RunnerMidPop { t }),
        ..s1
    }
}

/// The runner's pop finds the oldest ticket: the flag drops and the runner
/// drives that task.
pub open spec fn step_pop_found(s1: Proto, s2: Proto, c: nat) -> bool {
    &&& s1.callers.dom().contains(c)
    &&& s1.callers[c] matches CallerPhase::RunnerMidPop { t }
    &&& s1.queue.len() > 0
    &&& s2 == Proto {
        busy: false,
        queue: s1.queue.drop_first(),
        callers: s1.callers.insert(c, CallerPhase::RunnerDrive { t, u: s1.queue[0] }),
        ..s1
    }
}

/// The runner's pop finds the store empty: it steps down.  Returning the
/// election word to Idle and lowering the flag happen as one atomic step (see
/// the module comment).
pub open spec fn step_pop_empty(s1: Proto, s2: Proto, c: nat) -> bool {
    &&& s1.callers.dom().contains(c)
    &&& s1.callers[c] matches CallerPhase::RunnerMidPop { t }
    &&& s1.queue.len() == 0
    &&& s2 == Proto {
        ctl: None,
        busy: false,
        callers: s1.callers.insert(c, CallerPhase::Waiting { t }),
        ..s1
    }
}

/// The driven task completes and its outcome goes through its channel; the
/// runner returns to the top of the drain loop.  A domain error of the task
/// travels as an ordinary outcome, and a failed send is observed and passed
/// over — either way the loop continues.
pub open spec fn step_finish_task(s1: Proto, s2: Proto, c: nat) -> bool {
    &&& s1.callers.dom().contains(c)
    &&& s1.callers[c] matches CallerPhase::RunnerDrive { t, u }
    &&& s2 == Proto {
        chans: s1.chans.insert(u, ChanState::Sent),
        callers: s1.callers.insert(c, CallerPhase::RunnerPop { t }),
        ..s1
    }
}

/// A waiting caller's receiver resolves: possible exactly once its own
/// task's channel has been sent through.
pub open spec fn step_settle(s1: Proto, s2: Proto, c: nat) -> bool {
    &&& s1.callers.dom().contains(c)
    &&& s1.callers[c] matches CallerPhase::Waiting { t }
    &&& s1.chans.dom().contains(t)
    &&& s1.chans[t] is Sent
    &&& s2 == Proto { callers: s1.callers.insert(c, CallerPhase::Settled { t }), ..s1 }
}

/// One atomic step by caller `c`.
pub open spec fn next_by(s1: Proto, s2: Proto, c: nat) -> bool {
    ||| step_push(s1, s2, c)
    ||| step_observe(s1, s2, c)
    ||| step_elect_win(s1, s2, c)
    ||| step_elect_lose(s1, s2, c)
    ||| step_raise_flag(s1, s2, c)
    ||| step_pop_found(s1, s2, c)
    ||| step_pop_empty(s1, s2, c)
    ||| step_finish_task(s1, s2, c)
    ||| step_settle(s1, s2, c)
}

/// One atomic step by some caller.
pub open spec fn next(s1: Proto, s2: Proto) -> bool {
    exists|c: nat| next_by(s1, s2, c)
}

/// The phases in which a caller holds the drain loop.
pub open spec fn runner_phase(p: CallerPhase) -> bool {
    ||| p is RunnerPop
    ||| p is RunnerMidPop
    ||| p is RunnerDrive
}

/// The phases in which a caller is still on its way to running or handing
/// off its task: whoever holds one of these will make the queue move.
pub open spec fn attending(p: CallerPhase) -> bool {
    ||| p is Pushed
    ||| p is Electing
    ||| runner_phase(p)
}

/// Caller `c` is currently driving ticket `u`.
pub open spec fn drives(s: Proto, c: nat, u: nat) -> bool {
    &&& s.callers.dom().contains(c)
    &&& s.callers[c] matches CallerPhase::RunnerDrive { t: _, u: d } && d == u
}

/// Some caller is currently driving ticket `u`.
pub open spec fn driven(s: Proto, u: nat) -> bool {
    exists|c: nat| drives(s, c, u)
}

/// The election word names exactly the callers in a runner phase.
pub open spec fn inv_runner(s: Proto) -> bool {
    &&& (forall|c: nat|
        s.callers.dom().contains(c) && runner_phase(#[trigger] s.callers[c]) ==> s.ctl == Some(c))
    &&& (s.ctl matches Some(c) ==> s.callers.dom().contains(c) && runner_phase(s.callers[c]))
}

/// The in-flight flag is raised exactly while the runner is mid-pop.
pub open spec fn inv_flag(s: Proto) -> bool {
    &&& (s.busy ==> (s.ctl matches Some(c) && s.callers[c] is RunnerMidPop))
    &&& (forall|c: nat|
        s.callers.dom().contains(c) && (#[trigger] s.callers[c]) is RunnerMidPop ==> s.busy)
}

/// Ticket accounting: channels exist exactly for assigned tickets, the queue
/// is the contiguous window of the most recent tickets in push order, queued
/// and driven tasks are pending, the driven task sits just below the window,
/// and every pending task is queued or driven.
pub open spec fn inv_tasks(s: Proto) -> bool {
    &&& (forall|t: nat| #[trigger] s.chans.dom().contains(t) <==> t < s.pushed)
    &&& s.queue.len() <= s.pushed
    &&& (forall|i: int|
        0 <= i < s.queue.len() ==> #[trigger] s.queue[i] as int == s.pushed - s.queue.len() + i)
    &&& (forall|i: int| 0 <= i < s.queue.len() ==> s.chans[#[trigger] s.queue[i]] is Pending)
    &&& (forall|c: nat, u: nat|
        drives(s, c, u) ==> u as int == s.pushed - s.queue.len() - 1 && s.chans[u] is Pending)
    &&& (forall|t: nat|
        t < s.pushed && (#[trigger] s.chans[t]) is Pending ==> s.queue.contains(t) || driven(s, t))
}

/// A non-empty queue is always attended: some caller will still pop it or is
/// on its way to electing a runner for it.
pub open spec fn inv_attended(s: Proto) -> bool {
    s.queue.len() > 0 ==> exists|c: nat|
        s.callers.dom().contains(c) && attending(#[trigger] s.callers[c])
}

/// The inductive invariant of the system.
pub open spec fn inv(s: Proto) -> bool {
    &&& inv_runner(s)
    &&& inv_flag(s)
    &&& inv_tasks(s)
    &&& inv_attended(s)
}

/// The initial state satisfies the invariant.
pub proof fn lemma_init_inv(s: Proto)
    requires
        init(s),
    ensures
        inv(s),
{
    assert forall|t: nat| #[trigger] s.chans.dom().contains(t) <==> t < s.pushed by {
        assert(!s.chans.dom().contains(t));
    }
}

proof fn lemma_push_preserves(s1: Proto, s2: Proto, c: nat)
    requires
        inv(s1),
        step_push(s1, s2, c),
    ensures
        inv(s2),
{
    assert(s2.callers.dom() =~= s1.callers.dom());
    assert(s2.chans.dom() =~= s1.chans.dom().insert(s1.pushed));
    assert forall|t: nat| #[trigger] s2.chans.dom().contains(t) <==> t < s2.pushed by {
        assert(s1.chans.dom().contains(t) <==> t < s1.pushed);
    }
    assert forall|i: int| 0 <= i < s2.queue.len() implies #[trigger] s2.queue[i] as int
        == s2.pushed - s2.queue.len() + i by {
        if i < s1.queue.len() {
            assert(s2.queue[i] == s1.queue[i]);
        } else {
            assert(s2.queue[i] == s1.pushed);
        }
    }
    assert forall|i: int| 0 <= i < s2.queue.len() implies s2.chans[#[trigger] s2.queue[i]]
        is Pending by {
        if i < s1.queue.len() {
            assert(s2.queue[i] == s1.queue[i]);
            assert(s1.queue[i] as int == s1.pushed - s1.queue.len() + i);
            assert(s2.chans[s1.queue[i]] == s1.chans[s1.queue[i]]);
        } else {
            assert(s2.queue[i] == s1.pushed);
        }
    }
    assert forall|c2: nat, u: nat| drives(s2, c2, u) implies u as int == s2.pushed
        - s2.queue.len() - 1 && s2.chans[u] is Pending by {
        assert(c2 != c);
        assert(drives(s1, c2, u));
        assert(u as int == s1.pushed - s1.queue.len() - 1);
        assert(s2.chans[u] == s1.chans[u]);
    }
    assert forall|t: nat| t < s2.pushed && (#[trigger] s2.chans[t]) is Pending implies
        s2.queue.contains(t) || driven(s2, t) by {
        if t == s1.pushed {
            assert(s2.queue[s1.queue.len() as int] == t);
            assert(s2.queue.contains(t));
        } else {
            assert(s2.chans[t] == s1.chans[t]);
            if s1.queue.contains(t) {
                let i = choose|i: int| 0 <= i < s1.queue.len() && s1.queue[i] == t;
                assert(s2.queue[i] == t);
                assert(s2.queue.contains(t));
            } else {
                assert(driven(s1, t));
                let c3 = choose|c3: nat| drives(s1, c3, t);
                assert(c3 != c);
                assert(drives(s2, c3, t));
                assert(driven(s2, t));
            }
        }
    }
    assert(attending(s2.callers[c]));
}

proof fn lemma_observe_preserves(s1: Proto, s2: Proto, c: nat)
    requires
        inv(s1),
        step_observe(s1, s2, c),
    ensures
        inv(s2),
{
    assert(s2.callers.dom() =~= s1.callers.dom());
    assert forall|c2: nat, u: nat| drives(s2, c2, u) implies u as int == s2.pushed
        - s2.queue.len() - 1 && s2.chans[u] is Pending by {
        assert(c2 != c);
        assert(drives(s1, c2, u));
    }
    assert forall|t: nat| t < s2.pushed && (#[trigger] s2.chans[t]) is Pending implies
        s2.queue.contains(t) || driven(s2, t) by {
        if !s2.queue.contains(t) {
            assert(driven(s1, t));
            let c3 = choose|c3: nat| drives(s1, c3, t);
            assert(c3 != c);
            assert(drives(s2, c3, t));
        }
    }
    assert(attending(s2.callers[c]));
}

proof fn lemma_elect_win_preserves(s1: Proto, s2: Proto, c: nat)
    requires
        inv(s1),
        step_elect_win(s1, s2, c),
    ensures
        inv(s2),
{
    assert(s2.callers.dom() =~= s1.callers.dom());
    assert forall|c2: nat|
        s2.callers.dom().contains(c2) && runner_phase(#[trigger] s2.callers[c2]) implies s2.ctl
        == Some(c2) by {
        if c2 != c {
            assert(runner_phase(s1.callers[c2]));
            assert(s1.ctl == Some(c2));
            assert(false);
        }
    }
    assert forall|c2: nat, u: nat| drives(s2, c2, u) implies u as int == s2.pushed
        - s2.queue.len() - 1 && s2.chans[u] is Pending by {
        assert(c2 != c);
        assert(drives(s1, c2, u));
    }
    assert forall|t: nat| t < s2.pushed && (#[trigger] s2.chans[t]) is Pending implies
        s2.queue.contains(t) || driven(s2, t) by {
        if !s2.queue.contains(t) {
            assert(driven(s1, t));
            let c3 = choose|c3: nat| drives(s1, c3, t);
            assert(c3 != c);
            assert(drives(s2, c3, t));
        }
    }
    assert(attending(s2.callers[c]));
}

proof fn lemma_elect_lose_preserves(s1: Proto, s2: Proto, c: nat)
    requires
        inv(s1),
        step_elect_lose(s1, s2, c),
    ensures
        inv(s2),
{
    assert(s2.callers.dom() =~= s1.callers.dom());
    let cr = s1.ctl->Some_0;
    assert(runner_phase(s1.callers[cr]));
    assert(cr != c);
    assert forall|c2: nat, u: nat| drives(s2, c2, u) implies u as int == s2.pushed
        - s2.queue.len() - 1 && s2.chans[u] is Pending by {
        assert(c2 != c);
        assert(drives(s1, c2, u));
    }
    assert forall|t: nat| t < s2.pushed && (#[trigger] s2.chans[t]) is Pending implies
        s2.queue.contains(t) || driven(s2, t) by {
        if !s2.queue.contains(t) {
            assert(driven(s1, t));
            let c3 = choose|c3: nat| drives(s1, c3, t);
            assert(c3 != c);
            assert(drives(s2, c3, t));
        }
    }
    assert(s2.callers.dom().contains(cr) && attending(s2.callers[cr]));
}

proof fn lemma_raise_flag_preserves(s1: Proto, s2: Proto, c: nat)
    requires
        inv(s1),
        step_raise_flag(s1, s2, c),
    ensures
        inv(s2),
{
    assert(s2.callers.dom() =~= s1.callers.dom());
    assert(runner_phase(s1.callers[c]));
    assert(s1.ctl == Some(c));
    assert forall|c2: nat, u: nat| drives(s2, c2, u) implies u as int == s2.pushed
        - s2.queue.len() - 1 && s2.chans[u] is Pending by {
        assert(c2 != c);
        assert(drives(s1, c2, u));
    }
    assert forall|t: nat| t < s2.pushed && (#[trigger] s2.chans[t]) is Pending implies
        s2.queue.contains(t) || driven(s2, t) by {
        if !s2.queue.contains(t) {
            assert(driven(s1, t));
            let c3 = choose|c3: nat| drives(s1, c3, t);
            assert(c3 != c);
            assert(drives(s2, c3, t));
        }
    }
    assert(attending(s2.callers[c]));
}

proof fn lemma_pop_found_preserves(s1: Proto, s2: Proto, c: nat)
    requires
        inv(s1),
        step_pop_found(s1, s2, c),
    ensures
        inv(s2),
{
    assert(s2.callers.dom() =~= s1.callers.dom());
    assert(runner_phase(s1.callers[c]));
    assert(s1.ctl == Some(c));
    let u0 = s1.queue[0];
    assert(u0 as int == s1.pushed - s1.queue.len());
    assert(s1.chans[u0] is Pending);
    assert forall|i: int| 0 <= i < s2.queue.len() implies #[trigger] s2.queue[i] as int
        == s2.pushed - s2.queue.len() + i by {
        assert(s2.queue[i] == s1.queue[i + 1]);
        assert(s1.queue[i + 1] as int == s1.pushed - s1.queue.len() + i + 1);
    }
    assert forall|i: int| 0 <= i < s2.queue.len() implies s2.chans[#[trigger] s2.queue[i]]
        is Pending by {
        assert(s2.queue[i] == s1.queue[i + 1]);
        assert(s1.chans[s1.queue[i + 1]] is Pending);
    }
    assert forall|c2: nat, u: nat| drives(s2, c2, u) implies u as int == s2.pushed
        - s2.queue.len() - 1 && s2.chans[u] is Pending by {
        if c2 != c {
            assert(runner_phase(s1.callers[c2]));
            assert(s1.ctl == Some(c2));
            assert(false);
        } else {
            assert(u == u0);
        }
    }
    assert forall|t: nat| t < s2.pushed && (#[trigger] s2.chans[t]) is Pending implies
        s2.queue.contains(t) || driven(s2, t) by {
        if driven(s1, t) {
            let c3 = choose|c3: nat| drives(s1, c3, t);
            assert(runner_phase(s1.callers[c3]));
            assert(s1.ctl == Some(c3));
            assert(false);
        } else {
            assert(s1.queue.contains(t));
            let i = choose|i: int| 0 <= i < s1.queue.len() && s1.queue[i] == t;
            if i == 0 {
                assert(drives(s2, c, t));
                assert(driven(s2, t));
            } else {
                assert(s2.queue[i - 1] == s1.queue[i]);
                assert(s2.queue.contains(t));
            }
        }
    }
    assert(attending(s2.callers[c]));
}

proof fn lemma_pop_empty_preserves(s1: Proto, s2: Proto, c: nat)
    requires
        inv(s1),
        step_pop_empty(s1, s2, c),
    ensures
        inv(s2),
{
    assert(s2.callers.dom() =~= s1.callers.dom());
    assert(runner_phase(s1.callers[c]));
    assert(s1.ctl == Some(c));
    assert forall|c2: nat|
        s2.callers.dom().contains(c2) && runner_phase(#[trigger] s2.callers[c2]) implies s2.ctl
        == Some(c2) by {
        assert(c2 != c);
        assert(runner_phase(s1.callers[c2]));
        assert(s1.ctl == Some(c2));
        assert(false);
    }
    assert forall|c2: nat, u: nat| drives(s2, c2, u) implies u as int == s2.pushed
        - s2.queue.len() - 1 && s2.chans[u] is Pending by {
        assert(c2 != c);
        assert(drives(s1, c2, u));
        assert(runner_phase(s1.callers[c2]));
        assert(s1.ctl == Some(c2));
        assert(false);
    }
    assert forall|t: nat| t < s2.pushed && (#[trigger] s2.chans[t]) is Pending implies
        s2.queue.contains(t) || driven(s2, t) by {
        assert(s1.chans[t] is Pending);
        if driven(s1, t) {
            let c3 = choose|c3: nat| drives(s1, c3, t);
            assert(runner_phase(s1.callers[c3]));
            assert(s1.ctl == Some(c3));
            assert(false);
        } else {
            assert(s1.queue.contains(t));
            assert(false);
        }
    }
}

proof fn lemma_finish_task_preserves(s1: Proto, s2: Proto, c: nat)
    requires
        inv(s1),
        step_finish_task(s1, s2, c),
    ensures
        inv(s2),
{
    assert(s2.callers.dom() =~= s1.callers.dom());
    assert(runner_phase(s1.callers[c]));
    assert(s1.ctl == Some(c));
    let u0 = s1.callers[c]->RunnerDrive_u;
    assert(drives(s1, c, u0));
    assert(u0 as int == s1.pushed - s1.queue.len() - 1);
    assert(s2.chans.dom() =~= s1.chans.dom().insert(u0));
    assert forall|t: nat| #[trigger] s2.chans.dom().contains(t) <==> t < s2.pushed by {
        assert(s1.chans.dom().contains(t) <==> t < s1.pushed);
    }
    assert forall|i: int| 0 <= i < s2.queue.len() implies s2.chans[#[trigger] s2.queue[i]]
        is Pending by {
        assert(s1.queue[i] as int == s1.pushed - s1.queue.len() + i);
        assert(s1.queue[i] != u0);
        assert(s2.chans[s1.queue[i]] == s1.chans[s1.queue[i]]);
    }
    assert forall|c2: nat, u: nat| drives(s2, c2, u) implies u as int == s2.pushed
        - s2.queue.len() - 1 && s2.chans[u] is Pending by {
        assert(c2 != c);
        assert(drives(s1, c2, u));
        assert(runner_phase(s1.callers[c2]));
        assert(s1.ctl == Some(c2));
        assert(false);
    }
    assert forall|t: nat| t < s2.pushed && (#[trigger] s2.chans[t]) is Pending implies
        s2.queue.contains(t) || driven(s2, t) by {
        assert(t != u0);
        assert(s1.chans[t] is Pending);
        if driven(s1, t) {
            let c3 = choose|c3: nat| drives(s1, c3, t);
            assert(runner_phase(s1.callers[c3]));
            assert(s1.ctl == Some(c3));
            assert(c3 == c);
            assert(t == u0);
            assert(false);
        } else {
            assert(s1.queue.contains(t));
        }
    }
    assert(attending(s2.callers[c]));
}

proof fn lemma_settle_preserves(s1: Proto, s2: Proto, c: nat)
    requires
        inv(s1),
        step_settle(s1, s2, c),
    ensures
        inv(s2),
{
    assert(s2.callers.dom() =~= s1.callers.dom());
    assert forall|c2: nat, u: nat| drives(s2, c2, u) implies u as int == s2.pushed
        - s2.queue.len() - 1 && s2.chans[u] is Pending by {
        assert(c2 != c);
        assert(drives(s1, c2, u));
    }
    assert forall|t: nat| t < s2.pushed && (#[trigger] s2.chans[t]) is Pending implies
        s2.queue.contains(t) || driven(s2, t) by {
        if !s2.queue.contains(t) {
            assert(driven(s1, t));
            let c3 = choose|c3: nat| drives(s1, c3, t);
            assert(c3 != c);
            assert(drives(s2, c3, t));
        }
    }
    if s2.queue.len() > 0 {
        let w = choose|w: nat|
            s1.callers.dom().contains(w) && attending(#[trigger] s1.callers[w]);
        assert(w != c);
        assert(s2.callers.dom().contains(w) && attending(s2.callers[w]));
    }
}

/// Every step of the system preserves the invariant.
pub proof fn lemma_next_inv(s1: Proto, s2: Proto)
    requires
        inv(s1),
        next(s1, s2),
    ensures
        inv(s2),
{
    let c = choose|c: nat| next_by(s1, s2, c);
    if step_push(s1, s2, c) {
        lemma_push_preserves(s1, s2, c);
    } else if step_observe(s1, s2, c) {
        lemma_observe_preserves(s1, s2, c);
    } else if step_elect_win(s1, s2, c) {
        lemma_elect_win_preserves(s1, s2, c);
    } else if step_elect_lose(s1, s2, c) {
        lemma_elect_lose_preserves(s1, s2, c);
    } else if step_raise_flag(s1, s2, c) {
        lemma_raise_flag_preserves(s1, s2, c);
    } else if step_pop_found(s1, s2, c) {
        lemma_pop_found_preserves(s1, s2, c);
    } else if step_pop_empty(s1, s2, c) {
        lemma_pop_empty_preserves(s1, s2, c);
    } else if step_finish_task(s1, s2, c) {
        lemma_finish_task_preserves(s1, s2, c);
    } else {
        lemma_settle_preserves(s1, s2, c);
    }
}

/// Mutual exclusion: at any instant satisfying the invariant, at most one
/// caller holds the drain loop.
pub proof fn lemma_mutual_exclusion(s: Proto, c1: nat, c2: nat)
    requires
        inv(s),
        s.callers.dom().contains(c1),
        runner_phase(s.callers[c1]),
        s.callers.dom().contains(c2),
        runner_phase(s.callers[c2]),
    ensures
        c1 == c2,
{
    assert(s.ctl == Some(c1));
    assert(s.ctl == Some(c2));
}

/// FIFO: completions never overtake submissions.  Whenever a ticket's channel
/// has been sent through, so has every earlier ticket's — results go out in
/// strict push order.
pub proof fn lemma_fifo(s: Proto, t1: nat, t2: nat)
    requires
        inv(s),
        t1 <= t2 < s.pushed,
        s.chans[t2] is Sent,
    ensures
        s.chans[t1] is Sent,
{
    let low: int = s.pushed - s.queue.len();
    if s.chans[t1] is Pending {
        if s.queue.contains(t1) {
            let i = choose|i: int| 0 <= i < s.queue.len() && s.queue[i] == t1;
            assert(t1 as int == low + i);
            let j: int = t2 - low;
            assert(s.queue[j] == t2);
            assert(s.chans[t2] is Pending);
            assert(false);
        } else {
            assert(driven(s, t1));
            let c3 = choose|c3: nat| drives(s, c3, t1);
            assert(t1 as int == low - 1);
            if t1 == t2 {
                assert(false);
            } else {
                let j: int = t2 - low;
                assert(s.queue[j] == t2);
                assert(s.chans[t2] is Pending);
                assert(false);
            }
        }
    }
}

/// Exactly-once, step form: no step un-resolves a channel.  A channel is
/// created pending, and the single step that resolves it moves it from
/// pending to sent; after that every step leaves it sent.
pub proof fn lemma_resolution_monotone(s1: Proto, s2: Proto)
    requires
        inv(s1),
        next(s1, s2),
    ensures
        s1.pushed <= s2.pushed,
        forall|t: nat| t < s1.pushed && (#[trigger] s1.chans[t]) is Sent ==> s2.chans[t] is Sent,
{
    let c = choose|c: nat| next_by(s1, s2, c);
    if step_finish_task(s1, s2, c) {
        let u0 = s1.callers[c]->RunnerDrive_u;
        assert(drives(s1, c, u0));
        assert(s1.chans[u0] is Pending);
    }
}

/// No lost wakeups: while any accepted task is still pending, some caller is
/// attending to the store — it holds the drain loop, or is still on its way
/// to the election that its own push entitles it to.  A pending task is never
/// stranded with every caller passively waiting.
pub proof fn lemma_no_lost_wakeup(s: Proto, t: nat)
    requires
        inv(s),
        t < s.pushed,
        s.chans[t] is Pending,
    ensures
        exists|c: nat| s.callers.dom().contains(c) && attending(#[trigger] s.callers[c]),
{
    if s.queue.contains(t) {
        let i = choose|i: int| 0 <= i < s.queue.len() && s.queue[i] == t;
        assert(s.queue.len() > 0);
    } else {
        assert(driven(s, t));
        let c3 = choose|c3: nat| drives(s, c3, t);
        assert(attending(s.callers[c3]));
    }
}

/// Deadlock freedom: a system with a pending task always has an enabled step,
/// so it can only stop moving once every accepted task has been resolved.
pub proof fn lemma_progress(s: Proto, t: nat)
    requires
        inv(s),
        t < s.pushed,
        s.chans[t] is Pending,
    ensures
        exists|s2: Proto, c: nat| #[trigger] next_by(s, s2, c),
{
    if driven(s, t) {
        let c = choose|c: nat| drives(s, c, t);
        let tc = s.callers[c]->RunnerDrive_t;
        let s2 = Proto {
            chans: s.chans.insert(t, ChanState::Sent),
            callers: s.callers.insert(c, CallerPhase::RunnerPop { t: tc }),
            ..s
        };
        assert(step_finish_task(s, s2, c));
        assert(next_by(s, s2, c));
    } else {
        assert(s.queue.contains(t));
        let i = choose|i: int| 0 <= i < s.queue.len() && s.queue[i] == t;
        assert(s.queue.len() > 0);
        if s.busy {
            let cr = s.ctl->Some_0;
            assert(s.callers[cr] is RunnerMidPop);
            let tc = s.callers[cr]->RunnerMidPop_t;
            let s2 = Proto {
                busy: false,
                queue: s.queue.drop_first(),
                callers: s.callers.insert(cr, CallerPhase::RunnerDrive { t: tc, u: s.queue[0] }),
                ..s
            };
            assert(step_pop_found(s, s2, cr));
            assert(next_by(s, s2, cr));
        } else {
            let w = choose|w: nat|
                s.callers.dom().contains(w) && attending(#[trigger] s.callers[w]);
            match s.callers[w] {
                CallerPhase::Pushed { t: tw } => {
                    let s2 = Proto {
                        callers: s.callers.insert(w, CallerPhase::Electing { t: tw }),
                        ..s
                    };
                    assert(step_observe(s, s2, w));
                    assert(next_by(s, s2, w));
                },
                CallerPhase::Electing { t: tw } => {
                    if s.ctl is None {
                        let s2 = Proto {
                            ctl: Some(w),
                            callers: s.callers.insert(w, CallerPhase::RunnerPop { t: tw }),
                            ..s
                        };
                        assert(step_elect_win(s, s2, w));
                        assert(next_by(s, s2, w));
                    } else {
                        let s2 = Proto {
                            callers: s.callers.insert(w, CallerPhase::Waiting { t: tw }),
                            ..s
                        };
                        assert(step_elect_lose(s, s2, w));
                        assert(next_by(s, s2, w));
                    }
                },
                CallerPhase::RunnerPop { t: tw } => {
                    let s2 = Proto {
                        busy: true,
                        callers: s.callers.insert(w, CallerPhase::RunnerMidPop { t: tw }),
                        ..s
                    };
                    assert(step_raise_flag(s, s2, w));
                    assert(next_by(s, s2, w));
                },
                CallerPhase::RunnerMidPop { t: tw } => {
                    assert(s.busy);
                    assert(false);
                },
                CallerPhase::RunnerDrive { t: tw, u } => {
                    let s2 = Proto {
                        chans: s.chans.insert(u, ChanState::Sent),
                        callers: s.callers.insert(w, CallerPhase::RunnerPop { t: tw }),
                        ..s
                    };
                    assert(step_finish_task(s, s2, w));
                    assert(next_by(s, s2, w));
                },
                _ => {
                    assert(!attending(s.callers[w]));
                    assert(false);
                },
            }
        }
    }
}

/// Return to Idle: once no caller is attending — every submission was driven
/// and handed off, or is merely awaiting its receiver — the engine is Idle,
/// the flag is clear, and the store is empty.
pub proof fn lemma_return_to_idle(s: Proto)
    requires
        inv(s),
        forall|c: nat| s.callers.dom().contains(c) ==> !attending(#[trigger] s.callers[c]),
    ensures
        s.ctl is None,
        !s.busy,
        s.queue.len() == 0,
{
    if s.ctl is Some {
        let cr = s.ctl->Some_0;
        assert(runner_phase(s.callers[cr]));
        assert(false);
    }
    if s.busy {
        let cr = s.ctl->Some_0;
        assert(false);
    }
    if s.queue.len() > 0 {
        let w = choose|w: nat|
            s.callers.dom().contains(w) && attending(#[trigger] s.callers[w]);
        assert(false);
    }
}

/// After returning to Idle, a fresh submission re-elects a runner: a resting
/// caller can push, observe the clear flag, and win the election, in three
/// consecutive steps of the system.
pub proof fn lemma_fresh_election(s: Proto, c: nat) -> (tr: (Proto, Proto, Proto))
    requires
        inv(s),
        forall|c2: nat| s.callers.dom().contains(c2) ==> !attending(#[trigger] s.callers[c2]),
        s.callers.dom().contains(c),
        s.callers[c] is Resting,
    ensures
        step_push(s, tr.0, c),
        step_observe(tr.0, tr.1, c),
        step_elect_win(tr.1, tr.2, c),
        tr.2.ctl == Some(c),
        inv(tr.2),
{
    lemma_return_to_idle(s);
    let s1 = Proto {
        queue: s.queue.push(s.pushed),
        pushed: s.pushed + 1,
        chans: s.chans.insert(s.pushed, ChanState::Pending),
        callers: s.callers.insert(c, CallerPhase::Pushed { t: s.pushed }),
        ..s
    };
    let s2 = Proto { callers: s1.callers.insert(c, CallerPhase::Electing { t: s.pushed }), ..s1 };
    let s3 = Proto {
        ctl: Some(c),
        callers: s2.callers.insert(c, CallerPhase::RunnerPop { t: s.pushed }),
        ..s2
    };
    assert(step_push(s, s1, c));
    assert(step_observe(s1, s2, c));
    assert(step_elect_win(s2, s3, c));
    lemma_push_preserves(s, s1, c);
    lemma_observe_preserves(s1, s2, c);
    lemma_elect_win_preserves(s2, s3, c);
    (s1, s2, s3)
}

/// A finite run of the system: every adjacent pair of states is one step.
pub open spec fn execution(tr: Seq<Proto>) -> bool {
    forall|i: int| 0 <= i < tr.len() - 1 ==> next(#[trigger] tr[i], tr[i + 1])
}

/// Every state of a run that starts initial satisfies the invariant, so each
/// guarantee above holds at every sampled instant of every run.
pub proof fn lemma_execution_inv(tr: Seq<Proto>, i: int)
    requires
        tr.len() > 0,
        init(tr[0]),
        execution(tr),
        0 <= i < tr.len(),
    ensures
        inv(tr[i]),
    decreases i,
{
    if i == 0 {
        lemma_init_inv(tr[0]);
    } else {
        lemma_execution_inv(tr, i - 1);
        lemma_next_inv(tr[i - 1], tr[i]);
    }
}

/// Exactly-once along a run: a channel sent through at some instant stays
/// sent through for the rest of the run — a receiver that resolved can never
/// resolve again.
pub proof fn lemma_execution_once(tr: Seq<Proto>, i: int, j: int, t: nat)
    requires
        tr.len() > 0,
        init(tr[0]),
        execution(tr),
        0 <= i <= j < tr.len(),
        t < tr[i].pushed,
        tr[i].chans[t] is Sent,
    ensures
        t < tr[j].pushed,
        tr[j].chans[t] is Sent,
    decreases j - i,
{
    if j > i {
        lemma_execution_inv(tr, i);
        lemma_resolution_monotone(tr[i], tr[i + 1]);
        lemma_execution_once(tr, i + 1, j, t);
    }
}

} // verus!
