//! A specification-level model of the per-mailbox scheduling protocol.
//!
//! The model abstracts one mailbox together with the drain tasks that are
//! submitted or running for it on the shared worker pool. Its events are the
//! three atomic transitions of the scheduling state machine; the invariant
//! proved here states the two properties the protocol exists for: at most one
//! drain task is ever alive for a mailbox (no double-schedule), and whenever
//! items are pending a drain task is alive to consume them (no lost wakeup).
//! The transitions of `Mailbox` refine these events step for step.

use vstd::prelude::*;

verus! {

/// The abstract state of one mailbox: the items still pending, the number of
/// drain tasks currently submitted-or-running for it, and the items already
/// handed to the processing capability.
#[verifier::ext_equal]
pub struct ActorState {
    pub pending: Seq<Seq<char>>,
    pub tasks: nat,
    pub drained: Seq<Seq<char>>,
}

/// The atomic events of the scheduling protocol.
pub enum ActorEvent {
    /// A producer appends an item and, if no drain task is alive, submits one.
    Enqueue(Seq<char>),
    /// The alive drain task takes the head item for processing.
    Take,
    /// The alive drain task observes an empty queue and retires, atomically
    /// re-validating emptiness in the same step.
    Retire,
}

/// The initial state: nothing pending, nothing drained, no task alive.
pub open spec fn init(s: ActorState) -> bool {
    s.pending.len() == 0 && s.tasks == 0 && s.drained.len() == 0
}

/// When an event may fire. `Take` and `Retire` are moves of an alive drain
/// task; `Retire` fires only when the queue is observed empty, which is what
/// closes the race window: an enqueue that found the task still alive keeps
/// the queue non-empty, so the task cannot retire under it.
pub open spec fn enabled(s: ActorState, e: ActorEvent) -> bool {
    match e {
        ActorEvent::Enqueue(_) => true,
        ActorEvent::Take => s.tasks > 0 && s.pending.len() > 0,
        ActorEvent::Retire => s.tasks > 0 && s.pending.len() == 0,
    }
}

/// The state after an enabled event fires.
pub open spec fn step(s: ActorState, e: ActorEvent) -> ActorState {
    match e {
        ActorEvent::Enqueue(x) => ActorState {
            pending: s.pending.push(x),
            tasks: if s.tasks == 0 { 1nat } else { s.tasks },
            drained: s.drained,
        },
        ActorEvent::Take => ActorState {
            pending: s.pending.drop_first(),
            tasks: s.tasks,
            drained: s.drained.push(s.pending[0]),
        },
        ActorEvent::Retire => ActorState {
            pending: s.pending,
            tasks: (s.tasks - 1) as nat,
            drained: s.drained,
        },
    }
}

/// The protocol invariant: at most one drain task is ever alive for the
/// mailbox, and whenever items are pending exactly one is.
pub open spec fn inv(s: ActorState) -> bool {
    s.tasks <= 1 && (s.pending.len() > 0 ==> s.tasks == 1)
}

/// The initial state satisfies the invariant.
pub proof fn lemma_init_inv(s: ActorState)
    requires
        init(s),
    ensures
        inv(s),
{
}

/// Every enabled event preserves the invariant. In particular an `Enqueue`
/// that races with a retiring drain task either fires before the `Retire`
/// (which is then disabled, since the queue is no longer empty) or after it
/// (and then finds `tasks == 0` and submits a fresh task): the item can never
/// be left pending with no task alive, and `tasks` can never reach 2.
pub proof fn lemma_step_preserves_inv(s: ActorState, e: ActorEvent)
    requires
        inv(s),
        enabled(s, e),
    ensures
        inv(step(s, e)),
{
}

/// The state reached by running `evs` from `s0`, earliest event first.
pub open spec fn run(s0: ActorState, evs: Seq<ActorEvent>) -> ActorState
    decreases evs.len(),
{
    if evs.len() == 0 {
        s0
    } else {
        step(run(s0, evs.drop_last()), evs.last())
    }
}

/// A run is valid when every event is enabled in the state it fires from.
pub open spec fn valid_run(s0: ActorState, evs: Seq<ActorEvent>) -> bool {
    forall|i: int|
        0 <= i < evs.len() ==> enabled(run(s0, evs.take(i)), #[trigger] evs[i])
}

/// Mutual exclusion over whole executions: along any valid run from the
/// initial state, never are two drain tasks alive for the same mailbox at
/// once, and never is an item pending with no drain task alive.
pub proof fn lemma_mutual_exclusion(s0: ActorState, evs: Seq<ActorEvent>)
    requires
        init(s0),
        valid_run(s0, evs),
    ensures
        inv(run(s0, evs)),
    decreases evs.len(),
{
    lemma_init_inv(s0);
    if evs.len() > 0 {
        let n = evs.len() as int;
        let pre = evs.drop_last();
        assert forall|i: int| 0 <= i < pre.len() implies enabled(
            run(s0, pre.take(i)),
            #[trigger] pre[i],
        ) by {
            assert(pre.take(i) =~= evs.take(i));
            assert(pre[i] == evs[i]);
        }
        lemma_mutual_exclusion(s0, pre);
        assert(evs.take(n - 1) =~= pre);
        assert(enabled(run(s0, pre), evs[n - 1]));
        lemma_step_preserves_inv(run(s0, pre), evs.last());
    }
}

} // verus!
