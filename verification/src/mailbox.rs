//! The single-queue mailbox: one FIFO queue of pending items plus a
//! scheduling flag, with the atomic transitions that decide when a drain
//! task must be handed to the shared worker pool.

use vstd::prelude::*;

verus! {

/// What one atomic step of a drain task did: either it took the head item of
/// the queue (and must now run the processing capability on it, staying
/// scheduled), or it observed the queue empty and went idle, releasing the
/// mailbox's single drain slot.
pub enum DrainStep {
    Took(String),
    WentIdle,
}

/// One actor's mailbox. `queue` holds the items not yet handed to the
/// processing capability, oldest first; it is unbounded by design, so an
/// enqueue always succeeds and producers faster than the pool grow memory
/// without backpressure. `scheduled` is true exactly while a drain task for
/// this mailbox is submitted or running on the worker pool. `handed_out`
/// records, in order, (the views of) all items the drain task has already
/// taken for processing.
pub struct Mailbox {
    queue: Vec<String>,
    scheduled: bool,
    handed_out: Ghost<Seq<Seq<char>>>,
}

impl Mailbox {
    /// The items still waiting in the queue, oldest first.
    pub closed spec fn pending(self) -> Seq<Seq<char>> {
        self.queue@.map(|i: int, s: String| s@)
    }

    /// The items already handed to the processing capability, in order.
    pub closed spec fn drained(self) -> Seq<Seq<char>> {
        self.handed_out@
    }

    /// All items ever enqueued, in arrival order.
    pub open spec fn submitted(self) -> Seq<Seq<char>> {
        self.drained() + self.pending()
    }

    /// True while a drain task for this mailbox is submitted or running.
    pub closed spec fn is_scheduled(self) -> bool {
        self.scheduled
    }

    /// The no-lost-wakeup invariant: whenever items are pending, a drain
    /// task is scheduled to consume them.
    pub open spec fn wf(self) -> bool {
        self.pending().len() > 0 ==> self.is_scheduled()
    }

    /// The abstraction of this mailbox into the scheduling protocol model:
    /// `scheduled` stands for exactly one alive drain task, idle for none.
    pub open spec fn abs(self) -> crate::protocol::ActorState {
        crate::protocol::ActorState {
            pending: self.pending(),
            tasks: if self.is_scheduled() {
                1nat
            } else {
                0nat
            },
            drained: self.drained(),
        }
    }

    /// A fresh, idle mailbox with an empty queue.
    pub fn new() -> (m: Mailbox)
        ensures
            m.wf(),
            !m.is_scheduled(),
            m.pending() =~= Seq::<Seq<char>>::empty(),
            m.drained() =~= Seq::<Seq<char>>::empty(),
            crate::protocol::init(m.abs()),
    {
        Mailbox { queue: Vec::new(), scheduled: false, handed_out: Ghost(Seq::empty()) }
    }

    /// Append `item` to the tail of the queue and, in the same indivisible
    /// step, decide whether a drain task must be submitted to the worker
    /// pool: one is owed exactly when none was scheduled before. After the
    /// call the mailbox is always scheduled, so no enqueued item can be left
    /// without a drain task (no lost wakeup), and `submit` is true at most
    /// once per idle period (no double-schedule).
    pub fn enqueue(&mut self, item: String) -> (submit: bool)
        ensures
            final(self).pending() == old(self).pending().push(item@),
            final(self).drained() == old(self).drained(),
            final(self).submitted() == old(self).submitted().push(item@),
            final(self).is_scheduled(),
            submit == !old(self).is_scheduled(),
            final(self).wf(),
            crate::protocol::enabled(
                old(self).abs(),
                crate::protocol::ActorEvent::Enqueue(item@),
            ),
            final(self).abs() == crate::protocol::step(
                old(self).abs(),
                crate::protocol::ActorEvent::Enqueue(item@),
            ),
    {
        let ghost before = self.pending();
        self.queue.push(item);
        proof {
            assert(self.pending() =~= before.push(item@));
            assert(self.submitted() =~= old(self).submitted().push(item@));
        }
        if !self.scheduled {
            self.scheduled = true;
            true
        } else {
            false
        }
    }

    /// One atomic step of the drain task that currently owns this mailbox's
    /// drain slot. If an item is pending it takes the head (FIFO) and the
    /// task stays scheduled; if the queue is observed empty the mailbox
    /// atomically becomes idle in the same step, so an enqueue racing with
    /// this transition either sees the mailbox still scheduled (and the next
    /// `drain_step` takes its item) or sees it idle and submits a fresh
    /// drain task itself. Either way nothing is lost and no second task runs.
    pub fn drain_step(&mut self) -> (step: DrainStep)
        requires
            old(self).is_scheduled(),
        ensures
            final(self).submitted() == old(self).submitted(),
            final(self).wf(),
            match step {
                DrainStep::Took(item) => {
                    &&& old(self).pending().len() > 0
                    &&& item@ == old(self).pending()[0]
                    &&& final(self).pending() == old(self).pending().drop_first()
                    &&& final(self).drained() == old(self).drained().push(item@)
                    &&& final(self).is_scheduled()
                    &&& crate::protocol::enabled(old(self).abs(), crate::protocol::ActorEvent::Take)
                    &&& final(self).abs() == crate::protocol::step(
                        old(self).abs(),
                        crate::protocol::ActorEvent::Take,
                    )
                },
                DrainStep::WentIdle => {
                    &&& old(self).pending().len() == 0
                    &&& final(self).pending() == old(self).pending()
                    &&& final(self).drained() == old(self).drained()
                    &&& !final(self).is_scheduled()
                    &&& crate::protocol::enabled(old(self).abs(), crate::protocol::ActorEvent::Retire)
                    &&& final(self).abs() == crate::protocol::step(
                        old(self).abs(),
                        crate::protocol::ActorEvent::Retire,
                    )
                },
            },
    {
        if self.queue.len() > 0 {
            let ghost before = self.pending();
            let item = self.queue.remove(0);
            proof {
                assert(self.pending() =~= before.drop_first());
            }
            self.handed_out = Ghost(self.handed_out@.push(item@));
            proof {
                assert(self.submitted() =~= old(self).submitted());
            }
            DrainStep::Took(item)
        } else {
            self.scheduled = false;
            proof {
                assert(self.pending() =~= Seq::<Seq<char>>::empty());
                assert(self.submitted() =~= old(self).submitted());
            }
            DrainStep::WentIdle
        }
    }

    /// True while a drain task for this mailbox is submitted or running; a
    /// drain task may take a `drain_step` only while this holds.
    pub fn scheduled(&self) -> (b: bool)
        ensures
            b == self.is_scheduled(),
    {
        self.scheduled
    }

    /// True exactly when the mailbox has fully quiesced: no item pending and
    /// no drain task submitted or running. `complete()` blocks until this
    /// holds; when it does, everything ever enqueued has been handed out.
    pub fn is_quiescent(&self) -> (q: bool)
        ensures
            q == (self.pending().len() == 0 && !self.is_scheduled()),
            q ==> self.drained() == self.submitted(),
    {
        proof {
            if self.queue.len() == 0 {
                assert(self.drained() =~= self.submitted());
            }
        }
        self.queue.len() == 0 && !self.scheduled
    }
}

/// The mailbox invariant is exactly the protocol invariant under `abs`: a
/// well-formed mailbox never has two drain tasks alive (its boolean flag can
/// count at most one) and never an item pending without one. Together with
/// the `abs`-refinement clauses of `enqueue` and `drain_step`, the trace law
/// `protocol::lemma_mutual_exclusion` therefore speaks of every state a
/// mailbox can reach.
pub proof fn lemma_wf_is_protocol_inv(m: Mailbox)
    ensures
        m.wf() == crate::protocol::inv(m.abs()),
{
}

/// Exactly-once, FIFO delivery for one mailbox: in every reachable state the
/// items already handed to the processing capability are exactly the first
/// `drained().len()` items ever enqueued, in arrival order, and the rest are
/// still pending, in arrival order. So every enqueued item is handed out at
/// most once, in FIFO order, and — once the mailbox quiesces — exactly once.
pub proof fn lemma_fifo_exactly_once(m: Mailbox)
    ensures
        m.submitted().len() == m.drained().len() + m.pending().len(),
        m.drained() == m.submitted().take(m.drained().len() as int),
        m.pending() == m.submitted().skip(m.drained().len() as int),
{
    assert(m.drained() =~= m.submitted().take(m.drained().len() as int));
    assert(m.pending() =~= m.submitted().skip(m.drained().len() as int));
}

} // verus!
