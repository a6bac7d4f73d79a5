//! A verified actor/mailbox dispatch core.
//!
//! A stream of work items is fanned out round-robin across a fixed number of
//! independent, ordered mailboxes (shards). Each mailbox owns a FIFO queue of
//! pending items and a scheduling flag; the flag guarantees that at most one
//! drain task is ever submitted-or-running for a given mailbox, while no item
//! enqueued during a race window is ever lost. The surrounding program runs
//! the drain tasks on a shared worker pool; every scheduling decision is made
//! by the verified transition functions in this crate.

pub mod dispatcher;
pub mod mailbox;
pub mod protocol;
pub mod render;
