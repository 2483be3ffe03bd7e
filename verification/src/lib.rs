//! A bounded worker pool: a fixed set of long-lived workers that drain a
//! shared queue of one-shot tasks, with an explicit, orderly shutdown
//! protocol.
//!
//! The pool is modelled as a small-step state machine over plain values:
//! tasks are opaque units of work carrying an identity and an execution
//! outcome, workers are state machines (`Idle`, `Running`, `Terminated`),
//! and the queue is a first-in-first-out sequence shared by all workers.
//! The contracts pin down exactly which tasks run, in what order, and what
//! the shutdown protocol leaves behind.

pub mod http;
pub mod pool;
pub mod task;
pub mod worker;
