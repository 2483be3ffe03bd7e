use vstd::prelude::*;

verus! {

/// A one-shot unit of deferred work.
///
/// The pool treats tasks as opaque: it never looks inside the work itself.
/// What the pool's behaviour does depend on is captured here as plain data:
/// `id` identifies the task (for observability and for stating ordering
/// guarantees), and `faults` records whether running the task raises a fault
/// instead of completing normally. A fault terminates the worker that ran
/// the task; a normal completion returns the worker to its idle state.
#[derive(Clone, Copy, PartialEq, Eq, Structural, Debug)]
pub struct Task {
    pub id: u64,
    pub faults: bool,
}

impl Task {
    /// A task that completes normally.
    pub fn new(id: u64) -> (t: Task)
        ensures
            t.id == id,
            !t.faults,
    {
        Task { id, faults: false }
    }

    /// A task whose execution raises a fault.
    pub fn faulty(id: u64) -> (t: Task)
        ensures
            t.id == id,
            t.faults,
    {
        Task { id, faults: true }
    }
}

} // verus!
