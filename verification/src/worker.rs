use vstd::prelude::*;

use crate::task::Task;

verus! {

/// The unit carried on the work queue: either a new job for some worker to
/// run, or the stop signal that shuts a worker down. Carrying the stop
/// signal on the same queue as the jobs guarantees that a worker sees it
/// only after every job enqueued before it.
#[derive(Clone, Copy, PartialEq, Eq, Structural, Debug)]
pub enum WorkerMessage {
    NewJob(Task),
    Stop,
}

/// The externally visible state of one worker: waiting for a message,
/// running a particular task, or terminated (either by the stop signal or
/// by a faulting task).
#[derive(Clone, Copy, PartialEq, Eq, Structural, Debug)]
pub enum WorkerState {
    Idle,
    Running(Task),
    Terminated,
}

/// What a worker observes when it blocks on the queue: a message was
/// delivered to it (to this worker alone — delivery is exactly-once), or
/// the queue was closed with no message, which the worker treats as an
/// implicit stop.
#[derive(Clone, Copy, PartialEq, Eq, Structural, Debug)]
pub enum WorkerEvent {
    Delivered(WorkerMessage),
    Closed,
}

/// What a worker must do after taking one step: run a task to completion,
/// or exit its loop.
#[derive(Clone, Copy, PartialEq, Eq, Structural, Debug)]
pub enum WorkerAction {
    Run(Task),
    Exit,
}

/// One turn of the worker loop: from an idle worker and the event it
/// observed on the queue, the worker's next state and the action it must
/// perform. A delivered job moves the worker to `Running` and has it run
/// the job; the stop signal, or a closed queue, terminates it.
pub fn worker_step(state: WorkerState, event: WorkerEvent) -> (r: (WorkerState, WorkerAction))
    requires
        state is Idle,
    ensures
        (event matches WorkerEvent::Delivered(WorkerMessage::NewJob(t)) ==> r.0
            == WorkerState::Running(t) && r.1 == WorkerAction::Run(t)),
        event == WorkerEvent::Delivered(WorkerMessage::Stop) ==> r.0 == WorkerState::Terminated
            && r.1 == WorkerAction::Exit,
        event is Closed ==> r.0 == WorkerState::Terminated && r.1 == WorkerAction::Exit,
{
    match event {
        WorkerEvent::Delivered(WorkerMessage::NewJob(t)) => (
            WorkerState::Running(t),
            WorkerAction::Run(t),
        ),
        WorkerEvent::Delivered(WorkerMessage::Stop) => (
            WorkerState::Terminated,
            WorkerAction::Exit,
        ),
        WorkerEvent::Closed => (WorkerState::Terminated, WorkerAction::Exit),
    }
}

/// The state a worker reaches when the task it was running finishes: back
/// to `Idle` on normal completion, `Terminated` when the task raised a
/// fault. A fault is not caught: it costs the pool that worker.
pub fn worker_finish(task: Task) -> (r: WorkerState)
    ensures
        task.faults ==> r == WorkerState::Terminated,
        !task.faults ==> r == WorkerState::Idle,
{
    if task.faults {
        WorkerState::Terminated
    } else {
        WorkerState::Idle
    }
}

} // verus!
