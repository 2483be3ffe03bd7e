use rust_web_server::pool::ThreadPool;
use rust_web_server::task::Task;
use rust_web_server::worker::{
    worker_finish, worker_step, WorkerAction, WorkerEvent, WorkerMessage, WorkerState,
};

fn ids(tasks: &[Task]) -> Vec<u64> {
    tasks.iter().map(|t| t.id).collect()
}

#[test]
fn construct_then_shutdown_joins_every_worker() {
    for n in 1..=5usize {
        let mut p = ThreadPool::make(n);
        assert!(p.accepting);
        assert_eq!(p.workers.len(), n);
        assert!(p.workers.iter().all(|w| matches!(w, WorkerState::Idle)));
        assert_eq!(p.queue.len(), 0);
        assert_eq!(p.executed.len(), 0);
        p.shutdown();
        assert_eq!(p.joined, n);
        assert!(!p.accepting);
        assert!(p.workers.iter().all(|w| matches!(w, WorkerState::Terminated)));
        assert_eq!(p.executed.len(), 0);
        assert_eq!(p.queue.len(), 0);
    }
}

#[test]
fn every_queued_task_runs_exactly_once_in_order() {
    let mut p = ThreadPool::make(2);
    for id in 0..5u64 {
        p.execute(Task::new(id));
    }
    assert_eq!(ids(&p.queue), vec![0, 1, 2, 3, 4]);
    p.shutdown();
    assert_eq!(ids(&p.executed), vec![0, 1, 2, 3, 4]);
    assert_eq!(p.queue.len(), 0);
    assert_eq!(p.joined, 2);
}

#[test]
fn interleaved_producers_keep_their_own_order() {
    // Producer A submits 100, 101, 102 and producer B submits 200, 201,
    // 202, interleaved; each producer's tasks must run in its own order.
    let mut p = ThreadPool::make(3);
    for id in [100u64, 200, 101, 201, 102, 202] {
        p.execute(Task::new(id));
    }
    p.shutdown();
    let a: Vec<u64> = p.executed.iter().map(|t| t.id).filter(|i| *i < 200).collect();
    let b: Vec<u64> = p.executed.iter().map(|t| t.id).filter(|i| *i >= 200).collect();
    assert_eq!(a, vec![100, 101, 102]);
    assert_eq!(b, vec![200, 201, 202]);
    assert_eq!(p.executed.len(), 6);
}

#[test]
fn at_most_worker_count_tasks_run_concurrently() {
    let mut p = ThreadPool::make(3);
    for id in 0..4u64 {
        p.execute(Task::new(id));
    }
    // Three workers each take a task: three tasks run at once, and the
    // fourth must wait on the queue even though it is already submitted.
    let t0 = p.begin_task(0);
    let t1 = p.begin_task(1);
    let t2 = p.begin_task(2);
    assert_eq!((t0.id, t1.id, t2.id), (0, 1, 2));
    let running = p.workers.iter().filter(|w| matches!(w, WorkerState::Running(_))).count();
    assert_eq!(running, 3);
    assert_eq!(p.workers.len(), 3);
    assert_eq!(p.queue.len(), 1);
    // A worker frees up; only then does the fourth task start.
    p.finish_task(1);
    let t3 = p.begin_task(1);
    assert_eq!(t3.id, 3);
    let running = p.workers.iter().filter(|w| matches!(w, WorkerState::Running(_))).count();
    assert_eq!(running, 3);
    p.finish_task(0);
    p.finish_task(1);
    p.finish_task(2);
    p.shutdown();
    assert_eq!(ids(&p.executed), vec![1, 0, 3, 2]);
}

#[test]
fn submit_after_shutdown_never_runs_and_never_blocks() {
    let mut p = ThreadPool::make(2);
    p.execute(Task::new(7));
    p.shutdown();
    assert_eq!(ids(&p.executed), vec![7]);
    // The pool is quiescent; a late submission is silently dropped.
    p.execute(Task::new(8));
    assert_eq!(p.queue.len(), 0);
    assert_eq!(ids(&p.executed), vec![7]);
    assert!(!p.accepting);
    assert_eq!(p.joined, 2);
}

#[test]
fn nine_noop_tasks_on_three_workers_count_nine_runs() {
    let mut p = ThreadPool::make(3);
    for id in 0..9u64 {
        p.execute(Task::new(id));
    }
    p.shutdown();
    // Exactly nine runs, no duplicates, no task skipped.
    assert_eq!(p.executed.len(), 9);
    for id in 0..9u64 {
        let runs = p.executed.iter().filter(|t| t.id == id).count();
        assert_eq!(runs, 1);
    }
}

#[test]
fn fault_kills_the_sole_worker_and_later_tasks_stall() {
    // Default fault policy: the fault is not caught, the worker dies, and
    // with no worker left the remaining submission never executes.
    let mut p = ThreadPool::make(1);
    p.execute(Task::faulty(1));
    p.execute(Task::new(2));
    p.shutdown();
    assert_eq!(ids(&p.executed), vec![1]);
    assert_eq!(ids(&p.queue), vec![2]);
    assert!(matches!(p.workers[0], WorkerState::Terminated));
    assert_eq!(p.joined, 1);
}

#[test]
fn fault_costs_one_worker_but_the_rest_drain_on() {
    let mut p = ThreadPool::make(2);
    p.execute(Task::new(1));
    p.execute(Task::faulty(2));
    p.execute(Task::new(3));
    p.execute(Task::new(4));
    p.shutdown();
    // The faulting task itself ran once; the surviving worker finished the
    // rest.
    assert_eq!(ids(&p.executed), vec![1, 2, 3, 4]);
    assert_eq!(p.queue.len(), 0);
    assert_eq!(p.joined, 2);
}

#[test]
fn worker_step_runs_new_jobs_and_exits_on_stop() {
    let t = Task::new(42);
    let (state, action) = worker_step(
        WorkerState::Idle,
        WorkerEvent::Delivered(WorkerMessage::NewJob(t)),
    );
    assert_eq!(state, WorkerState::Running(t));
    assert_eq!(action, WorkerAction::Run(t));

    let (state, action) = worker_step(
        WorkerState::Idle,
        WorkerEvent::Delivered(WorkerMessage::Stop),
    );
    assert_eq!(state, WorkerState::Terminated);
    assert_eq!(action, WorkerAction::Exit);

    let (state, action) = worker_step(WorkerState::Idle, WorkerEvent::Closed);
    assert_eq!(state, WorkerState::Terminated);
    assert_eq!(action, WorkerAction::Exit);
}

#[test]
fn worker_finish_returns_idle_or_dies_on_fault() {
    assert_eq!(worker_finish(Task::new(5)), WorkerState::Idle);
    assert_eq!(worker_finish(Task::faulty(5)), WorkerState::Terminated);
}

#[test]
fn shutdown_completes_tasks_already_running() {
    let mut p = ThreadPool::make(2);
    p.execute(Task::new(1));
    p.execute(Task::new(2));
    let started = p.begin_task(0);
    assert_eq!(started.id, 1);
    p.shutdown();
    // The in-flight task finished before shutdown returned, then the
    // queued one ran.
    assert_eq!(ids(&p.executed), vec![1, 2]);
    assert_eq!(p.joined, 2);
}
