use vstd::prelude::*;
use vstd::pervasive::VecAdditionalExecFns;

use crate::task::Task;
use crate::worker::{worker_finish, worker_step, WorkerEvent, WorkerMessage, WorkerState};

verus! {

/// How many of the workers satisfy `pred`.
pub open spec fn count_matching(ws: Seq<WorkerState>, pred: spec_fn(WorkerState) -> bool) -> nat
    decreases ws.len(),
{
    if ws.len() == 0 {
        0
    } else {
        count_matching(ws.drop_last(), pred) + (if pred(ws.last()) {
            1nat
        } else {
            0nat
        })
    }
}

/// How many workers are live, that is, not terminated: these are the
/// workers that can still receive queue items.
pub open spec fn live_count(ws: Seq<WorkerState>) -> nat {
    count_matching(ws, |s: WorkerState| !(s is Terminated))
}

/// How many workers are running a task right now.
pub open spec fn running_count(ws: Seq<WorkerState>) -> nat {
    count_matching(ws, |s: WorkerState| s is Running)
}

/// The task a running worker is executing.
pub open spec fn running_task(s: WorkerState) -> Task
    recommends
        s is Running,
{
    match s {
        WorkerState::Running(t) => t,
        _ => (Task { id: 0, faults: false }),
    }
}

/// The number of live workers left after a task finishes: a faulting task
/// terminates its worker, a normal one hands the worker back.
pub open spec fn next_live(live: nat, t: Task) -> nat {
    if t.faults {
        (live - 1) as nat
    } else {
        live
    }
}

/// The tasks that get executed, in order, when `live` live workers drain a
/// queue holding `tasks`: queue items are handed out first-in-first-out,
/// each to exactly one worker; a faulting task costs a worker; once no live
/// worker is left, nothing further runs.
pub open spec fn drained_tasks(tasks: Seq<Task>, live: nat) -> Seq<Task>
    decreases tasks.len(),
{
    if tasks.len() == 0 || live == 0 {
        Seq::empty()
    } else {
        seq![tasks.first()] + drained_tasks(tasks.drop_first(), next_live(live, tasks.first()))
    }
}

/// The tasks left undelivered on the queue after `live` live workers have
/// drained what they could: empty unless the workers ran out first.
pub open spec fn leftover_tasks(tasks: Seq<Task>, live: nat) -> Seq<Task>
    decreases tasks.len(),
{
    if tasks.len() == 0 {
        Seq::empty()
    } else if live == 0 {
        tasks
    } else {
        leftover_tasks(tasks.drop_first(), next_live(live, tasks.first()))
    }
}

/// Worker states after every running task has been allowed to finish:
/// running workers settle to `Idle`, or to `Terminated` if their task
/// faults; idle and terminated workers are unchanged.
pub open spec fn settle_one(s: WorkerState) -> WorkerState {
    match s {
        WorkerState::Running(t) => if t.faults {
            WorkerState::Terminated
        } else {
            WorkerState::Idle
        },
        _ => s,
    }
}

/// All worker states after every running task has finished.
pub open spec fn settle_states(ws: Seq<WorkerState>) -> Seq<WorkerState> {
    ws.map_values(|s: WorkerState| settle_one(s))
}

/// The tasks that finish, in worker order, when every running task is
/// allowed to run to completion.
pub open spec fn finish_log(ws: Seq<WorkerState>) -> Seq<Task>
    decreases ws.len(),
{
    if ws.len() == 0 {
        Seq::empty()
    } else {
        finish_log(ws.drop_last()) + (if ws.last() is Running {
            seq![running_task(ws.last())]
        } else {
            Seq::empty()
        })
    }
}

/// No more workers can match a predicate than there are workers.
pub proof fn lemma_count_le_len(ws: Seq<WorkerState>, pred: spec_fn(WorkerState) -> bool)
    ensures
        count_matching(ws, pred) <= ws.len(),
    decreases ws.len(),
{
    if ws.len() > 0 {
        lemma_count_le_len(ws.drop_last(), pred);
    }
}

/// How replacing one worker's state changes a count.
pub proof fn lemma_count_update(
    ws: Seq<WorkerState>,
    pred: spec_fn(WorkerState) -> bool,
    i: int,
    s: WorkerState,
)
    requires
        0 <= i < ws.len(),
    ensures
        count_matching(ws.update(i, s), pred) == count_matching(ws, pred) - (if pred(ws[i]) {
            1int
        } else {
            0int
        }) + (if pred(s) {
            1int
        } else {
            0int
        }),
    decreases ws.len(),
{
    let n = ws.len() - 1;
    if i == n {
        assert(ws.update(i, s).drop_last() =~= ws.drop_last());
        assert(ws.update(i, s).last() == s);
    } else {
        assert(ws.update(i, s).drop_last() =~= ws.drop_last().update(i, s));
        lemma_count_update(ws.drop_last(), pred, i, s);
        assert(ws.update(i, s).last() == ws.last());
    }
}

/// A count is zero exactly when no worker matches.
pub proof fn lemma_count_zero(ws: Seq<WorkerState>, pred: spec_fn(WorkerState) -> bool)
    ensures
        (count_matching(ws, pred) == 0) <==> (forall|i: int|
            0 <= i < ws.len() ==> !pred(ws[i])),
    decreases ws.len(),
{
    if ws.len() > 0 {
        lemma_count_zero(ws.drop_last(), pred);
        assert(forall|i: int|
            0 <= i < ws.len() - 1 ==> ws.drop_last()[i] == ws[i]);
    }
}

/// A count is full exactly when every worker matches.
pub proof fn lemma_count_full(ws: Seq<WorkerState>, pred: spec_fn(WorkerState) -> bool)
    requires
        forall|i: int| 0 <= i < ws.len() ==> pred(ws[i]),
    ensures
        count_matching(ws, pred) == ws.len(),
    decreases ws.len(),
{
    if ws.len() > 0 {
        assert(forall|i: int|
            0 <= i < ws.len() - 1 ==> ws.drop_last()[i] == ws[i]);
        lemma_count_full(ws.drop_last(), pred);
    }
}

/// Law: every task enqueued before shutdown begins is executed exactly
/// once, in queue order, and none is left behind — provided at least one
/// worker is live and no queued task faults. Together with `shutdown`'s
/// contract this says the execution log grows by exactly the queued tasks.
pub proof fn lemma_drain_executes_all(tasks: Seq<Task>, live: nat)
    requires
        live >= 1,
        forall|i: int| 0 <= i < tasks.len() ==> !(#[trigger] tasks[i]).faults,
    ensures
        drained_tasks(tasks, live) == tasks,
        leftover_tasks(tasks, live) == Seq::<Task>::empty(),
    decreases tasks.len(),
{
    if tasks.len() > 0 {
        assert(forall|i: int|
            0 <= i < tasks.drop_first().len() ==> tasks.drop_first()[i] == tasks[i + 1]);
        lemma_drain_executes_all(tasks.drop_first(), next_live(live, tasks.first()));
        assert(drained_tasks(tasks, live) =~= tasks);
    } else {
        assert(drained_tasks(tasks, live) =~= tasks);
        assert(leftover_tasks(tasks, live) =~= Seq::<Task>::empty());
    }
}

/// Law: per-producer first-in-first-out order is preserved. Restrict the
/// queue to any one producer's tasks — any predicate `mine` picking them
/// out of the interleaving — and the execution order of those tasks equals
/// the order that producer submitted them in, however the other producers'
/// tasks are interleaved with them.
pub proof fn lemma_per_producer_fifo(tasks: Seq<Task>, live: nat, mine: spec_fn(Task) -> bool)
    requires
        live >= 1,
        forall|i: int| 0 <= i < tasks.len() ==> !(#[trigger] tasks[i]).faults,
    ensures
        drained_tasks(tasks, live).filter(mine) == tasks.filter(mine),
{
    lemma_drain_executes_all(tasks, live);
}

/// Law: draining partitions the queue, faults included. Whatever workers
/// are lost along the way, every queued task either executes — exactly
/// once, and in queue order, since what runs is literally a prefix of the
/// queue — or stays behind on the leftover queue; no task is lost and none
/// is duplicated.
pub proof fn lemma_drain_partitions(tasks: Seq<Task>, live: nat)
    ensures
        drained_tasks(tasks, live) + leftover_tasks(tasks, live) == tasks,
    decreases tasks.len(),
{
    if tasks.len() == 0 {
        assert(drained_tasks(tasks, live) + leftover_tasks(tasks, live) =~= tasks);
    } else if live == 0 {
        assert(drained_tasks(tasks, live) + leftover_tasks(tasks, live) =~= tasks);
    } else {
        lemma_drain_partitions(tasks.drop_first(), next_live(live, tasks.first()));
        assert(drained_tasks(tasks, live) + leftover_tasks(tasks, live) =~= seq![tasks.first()]
            + (drained_tasks(tasks.drop_first(), next_live(live, tasks.first()))
            + leftover_tasks(tasks.drop_first(), next_live(live, tasks.first()))));
        assert(seq![tasks.first()] + tasks.drop_first() =~= tasks);
    }
}

/// Law: at most as many tasks are ever executing concurrently as the pool
/// has workers — each worker runs at most one task at a time, and the
/// worker count is fixed at construction.
pub proof fn lemma_running_bounded(pool: ThreadPool)
    requires
        pool.wf(),
    ensures
        running_count(pool.workers@) <= pool.workers@.len(),
{
    lemma_count_le_len(pool.workers@, |s: WorkerState| s is Running);
}

/// Law: shutting down a pool whose workers are all idle — in particular a
/// freshly constructed pool — runs nothing beyond the queue itself: no
/// task was mid-run, every worker is live, and with an empty queue the
/// execution log does not grow at all, while exactly one join per worker
/// succeeds by `shutdown`'s contract.
pub proof fn lemma_idle_pool_shutdown(ws: Seq<WorkerState>)
    requires
        forall|i: int| 0 <= i < ws.len() ==> (#[trigger] ws[i]) is Idle,
    ensures
        settle_states(ws) == ws,
        finish_log(ws) == Seq::<Task>::empty(),
        live_count(ws) == ws.len(),
        drained_tasks(Seq::<Task>::empty(), live_count(ws)) == Seq::<Task>::empty(),
    decreases ws.len(),
{
    assert(settle_states(ws) =~= ws);
    lemma_count_full(ws, |s: WorkerState| !(s is Terminated));
    if ws.len() > 0 {
        assert(forall|i: int|
            0 <= i < ws.drop_last().len() ==> ws.drop_last()[i] == ws[i]);
        lemma_idle_pool_shutdown(ws.drop_last());
        assert(finish_log(ws) =~= Seq::<Task>::empty());
    }
    assert(drained_tasks(Seq::<Task>::empty(), live_count(ws)) =~= Seq::<Task>::empty());
}

/// Law: once no live worker is left — the pool's sole worker was lost to a
/// faulting task, say — nothing queued ever runs: draining executes no
/// task and leaves the whole queue behind. This is the documented default
/// policy for task faults: a fault permanently costs the pool a worker.
pub proof fn lemma_no_live_worker_stalls(tasks: Seq<Task>)
    ensures
        drained_tasks(tasks, 0) == Seq::<Task>::empty(),
        leftover_tasks(tasks, 0) == tasks,
{
    assert(drained_tasks(tasks, 0) =~= Seq::<Task>::empty());
}

/// A pool of workers draining one shared task queue.
///
/// `workers` holds the state of each worker, identified by its index;
/// `queue` the tasks enqueued and not yet handed to a worker, oldest first;
/// `executed` every task that has run, in the order the runs completed;
/// `accepting` whether the pool still accepts submissions (false once
/// shutdown has completed); and `joined` how many worker handles have been
/// joined (zero before shutdown, one per worker after).
pub struct ThreadPool {
    pub workers: Vec<WorkerState>,
    pub queue: Vec<Task>,
    pub executed: Vec<Task>,
    pub accepting: bool,
    pub joined: usize,
}

impl ThreadPool {
    /// Well-formedness: the pool was built with at least one worker, and
    /// the join count tracks the lifecycle — no handle is joined while the
    /// pool accepts work, and once it stops accepting, every worker has
    /// terminated and every handle has been joined.
    pub open spec fn wf(self) -> bool {
        &&& self.workers@.len() >= 1
        &&& (self.accepting ==> self.joined == 0)
        &&& (!self.accepting ==> {
            &&& self.joined == self.workers@.len()
            &&& forall|i: int|
                0 <= i < self.workers@.len() ==> self.workers@[i] is Terminated
        })
    }

    /// The constructor: a pool of `number_of_threads` workers, all idle,
    /// sharing one empty queue, accepting work.
    pub fn make(number_of_threads: usize) -> (pool: ThreadPool)
        requires
            1 <= number_of_threads,
        ensures
            pool.wf(),
            pool.accepting,
            pool.workers@.len() == number_of_threads,
            forall|i: int| 0 <= i < number_of_threads ==> pool.workers@[i] is Idle,
            pool.queue@ == Seq::<Task>::empty(),
            pool.executed@ == Seq::<Task>::empty(),
            pool.joined == 0,
    {
        let mut workers: Vec<WorkerState> = Vec::new();
        let mut i: usize = 0;
        while i < number_of_threads
            invariant
                i <= number_of_threads,
                workers@.len() == i,
                forall|j: int| 0 <= j < i ==> workers@[j] is Idle,
            decreases number_of_threads - i,
        {
            workers.push(WorkerState::Idle);
            i += 1;
        }
        let pool = ThreadPool {
            workers,
            queue: Vec::new(),
            executed: Vec::new(),
            accepting: true,
            joined: 0,
        };
        proof {
            assert(pool.queue@ =~= Seq::<Task>::empty());
            assert(pool.executed@ =~= Seq::<Task>::empty());
        }
        pool
    }

    /// Submits one task. While the pool is accepting, the task is appended
    /// to the shared queue (first-in-first-out; concurrent submitters each
    /// keep their own order). After shutdown the submission is silently
    /// dropped — it never runs and the call never blocks — matching the
    /// send-to-closed-queue failure being swallowed at the pool boundary.
    pub fn execute(&mut self, work_item: Task)
        requires
            old(self).wf(),
        ensures
            final(self).wf(),
            old(self).accepting ==> final(self).queue@ == old(self).queue@.push(work_item),
            !old(self).accepting ==> final(self).queue@ == old(self).queue@,
            final(self).workers@ == old(self).workers@,
            final(self).executed@ == old(self).executed@,
            final(self).accepting == old(self).accepting,
            final(self).joined == old(self).joined,
    {
        if self.accepting {
            self.queue.push(work_item);
        }
    }

    /// Delivers the oldest queued task to the idle worker `w`, which starts
    /// running it. Delivery is exactly-once: the task leaves the queue and
    /// lands on this worker alone.
    pub fn begin_task(&mut self, w: usize) -> (t: Task)
        requires
            old(self).wf(),
            w < old(self).workers@.len(),
            old(self).workers@[w as int] is Idle,
            old(self).queue@.len() > 0,
        ensures
            final(self).wf(),
            t == old(self).queue@.first(),
            final(self).queue@ == old(self).queue@.drop_first(),
            final(self).workers@ == old(self).workers@.update(
                w as int,
                WorkerState::Running(t),
            ),
            final(self).executed@ == old(self).executed@,
            final(self).accepting == old(self).accepting,
            final(self).joined == old(self).joined,
    {
        let t = self.queue.remove(0);
        let state = self.workers[w];
        let (next, _action) = worker_step(
            state,
            WorkerEvent::Delivered(WorkerMessage::NewJob(t)),
        );
        self.workers.set(w, next);
        proof {
            assert(self.queue@ =~= old(self).queue@.drop_first());
        }
        t
    }

    /// Records that the task worker `w` was running has finished: the task
    /// joins the execution log, and the worker settles back to `Idle`, or
    /// to `Terminated` if the task raised a fault.
    pub fn finish_task(&mut self, w: usize)
        requires
            old(self).wf(),
            w < old(self).workers@.len(),
            old(self).workers@[w as int] is Running,
        ensures
            final(self).wf(),
            final(self).executed@ == old(self).executed@.push(
                running_task(old(self).workers@[w as int]),
            ),
            final(self).workers@ == old(self).workers@.update(
                w as int,
                settle_one(old(self).workers@[w as int]),
            ),
            final(self).queue@ == old(self).queue@,
            final(self).accepting == old(self).accepting,
            final(self).joined == old(self).joined,
    {
        let state = self.workers[w];
        match state {
            WorkerState::Running(t) => {
                self.executed.push(t);
                let next = worker_finish(t);
                self.workers.set(w, next);
            },
            _ => {
                proof {
                    assert(false);
                }
            },
        }
    }

    /// The lowest-numbered idle worker, if any worker is idle.
    fn find_idle(&self) -> (r: Option<usize>)
        ensures
            (r matches Some(w) ==> w < self.workers@.len() && self.workers@[w as int] is Idle),
            r is None ==> forall|i: int|
                0 <= i < self.workers@.len() ==> !(self.workers@[i] is Idle),
    {
        let n: usize = self.workers.len();
        let mut w: usize = 0;
        while w < n
            invariant
                w <= n,
                n == self.workers@.len(),
                forall|i: int| 0 <= i < w ==> !(self.workers@[i] is Idle),
            decreases n - w,
        {
            let state = self.workers[w];
            match state {
                WorkerState::Idle => {
                    return Some(w);
                },
                _ => {},
            }
            w += 1;
        }
        None
    }

    /// Shuts the pool down: lets every running task finish, lets the live
    /// workers drain the queue (first-in-first-out, each task delivered to
    /// exactly one worker), then broadcasts one stop signal per worker and
    /// joins every worker handle. On return the pool is fully quiescent:
    /// every worker has terminated, exactly one join per worker succeeded,
    /// and no further submission is accepted. Every loop carries a
    /// `decreases` measure, so the whole protocol provably terminates.
    ///
    /// The execution log grows by exactly the tasks that were running,
    /// then the drained prefix of the queue; what the workers could not
    /// drain (only possible when faulting tasks terminated every worker)
    /// stays behind as the leftover queue.
    pub fn shutdown(&mut self)
        requires
            old(self).wf(),
            old(self).accepting,
        ensures
            final(self).wf(),
            !final(self).accepting,
            final(self).workers@.len() == old(self).workers@.len(),
            final(self).joined == old(self).workers@.len(),
            final(self).executed@ == old(self).executed@ + finish_log(old(self).workers@)
                + drained_tasks(
                old(self).queue@,
                live_count(settle_states(old(self).workers@)),
            ),
            final(self).queue@ == leftover_tasks(
                old(self).queue@,
                live_count(settle_states(old(self).workers@)),
            ),
    {
        let n: usize = self.workers.len();
        let ghost ow = old(self).workers@;

        // First, every task already running is allowed to run to
        // completion, settling its worker.
        let mut w: usize = 0;
        while w < n
            invariant
                self.wf(),
                self.accepting,
                w <= n,
                n == ow.len(),
                self.workers@.len() == n,
                self.workers@ == settle_states(ow.take(w as int)) + ow.skip(w as int),
                self.executed@ == old(self).executed@ + finish_log(ow.take(w as int)),
                self.queue@ == old(self).queue@,
                self.joined == 0,
            decreases n - w,
        {
            proof {
                assert(self.workers@[w as int] == ow[w as int]);
            }
            let state = self.workers[w];
            match state {
                WorkerState::Running(_) => {
                    self.finish_task(w);
                },
                _ => {},
            }
            proof {
                let i = w as int;
                assert(ow.take(i + 1).drop_last() =~= ow.take(i));
                assert(ow.take(i + 1).last() == ow[i]);
                if ow[i] is Running {
                    assert(self.workers@ =~= settle_states(ow.take(i + 1)) + ow.skip(i + 1));
                    assert(self.executed@ =~= old(self).executed@ + finish_log(ow.take(i + 1)));
                } else {
                    assert(settle_one(ow[i]) == ow[i]);
                    assert(self.workers@ =~= settle_states(ow.take(i + 1)) + ow.skip(i + 1));
                    assert(finish_log(ow.take(i + 1)) =~= finish_log(ow.take(i)));
                    assert(self.executed@ =~= old(self).executed@ + finish_log(ow.take(i + 1)));
                }
            }
            w += 1;
        }
        proof {
            assert(ow.take(n as int) =~= ow);
            assert(self.workers@ =~= settle_states(ow));
            assert(self.executed@ =~= old(self).executed@ + finish_log(ow));
            assert(forall|i: int|
                0 <= i < self.workers@.len() ==> !(#[trigger] self.workers@[i] is Running));
        }

        // Next, the live workers drain the queue: the oldest task goes to
        // an idle worker and runs to completion, until the queue is empty
        // or no live worker is left.
        let ghost q1 = old(self).queue@;
        let ghost l1 = live_count(settle_states(ow));
        let ghost exec1 = old(self).executed@ + finish_log(ow);
        let mut draining: bool = true;
        while draining
            invariant
                self.wf(),
                self.accepting,
                self.joined == 0,
                self.workers@.len() == n,
                forall|i: int|
                    0 <= i < self.workers@.len() ==> !(#[trigger] self.workers@[i] is Running),
                exec1 + drained_tasks(q1, l1) == self.executed@ + drained_tasks(
                    self.queue@,
                    live_count(self.workers@),
                ),
                leftover_tasks(q1, l1) == leftover_tasks(
                    self.queue@,
                    live_count(self.workers@),
                ),
                !draining ==> (self.queue@.len() == 0 || live_count(self.workers@) == 0),
            decreases self.queue@.len() + (if draining {
                1int
            } else {
                0int
            }),
        {
            if self.queue.len() == 0 {
                draining = false;
            } else {
                match self.find_idle() {
                    Some(widx) => {
                        let ghost q = self.queue@;
                        let ghost ws = self.workers@;
                        let ghost l = live_count(ws);
                        let ghost e0 = self.executed@;
                        proof {
                            lemma_count_zero(ws, |s: WorkerState| !(s is Terminated));
                            assert(l > 0);
                        }
                        let t = self.begin_task(widx);
                        proof {
                            lemma_count_update(
                                ws,
                                |s: WorkerState| !(s is Terminated),
                                widx as int,
                                WorkerState::Running(t),
                            );
                            assert(live_count(self.workers@) == l);
                        }
                        let ghost ws2 = self.workers@;
                        self.finish_task(widx);
                        proof {
                            let lp = next_live(l, t);
                            lemma_count_update(
                                ws2,
                                |s: WorkerState| !(s is Terminated),
                                widx as int,
                                settle_one(WorkerState::Running(t)),
                            );
                            assert(live_count(self.workers@) == lp);
                            assert(drained_tasks(q, l) == seq![t] + drained_tasks(
                                q.drop_first(),
                                lp,
                            ));
                            assert(e0.push(t) + drained_tasks(q.drop_first(), lp) =~= e0 + (
                            seq![t] + drained_tasks(q.drop_first(), lp)));
                            assert(leftover_tasks(q, l) == leftover_tasks(q.drop_first(), lp));
                        }
                    },
                    None => {
                        proof {
                            lemma_count_zero(self.workers@, |s: WorkerState| !(s is Terminated));
                            assert(forall|i: int|
                                0 <= i < self.workers@.len()
                                    ==> (#[trigger] self.workers@[i]) is Terminated);
                            assert(live_count(self.workers@) == 0);
                        }
                        draining = false;
                    },
                }
            }
        }
        proof {
            assert(drained_tasks(self.queue@, live_count(self.workers@)) =~= Seq::<Task>::empty());
            assert(self.executed@ + Seq::<Task>::empty() =~= self.executed@);
            assert(self.executed@ =~= exec1 + drained_tasks(q1, l1));
            assert(leftover_tasks(self.queue@, live_count(self.workers@)) =~= self.queue@);
            assert(self.queue@ =~= leftover_tasks(q1, l1));
        }

        // Last, one stop signal per worker handle: each idle worker takes
        // one from the queue and terminates; then every handle is joined,
        // in the order the handles are held.
        let ghost exec2 = self.executed@;
        let ghost q2 = self.queue@;
        let mut w2: usize = 0;
        while w2 < n
            invariant
                self.wf(),
                self.accepting,
                self.joined == 0,
                w2 <= n,
                self.workers@.len() == n,
                forall|i: int| 0 <= i < w2 ==> (#[trigger] self.workers@[i]) is Terminated,
                forall|i: int|
                    w2 <= i < n ==> !((#[trigger] self.workers@[i]) is Running),
                self.executed@ == exec2,
                self.queue@ == q2,
            decreases n - w2,
        {
            let state = self.workers[w2];
            match state {
                WorkerState::Idle => {
                    let (next, _action) = worker_step(
                        state,
                        WorkerEvent::Delivered(WorkerMessage::Stop),
                    );
                    self.workers.set(w2, next);
                },
                _ => {},
            }
            w2 += 1;
        }
        self.accepting = false;
        self.joined = n;
    }
}

} // verus!
