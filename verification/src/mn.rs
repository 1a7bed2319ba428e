//! M:N green thread runtime: several OS threads each run a worker loop that
//! takes tasks from one shared FIFO queue (held under a lock by the caller).
//!
//! A worker that finds the shared queue empty marks the runtime as shut
//! down and stops; a task that yields goes back to the end of the shared
//! queue, where any worker may pick it up.
use vstd::multiset::Multiset;
use vstd::prelude::*;
use crate::task::Task;

verus! {

/// The task queue shared by all workers.
pub struct GlobalQueue<C> {
    /// Queue of runnable tasks
    tasks: std::collections::VecDeque<Task<C>>,
    /// Flag to signal shutdown
    shutdown: bool,
}

/// What the shared queue holds: its tasks, front first, and whether a
/// worker has signalled shutdown.
pub struct GlobalQueueView<C> {
    pub tasks: Seq<Task<C>>,
    pub shutdown: bool,
}

impl<C> View for GlobalQueue<C> {
    type V = GlobalQueueView<C>;

    closed spec fn view(&self) -> GlobalQueueView<C> {
        GlobalQueueView { tasks: self.tasks@, shutdown: self.shutdown }
    }
}

/// Per-thread worker state.
pub struct Worker<C> {
    /// Context to return to when a task yields
    context: C,
    /// Currently running task
    current_task: Option<Task<C>>,
}

impl<C> View for Worker<C> {
    type V = Option<Task<C>>;

    /// The task the worker is running, if any.
    closed spec fn view(&self) -> Option<Task<C>> {
        self.current_task
    }
}

impl<C> Worker<C> {
    /// The saved context of the worker loop itself.
    pub closed spec fn scheduler_context(&self) -> C {
        self.context
    }
}

impl<C> GlobalQueue<C> {
    /// An empty queue, not shut down.
    pub fn new() -> (q: Self)
        ensures
            q@.tasks == Seq::<Task<C>>::empty(),
            !q@.shutdown,
    {
        GlobalQueue { tasks: std::collections::VecDeque::new(), shutdown: false }
    }

    /// Whether a worker has found the queue empty and signalled shutdown.
    pub fn is_shutdown(&self) -> (r: bool)
        ensures
            r == self@.shutdown,
    {
        self.shutdown
    }

    /// The number of queued tasks.
    pub fn len(&self) -> (n: usize)
        ensures
            n == self@.tasks.len(),
    {
        self.tasks.len()
    }
}

impl<C> Worker<C> {
    /// A worker that runs nothing yet; `context` is where the worker loop's
    /// own registers are saved while a task runs.
    pub fn new(context: C) -> (w: Self)
        ensures
            w@ is None,
            w.scheduler_context() == context,
    {
        Worker { context, current_task: None }
    }

    /// Whether a task is running on this worker.
    pub fn has_current_task(&self) -> (r: bool)
        ensures
            r == self@ is Some,
    {
        self.current_task.is_some()
    }

    /// One pass of the worker loop's head, with the shared queue locked:
    /// the front task becomes this worker's current task. When the queue is
    /// empty, the runtime is marked shut down and `false` tells the loop to
    /// stop.
    pub fn schedule(&mut self, queue: &mut GlobalQueue<C>) -> (ran: bool)
        ensures
            ran == (old(queue)@.tasks.len() > 0),
            ran ==> {
                &&& final(self)@ == Some(old(queue)@.tasks[0])
                &&& final(queue)@.tasks == old(queue)@.tasks.drop_first()
                &&& final(queue)@.shutdown == old(queue)@.shutdown
            },
            !ran ==> {
                &&& final(self)@ == old(self)@
                &&& final(queue)@.tasks == old(queue)@.tasks
                &&& final(queue)@.shutdown
            },
            final(self).scheduler_context() == old(self).scheduler_context(),
    {
        match queue.tasks.pop_front() {
            Some(task) => {
                self.current_task = Some(task);
                true
            },
            None => {
                if !queue.shutdown {
                    queue.shutdown = true;
                }
                false
            },
        }
    }

    /// Back in the worker loop after a switch: the current task is taken
    /// out. It is returned if it only yielded, to go back to the shared
    /// queue; a finished task is dropped.
    pub fn reclaim(&mut self) -> (requeue: Option<Task<C>>)
        ensures
            final(self)@ is None,
            final(self).scheduler_context() == old(self).scheduler_context(),
            requeue == (match old(self)@ {
                Some(t) => if t.finished { None } else { Some(t) },
                None => None,
            }),
    {
        match self.current_task.take() {
            Some(task) => if task.finished {
                None
            } else {
                Some(task)
            },
            None => None,
        }
    }

    /// The two contexts of a switch from the worker loop into the current
    /// task: the worker loop's registers are saved into the first, the
    /// task's are restored from the second.
    pub fn switch_to_task(&mut self) -> (ctxs: (&mut C, &C))
        requires
            old(self)@ is Some,
        ensures
            *ctxs.0 == old(self).scheduler_context(),
            *ctxs.1 == old(self)@.unwrap().context,
            final(self)@ == old(self)@,
            final(self).scheduler_context() == *final(ctxs.0),
    {
        match &self.current_task {
            Some(task) => (&mut self.context, &task.context),
            None => vstd::pervasive::unreached(),
        }
    }
}

/// Yield execution to another green thread: the two contexts of the switch
/// from the current task back to its worker loop. The task's registers are
/// saved into the first, the worker loop's are restored from the second.
pub fn gosched<C>(worker: &mut Worker<C>) -> (ctxs: (&mut C, &C))
    requires
        old(worker)@ is Some,
    ensures
        *ctxs.0 == old(worker)@.unwrap().context,
        *ctxs.1 == old(worker).scheduler_context(),
        final(worker)@ == Some(Task { context: *final(ctxs.0), ..old(worker)@.unwrap() }),
        final(worker).scheduler_context() == old(worker).scheduler_context(),
{
    match &mut worker.current_task {
        Some(task) => (&mut task.context, &worker.context),
        None => vstd::pervasive::unreached(),
    }
}

/// Called when the current task's function has returned: marks it
/// finished, so that it is dropped instead of requeued.
pub fn task_finished<C>(worker: &mut Worker<C>)
    requires
        old(worker)@ is Some,
    ensures
        final(worker)@ == Some(Task { finished: true, ..old(worker)@.unwrap() }),
        final(worker).scheduler_context() == old(worker).scheduler_context(),
{
    match &mut worker.current_task {
        Some(task) => {
            task.finished = true;
        },
        None => {},
    }
}

/// The task a worker runs, as a multiset (empty when it runs none).
pub open spec fn running<C>(w: Option<Task<C>>) -> Multiset<Task<C>> {
    match w {
        Some(t) => Multiset::singleton(t),
        None => Multiset::empty(),
    }
}

/// The tasks a sequence of workers run between them.
pub open spec fn held_tasks<C>(ws: Seq<Option<Task<C>>>) -> Multiset<Task<C>>
    decreases ws.len(),
{
    if ws.len() == 0 {
        Multiset::empty()
    } else {
        held_tasks(ws.drop_last()).add(running(ws.last()))
    }
}

/// Every task of an M:N runtime: those in the shared queue and those the
/// workers run.
pub open spec fn runtime_tasks<C>(q: GlobalQueueView<C>, ws: Seq<Option<Task<C>>>) -> Multiset<Task<C>> {
    q.tasks.to_multiset().add(held_tasks(ws))
}

proof fn lemma_held_tasks_update<C>(ws: Seq<Option<Task<C>>>, i: int, w: Option<Task<C>>)
    requires
        0 <= i < ws.len(),
    ensures
        held_tasks(ws.update(i, w)).add(running(ws[i])) == held_tasks(ws).add(running(w)),
    decreases ws.len(),
{
    broadcast use vstd::multiset::group_multiset_axioms;
    let us = ws.update(i, w);
    assert(held_tasks(us) == held_tasks(us.drop_last()).add(running(us.last())));
    assert(held_tasks(ws) == held_tasks(ws.drop_last()).add(running(ws.last())));
    if i == ws.len() - 1 {
        assert(us.drop_last() =~= ws.drop_last());
        assert(us.last() == w);
    } else {
        lemma_held_tasks_update(ws.drop_last(), i, w);
        assert(us.drop_last() =~= ws.drop_last().update(i, w));
        assert(us.last() == ws.last());
        assert(ws.drop_last()[i] == ws[i]);
        let a = held_tasks(us.drop_last());
        let b = held_tasks(ws.drop_last());
        assert forall|x: Task<C>| #[trigger] held_tasks(us).add(running(ws[i])).count(x)
            == held_tasks(ws).add(running(w)).count(x) by {
            assert(a.add(running(ws[i])).count(x) == b.add(running(w)).count(x));
        }
    }
    assert(held_tasks(us).add(running(ws[i])) =~= held_tasks(ws).add(running(w)));
}

/// When worker `i`, running nothing, takes the front task of the shared
/// queue ([`Worker::schedule`]), that task leaves the queue and is run by
/// that worker alone: the tasks of the runtime, counted with multiplicity,
/// are those of before.
pub proof fn lemma_schedule_moves_task<C>(
    q0: GlobalQueueView<C>,
    workers: Seq<Option<Task<C>>>,
    i: int,
    q1: GlobalQueueView<C>,
)
    requires
        0 <= i < workers.len(),
        workers[i] is None,
        q0.tasks.len() > 0,
        q1.tasks == q0.tasks.drop_first(),
    ensures
        runtime_tasks(q1, workers.update(i, Some(q0.tasks[0]))) == runtime_tasks(q0, workers),
{
    broadcast use vstd::seq_lib::group_to_multiset_ensures;
    broadcast use vstd::multiset::group_multiset_axioms;
    let t0 = q0.tasks[0];
    let us = workers.update(i, Some(t0));
    lemma_held_tasks_update(workers, i, Some(t0));
    assert(running(workers[i]) =~= Multiset::<Task<C>>::empty());
    assert(held_tasks(us) =~= held_tasks(workers).insert(t0));
    assert(q0.tasks.remove(0) =~= q0.tasks.drop_first());
    assert(q0.tasks.contains(t0));
    assert(q0.tasks.to_multiset() =~= q1.tasks.to_multiset().insert(t0));
    assert(runtime_tasks(q1, us) =~= runtime_tasks(q0, workers));
}

/// When worker `i` gets control back from task `t` ([`Worker::reclaim`])
/// and a yielded task is put back in the shared queue ([`go`]), no task is
/// lost or duplicated; only a finished task leaves the runtime.
pub proof fn lemma_reclaim_keeps_task<C>(
    q0: GlobalQueueView<C>,
    workers: Seq<Option<Task<C>>>,
    i: int,
    t: Task<C>,
    q1: GlobalQueueView<C>,
)
    requires
        0 <= i < workers.len(),
        workers[i] == Some(t),
        !t.finished ==> q1.tasks == q0.tasks.push(t),
        t.finished ==> q1.tasks == q0.tasks,
    ensures
        !t.finished ==> runtime_tasks(q1, workers.update(i, None)) == runtime_tasks(q0, workers),
        t.finished ==> runtime_tasks(q1, workers.update(i, None)) == runtime_tasks(q0, workers).remove(t),
{
    broadcast use vstd::seq_lib::group_to_multiset_ensures;
    broadcast use vstd::multiset::group_multiset_axioms;
    let us = workers.update(i, None);
    lemma_held_tasks_update(workers, i, None);
    assert(running(None::<Task<C>>) =~= Multiset::<Task<C>>::empty());
    assert(held_tasks(workers) =~= held_tasks(us).insert(t));
    if t.finished {
        assert(runtime_tasks(q1, workers.update(i, None)) =~= runtime_tasks(q0, workers).remove(t));
    } else {
        assert(runtime_tasks(q1, workers.update(i, None)) =~= runtime_tasks(q0, workers));
    }
}

/// One step of one worker of an M:N runtime, as the worker loop and the
/// running task take them.
pub enum MnStep<C> {
    /// The worker, running nothing, takes the front task ([`Worker::schedule`]).
    Schedule(int),
    /// The worker, running nothing, finds the queue empty and stops
    /// ([`Worker::schedule`] returning `false`).
    Stop(int),
    /// The task the worker runs saves its registers ([`gosched`]).
    Save(int, C),
    /// The task the worker runs reports that it finished ([`task_finished`]).
    Finish(int),
    /// The task the worker runs spawns a task ([`go`]).
    Spawn(int, Task<C>),
    /// The worker gets control back and requeues the task if it only
    /// yielded ([`Worker::reclaim`], then [`go`]).
    Reclaim(int),
}

/// An M:N runtime in the middle of a run: the shared queue, what each
/// worker runs, which workers have stopped, and how many tasks have
/// finished and have been spawned so far.
pub struct MnRun<C> {
    pub queue: GlobalQueueView<C>,
    pub workers: Seq<Option<Task<C>>>,
    pub stopped: Seq<bool>,
    pub finished: nat,
    pub spawned: nat,
}

/// Whether a step can be taken: its worker exists and has not stopped, and
/// the step's condition holds (as the contracts of the functions it stands
/// for require or state).
pub open spec fn mn_enabled<C>(r: MnRun<C>, step: MnStep<C>) -> bool {
    match step {
        MnStep::Schedule(i) => 0 <= i < r.workers.len() && !r.stopped[i] && r.workers[i] is None
            && r.queue.tasks.len() > 0,
        MnStep::Stop(i) => 0 <= i < r.workers.len() && !r.stopped[i] && r.workers[i] is None
            && r.queue.tasks.len() == 0,
        MnStep::Save(i, _) => 0 <= i < r.workers.len() && !r.stopped[i] && r.workers[i] is Some,
        MnStep::Finish(i) => 0 <= i < r.workers.len() && !r.stopped[i] && r.workers[i] is Some,
        MnStep::Spawn(i, t) => 0 <= i < r.workers.len() && !r.stopped[i] && r.workers[i] is Some
            && !t.finished,
        MnStep::Reclaim(i) => 0 <= i < r.workers.len() && !r.stopped[i] && r.workers[i] is Some,
    }
}

/// The runtime after a step, as the contracts of the functions it stands
/// for state.
pub open spec fn mn_apply<C>(r: MnRun<C>, step: MnStep<C>) -> MnRun<C> {
    match step {
        MnStep::Schedule(i) => MnRun {
            queue: GlobalQueueView { tasks: r.queue.tasks.drop_first(), shutdown: r.queue.shutdown },
            workers: r.workers.update(i, Some(r.queue.tasks[0])),
            ..r
        },
        MnStep::Stop(i) => MnRun {
            queue: GlobalQueueView { tasks: r.queue.tasks, shutdown: true },
            stopped: r.stopped.update(i, true),
            ..r
        },
        MnStep::Save(i, ctx) => MnRun {
            workers: r.workers.update(i, Some(Task { context: ctx, ..r.workers[i].unwrap() })),
            ..r
        },
        MnStep::Finish(i) => MnRun {
            workers: r.workers.update(i, Some(Task { finished: true, ..r.workers[i].unwrap() })),
            ..r
        },
        MnStep::Spawn(_, t) => MnRun {
            queue: GlobalQueueView { tasks: r.queue.tasks.push(t), shutdown: r.queue.shutdown },
            spawned: r.spawned + 1,
            ..r
        },
        MnStep::Reclaim(i) => {
            let t = r.workers[i].unwrap();
            if t.finished {
                MnRun { workers: r.workers.update(i, None), finished: r.finished + 1, ..r }
            } else {
                MnRun {
                    queue: GlobalQueueView { tasks: r.queue.tasks.push(t), shutdown: r.queue.shutdown },
                    workers: r.workers.update(i, None),
                    ..r
                }
            }
        },
    }
}

/// A run's states well formed: as many stop flags as workers, and a stopped
/// worker runs nothing.
pub open spec fn mn_wf<C>(r: MnRun<C>) -> bool {
    &&& r.stopped.len() == r.workers.len()
    &&& forall|i: int| 0 <= i < r.workers.len() && #[trigger] r.stopped[i] ==> r.workers[i] is None
}

/// Every worker has stopped.
pub open spec fn all_stopped<C>(r: MnRun<C>) -> bool {
    forall|i: int| 0 <= i < r.stopped.len() ==> #[trigger] r.stopped[i]
}

proof fn lemma_held_tasks_none<C>(ws: Seq<Option<Task<C>>>)
    requires
        forall|i: int| 0 <= i < ws.len() ==> (#[trigger] ws[i]) is None,
    ensures
        held_tasks(ws).len() == 0,
    decreases ws.len(),
{
    broadcast use vstd::multiset::group_multiset_axioms;
    if ws.len() > 0 {
        lemma_held_tasks_none(ws.drop_last());
        assert(running(ws.last()) =~= Multiset::<Task<C>>::empty());
    }
}

proof fn lemma_mn_step<C>(r: MnRun<C>, step: MnStep<C>)
    requires
        mn_wf(r),
        mn_enabled(r, step),
    ensures
        mn_wf(mn_apply(r, step)),
        runtime_tasks(mn_apply(r, step).queue, mn_apply(r, step).workers).len() + mn_apply(r, step).finished
            == runtime_tasks(r.queue, r.workers).len() + r.finished + mn_apply(r, step).spawned - r.spawned,
        mn_apply(r, step).spawned >= r.spawned,
{
    broadcast use vstd::multiset::group_multiset_axioms;
    broadcast use vstd::seq_lib::group_to_multiset_ensures;
    let n = mn_apply(r, step);
    match step {
        MnStep::Schedule(i) => {
            lemma_schedule_moves_task(r.queue, r.workers, i, n.queue);
        },
        MnStep::Stop(i) => {
            assert(n.workers == r.workers);
            assert forall|j: int| 0 <= j < n.workers.len() && #[trigger] n.stopped[j] implies n.workers[j] is None by {
                if j != i {
                    assert(r.stopped[j]);
                }
            }
        },
        MnStep::Save(i, ctx) => {
            lemma_held_tasks_update(r.workers, i, n.workers[i]);
            assert(running(r.workers[i]).len() == 1);
            assert(running(n.workers[i]).len() == 1);
            assert(held_tasks(n.workers).add(running(r.workers[i])).len() == held_tasks(r.workers).add(
                running(n.workers[i]),
            ).len());
            assert(held_tasks(n.workers).len() == held_tasks(r.workers).len());
            assert forall|j: int| 0 <= j < n.workers.len() && #[trigger] n.stopped[j] implies n.workers[j] is None by {
                if j != i {
                    assert(r.stopped[j]);
                }
            }
        },
        MnStep::Finish(i) => {
            lemma_held_tasks_update(r.workers, i, n.workers[i]);
            assert(running(r.workers[i]).len() == 1);
            assert(running(n.workers[i]).len() == 1);
            assert(held_tasks(n.workers).add(running(r.workers[i])).len() == held_tasks(r.workers).add(
                running(n.workers[i]),
            ).len());
            assert(held_tasks(n.workers).len() == held_tasks(r.workers).len());
            assert forall|j: int| 0 <= j < n.workers.len() && #[trigger] n.stopped[j] implies n.workers[j] is None by {
                if j != i {
                    assert(r.stopped[j]);
                }
            }
        },
        MnStep::Spawn(_, t) => {
            assert(n.workers == r.workers);
            assert(n.queue.tasks.to_multiset() =~= r.queue.tasks.to_multiset().insert(t));
        },
        MnStep::Reclaim(i) => {
            let t = r.workers[i].unwrap();
            lemma_held_tasks_update(r.workers, i, None);
            assert(running(None::<Task<C>>) =~= Multiset::<Task<C>>::empty());
            assert(held_tasks(r.workers) =~= held_tasks(n.workers).insert(t));
            if !t.finished {
                assert(n.queue.tasks.to_multiset() =~= r.queue.tasks.to_multiset().insert(t));
            }
        },
    }
}

/// A run of M:N steps from `start` (`steps[k]` taken in `states[k]`).
pub open spec fn mn_run<C>(states: Seq<MnRun<C>>, steps: Seq<MnStep<C>>) -> bool {
    &&& states.len() == steps.len() + 1
    &&& forall|k: int|
        #![trigger mn_enabled(states[k], steps[k])]
        0 <= k < steps.len() ==> mn_enabled(states[k], steps[k]) && states[k + 1] == mn_apply(
            states[k],
            steps[k],
        )
}

proof fn lemma_mn_run_counts<C>(states: Seq<MnRun<C>>, steps: Seq<MnStep<C>>, k: int)
    requires
        mn_run(states, steps),
        mn_wf(states[0]),
        0 <= k < states.len(),
    ensures
        mn_wf(states[k]),
        states[k].spawned >= states[0].spawned,
        runtime_tasks(states[k].queue, states[k].workers).len() + states[k].finished
            == runtime_tasks(states[0].queue, states[0].workers).len() + states[0].finished
            + states[k].spawned - states[0].spawned,
    decreases k,
{
    if k > 0 {
        lemma_mn_run_counts(states, steps, k - 1);
        let j = k - 1;
        assert(0 <= j < steps.len());
        assert(mn_enabled(states[j], steps[j]));
        assert(states[j + 1] == mn_apply(states[j], steps[j]));
        lemma_mn_step(states[j], steps[j]);
    }
}

/// The M:N runtime runs until all tasks complete, each exactly once: in any
/// interleaving of the workers' steps, starting with `n` tasks queued and no
/// worker running or stopped, once every worker has stopped the shared queue
/// is empty, no worker runs a task, and exactly as many tasks have finished
/// as were queued at the start plus spawned during the run. (A task leaves
/// the runtime only by finishing; see [`lemma_schedule_moves_task`] and
/// [`lemma_reclaim_keeps_task`].)
pub proof fn lemma_all_tasks_complete<C>(states: Seq<MnRun<C>>, steps: Seq<MnStep<C>>)
    requires
        mn_run(states, steps),
        states[0].workers.len() > 0,
        states[0].stopped.len() == states[0].workers.len(),
        forall|i: int| 0 <= i < states[0].workers.len() ==> (#[trigger] states[0].workers[i]) is None
            && !states[0].stopped[i],
        states[0].finished == 0,
        states[0].spawned == 0,
        all_stopped(states.last()),
    ensures
        states.last().queue.tasks.len() == 0,
        forall|i: int| 0 <= i < states.last().workers.len() ==> (#[trigger] states.last().workers[i]) is None,
        states.last().finished == states[0].queue.tasks.len() + states.last().spawned,
{
    broadcast use vstd::multiset::group_multiset_axioms;
    broadcast use vstd::seq_lib::group_to_multiset_ensures;
    let k = states.len() - 1;
    assert(mn_wf(states[0]));
    lemma_mn_run_counts(states, steps, k);
    let last = states[k];
    assert(k > 0) by {
        if k == 0 {
            assert(last.stopped[0]);
        }
    }
    let j = k - 1;
    assert(0 <= j < steps.len());
    assert(mn_enabled(states[j], steps[j]));
    assert(states[j + 1] == mn_apply(states[j], steps[j]));
    let pre = states[j];
    assert(steps[j] is Stop) by {
        let i: int = match steps[j] {
            MnStep::Schedule(i) => i,
            MnStep::Stop(i) => i,
            MnStep::Save(i, _) => i,
            MnStep::Finish(i) => i,
            MnStep::Spawn(i, _) => i,
            MnStep::Reclaim(i) => i,
        };
        assert(last.stopped[i]);
    }
    assert(last.queue.tasks == pre.queue.tasks);
    assert forall|i: int| 0 <= i < last.workers.len() implies (#[trigger] last.workers[i]) is None by {
        assert(last.stopped[i]);
    }
    lemma_held_tasks_none(last.workers);
    assert(runtime_tasks(last.queue, last.workers).len() == 0);
    assert(runtime_tasks(states[0].queue, states[0].workers).len() == states[0].queue.tasks.len()) by {
        lemma_held_tasks_none(states[0].workers);
    }
}

/// An M:N run in which every task yields a given number of times and then
/// finishes: the run, the yields left of each queued task (in queue order)
/// and of each worker's task, how many times tasks were taken and given
/// back, and the turns needed by the tasks spawned so far.
pub struct MnBudget<C> {
    pub run: MnRun<C>,
    pub queue_yields: Seq<nat>,
    pub held_yields: Seq<nat>,
    pub taken: nat,
    pub given_back: nat,
    pub spawned_work: nat,
}

/// A step that keeps to the budgets: a task finishes only with no yields
/// left, and yields only with some left. A spawned task gets
/// `child_yields` yields.
pub open spec fn budget_enabled<C>(b: MnBudget<C>, step: MnStep<C>) -> bool {
    &&& mn_enabled(b.run, step)
    &&& match step {
        MnStep::Finish(i) => b.held_yields[i] == 0,
        MnStep::Reclaim(i) => if b.run.workers[i].unwrap().finished {
            b.held_yields[i] == 0
        } else {
            b.held_yields[i] > 0
        },
        _ => true,
    }
}

/// The budgets after a step.
pub open spec fn budget_apply<C>(b: MnBudget<C>, step: MnStep<C>, child_yields: nat) -> MnBudget<C> {
    let run = mn_apply(b.run, step);
    match step {
        MnStep::Schedule(i) => MnBudget {
            run,
            queue_yields: b.queue_yields.drop_first(),
            held_yields: b.held_yields.update(i, b.queue_yields[0]),
            taken: b.taken + 1,
            ..b
        },
        MnStep::Spawn(_, _) => MnBudget {
            run,
            queue_yields: b.queue_yields.push(child_yields),
            spawned_work: b.spawned_work + child_yields + 1,
            ..b
        },
        MnStep::Reclaim(i) => if b.run.workers[i].unwrap().finished {
            MnBudget { run, given_back: b.given_back + 1, ..b }
        } else {
            MnBudget {
                run,
                queue_yields: b.queue_yields.push((b.held_yields[i] - 1) as nat),
                given_back: b.given_back + 1,
                ..b
            }
        },
        _ => MnBudget { run, ..b },
    }
}

/// The turns a worker's task still needs (none if it runs no task).
pub open spec fn held_cost<C>(w: Option<Task<C>>, y: nat) -> nat {
    if w is Some {
        y + 1
    } else {
        0
    }
}

/// The turns still needed by the tasks of the first `n` workers.
pub open spec fn held_work<C>(ws: Seq<Option<Task<C>>>, ys: Seq<nat>, n: nat) -> nat
    decreases n,
{
    if n == 0 {
        0
    } else {
        held_work(ws, ys, (n - 1) as nat) + held_cost(ws[n - 1], ys[n - 1])
    }
}

/// How many of the first `n` workers run a task.
pub open spec fn busy<C>(ws: Seq<Option<Task<C>>>, n: nat) -> nat
    decreases n,
{
    if n == 0 {
        0
    } else {
        busy(ws, (n - 1) as nat) + (if ws[n - 1] is Some { 1nat } else { 0nat })
    }
}

proof fn lemma_held_work_update<C>(ws: Seq<Option<Task<C>>>, ys: Seq<nat>, i: int, w: Option<Task<C>>, y: nat, n: nat)
    requires
        0 <= i < n <= ws.len(),
        n <= ys.len(),
    ensures
        held_work(ws.update(i, w), ys.update(i, y), n) + held_cost(ws[i], ys[i])
            == held_work(ws, ys, n) + held_cost(w, y),
        busy(ws.update(i, w), n) + (if ws[i] is Some { 1nat } else { 0nat })
            == busy(ws, n) + (if w is Some { 1nat } else { 0nat }),
    decreases n,
{
    if n - 1 > i {
        lemma_held_work_update(ws, ys, i, w, y, (n - 1) as nat);
    } else {
        let ws2 = ws.update(i, w);
        let ys2 = ys.update(i, y);
        assert forall|j: int| #![trigger ws[j]] 0 <= j < n - 1 implies ws[j] == ws2[j] && ys[j] == ys2[j] by {}
        lemma_held_work_same(ws, ys, ws2, ys2, (n - 1) as nat);
    }
}

proof fn lemma_held_work_same<C>(ws: Seq<Option<Task<C>>>, ys: Seq<nat>, ws2: Seq<Option<Task<C>>>, ys2: Seq<nat>, n: nat)
    requires
        n <= ws.len(),
        n <= ws2.len(),
        n <= ys.len(),
        n <= ys2.len(),
        forall|j: int| #![trigger ws[j]] 0 <= j < n ==> ws[j] == ws2[j] && ys[j] == ys2[j],
    ensures
        held_work(ws, ys, n) == held_work(ws2, ys2, n),
        busy(ws, n) == busy(ws2, n),
    decreases n,
{
    if n > 0 {
        lemma_held_work_same(ws, ys, ws2, ys2, (n - 1) as nat);
    }
}

proof fn lemma_busy_bound<C>(ws: Seq<Option<Task<C>>>, n: nat)
    ensures
        busy(ws, n) <= n,
    decreases n,
{
    if n > 0 {
        lemma_busy_bound(ws, (n - 1) as nat);
    }
}

/// The turns all tasks of a budgeted run still need.
pub open spec fn remaining_work<C>(b: MnBudget<C>) -> nat {
    crate::n1::turns_needed(b.queue_yields) + held_work(b.run.workers, b.held_yields, b.run.workers.len())
}

/// A budgeted run's state holds together: the run is well formed and the
/// budgets match the queue and the workers one for one.
pub open spec fn budget_wf<C>(b: MnBudget<C>) -> bool {
    &&& mn_wf(b.run)
    &&& b.queue_yields.len() == b.run.queue.tasks.len()
    &&& b.held_yields.len() == b.run.workers.len()
}

proof fn lemma_budget_step<C>(b: MnBudget<C>, step: MnStep<C>, cy: nat)
    requires
        budget_wf(b),
        budget_enabled(b, step),
    ensures
        budget_wf(budget_apply(b, step, cy)),
        remaining_work(budget_apply(b, step, cy)) + budget_apply(b, step, cy).given_back
            == remaining_work(b) + b.given_back + budget_apply(b, step, cy).spawned_work - b.spawned_work,
        budget_apply(b, step, cy).spawned_work >= b.spawned_work,
        budget_apply(b, step, cy).taken + busy(b.run.workers, b.run.workers.len()) + budget_apply(
            b,
            step,
            cy,
        ).given_back == b.taken + busy(
            budget_apply(b, step, cy).run.workers,
            b.run.workers.len(),
        ) + b.given_back + (budget_apply(b, step, cy).given_back - b.given_back) * 2,
{
    lemma_mn_step(b.run, step);
    let n = budget_apply(b, step, cy);
    let len = b.run.workers.len();
    match step {
        MnStep::Schedule(i) => {
            lemma_held_work_update(b.run.workers, b.held_yields, i, n.run.workers[i], b.queue_yields[0], len);
            assert(n.held_yields == b.held_yields.update(i, b.queue_yields[0]));
            assert(crate::n1::turns_needed(b.queue_yields) == crate::n1::turns_needed(
                b.queue_yields.drop_first(),
            ) + b.queue_yields[0] + 1);
        },
        MnStep::Stop(i) => {},
        MnStep::Save(i, ctx) => {
            lemma_held_work_update(b.run.workers, b.held_yields, i, n.run.workers[i], b.held_yields[i], len);
            assert(b.held_yields.update(i, b.held_yields[i]) =~= b.held_yields);
        },
        MnStep::Finish(i) => {
            lemma_held_work_update(b.run.workers, b.held_yields, i, n.run.workers[i], b.held_yields[i], len);
            assert(b.held_yields.update(i, b.held_yields[i]) =~= b.held_yields);
        },
        MnStep::Spawn(_, t) => {
            crate::n1::lemma_turns_needed_push(b.queue_yields, cy);
        },
        MnStep::Reclaim(i) => {
            lemma_held_work_update(b.run.workers, b.held_yields, i, None, b.held_yields[i], len);
            assert(b.held_yields.update(i, b.held_yields[i]) =~= b.held_yields);
            if !b.run.workers[i].unwrap().finished {
                crate::n1::lemma_turns_needed_push(b.queue_yields, (b.held_yields[i] - 1) as nat);
            }
        },
    }
}

/// A budgeted run of M:N steps (`steps[k]` taken in `states[k]`, a spawn
/// giving its task `child_yields[k]` yields).
pub open spec fn budget_run<C>(states: Seq<MnBudget<C>>, steps: Seq<MnStep<C>>, child_yields: Seq<nat>) -> bool {
    &&& states.len() == steps.len() + 1
    &&& child_yields.len() == steps.len()
    &&& forall|k: int|
        #![trigger budget_enabled(states[k], steps[k])]
        0 <= k < steps.len() ==> budget_enabled(states[k], steps[k]) && states[k + 1] == budget_apply(
            states[k],
            steps[k],
            child_yields[k],
        )
}

proof fn lemma_budget_run<C>(states: Seq<MnBudget<C>>, steps: Seq<MnStep<C>>, child_yields: Seq<nat>, k: int)
    requires
        budget_run(states, steps, child_yields),
        budget_wf(states[0]),
        0 <= k < states.len(),
    ensures
        budget_wf(states[k]),
        states[k].run.workers.len() == states[0].run.workers.len(),
        remaining_work(states[k]) + states[k].given_back == remaining_work(states[0]) + states[0].given_back
            + states[k].spawned_work - states[0].spawned_work,
        states[k].spawned_work >= states[0].spawned_work,
        states[k].taken + busy(states[0].run.workers, states[0].run.workers.len()) + states[k].given_back
            == states[0].taken + busy(states[k].run.workers, states[0].run.workers.len())
            + states[0].given_back + (states[k].given_back - states[0].given_back) * 2,
    decreases k,
{
    if k > 0 {
        let j = k - 1;
        lemma_budget_run(states, steps, child_yields, j);
        assert(0 <= j < steps.len());
        assert(budget_enabled(states[j], steps[j]));
        assert(states[j + 1] == budget_apply(states[j], steps[j], child_yields[j]));
        lemma_budget_step(states[j], steps[j], child_yields[j]);
    }
}

/// An M:N run ends when every task yields finitely often and then
/// finishes: in any interleaving of the workers' steps that keeps to the
/// tasks' budgets, starting with no task taken and none running, tasks are
/// taken from the queue at most as many times as the queued tasks and the
/// tasks spawned so far need turns, plus once per worker; so with finitely
/// many tasks spawned, the workers' loops take finitely many turns.
pub proof fn lemma_turns_bounded<C>(states: Seq<MnBudget<C>>, steps: Seq<MnStep<C>>, child_yields: Seq<nat>)
    requires
        budget_run(states, steps, child_yields),
        budget_wf(states[0]),
        states[0].taken == 0,
        states[0].given_back == 0,
        states[0].spawned_work == 0,
        forall|i: int| 0 <= i < states[0].run.workers.len() ==> (#[trigger] states[0].run.workers[i]) is None,
    ensures
        states.last().taken <= crate::n1::turns_needed(states[0].queue_yields) + states.last().spawned_work
            + states[0].run.workers.len(),
{
    let k = states.len() - 1;
    let len = states[0].run.workers.len();
    lemma_budget_run(states, steps, child_yields, k);
    lemma_busy_bound(states[k].run.workers, len);
    assert(busy(states[0].run.workers, len) == 0) by {
        lemma_busy_zero(states[0].run.workers, len);
    }
    assert(held_work(states[0].run.workers, states[0].held_yields, len) == 0) by {
        lemma_busy_zero(states[0].run.workers, len);
        lemma_held_work_zero(states[0].run.workers, states[0].held_yields, len);
    }
}

proof fn lemma_busy_zero<C>(ws: Seq<Option<Task<C>>>, n: nat)
    requires
        n <= ws.len(),
        forall|i: int| 0 <= i < ws.len() ==> (#[trigger] ws[i]) is None,
    ensures
        busy(ws, n) == 0,
    decreases n,
{
    if n > 0 {
        lemma_busy_zero(ws, (n - 1) as nat);
    }
}

proof fn lemma_held_work_zero<C>(ws: Seq<Option<Task<C>>>, ys: Seq<nat>, n: nat)
    requires
        n <= ws.len(),
        forall|i: int| 0 <= i < ws.len() ==> (#[trigger] ws[i]) is None,
    ensures
        held_work(ws, ys, n) == 0,
    decreases n,
{
    if n > 0 {
        lemma_held_work_zero(ws, ys, (n - 1) as nat);
    }
}

/// Spawns a task (or requeues one that yielded): it is put at the back of
/// the shared queue. The shutdown flag is left as it is.
pub fn go<C>(queue: &mut GlobalQueue<C>, task: Task<C>)
    ensures
        final(queue)@.tasks == old(queue)@.tasks.push(task),
        final(queue)@.shutdown == old(queue)@.shutdown,
{
    queue.tasks.push_back(task);
}

} // verus!
