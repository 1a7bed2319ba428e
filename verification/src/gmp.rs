//! GMP green thread runtime: the scheduling decisions of a Go-like
//! scheduler with tasks (G), OS-thread workers (M) and processors (P).
//!
//! A worker runs tasks only while it holds a processor. Each processor has
//! a local run queue; new tasks go to a global queue. A worker first runs
//! tasks from its processor's local queue, then from the global queue, and
//! when both are empty it returns its processor to the idle pool. A task
//! about to block can hand its worker's processor back
//! ([`Worker::release_p`]) so that another worker can use it meanwhile, and
//! take one again afterwards ([`Worker::acquire_p`]).
//!
//! The shared state ([`SharedState`]) is meant to be held under one lock;
//! every function here that takes it expects the caller to hold that lock.
use vstd::multiset::Multiset;
use vstd::prelude::*;
use crate::task::Task;

verus! {

/// Processor (P in GMP): holds a local task queue.
pub struct Processor<C> {
    local_queue: std::collections::VecDeque<Task<C>>,
}

impl<C> View for Processor<C> {
    type V = Seq<Task<C>>;

    closed spec fn view(&self) -> Seq<Task<C>> {
        self.local_queue@
    }
}

impl<C> Processor<C> {
    /// A processor with an empty local queue.
    pub fn new() -> (p: Self)
        ensures
            p@ == Seq::<Task<C>>::empty(),
    {
        Processor { local_queue: std::collections::VecDeque::new() }
    }
}

/// The local queues of a sequence of processors.
pub open spec fn local_queues<C>(ps: Seq<Processor<C>>) -> Seq<Seq<Task<C>>> {
    ps.map_values(|p: Processor<C>| p@)
}

proof fn lemma_local_queues_push<C>(ps: Seq<Processor<C>>, p: Processor<C>)
    ensures
        local_queues(ps.push(p)) == local_queues(ps).push(p@),
{
    assert(local_queues(ps.push(p)) =~= local_queues(ps).push(p@));
}

proof fn lemma_local_queues_drop_first<C>(ps: Seq<Processor<C>>)
    requires
        ps.len() > 0,
    ensures
        local_queues(ps.drop_first()) == local_queues(ps).drop_first(),
        local_queues(ps)[0] == ps[0]@,
{
    assert(local_queues(ps.drop_first()) =~= local_queues(ps).drop_first());
}

/// State shared by all workers of a GMP runtime.
pub struct SharedState<C> {
    /// Pool of idle processors
    idle_processors: std::collections::VecDeque<Processor<C>>,
    /// Global task queue (for new tasks)
    global_queue: std::collections::VecDeque<Task<C>>,
    /// Flag to signal shutdown
    shutdown: bool,
    /// Number of active workers (not blocked)
    active_workers: usize,
}

/// What the shared state holds: the local queues of the idle processors,
/// in pool order, the global queue, the shutdown flag and the count of
/// active workers.
pub struct SharedView<C> {
    pub idle: Seq<Seq<Task<C>>>,
    pub global: Seq<Task<C>>,
    pub shutdown: bool,
    pub active_workers: nat,
}

impl<C> View for SharedState<C> {
    type V = SharedView<C>;

    closed spec fn view(&self) -> SharedView<C> {
        SharedView {
            idle: local_queues(self.idle_processors@),
            global: self.global_queue@,
            shutdown: self.shutdown,
            active_workers: self.active_workers as nat,
        }
    }
}

/// Per-thread worker state (M in GMP).
pub struct Worker<C> {
    /// The processor this worker currently owns (None when blocked)
    processor: Option<Processor<C>>,
    /// Scheduler context for this worker
    scheduler_context: C,
    /// Currently running task
    current_task: Option<Task<C>>,
    /// Flag set by `task_finished`
    current_task_finished: bool,
    /// Worker ID for debugging
    id: usize,
}

/// What a worker holds: its processor's local queue (if it holds one), the
/// saved context of its loop, the running task, whether that task reported
/// that it finished, and its id.
pub struct WorkerView<C> {
    pub processor: Option<Seq<Task<C>>>,
    pub scheduler: C,
    pub current: Option<Task<C>>,
    pub current_finished: bool,
    pub id: usize,
}

impl<C> View for Worker<C> {
    type V = WorkerView<C>;

    closed spec fn view(&self) -> WorkerView<C> {
        WorkerView {
            processor: match self.processor {
                Some(p) => Some(p@),
                None => None,
            },
            scheduler: self.scheduler_context,
            current: self.current_task,
            current_finished: self.current_task_finished,
            id: self.id,
        }
    }
}

/// How many processors a worker holds (0 or 1).
pub open spec fn held<C>(w: WorkerView<C>) -> nat {
    if w.processor is Some {
        1
    } else {
        0
    }
}

/// The processors in the pool together with the one the worker holds.
pub open spec fn processors<C>(s: SharedView<C>, w: WorkerView<C>) -> nat {
    s.idle.len() + held(w)
}

/// `post` is `pre` with only the pool and the worker's processor changed.
pub open spec fn same_tasks_and_flags<C>(pre: SharedView<C>, post: SharedView<C>) -> bool {
    &&& post.global == pre.global
    &&& post.shutdown == pre.shutdown
    &&& post.active_workers == pre.active_workers
}

/// `post` is `pre` with only its processor changed.
pub open spec fn same_except_processor<C>(pre: WorkerView<C>, post: WorkerView<C>) -> bool {
    &&& post.scheduler == pre.scheduler
    &&& post.current == pre.current
    &&& post.current_finished == pre.current_finished
    &&& post.id == pre.id
}

/// Once shut down, a runtime stays shut down.
pub open spec fn shutdown_kept<C>(pre: SharedView<C>, post: SharedView<C>) -> bool {
    pre.shutdown ==> post.shutdown
}

/// A runtime is shut down only at a moment when no task waits in the global
/// queue and no worker is active.
pub open spec fn shutdown_only_when_idle<C>(pre: SharedView<C>, post: SharedView<C>) -> bool {
    (!pre.shutdown && post.shutdown) ==> (post.global.len() == 0 && post.active_workers == 0)
}

/// A step of a GMP runtime as far as shutdown goes, as every step of
/// [`Worker`] and [`SharedState`] is (see their contracts: the steps other
/// than [`Worker::find_processor`] and [`Worker::global_step`] leave the flag,
/// the global queue and the active count as they were).
pub open spec fn shutdown_step<C>(pre: SharedView<C>, post: SharedView<C>) -> bool {
    shutdown_kept(pre, post) && shutdown_only_when_idle(pre, post)
}

proof fn lemma_shutdown_stays<C>(shared: Seq<SharedView<C>>, j: int, k: int)
    requires
        0 <= j <= k < shared.len(),
        shared[j].shutdown,
        forall|i: int| 0 <= i < shared.len() - 1 ==> #[trigger] shutdown_step(shared[i], shared[i + 1]),
    ensures
        shared[k].shutdown,
    decreases k - j,
{
    if k > j {
        lemma_shutdown_stays(shared, j, k - 1);
        let i = k - 1;
        assert(shutdown_step(shared[i], shared[i + 1]));
    }
}

/// Over a whole run of a GMP runtime, starting from [`SharedState::new`]
/// (not shut down), the shutdown flag changes at most once, from `false` to
/// `true`, and is never reset; the step that sets it leaves the global queue
/// empty and no worker active.
pub proof fn lemma_shutdown_once<C>(shared: Seq<SharedView<C>>)
    requires
        shared.len() > 0,
        !shared[0].shutdown,
        forall|i: int| 0 <= i < shared.len() - 1 ==> #[trigger] shutdown_step(shared[i], shared[i + 1]),
    ensures
        forall|j: int, k: int|
            0 <= j <= k < shared.len() && #[trigger] shared[j].shutdown ==> #[trigger] shared[k].shutdown,
        forall|i: int|
            0 <= i < shared.len() - 1 && !shared[i].shutdown && #[trigger] shared[i + 1].shutdown
                ==> shared[i + 1].global.len() == 0 && shared[i + 1].active_workers == 0,
{
    assert forall|j: int, k: int|
        0 <= j <= k < shared.len() && #[trigger] shared[j].shutdown implies #[trigger] shared[k].shutdown by {
        lemma_shutdown_stays(shared, j, k);
    }
    assert forall|i: int|
        0 <= i < shared.len() - 1 && !shared[i].shutdown && #[trigger] shared[i + 1].shutdown implies
        shared[i + 1].global.len() == 0 && shared[i + 1].active_workers == 0 by {
        assert(shutdown_step(shared[i], shared[i + 1]));
    }
}

/// How many processors a sequence of workers hold between them.
pub open spec fn held_by_all<C>(ws: Seq<WorkerView<C>>) -> nat
    decreases ws.len(),
{
    if ws.len() == 0 {
        0
    } else {
        held_by_all(ws.drop_last()) + held(ws.last())
    }
}

proof fn lemma_held_by_all_update<C>(ws: Seq<WorkerView<C>>, i: int, w: WorkerView<C>)
    requires
        0 <= i < ws.len(),
    ensures
        held_by_all(ws.update(i, w)) + held(ws[i]) == held_by_all(ws) + held(w),
    decreases ws.len(),
{
    let us = ws.update(i, w);
    if i == ws.len() - 1 {
        assert(us.drop_last() =~= ws.drop_last());
    } else {
        lemma_held_by_all_update(ws.drop_last(), i, w);
        assert(us.drop_last() =~= ws.drop_last().update(i, w));
    }
}

/// Processors are never created or lost: when one worker takes a step that
/// keeps the count of processors in the pool and in its own hands (as every
/// step of [`Worker`] that touches the pool does, see their contracts), the
/// count of processors in the pool and in the hands of all workers stays
/// the same.
pub proof fn lemma_processors_conserved<C>(
    pre: SharedView<C>,
    workers: Seq<WorkerView<C>>,
    i: int,
    post: SharedView<C>,
    stepped: WorkerView<C>,
)
    requires
        0 <= i < workers.len(),
        processors(post, stepped) == processors(pre, workers[i]),
    ensures
        post.idle.len() + held_by_all(workers.update(i, stepped))
            == pre.idle.len() + held_by_all(workers),
{
    lemma_held_by_all_update(workers, i, stepped);
}

/// At the start, the pool holds every processor: workers made by
/// [`Worker::new`] hold none.
pub proof fn lemma_new_workers_hold_nothing<C>(workers: Seq<WorkerView<C>>)
    requires
        forall|i: int| 0 <= i < workers.len() ==> (#[trigger] workers[i]).processor is None,
    ensures
        held_by_all(workers) == 0,
    decreases workers.len(),
{
    if workers.len() > 0 {
        lemma_new_workers_hold_nothing(workers.drop_last());
    }
}

/// A step of one worker of a GMP runtime, as every step of [`Worker`] that
/// touches the pool is (see their contracts; [`Worker::acquire_p`] when the
/// worker holds no processor): the worker changes, the other workers do
/// not, and the processors in the pool and in that worker's hands stay as
/// many.
pub open spec fn processor_step<C>(
    s0: SharedView<C>,
    ws0: Seq<WorkerView<C>>,
    s1: SharedView<C>,
    ws1: Seq<WorkerView<C>>,
) -> bool {
    exists|i: int, w: WorkerView<C>|
        0 <= i < ws0.len() && ws1 == #[trigger] ws0.update(i, w) && processors(s1, w) == processors(
            s0,
            ws0[i],
        )
}

proof fn lemma_processor_count_at<C>(
    shared: Seq<SharedView<C>>,
    workers: Seq<Seq<WorkerView<C>>>,
    np: nat,
    k: int,
)
    requires
        shared.len() == workers.len(),
        0 <= k < shared.len(),
        shared[0].idle.len() == np,
        forall|i: int| 0 <= i < workers[0].len() ==> (#[trigger] workers[0][i]).processor is None,
        forall|j: int|
            0 <= j < shared.len() - 1 ==> #[trigger] processor_step(
                shared[j],
                workers[j],
                shared[j + 1],
                workers[j + 1],
            ),
    ensures
        shared[k].idle.len() + held_by_all(workers[k]) == np,
    decreases k,
{
    if k == 0 {
        lemma_new_workers_hold_nothing(workers[0]);
    } else {
        lemma_processor_count_at(shared, workers, np, k - 1);
        let j = k - 1;
        assert(processor_step(shared[j], workers[j], shared[j + 1], workers[j + 1]));
        assert(j + 1 == k);
        let (i, w) = choose|i: int, w: WorkerView<C>|
            0 <= i < workers[k - 1].len() && workers[k] == #[trigger] workers[k - 1].update(i, w)
                && processors(shared[k], w) == processors(shared[k - 1], workers[k - 1][i]);
        lemma_processors_conserved(shared[k - 1], workers[k - 1], i, shared[k], w);
    }
}

/// The number of processors never changes: in any run of a GMP runtime
/// made by [`SharedState::new`] with `np` processors and workers made by
/// [`Worker::new`], in which the workers take steps that keep processors
/// (every step of [`Worker`] does, `acquire_p` when the worker holds none),
/// the idle processors and those the workers hold always number `np`. So
/// at most `np` workers hold a processor at any moment, and none is lost.
pub proof fn lemma_processor_count_invariant<C>(
    shared: Seq<SharedView<C>>,
    workers: Seq<Seq<WorkerView<C>>>,
    np: nat,
)
    requires
        shared.len() == workers.len(),
        shared.len() > 0,
        shared[0].idle.len() == np,
        forall|i: int| 0 <= i < workers[0].len() ==> (#[trigger] workers[0][i]).processor is None,
        forall|j: int|
            0 <= j < shared.len() - 1 ==> #[trigger] processor_step(
                shared[j],
                workers[j],
                shared[j + 1],
                workers[j + 1],
            ),
    ensures
        forall|k: int|
            0 <= k < shared.len() ==> #[trigger] shared[k].idle.len() + held_by_all(workers[k]) == np,
{
    assert forall|k: int| 0 <= k < shared.len() implies #[trigger] shared[k].idle.len() + held_by_all(
        workers[k],
    ) == np by {
        lemma_processor_count_at(shared, workers, np, k);
    }
}

/// The tasks in a sequence of queues, counted with multiplicity.
pub open spec fn queued_tasks<C>(qs: Seq<Seq<Task<C>>>) -> Multiset<Task<C>>
    decreases qs.len(),
{
    if qs.len() == 0 {
        Multiset::empty()
    } else {
        queued_tasks(qs.drop_last()).add(qs.last().to_multiset())
    }
}

/// The tasks a worker holds: those in its processor's local queue and the
/// running one.
pub open spec fn worker_tasks<C>(w: WorkerView<C>) -> Multiset<Task<C>> {
    let local = match w.processor {
        Some(q) => q.to_multiset(),
        None => Multiset::empty(),
    };
    match w.current {
        Some(t) => local.insert(t),
        None => local,
    }
}

/// Every task in the shared state and in one worker's hands: the global
/// queue, the local queues of the idle processors, and the worker's tasks.
pub open spec fn all_tasks<C>(s: SharedView<C>, w: WorkerView<C>) -> Multiset<Task<C>> {
    s.global.to_multiset().add(queued_tasks(s.idle)).add(worker_tasks(w))
}

/// The tasks all workers hold between them.
pub open spec fn workers_tasks<C>(ws: Seq<WorkerView<C>>) -> Multiset<Task<C>>
    decreases ws.len(),
{
    if ws.len() == 0 {
        Multiset::empty()
    } else {
        workers_tasks(ws.drop_last()).add(worker_tasks(ws.last()))
    }
}

/// Every task of a GMP runtime: the global queue, the local queues of the
/// idle processors, and the tasks all workers hold.
pub open spec fn system_tasks<C>(s: SharedView<C>, ws: Seq<WorkerView<C>>) -> Multiset<Task<C>> {
    s.global.to_multiset().add(queued_tasks(s.idle)).add(workers_tasks(ws))
}

proof fn lemma_workers_tasks_update<C>(ws: Seq<WorkerView<C>>, i: int, w: WorkerView<C>)
    requires
        0 <= i < ws.len(),
    ensures
        workers_tasks(ws.update(i, w)).add(worker_tasks(ws[i])) == workers_tasks(ws).add(worker_tasks(w)),
    decreases ws.len(),
{
    broadcast use vstd::multiset::group_multiset_axioms;
    let us = ws.update(i, w);
    assert(workers_tasks(us) == workers_tasks(us.drop_last()).add(worker_tasks(us.last())));
    assert(workers_tasks(ws) == workers_tasks(ws.drop_last()).add(worker_tasks(ws.last())));
    if i == ws.len() - 1 {
        assert(us.drop_last() =~= ws.drop_last());
        assert(us.last() == w);
    } else {
        lemma_workers_tasks_update(ws.drop_last(), i, w);
        assert(us.drop_last() =~= ws.drop_last().update(i, w));
        assert(us.last() == ws.last());
        assert(ws.drop_last()[i] == ws[i]);
        let a = workers_tasks(us.drop_last());
        let b = workers_tasks(ws.drop_last());
        assert forall|x: Task<C>| #[trigger] workers_tasks(us).add(worker_tasks(ws[i])).count(x)
            == workers_tasks(ws).add(worker_tasks(w)).count(x) by {
            assert(a.add(worker_tasks(ws[i])).count(x) == b.add(worker_tasks(w)).count(x));
        }
    }
    assert(workers_tasks(us).add(worker_tasks(ws[i])) =~= workers_tasks(ws).add(worker_tasks(w)));
}

/// What one worker's step does to the tasks of the shared state and its own
/// hands, it does to the tasks of the whole runtime: when worker `i` steps
/// from `workers[i]` to `stepped` and the shared state from `pre` to `post`,
/// the runtime's tasks change by exactly what [`all_tasks`] for that worker
/// changes by. So the steps' contracts (all tasks kept; the task handed out
/// to run; the finished or stranded task dropped) hold for all workers
/// together: no task is lost or duplicated by one worker's step on the
/// tasks of the others.
pub proof fn lemma_step_tasks_for_all_workers<C>(
    pre: SharedView<C>,
    workers: Seq<WorkerView<C>>,
    i: int,
    post: SharedView<C>,
    stepped: WorkerView<C>,
)
    requires
        0 <= i < workers.len(),
    ensures
        system_tasks(post, workers.update(i, stepped)).add(all_tasks(pre, workers[i]))
            == system_tasks(pre, workers).add(all_tasks(post, stepped)),
        all_tasks(post, stepped) == all_tasks(pre, workers[i]) ==> system_tasks(
            post,
            workers.update(i, stepped),
        ) == system_tasks(pre, workers),
{
    broadcast use vstd::multiset::group_multiset_axioms;
    lemma_workers_tasks_update(workers, i, stepped);
    let us = workers.update(i, stepped);
    assert forall|x: Task<C>| #[trigger] system_tasks(post, us).add(all_tasks(pre, workers[i])).count(x)
        == system_tasks(pre, workers).add(all_tasks(post, stepped)).count(x) by {
        assert(workers_tasks(us).add(worker_tasks(workers[i])).count(x) == workers_tasks(workers).add(
            worker_tasks(stepped),
        ).count(x));
    }
    assert(system_tasks(post, us).add(all_tasks(pre, workers[i])) =~= system_tasks(pre, workers).add(
        all_tasks(post, stepped),
    ));
    if all_tasks(post, stepped) == all_tasks(pre, workers[i]) {
        assert forall|x: Task<C>| #[trigger] system_tasks(post, us).count(x) == system_tasks(pre, workers).count(x) by {
            assert(system_tasks(post, us).add(all_tasks(pre, workers[i])).count(x)
                == system_tasks(pre, workers).add(all_tasks(post, stepped)).count(x));
        }
        assert(system_tasks(post, us) =~= system_tasks(pre, workers));
    }
}

proof fn lemma_queued_tasks_drop_first<C>(qs: Seq<Seq<Task<C>>>)
    requires
        qs.len() > 0,
    ensures
        queued_tasks(qs) == qs[0].to_multiset().add(queued_tasks(qs.drop_first())),
    decreases qs.len(),
{
    if qs.len() == 1 {
        assert(qs.drop_last() =~= Seq::<Seq<Task<C>>>::empty());
        assert(qs.drop_first() =~= Seq::<Seq<Task<C>>>::empty());
        assert(queued_tasks(qs) =~= qs[0].to_multiset().add(queued_tasks(qs.drop_first())));
    } else {
        lemma_queued_tasks_drop_first(qs.drop_last());
        assert(qs.drop_last().drop_first() =~= qs.drop_first().drop_last());
        assert(qs.drop_first().last() == qs.last());
        assert(queued_tasks(qs) =~= qs[0].to_multiset().add(queued_tasks(qs.drop_first())));
    }
}

proof fn lemma_queued_tasks_push<C>(qs: Seq<Seq<Task<C>>>, q: Seq<Task<C>>)
    ensures
        queued_tasks(qs.push(q)) == queued_tasks(qs).add(q.to_multiset()),
{
    assert(qs.push(q).drop_last() =~= qs);
}

proof fn lemma_seq_multiset_drop_first<C>(q: Seq<Task<C>>)
    requires
        q.len() > 0,
    ensures
        q.to_multiset() == q.drop_first().to_multiset().insert(q[0]),
{
    broadcast use vstd::seq_lib::group_to_multiset_ensures;
    assert(q.remove(0) =~= q.drop_first());
    assert(q.to_multiset().count(q[0]) > 0) by {
        assert(q.contains(q[0]));
    }
    assert(q.to_multiset() =~= q.drop_first().to_multiset().insert(q[0]));
}

/// A turn of the worker loop neither loses nor duplicates a task when the
/// task it runs yields while the worker keeps its processor: the task is
/// taken (from the global or the local queue, [`Worker::global_step`] or
/// [`Worker::next_local_task`]), started ([`Worker::start_task`]) and put
/// back ([`Worker::finish_task`]), and the tasks of the shared state and the
/// worker are then those of before, as their contracts state step by step.
pub proof fn lemma_yielding_turn_keeps_tasks<C>(
    s0: SharedView<C>,
    w0: WorkerView<C>,
    t: Task<C>,
    s1: SharedView<C>,
    w1: WorkerView<C>,
    w2: WorkerView<C>,
    w3: WorkerView<C>,
)
    requires
        all_tasks(s1, w1).insert(t) == all_tasks(s0, w0),
        w1.current is None,
        worker_tasks(w2) == worker_tasks(w1).insert(t),
        w2.current == Some(t),
        !w2.current_finished,
        w2.processor is Some,
        worker_tasks(w3) == (match w2.current {
            Some(c) => if !w2.current_finished && w2.processor is Some {
                worker_tasks(w2)
            } else {
                worker_tasks(w2).remove(c)
            },
            None => worker_tasks(w2),
        }),
    ensures
        all_tasks(s1, w3) == all_tasks(s0, w0),
{
    assert(all_tasks(s1, w3) =~= all_tasks(s1, w1).insert(t));
}

/// Result of one attempt of [`Worker::acquire_p`].
pub enum AcquireOutcome {
    /// The worker took the processor at the front of the idle pool.
    Acquired,
    /// No processor is idle and the runtime is shut down: give up.
    ShutDown,
    /// No processor is idle: wait until one is released, then try again.
    Wait,
}

/// Result of the worker loop's attempt to obtain a processor.
pub enum FindOutcome {
    /// The worker took an idle processor and counts as active.
    Acquired,
    /// The runtime is already shut down: the worker stops.
    Exit,
    /// No work is left anywhere: the worker has just shut the runtime down
    /// and stops; every waiting worker must be woken.
    ShutDown,
    /// Work remains but no processor is idle: wait for one to be released.
    Wait,
}

/// Result of looking at the local queue of the worker's processor.
pub enum LocalOutcome<C> {
    /// The task that was at the front of the local queue, to be run.
    Run(Task<C>),
    /// The front task had already finished; it was dropped.
    Skip,
    /// The local queue is empty.
    Empty,
}

/// Result of looking at the global queue once the local queue is empty.
pub enum GlobalOutcome<C> {
    /// The task that was at the front of the global queue, to be run once
    /// the lock is released.
    Run(Task<C>),
    /// The runtime is shut down: the worker returned its processor to the
    /// pool and stops; every worker waiting for a processor must be woken.
    Exit,
    /// The worker returned its processor, was the last active one, and has
    /// shut the runtime down; it stops, and every waiting worker must be
    /// woken.
    ShutDown,
    /// The worker returned its processor to the pool (one waiting worker
    /// may be woken) and goes back to looking for one.
    Parked,
}

impl<C> SharedState<C> {
    /// The shared state of a new runtime: `num_processors` idle processors
    /// with empty local queues, no tasks, no active worker, not shut down.
    pub fn new(num_processors: usize) -> (s: Self)
        ensures
            s@.idle == Seq::new(num_processors as nat, |i: int| Seq::<Task<C>>::empty()),
            s@.global == Seq::<Task<C>>::empty(),
            !s@.shutdown,
            s@.active_workers == 0,
    {
        let mut idle_processors: std::collections::VecDeque<Processor<C>> =
            std::collections::VecDeque::new();
        let mut i: usize = 0;
        while i < num_processors
            invariant
                i <= num_processors,
                idle_processors@.len() == i,
                local_queues(idle_processors@) =~= Seq::new(i as nat, |j: int| Seq::<Task<C>>::empty()),
            decreases num_processors - i,
        {
            let p = Processor::new();
            let ghost prev = idle_processors@;
            let ghost pv = p@;
            idle_processors.push_back(p);
            proof {
                assert forall|j: int| 0 <= j < i + 1 implies #[trigger] local_queues(idle_processors@)[j]
                    == Seq::<Task<C>>::empty() by {
                    if j < i {
                        assert(idle_processors@[j] == prev[j]);
                        assert(local_queues(prev)[j] == Seq::<Task<C>>::empty());
                    } else {
                        assert(idle_processors@[j]@ == pv);
                    }
                }
                assert(local_queues(idle_processors@) =~= Seq::new((i + 1) as nat, |j: int| Seq::<Task<C>>::empty()));
            }
            i = i + 1;
        }
        SharedState {
            idle_processors,
            global_queue: std::collections::VecDeque::new(),
            shutdown: false,
            active_workers: 0,
        }
    }

    /// Spawns a task: it joins the back of the global queue.
    pub fn spawn(&mut self, task: Task<C>)
        ensures
            final(self)@.global == old(self)@.global.push(task),
            final(self)@.idle == old(self)@.idle,
            final(self)@.shutdown == old(self)@.shutdown,
            final(self)@.active_workers == old(self)@.active_workers,
    {
        self.global_queue.push_back(task);
    }

    /// Whether the runtime has been shut down.
    pub fn is_shutdown(&self) -> (r: bool)
        ensures
            r == self@.shutdown,
    {
        self.shutdown
    }

    /// The number of active workers.
    pub fn active_workers(&self) -> (n: usize)
        ensures
            n == self@.active_workers,
    {
        self.active_workers
    }

    /// The number of idle processors.
    pub fn idle_processors(&self) -> (n: usize)
        ensures
            n == self@.idle.len(),
    {
        self.idle_processors.len()
    }

    /// The number of tasks in the global queue.
    pub fn global_len(&self) -> (n: usize)
        ensures
            n == self@.global.len(),
    {
        self.global_queue.len()
    }
}

impl<C> Worker<C> {
    /// A worker with no processor and no task; `scheduler_context` is where
    /// the worker loop's own registers are saved while a task runs.
    pub fn new(id: usize, scheduler_context: C) -> (w: Self)
        ensures
            w@.processor is None,
            w@.scheduler == scheduler_context,
            w@.current is None,
            !w@.current_finished,
            w@.id == id,
    {
        Worker {
            processor: None,
            scheduler_context,
            current_task: None,
            current_task_finished: false,
            id,
        }
    }

    /// Whether the worker holds a processor.
    pub fn has_processor(&self) -> (r: bool)
        ensures
            r == self@.processor is Some,
    {
        self.processor.is_some()
    }

    /// Whether a task is running on this worker.
    pub fn has_current_task(&self) -> (r: bool)
        ensures
            r == self@.current is Some,
    {
        self.current_task.is_some()
    }

    /// Release the current processor back to the pool, if the worker holds
    /// one; returns whether it did (one worker waiting for a processor may
    /// then be woken). The count of active workers is left as it is.
    pub fn release_p(&mut self, state: &mut SharedState<C>) -> (released: bool)
        ensures
            released == old(self)@.processor is Some,
            final(self)@.processor is None,
            released ==> final(state)@.idle == old(state)@.idle.push(old(self)@.processor.unwrap()),
            !released ==> final(state)@.idle == old(state)@.idle,
            same_tasks_and_flags(old(state)@, final(state)@),
            same_except_processor(old(self)@, final(self)@),
            processors(final(state)@, final(self)@) == processors(old(state)@, old(self)@),
            all_tasks(final(state)@, final(self)@) == all_tasks(old(state)@, old(self)@),
    {
        if let Some(p) = self.processor.take() {
            proof {
                lemma_local_queues_push(state.idle_processors@, p);
                lemma_queued_tasks_push(old(state)@.idle, p@);
            }
            state.idle_processors.push_back(p);
            assert(all_tasks(state@, self@) =~= all_tasks(old(state)@, old(self)@));
            true
        } else {
            false
        }
    }

    /// One attempt to acquire a processor from the pool: the front idle
    /// processor if there is one; otherwise the worker gives up when the
    /// runtime is shut down, and waits for a release when it is not.
    /// A processor the worker already held is replaced (and lost).
    pub fn acquire_p(&mut self, state: &mut SharedState<C>) -> (r: AcquireOutcome)
        ensures
            old(state)@.idle.len() > 0 <==> r is Acquired,
            r is Acquired ==> {
                &&& final(self)@.processor == Some(old(state)@.idle[0])
                &&& final(state)@.idle == old(state)@.idle.drop_first()
            },
            r is ShutDown <==> (old(state)@.idle.len() == 0 && old(state)@.shutdown),
            !(r is Acquired) ==> final(self)@ == old(self)@ && final(state)@ == old(state)@,
            same_tasks_and_flags(old(state)@, final(state)@),
            same_except_processor(old(self)@, final(self)@),
            old(self)@.processor is None ==> processors(final(state)@, final(self)@)
                == processors(old(state)@, old(self)@),
            old(self)@.processor is None ==> all_tasks(final(state)@, final(self)@)
                == all_tasks(old(state)@, old(self)@),
    {
        if let Some(p) = self.idle_front(state) {
            self.processor = Some(p);
            assert(old(self)@.processor is None ==> all_tasks(state@, self@) =~= all_tasks(
                old(state)@,
                old(self)@,
            ));
            return AcquireOutcome::Acquired;
        }
        if state.shutdown {
            return AcquireOutcome::ShutDown;
        }
        AcquireOutcome::Wait
    }

    /// Takes the processor at the front of the idle pool, if any.
    fn idle_front(&self, state: &mut SharedState<C>) -> (p: Option<Processor<C>>)
        ensures
            match p {
                Some(p) => {
                    &&& old(state)@.idle.len() > 0
                    &&& p@ == old(state)@.idle[0]
                    &&& final(state)@.idle == old(state)@.idle.drop_first()
                    &&& queued_tasks(old(state)@.idle) == p@.to_multiset().add(
                        queued_tasks(final(state)@.idle),
                    )
                },
                None => old(state)@.idle.len() == 0 && final(state)@.idle == old(state)@.idle,
            },
            same_tasks_and_flags(old(state)@, final(state)@),
    {
        proof {
            if state.idle_processors@.len() > 0 {
                lemma_local_queues_drop_first(state.idle_processors@);
                lemma_queued_tasks_drop_first(state@.idle);
            }
        }
        state.idle_processors.pop_front()
    }

    /// The worker loop's attempt to obtain a processor, made while it holds
    /// none: take an idle one and count as active; otherwise stop if the
    /// runtime is shut down; otherwise, if the global queue is empty and no
    /// worker is active, shut the runtime down and stop; otherwise wait.
    pub fn find_processor(&mut self, state: &mut SharedState<C>) -> (r: FindOutcome)
        requires
            old(self)@.processor is None,
            old(state)@.idle.len() > 0 ==> old(state)@.active_workers < usize::MAX,
        ensures
            r is Acquired <==> old(state)@.idle.len() > 0,
            r is Acquired ==> {
                &&& final(self)@.processor == Some(old(state)@.idle[0])
                &&& final(state)@.idle == old(state)@.idle.drop_first()
                &&& final(state)@.active_workers == old(state)@.active_workers + 1
                &&& final(state)@.shutdown == old(state)@.shutdown
            },
            r is Exit <==> (old(state)@.idle.len() == 0 && old(state)@.shutdown),
            r is ShutDown <==> (old(state)@.idle.len() == 0 && !old(state)@.shutdown
                && old(state)@.global.len() == 0 && old(state)@.active_workers == 0),
            r is ShutDown ==> final(state)@ == (SharedView { shutdown: true, ..old(state)@ }),
            (r is Exit || r is Wait) ==> final(state)@ == old(state)@,
            !(r is Acquired) ==> final(self)@ == old(self)@,
            final(state)@.global == old(state)@.global,
            same_except_processor(old(self)@, final(self)@),
            processors(final(state)@, final(self)@) == processors(old(state)@, old(self)@),
            shutdown_kept(old(state)@, final(state)@),
            shutdown_only_when_idle(old(state)@, final(state)@),
            (r is Exit || r is ShutDown) ==> (final(self)@.processor is None),
            all_tasks(final(state)@, final(self)@) == all_tasks(old(state)@, old(self)@),
    {
        if let Some(p) = self.idle_front(state) {
            self.processor = Some(p);
            state.active_workers = state.active_workers + 1;
            assert(all_tasks(state@, self@) =~= all_tasks(old(state)@, old(self)@));
            FindOutcome::Acquired
        } else if state.shutdown {
            FindOutcome::Exit
        } else if state.global_queue.len() == 0 && state.active_workers == 0 {
            state.shutdown = true;
            FindOutcome::ShutDown
        } else {
            FindOutcome::Wait
        }
    }

    /// Takes the task at the front of the local queue of the worker's
    /// processor: it is to be run unless it has already finished, in which
    /// case it is dropped.
    pub fn next_local_task(&mut self) -> (r: LocalOutcome<C>)
        requires
            old(self)@.processor is Some,
        ensures
            ({
                let q = old(self)@.processor.unwrap();
                match r {
                    LocalOutcome::Run(t) => {
                        &&& q.len() > 0
                        &&& t == q[0]
                        &&& !t.finished
                        &&& final(self)@.processor == Some(q.drop_first())
                    },
                    LocalOutcome::Skip => {
                        &&& q.len() > 0
                        &&& q[0].finished
                        &&& final(self)@.processor == Some(q.drop_first())
                    },
                    LocalOutcome::Empty => q.len() == 0 && final(self)@ == old(self)@,
                }
            }),
            same_except_processor(old(self)@, final(self)@),
            (match r {
                LocalOutcome::Run(t) => worker_tasks(final(self)@).insert(t) == worker_tasks(old(self)@),
                LocalOutcome::Skip => worker_tasks(final(self)@).insert(old(self)@.processor.unwrap()[0])
                    == worker_tasks(old(self)@),
                LocalOutcome::Empty => true,
            }),
    {
        proof {
            let q = old(self)@.processor.unwrap();
            if q.len() > 0 {
                lemma_seq_multiset_drop_first(q);
            }
        }
        match &mut self.processor {
            Some(p) => match p.local_queue.pop_front() {
                Some(task) => {
                    assert(worker_tasks(self@).insert(task) =~= worker_tasks(old(self)@));
                    if !task.finished {
                        LocalOutcome::Run(task)
                    } else {
                        LocalOutcome::Skip
                    }
                },
                None => LocalOutcome::Empty,
            },
            None => vstd::pervasive::unreached(),
        }
    }

    /// With the local queue empty: take the front task of the global queue
    /// to run. If there is none, the worker returns its processor to the
    /// pool and no longer counts as active; it stops if the runtime is shut
    /// down, or shuts it down and stops if it was the last active worker.
    pub fn global_step(&mut self, state: &mut SharedState<C>) -> (r: GlobalOutcome<C>)
        requires
            old(self)@.processor is Some,
            old(state)@.global.len() > 0 || old(state)@.active_workers > 0,
        ensures
            ({
                let pre = old(state)@;
                let post = final(state)@;
                let returned = SharedView {
                    idle: pre.idle.push(old(self)@.processor.unwrap()),
                    active_workers: (pre.active_workers - 1) as nat,
                    ..pre
                };
                match r {
                    GlobalOutcome::Run(t) => {
                        &&& pre.global.len() > 0
                        &&& t == pre.global[0]
                        &&& post == SharedView { global: pre.global.drop_first(), ..pre }
                        &&& final(self)@ == old(self)@
                    },
                    GlobalOutcome::Exit => {
                        &&& pre.global.len() == 0 && pre.shutdown
                        &&& post == returned
                    },
                    GlobalOutcome::ShutDown => {
                        &&& pre.global.len() == 0 && !pre.shutdown && pre.active_workers == 1
                        &&& post == SharedView { shutdown: true, ..returned }
                    },
                    GlobalOutcome::Parked => {
                        &&& pre.global.len() == 0 && !pre.shutdown && pre.active_workers > 1
                        &&& post == returned
                    },
                }
            }),
            !(r is Run) ==> (final(self)@.processor is None),
            same_except_processor(old(self)@, final(self)@),
            processors(final(state)@, final(self)@) == processors(old(state)@, old(self)@),
            shutdown_kept(old(state)@, final(state)@),
            shutdown_only_when_idle(old(state)@, final(state)@),
            (match r {
                GlobalOutcome::Run(t) => all_tasks(final(state)@, final(self)@).insert(t)
                    == all_tasks(old(state)@, old(self)@),
                _ => all_tasks(final(state)@, final(self)@) == all_tasks(old(state)@, old(self)@),
            }),
    {
        if let Some(task) = state.global_queue.pop_front() {
            proof {
                lemma_seq_multiset_drop_first(old(state)@.global);
            }
            assert(all_tasks(state@, self@).insert(task) =~= all_tasks(old(state)@, old(self)@));
            return GlobalOutcome::Run(task);
        }
        if state.shutdown {
            if let Some(p) = self.processor.take() {
                proof {
                    lemma_local_queues_push(state.idle_processors@, p);
                    lemma_queued_tasks_push(state@.idle, p@);
                }
                state.idle_processors.push_back(p);
                state.active_workers = state.active_workers - 1;
            }
            assert(all_tasks(state@, self@) =~= all_tasks(old(state)@, old(self)@));
            return GlobalOutcome::Exit;
        }
        if let Some(p) = self.processor.take() {
            proof {
                lemma_local_queues_push(state.idle_processors@, p);
                lemma_queued_tasks_push(state@.idle, p@);
            }
            state.idle_processors.push_back(p);
            state.active_workers = state.active_workers - 1;
        }
        assert(all_tasks(state@, self@) =~= all_tasks(old(state)@, old(self)@));
        if state.active_workers == 0 && state.global_queue.len() == 0 {
            state.shutdown = true;
            return GlobalOutcome::ShutDown;
        }
        GlobalOutcome::Parked
    }

    /// Makes `task` the running task, not yet reported finished.
    pub fn start_task(&mut self, task: Task<C>)
        ensures
            final(self)@ == (WorkerView { current: Some(task), current_finished: false, ..old(self)@ }),
            old(self)@.current is None ==> worker_tasks(final(self)@) == worker_tasks(old(self)@).insert(task),
    {
        self.current_task = Some(task);
        self.current_task_finished = false;
    }

    /// Back in the worker loop after switching to the running task: it is
    /// taken out; a task that yielded joins the back of the local queue of
    /// the worker's processor (it is dropped if the worker holds none), a
    /// task that finished is dropped.
    pub fn finish_task(&mut self)
        ensures
            final(self)@.current is None,
            final(self)@.scheduler == old(self)@.scheduler,
            final(self)@.current_finished == old(self)@.current_finished,
            final(self)@.id == old(self)@.id,
            final(self)@.processor == (match (old(self)@.current, old(self)@.processor) {
                (Some(t), Some(q)) => if old(self)@.current_finished {
                    Some(q)
                } else {
                    Some(q.push(t))
                },
                _ => old(self)@.processor,
            }),
            worker_tasks(final(self)@) == (match old(self)@.current {
                Some(t) => if !old(self)@.current_finished && old(self)@.processor is Some {
                    worker_tasks(old(self)@)
                } else {
                    worker_tasks(old(self)@).remove(t)
                },
                None => worker_tasks(old(self)@),
            }),
    {
        broadcast use vstd::seq_lib::group_to_multiset_ensures;
        if let Some(task) = self.current_task.take() {
            if !self.current_task_finished {
                if let Some(p) = &mut self.processor {
                    p.local_queue.push_back(task);
                }
            }
            assert(worker_tasks(self@) =~= (if !old(self)@.current_finished && old(self)@.processor is Some {
                worker_tasks(old(self)@)
            } else {
                worker_tasks(old(self)@).remove(task)
            }));
        }
    }

    /// Called when the running task's function has returned.
    pub fn task_finished(&mut self)
        ensures
            final(self)@ == (WorkerView { current_finished: true, ..old(self)@ }),
    {
        self.current_task_finished = true;
    }

    /// The two contexts of the switch from the worker loop into the running
    /// task: the loop's registers are saved into the first, the task's are
    /// restored from the second.
    pub fn switch_to_task(&mut self) -> (ctxs: (&mut C, &C))
        requires
            old(self)@.current is Some,
        ensures
            *ctxs.0 == old(self)@.scheduler,
            *ctxs.1 == old(self)@.current.unwrap().context,
            final(self)@ == (WorkerView { scheduler: *final(ctxs.0), ..old(self)@ }),
    {
        match &self.current_task {
            Some(task) => (&mut self.scheduler_context, &task.context),
            None => vstd::pervasive::unreached(),
        }
    }

    /// The two contexts of the switch from the running task back to the
    /// worker loop (on a yield, or once the task has finished): the task's
    /// registers are saved into the first, the loop's are restored from the
    /// second. With no running task there is nothing to switch from:
    /// `None`, and nothing changes.
    pub fn switch_to_scheduler(&mut self) -> (ctxs: Option<(&mut C, &C)>)
        ensures
            ctxs is None <==> old(self)@.current is None,
            ctxs is None ==> final(self)@ == old(self)@,
            ctxs matches Some(c) ==> {
                &&& *c.0 == old(self)@.current.unwrap().context
                &&& *c.1 == old(self)@.scheduler
                &&& final(self)@ == (WorkerView {
                    current: Some(Task { context: *final(c.0), ..old(self)@.current.unwrap() }),
                    ..old(self)@
                })
            },
    {
        match &mut self.current_task {
            Some(task) => Some((&mut task.context, &self.scheduler_context)),
            None => None,
        }
    }

    /// Spawns a task from within a running task: it joins the back of the
    /// global queue.
    pub fn spawn(&self, state: &mut SharedState<C>, task: Task<C>)
        ensures
            final(state)@ == (SharedView { global: old(state)@.global.push(task), ..old(state)@ }),
            all_tasks(final(state)@, self@) == all_tasks(old(state)@, self@).insert(task),
    {
        broadcast use vstd::seq_lib::group_to_multiset_ensures;
        state.spawn(task);
        assert(all_tasks(state@, self@) =~= all_tasks(old(state)@, self@).insert(task));
    }
}

} // verus!
