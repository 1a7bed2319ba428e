//! N:1 green thread runtime: every task runs on one OS thread, taken in
//! turn from a single FIFO run queue.
//!
//! The worker loop alternates between picking the next task
//! ([`Worker::schedule`]), switching to it, and putting it back at the end of
//! the queue when it yields ([`Worker::reclaim`]); a task that has finished
//! is dropped instead.
use vstd::prelude::*;
use crate::task::Task;

verus! {

/// The scheduling state of an N:1 worker.
pub struct Worker<C> {
    /// Queue of runnable tasks
    tasks: std::collections::VecDeque<Task<C>>,
    /// Context to return to when a task yields
    context: C,
    /// Currently running task
    current_task: Option<Task<C>>,
}

/// What a worker holds: the run queue, front first, and the task that is
/// running, if any.
pub struct WorkerView<C> {
    pub queue: Seq<Task<C>>,
    pub current: Option<Task<C>>,
}

impl<C> View for Worker<C> {
    type V = WorkerView<C>;

    closed spec fn view(&self) -> WorkerView<C> {
        WorkerView { queue: self.tasks@, current: self.current_task }
    }
}

impl<C> Worker<C> {
    /// The saved context of the worker loop itself.
    pub closed spec fn scheduler_context(&self) -> C {
        self.context
    }
}

/// The state after the worker loop picks the next task: the front of the
/// queue becomes the current task. With an empty queue nothing changes (and
/// the loop ends).
pub open spec fn dispatched<C>(w: WorkerView<C>) -> WorkerView<C> {
    if w.queue.len() == 0 {
        w
    } else {
        WorkerView { queue: w.queue.drop_first(), current: Some(w.queue[0]) }
    }
}

/// The state after control comes back to the worker loop: the current task
/// is taken out, and put at the back of the queue unless it has finished.
pub open spec fn reclaimed<C>(w: WorkerView<C>) -> WorkerView<C> {
    match w.current {
        Some(t) => if t.finished {
            WorkerView { queue: w.queue, current: None }
        } else {
            WorkerView { queue: w.queue.push(t), current: None }
        },
        None => w,
    }
}

/// The state after `task` is spawned: it joins the back of the queue.
pub open spec fn spawned<C>(w: WorkerView<C>, task: Task<C>) -> WorkerView<C> {
    WorkerView { queue: w.queue.push(task), current: w.current }
}

/// The state after the current task reports that its function returned.
pub open spec fn marked_finished<C>(w: WorkerView<C>) -> WorkerView<C>
    recommends
        w.current is Some,
{
    WorkerView {
        queue: w.queue,
        current: Some(Task { finished: true, ..w.current.unwrap() }),
    }
}

/// `tasks` spawned one after another, in order.
pub open spec fn spawned_all<C>(w: WorkerView<C>, tasks: Seq<Task<C>>) -> WorkerView<C>
    decreases tasks.len(),
{
    if tasks.len() == 0 {
        w
    } else {
        spawned(spawned_all(w, tasks.drop_last()), tasks.last())
    }
}

/// The state after the running task's registers are saved into its
/// context, as [`gosched`] does when it switches back to the worker loop.
pub open spec fn saved<C>(w: WorkerView<C>, ctx: C) -> WorkerView<C> {
    match w.current {
        Some(t) => WorkerView { queue: w.queue, current: Some(Task { context: ctx, ..t }) },
        None => w,
    }
}

/// The tasks `ts` with their contexts replaced by `cs`, one for one.
pub open spec fn with_contexts<C>(ts: Seq<Task<C>>, cs: Seq<C>) -> Seq<Task<C>> {
    Seq::new(ts.len(), |i: int| Task { context: cs[i], ..ts[i] })
}

/// One turn of the worker loop in which the task that runs yields, leaving
/// `ctx` as its saved registers.
pub open spec fn turn<C>(w: WorkerView<C>, ctx: C) -> WorkerView<C> {
    reclaimed(saved(dispatched(w), ctx))
}

/// `k` turns of the worker loop in a row, every task yielding; in turn `i`
/// the registers saved are `ctxs[i]`.
pub open spec fn turns<C>(w: WorkerView<C>, ctxs: Seq<C>, k: nat) -> WorkerView<C>
    decreases k,
{
    if k == 0 {
        w
    } else {
        turn(turns(w, ctxs, (k - 1) as nat), ctxs[k - 1])
    }
}

/// No task in the queue has finished.
pub open spec fn all_runnable<C>(q: Seq<Task<C>>) -> bool {
    forall|i: int| 0 <= i < q.len() ==> !(#[trigger] q[i]).finished
}

/// Spawning a sequence of tasks appends them to the queue in order and
/// leaves the current task alone.
pub proof fn lemma_spawned_all<C>(w: WorkerView<C>, tasks: Seq<Task<C>>)
    ensures
        spawned_all(w, tasks).queue == w.queue + tasks,
        spawned_all(w, tasks).current == w.current,
    decreases tasks.len(),
{
    if tasks.len() > 0 {
        lemma_spawned_all(w, tasks.drop_last());
        assert(w.queue + tasks.drop_last() + seq![tasks.last()] =~= w.queue + tasks);
    }
}

/// A task that yields goes to the back of the queue, carrying the registers
/// it saved: behind every task that was waiting when it was picked, and
/// behind every task spawned while it ran.
pub proof fn lemma_yield_requeues_at_back<C>(w: WorkerView<C>, children: Seq<Task<C>>, ctx: C)
    requires
        w.queue.len() > 0,
        !w.queue[0].finished,
    ensures
        reclaimed(saved(spawned_all(dispatched(w), children), ctx)).queue
            == w.queue.drop_first() + children + seq![Task { context: ctx, ..w.queue[0] }],
        reclaimed(saved(spawned_all(dispatched(w), children), ctx)).current is None,
{
    lemma_spawned_all(dispatched(w), children);
}

/// A task that finishes is dropped: the rest of the queue, and any task it
/// spawned, stay in order.
pub proof fn lemma_finished_task_dropped<C>(w: WorkerView<C>, children: Seq<Task<C>>, ctx: C)
    requires
        w.queue.len() > 0,
    ensures
        reclaimed(saved(marked_finished(spawned_all(dispatched(w), children)), ctx)).queue
            == w.queue.drop_first() + children,
        reclaimed(saved(marked_finished(spawned_all(dispatched(w), children)), ctx)).current is None,
{
    lemma_spawned_all(dispatched(w), children);
}

/// Round robin: when every task yields, after `k` turns the first `k` tasks
/// have moved, in order, from the front of the queue to its back (each with
/// the registers it saved), and the task picked in turn `k` is the one that
/// was `k`-th in line.
pub proof fn lemma_round_robin<C>(w: WorkerView<C>, ctxs: Seq<C>, k: nat)
    requires
        w.current is None,
        all_runnable(w.queue),
        k <= w.queue.len(),
        k <= ctxs.len(),
    ensures
        turns(w, ctxs, k).queue == w.queue.skip(k as int) + with_contexts(
            w.queue.take(k as int),
            ctxs.take(k as int),
        ),
        turns(w, ctxs, k).current is None,
        k < w.queue.len() ==> dispatched(turns(w, ctxs, k)).current == Some(w.queue[k as int]),
    decreases k,
{
    if k > 0 {
        let j = (k - 1) as nat;
        lemma_round_robin(w, ctxs, j);
        let prev = turns(w, ctxs, j);
        assert(prev.queue[0] == w.queue[j as int]);
        assert(prev.queue.drop_first() + seq![Task { context: ctxs[j as int], ..prev.queue[0] }]
            =~= w.queue.skip(k as int) + with_contexts(w.queue.take(k as int), ctxs.take(k as int)));
    }
    if k < w.queue.len() {
        assert(turns(w, ctxs, k).queue[0] == w.queue[k as int]);
    }
}

/// After as many turns as there are tasks, with every task yielding, each
/// task has run once and the queue is back in its original order, each task
/// carrying the registers it saved.
pub proof fn lemma_full_round_restores_order<C>(w: WorkerView<C>, ctxs: Seq<C>)
    requires
        w.current is None,
        all_runnable(w.queue),
        ctxs.len() == w.queue.len(),
    ensures
        turns(w, ctxs, w.queue.len()).queue == with_contexts(w.queue, ctxs),
        turns(w, ctxs, w.queue.len()).current is None,
{
    lemma_round_robin(w, ctxs, w.queue.len());
    assert(w.queue.skip(w.queue.len() as int) + with_contexts(
        w.queue.take(w.queue.len() as int),
        ctxs.take(w.queue.len() as int),
    ) =~= with_contexts(w.queue, ctxs));
}

/// One turn of the worker loop in general: the front task runs, spawns
/// `children`, then either finishes (`finishes`) or yields, and leaves `ctx`
/// as its saved registers.
pub open spec fn general_turn<C>(
    w: WorkerView<C>,
    ctx: C,
    finishes: bool,
    children: Seq<Task<C>>,
) -> WorkerView<C> {
    let running = spawned_all(dispatched(w), children);
    reclaimed(saved(if finishes { marked_finished(running) } else { running }, ctx))
}

/// `k` turns of the worker loop in a row, turn `i` going as `ctxs[i]`,
/// `finishes[i]` and `children[i]` say.
pub open spec fn turns_with<C>(
    w: WorkerView<C>,
    ctxs: Seq<C>,
    finishes: Seq<bool>,
    children: Seq<Seq<Task<C>>>,
    k: nat,
) -> WorkerView<C>
    decreases k,
{
    if k == 0 {
        w
    } else {
        let prev = turns_with(w, ctxs, finishes, children, (k - 1) as nat);
        general_turn(prev, ctxs[k - 1], finishes[k - 1], children[k - 1])
    }
}

/// First in, first out, whatever the tasks do: however each task that runs
/// behaves (yields or finishes, spawns children or not, saves whatever
/// registers), the tasks queued at the start stay at the front of the queue
/// in their order, and turn `k` runs the task that was `k`-th in line.
/// Tasks spawned or requeued along the way all go behind them.
pub proof fn lemma_fifo<C>(
    w: WorkerView<C>,
    ctxs: Seq<C>,
    finishes: Seq<bool>,
    children: Seq<Seq<Task<C>>>,
    k: nat,
)
    requires
        w.current is None,
        k <= w.queue.len(),
        k <= ctxs.len(),
        k <= finishes.len(),
        k <= children.len(),
    ensures
        turns_with(w, ctxs, finishes, children, k).current is None,
        turns_with(w, ctxs, finishes, children, k).queue.len() >= w.queue.len() - k,
        turns_with(w, ctxs, finishes, children, k).queue.take(w.queue.len() - k) == w.queue.skip(
            k as int,
        ),
        k < w.queue.len() ==> dispatched(turns_with(w, ctxs, finishes, children, k)).current
            == Some(w.queue[k as int]),
    decreases k,
{
    let n = w.queue.len();
    if k > 0 {
        let j = (k - 1) as nat;
        lemma_fifo(w, ctxs, finishes, children, j);
        let prev = turns_with(w, ctxs, finishes, children, j);
        let q = prev.queue;
        let kids = children[j as int];
        lemma_spawned_all(dispatched(prev), kids);
        let after = turns_with(w, ctxs, finishes, children, k);
        assert(after.queue.take(n - k) =~= q.drop_first().take(n - k));
        assert(q.drop_first().take(n - k) =~= q.take(n - j).drop_first());
        assert(w.queue.skip(j as int).drop_first() =~= w.queue.skip(k as int));
    }
    if k < n {
        let now = turns_with(w, ctxs, finishes, children, k);
        assert(now.queue.take(n - k)[0] == now.queue[0]);
        assert(w.queue.skip(k as int)[0] == w.queue[k as int]);
    }
}

/// A task that yields waits exactly for the tasks ahead of it: it is
/// requeued, with the registers it saved, behind every task waiting when it
/// yielded (and every child it spawned); those tasks each run once, in
/// order, in the turns that follow, whatever they do; and the turn after
/// them runs the yielding task again, before any task queued after its
/// yield.
pub proof fn lemma_yield_waits_for_tasks_ahead<C>(
    w: WorkerView<C>,
    spawned_while_running: Seq<Task<C>>,
    saved_ctx: C,
    ctxs: Seq<C>,
    finishes: Seq<bool>,
    children: Seq<Seq<Task<C>>>,
    k: nat,
)
    requires
        w.current is None,
        w.queue.len() > 0,
        !w.queue[0].finished,
        k <= w.queue.len() - 1 + spawned_while_running.len(),
        k <= ctxs.len(),
        k <= finishes.len(),
        k <= children.len(),
    ensures
        ({
            let yielded = reclaimed(saved(spawned_all(dispatched(w), spawned_while_running), saved_ctx));
            let ahead = w.queue.drop_first() + spawned_while_running;
            let me = Task { context: saved_ctx, ..w.queue[0] };
            &&& yielded.queue == ahead + seq![me]
            &&& k < ahead.len() ==> dispatched(turns_with(yielded, ctxs, finishes, children, k)).current
                == Some(ahead[k as int])
            &&& k == ahead.len() ==> dispatched(turns_with(yielded, ctxs, finishes, children, k)).current
                == Some(me)
        }),
{
    lemma_yield_requeues_at_back(w, spawned_while_running, saved_ctx);
    let yielded = reclaimed(saved(spawned_all(dispatched(w), spawned_while_running), saved_ctx));
    lemma_fifo(yielded, ctxs, finishes, children, k);
}

/// What the task that runs in one turn does: it spawns `children` (child
/// `i` will yield `child_yields[i]` times and then finish), and switches
/// back with `ctx` as its saved registers.
pub struct TurnPlan<C> {
    pub ctx: C,
    pub children: Seq<Task<C>>,
    pub child_yields: Seq<nat>,
}

/// A plan that spawns tasks that have not finished, each with its yields.
pub open spec fn plan_wf<C>(p: TurnPlan<C>) -> bool {
    p.child_yields.len() == p.children.len() && all_runnable(p.children)
}

/// A run of the worker loop in which every task yields a given number of
/// times and then finishes: the worker, the number of yields each queued
/// task has left (in queue order), how many tasks have finished, and how
/// many have been spawned during the run.
pub struct BudgetRun<C> {
    pub worker: WorkerView<C>,
    pub yields_left: Seq<nat>,
    pub finished: nat,
    pub spawned: nat,
}

/// One turn of such a run: the front task spawns the plan's children, then
/// yields if it has yields left and finishes otherwise, saving the plan's
/// context. With an empty queue there is no turn (the loop has stopped).
pub open spec fn budget_turn<C>(r: BudgetRun<C>, p: TurnPlan<C>) -> BudgetRun<C> {
    if r.worker.queue.len() == 0 {
        r
    } else {
        let running = spawned_all(dispatched(r.worker), p.children);
        let rest = r.yields_left.drop_first() + p.child_yields;
        if r.yields_left[0] == 0 {
            BudgetRun {
                worker: reclaimed(saved(marked_finished(running), p.ctx)),
                yields_left: rest,
                finished: r.finished + 1,
                spawned: r.spawned + p.children.len(),
            }
        } else {
            BudgetRun {
                worker: reclaimed(saved(running, p.ctx)),
                yields_left: rest.push((r.yields_left[0] - 1) as nat),
                finished: r.finished,
                spawned: r.spawned + p.children.len(),
            }
        }
    }
}

/// `k` turns of such a run, turn `i` going as `plan[i]` says.
pub open spec fn budget_turns<C>(r: BudgetRun<C>, plan: Seq<TurnPlan<C>>, k: nat) -> BudgetRun<C>
    decreases k,
{
    if k == 0 {
        r
    } else {
        budget_turn(budget_turns(r, plan, (k - 1) as nat), plan[k - 1])
    }
}

/// How many turns the tasks still need: each its yields left, plus one to
/// finish.
pub open spec fn turns_needed(yields_left: Seq<nat>) -> nat
    decreases yields_left.len(),
{
    if yields_left.len() == 0 {
        0
    } else {
        turns_needed(yields_left.drop_first()) + yields_left[0] + 1
    }
}

/// The turns needed by all the children of the first `k` turns of a plan.
pub open spec fn planned_work<C>(plan: Seq<TurnPlan<C>>, k: nat) -> nat
    decreases k,
{
    if k == 0 {
        0
    } else {
        planned_work(plan, (k - 1) as nat) + turns_needed(plan[k - 1].child_yields)
    }
}

pub(crate) proof fn lemma_turns_needed_add(a: Seq<nat>, b: Seq<nat>)
    ensures
        turns_needed(a + b) == turns_needed(a) + turns_needed(b),
    decreases a.len(),
{
    if a.len() == 0 {
        assert(a + b =~= b);
    } else {
        lemma_turns_needed_add(a.drop_first(), b);
        assert((a + b).drop_first() =~= a.drop_first() + b);
        assert((a + b)[0] == a[0]);
    }
}

pub(crate) proof fn lemma_turns_needed_push(ys: Seq<nat>, y: nat)
    ensures
        turns_needed(ys.push(y)) == turns_needed(ys) + y + 1,
{
    lemma_turns_needed_add(ys, seq![y]);
    assert(ys + seq![y] =~= ys.push(y));
    assert(seq![y].drop_first() =~= Seq::<nat>::empty());
    assert(turns_needed(seq![y]) == turns_needed(seq![y].drop_first()) + seq![y][0] + 1);
}

proof fn lemma_turns_needed_at_least_len(ys: Seq<nat>)
    ensures
        turns_needed(ys) >= ys.len(),
    decreases ys.len(),
{
    if ys.len() > 0 {
        lemma_turns_needed_at_least_len(ys.drop_first());
    }
}

/// The state of a run that holds: the worker runs no task, its queued tasks
/// have not finished, and the yields left match the queue one for one.
pub open spec fn budget_wf<C>(r: BudgetRun<C>) -> bool {
    &&& r.worker.current is None
    &&& all_runnable(r.worker.queue)
    &&& r.yields_left.len() == r.worker.queue.len()
}

proof fn lemma_budget_turn<C>(r: BudgetRun<C>, p: TurnPlan<C>)
    requires
        budget_wf(r),
        plan_wf(p),
        r.worker.queue.len() > 0,
    ensures
        budget_wf(budget_turn(r, p)),
        turns_needed(budget_turn(r, p).yields_left) + 1 == turns_needed(r.yields_left) + turns_needed(
            p.child_yields,
        ),
        budget_turn(r, p).finished + budget_turn(r, p).worker.queue.len() == r.finished
            + r.worker.queue.len() + p.children.len(),
        budget_turn(r, p).spawned == r.spawned + p.children.len(),
{
    let q = r.worker.queue;
    let n = budget_turn(r, p);
    let running = spawned_all(dispatched(r.worker), p.children);
    lemma_spawned_all(dispatched(r.worker), p.children);
    lemma_turns_needed_add(r.yields_left.drop_first(), p.child_yields);
    assert(turns_needed(r.yields_left) == turns_needed(r.yields_left.drop_first()) + r.yields_left[0] + 1);
    if r.yields_left[0] == 0 {
        assert(n.worker.queue =~= q.drop_first() + p.children);
    } else {
        lemma_turns_needed_push(r.yields_left.drop_first() + p.child_yields, (r.yields_left[0] - 1) as nat);
        assert(n.worker.queue =~= q.drop_first() + p.children + seq![Task { context: p.ctx, ..q[0] }]);
    }
    assert forall|i: int| 0 <= i < n.worker.queue.len() implies !(#[trigger] n.worker.queue[i]).finished by {
        if i < q.len() - 1 {
            assert(n.worker.queue[i] == q[i + 1]);
        } else if i < q.len() - 1 + p.children.len() {
            assert(n.worker.queue[i] == p.children[i - (q.len() - 1)]);
        }
    }
}

proof fn lemma_budget_turns<C>(r: BudgetRun<C>, plan: Seq<TurnPlan<C>>, k: nat)
    requires
        budget_wf(r),
        k <= plan.len(),
        forall|i: int| 0 <= i < plan.len() ==> plan_wf(#[trigger] plan[i]),
    ensures
        budget_wf(budget_turns(r, plan, k)),
        budget_turns(r, plan, k).finished + budget_turns(r, plan, k).worker.queue.len()
            == r.finished + r.worker.queue.len() + budget_turns(r, plan, k).spawned - r.spawned,
        budget_turns(r, plan, k).spawned >= r.spawned,
        budget_turns(r, plan, k).worker.queue.len() == 0 || turns_needed(
            budget_turns(r, plan, k).yields_left,
        ) + k == turns_needed(r.yields_left) + planned_work(plan, k),
    decreases k,
{
    if k > 0 {
        let j = (k - 1) as nat;
        lemma_budget_turns(r, plan, j);
        let prev = budget_turns(r, plan, j);
        if prev.worker.queue.len() > 0 {
            lemma_budget_turn(prev, plan[j as int]);
        }
    }
}

/// The worker loop runs until all tasks have completed, each exactly once,
/// also when tasks spawn others while they run: when every queued task, and
/// every task spawned during the run, yields finitely often and then
/// finishes, then once the run has taken as many turns as all these tasks
/// need, the queue is empty (so [`Worker::schedule`] returns `false` and the
/// loop stops), no task is running, and exactly as many tasks have finished
/// as were queued at the start plus spawned during the run.
pub proof fn lemma_all_tasks_complete<C>(r: BudgetRun<C>, plan: Seq<TurnPlan<C>>, k: nat)
    requires
        budget_wf(r),
        r.finished == 0,
        r.spawned == 0,
        k <= plan.len(),
        forall|i: int| 0 <= i < plan.len() ==> plan_wf(#[trigger] plan[i]),
        turns_needed(r.yields_left) + planned_work(plan, k) <= k,
    ensures
        ({
            let end = budget_turns(r, plan, k);
            &&& end.worker.queue.len() == 0
            &&& end.worker.current is None
            &&& end.finished == r.worker.queue.len() + end.spawned
            &&& dispatched(end.worker) == end.worker
        }),
{
    lemma_budget_turns(r, plan, k);
    let end = budget_turns(r, plan, k);
    lemma_turns_needed_at_least_len(end.yields_left);
}

impl<C> Worker<C> {
    /// A worker with no tasks; `context` is where the worker loop's own
    /// registers are saved while a task runs.
    pub fn new(context: C) -> (w: Self)
        ensures
            w@.queue == Seq::<Task<C>>::empty(),
            w@.current is None,
            w.scheduler_context() == context,
    {
        Worker { tasks: std::collections::VecDeque::new(), context, current_task: None }
    }

    /// Whether a task is running on this worker.
    pub fn has_current_task(&self) -> (r: bool)
        ensures
            r == self@.current is Some,
    {
        self.current_task.is_some()
    }

    /// Takes the task at the front of the queue and makes it the current
    /// task; returns `false`, changing nothing, when the queue is empty (the
    /// worker loop then ends).
    pub fn schedule(&mut self) -> (ran: bool)
        ensures
            ran == (old(self)@.queue.len() > 0),
            final(self)@ == dispatched(old(self)@),
            final(self).scheduler_context() == old(self).scheduler_context(),
    {
        match self.tasks.pop_front() {
            Some(task) => {
                self.current_task = Some(task);
                true
            },
            None => false,
        }
    }

    /// Back in the worker loop after a switch: the current task is taken
    /// out and, if it only yielded, put back at the end of the queue; a
    /// finished task is dropped.
    pub fn reclaim(&mut self)
        ensures
            final(self)@ == reclaimed(old(self)@),
            final(self).scheduler_context() == old(self).scheduler_context(),
    {
        if let Some(task) = self.current_task.take() {
            if !task.finished {
                self.tasks.push_back(task);
            }
        }
    }

    /// The two contexts of a switch from the worker loop into the current
    /// task: the worker loop's registers are saved into the first, the
    /// task's are restored from the second.
    pub fn switch_to_task(&mut self) -> (ctxs: (&mut C, &C))
        requires
            old(self)@.current is Some,
        ensures
            *ctxs.0 == old(self).scheduler_context(),
            *ctxs.1 == old(self)@.current.unwrap().context,
            final(self)@ == old(self)@,
            final(self).scheduler_context() == *final(ctxs.0),
    {
        match &self.current_task {
            Some(task) => (&mut self.context, &task.context),
            None => vstd::pervasive::unreached(),
        }
    }
}

/// Spawns a task: it is put at the back of the worker's run queue.
///
/// Can be called before the worker loop starts, to register initial tasks,
/// or from within a running task, to spawn child tasks.
pub fn go<C>(worker: &mut Worker<C>, task: Task<C>)
    ensures
        final(worker)@ == spawned(old(worker)@, task),
        final(worker).scheduler_context() == old(worker).scheduler_context(),
{
    worker.tasks.push_back(task);
}

/// Yield execution to another green thread: the two contexts of the switch
/// from the current task back to the worker loop. The task's registers are
/// saved into the first, the worker loop's are restored from the second;
/// the loop then requeues the task ([`Worker::reclaim`]).
pub fn gosched<C>(worker: &mut Worker<C>) -> (ctxs: (&mut C, &C))
    requires
        old(worker)@.current is Some,
    ensures
        *ctxs.0 == old(worker)@.current.unwrap().context,
        *ctxs.1 == old(worker).scheduler_context(),
        final(worker)@.queue == old(worker)@.queue,
        final(worker)@.current == Some(Task { context: *final(ctxs.0), ..old(worker)@.current.unwrap() }),
        final(worker).scheduler_context() == old(worker).scheduler_context(),
{
    match &mut worker.current_task {
        Some(task) => (&mut task.context, &worker.context),
        None => vstd::pervasive::unreached(),
    }
}

/// Called when the current task's function has returned: marks it
/// finished, so that the worker loop drops it instead of requeueing it.
pub fn task_finished<C>(worker: &mut Worker<C>)
    requires
        old(worker)@.current is Some,
    ensures
        final(worker)@ == marked_finished(old(worker)@),
        final(worker).scheduler_context() == old(worker).scheduler_context(),
{
    match &mut worker.current_task {
        Some(task) => {
            task.finished = true;
        },
        None => {},
    }
}

} // verus!
