//! Green threads: a coroutine-backed round-robin runtime, and the scheduling
//! state machines of the N:1, M:N and GMP runtimes built on raw context
//! switching.
//!
//! The runtime in this file keeps its tasks as `corosensei` coroutines in a
//! FIFO queue: the task at the front is resumed; if it suspends itself it
//! goes to the back of the queue, and if it returns it is dropped.
use corosensei::{Coroutine, CoroutineResult, Yielder};
use vstd::prelude::*;

pub mod context;
pub mod gmp;
pub mod mn;
pub mod n1;
pub mod task;

verus! {

/// One task of the runtime: a `corosensei` coroutine that takes, yields
/// and returns `()`, with the stack it runs on. Its state is reached only
/// through [`coroutine_done`] and [`coroutine_started`]: whether it has
/// returned, and whether it has been resumed at least once.
#[verifier::external_body]
pub struct CoTask {
    inner: Coroutine<(), (), ()>,
}

#[verifier::external_type_specification]
#[verifier::external_body]
#[verifier::reject_recursive_types(Input)]
#[verifier::reject_recursive_types(Yield)]
pub struct ExYielder<Input, Yield>(Yielder<Input, Yield>);

/// Whether a coroutine has finished executing (`Coroutine::done`): it has
/// returned from its function and can no longer be resumed.
pub uninterp spec fn coroutine_done(task: CoTask) -> bool;

/// Whether a coroutine has been resumed at least once
/// (`Coroutine::started`: its saved stack pointer is no longer the initial
/// one, which a suspended coroutine can never return to, and a finished one
/// has none).
pub uninterp spec fn coroutine_started(task: CoTask) -> bool;

/// `Coroutine::new`: a coroutine on a freshly allocated default stack that
/// runs `body` when first resumed. A new coroutine has not finished and
/// has not been started (its saved stack pointer is set, to the initial
/// one). Allocation failure of the stack panics inside the crate; nothing
/// else is claimed of the result.
#[verifier::external_body]
fn coroutine_new<F>(body: F) -> (task: CoTask)
    where
        F: FnOnce(&Yielder<(), ()>, ()) + 'static,
    ensures
        !coroutine_done(task),
        !coroutine_started(task),
{
    CoTask { inner: Coroutine::new(body) }
}

/// `Coroutine::resume`: runs the coroutine until it suspends itself
/// (`true`, `CoroutineResult::Yield`) or returns (`false`,
/// `CoroutineResult::Return`). It panics on a coroutine that has finished,
/// hence the `requires`; afterwards the coroutine has been started, and has
/// finished exactly when it returned. What the coroutine's own code does is
/// that code's: a panic in it propagates out of this call, and code that
/// never suspends nor returns keeps the call from returning; no state of the
/// coroutine tells those cases apart beforehand, so no `requires` leaves
/// them out.
#[verifier::external_body]
fn coroutine_resume(task: &mut CoTask) -> (yielded: bool)
    requires
        !coroutine_done(*old(task)),
    ensures
        yielded == !coroutine_done(*final(task)),
        coroutine_started(*final(task)),
{
    match task.inner.resume(()) {
        CoroutineResult::Yield(()) => true,
        CoroutineResult::Return(()) => false,
    }
}

/// A round-robin runtime of coroutine tasks.
pub struct Runtime {
    tasks: std::collections::VecDeque<CoTask>,
}

impl View for Runtime {
    type V = Seq<CoTask>;

    closed spec fn view(&self) -> Seq<CoTask> {
        self.tasks@
    }
}

/// No task in the queue has finished.
pub open spec fn all_resumable(tasks: Seq<CoTask>) -> bool {
    forall|i: int| 0 <= i < tasks.len() ==> !coroutine_done(#[trigger] tasks[i])
}

impl Runtime {
    #[verifier::type_invariant]
    spec fn queue_resumable(self) -> bool {
        all_resumable(self.tasks@)
    }

    /// An empty runtime.
    pub fn new() -> (rt: Self)
        ensures
            rt@ == Seq::<CoTask>::empty(),
    {
        Runtime { tasks: std::collections::VecDeque::new() }
    }

    /// Spawns a task that runs `body` (which receives the coroutine's
    /// yielder, through which it suspends itself): it joins the back of the
    /// queue.
    pub fn go<F>(&mut self, body: F)
        where
            F: FnOnce(&Yielder<(), ()>, ()) + 'static,
        ensures
            final(self)@.len() == old(self)@.len() + 1,
            final(self)@.drop_last() == old(self)@,
            !coroutine_done(final(self)@.last()),
            !coroutine_started(final(self)@.last()),
    {
        let task = coroutine_new(body);
        self.requeue(task);
    }

    /// Puts a task that can still be resumed at the back of the queue.
    pub fn requeue(&mut self, task: CoTask)
        requires
            !coroutine_done(task),
        ensures
            final(self)@ == old(self)@.push(task),
    {
        proof {
            use_type_invariant(&*self);
        }
        let mut tasks = std::collections::VecDeque::new();
        std::mem::swap(&mut tasks, &mut self.tasks);
        tasks.push_back(task);
        self.tasks = tasks;
    }

    /// Takes the task at the front of the queue; `None` when the queue is
    /// empty (the runtime then has nothing left to run).
    pub fn next_task(&mut self) -> (task: Option<CoTask>)
        ensures
            match task {
                Some(t) => {
                    &&& old(self)@.len() > 0
                    &&& t == old(self)@[0]
                    &&& final(self)@ == old(self)@.drop_first()
                    &&& !coroutine_done(t)
                },
                None => old(self)@.len() == 0 && final(self)@ == old(self)@,
            },
    {
        proof {
            use_type_invariant(&*self);
        }
        let mut tasks = std::collections::VecDeque::new();
        std::mem::swap(&mut tasks, &mut self.tasks);
        let task = tasks.pop_front();
        self.tasks = tasks;
        task
    }
}

impl Default for Runtime {
    fn default() -> (rt: Self)
        ensures
            rt@ == Seq::<CoTask>::empty(),
    {
        Runtime::new()
    }
}

/// Resumes a task until it suspends itself or returns: `true` when it
/// suspended (it can be resumed again, and goes back to the queue with
/// [`keep_if_suspended`] and [`Runtime::requeue`]), `false` when it returned
/// (it has finished).
pub fn run_task(task: &mut CoTask) -> (yielded: bool)
    requires
        !coroutine_done(*old(task)),
    ensures
        yielded == !coroutine_done(*final(task)),
        coroutine_started(*final(task)),
{
    coroutine_resume(task)
}

/// The queue after one turn of the runtime: the front task is taken and
/// resumed, ending up as `resumed`; the tasks spawned while it ran join the
/// back; then the task, if it suspended, goes last, and if it returned it is
/// gone.
pub open spec fn after_turn(q: Seq<CoTask>, spawned: Seq<CoTask>, resumed: CoTask) -> Seq<CoTask> {
    if coroutine_done(resumed) {
        q.drop_first() + spawned
    } else {
        q.drop_first() + spawned + seq![resumed]
    }
}

/// `k` turns of the runtime in a row, turn `i` ending with the task as
/// `resumed[i]` and spawning `spawned[i]`.
pub open spec fn runtime_turns(
    q: Seq<CoTask>,
    resumed: Seq<CoTask>,
    spawned: Seq<Seq<CoTask>>,
    k: nat,
) -> Seq<CoTask>
    decreases k,
{
    if k == 0 {
        q
    } else {
        after_turn(runtime_turns(q, resumed, spawned, (k - 1) as nat), spawned[k - 1], resumed[k - 1])
    }
}

/// A turn made of the runtime's steps, as a runner drives it
/// ([`Runtime::next_task`], [`Runtime::go`] by the running task,
/// [`run_task`], [`keep_if_suspended`], [`Runtime::requeue`]), leaves the
/// queue as [`after_turn`] says, and every task in it can still be resumed:
/// a task that returned is never resumed again.
pub proof fn lemma_turn_steps(
    q0: Seq<CoTask>,
    spawned: Seq<CoTask>,
    resumed: CoTask,
    yielded: bool,
    kept: Option<CoTask>,
    q3: Seq<CoTask>,
)
    requires
        q0.len() > 0,
        all_resumable(q0),
        all_resumable(spawned),
        yielded == !coroutine_done(resumed),
        kept == (if yielded { Some(resumed) } else { None::<CoTask> }),
        kept matches Some(t) ==> q3 == (q0.drop_first() + spawned).push(t),
        kept is None ==> q3 == q0.drop_first() + spawned,
    ensures
        q3 == after_turn(q0, spawned, resumed),
        all_resumable(q3),
{
    assert forall|i: int| 0 <= i < q3.len() implies !coroutine_done(#[trigger] q3[i]) by {
        if i < q0.len() - 1 {
            assert(q3[i] == q0[i + 1]);
        } else if i < q0.len() - 1 + spawned.len() {
            assert(q3[i] == spawned[i - (q0.len() - 1)]);
        }
    }
}

/// Round robin, whatever the tasks do: however each resumed task ends
/// (suspended or returned) and whatever it spawns, the tasks queued at the
/// start stay at the front in their order, and turn `k` takes the task that
/// was `k`-th in line; a task that suspends therefore runs again only after
/// every task ahead of it has run once.
pub proof fn lemma_runtime_round_robin(
    q: Seq<CoTask>,
    resumed: Seq<CoTask>,
    spawned: Seq<Seq<CoTask>>,
    k: nat,
)
    requires
        k <= q.len(),
        k <= resumed.len(),
        k <= spawned.len(),
    ensures
        runtime_turns(q, resumed, spawned, k).len() >= q.len() - k,
        runtime_turns(q, resumed, spawned, k).take(q.len() - k) == q.skip(k as int),
        k < q.len() ==> runtime_turns(q, resumed, spawned, k)[0] == q[k as int],
    decreases k,
{
    let n = q.len();
    if k > 0 {
        let j = (k - 1) as nat;
        lemma_runtime_round_robin(q, resumed, spawned, j);
        let prev = runtime_turns(q, resumed, spawned, j);
        let now = runtime_turns(q, resumed, spawned, k);
        assert(now.take(n - k) =~= prev.drop_first().take(n - k));
        assert(prev.drop_first().take(n - k) =~= prev.take(n - j).drop_first());
        assert(q.skip(j as int).drop_first() =~= q.skip(k as int));
    }
    if k < n {
        let now = runtime_turns(q, resumed, spawned, k);
        assert(now.take(n - k)[0] == now[0]);
        assert(q.skip(k as int)[0] == q[k as int]);
    }
}

/// What becomes of a task once resumed, given whether it suspended itself
/// (`yielded`) or returned: a suspended task is handed back to be requeued,
/// one that returned is dropped.
pub fn keep_if_suspended(task: CoTask, yielded: bool) -> (next: Option<CoTask>)
    ensures
        next == (if yielded { Some(task) } else { None::<CoTask> }),
{
    if yielded {
        Some(task)
    } else {
        None
    }
}

} // verus!
