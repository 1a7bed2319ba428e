//! A green thread: its saved context, the stack it runs on, and whether it
//! has run to completion.
use vstd::prelude::*;

verus! {

/// A green thread task. `C` is the saved-register layout of the target
/// architecture.
pub struct Task<C> {
    /// Registers to restore when the task is switched to.
    pub context: C,
    /// The memory the task runs on; it must live as long as the task.
    pub stack: Vec<u8>,
    /// Set once the task's function has returned.
    pub finished: bool,
}

impl<C> Task<C> {
    /// A task that has not run yet.
    pub fn new(context: C, stack: Vec<u8>) -> (task: Self)
        ensures
            task.context == context,
            task.stack@ == stack@,
            !task.finished,
    {
        Task { context, stack, finished: false }
    }
}

} // verus!
