//! Saved context on aarch64 (AAPCS64 callee-saved registers).
use vstd::prelude::*;
use crate::context::{align_down_16, stack_top, STACK_SIZE};
use crate::task::Task;

verus! {

/// Saved CPU context for context switching.
///
/// On aarch64 (AAPCS64), these are the callee-saved registers that must be
/// preserved across function calls:
/// - x19-x28: general purpose callee-saved registers
/// - d8-d15: floating-point/SIMD callee-saved registers (lower 64 bits of v8-v15)
#[derive(Debug, Clone, Copy, Default)]
pub struct Context {
    /// Stack pointer
    pub sp: u64,
    /// Link register (return address)
    pub lr: u64,
    /// Frame pointer
    pub fp: u64,
    /// General purpose (callee-saved)
    pub x19: u64,
    pub x20: u64,
    pub x21: u64,
    pub x22: u64,
    pub x23: u64,
    pub x24: u64,
    pub x25: u64,
    pub x26: u64,
    pub x27: u64,
    pub x28: u64,
    /// Floating-point/SIMD (callee-saved, lower 64 bits)
    pub d8: u64,
    pub d9: u64,
    pub d10: u64,
    pub d11: u64,
    pub d12: u64,
    pub d13: u64,
    pub d14: u64,
    pub d15: u64,
}

impl Context {
    /// Every register other than `sp`, `lr` and `x19` is zero.
    pub open spec fn others_zero(self) -> bool {
        &&& self.fp == 0
        &&& self.x20 == 0 && self.x21 == 0 && self.x22 == 0 && self.x23 == 0
        &&& self.x24 == 0 && self.x25 == 0 && self.x26 == 0 && self.x27 == 0
        &&& self.x28 == 0
        &&& self.d8 == 0 && self.d9 == 0 && self.d10 == 0 && self.d11 == 0
        &&& self.d12 == 0 && self.d13 == 0 && self.d14 == 0 && self.d15 == 0
    }

    /// Create a new context for a task.
    ///
    /// - `stack_top`: the top of the stack (highest address), 16-byte aligned
    /// - `entry`: the entry point function address
    /// - `closure_ptr`: the value handed to the entry function through `x19`
    ///
    /// On aarch64, `ret` jumps to the address in `lr`, so the first switch
    /// into this context starts `entry` with the stack pointer at the top.
    pub fn new_for_task(stack_top: usize, entry: usize, closure_ptr: u64) -> (ctx: Self)
        ensures
            ctx.sp == stack_top,
            ctx.lr == entry,
            ctx.x19 == closure_ptr,
            ctx.others_zero(),
            ctx.fp == 0,
            ctx.x20 == 0,
            ctx.x21 == 0,
            ctx.x22 == 0,
            ctx.x23 == 0,
            ctx.x24 == 0,
            ctx.x25 == 0,
            ctx.x26 == 0,
            ctx.x27 == 0,
            ctx.x28 == 0,
            ctx.d8 == 0,
            ctx.d9 == 0,
            ctx.d10 == 0,
            ctx.d11 == 0,
            ctx.d12 == 0,
            ctx.d13 == 0,
            ctx.d14 == 0,
            ctx.d15 == 0,
    {
        Context {
            sp: stack_top as u64,
            lr: entry as u64,
            fp: 0,
            x19: closure_ptr,
            x20: 0,
            x21: 0,
            x22: 0,
            x23: 0,
            x24: 0,
            x25: 0,
            x26: 0,
            x27: 0,
            x28: 0,
            d8: 0,
            d9: 0,
            d10: 0,
            d11: 0,
            d12: 0,
            d13: 0,
            d14: 0,
            d15: 0,
        }
    }
}

/// A task that, on its first switch, starts at `entry` with `closure_ptr`
/// in `x19`, running on `stack`, a buffer of `STACK_SIZE` bytes whose first
/// byte is at address `base`: the context is that of
/// [`Context::new_for_task`] for the aligned top of the buffer (the entry
/// address travels in `lr`, so the stack is left as it was).
pub fn new_task(stack: Vec<u8>, base: usize, entry: usize, closure_ptr: u64) -> (task: Task<Context>)
    requires
        stack@.len() == STACK_SIZE,
        base + STACK_SIZE <= usize::MAX,
    ensures
        task.context.sp == align_down_16(base + STACK_SIZE),
        task.context.lr == entry,
        task.context.x19 == closure_ptr,
        task.context.others_zero(),
        task.context.fp == 0,
        task.context.x20 == 0,
        task.context.x21 == 0,
        task.context.x22 == 0,
        task.context.x23 == 0,
        task.context.x24 == 0,
        task.context.x25 == 0,
        task.context.x26 == 0,
        task.context.x27 == 0,
        task.context.x28 == 0,
        task.context.d8 == 0,
        task.context.d9 == 0,
        task.context.d10 == 0,
        task.context.d11 == 0,
        task.context.d12 == 0,
        task.context.d13 == 0,
        task.context.d14 == 0,
        task.context.d15 == 0,
        task.stack@ == stack@,
        !task.finished,
{
    let top = stack_top(base);
    let context = Context::new_for_task(top, entry, closure_ptr);
    Task::new(context, stack)
}

} // verus!
