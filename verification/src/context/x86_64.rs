//! Saved context on x86_64 (System V ABI callee-saved registers).
use vstd::prelude::*;
use crate::context::{align_down_16, stack_top, STACK_SIZE};
use crate::task::Task;

verus! {

/// Saved CPU context for context switching.
///
/// On x86_64 System V ABI, these are the callee-saved registers that must be
/// preserved across function calls.
#[derive(Debug, Clone, Copy, Default)]
pub struct Context {
    /// Stack pointer
    pub rsp: u64,
    /// Frame pointer
    pub rbp: u64,
    /// General purpose (callee-saved)
    pub rbx: u64,
    pub r12: u64,
    pub r13: u64,
    pub r14: u64,
    pub r15: u64,
}

impl Context {
    /// Create a new context for a task.
    ///
    /// - `stack_top`: the top of the stack (highest address), 16-byte aligned
    /// - `_entry`: the entry point function address
    /// - `closure_ptr`: the value handed to the entry function through `r15`
    ///
    /// The stack pointer is placed 16 bytes below the top: the slot at
    /// `rsp` is where the entry address goes (the owner of the stack memory
    /// stores it there, so that the first switch `ret`s into it), and the
    /// slot above it is padding, so that after `ret` the stack pointer is
    /// `16n + 8`, as on entry to a function reached by `call`.
    pub fn new_for_task(stack_top: usize, _entry: usize, closure_ptr: u64) -> (ctx: Self)
        requires
            stack_top >= 16,
        ensures
            ctx.rsp == stack_top - 16,
            ctx.r15 == closure_ptr,
            ctx.rbp == 0 && ctx.rbx == 0 && ctx.r12 == 0 && ctx.r13 == 0 && ctx.r14 == 0,
            stack_top % 16 == 0 ==> (ctx.rsp + 8) % 16 == 8,
    {
        let initial_rsp: usize = stack_top - 16;
        Context { rsp: initial_rsp as u64, rbp: 0, rbx: 0, r12: 0, r13: 0, r14: 0, r15: closure_ptr }
    }
}

/// Byte `i` (0 for the least significant) of `value`: its little-endian
/// encoding, as `ret` reads it from the stack.
pub open spec fn le_byte(value: u64, i: nat) -> u8 {
    ((value >> ((8 * i) as u64)) & 0xff) as u8
}

/// The number that `bytes` encode, least significant byte first (the way
/// x86_64 reads a word from memory).
pub open spec fn le_value(bytes: Seq<u8>) -> nat
    decreases bytes.len(),
{
    if bytes.len() == 0 {
        0
    } else {
        (bytes[0] + 256 * le_value(bytes.drop_first())) as nat
    }
}

/// The 8 little-endian bytes of a word encode that word: reading back, as
/// `ret` does, the bytes [`le_byte`] gives for `value` yields `value`.
pub proof fn lemma_le_bytes_encode(value: u64)
    ensures
        le_value(Seq::new(8, |k: int| le_byte(value, k as nat))) == value,
{
    let s = Seq::new(8, |k: int| le_byte(value, k as nat));
    let b0: u64 = value & 0xff;
    let b1: u64 = (value >> 8u64) & 0xff;
    let b2: u64 = (value >> 16u64) & 0xff;
    let b3: u64 = (value >> 24u64) & 0xff;
    let b4: u64 = (value >> 32u64) & 0xff;
    let b5: u64 = (value >> 40u64) & 0xff;
    let b6: u64 = (value >> 48u64) & 0xff;
    let b7: u64 = (value >> 56u64) & 0xff;
    assert(value == b0 + 256 * (b1 + 256 * (b2 + 256 * (b3 + 256 * (b4 + 256 * (b5 + 256 * (b6 + 256
        * b7))))))) by (bit_vector)
        requires
            b0 == value & 0xff,
            b1 == (value >> 8u64) & 0xff,
            b2 == (value >> 16u64) & 0xff,
            b3 == (value >> 24u64) & 0xff,
            b4 == (value >> 32u64) & 0xff,
            b5 == (value >> 40u64) & 0xff,
            b6 == (value >> 48u64) & 0xff,
            b7 == (value >> 56u64) & 0xff,
    ;
    assert(b0 < 256 && b1 < 256 && b2 < 256 && b3 < 256 && b4 < 256 && b5 < 256 && b6 < 256 && b7 < 256)
        by (bit_vector)
        requires
            b0 == value & 0xff,
            b1 == (value >> 8u64) & 0xff,
            b2 == (value >> 16u64) & 0xff,
            b3 == (value >> 24u64) & 0xff,
            b4 == (value >> 32u64) & 0xff,
            b5 == (value >> 40u64) & 0xff,
            b6 == (value >> 48u64) & 0xff,
            b7 == (value >> 56u64) & 0xff,
    ;
    assert(value >> 0u64 == value) by (bit_vector);
    assert(s[0] == le_byte(value, 0) && s[1] == le_byte(value, 1) && s[2] == le_byte(value, 2));
    assert(s[3] == le_byte(value, 3) && s[4] == le_byte(value, 4) && s[5] == le_byte(value, 5));
    assert(s[6] == le_byte(value, 6) && s[7] == le_byte(value, 7));
    assert(s[0] == b0 && s[1] == b1 && s[2] == b2 && s[3] == b3);
    assert(s[4] == b4 && s[5] == b5 && s[6] == b6 && s[7] == b7);
    let s1 = s.drop_first();
    let s2 = s1.drop_first();
    let s3 = s2.drop_first();
    let s4 = s3.drop_first();
    let s5 = s4.drop_first();
    let s6 = s5.drop_first();
    let s7 = s6.drop_first();
    let s8 = s7.drop_first();
    assert(s8.len() == 0);
    assert(le_value(s7) == s7[0] + 256 * le_value(s8));
    assert(le_value(s6) == s6[0] + 256 * le_value(s7));
    assert(le_value(s5) == s5[0] + 256 * le_value(s6));
    assert(le_value(s4) == s4[0] + 256 * le_value(s5));
    assert(le_value(s3) == s3[0] + 256 * le_value(s4));
    assert(le_value(s2) == s2[0] + 256 * le_value(s3));
    assert(le_value(s1) == s1[0] + 256 * le_value(s2));
    assert(le_value(s) == s[0] + 256 * le_value(s1));
}

/// Offset, in a stack buffer starting at address `base`, of the slot that
/// holds a fresh task's entry address (the address `top - 16`).
pub open spec fn entry_slot(base: int) -> int {
    align_down_16(base + STACK_SIZE) - 16 - base
}

/// A task that, on its first switch, starts at `entry` with `closure_ptr`
/// in `r15`, running on `stack`, a buffer of `STACK_SIZE` bytes whose first
/// byte is at address `base`: the context is that of
/// [`Context::new_for_task`] for the aligned top of the buffer, and the 8
/// bytes at the stack pointer hold `entry`, little-endian, so that `ret`
/// jumps there. The rest of the buffer is left as it was.
pub fn new_task(stack: Vec<u8>, base: usize, entry: usize, closure_ptr: u64) -> (task: Task<Context>)
    requires
        stack@.len() == STACK_SIZE,
        base + STACK_SIZE <= usize::MAX,
    ensures
        task.context.rsp == align_down_16(base + STACK_SIZE) - 16,
        task.context.rsp == base + entry_slot(base as int),
        task.context.r15 == closure_ptr,
        task.context.rbp == 0 && task.context.rbx == 0 && task.context.r12 == 0,
        task.context.r13 == 0 && task.context.r14 == 0,
        task.stack@.len() == STACK_SIZE,
        0 <= entry_slot(base as int) && entry_slot(base as int) + 8 <= STACK_SIZE,
        forall|i: nat| i < 8 ==> #[trigger] task.stack@[entry_slot(base as int) + i] == le_byte(entry as u64, i),
        le_value(task.stack@.subrange(entry_slot(base as int), entry_slot(base as int) + 8)) == entry,
        forall|j: int|
            0 <= j < STACK_SIZE && !(entry_slot(base as int) <= j < entry_slot(base as int) + 8)
                ==> #[trigger] task.stack@[j] == stack@[j],
        !task.finished,
{
    let top = stack_top(base);
    let slot: usize = top - 16 - base;
    let e: u64 = entry as u64;
    let mut stack = stack;
    let ghost old_stack = stack@;
    let mut i: usize = 0;
    while i < 8
        invariant
            i <= 8,
            slot == entry_slot(base as int),
            slot + 8 <= STACK_SIZE,
            e == entry as u64,
            stack@.len() == STACK_SIZE,
            forall|k: nat| k < i ==> #[trigger] stack@[slot + k] == le_byte(e, k),
            forall|j: int|
                0 <= j < STACK_SIZE && !(slot <= j < slot + i) ==> #[trigger] stack@[j] == old_stack[j],
        decreases 8 - i,
    {
        let shift: u64 = (8 * i) as u64;
        let byte: u8 = ((e >> shift) & 0xff) as u8;
        stack.set(slot + i, byte);
        assert(byte == le_byte(e, i as nat));
        i = i + 1;
    }
    proof {
        lemma_le_bytes_encode(e);
        assert(stack@.subrange(slot as int, slot + 8) =~= Seq::new(8, |k: int| le_byte(e, k as nat))) by {
            assert forall|k: int| 0 <= k < 8 implies #[trigger] stack@.subrange(slot as int, slot + 8)[k] == le_byte(
                e,
                k as nat,
            ) by {
                assert(stack@[slot + (k as nat)] == le_byte(e, k as nat));
            }
        }
    }
    let context = Context::new_for_task(top, entry, closure_ptr);
    Task::new(context, stack)
}

} // verus!
