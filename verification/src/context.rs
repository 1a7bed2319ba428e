//! Saved CPU state of a green thread, and the layout of a fresh task stack.
use vstd::prelude::*;

pub mod aarch64;
pub mod x86_64;

verus! {

/// Stack size for each green thread (64KB).
pub const STACK_SIZE: usize = 65536;

/// A zeroed stack buffer of `STACK_SIZE` bytes for one task.
pub fn new_stack() -> (stack: Vec<u8>)
    ensures
        stack@.len() == STACK_SIZE,
        forall|i: int| 0 <= i < STACK_SIZE ==> stack@[i] == 0,
{
    vec![0u8; STACK_SIZE]
}

/// The highest 16-byte aligned address that is not above `end`.
pub open spec fn align_down_16(end: int) -> int {
    end - end % 16
}

/// The top of a task stack whose buffer starts at address `base` and is
/// `STACK_SIZE` bytes long: the end of the buffer, rounded down to a
/// multiple of 16.
pub fn stack_top(base: usize) -> (top: usize)
    requires
        base + STACK_SIZE <= usize::MAX,
    ensures
        top == align_down_16(base + STACK_SIZE),
        top % 16 == 0,
        base + STACK_SIZE - 16 < top <= base + STACK_SIZE,
{
    let end: usize = base + STACK_SIZE;
    let top: usize = end & !0xFusize;
    assert(end & !0xFusize == end - end % 16) by (bit_vector);
    top
}

/// The initial frame of a fresh x86_64 task (the entry slot at
/// `top - 16` and the padding slot above it) lies inside the stack buffer,
/// and the stack pointer that `ret` leaves behind is `16n + 8`.
pub proof fn lemma_initial_frame_in_stack(base: usize, top: usize)
    requires
        base + STACK_SIZE <= usize::MAX,
        top == align_down_16(base + STACK_SIZE),
    ensures
        base <= top - 16,
        top <= base + STACK_SIZE,
        (top - 16 + 8) % 16 == 8,
{
}

} // verus!
