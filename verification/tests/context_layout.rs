use mygoroutine::context::aarch64;
use mygoroutine::context::x86_64;
use mygoroutine::context::{stack_top, STACK_SIZE};

#[test]
fn x86_64_new_for_task_sets_stack_pointer_and_closure_register() {
    let ctx = x86_64::Context::new_for_task(0x7000_0000, 0x40_1000, 0xdead_beef);
    assert_eq!(ctx.rsp, 0x7000_0000 - 16);
    assert_eq!(ctx.r15, 0xdead_beef);
    assert_eq!((ctx.rbp, ctx.rbx, ctx.r12, ctx.r13, ctx.r14), (0, 0, 0, 0, 0));
}

#[test]
fn x86_64_entry_stack_pointer_is_16n_plus_8_after_ret() {
    for top in [16usize, 32, 0x1000, 0x7fff_fff0] {
        let ctx = x86_64::Context::new_for_task(top, 1, 2);
        assert_eq!((ctx.rsp + 8) % 16, 8);
    }
}

#[test]
fn x86_64_smallest_stack_top() {
    let ctx = x86_64::Context::new_for_task(16, 0, 0);
    assert_eq!(ctx.rsp, 0);
}

#[test]
fn aarch64_new_for_task_sets_sp_lr_and_x19() {
    let ctx = aarch64::Context::new_for_task(0x7000_0000, 0x40_1000, 77);
    assert_eq!(ctx.sp, 0x7000_0000);
    assert_eq!(ctx.lr, 0x40_1000);
    assert_eq!(ctx.x19, 77);
    assert_eq!(ctx.fp, 0);
    assert_eq!(ctx.x20 + ctx.x28 + ctx.d8 + ctx.d15, 0);
}

#[test]
fn stack_top_rounds_end_of_buffer_down_to_16() {
    assert_eq!(STACK_SIZE, 64 * 1024);
    assert_eq!(stack_top(0), 65536);
    assert_eq!(stack_top(0x1000), 0x1000 + 65536);
    assert_eq!(stack_top(0x1001), 0x1000 + 65536);
    assert_eq!(stack_top(0x100f), 0x1000 + 65536);
    assert_eq!(stack_top(0x1010), 0x1010 + 65536);
}

#[test]
fn stack_top_keeps_initial_frame_inside_buffer() {
    for base in [0usize, 1, 7, 15, 16, 0x1234_5677] {
        let top = stack_top(base);
        assert_eq!(top % 16, 0);
        assert!(top - 16 >= base);
        assert!(top <= base + STACK_SIZE);
        assert!(top > base + STACK_SIZE - 16);
    }
}

#[test]
fn new_stack_is_zeroed_and_full_size() {
    let stack = mygoroutine::context::new_stack();
    assert_eq!(stack.len(), STACK_SIZE);
    assert!(stack.iter().all(|b| *b == 0));
}

#[test]
fn x86_64_new_task_stores_entry_little_endian_at_rsp() {
    let base = 0x1003usize;
    let entry = 0x0102_0304_0506_0708usize;
    let task = x86_64::new_task(mygoroutine::context::new_stack(), base, entry, 99);
    let top = stack_top(base);
    assert_eq!(task.context.rsp as usize, top - 16);
    assert_eq!(task.context.r15, 99);
    assert!(!task.finished);
    let slot = top - 16 - base;
    assert_eq!(&task.stack[slot..slot + 8], &[8, 7, 6, 5, 4, 3, 2, 1]);
    let nonzero = task.stack.iter().filter(|b| **b != 0).count();
    assert_eq!(nonzero, 8);
    assert_eq!(task.stack.len(), STACK_SIZE);
}

#[test]
fn aarch64_new_task_leaves_stack_untouched() {
    let task = aarch64::new_task(mygoroutine::context::new_stack(), 0x2000, 0x40_0000, 5);
    assert_eq!(task.context.sp as usize, 0x2000 + STACK_SIZE);
    assert_eq!(task.context.lr, 0x40_0000);
    assert_eq!(task.context.x19, 5);
    assert!(task.stack.iter().all(|b| *b == 0));
}
