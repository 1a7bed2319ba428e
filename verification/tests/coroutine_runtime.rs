use mygoroutine::{keep_if_suspended, run_task, Runtime};
use std::cell::RefCell;
use std::rc::Rc;

/// Drives the runtime until no task is left; returns how many resumptions
/// it took.
fn drive(rt: &mut Runtime) -> usize {
    let mut resumes = 0;
    while let Some(mut task) = rt.next_task() {
        resumes += 1;
        let yielded = run_task(&mut task);
        if let Some(task) = keep_if_suspended(task, yielded) {
            rt.requeue(task);
        }
    }
    resumes
}

#[test]
fn runtime_empty_has_no_task() {
    let mut rt = Runtime::new();
    assert!(rt.next_task().is_none());
    let mut rt2 = Runtime::default();
    assert_eq!(drive(&mut rt2), 0);
}

#[test]
fn runtime_interleaves_yielding_tasks() {
    let log = Rc::new(RefCell::new(Vec::new()));
    let mut rt = Runtime::new();
    for id in 1..=3u32 {
        let log = Rc::clone(&log);
        rt.go(move |y, ()| {
            log.borrow_mut().push((id, "start"));
            y.suspend(());
            log.borrow_mut().push((id, "end"));
        });
    }
    assert_eq!(drive(&mut rt), 6);
    assert_eq!(
        *log.borrow(),
        vec![(1, "start"), (2, "start"), (3, "start"), (1, "end"), (2, "end"), (3, "end")]
    );
}

#[test]
fn runtime_finished_task_is_not_requeued() {
    let mut rt = Runtime::new();
    rt.go(|_, ()| {});
    let mut task = rt.next_task().unwrap();
    assert!(!run_task(&mut task));
    assert!(rt.next_task().is_none());
}

#[test]
fn runtime_yielded_task_is_handed_back() {
    let count = Rc::new(RefCell::new(0));
    let c = Rc::clone(&count);
    let mut rt = Runtime::new();
    rt.go(move |y, ()| {
        for _ in 0..3 {
            *c.borrow_mut() += 1;
            y.suspend(());
        }
    });
    let mut task = rt.next_task().unwrap();
    assert!(run_task(&mut task), "the task suspended");
    assert_eq!(*count.borrow(), 1);
    rt.requeue(task);
    assert_eq!(drive(&mut rt), 3);
    assert_eq!(*count.borrow(), 3);
}

#[test]
fn runtime_keep_if_suspended_follows_resume_outcome() {
    let mut rt = Runtime::new();
    rt.go(|_, ()| {});
    rt.go(|_, ()| {});
    let a = rt.next_task().unwrap();
    let b = rt.next_task().unwrap();
    let kept = keep_if_suspended(a, true).expect("suspended task is kept");
    assert!(keep_if_suspended(b, false).is_none());
    rt.requeue(kept);
    assert_eq!(drive(&mut rt), 1);
}
