use mygoroutine::n1::{go, gosched, task_finished, Worker};
use mygoroutine::task::Task;

fn task(id: u64) -> Task<u64> {
    Task::new(id, Vec::new())
}

/// Runs the current task's turn: returns the context that the worker loop
/// would switch into.
fn dispatch(w: &mut Worker<u64>) -> Option<u64> {
    if w.schedule() {
        let (_, load) = w.switch_to_task();
        Some(*load)
    } else {
        None
    }
}

#[test]
fn n1_empty_worker_has_nothing_to_run() {
    let mut w: Worker<u64> = Worker::new(0);
    assert_eq!(dispatch(&mut w), None);
}

#[test]
fn n1_tasks_run_in_spawn_order() {
    let mut w = Worker::new(0);
    go(&mut w, task(1));
    go(&mut w, task(2));
    go(&mut w, task(3));
    let mut order = Vec::new();
    while let Some(id) = dispatch(&mut w) {
        order.push(id);
        task_finished(&mut w);
        w.reclaim();
    }
    assert_eq!(order, vec![1, 2, 3]);
}

#[test]
fn n1_round_robin_yielding_tasks() {
    let mut w = Worker::new(0);
    go(&mut w, task(1));
    go(&mut w, task(2));
    go(&mut w, task(3));
    let mut order = Vec::new();
    for _ in 0..6 {
        order.push(dispatch(&mut w).unwrap());
        w.reclaim();
    }
    assert_eq!(order, vec![1, 2, 3, 1, 2, 3]);
}

#[test]
fn n1_yielded_task_goes_behind_spawned_children() {
    let mut w = Worker::new(0);
    go(&mut w, task(1));
    go(&mut w, task(2));
    assert_eq!(dispatch(&mut w), Some(1));
    go(&mut w, task(10));
    go(&mut w, task(11));
    w.reclaim();
    let mut order = Vec::new();
    while let Some(id) = dispatch(&mut w) {
        order.push(id);
        task_finished(&mut w);
        w.reclaim();
    }
    assert_eq!(order, vec![2, 10, 11, 1]);
}

#[test]
fn n1_finished_task_is_dropped() {
    let mut w = Worker::new(0);
    go(&mut w, task(1));
    go(&mut w, task(2));
    assert_eq!(dispatch(&mut w), Some(1));
    task_finished(&mut w);
    w.reclaim();
    assert_eq!(dispatch(&mut w), Some(2));
    w.reclaim();
    assert_eq!(dispatch(&mut w), Some(2));
    task_finished(&mut w);
    w.reclaim();
    assert_eq!(dispatch(&mut w), None);
}

#[test]
fn n1_gosched_saves_into_task_and_restores_scheduler() {
    let mut w = Worker::new(500);
    go(&mut w, task(1));
    assert!(w.schedule());
    {
        let (save, load) = w.switch_to_task();
        assert_eq!((*save, *load), (500, 1));
        *save = 600;
    }
    {
        let (save, load) = gosched(&mut w);
        assert_eq!((*save, *load), (1, 600));
        *save = 42;
    }
    w.reclaim();
    assert_eq!(dispatch(&mut w), Some(42));
}

#[test]
fn n1_yielding_task_waits_exactly_for_tasks_ahead() {
    let mut w = Worker::new(0);
    for id in 1..=3 {
        go(&mut w, task(id));
    }
    // Task 1 spawns 10 and yields: queue is 2, 3, 10, 1.
    assert_eq!(dispatch(&mut w), Some(1));
    go(&mut w, task(10));
    w.reclaim();
    // Task 2 finishes, task 3 yields and spawns 20, task 10 finishes.
    assert_eq!(dispatch(&mut w), Some(2));
    task_finished(&mut w);
    w.reclaim();
    assert_eq!(dispatch(&mut w), Some(3));
    go(&mut w, task(20));
    w.reclaim();
    assert_eq!(dispatch(&mut w), Some(10));
    task_finished(&mut w);
    w.reclaim();
    // Task 1 runs again before anything queued after its yield.
    assert_eq!(dispatch(&mut w), Some(1));
    task_finished(&mut w);
    w.reclaim();
    assert_eq!(dispatch(&mut w), Some(20));
}

#[test]
fn n1_every_task_completes_exactly_once() {
    // Task i yields i times, then finishes.
    let mut w = Worker::new(0);
    for id in 0..4 {
        go(&mut w, task(id));
    }
    let mut yields_left = std::collections::HashMap::new();
    for id in 0..4u64 {
        yields_left.insert(id, id);
    }
    let mut finished = Vec::new();
    let mut turns = 0;
    while let Some(id) = dispatch(&mut w) {
        turns += 1;
        let left = yields_left.get_mut(&id).unwrap();
        if *left == 0 {
            task_finished(&mut w);
            finished.push(id);
        } else {
            *left -= 1;
        }
        let _ = gosched(&mut w);
        w.reclaim();
    }
    finished.sort();
    assert_eq!(finished, vec![0, 1, 2, 3]);
    assert_eq!(turns, (0 + 1) + (1 + 1) + (2 + 1) + (3 + 1));
    assert!(!w.has_current_task());
}
