use mygoroutine::mn::{go, gosched, task_finished, GlobalQueue, Worker};
use mygoroutine::task::Task;

fn task(id: u64) -> Task<u64> {
    Task::new(id, Vec::new())
}

#[test]
fn mn_worker_on_empty_queue_shuts_down() {
    let mut q: GlobalQueue<u64> = GlobalQueue::new();
    let mut w = Worker::new(0);
    assert!(!q.is_shutdown());
    assert!(!w.schedule(&mut q));
    assert!(q.is_shutdown());
    let mut w2 = Worker::new(0);
    assert!(!w2.schedule(&mut q));
    assert!(q.is_shutdown());
}

#[test]
fn mn_workers_share_one_fifo_queue() {
    let mut q = GlobalQueue::new();
    go(&mut q, task(1));
    go(&mut q, task(2));
    let mut a = Worker::new(0);
    let mut b = Worker::new(0);
    assert!(a.schedule(&mut q));
    assert!(b.schedule(&mut q));
    assert_eq!(*a.switch_to_task().1, 1);
    assert_eq!(*b.switch_to_task().1, 2);
    assert_eq!(q.len(), 0);
    assert!(!q.is_shutdown());
}

#[test]
fn mn_yielded_task_returns_to_back_of_shared_queue() {
    let mut q = GlobalQueue::new();
    go(&mut q, task(1));
    go(&mut q, task(2));
    let mut a = Worker::new(0);
    assert!(a.schedule(&mut q));
    go(&mut q, task(3));
    let back = a.reclaim().expect("yielded task is requeued");
    go(&mut q, back);
    let mut order = Vec::new();
    while a.schedule(&mut q) {
        order.push(*a.switch_to_task().1);
        task_finished(&mut a);
        assert!(a.reclaim().is_none());
    }
    assert_eq!(order, vec![2, 3, 1]);
    assert!(q.is_shutdown());
}

#[test]
fn mn_gosched_switches_back_to_worker_context() {
    let mut q = GlobalQueue::new();
    go(&mut q, task(9));
    let mut w = Worker::new(100);
    assert!(w.schedule(&mut q));
    let (save, load) = gosched(&mut w);
    assert_eq!((*save, *load), (9, 100));
    *save = 10;
    let back = w.reclaim().unwrap();
    assert_eq!(back.context, 10);
    assert!(!back.finished);
}

#[test]
fn mn_all_tasks_complete_once_workers_stop() {
    // Two workers interleave; task i yields i times; task 0 spawns task 9 (no yields).
    let mut q = GlobalQueue::new();
    for id in 0..3u64 {
        go(&mut q, task(id));
    }
    let mut workers = vec![Worker::new(0), Worker::new(0)];
    let mut stopped = [false, false];
    let mut yields: std::collections::HashMap<u64, u64> = (0..3).map(|i| (i, i)).collect();
    yields.insert(9, 0);
    let mut finished = Vec::new();
    let mut turn = 0usize;
    while !(stopped[0] && stopped[1]) {
        let i = turn % 2;
        turn += 1;
        if stopped[i] {
            continue;
        }
        let w = &mut workers[i];
        if !w.schedule(&mut q) {
            stopped[i] = true;
            continue;
        }
        let id = *w.switch_to_task().1;
        if id == 0 && !finished.contains(&9) && yields[&0] == 0 {
            go(&mut q, task(9));
        }
        let left = yields.get_mut(&id).unwrap();
        if *left == 0 {
            task_finished(w);
            finished.push(id);
        } else {
            *left -= 1;
        }
        if let Some(back) = w.reclaim() {
            go(&mut q, back);
        }
    }
    finished.sort();
    assert_eq!(finished, vec![0, 1, 2, 9]);
    assert_eq!(q.len(), 0);
    assert!(q.is_shutdown());
}
