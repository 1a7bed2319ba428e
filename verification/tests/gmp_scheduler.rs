use mygoroutine::gmp::{AcquireOutcome, FindOutcome, GlobalOutcome, LocalOutcome, SharedState, Worker};
use mygoroutine::task::Task;

fn task(id: u64) -> Task<u64> {
    Task::new(id, Vec::new())
}

fn run_id(o: LocalOutcome<u64>) -> Option<u64> {
    match o {
        LocalOutcome::Run(t) => Some(t.context),
        _ => None,
    }
}

#[test]
fn gmp_new_state_has_all_processors_idle() {
    let s: SharedState<u64> = SharedState::new(4);
    assert_eq!(s.idle_processors(), 4);
    assert_eq!(s.active_workers(), 0);
    assert_eq!(s.global_len(), 0);
    assert!(!s.is_shutdown());
    let z: SharedState<u64> = SharedState::new(0);
    assert_eq!(z.idle_processors(), 0);
}

#[test]
fn gmp_single_task_runs_then_runtime_shuts_down() {
    let mut s = SharedState::new(2);
    s.spawn(task(7));
    let mut w = Worker::new(0, 0u64);
    assert!(matches!(w.find_processor(&mut s), FindOutcome::Acquired));
    assert_eq!(s.active_workers(), 1);
    assert_eq!(s.idle_processors(), 1);
    assert!(matches!(w.next_local_task(), LocalOutcome::Empty));
    let t = match w.global_step(&mut s) {
        GlobalOutcome::Run(t) => t,
        _ => panic!("expected a task"),
    };
    assert_eq!(t.context, 7);
    w.start_task(t);
    assert_eq!(*w.switch_to_task().1, 7);
    w.task_finished();
    w.finish_task();
    assert!(!w.has_current_task());
    assert!(matches!(w.next_local_task(), LocalOutcome::Empty));
    assert!(matches!(w.global_step(&mut s), GlobalOutcome::ShutDown));
    assert!(s.is_shutdown());
    assert!(!w.has_processor());
    assert_eq!(s.idle_processors(), 2);
    assert_eq!(s.active_workers(), 0);
}

#[test]
fn gmp_yielded_task_goes_to_local_queue() {
    let mut s = SharedState::new(1);
    s.spawn(task(1));
    s.spawn(task(2));
    let mut w = Worker::new(0, 0u64);
    assert!(matches!(w.find_processor(&mut s), FindOutcome::Acquired));
    let t = match w.global_step(&mut s) {
        GlobalOutcome::Run(t) => t,
        _ => panic!("expected a task"),
    };
    w.start_task(t);
    {
        let (save, load) = w.switch_to_scheduler().expect("a task is running");
        assert_eq!((*save, *load), (1, 0));
        *save = 11;
    }
    w.finish_task();
    assert_eq!(run_id(w.next_local_task()), Some(11));
    assert!(matches!(w.next_local_task(), LocalOutcome::Empty));
    assert_eq!(s.global_len(), 1);
}

#[test]
fn gmp_finished_task_in_local_queue_is_skipped() {
    let mut s: SharedState<u64> = SharedState::new(1);
    let mut w = Worker::new(0, 0u64);
    assert!(matches!(w.find_processor(&mut s), FindOutcome::Acquired));
    let mut done = task(5);
    done.finished = true;
    w.start_task(done);
    w.finish_task();
    assert!(matches!(w.next_local_task(), LocalOutcome::Skip));
    assert!(matches!(w.next_local_task(), LocalOutcome::Empty));
}

#[test]
fn gmp_worker_parks_while_another_is_active() {
    let mut s: SharedState<u64> = SharedState::new(2);
    let mut a = Worker::new(0, 0u64);
    let mut b = Worker::new(1, 0u64);
    assert!(matches!(a.find_processor(&mut s), FindOutcome::Acquired));
    assert!(matches!(b.find_processor(&mut s), FindOutcome::Acquired));
    assert_eq!(s.active_workers(), 2);
    assert!(matches!(a.global_step(&mut s), GlobalOutcome::Parked));
    assert!(!a.has_processor());
    assert_eq!(s.active_workers(), 1);
    assert_eq!(s.idle_processors(), 1);
    assert!(!s.is_shutdown());
    assert!(matches!(b.global_step(&mut s), GlobalOutcome::ShutDown));
    assert!(matches!(a.find_processor(&mut s), FindOutcome::Acquired));
    assert!(matches!(a.global_step(&mut s), GlobalOutcome::Exit));
    assert_eq!(s.idle_processors(), 2);
}

#[test]
fn gmp_find_processor_waits_or_exits_without_idle_processor() {
    let mut s: SharedState<u64> = SharedState::new(1);
    let mut a = Worker::new(0, 0u64);
    let mut b = Worker::new(1, 0u64);
    assert!(matches!(a.find_processor(&mut s), FindOutcome::Acquired));
    assert!(matches!(b.find_processor(&mut s), FindOutcome::Wait));
    assert!(matches!(a.global_step(&mut s), GlobalOutcome::ShutDown));
    let mut c = Worker::new(2, 0u64);
    let mut empty: SharedState<u64> = SharedState::new(0);
    assert!(matches!(c.find_processor(&mut empty), FindOutcome::ShutDown));
    assert!(matches!(c.find_processor(&mut empty), FindOutcome::Exit));
}

#[test]
fn gmp_release_and_acquire_processor() {
    let mut s: SharedState<u64> = SharedState::new(1);
    let mut w = Worker::new(0, 0u64);
    assert!(!w.release_p(&mut s));
    assert!(matches!(w.acquire_p(&mut s), AcquireOutcome::Acquired));
    assert_eq!(s.idle_processors(), 0);
    let mut other = Worker::new(1, 0u64);
    assert!(matches!(other.acquire_p(&mut s), AcquireOutcome::Wait));
    assert!(w.release_p(&mut s));
    assert!(!w.has_processor());
    assert_eq!(s.idle_processors(), 1);
    assert_eq!(s.active_workers(), 0);
    assert!(matches!(other.acquire_p(&mut s), AcquireOutcome::Acquired));
    assert!(other.has_processor());
}

#[test]
fn gmp_acquire_gives_up_after_shutdown() {
    let mut s: SharedState<u64> = SharedState::new(0);
    let mut w = Worker::new(0, 0u64);
    assert!(matches!(w.find_processor(&mut s), FindOutcome::ShutDown));
    assert!(matches!(w.acquire_p(&mut s), AcquireOutcome::ShutDown));
}

#[test]
fn gmp_yielded_task_without_processor_is_dropped() {
    let mut s: SharedState<u64> = SharedState::new(1);
    let mut w = Worker::new(0, 0u64);
    assert!(matches!(w.find_processor(&mut s), FindOutcome::Acquired));
    w.start_task(task(3));
    assert!(w.release_p(&mut s));
    w.finish_task();
    assert!(!w.has_current_task());
    assert!(matches!(w.acquire_p(&mut s), AcquireOutcome::Acquired));
    assert!(matches!(w.next_local_task(), LocalOutcome::Empty));
}

#[test]
fn gmp_switch_to_scheduler_without_task_does_nothing() {
    let mut w: Worker<u64> = Worker::new(0, 3u64);
    assert!(w.switch_to_scheduler().is_none());
    assert!(!w.has_current_task());
    w.start_task(task(4));
    assert_eq!(*w.switch_to_task().0, 3);
}

#[test]
fn gmp_spawn_from_worker_goes_to_global_queue() {
    let mut s: SharedState<u64> = SharedState::new(1);
    let w = Worker::new(0, 0u64);
    w.spawn(&mut s, task(1));
    w.spawn(&mut s, task(2));
    assert_eq!(s.global_len(), 2);
}
