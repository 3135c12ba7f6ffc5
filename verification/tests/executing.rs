use coop_runtime::executor::{run, spawn, Executor, QUEUE_CAPACITY};

#[test]
fn new_executor_is_empty() {
    let mut e = Executor::new();
    assert!(e.has_room());
    assert_eq!(run(&mut e), None);
}

#[test]
fn spawn_then_run_is_fifo() {
    let mut e = Executor::new();
    spawn(&mut e, 1);
    spawn(&mut e, 2);
    spawn(&mut e, 3);
    assert_eq!(run(&mut e), Some(1));
    assert_eq!(run(&mut e), Some(2));
    assert_eq!(run(&mut e), Some(3));
    assert_eq!(run(&mut e), None);
}

#[test]
fn spawned_task_runs_before_later_arrivals() {
    let mut e = Executor::new();
    spawn(&mut e, 7);
    spawn(&mut e, 8);
    assert_eq!(run(&mut e), Some(7));
}

#[test]
fn wake_performs_the_spawn_enqueue() {
    let mut e = Executor::new();
    e.spawn(4);
    assert_eq!(run(&mut e), Some(4));
    assert_eq!(run(&mut e), None);
    e.wake(4);
    assert_eq!(run(&mut e), Some(4));
    assert_eq!(run(&mut e), None);
}

#[test]
fn queue_capacity_is_fixed() {
    let mut e = Executor::new();
    let mut i: usize = 0;
    while i < QUEUE_CAPACITY {
        assert!(e.has_room());
        e.spawn(i);
        i += 1;
    }
    assert!(!e.has_room());
}
