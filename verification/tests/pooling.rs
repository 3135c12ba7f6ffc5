use coop_runtime::executor::Executor;
use coop_runtime::sbi::{HardwareTimer, INFINITY_TO};
use coop_runtime::scheduler::{FifoScheduler, Scheduler};
use coop_runtime::waker_pool::{SleepFuture, ThreadContext, ThreadFuture, WakerPool};
use coop_runtime::PollResult;

struct DummyContext(u32);

impl ThreadContext for DummyContext {}

fn pool(max_proc_num: usize) -> WakerPool<DummyContext, FifoScheduler> {
    WakerPool::new(FifoScheduler::new(), max_proc_num, 4, 0)
}

#[test]
fn add_on_a_full_single_slot_pool_would_be_fatal() {
    let mut p = pool(1);
    assert!(p.has_free_slot());
    let tid = p.add(DummyContext(1));
    assert_eq!(tid, 0);
    assert!(!p.has_free_slot());
}

#[test]
fn add_takes_the_first_free_slot_and_never_a_live_one() {
    let mut p = pool(2);
    let a = p.add(DummyContext(1));
    let b = p.add(DummyContext(2));
    assert_eq!(a, 0);
    assert_eq!(b, 1);
    assert_ne!(a, b);
    assert!(!p.has_free_slot());
}

#[test]
fn completed_slot_is_reclaimed_on_the_next_scan() {
    let mut p = pool(1);
    let tid = p.add(DummyContext(1));
    assert!(!p.has_free_slot());
    let sid = p.threads[tid].unwrap();
    p.thread_states[sid].completed = true;
    assert!(p.has_free_slot());
    let tid_again = p.add(DummyContext(2));
    assert_eq!(tid_again, tid);
    assert!(!p.thread_states[p.threads[tid_again].unwrap()].completed);
}

#[test]
fn run_hands_out_the_added_thread_as_a_shared_future() {
    let mut p = pool(2);
    let tid = p.add(DummyContext(7));
    let fut = p.run(0).expect("the policy was given a thread");
    assert_eq!(Some(fut.state), p.threads[tid]);
    assert_eq!(p.slot_future(tid).state, fut.state);
    assert!(p.run(0).is_none());
    assert_eq!(fut.poll(&mut p.thread_states, 11), PollResult::Pending);
    assert_eq!(p.thread_states[fut.state].waker, Some(11));
    p.thread_states[fut.state].completed = true;
    assert_eq!(fut.poll(&mut p.thread_states, 11), PollResult::Ready);
}

#[test]
fn sleep_zero_resolves_immediately_with_no_wheel_entry() {
    let mut p = pool(1);
    let mut hw = HardwareTimer::new();
    let fut = p.sleep(0, 5, &mut hw);
    assert_eq!(p.timer.wheel.entries.len(), 0);
    assert_eq!(hw.deadline, INFINITY_TO);
    assert_eq!(fut.poll(&mut p.sleep_states, 3), PollResult::Ready);
}

#[test]
fn sleep_pends_until_a_wakeup_passes_its_deadline() {
    let mut p = pool(1);
    let mut exec = Executor::new();
    let mut hw = HardwareTimer::new();
    let fut = p.sleep(5, 0, &mut hw);
    assert_eq!(p.timer.wheel.entries.len(), 1);
    assert_eq!(fut.poll(&mut p.sleep_states, 42), PollResult::Pending);
    p.tick(&mut exec, &mut hw, 0, None, 3);
    assert_eq!(fut.poll(&mut p.sleep_states, 42), PollResult::Pending);
    assert!(exec.queue.is_empty());
    p.tick(&mut exec, &mut hw, 0, None, 5);
    assert_eq!(exec.queue, vec![42]);
    assert_eq!(fut.poll(&mut p.sleep_states, 42), PollResult::Ready);
}

#[test]
fn one_drain_completes_every_due_sleep_exactly_once_in_order() {
    let mut p = pool(1);
    let mut exec = Executor::new();
    let mut hw = HardwareTimer::new();
    let fut_a = p.sleep(2, 0, &mut hw);
    let fut_b = p.sleep(4, 0, &mut hw);
    assert_eq!(fut_a.poll(&mut p.sleep_states, 7), PollResult::Pending);
    assert_eq!(fut_b.poll(&mut p.sleep_states, 8), PollResult::Pending);
    p.tick(&mut exec, &mut hw, 0, None, 4);
    assert_eq!(exec.queue, vec![7, 8]);
    assert_eq!(fut_a.poll(&mut p.sleep_states, 7), PollResult::Ready);
    assert_eq!(fut_b.poll(&mut p.sleep_states, 8), PollResult::Ready);
    p.tick(&mut exec, &mut hw, 0, None, 5);
    assert_eq!(exec.queue, vec![7, 8]);
}

#[test]
fn unpolled_sleep_completes_without_waking_anyone() {
    let mut p = pool(1);
    let mut exec = Executor::new();
    let mut hw = HardwareTimer::new();
    let fut = p.sleep(3, 0, &mut hw);
    p.tick(&mut exec, &mut hw, 0, None, 3);
    assert!(exec.queue.is_empty());
    assert_eq!(fut.poll(&mut p.sleep_states, 1), PollResult::Ready);
}

#[test]
fn tick_off_the_designated_core_leaves_the_timer_alone() {
    let mut p = pool(1);
    let mut exec = Executor::new();
    let mut hw = HardwareTimer::new();
    let _fut = p.sleep(5, 0, &mut hw);
    let armed = hw.deadline;
    let yielded = p.tick(&mut exec, &mut hw, 1, None, 9);
    assert!(!yielded);
    assert_eq!(p.timer.wheel.entries.len(), 1);
    assert!(exec.queue.is_empty());
    assert_eq!(hw.deadline, armed);
}

#[test]
fn tick_forwards_the_active_thread_to_the_policy() {
    let mut p = pool(1);
    let mut exec = Executor::new();
    let mut hw = HardwareTimer::new();
    let tid = p.add(DummyContext(1));
    let yielded = p.tick(&mut exec, &mut hw, 0, Some(tid), 1);
    assert!(!yielded);
}

#[test]
fn set_priority_is_pure_delegation() {
    let mut p = pool(1);
    let tid = p.add(DummyContext(0));
    p.set_priority(tid, 3);
    assert_eq!(p.threads.len(), 1);
    assert!(p.threads[tid].is_some());
}

#[test]
fn fifo_policy_pops_in_push_order_for_any_core() {
    let mut s = FifoScheduler::new();
    s.push(2);
    s.push(0);
    s.push(1);
    assert_eq!(s.pop(0), Some(2));
    assert_eq!(s.pop(1), Some(0));
    assert_eq!(s.pop(0), Some(1));
    assert_eq!(s.pop(0), None);
    assert!(!s.tick(0));
}

#[test]
fn sleep_future_starts_fresh() {
    let mut states = Vec::new();
    let f = SleepFuture::new(&mut states);
    assert_eq!(f.state, 0);
    assert!(!states[0].completed);
    assert_eq!(states[0].waker, None);
}

#[test]
fn thread_futures_have_distinct_identities() {
    let mut states = Vec::new();
    let a = ThreadFuture::new(&mut states, DummyContext(1));
    let b = ThreadFuture::new(&mut states, DummyContext(2));
    assert_ne!(a, b);
    let a_again = a;
    assert_eq!(a, a_again);
    assert!(!states[a.state].completed);
    assert!(states[b.state].context.is_some());
}
