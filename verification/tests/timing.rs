use coop_runtime::sbi::{set_timer, HardwareTimer, INFINITY_TO};
use coop_runtime::timer::{Timeout, Timer, TimerEntry, TimingWheel, MAX_TO};
use coop_runtime::PollResult;

#[test]
fn hardware_timer_starts_disarmed() {
    let hw = HardwareTimer::new();
    assert_eq!(hw.deadline, INFINITY_TO);
}

#[test]
fn set_timer_programs_deadline() {
    let mut hw = HardwareTimer::new();
    set_timer(&mut hw, 123);
    assert_eq!(hw.deadline, 123);
}

#[test]
fn wheel_tracks_min_next_event() {
    let mut w = TimingWheel::new(4, 0);
    assert_eq!(w.min_next_event(), None);
    w.schedule(30, 1);
    w.schedule(10, 2);
    w.schedule(20, 3);
    assert_eq!(w.min_next_event(), Some(10));
    assert_eq!(w.elapsed(), 0);
}

#[test]
fn wheel_fast_forward_splits_on_deadline() {
    let mut w = TimingWheel::new(4, 0);
    w.schedule(10, 1);
    w.schedule(20, 2);
    let fired = w.fast_forward(15);
    assert_eq!(fired, vec![TimerEntry { deadline: 10, waker: 1 }]);
    assert_eq!(w.elapsed(), 15);
    assert_eq!(w.min_next_event(), Some(20));
}

#[test]
fn schedule_elapsed_tick_completes_immediately() {
    let mut t = Timer::new(2, 10);
    let mut hw = HardwareTimer::new();
    let immediate = t.schedule(7, 10, 10, &mut hw);
    assert!(immediate);
    let immediate_past = t.schedule(7, 3, 10, &mut hw);
    assert!(immediate_past);
    assert_eq!(t.wheel.entries.len(), 0);
    assert_eq!(hw.deadline, INFINITY_TO);
}

#[test]
fn schedule_future_tick_stores_and_programs() {
    let mut t = Timer::new(2, 0);
    let mut hw = HardwareTimer::new();
    let immediate = t.schedule(1, 20, 0, &mut hw);
    assert!(!immediate);
    assert_eq!(t.wheel.entries, vec![TimerEntry { deadline: 20, waker: 1 }]);
    assert_eq!(hw.deadline, 20);
}

#[test]
fn wakeup_fires_due_wakers_and_reprograms() {
    let mut t = Timer::new(2, 0);
    let mut hw = HardwareTimer::new();
    assert!(!t.schedule(1, 10, 0, &mut hw));
    assert!(!t.schedule(2, 20, 0, &mut hw));
    assert_eq!(hw.deadline, 10);
    let fired = t.wakeup(15, &mut hw);
    assert_eq!(fired, vec![TimerEntry { deadline: 10, waker: 1 }]);
    assert_eq!(t.wheel.entries, vec![TimerEntry { deadline: 20, waker: 2 }]);
    assert_eq!(hw.deadline, std::cmp::min(20, 15 + MAX_TO));
}

#[test]
fn wakeup_past_everything_disarms_the_line() {
    let mut t = Timer::new(2, 0);
    let mut hw = HardwareTimer::new();
    assert!(!t.schedule(1, 10, 0, &mut hw));
    let fired = t.wakeup(25, &mut hw);
    assert_eq!(fired.len(), 1);
    assert_eq!(t.wheel.entries.len(), 0);
    assert_eq!(hw.deadline, INFINITY_TO);
}

#[test]
fn retime_reprograms_only_on_a_changed_minimum() {
    let mut t = Timer::new(2, 0);
    let mut hw = HardwareTimer::new();
    assert!(!t.schedule(1, 10, 0, &mut hw));
    assert!(!t.retime(0, &mut hw));
    assert_eq!(hw.deadline, 10);
}

#[test]
fn no_reprogram_while_min_deadline_unchanged() {
    let mut t = Timer::new(2, 0);
    let mut hw = HardwareTimer::new();
    let far = MAX_TO + 5;
    assert!(!t.schedule(1, far, 0, &mut hw));
    assert_eq!(hw.deadline, MAX_TO);
    let fired = t.wakeup(3, &mut hw);
    assert!(fired.is_empty());
    assert_eq!(hw.deadline, MAX_TO);
}

#[test]
fn reprogram_exactly_when_min_deadline_changes() {
    let mut t = Timer::new(3, 0);
    let mut hw = HardwareTimer::new();
    assert!(!t.schedule(1, 50, 0, &mut hw));
    assert_eq!(hw.deadline, 50);
    assert!(!t.schedule(2, 30, 0, &mut hw));
    assert_eq!(hw.deadline, 30);
    assert!(!t.schedule(3, 40, 0, &mut hw));
    assert_eq!(hw.deadline, 30);
}

#[test]
fn timer_const_new_is_empty_at_zero() {
    let t = Timer::const_new();
    assert_eq!(t.wheel.elapsed, 0);
    assert_eq!(t.wheel.capacity, 2);
    assert!(t.wheel.entries.is_empty());
    assert_eq!(t.cur_timeout, None);
}

#[test]
fn timeout_polls_ready_once_elapsed() {
    let mut t = Timer::new(2, 10);
    let mut hw = HardwareTimer::new();
    let due = Timeout::from(5, 0);
    assert_eq!(due.target_tick, 5);
    assert_eq!(due.poll(&mut t, &mut hw, 1, 10), PollResult::Ready);
    let ahead = Timeout::from(10, 7);
    assert_eq!(ahead.target_tick, 17);
    assert_eq!(ahead.poll(&mut t, &mut hw, 1, 10), PollResult::Pending);
    assert_eq!(t.wheel.entries, vec![TimerEntry { deadline: 17, waker: 1 }]);
}

#[test]
fn timeout_suspends_then_resolves_through_a_wakeup() {
    let mut t = Timer::new(2, 0);
    let mut hw = HardwareTimer::new();
    let to = Timeout::from(0, 5);
    assert_eq!(to.poll(&mut t, &mut hw, 1, 0), PollResult::Pending);
    let fired = t.wakeup(5, &mut hw);
    assert_eq!(fired, vec![TimerEntry { deadline: 5, waker: 1 }]);
    assert_eq!(to.poll(&mut t, &mut hw, 1, 5), PollResult::Ready);
}

#[test]
fn timeout_past_clock_range_completes_immediately() {
    let to = Timeout::from(u64::MAX, 2);
    assert_eq!(to.target_tick, 0);
    let mut t = Timer::new(2, 0);
    let mut hw = HardwareTimer::new();
    assert_eq!(to.poll(&mut t, &mut hw, 1, 0), PollResult::Ready);
    assert!(t.wheel.entries.is_empty());
}
