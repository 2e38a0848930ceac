use script::event_loop::EventLoop;
use script::task::TaskSourceName;
use script::timers::{TimerPolicy, TimerScheduler};

fn policy() -> TimerPolicy {
    TimerPolicy { min_interval: 10, nesting_threshold: 5, nested_min_interval: 100 }
}

#[test]
fn timer_never_fires_before_its_deadline() {
    let mut el = EventLoop::new(1, EventLoop::default_ranks());
    let mut sched = TimerScheduler::new(policy());
    sched.set_timer(&mut el, 0, 50, false, 0, TaskSourceName::Timer, 42);
    let fired = sched.fire_due(&mut el, 49);
    assert_eq!(fired.len(), 0);
    assert!(el.run_one().is_none());
    let fired = sched.fire_due(&mut el, 50);
    assert_eq!(fired.len(), 1);
    assert_eq!(fired[0].deadline, 50);
    let run = el.run_one().unwrap();
    assert_eq!(run.task, 42);
}

#[test]
fn due_timers_fire_in_deadline_order_ties_by_creation() {
    let mut el = EventLoop::new(1, EventLoop::default_ranks());
    let mut sched = TimerScheduler::new(policy());
    sched.set_timer(&mut el, 0, 30, false, 0, TaskSourceName::Timer, 103);
    sched.set_timer(&mut el, 0, 20, false, 0, TaskSourceName::Timer, 102);
    sched.set_timer(&mut el, 0, 20, false, 0, TaskSourceName::Timer, 104);
    let fired = sched.fire_due(&mut el, 100);
    let callbacks: Vec<u64> = fired.iter().map(|t| t.callback).collect();
    // deadline 20 before 30; among the two at 20, creation order decides
    assert_eq!(callbacks, vec![102, 104, 103]);
    let runs = el.run_all();
    let ids: Vec<u64> = runs.iter().map(|r| r.task).collect();
    assert_eq!(ids, vec![102, 104, 103]);
}

#[test]
fn repeating_timer_is_rescheduled_with_clamped_period() {
    let mut el = EventLoop::new(1, EventLoop::default_ranks());
    let mut sched = TimerScheduler::new(policy());
    // requested period 3 is below the floor of 10
    sched.set_timer(&mut el, 0, 3, true, 0, TaskSourceName::Timer, 9);
    let fired = sched.fire_due(&mut el, 3);
    assert_eq!(fired.len(), 1);
    assert_eq!(fired[0].interval, Some(10));
    // not due again until 3 + 10
    let fired = sched.fire_due(&mut el, 12);
    assert_eq!(fired.len(), 0);
    let fired = sched.fire_due(&mut el, 13);
    assert_eq!(fired.len(), 1);
    assert_eq!(fired[0].deadline, 13);
}

#[test]
fn deeply_nested_timer_gets_the_deeper_floor() {
    let mut el = EventLoop::new(1, EventLoop::default_ranks());
    let mut sched = TimerScheduler::new(policy());
    sched.set_timer(&mut el, 0, 3, true, 6, TaskSourceName::Timer, 9);
    let fired = sched.fire_due(&mut el, 3);
    assert_eq!(fired.len(), 1);
    assert_eq!(fired[0].interval, Some(100));
}

#[test]
fn clearing_a_pending_timer_removes_it() {
    let mut el = EventLoop::new(1, EventLoop::default_ranks());
    let mut sched = TimerScheduler::new(policy());
    let h = sched.set_timer(&mut el, 0, 5, false, 0, TaskSourceName::Timer, 42);
    sched.clear_timer(&mut el, h);
    let fired = sched.fire_due(&mut el, 100);
    assert_eq!(fired.len(), 0);
    assert!(el.run_one().is_none());
    // idempotent
    sched.clear_timer(&mut el, h);
}

#[test]
fn cancelling_after_conversion_to_task_still_skips_it() {
    // the timer has already become a queued task; cancellation must
    // still be observed at dequeue and the task skipped, not executed
    let mut el = EventLoop::new(1, EventLoop::default_ranks());
    let mut sched = TimerScheduler::new(policy());
    let h = sched.set_timer(&mut el, 0, 5, false, 0, TaskSourceName::Timer, 42);
    let fired = sched.fire_due(&mut el, 5);
    assert_eq!(fired.len(), 1);
    sched.clear_timer(&mut el, h);
    assert!(el.run_one().is_none());
}

#[test]
fn shutdown_discards_timers_and_tears_down_the_loop() {
    let mut el = EventLoop::new(1, EventLoop::default_ranks());
    let mut sched = TimerScheduler::new(policy());
    sched.set_timer(&mut el, 0, 5, false, 0, TaskSourceName::Timer, 42);
    sched.shutdown(&mut el);
    assert!(el.is_torn_down());
    assert!(el.run_one().is_none());
}
