use script::event_loop::{EventLoop, QueueError};
use script::microtask::Microtask;
use script::task::{Task, TaskSourceName};

fn plain_task(id: u64, source: TaskSourceName, pipeline: u64) -> Task {
    Task { id, source, pipeline, canceller: None, body: Vec::new() }
}

#[test]
fn fifo_within_one_source() {
    let mut el = EventLoop::new(1, EventLoop::default_ranks());
    for id in [10u64, 11, 12] {
        let r = el.queue_task(plain_task(id, TaskSourceName::DomManipulation, 1));
        assert!(r.is_ok());
    }
    let runs = el.run_all();
    let ids: Vec<u64> = runs.iter().map(|r| r.task).collect();
    assert_eq!(ids, vec![10, 11, 12]);
}

#[test]
fn cross_source_priority_with_fifo_within_source() {
    // A(timer), B(network), C(timer), with timer ranked below network:
    // B first, then A before C.
    let mut el = EventLoop::new(1, EventLoop::default_ranks());
    el.queue_task(plain_task(1, TaskSourceName::Timer, 1)).unwrap();
    el.queue_task(plain_task(2, TaskSourceName::Networking, 1)).unwrap();
    el.queue_task(plain_task(3, TaskSourceName::Timer, 1)).unwrap();
    let runs = el.run_all();
    let ids: Vec<u64> = runs.iter().map(|r| r.task).collect();
    assert_eq!(ids, vec![2, 1, 3]);
}

#[test]
fn user_interaction_beats_other_sources() {
    let mut el = EventLoop::new(1, EventLoop::default_ranks());
    el.queue_task(plain_task(1, TaskSourceName::Networking, 1)).unwrap();
    el.queue_task(plain_task(2, TaskSourceName::UserInteraction, 1)).unwrap();
    let runs = el.run_all();
    let ids: Vec<u64> = runs.iter().map(|r| r.task).collect();
    assert_eq!(ids, vec![2, 1]);
}

#[test]
fn cancelled_task_is_skipped_not_run() {
    let mut el = EventLoop::new(1, EventLoop::default_ranks());
    let c = el.new_canceller();
    el.queue_task(Task {
        id: 5,
        source: TaskSourceName::DomManipulation,
        pipeline: 1,
        canceller: Some(c),
        body: Vec::new(),
    })
    .unwrap();
    el.queue_task(plain_task(6, TaskSourceName::DomManipulation, 1)).unwrap();
    el.cancel(c);
    let runs = el.run_all();
    let ids: Vec<u64> = runs.iter().map(|r| r.task).collect();
    assert_eq!(ids, vec![6]);
}

#[test]
fn teardown_fails_later_submissions() {
    let mut el = EventLoop::new(7, EventLoop::default_ranks());
    el.queue_task(plain_task(1, TaskSourceName::Networking, 7)).unwrap();
    el.teardown();
    assert!(el.is_torn_down());
    let r = el.queue_task(plain_task(2, TaskSourceName::Networking, 7));
    assert_eq!(r, Err(QueueError::PipelineGone));
    // pending work was dropped
    assert!(el.run_one().is_none());
    // idempotent
    el.teardown();
    assert!(el.is_torn_down());
}

#[test]
fn microtasks_drain_before_next_task() {
    // M1 enqueued inside task T spawns M2 during its own run; both drain
    // before any further task runs.
    let mut el = EventLoop::new(1, EventLoop::default_ranks());
    let m2 = Microtask { id: 22, spawns: Vec::new() };
    let m1 = Microtask { id: 21, spawns: vec![m2] };
    el.queue_task(Task {
        id: 1,
        source: TaskSourceName::DomManipulation,
        pipeline: 1,
        canceller: None,
        body: vec![m1],
    })
    .unwrap();
    el.queue_task(plain_task(2, TaskSourceName::DomManipulation, 1)).unwrap();
    let first = el.run_one().unwrap();
    assert_eq!(first.task, 1);
    assert_eq!(first.microtasks, vec![21, 22]);
    let second = el.run_one().unwrap();
    assert_eq!(second.task, 2);
    assert_eq!(second.microtasks, Vec::<u64>::new());
}

#[test]
fn equal_rank_sources_take_turns() {
    // DOM manipulation and networking share a rank; the loop rotates
    // among them instead of starving one
    let mut el = EventLoop::new(1, EventLoop::default_ranks());
    el.queue_task(plain_task(1, TaskSourceName::DomManipulation, 1)).unwrap();
    el.queue_task(plain_task(2, TaskSourceName::DomManipulation, 1)).unwrap();
    el.queue_task(plain_task(3, TaskSourceName::Networking, 1)).unwrap();
    el.queue_task(plain_task(4, TaskSourceName::Networking, 1)).unwrap();
    let runs = el.run_all();
    let ids: Vec<u64> = runs.iter().map(|r| r.task).collect();
    assert_eq!(ids, vec![1, 3, 2, 4]);
}

#[test]
fn run_one_on_empty_loop_is_none() {
    let mut el = EventLoop::new(1, EventLoop::default_ranks());
    assert!(el.run_one().is_none());
}
