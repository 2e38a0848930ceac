use script::microtask::{Microtask, MicrotaskQueue};

#[test]
fn checkpoint_runs_fifo_and_appends_spawns_behind() {
    let mut mq = MicrotaskQueue::new();
    let c = Microtask { id: 3, spawns: Vec::new() };
    let a = Microtask { id: 1, spawns: vec![c] };
    let b = Microtask { id: 2, spawns: Vec::new() };
    mq.enqueue(a);
    mq.enqueue(b);
    let ran = mq.checkpoint();
    // a runs first and enqueues c behind b
    assert_eq!(ran, vec![1, 2, 3]);
    assert!(mq.is_empty());
}

#[test]
fn checkpoint_drains_transitive_spawns() {
    let mut mq = MicrotaskQueue::new();
    let d = Microtask { id: 4, spawns: Vec::new() };
    let c = Microtask { id: 3, spawns: vec![d] };
    let b = Microtask { id: 2, spawns: vec![c] };
    let a = Microtask { id: 1, spawns: vec![b] };
    mq.enqueue(a);
    let ran = mq.checkpoint();
    assert_eq!(ran, vec![1, 2, 3, 4]);
    assert!(mq.is_empty());
}

#[test]
fn checkpoint_of_empty_queue_runs_nothing() {
    let mut mq = MicrotaskQueue::new();
    let ran = mq.checkpoint();
    assert_eq!(ran, Vec::<u64>::new());
    assert!(mq.is_empty());
}
