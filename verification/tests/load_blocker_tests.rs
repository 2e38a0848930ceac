use script::document_loader::DocumentLoader;
use script::event_loop::EventLoop;
use script::task::TaskSourceName;

#[test]
fn completion_fires_exactly_once_after_the_last_remove() {
    let mut el = EventLoop::new(1, EventLoop::default_ranks());
    let mut loader = DocumentLoader::new(TaskSourceName::DomManipulation, 7);
    loader.add_blocking_load();
    loader.add_blocking_load();
    assert_eq!(loader.blocking_load_count(), 2);
    assert!(!loader.remove_blocking_load(&mut el));
    assert!(loader.remove_blocking_load(&mut el));
    assert_eq!(loader.blocking_load_count(), 0);
    let runs = el.run_all();
    let ids: Vec<u64> = runs.iter().map(|r| r.task).collect();
    assert_eq!(ids, vec![7]);
}

#[test]
fn completion_rearms_after_a_new_zero_crossing() {
    let mut el = EventLoop::new(1, EventLoop::default_ranks());
    let mut loader = DocumentLoader::new(TaskSourceName::DomManipulation, 7);
    loader.add_blocking_load();
    assert!(loader.remove_blocking_load(&mut el));
    loader.add_blocking_load();
    assert!(loader.remove_blocking_load(&mut el));
    let runs = el.run_all();
    let ids: Vec<u64> = runs.iter().map(|r| r.task).collect();
    assert_eq!(ids, vec![7, 7]);
}

#[test]
fn no_signal_while_the_counter_is_nonzero() {
    let mut el = EventLoop::new(1, EventLoop::default_ranks());
    let mut loader = DocumentLoader::new(TaskSourceName::DomManipulation, 7);
    loader.add_blocking_load();
    loader.add_blocking_load();
    loader.add_blocking_load();
    assert!(!loader.remove_blocking_load(&mut el));
    assert!(!loader.remove_blocking_load(&mut el));
    assert_eq!(el.run_all().len(), 0);
}
