use script::document_loader::DocumentLoader;
use script::event_loop::EventLoop;
use script::network_listener::{NetworkEvent, NetworkListener};
use script::task::TaskSourceName;

#[test]
fn one_task_per_notification_and_one_release_per_request() {
    let mut el = EventLoop::new(1, EventLoop::default_ranks());
    // completion task on the user-interaction source so its higher
    // priority makes the expected order deterministic
    let mut loader = DocumentLoader::new(TaskSourceName::UserInteraction, 7);
    loader.add_blocking_load();
    let mut listener = NetworkListener::new(9, true);
    assert!(!listener.on_event(&mut el, &mut loader, NetworkEvent::MetadataReceived));
    assert!(!listener.on_event(&mut el, &mut loader, NetworkEvent::Chunk(1024)));
    assert!(!listener.on_event(&mut el, &mut loader, NetworkEvent::Chunk(512)));
    assert_eq!(loader.blocking_load_count(), 1);
    assert!(listener.on_event(&mut el, &mut loader, NetworkEvent::Done));
    assert_eq!(loader.blocking_load_count(), 0);
    let runs = el.run_all();
    let ids: Vec<u64> = runs.iter().map(|r| r.task).collect();
    // the completion signal plus one notification task per event
    assert_eq!(ids, vec![7, 9, 9, 9, 9]);
}

#[test]
fn an_error_releases_the_blocker_like_a_finish() {
    let mut el = EventLoop::new(1, EventLoop::default_ranks());
    let mut loader = DocumentLoader::new(TaskSourceName::UserInteraction, 7);
    loader.add_blocking_load();
    let mut listener = NetworkListener::new(9, true);
    assert!(listener.on_event(&mut el, &mut loader, NetworkEvent::Errored(404)));
    assert_eq!(loader.blocking_load_count(), 0);
}

#[test]
fn a_request_that_does_not_block_the_load_never_releases() {
    let mut el = EventLoop::new(1, EventLoop::default_ranks());
    let mut loader = DocumentLoader::new(TaskSourceName::UserInteraction, 7);
    loader.add_blocking_load();
    let mut listener = NetworkListener::new(9, false);
    assert!(!listener.on_event(&mut el, &mut loader, NetworkEvent::Chunk(10)));
    assert!(!listener.on_event(&mut el, &mut loader, NetworkEvent::Done));
    assert_eq!(loader.blocking_load_count(), 1);
}
