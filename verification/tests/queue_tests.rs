use hoolamike::queue::{Action, QueueState};
use hoolamike::temps::TempRegistry;

#[test]
fn racing_requests_start_one_extraction() {
    let mut q = QueueState::new(4);
    // The first of many racing requests for the same entry starts the work.
    assert_eq!(q.request(1, 10), Action::OpenAndExtract);
    // Every further request while it runs waits for that same work.
    for _ in 0..50 {
        assert_eq!(q.request(1, 10), Action::AwaitInFlight);
    }
    q.finish(1, 10, 777);
    // After completion every caller is served the same cached artifact.
    for _ in 0..50 {
        assert_eq!(q.request(1, 10), Action::Serve(777));
    }
}

#[test]
fn open_archive_serves_second_entry_without_reopening() {
    let mut q = QueueState::new(2);
    assert_eq!(q.request(1, 10), Action::OpenAndExtract);
    q.finish(1, 10, 1);
    // The archive is already open: only the entry extraction starts.
    assert_eq!(q.request(1, 11), Action::StartExtraction);
}

#[test]
fn bound_is_respected_under_pressure() {
    let mut q = QueueState::new(2);
    assert_eq!(q.request(1, 10), Action::OpenAndExtract);
    assert_eq!(q.request(2, 20), Action::OpenAndExtract);
    // Both slots are open and busy: a third archive must wait.
    assert_eq!(q.request(3, 30), Action::Wait);
    // A completion leaves archive 1 idle; the third archive evicts it.
    q.finish(1, 10, 1);
    assert_eq!(q.request(3, 30), Action::EvictOpenAndExtract(1));
    q.finish(2, 20, 2);
    q.finish(3, 30, 3);
    // Cached results survive eviction of their archive.
    assert_eq!(q.request(1, 10), Action::Serve(1));
}

#[test]
fn eviction_picks_least_recently_used_idle_archive() {
    let mut q = QueueState::new(2);
    assert_eq!(q.request(1, 10), Action::OpenAndExtract);
    assert_eq!(q.request(2, 20), Action::OpenAndExtract);
    q.finish(1, 10, 1);
    q.finish(2, 20, 2);
    // Touch archive 1 so archive 2 becomes the least recently used.
    assert_eq!(q.request(1, 11), Action::StartExtraction);
    q.finish(1, 11, 3);
    assert_eq!(q.request(3, 30), Action::EvictOpenAndExtract(2));
}

#[test]
fn shutdown_names_every_cached_artifact() {
    let mut q = QueueState::new(2);
    assert_eq!(q.request(1, 10), Action::OpenAndExtract);
    q.finish(1, 10, 101);
    assert_eq!(q.request(1, 11), Action::StartExtraction);
    q.finish(1, 11, 102);
    let tokens = q.shutdown();
    assert_eq!(tokens, vec![101, 102]);
    // The queue is empty afterwards: the same request opens anew.
    assert_eq!(q.request(1, 10), Action::OpenAndExtract);
}

#[test]
fn registry_tracks_live_temp_files() {
    let mut reg = TempRegistry::new();
    let t1 = reg.create().unwrap();
    let t2 = reg.create().unwrap();
    assert_ne!(t1, t2);
    assert!(reg.release(t1));
    // A released token is no longer live.
    assert!(!reg.release(t1));
    let rest = reg.drain();
    assert_eq!(rest, vec![t2]);
    // After draining nothing is live.
    assert!(!reg.release(t2));
}

#[test]
fn registry_drain_after_drop_like_teardown_leaves_nothing() {
    let mut reg = TempRegistry::new();
    for _ in 0..10 {
        reg.create().unwrap();
    }
    let live = reg.drain();
    assert_eq!(live.len(), 10);
    assert_eq!(reg.drain(), Vec::<u64>::new());
}
