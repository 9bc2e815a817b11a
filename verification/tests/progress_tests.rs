use hoolamike::progress::{ProgressDelta, ProgressKind, ProgressMap, ProgressMessage,
    ProgressSpan, ProgressState, SpanPath, Update};

fn span(name: &str, total: i64) -> ProgressSpan {
    ProgressSpan {
        name: name.to_string(),
        state: ProgressState { total, current: 0 },
        kind: ProgressKind::Bytes,
    }
}

fn path(ids: &[u64]) -> SpanPath {
    SpanPath(ids.to_vec())
}

#[test]
fn span_paths_relate() {
    let root = path(&[]);
    let a = root.child(1);
    let ab = a.child(2);
    assert_eq!(a.len(), 1);
    assert_eq!(ab.len(), 2);
    assert!(ab.starts_with(&a));
    assert!(ab.starts_with(&root));
    assert!(!a.starts_with(&ab));
    let parent = ab.parent().unwrap();
    assert_eq!(parent.0, vec![1]);
    assert!(root.parent().is_none());
    assert!(root.is_empty());
}

#[test]
fn start_and_finish_run_a_span_through_the_tree() {
    let mut map = ProgressMap::new();
    map.handle(ProgressMessage { span: path(&[1]), update: Update::Start(span("copy", 100)) });
    assert!(map.get(&path(&[1])).is_some());
    map.handle(ProgressMessage {
        span: path(&[1]),
        update: Update::Update(ProgressDelta { total: 0, current: 100 }),
    });
    let record = map.get(&path(&[1])).unwrap();
    assert_eq!(record.state.current, 100);
    assert_eq!(record.state.total, 100);
    map.handle(ProgressMessage { span: path(&[1]), update: Update::Finish });
    assert!(map.get(&path(&[1])).is_none());
}

#[test]
fn finish_with_live_children_is_deferred() {
    let mut map = ProgressMap::new();
    map.handle(ProgressMessage { span: path(&[1]), update: Update::Start(span("parent", 0)) });
    map.handle(ProgressMessage { span: path(&[1, 2]), update: Update::Start(span("child", 1)) });
    // The parent's finish waits while the child is live.
    map.handle(ProgressMessage { span: path(&[1]), update: Update::Finish });
    assert!(map.get(&path(&[1])).is_some());
    // The child finishes; the parent is still tracked until its counters meet.
    map.handle(ProgressMessage { span: path(&[1, 2]), update: Update::Finish });
    assert!(map.get(&path(&[1, 2])).is_none());
}

#[test]
fn updates_install_a_placeholder_when_they_arrive_first() {
    let mut map = ProgressMap::new();
    map.handle(ProgressMessage {
        span: path(&[7]),
        update: Update::Update(ProgressDelta { total: 10, current: 3 }),
    });
    let record = map.get(&path(&[7])).unwrap();
    assert_eq!(record.state.total, 10);
    assert_eq!(record.state.current, 3);
}

#[test]
fn deferred_finish_fires_when_the_last_child_completes() {
    let mut map = ProgressMap::new();
    map.handle(ProgressMessage { span: path(&[1]), update: Update::Start(span("parent", 0)) });
    map.handle(ProgressMessage { span: path(&[1, 2]), update: Update::Start(span("child", 0)) });
    map.handle(ProgressMessage { span: path(&[1]), update: Update::Finish });
    assert!(map.get(&path(&[1])).is_some());
    map.handle(ProgressMessage { span: path(&[1, 2]), update: Update::Finish });
    // The child's completion bumped the parent's counters to meet, so the
    // deferred finish then removed the parent too.
    assert!(map.get(&path(&[1, 2])).is_none());
    assert!(map.get(&path(&[1])).is_none());
}

#[test]
fn updates_touch_only_the_addressed_span() {
    let mut map = ProgressMap::new();
    map.handle(ProgressMessage { span: path(&[1]), update: Update::Start(span("a", 5)) });
    map.handle(ProgressMessage { span: path(&[2]), update: Update::Start(span("b", 7)) });
    map.handle(ProgressMessage {
        span: path(&[1]),
        update: Update::Update(ProgressDelta { total: 0, current: 2 }),
    });
    let a = map.get(&path(&[1])).unwrap();
    assert_eq!(a.state.total, 5);
    assert_eq!(a.state.current, 2);
    let b = map.get(&path(&[2])).unwrap();
    assert_eq!(b.state.total, 7);
    assert_eq!(b.state.current, 0);
}

#[test]
fn deltas_saturate_instead_of_trapping() {
    let mut state = ProgressState { total: i64::MAX - 1, current: 0 };
    ProgressDelta { total: 10, current: -3 }.apply(&mut state);
    assert_eq!(state.total, i64::MAX);
    assert_eq!(state.current, -3);
}
