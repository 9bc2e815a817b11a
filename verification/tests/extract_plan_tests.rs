use hoolamike::extract_plan::{plan_extraction, resolve_path, ArchiveEntry, PlanError};

fn entry(name: &str, path: &str, block: Option<u64>) -> ArchiveEntry {
    ArchiveEntry { name: name.to_string(), path: path.to_string(), block }
}

#[test]
fn case_insensitive_fallback_resolves_and_is_flagged() {
    let listing = vec![entry("Foo/Bar.DDS", "Foo/Bar.DDS", None)];
    let requested = vec![String::from("foo/bar.dds")];
    let plan = plan_extraction(&listing, &requested).unwrap();
    assert_eq!(plan.len(), 1);
    assert_eq!(plan[0].items.len(), 1);
    let item = &plan[0].items[0];
    assert_eq!(item.entry, 0);
    assert_eq!(item.entry_name, "Foo/Bar.DDS");
    // The fallback is flagged so the caller warns, rather than erroring.
    assert!(item.fallback);
}

#[test]
fn exact_match_wins_over_fallback_and_is_not_flagged() {
    let listing = vec![
        entry("foo/BAR.dds", "foo/BAR.dds", None),
        entry("foo/bar.dds", "foo/bar.dds", None),
    ];
    let requested = vec![String::from("foo/bar.dds")];
    let plan = plan_extraction(&listing, &requested).unwrap();
    let item = &plan[0].items[0];
    assert_eq!(item.entry, 1);
    assert!(!item.fallback);
}

#[test]
fn ambiguous_casing_is_an_error_not_a_guess() {
    let listing = vec![
        entry("foo/BAR.dds", "foo/BAR.dds", None),
        entry("FOO/bar.DDS", "FOO/bar.DDS", None),
    ];
    let requested = vec![String::from("foo/bar.dds")];
    match plan_extraction(&listing, &requested) {
        Err(PlanError::AmbiguousCasing { req_index, path }) => {
            assert_eq!(req_index, 0);
            assert_eq!(path, "foo/bar.dds");
        }
        other => panic!("expected an ambiguity error, got {:?}", other.is_ok()),
    }
}

#[test]
fn missing_path_is_an_error_naming_the_request() {
    let listing = vec![entry("a.txt", "a.txt", None)];
    let requested = vec![String::from("a.txt"), String::from("b.txt")];
    match plan_extraction(&listing, &requested) {
        Err(PlanError::MissingPath { req_index, path }) => {
            assert_eq!(req_index, 1);
            assert_eq!(path, "b.txt");
        }
        other => panic!("expected a missing-path error, got {:?}", other.is_ok()),
    }
}

#[test]
fn solid_block_is_planned_once_for_many_entries() {
    // Ten entries in block 7; three are wanted.
    let mut listing = Vec::new();
    for i in 0..10 {
        let p = format!("dir/file{}.bin", i);
        listing.push(entry(&p, &p, Some(7)));
    }
    let requested = vec![
        String::from("dir/file1.bin"),
        String::from("dir/file4.bin"),
        String::from("dir/file8.bin"),
    ];
    let plan = plan_extraction(&listing, &requested).unwrap();
    // One planned decode of block 7, serving exactly the three wanted
    // entries; the other seven never appear in the plan.
    assert_eq!(plan.len(), 1);
    assert_eq!(plan[0].block, Some(7));
    assert_eq!(plan[0].items.len(), 3);
    let mut wanted: Vec<String> =
        plan[0].items.iter().map(|i| i.requested.clone()).collect();
    wanted.sort();
    assert_eq!(wanted, requested);
}

#[test]
fn blocks_are_distinct_and_cover_all_requests() {
    let listing = vec![
        entry("a", "a", Some(1)),
        entry("b", "b", Some(2)),
        entry("c", "c", Some(1)),
        entry("d", "d", None),
    ];
    let requested = vec![
        String::from("a"),
        String::from("b"),
        String::from("c"),
        String::from("d"),
    ];
    let plan = plan_extraction(&listing, &requested).unwrap();
    assert_eq!(plan.len(), 3);
    let total: usize = plan.iter().map(|b| b.items.len()).sum();
    assert_eq!(total, 4);
    for (i, b1) in plan.iter().enumerate() {
        for b2 in &plan[i + 1..] {
            assert_ne!(b1.block, b2.block);
        }
    }
}

#[test]
fn resolve_path_classifies() {
    let listing = vec![entry("A.txt", "A.txt", None)];
    // Exact.
    let (found, ambiguous) = resolve_path(&listing, &String::from("A.txt"));
    assert_eq!(found, Some((0, false)));
    assert!(!ambiguous);
    // Fallback.
    let (found, ambiguous) = resolve_path(&listing, &String::from("a.TXT"));
    assert_eq!(found, Some((0, true)));
    assert!(!ambiguous);
    // Missing.
    let (found, ambiguous) = resolve_path(&listing, &String::from("b.txt"));
    assert_eq!(found, None);
    assert!(!ambiguous);
}
