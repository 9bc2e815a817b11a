use hoolamike::dispatch::{batch_succeeded, resolve_batch, step_state, DirectiveState};
use hoolamike::hash_path::ArchiveHashPath;
use hoolamike::modlist::{sort_directives, CreateBSADirective, Directive, DirectiveKind,
    FromArchiveDirective, InlineFileDirective, PatchedFromArchiveDirective,
    RemappedInlineFileDirective};
use hoolamike::paths::MaybeWindowsPath;
use hoolamike::resolver::{ArchiveDescriptor, DownloadSummary, ResolveError,
    WithArchiveDescriptor};

fn summary_with(hashes: &[&str]) -> DownloadSummary {
    let mut reports = Vec::new();
    for h in hashes {
        reports.push(WithArchiveDescriptor {
            inner: format!("/downloads/{}.7z", h),
            descriptor: ArchiveDescriptor {
                hash: h.to_string(),
                meta: String::new(),
                name: format!("{}.7z", h),
                size: 100,
            },
        });
    }
    DownloadSummary::from_reports(reports)
}

fn from_archive(hash_path_root: &str) -> Directive {
    Directive::FromArchive(FromArchiveDirective {
        hash: String::from("h"),
        size: 10,
        to: MaybeWindowsPath(String::from("out\\file.bin")),
        archive_hash_path: ArchiveHashPath {
            source_hash: hash_path_root.to_string(),
            path: vec![MaybeWindowsPath(String::from("inner\\entry.bin"))],
        },
    })
}

fn inline_file() -> Directive {
    Directive::InlineFile(InlineFileDirective {
        hash: String::from("h"),
        size: 1,
        source_data_id: String::from("id"),
        to: MaybeWindowsPath(String::from("a.txt")),
    })
}

#[test]
fn one_bad_directive_fails_alone() {
    let summary = summary_with(&["aaa", "bbb"]);
    // Five directives; the third names an archive that was never downloaded.
    let directives = vec![
        from_archive("aaa"),
        from_archive("bbb"),
        from_archive("nonexistent"),
        from_archive("aaa"),
        inline_file(),
    ];
    let (ready, failures) = resolve_batch(&summary, &directives);
    assert_eq!(ready.len(), 4);
    assert_eq!(failures.len(), 1);
    assert_eq!(failures[0].index, 2);
    match &failures[0].error {
        ResolveError::UnknownArchiveHash(h) => assert_eq!(h, "nonexistent"),
    }
    assert!(!batch_succeeded(&failures));
}

#[test]
fn clean_batch_succeeds() {
    let summary = summary_with(&["aaa"]);
    let directives = vec![from_archive("aaa"), inline_file()];
    let (ready, failures) = resolve_batch(&summary, &directives);
    assert_eq!(ready.len(), 2);
    assert!(batch_succeeded(&failures));
    // Resolution already normalized the in-archive path separators.
    let source = ready[0].source.as_ref().unwrap();
    assert_eq!(source.root_path, "/downloads/aaa.7z");
    assert_eq!(source.steps, vec![String::from("inner/entry.bin")]);
    // The inline directive reads no archive.
    assert!(ready[1].source.is_none());
}

#[test]
fn directives_sort_into_priority_tiers() {
    let d1 = Directive::CreateBSA(CreateBSADirective {
        hash: String::from("h"),
        size: 1,
        to: MaybeWindowsPath(String::from("a.bsa")),
    });
    let d2 = inline_file();
    let d3 = Directive::PatchedFromArchive(PatchedFromArchiveDirective {
        hash: String::from("h"),
        size: 1,
        to: MaybeWindowsPath(String::from("p.bin")),
        archive_hash_path: ArchiveHashPath {
            source_hash: String::from("aaa"),
            path: vec![MaybeWindowsPath(String::from("x"))],
        },
        from_hash: String::from("f"),
        patch_id: String::from("patch-1"),
    });
    let d4 = Directive::RemappedInlineFile(RemappedInlineFileDirective {
        hash: String::from("h"),
        size: 1,
        source_data_id: String::from("id2"),
        to: MaybeWindowsPath(String::from("b.ini")),
    });
    let d5 = from_archive("aaa");
    let sorted = sort_directives(vec![d1, d2, d3, d4, d5]);
    let kinds: Vec<DirectiveKind> = sorted.iter().map(|d| d.directive_kind()).collect();
    assert_eq!(
        kinds,
        vec![
            DirectiveKind::InlineFile,
            DirectiveKind::FromArchive,
            DirectiveKind::PatchedFromArchive,
            DirectiveKind::RemappedInlineFile,
            DirectiveKind::CreateBSA,
        ]
    );
    let priorities: Vec<u64> = sorted.iter().map(|d| d.priority()).collect();
    assert_eq!(priorities, vec![10, 11, 12, 13, 250]);
}

#[test]
fn directive_sizes_and_kinds() {
    let d = from_archive("aaa");
    assert_eq!(d.size(), 10);
    assert_eq!(d.directive_kind(), DirectiveKind::FromArchive);
    assert!(d.archive_path().is_some());
    assert!(inline_file().archive_path().is_none());
}

#[test]
fn lifecycle_steps_forward_and_fails_from_live_states() {
    assert_eq!(
        step_state(DirectiveState::Pending, DirectiveState::Resolving),
        Ok(DirectiveState::Resolving)
    );
    assert_eq!(
        step_state(DirectiveState::Resolving, DirectiveState::Extracting),
        Ok(DirectiveState::Extracting)
    );
    assert_eq!(
        step_state(DirectiveState::Extracting, DirectiveState::Failed),
        Ok(DirectiveState::Failed)
    );
    // No steps out of terminal states, no skipping ahead.
    assert_eq!(
        step_state(DirectiveState::Done, DirectiveState::Failed),
        Err(DirectiveState::Done)
    );
    assert_eq!(
        step_state(DirectiveState::Pending, DirectiveState::Done),
        Err(DirectiveState::Pending)
    );
}
