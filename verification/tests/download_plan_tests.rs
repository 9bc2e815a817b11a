use hoolamike::download_plan::{download_output_path, order_chunks, plan_sync, verify_local_file,
    DownloadState, SyncAction, VerifyOutcome};

#[test]
fn cache_verification_checks_in_order() {
    let good = String::from("HASHTEXT");
    let bad = String::from("OTHER");
    assert!(matches!(verify_local_file(false, 0, 10, &good, &good), VerifyOutcome::Missing));
    assert!(matches!(
        verify_local_file(true, 9, 10, &good, &good),
        VerifyOutcome::WrongSize { expected: 10, found: 9 }
    ));
    match verify_local_file(true, 10, 10, &bad, &good) {
        VerifyOutcome::WrongHash { expected, found } => {
            assert_eq!(expected, "HASHTEXT");
            assert_eq!(found, "OTHER");
        }
        other => panic!("expected a hash mismatch, got {:?}", other),
    }
    assert!(matches!(verify_local_file(true, 10, 10, &good, &good), VerifyOutcome::Verified));
}

#[test]
fn each_source_kind_plans_its_action() {
    assert!(matches!(
        plan_sync(DownloadState::Http { url: String::from("https://example.net/a.7z") }),
        SyncAction::Download { .. }
    ));
    assert!(matches!(
        plan_sync(DownloadState::Mega { url: String::from("u") }),
        SyncAction::Download { .. }
    ));
    assert!(matches!(
        plan_sync(DownloadState::MediaFire { url: String::from("u") }),
        SyncAction::Download { .. }
    ));
    assert!(matches!(
        plan_sync(DownloadState::WabbajackCDN { url: String::from("u") }),
        SyncAction::ResolveCdn { .. }
    ));
    assert!(matches!(
        plan_sync(DownloadState::GoogleDrive { id: String::from("id") }),
        SyncAction::ResolveGoogleDrive { .. }
    ));
    assert!(matches!(
        plan_sync(DownloadState::GameFileSource {
            game: String::from("g"),
            game_file: String::from("f"),
        }),
        SyncAction::CopyGameFile { .. }
    ));
    match plan_sync(DownloadState::Nexus {
        game_name: String::from("skyrim"),
        mod_id: 12,
        file_id: 34,
    }) {
        SyncAction::ResolveNexus { game_name, mod_id, file_id } => {
            assert_eq!(game_name, "skyrim");
            assert_eq!(mod_id, 12);
            assert_eq!(file_id, 34);
        }
        _ => panic!("a nexus source needs a nexus resolution"),
    }
    match plan_sync(DownloadState::Manual {
        prompt: String::from("get it yourself"),
        url: String::from("https://example.net"),
    }) {
        SyncAction::ManualRequired { prompt, .. } => assert_eq!(prompt, "get it yourself"),
        _ => panic!("a manual source requires the user"),
    }
}

#[test]
fn output_path_is_name_under_root() {
    assert_eq!(download_output_path("/cache/downloads", "mod.7z"), "/cache/downloads/mod.7z");
}

#[test]
fn chunks_merge_in_index_order() {
    let finished = vec![
        (2usize, String::from("c2")),
        (0usize, String::from("c0")),
        (3usize, String::from("c3")),
        (1usize, String::from("c1")),
    ];
    let ordered = order_chunks(finished);
    let indices: Vec<usize> = ordered.iter().map(|c| c.0).collect();
    assert_eq!(indices, vec![0, 1, 2, 3]);
    let names: Vec<&str> = ordered.iter().map(|c| c.1.as_str()).collect();
    assert_eq!(names, vec!["c0", "c1", "c2", "c3"]);
}
