use hoolamike::hash_path::ArchiveHashPath;
use hoolamike::paths::MaybeWindowsPath;
use hoolamike::resolver::{plan_nested_rounds, ArchiveDescriptor, DownloadSummary,
    ResolveError, ResolvedSource, WithArchiveDescriptor};

fn report(hash: &str, path: &str) -> WithArchiveDescriptor<String> {
    WithArchiveDescriptor {
        inner: path.to_string(),
        descriptor: ArchiveDescriptor {
            hash: hash.to_string(),
            meta: String::from("meta"),
            name: format!("{}.7z", hash),
            size: 7,
        },
    }
}

#[test]
fn lookup_finds_inserted_entries() {
    let summary = DownloadSummary::from_reports(vec![
        report("aaa", "/d/a.7z"),
        report("bbb", "/d/b.7z"),
    ]);
    assert_eq!(summary.lookup(&String::from("aaa")).unwrap().inner, "/d/a.7z");
    assert_eq!(summary.lookup(&String::from("bbb")).unwrap().inner, "/d/b.7z");
    assert!(summary.lookup(&String::from("ccc")).is_none());
}

#[test]
fn duplicate_report_for_a_hash_is_replaced_by_the_last() {
    let summary = DownloadSummary::from_reports(vec![
        report("aaa", "/d/old.7z"),
        report("bbb", "/d/b.7z"),
        report("aaa", "/d/new.7z"),
    ]);
    assert_eq!(summary.lookup(&String::from("aaa")).unwrap().inner, "/d/new.7z");
}

#[test]
fn resolve_known_hash_normalizes_each_step() {
    let summary = DownloadSummary::from_reports(vec![report("root", "/d/root.7z")]);
    let p = ArchiveHashPath {
        source_hash: String::from("root"),
        path: vec![
            MaybeWindowsPath(String::from("nested\\inner.bsa")),
            MaybeWindowsPath(String::from("deep\\\\file.dds")),
        ],
    };
    let rs = summary.resolve_archive_path(&p).unwrap();
    assert_eq!(rs.root_path, "/d/root.7z");
    assert_eq!(rs.steps, vec![String::from("nested/inner.bsa"), String::from("deep/file.dds")]);
}

#[test]
fn resolve_unknown_hash_names_it() {
    let summary = DownloadSummary::from_reports(vec![report("root", "/d/root.7z")]);
    let p = ArchiveHashPath {
        source_hash: String::from("ghost"),
        path: vec![MaybeWindowsPath(String::from("x"))],
    };
    match summary.resolve_archive_path(&p) {
        Err(ResolveError::UnknownArchiveHash(h)) => assert_eq!(h, "ghost"),
        Ok(_) => panic!("resolution should have failed"),
    }
}

#[test]
fn hash_path_serializes_flat() {
    let p = ArchiveHashPath {
        source_hash: String::from("roothash"),
        path: vec![
            MaybeWindowsPath(String::from("a.bsa")),
            MaybeWindowsPath(String::from("b.dds")),
        ],
    };
    let flat = p.serialize();
    assert_eq!(flat, vec![
        String::from("roothash"),
        String::from("a.bsa"),
        String::from("b.dds"),
    ]);
}

#[test]
fn hash_path_parses_back() {
    let flat = vec![
        String::from("roothash"),
        String::from("a.bsa"),
        String::from("b.dds"),
    ];
    let p = ArchiveHashPath::parse(&flat).unwrap();
    assert_eq!(p.source_hash, "roothash");
    assert_eq!(p.path.len(), 2);
    assert_eq!(p.path[0].0, "a.bsa");
    assert_eq!(p.path[1].0, "b.dds");
    assert_eq!(p.serialize(), flat);
}

fn source(root: &str, steps: &[&str]) -> ResolvedSource {
    ResolvedSource {
        root_path: root.to_string(),
        steps: steps.iter().map(|s| s.to_string()).collect(),
    }
}

fn demanded(round: &[hoolamike::resolver::NestedDemand], container: &[&str], step: &str) -> bool {
    round.iter().any(|d| {
        d.step == step && d.container.len() == container.len()
            && d.container.iter().zip(container.iter()).all(|(a, b)| a == b)
    })
}

#[test]
fn nested_rounds_walk_each_chain_step_by_step() {
    // Two sources descend through the same inner archive; one stops at the
    // root. The shared inner extraction is planned once, in round zero; the
    // leaves wait for round one, keyed by the inner artifact's chain.
    let sources = vec![
        source("/d/root.7z", &["a/inner.7z", "file.dds"]),
        source("/d/root.7z", &["a/inner.7z", "other.dds"]),
        source("/d/root.7z", &["plain.txt"]),
    ];
    let rounds = plan_nested_rounds(&sources);
    assert_eq!(rounds.len(), 2);
    assert_eq!(rounds[0].len(), 2);
    assert!(demanded(&rounds[0], &["/d/root.7z"], "a/inner.7z"));
    assert!(demanded(&rounds[0], &["/d/root.7z"], "plain.txt"));
    assert_eq!(rounds[1].len(), 2);
    assert!(demanded(&rounds[1], &["/d/root.7z", "a/inner.7z"], "file.dds"));
    assert!(demanded(&rounds[1], &["/d/root.7z", "a/inner.7z"], "other.dds"));
}

#[test]
fn nested_rounds_plan_duplicate_chains_once() {
    let sources = vec![
        source("/d/a.7z", &["x.dds"]),
        source("/d/a.7z", &["x.dds"]),
        source("/d/a.7z", &["x.dds"]),
    ];
    let rounds = plan_nested_rounds(&sources);
    assert_eq!(rounds.len(), 1);
    assert_eq!(rounds[0].len(), 1);
    assert!(demanded(&rounds[0], &["/d/a.7z"], "x.dds"));
}

#[test]
fn nested_rounds_of_nothing_are_empty() {
    assert!(plan_nested_rounds(&Vec::new()).is_empty());
}

#[test]
fn hash_path_needs_a_root_and_a_segment() {
    assert!(ArchiveHashPath::parse(&vec![]).is_none());
    assert!(ArchiveHashPath::parse(&vec![String::from("onlyhash")]).is_none());
    assert!(ArchiveHashPath::parse(&vec![String::from("h"), String::from("seg")]).is_some());
}
