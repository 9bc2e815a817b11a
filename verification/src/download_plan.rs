//! Download-cache verification and sync planning.
//!
//! Before anything is downloaded, each archive already in the cache is
//! verified: it must exist, have the declared size, and hash to the declared
//! content hash. What fails verification is planned for synchronization:
//! each download source kind maps to the action that obtains the file, and
//! a manual source is an error carrying its prompt.

use vstd::prelude::*;

verus! {

/// The verdict on a cached file.
#[derive(Clone, Debug)]
pub enum VerifyOutcome {
    /// No file of the archive's name is in the cache.
    Missing,
    /// The cached file's size differs from the descriptor's.
    WrongSize { expected: u64, found: u64 },
    /// The cached file's content hash differs from the descriptor's.
    WrongHash { expected: String, found: String },
    /// The cached file is the archive.
    Verified,
}

/// Judge a cached file against its descriptor.
///
/// `found_hash` is the hash text of the cached file, computed only when the
/// file exists with the right size — the checks are ordered: existence,
/// then size, then hash.
pub fn verify_local_file(
    exists: bool,
    found_size: u64,
    expected_size: u64,
    found_hash: &String,
    expected_hash: &String,
) -> (r: VerifyOutcome)
    ensures
        r is Missing <==> !exists,
        r matches VerifyOutcome::WrongSize { expected, found } ==> (exists && found_size
            != expected_size && expected == expected_size && found == found_size),
        (exists && found_size != expected_size) ==> r is WrongSize,
        r matches VerifyOutcome::WrongHash { expected, found } ==> (exists && found_size
            == expected_size && found_hash@ != expected_hash@ && expected@ == expected_hash@
            && found@ == found_hash@),
        (exists && found_size == expected_size && found_hash@ != expected_hash@) ==> r
            is WrongHash,
        r is Verified <==> (exists && found_size == expected_size && found_hash@
            == expected_hash@),
{
    if !exists {
        VerifyOutcome::Missing
    } else if found_size != expected_size {
        VerifyOutcome::WrongSize { expected: expected_size, found: found_size }
    } else if !(*found_hash == *expected_hash) {
        VerifyOutcome::WrongHash { expected: expected_hash.clone(), found: found_hash.clone() }
    } else {
        VerifyOutcome::Verified
    }
}

/// Where an archive comes from, as the manifest records it.
pub enum DownloadState {
    Nexus { game_name: String, mod_id: u64, file_id: u64 },
    GameFileSource { game: String, game_file: String },
    GoogleDrive { id: String },
    Http { url: String },
    Manual { prompt: String, url: String },
    MediaFire { url: String },
    Mega { url: String },
    WabbajackCDN { url: String },
}

/// What the synchronizer must do for one archive that failed cache
/// verification.
pub enum SyncAction {
    /// Ask the Nexus API for the download link of this mod file.
    ResolveNexus { game_name: String, mod_id: u64, file_id: u64 },
    /// Ask the drive service for the download link of this object.
    ResolveGoogleDrive { id: String },
    /// Fetch this link directly.
    Download { url: String },
    /// Ask the CDN for the chunk list behind this link.
    ResolveCdn { url: String },
    /// Copy this file out of a local game installation.
    CopyGameFile { game: String, game_file: String },
    /// Nothing can be fetched without the user: surface the prompt.
    ManualRequired { prompt: String, url: String },
}

/// The action obtaining an archive from its source.
pub open spec fn spec_plan_sync(state: DownloadState) -> SyncAction {
    match state {
        DownloadState::Nexus { game_name, mod_id, file_id } => SyncAction::ResolveNexus {
            game_name,
            mod_id,
            file_id,
        },
        DownloadState::GameFileSource { game, game_file } => SyncAction::CopyGameFile {
            game,
            game_file,
        },
        DownloadState::GoogleDrive { id } => SyncAction::ResolveGoogleDrive { id },
        DownloadState::Http { url } => SyncAction::Download { url },
        DownloadState::Manual { prompt, url } => SyncAction::ManualRequired { prompt, url },
        DownloadState::MediaFire { url } => SyncAction::Download { url },
        DownloadState::Mega { url } => SyncAction::Download { url },
        DownloadState::WabbajackCDN { url } => SyncAction::ResolveCdn { url },
    }
}

/// Plan how to obtain one archive.
pub fn plan_sync(state: DownloadState) -> (r: SyncAction)
    ensures
        r == spec_plan_sync(state),
{
    match state {
        DownloadState::Nexus { game_name, mod_id, file_id } => SyncAction::ResolveNexus {
            game_name,
            mod_id,
            file_id,
        },
        DownloadState::GameFileSource { game, game_file } => SyncAction::CopyGameFile {
            game,
            game_file,
        },
        DownloadState::GoogleDrive { id } => SyncAction::ResolveGoogleDrive { id },
        DownloadState::Http { url } => SyncAction::Download { url },
        DownloadState::Manual { prompt, url } => SyncAction::ManualRequired { prompt, url },
        DownloadState::MediaFire { url } => SyncAction::Download { url },
        DownloadState::Mega { url } => SyncAction::Download { url },
        DownloadState::WabbajackCDN { url } => SyncAction::ResolveCdn { url },
    }
}

/// The cache path of an archive: its file name under the cache root.
pub fn download_output_path(root_directory: &str, name: &str) -> (r: String)
    ensures
        r@ == root_directory@ + "/"@ + name@,
{
    let root = crate::text::str_to_chars(root_directory);
    let file = crate::text::str_to_chars(name);
    let mut out = root;
    out.push('/');
    proof {
        reveal_strlit("/");
        assert(out@ =~= root_directory@ + "/"@);
    }
    let ghost mid = out@;
    let mut i: usize = 0;
    while i < file.len()
        invariant
            i <= file@.len(),
            out@ == mid + file@.take(i as int),
            file@ == name@,
        decreases file@.len() - i,
    {
        out.push(file[i]);
        proof {
            assert(mid + file@.take(i + 1) =~= (mid + file@.take(i as int)).push(
                file@[i as int],
            ));
        }
        i = i + 1;
    }
    proof {
        assert(file@.take(file@.len() as int) =~= file@);
    }
    crate::text::chars_to_string(out.as_slice())
}

/// A merge order for CDN chunk downloads: chunks are written back in index
/// order, whatever order their downloads finished in.
pub fn order_chunks(finished: Vec<(usize, String)>) -> (r: Vec<(usize, String)>)
    ensures
        r@.to_multiset() == finished@.to_multiset(),
        r@.len() == finished@.len(),
        forall|i: int, j: int| 0 <= i < j < r@.len() ==> (#[trigger] r@[i]).0 <= (
        #[trigger] r@[j]).0,
{
    broadcast use vstd::seq_lib::group_to_multiset_ensures;

    let ghost orig = finished@;
    let mut finished = finished;
    let mut i: usize = 1;
    while i < finished.len()
        invariant
            finished@.to_multiset() == orig.to_multiset(),
            finished@.len() == orig.len(),
            1 <= i,
            orig.len() > 1 ==> i <= finished@.len(),
            forall|x: int, y: int|
                0 <= x < y < i && y < finished@.len() ==> (#[trigger] finished@[x]).0 <= (
                #[trigger] finished@[y]).0,
        decreases finished@.len() - i,
    {
        let mut j: usize = i;
        while j > 0 && finished[j - 1].0 > finished[j].0
            invariant
                finished@.to_multiset() == orig.to_multiset(),
                finished@.len() == orig.len(),
                j <= i < finished@.len(),
                forall|x: int, y: int|
                    0 <= x < y <= i && y != j ==> (#[trigger] finished@[x]).0 <= (
                    #[trigger] finished@[y]).0,
                forall|x: int, y: int|
                    0 <= x < j && j < y <= i ==> (#[trigger] finished@[x]).0 <= (
                    #[trigger] finished@[y]).0,
            decreases j,
        {
            let ghost before = finished@;
            let a = j - 1;
            let va = (finished[a].0, finished[a].1.clone());
            let vb = (finished[j].0, finished[j].1.clone());
            proof {
                assert(va == before[a as int]);
                assert(vb == before[j as int]);
            }
            finished.set(a, vb);
            finished.set(j, va);
            proof {
                assert(finished@ =~= before.update(a as int, before[j as int]).update(
                    j as int,
                    before[a as int],
                ));
                assert(finished@.to_multiset() == before.to_multiset()) by {
                    lemma_swap_multiset(before, a as int, j as int);
                }
            }
            j = a;
        }
        i = i + 1;
    }
    finished
}

proof fn lemma_swap_multiset<A>(s: Seq<A>, a: int, b: int)
    requires
        0 <= a < s.len(),
        0 <= b < s.len(),
        a != b,
    ensures
        s.update(a, s[b]).update(b, s[a]).to_multiset() == s.to_multiset(),
{
    broadcast use vstd::seq_lib::group_to_multiset_ensures;

    let t = s.update(a, s[b]).update(b, s[a]);
    vstd::seq_lib::to_multiset_update(s.update(a, s[b]), b, s[a]);
    vstd::seq_lib::to_multiset_update(s, a, s[b]);
    assert(s.update(a, s[b])[b] == s[b]);
    assert(s.update(a, s[b])[a] == s[b]);
    assert(t.to_multiset() =~= s.to_multiset());
}

} // verus!
