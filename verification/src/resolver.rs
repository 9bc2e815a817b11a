//! The download summary and the hash-path resolver.
//!
//! After downloads complete, every archive the manifest needs is known under
//! its content hash together with its local file. The summary maps hash to
//! entry; inserting an entry for a hash that is already present replaces the
//! old one, so of duplicate reports the last wins. Resolution turns a hash
//! path into the root archive's local file plus the normalized chain of
//! in-archive paths; an unknown root hash is an error attributed to the one
//! directive that referenced it, never to the whole run.

use vstd::prelude::*;
use crate::hash_path::ArchiveHashPath;
use crate::paths::{MaybeWindowsPath, normalize_seps};

verus! {

/// What a downloaded archive is: its manifest descriptor.
pub struct ArchiveDescriptor {
    /// Content hash, in the manifest's textual form.
    pub hash: String,
    /// Download-source metadata, carried through untouched.
    pub meta: String,
    /// File name under the download directory.
    pub name: String,
    /// Size in bytes.
    pub size: u64,
}

/// A value joined with the descriptor of the archive it belongs to.
pub struct WithArchiveDescriptor<T> {
    pub inner: T,
    pub descriptor: ArchiveDescriptor,
}

/// A summary entry: the local file path of a downloaded archive.
pub type SummaryEntry = WithArchiveDescriptor<String>;

/// Index of the first entry with the given hash.
pub open spec fn first_with(s: Seq<SummaryEntry>, h: Seq<char>) -> Option<int>
    decreases s.len(),
{
    if s.len() == 0 {
        None
    } else if s[0].descriptor.hash@ == h {
        Some(0int)
    } else {
        match first_with(s.skip(1), h) {
            Some(i) => Some(i + 1),
            None => None,
        }
    }
}

/// One hash-replacing insertion.
pub open spec fn spec_insert(cur: Seq<SummaryEntry>, e: SummaryEntry) -> Seq<SummaryEntry> {
    match first_with(cur, e.descriptor.hash@) {
        Some(i) => cur.update(i, e),
        None => cur.push(e),
    }
}

/// The summary built from a report sequence by repeated insertion.
pub open spec fn spec_build(s: Seq<SummaryEntry>) -> Seq<SummaryEntry>
    decreases s.len(),
{
    if s.len() == 0 {
        s
    } else {
        spec_insert(spec_build(s.drop_last()), s.last())
    }
}

/// Hashes are pairwise distinct.
pub open spec fn distinct_hashes(s: Seq<SummaryEntry>) -> bool {
    forall|i: int, j: int|
        0 <= i < j < s.len() ==> s[i].descriptor.hash@ != s[j].descriptor.hash@
}

pub proof fn lemma_first_with_props(s: Seq<SummaryEntry>, h: Seq<char>)
    ensures
        first_with(s, h) matches Some(i) ==> 0 <= i < s.len() && s[i].descriptor.hash@ == h,
        first_with(s, h) is None <==> forall|i: int|
            0 <= i < s.len() ==> s[i].descriptor.hash@ != h,
    decreases s.len(),
{
    if s.len() != 0 {
        lemma_first_with_props(s.skip(1), h);
        if s[0].descriptor.hash@ != h {
            match first_with(s.skip(1), h) {
                Some(i) => {
                    assert(s.skip(1)[i] == s[i + 1]);
                },
                None => {
                    assert forall|i: int| 0 <= i < s.len() implies s[i].descriptor.hash@
                        != h by {
                        if i > 0 {
                            assert(s.skip(1)[i - 1] == s[i]);
                        }
                    }
                },
            }
        }
    }
}

/// The downloaded archives, each under its content hash.
pub struct DownloadSummary {
    entries: Vec<SummaryEntry>,
}

/// Why a hash path does not resolve.
#[derive(Debug, Clone)]
pub enum ResolveError {
    /// The root hash names no downloaded archive; fatal for the directive
    /// that carries it, not for the run.
    UnknownArchiveHash(String),
}

/// A resolved hash path: the root archive's local file, and the normalized
/// chain of in-archive paths to follow from it.
pub struct ResolvedSource {
    pub root_path: String,
    pub steps: Vec<String>,
}

/// The normalized segments of a hash path.
pub open spec fn normalized_segments(p: &ArchiveHashPath) -> Seq<Seq<char>> {
    p.segments().map_values(|s: Seq<char>| normalize_seps(s))
}

impl DownloadSummary {
    pub closed spec fn model(&self) -> Seq<SummaryEntry> {
        self.entries@
    }

    pub open spec fn well_formed(&self) -> bool {
        distinct_hashes(self.model())
    }

    /// Whether an archive with this hash was downloaded.
    pub open spec fn has_hash(&self, h: Seq<char>) -> bool {
        first_with(self.model(), h) is Some
    }

    pub fn new() -> (s: Self)
        ensures
            s.well_formed(),
            s.model().len() == 0,
    {
        DownloadSummary { entries: Vec::new() }
    }

    /// Insert a downloaded archive; an entry already present under the same
    /// hash is replaced.
    pub fn insert(&mut self, e: SummaryEntry)
        requires
            old(self).well_formed(),
        ensures
            final(self).well_formed(),
            final(self).model() == spec_insert(old(self).model(), e),
    {
        let ghost h = e.descriptor.hash@;
        let mut i: usize = 0;
        proof {
            assert(self.entries@.skip(0) =~= self.entries@);
        }
        while i < self.entries.len()
            invariant
                i <= self.entries@.len(),
                self.entries@ == old(self).model(),
                distinct_hashes(self.entries@),
                first_with(self.entries@, h) == match first_with(
                    self.entries@.skip(i as int),
                    h,
                ) {
                    Some(j) => Some(j + i),
                    None => None,
                },
                forall|j: int| 0 <= j < i ==> self.entries@[j].descriptor.hash@ != h,
                h == e.descriptor.hash@,
            decreases self.entries@.len() - i,
        {
            let ghost rest = self.entries@.skip(i as int);
            let same = self.entries[i].descriptor.hash == e.descriptor.hash;
            proof {
                assert(rest[0] == self.entries@[i as int]);
            }
            if same {
                proof {
                    assert(first_with(self.entries@, h) == Some(i as int));
                }
                let ghost before = self.entries@;
                self.entries.set(i, e);
                proof {
                    assert(self.entries@ =~= before.update(i as int, e));
                    assert forall|x: int, y: int|
                        0 <= x < y < self.entries@.len() implies self.entries@[x].descriptor.hash@
                        != self.entries@[y].descriptor.hash@ by {
                        if x != i && y != i {
                            assert(before[x].descriptor.hash@ != before[y].descriptor.hash@);
                        } else {
                            lemma_first_with_props(before, h);
                        }
                    }
                }
                return ;
            }
            proof {
                assert(rest.skip(1) =~= self.entries@.skip(i + 1));
            }
            i = i + 1;
        }
        proof {
            assert(self.entries@.skip(self.entries@.len() as int)
                =~= Seq::<SummaryEntry>::empty());
            assert(first_with(self.entries@, h) is None);
        }
        let ghost before = self.entries@;
        self.entries.push(e);
        proof {
            assert forall|x: int, y: int|
                0 <= x < y < self.entries@.len() implies self.entries@[x].descriptor.hash@
                != self.entries@[y].descriptor.hash@ by {
                if y == self.entries@.len() - 1 {
                    assert(self.entries@[x] == before[x]);
                    lemma_first_with_props(before, h);
                } else {
                    assert(self.entries@[x] == before[x]);
                    assert(self.entries@[y] == before[y]);
                }
            }
        }
    }

    /// Build the summary from the sync reports, in order.
    pub fn from_reports(reports: Vec<SummaryEntry>) -> (s: Self)
        ensures
            s.well_formed(),
            s.model() == spec_build(reports@),
    {
        let mut s = DownloadSummary::new();
        let ghost all = reports@;
        let mut i: usize = 0;
        proof {
            assert(spec_build(all.take(0)) =~= Seq::<SummaryEntry>::empty());
            assert(s.model() =~= spec_build(all.take(0)));
        }
        while i < reports.len()
            invariant
                i <= all.len(),
                reports@ == all,
                s.well_formed(),
                s.model() == spec_build(all.take(i as int)),
            decreases all.len() - i,
        {
            let e = reports[i].clone_entry();
            proof {
                assert(all.take(i + 1).drop_last() =~= all.take(i as int));
                assert(all.take(i + 1).last() == all[i as int]);
            }
            s.insert(e);
            i = i + 1;
        }
        proof {
            assert(all.take(all.len() as int) =~= all);
        }
        s
    }

    /// The entry for a hash, if the archive was downloaded.
    pub fn lookup(&self, hash: &String) -> (r: Option<&SummaryEntry>)
        ensures
            r is Some <==> self.has_hash(hash@),
            r matches Some(e) ==> (first_with(self.model(), hash@) matches Some(i)
                && *e == self.model()[i] && e.descriptor.hash@ == hash@),
    {
        let mut i: usize = 0;
        proof {
            assert(self.entries@.skip(0) =~= self.entries@);
        }
        while i < self.entries.len()
            invariant
                i <= self.entries@.len(),
                first_with(self.entries@, hash@) == match first_with(
                    self.entries@.skip(i as int),
                    hash@,
                ) {
                    Some(j) => Some(j + i),
                    None => None,
                },
                forall|j: int| 0 <= j < i ==> self.entries@[j].descriptor.hash@ != hash@,
            decreases self.entries@.len() - i,
        {
            let ghost rest = self.entries@.skip(i as int);
            proof {
                assert(rest[0] == self.entries@[i as int]);
            }
            if self.entries[i].descriptor.hash == *hash {
                proof {
                    assert(first_with(self.entries@, hash@) == Some(i as int));
                }
                return Some(&self.entries[i]);
            }
            proof {
                assert(rest.skip(1) =~= self.entries@.skip(i + 1));
            }
            i = i + 1;
        }
        proof {
            assert(self.entries@.skip(self.entries@.len() as int)
                =~= Seq::<SummaryEntry>::empty());
        }
        None
    }

    /// Resolve a hash path to the root archive's local file and the chain of
    /// normalized in-archive paths; fails exactly when the root hash names
    /// no downloaded archive.
    pub fn resolve_archive_path(&self, p: &ArchiveHashPath) -> (r: Result<
        ResolvedSource,
        ResolveError,
    >)
        ensures
            r is Ok <==> self.has_hash(p.source_hash@),
            r matches Ok(rs) ==> {
                &&& first_with(self.model(), p.source_hash@) matches Some(i) && rs.root_path@
                    == self.model()[i].inner@
                &&& crate::hash_path::views_of(rs.steps@) == normalized_segments(p)
            },
            r matches Err(e) ==> e matches ResolveError::UnknownArchiveHash(h) && h@
                == p.source_hash@,
    {
        match self.lookup(&p.source_hash) {
            None => Err(ResolveError::UnknownArchiveHash(p.source_hash.clone())),
            Some(entry) => {
                let root_path = entry.inner.clone();
                let mut steps: Vec<String> = Vec::new();
                let mut i: usize = 0;
                while i < p.path.len()
                    invariant
                        i <= p.path@.len(),
                        crate::hash_path::views_of(steps@) == normalized_segments(p).take(
                            i as int,
                        ),
                    decreases p.path@.len() - i,
                {
                    let seg = MaybeWindowsPath(p.path[i].0.clone());
                    let normalized = seg.into_path();
                    let ghost prev = steps@;
                    proof {
                        crate::hash_path::lemma_views_push(prev, normalized);
                    }
                    steps.push(normalized);
                    proof {
                        assert(normalized_segments(p)[i as int] == normalize_seps(
                            p.path@[i as int]@,
                        ));
                        assert(crate::hash_path::views_of(steps@) =~= normalized_segments(
                            p,
                        ).take(i + 1));
                    }
                    i = i + 1;
                }
                proof {
                    assert(normalized_segments(p).take(normalized_segments(p).len() as int)
                        =~= normalized_segments(p));
                    lemma_first_with_props(self.model(), p.source_hash@);
                }
                Ok(ResolvedSource { root_path, steps })
            },
        }
    }

}

/// One extraction demand of a nested round: pull `step` out of the container
/// named by `container` — the root archive's local file, followed by the
/// steps already extracted to reach this depth. A one-element container is
/// the root file itself; a longer one names the artifact of the previous
/// round's extraction of its last element.
pub struct NestedDemand {
    pub container: Vec<String>,
    pub step: String,
}

/// The chain naming the container of step `k` of a source: the root file,
/// then the source's first `k` steps.
pub open spec fn chain_of(s: ResolvedSource, k: int) -> Seq<Seq<char>> {
    seq![s.root_path@] + crate::hash_path::views_of(s.steps@).take(k)
}

/// Whether a demand is step `k` of source `s`: its container is the chain up
/// to that step, and its step is that step.
pub open spec fn demand_matches(d: NestedDemand, s: ResolvedSource, k: int) -> bool {
    crate::hash_path::views_of(d.container@) == chain_of(s, k) && d.step@ == s.steps@[k]@
}

/// Whether two demands name the same extraction.
pub open spec fn demand_key_eq(a: NestedDemand, b: NestedDemand) -> bool {
    crate::hash_path::views_of(a.container@) == crate::hash_path::views_of(b.container@)
        && a.step@ == b.step@
}

/// Whether step `k` of source `s` stands somewhere in the round.
pub open spec fn round_covers(round: Seq<NestedDemand>, s: ResolvedSource, k: int) -> bool {
    exists|i: int| 0 <= i < round.len() && demand_matches(#[trigger] round[i], s, k)
}

/// Whether the demand is step `k` of some source of the batch.
pub open spec fn demand_from_some_source(
    d: NestedDemand,
    sources: Seq<ResolvedSource>,
    k: int,
) -> bool {
    exists|j: int|
        0 <= j < sources.len() && k < (#[trigger] sources[j]).steps@.len() && demand_matches(
            d,
            sources[j],
            k,
        )
}

/// No two demands of the round name the same extraction.
pub open spec fn demands_distinct(round: Seq<NestedDemand>) -> bool {
    forall|i1: int, i2: int|
        0 <= i1 < i2 < round.len() ==> !demand_key_eq(
            #[trigger] round[i1],
            #[trigger] round[i2],
        )
}

/// The number of rounds a batch of sources needs: the longest step chain.
pub open spec fn max_steps(sources: Seq<ResolvedSource>) -> int
    decreases sources.len(),
{
    if sources.len() == 0 {
        0
    } else {
        let rest = max_steps(sources.drop_last());
        if sources.last().steps@.len() > rest {
            sources.last().steps@.len() as int
        } else {
            rest
        }
    }
}

/// No source has more steps than `max_steps` counts.
pub proof fn lemma_max_steps_bound(sources: Seq<ResolvedSource>)
    ensures
        max_steps(sources) >= 0,
        forall|j: int|
            0 <= j < sources.len() ==> (#[trigger] sources[j]).steps@.len() <= max_steps(sources),
    decreases sources.len(),
{
    if sources.len() != 0 {
        lemma_max_steps_bound(sources.drop_last());
        assert forall|j: int|
            0 <= j < sources.len() implies (#[trigger] sources[j]).steps@.len() <= max_steps(
            sources,
        ) by {
            if j < sources.len() - 1 {
                assert(sources.drop_last()[j] == sources[j]);
            }
        }
    }
}

/// Coverage survives appending another demand to the round.
proof fn lemma_round_covers_push(round: Seq<NestedDemand>, d: NestedDemand, s: ResolvedSource, k: int)
    requires
        round_covers(round, s, k) || demand_matches(d, s, k),
    ensures
        round_covers(round.push(d), s, k),
{
    if round_covers(round, s, k) {
        let i = choose|i: int| 0 <= i < round.len() && demand_matches(#[trigger] round[i], s, k);
        assert(round.push(d)[i] == round[i]);
    } else {
        assert(round.push(d)[round.len() as int] == d);
    }
}

fn string_chains_eq(a: &Vec<String>, b: &Vec<String>) -> (r: bool)
    ensures
        r == (crate::hash_path::views_of(a@) == crate::hash_path::views_of(b@)),
{
    if a.len() != b.len() {
        proof {
            assert(crate::hash_path::views_of(a@).len() != crate::hash_path::views_of(b@).len());
        }
        return false;
    }
    let mut i: usize = 0;
    while i < a.len()
        invariant
            i <= a@.len(),
            a@.len() == b@.len(),
            forall|j: int| 0 <= j < i ==> (#[trigger] a@[j])@ == b@[j]@,
        decreases a@.len() - i,
    {
        if a[i] != b[i] {
            proof {
                assert(crate::hash_path::views_of(a@)[i as int] != crate::hash_path::views_of(
                    b@,
                )[i as int]);
            }
            return false;
        }
        i = i + 1;
    }
    proof {
        assert(crate::hash_path::views_of(a@) =~= crate::hash_path::views_of(b@));
    }
    true
}

fn round_contains(round: &Vec<NestedDemand>, d: &NestedDemand) -> (r: bool)
    ensures
        r ==> exists|i: int| 0 <= i < round@.len() && demand_key_eq(#[trigger] round@[i], *d),
        !r ==> forall|i: int| 0 <= i < round@.len() ==> !demand_key_eq(#[trigger] round@[i], *d),
{
    let mut i: usize = 0;
    while i < round.len()
        invariant
            i <= round@.len(),
            forall|j: int| 0 <= j < i ==> !demand_key_eq(#[trigger] round@[j], *d),
        decreases round@.len() - i,
    {
        if string_chains_eq(&round[i].container, &d.container) && round[i].step == d.step {
            proof {
                assert(demand_key_eq(round@[i as int], *d));
            }
            return true;
        }
        i = i + 1;
    }
    false
}

/// The demands of round `k`: step `k` of every source deep enough, each
/// distinct extraction once.
fn plan_round(sources: &Vec<ResolvedSource>, k: usize) -> (round: Vec<NestedDemand>)
    ensures
        forall|j: int|
            0 <= j < sources@.len() && (k as int) < (#[trigger] sources@[j]).steps@.len()
                ==> round_covers(round@, sources@[j], k as int),
        forall|i: int|
            0 <= i < round@.len() ==> demand_from_some_source(
                #[trigger] round@[i],
                sources@,
                k as int,
            ),
        demands_distinct(round@),
{
    let mut round: Vec<NestedDemand> = Vec::new();
    let mut j: usize = 0;
    while j < sources.len()
        invariant
            j <= sources@.len(),
            forall|jj: int|
                0 <= jj < j && (k as int) < (#[trigger] sources@[jj]).steps@.len()
                    ==> round_covers(round@, sources@[jj], k as int),
            forall|i: int|
                0 <= i < round@.len() ==> demand_from_some_source(
                    #[trigger] round@[i],
                    sources@,
                    k as int,
                ),
            demands_distinct(round@),
        decreases sources@.len() - j,
    {
        if k < sources[j].steps.len() {
            let mut container: Vec<String> = Vec::new();
            container.push(sources[j].root_path.clone());
            proof {
                assert(crate::hash_path::views_of(container@) =~= chain_of(
                    sources@[j as int],
                    0,
                ));
            }
            let mut t: usize = 0;
            while t < k
                invariant
                    t <= k,
                    j < sources@.len(),
                    k < sources@[j as int].steps@.len(),
                    crate::hash_path::views_of(container@) == chain_of(
                        sources@[j as int],
                        t as int,
                    ),
                decreases k - t,
            {
                let ghost prev = container@;
                let x = sources[j].steps[t].clone();
                proof {
                    crate::hash_path::lemma_views_push(prev, x);
                }
                container.push(x);
                proof {
                    assert(crate::hash_path::views_of(sources@[j as int].steps@)[t as int]
                        == sources@[j as int].steps@[t as int]@);
                    assert(crate::hash_path::views_of(container@) =~= chain_of(
                        sources@[j as int],
                        t + 1,
                    ));
                }
                t = t + 1;
            }
            let d = NestedDemand { container, step: sources[j].steps[k].clone() };
            proof {
                assert(demand_matches(d, sources@[j as int], k as int));
            }
            let ghost round0 = round@;
            if !round_contains(&round, &d) {
                round.push(d);
                proof {
                    assert(round@ == round0.push(d));
                    assert forall|jj: int|
                        0 <= jj < j + 1 && (k as int) < (#[trigger] sources@[jj]).steps@.len()
                            implies round_covers(round@, sources@[jj], k as int) by {
                        lemma_round_covers_push(round0, d, sources@[jj], k as int);
                    }
                    assert forall|i: int| 0 <= i < round@.len() implies demand_from_some_source(
                        #[trigger] round@[i],
                        sources@,
                        k as int,
                    ) by {
                        if i < round@.len() - 1 {
                            assert(round@[i] == round0[i]);
                        } else {
                            assert(round@[i] == d);
                            assert(demand_matches(d, sources@[j as int], k as int));
                        }
                    }
                    assert forall|i1: int, i2: int|
                        0 <= i1 < i2 < round@.len() implies !demand_key_eq(
                        #[trigger] round@[i1],
                        #[trigger] round@[i2],
                    ) by {
                        assert(round@[i1] == round0[i1]);
                        if i2 < round@.len() - 1 {
                            assert(round@[i2] == round0[i2]);
                        } else {
                            assert(round@[i2] == d);
                        }
                    }
                }
            } else {
                proof {
                    let i0 = choose|i: int|
                        0 <= i < round@.len() && demand_key_eq(#[trigger] round@[i], d);
                    assert(demand_matches(round@[i0], sources@[j as int], k as int));
                    assert(round_covers(round@, sources@[j as int], k as int));
                }
            }
        }
        j = j + 1;
    }
    round
}

/// The extraction rounds that realize a batch of resolved sources: round 0
/// extracts from the root files; in each later round a demand's container is
/// the artifact of one extraction of the round before. A single-segment
/// source finishes in round 0.
///
/// Every source's step `k` stands in round `k`, keyed by the chain leading to
/// it; every demand of a round is some source's step there; and an extraction
/// demanded by several sources is planned once per round.
pub fn plan_nested_rounds(sources: &Vec<ResolvedSource>) -> (rounds: Vec<Vec<NestedDemand>>)
    ensures
        rounds@.len() == max_steps(sources@),
        forall|j: int, k: int|
            #![trigger round_covers(rounds@[k]@, sources@[j], k)]
            0 <= j < sources@.len() && 0 <= k < sources@[j].steps@.len() ==> round_covers(
                rounds@[k]@,
                sources@[j],
                k,
            ),
        forall|k: int, i: int|
            #![trigger rounds@[k]@[i]]
            0 <= k < rounds@.len() && 0 <= i < rounds@[k]@.len() ==> demand_from_some_source(
                rounds@[k]@[i],
                sources@,
                k,
            ),
        forall|k: int| 0 <= k < rounds@.len() ==> demands_distinct((#[trigger] rounds@[k])@),
{
    let mut depth: usize = 0;
    let mut j: usize = 0;
    proof {
        assert(sources@.take(0) =~= Seq::<ResolvedSource>::empty());
    }
    while j < sources.len()
        invariant
            j <= sources@.len(),
            depth == max_steps(sources@.take(j as int)),
        decreases sources@.len() - j,
    {
        proof {
            assert(sources@.take(j + 1).drop_last() =~= sources@.take(j as int));
            assert(sources@.take(j + 1).last() == sources@[j as int]);
        }
        if sources[j].steps.len() > depth {
            depth = sources[j].steps.len();
        }
        j = j + 1;
    }
    proof {
        assert(sources@.take(sources@.len() as int) =~= sources@);
        lemma_max_steps_bound(sources@);
    }
    let mut rounds: Vec<Vec<NestedDemand>> = Vec::new();
    let mut k: usize = 0;
    while k < depth
        invariant
            k <= depth,
            depth == max_steps(sources@),
            rounds@.len() == k,
            forall|jj: int, kk: int|
                #![trigger round_covers(rounds@[kk]@, sources@[jj], kk)]
                0 <= jj < sources@.len() && 0 <= kk < k && kk < sources@[jj].steps@.len()
                    ==> round_covers(rounds@[kk]@, sources@[jj], kk),
            forall|kk: int, i: int|
                #![trigger rounds@[kk]@[i]]
                0 <= kk < rounds@.len() && 0 <= i < rounds@[kk]@.len() ==> demand_from_some_source(
                    rounds@[kk]@[i],
                    sources@,
                    kk,
                ),
            forall|kk: int|
                0 <= kk < rounds@.len() ==> demands_distinct((#[trigger] rounds@[kk])@),
        decreases depth - k,
    {
        let round = plan_round(sources, k);
        let ghost rounds0 = rounds@;
        rounds.push(round);
        proof {
            assert(forall|g: int| 0 <= g < rounds0.len() ==> rounds@[g] == rounds0[g]);
            assert(rounds@[rounds@.len() - 1] == round);
            assert forall|jj: int, kk: int|
                #![trigger round_covers(rounds@[kk]@, sources@[jj], kk)]
                0 <= jj < sources@.len() && 0 <= kk < k + 1 && kk < sources@[jj].steps@.len()
                    implies round_covers(rounds@[kk]@, sources@[jj], kk) by {
                if kk < k {
                    assert(round_covers(rounds0[kk]@, sources@[jj], kk));
                    assert(rounds@[kk] == rounds0[kk]);
                } else {
                    assert(rounds@[kk] == round);
                    assert(round_covers(round@, sources@[jj], k as int));
                }
            }
            assert forall|kk: int, i: int|
                #![trigger rounds@[kk]@[i]]
                0 <= kk < rounds@.len() && 0 <= i < rounds@[kk]@.len()
                    implies demand_from_some_source(rounds@[kk]@[i], sources@, kk) by {
                if kk < k {
                    assert(rounds@[kk] == rounds0[kk]);
                    assert(rounds0[kk]@[i] == rounds@[kk]@[i]);
                } else {
                    assert(rounds@[kk] == round);
                    assert(demand_from_some_source(round@[i], sources@, k as int));
                }
            }
            assert forall|kk: int|
                0 <= kk < rounds@.len() implies demands_distinct((#[trigger] rounds@[kk])@) by {
                if kk < k {
                    assert(rounds@[kk] == rounds0[kk]);
                } else {
                    assert(rounds@[kk] == round);
                }
            }
        }
        k = k + 1;
    }
    proof {
        assert forall|j2: int, k2: int|
            #![trigger round_covers(rounds@[k2]@, sources@[j2], k2)]
            0 <= j2 < sources@.len() && 0 <= k2 < sources@[j2].steps@.len() implies round_covers(
            rounds@[k2]@,
            sources@[j2],
            k2,
        ) by {
            assert(sources@[j2].steps@.len() <= max_steps(sources@));
        }
    }
    rounds
}

impl SummaryEntry {
    /// A field-for-field copy.
    pub fn clone_entry(&self) -> (r: SummaryEntry)
        ensures
            r == *self,
    {
        let r = WithArchiveDescriptor {
            inner: self.inner.clone(),
            descriptor: ArchiveDescriptor {
                hash: self.descriptor.hash.clone(),
                meta: self.descriptor.meta.clone(),
                name: self.descriptor.name.clone(),
                size: self.descriptor.size,
            },
        };
        proof {
            assert(r.inner@ == self.inner@);
        }
        r
    }
}

} // verus!
