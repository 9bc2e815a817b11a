//! Archive hash paths: a root content hash followed by a chain of relative
//! paths, each step descending into an archive extracted at the previous one.
//!
//! The manifest serializes a hash path as a flat array of strings — the root
//! hash first, then the path segments. A hash path is never empty: it always
//! holds at least one segment under the root, and resolving it bottoms out at
//! a downloaded root archive.

use vstd::prelude::*;
use crate::paths::MaybeWindowsPath;

verus! {

/// The views of a sequence of strings.
pub open spec fn views_of(s: Seq<String>) -> Seq<Seq<char>> {
    s.map_values(|x: String| x@)
}

/// Taking views commutes with appending one string.
pub proof fn lemma_views_push(s: Seq<String>, x: String)
    ensures
        views_of(s.push(x)) == views_of(s).push(x@),
{
    assert(views_of(s.push(x)) =~= views_of(s).push(x@));
}

/// Taking views commutes with appending one path.
pub proof fn lemma_seg_views_push(s: Seq<crate::paths::MaybeWindowsPath>, x: crate::paths::MaybeWindowsPath)
    ensures
        s.push(x).map_values(|p: crate::paths::MaybeWindowsPath| p@) == s.map_values(
            |p: crate::paths::MaybeWindowsPath| p@,
        ).push(x@),
{
    assert(s.push(x).map_values(|p: crate::paths::MaybeWindowsPath| p@) =~= s.map_values(
        |p: crate::paths::MaybeWindowsPath| p@,
    ).push(x@));
}

/// A root hash with the chain of in-archive paths under it.
pub struct ArchiveHashPath {
    /// Content hash of the downloaded root archive.
    pub source_hash: String,
    /// The chain of relative paths, outermost first; never empty.
    pub path: Vec<MaybeWindowsPath>,
}

impl ArchiveHashPath {
    /// The path segments, as character sequences.
    pub open spec fn segments(&self) -> Seq<Seq<char>> {
        self.path@.map_values(|p: MaybeWindowsPath| p@)
    }

    pub open spec fn well_formed(&self) -> bool {
        self.path@.len() >= 1
    }

    /// The flat form: root hash, then the segments.
    pub open spec fn flat(&self) -> Seq<Seq<char>> {
        seq![self.source_hash@] + self.segments()
    }

    /// Serialize to the flat array of strings.
    pub fn serialize(&self) -> (r: Vec<String>)
        ensures
            views_of(r@) == self.flat(),
    {
        let mut r: Vec<String> = Vec::new();
        r.push(self.source_hash.clone());
        let mut i: usize = 0;
        while i < self.path.len()
            invariant
                i <= self.path@.len(),
                views_of(r@) == seq![self.source_hash@] + self.segments().take(i as int),
            decreases self.path@.len() - i,
        {
            let ghost prev = r@;
            let x = self.path[i].0.clone();
            proof {
                lemma_views_push(prev, x);
            }
            r.push(x);
            proof {
                assert(self.segments()[i as int] == self.path@[i as int]@);
                assert(views_of(r@) =~= seq![self.source_hash@] + self.segments().take(i + 1));
            }
            i = i + 1;
        }
        proof {
            assert(self.segments().take(self.segments().len() as int) =~= self.segments());
            assert(views_of(r@) =~= self.flat());
        }
        r
    }

    /// Parse the flat array: the first element is the root hash, the rest
    /// are segments; there must be at least one segment.
    pub fn parse(parts: &Vec<String>) -> (r: Option<ArchiveHashPath>)
        ensures
            r is Some <==> parts@.len() >= 2,
            r matches Some(p) ==> {
                &&& p.well_formed()
                &&& p.source_hash@ == parts@[0]@
                &&& p.segments() == views_of(parts@.skip(1))
            },
    {
        if parts.len() < 2 {
            return None;
        }
        let source_hash = parts[0].clone();
        let mut path: Vec<MaybeWindowsPath> = Vec::new();
        let mut i: usize = 1;
        while i < parts.len()
            invariant
                1 <= i <= parts@.len(),
                path@.map_values(|p: MaybeWindowsPath| p@) == views_of(
                    parts@.subrange(1, i as int),
                ),
            decreases parts@.len() - i,
        {
            let ghost prev = path@;
            let x = MaybeWindowsPath(parts[i].clone());
            proof {
                lemma_seg_views_push(prev, x);
            }
            path.push(x);
            proof {
                assert(path@.map_values(|p: MaybeWindowsPath| p@) =~= views_of(
                    parts@.subrange(1, i + 1),
                ));
            }
            i = i + 1;
        }
        let r = ArchiveHashPath { source_hash, path };
        proof {
            assert(parts@.subrange(1, parts@.len() as int) =~= parts@.skip(1));
            assert(r.segments() =~= views_of(parts@.skip(1)));
        }
        Some(r)
    }
}

/// What parsing a flat array yields, mathematically.
pub open spec fn parse_flat(s: Seq<Seq<char>>) -> Option<(Seq<char>, Seq<Seq<char>>)> {
    if s.len() >= 2 {
        Some((s[0], s.skip(1)))
    } else {
        None
    }
}

/// Round trip: parsing the flat form of a well-formed hash path gives back
/// its root hash and segments.
pub proof fn lemma_flat_round_trip(p: ArchiveHashPath)
    requires
        p.well_formed(),
    ensures
        parse_flat(p.flat()) == Some((p.source_hash@, p.segments())),
{
    assert(p.flat().skip(1) =~= p.segments());
}

} // verus!
