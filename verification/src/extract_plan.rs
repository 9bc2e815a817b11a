//! Planning batched extraction from one archive.
//!
//! Given the archive's listing and the set of wanted paths, the planner
//! resolves each wanted path to a listed entry — exactly if possible, else
//! by a unique case-insensitive fallback, since archives are packed with
//! inconsistent casing while directives spell paths from another system —
//! and groups the resolved entries by their solid compression block, each
//! block exactly once. Decoding a block is the expensive step in solid
//! archives: the executor walks each planned block once, extracts the
//! entries planned for it, and drains everything else unread.
//!
//! A wanted path with no match at all, or with several entries that differ
//! only by case, is an error naming that path; a fallback is flagged so the
//! caller can warn.

use vstd::prelude::*;
use crate::text::{lower_seq, str_to_chars, chars_eq, chars_eq_fold};

verus! {

/// One entry of an archive listing.
pub struct ArchiveEntry {
    /// The name as stored in the archive.
    pub name: String,
    /// The normalized path form, `/`-separated.
    pub path: String,
    /// The solid compression block holding the entry, if the format has
    /// blocks.
    pub block: Option<u64>,
}

/// How one wanted path resolves against a listing.
pub enum Resolution {
    /// The first entry whose path matches exactly.
    Exact { entry: int },
    /// No exact match; the single entry that matches up to case.
    Fallback { entry: int },
    /// No entry matches, even up to case.
    Missing,
    /// Several entries match up to case and none exactly: picking one would
    /// be a guess.
    Ambiguous,
}

/// First entry whose path equals `path`.
pub open spec fn exact_index(listing: Seq<ArchiveEntry>, path: Seq<char>) -> Option<int>
    decreases listing.len(),
{
    if listing.len() == 0 {
        None
    } else if listing[0].path@ == path {
        Some(0int)
    } else {
        match exact_index(listing.skip(1), path) {
            Some(i) => Some(i + 1),
            None => None,
        }
    }
}

/// How many entries match `path` up to ASCII case.
pub open spec fn ci_count(listing: Seq<ArchiveEntry>, path: Seq<char>) -> nat
    decreases listing.len(),
{
    if listing.len() == 0 {
        0
    } else {
        (if lower_seq(listing[0].path@) == lower_seq(path) {
            1nat
        } else {
            0nat
        }) + ci_count(listing.skip(1), path)
    }
}

/// First entry that matches `path` up to ASCII case.
pub open spec fn ci_index(listing: Seq<ArchiveEntry>, path: Seq<char>) -> Option<int>
    decreases listing.len(),
{
    if listing.len() == 0 {
        None
    } else if lower_seq(listing[0].path@) == lower_seq(path) {
        Some(0int)
    } else {
        match ci_index(listing.skip(1), path) {
            Some(i) => Some(i + 1),
            None => None,
        }
    }
}

/// The resolution of one wanted path: exact match first; else a unique
/// case-insensitive match; else missing or ambiguous.
pub open spec fn spec_resolve(listing: Seq<ArchiveEntry>, path: Seq<char>) -> Resolution {
    match exact_index(listing, path) {
        Some(i) => Resolution::Exact { entry: i },
        None => {
            if ci_count(listing, path) == 0 {
                Resolution::Missing
            } else if ci_count(listing, path) == 1 {
                Resolution::Fallback { entry: ci_index(listing, path).unwrap() }
            } else {
                Resolution::Ambiguous
            }
        },
    }
}

proof fn lemma_exact_index_props(listing: Seq<ArchiveEntry>, path: Seq<char>)
    ensures
        exact_index(listing, path) matches Some(i) ==> 0 <= i < listing.len()
            && listing[i].path@ == path,
        ci_index(listing, path) matches Some(i) ==> 0 <= i < listing.len() && lower_seq(
            listing[i].path@,
        ) == lower_seq(path),
        (ci_index(listing, path) is Some) <==> ci_count(listing, path) > 0,
    decreases listing.len(),
{
    if listing.len() != 0 {
        lemma_exact_index_props(listing.skip(1), path);
        assert(forall|i: int|
            0 <= i < listing.skip(1).len() ==> listing.skip(1)[i] == listing[i + 1]);
    }
}

/// Resolve one wanted path against the listing.
pub fn resolve_path(listing: &Vec<ArchiveEntry>, path: &String) -> (r: (Option<(usize, bool)>,
    bool))
    ensures
        ({
            let (found, ambiguous) = r;
            &&& found matches Some((i, fb)) ==> (if fb {
                spec_resolve(listing@, path@) == (Resolution::Fallback { entry: i as int })
            } else {
                spec_resolve(listing@, path@) == (Resolution::Exact { entry: i as int })
            })
            &&& found matches Some((i, fb)) ==> i < listing@.len()
            &&& (found is None && !ambiguous) <==> spec_resolve(listing@, path@) is Missing
            &&& (found is None && ambiguous) <==> spec_resolve(listing@, path@) is Ambiguous
        }),
{
    let want = str_to_chars(path.as_str());
    let mut i: usize = 0;
    proof {
        assert(listing@.skip(0) =~= listing@);
    }
    // Exact scan.
    while i < listing.len()
        invariant
            i <= listing@.len(),
            want@ == path@,
            exact_index(listing@, path@) == match exact_index(
                listing@.skip(i as int),
                path@,
            ) {
                Some(j) => Some(j + i),
                None => None,
            },
            forall|j: int| 0 <= j < i ==> listing@[j].path@ != path@,
        decreases listing@.len() - i,
    {
        let ghost rest = listing@.skip(i as int);
        proof {
            assert(rest[0] == listing@[i as int]);
            assert(rest.skip(1) =~= listing@.skip(i + 1));
        }
        let entry_path = str_to_chars(listing[i].path.as_str());
        if chars_eq(entry_path.as_slice(), want.as_slice()) {
            proof {
                assert(exact_index(listing@, path@) == Some(i as int));
            }
            return (Some((i, false)), false);
        }
        i = i + 1;
    }
    proof {
        assert(listing@.skip(listing@.len() as int) =~= Seq::<ArchiveEntry>::empty());
        assert(exact_index(listing@, path@) is None);
    }
    // Case-insensitive scan: count matches, remember the first.
    let mut count: usize = 0;
    let mut first: usize = 0;
    let mut k: usize = 0;
    proof {
        assert(listing@.skip(0) =~= listing@);
    }
    while k < listing.len()
        invariant
            k <= listing@.len(),
            want@ == path@,
            count <= k,
            ci_count(listing@, path@) == count + ci_count(listing@.skip(k as int), path@),
            ci_index(listing@, path@) == if count > 0 {
                Some(first as int)
            } else {
                match ci_index(listing@.skip(k as int), path@) {
                    Some(j) => Some(j + k),
                    None => None,
                }
            },
            count > 0 ==> first < listing@.len(),
        decreases listing@.len() - k,
    {
        let ghost rest = listing@.skip(k as int);
        proof {
            assert(rest[0] == listing@[k as int]);
            assert(rest.skip(1) =~= listing@.skip(k + 1));
        }
        let entry_path = str_to_chars(listing[k].path.as_str());
        if chars_eq_fold(entry_path.as_slice(), want.as_slice()) {
            if count == 0 {
                first = k;
            }
            count = count + 1;
        }
        k = k + 1;
    }
    proof {
        assert(listing@.skip(listing@.len() as int) =~= Seq::<ArchiveEntry>::empty());
        assert(ci_count(listing@.skip(listing@.len() as int), path@) == 0);
    }
    if count == 0 {
        (None, false)
    } else if count == 1 {
        (Some((first, true)), false)
    } else {
        (None, true)
    }
}

/// One planned extraction: which listing entry serves which wanted path.
pub struct PlannedItem {
    /// Index of the wanted path in the request list.
    pub req_index: usize,
    /// The wanted path itself.
    pub requested: String,
    /// Index of the entry in the listing.
    pub entry: usize,
    /// The entry's stored name, handed to the format decoder.
    pub entry_name: String,
    /// Whether the entry was found by case-insensitive fallback; the caller
    /// warns when set.
    pub fallback: bool,
}

/// All planned extractions from one solid block.
pub struct PlannedBlock {
    /// The block, or `None` for entries outside any block.
    pub block: Option<u64>,
    /// The entries to pull while this block is decoded; never empty.
    pub items: Vec<PlannedItem>,
}

/// Why no plan exists.
#[derive(Debug, Clone)]
pub enum PlanError {
    /// This wanted path has no match, even up to case.
    MissingPath { req_index: usize, path: String },
    /// This wanted path has several case-insensitive matches and no exact
    /// one; choosing would be a guess.
    AmbiguousCasing { req_index: usize, path: String },
}

/// Whether every wanted path resolves.
pub open spec fn all_resolvable(listing: Seq<ArchiveEntry>, requested: Seq<String>) -> bool {
    forall|i: int|
        0 <= i < requested.len() ==> (spec_resolve(listing, #[trigger] requested[i]@) is Exact
            || spec_resolve(listing, requested[i]@) is Fallback)
}

/// The entry index and fallback flag a resolution carries.
pub open spec fn resolution_entry(r: Resolution) -> (int, bool) {
    match r {
        Resolution::Exact { entry } => (entry, false),
        Resolution::Fallback { entry } => (entry, true),
        Resolution::Missing => (0, false),
        Resolution::Ambiguous => (0, false),
    }
}

/// An item is sound when it records exactly what resolution found for its
/// wanted path, and sits with the block of its entry.
pub open spec fn item_sound(
    listing: Seq<ArchiveEntry>,
    requested: Seq<String>,
    item: PlannedItem,
    block: Option<u64>,
) -> bool {
    &&& item.req_index < requested.len()
    &&& item.requested@ == requested[item.req_index as int]@
    &&& (item.entry as int, item.fallback) == resolution_entry(
        spec_resolve(listing, item.requested@),
    )
    &&& (spec_resolve(listing, item.requested@) is Exact || spec_resolve(
        listing,
        item.requested@,
    ) is Fallback)
    &&& item.entry < listing.len()
    &&& item.entry_name@ == listing[item.entry as int].name@
    &&& listing[item.entry as int].block == block
}

/// Total number of planned items across all blocks.
pub open spec fn total_items(plan: Seq<PlannedBlock>) -> nat
    decreases plan.len(),
{
    if plan.len() == 0 {
        0
    } else {
        total_items(plan.drop_last()) + plan.last().items@.len()
    }
}

/// The whole plan contract: distinct blocks, sound items, one item per
/// wanted path.
pub open spec fn plan_sound(
    listing: Seq<ArchiveEntry>,
    requested: Seq<String>,
    plan: Seq<PlannedBlock>,
) -> bool {
    &&& forall|b1: int, b2: int|
        0 <= b1 < b2 < plan.len() ==> (#[trigger] plan[b1].block) != (#[trigger] plan[b2].block)
    &&& forall|b: int, k: int|
        0 <= b < plan.len() && 0 <= k < plan[b].items@.len() ==> item_sound(
            listing,
            requested,
            #[trigger] plan[b].items@[k],
            plan[b].block,
        )
    &&& forall|b: int| 0 <= b < plan.len() ==> (#[trigger] plan[b].items@.len()) >= 1
    &&& forall|b1: int, k1: int, b2: int, k2: int|
        0 <= b1 < plan.len() && 0 <= k1 < plan[b1].items@.len() && 0 <= b2 < plan.len() && 0 <= k2
            < plan[b2].items@.len() && (b1 != b2 || k1 != k2) ==> (#[trigger] plan[b1].items@[k1]).req_index
            != (#[trigger] plan[b2].items@[k2]).req_index
    &&& forall|b: int, k1: int, k2: int|
        0 <= b < plan.len() && 0 <= k1 < k2 < plan[b].items@.len() ==> (#[trigger] plan[b].items@[k1]).req_index
            < (#[trigger] plan[b].items@[k2]).req_index
    &&& total_items(plan) == requested.len()
}

proof fn lemma_total_items_push(plan: Seq<PlannedBlock>, blk: PlannedBlock)
    ensures
        total_items(plan.push(blk)) == total_items(plan) + blk.items@.len(),
{
    assert(plan.push(blk).drop_last() =~= plan);
    assert(plan.push(blk).last() == blk);
}

proof fn lemma_total_items_update(plan: Seq<PlannedBlock>, b: int, blk: PlannedBlock)
    requires
        0 <= b < plan.len(),
    ensures
        total_items(plan.update(b, blk)) == total_items(plan) - plan[b].items@.len()
            + blk.items@.len(),
    decreases plan.len(),
{
    let updated = plan.update(b, blk);
    if b == plan.len() - 1 {
        assert(updated.drop_last() =~= plan.drop_last());
        assert(updated.last() == blk);
    } else {
        assert(updated.drop_last() =~= plan.drop_last().update(b, blk));
        assert(updated.last() == plan.last());
        lemma_total_items_update(plan.drop_last(), b, blk);
        assert(plan.drop_last()[b] == plan[b]);
    }
}

fn block_eq(a: &Option<u64>, b: &Option<u64>) -> (r: bool)
    ensures
        r == (*a == *b),
{
    match (a, b) {
        (None, None) => true,
        (Some(x), Some(y)) => *x == *y,
        _ => false,
    }
}

fn find_block(plan: &Vec<PlannedBlock>, block: &Option<u64>) -> (r: Option<usize>)
    ensures
        r matches Some(b) ==> b < plan@.len() && plan@[b as int].block == *block,
        r is None ==> forall|b: int| 0 <= b < plan@.len() ==> (#[trigger] plan@[b].block)
            != *block,
{
    let mut b: usize = 0;
    while b < plan.len()
        invariant
            b <= plan@.len(),
            forall|j: int| 0 <= j < b ==> (#[trigger] plan@[j].block) != *block,
        decreases plan@.len() - b,
    {
        if block_eq(&plan[b].block, block) {
            return Some(b);
        }
        b = b + 1;
    }
    None
}

/// Plan the batched extraction of `requested` from an archive with the
/// given listing.
///
/// Succeeds exactly when every wanted path resolves, exactly or by a unique
/// case-insensitive fallback; the plan then visits each needed block once
/// and serves each wanted path by exactly one planned entry. Fails naming
/// the first wanted path that is missing or ambiguous.
pub fn plan_extraction(listing: &Vec<ArchiveEntry>, requested: &Vec<String>) -> (r: Result<
    Vec<PlannedBlock>,
    PlanError,
>)
    ensures
        r is Ok <==> all_resolvable(listing@, requested@),
        r matches Ok(plan) ==> plan_sound(listing@, requested@, plan@),
        r matches Err(e) ==> (e matches PlanError::MissingPath { req_index, path } ==> (
        req_index < requested@.len() && path@ == requested@[req_index as int]@ && spec_resolve(
            listing@,
            path@,
        ) is Missing)),
        r matches Err(e) ==> (e matches PlanError::AmbiguousCasing { req_index, path } ==> (
        req_index < requested@.len() && path@ == requested@[req_index as int]@ && spec_resolve(
            listing@,
            path@,
        ) is Ambiguous)),
{
    let mut plan: Vec<PlannedBlock> = Vec::new();
    let mut i: usize = 0;
    while i < requested.len()
        invariant
            i <= requested@.len(),
            forall|j: int|
                0 <= j < i ==> (spec_resolve(listing@, #[trigger] requested@[j]@) is Exact
                    || spec_resolve(listing@, requested@[j]@) is Fallback),
            forall|b1: int, b2: int|
                0 <= b1 < b2 < plan@.len() ==> (#[trigger] plan@[b1].block) != (
                #[trigger] plan@[b2].block),
            forall|b: int, k: int|
                0 <= b < plan@.len() && 0 <= k < plan@[b].items@.len() ==> item_sound(
                    listing@,
                    requested@,
                    #[trigger] plan@[b].items@[k],
                    plan@[b].block,
                ),
            forall|b: int, k: int|
                0 <= b < plan@.len() && 0 <= k < plan@[b].items@.len() ==> (
                #[trigger] plan@[b].items@[k]).req_index < i,
            forall|b1: int, k1: int, b2: int, k2: int|
                0 <= b1 < plan@.len() && 0 <= k1 < plan@[b1].items@.len() && 0 <= b2 < plan@.len()
                    && 0 <= k2 < plan@[b2].items@.len() && (b1 != b2 || k1 != k2) ==> (
                #[trigger] plan@[b1].items@[k1]).req_index != (
                #[trigger] plan@[b2].items@[k2]).req_index,
            forall|b: int, k1: int, k2: int|
                0 <= b < plan@.len() && 0 <= k1 < k2 < plan@[b].items@.len() ==> (
                #[trigger] plan@[b].items@[k1]).req_index < (
                #[trigger] plan@[b].items@[k2]).req_index,
            forall|b: int| 0 <= b < plan@.len() ==> (#[trigger] plan@[b].items@.len()) >= 1,
            total_items(plan@) == i,
        decreases requested@.len() - i,
    {
        let (found, ambiguous) = resolve_path(listing, &requested[i]);
        match found {
            None => {
                if ambiguous {
                    return Err(PlanError::AmbiguousCasing {
                        req_index: i,
                        path: requested[i].clone(),
                    });
                } else {
                    return Err(PlanError::MissingPath {
                        req_index: i,
                        path: requested[i].clone(),
                    });
                }
            },
            Some((entry, fallback)) => {
                let block = listing[entry].block;
                let item = PlannedItem {
                    req_index: i,
                    requested: requested[i].clone(),
                    entry,
                    entry_name: listing[entry].name.clone(),
                    fallback,
                };
                proof {
                    assert(item_sound(listing@, requested@, item, block));
                }
                match find_block(&plan, &block) {
                    Some(b) => {
                        let ghost before = plan@;
                        let mut blk = plan.remove(b);
                        blk.items.push(item);
                        plan.insert(b, blk);
                        proof {
                            assert(plan@ =~= before.update(b as int, blk));
                            lemma_total_items_update(before, b as int, blk);
                            assert(blk.items@ == before[b as int].items@.push(item));
                            assert forall|bb: int, kk: int|
                                0 <= bb < plan@.len() && 0 <= kk < plan@[bb].items@.len()
                                    implies item_sound(
                                listing@,
                                requested@,
                                #[trigger] plan@[bb].items@[kk],
                                plan@[bb].block,
                            ) by {
                                if bb == b {
                                    if kk < plan@[bb].items@.len() - 1 {
                                        assert(plan@[bb].items@[kk] == before[bb].items@[kk]);
                                    }
                                } else {
                                    assert(plan@[bb] == before[bb]);
                                }
                            }
                            assert forall|bb: int, kk: int|
                                0 <= bb < plan@.len() && 0 <= kk < plan@[bb].items@.len()
                                    implies (#[trigger] plan@[bb].items@[kk]).req_index < i + 1 by {
                                if bb == b && kk == plan@[bb].items@.len() - 1 {
                                } else if bb == b {
                                    assert(plan@[bb].items@[kk] == before[bb].items@[kk]);
                                } else {
                                    assert(plan@[bb] == before[bb]);
                                }
                            }
                            assert forall|bb: int, k1: int, k2: int|
                                0 <= bb < plan@.len() && 0 <= k1 < k2 < plan@[bb].items@.len()
                                    implies (#[trigger] plan@[bb].items@[k1]).req_index < (
                                #[trigger] plan@[bb].items@[k2]).req_index by {
                                if bb == b {
                                    assert(plan@[bb].items@[k1] == before[bb].items@[k1]);
                                    if k2 < plan@[bb].items@.len() - 1 {
                                        assert(plan@[bb].items@[k2] == before[bb].items@[k2]);
                                    } else {
                                        assert(before[bb].items@[k1].req_index < i);
                                    }
                                } else {
                                    assert(plan@[bb] == before[bb]);
                                }
                            }
                        }
                    },
                    None => {
                        let mut items: Vec<PlannedItem> = Vec::new();
                        items.push(item);
                        let blk = PlannedBlock { block, items };
                        let ghost before = plan@;
                        plan.push(blk);
                        proof {
                            lemma_total_items_push(before, blk);
                            assert(forall|bb: int|
                                0 <= bb < before.len() ==> plan@[bb] == before[bb]);
                            assert(plan@[plan@.len() - 1] == blk);
                        }
                    },
                }
            },
        }
        i = i + 1;
    }
    proof {
        assert(all_resolvable(listing@, requested@));
    }
    Ok(plan)
}

} // verus!
