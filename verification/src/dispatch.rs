//! Dispatching a batch of directives.
//!
//! Every directive is attempted; a failure is recorded against that one
//! directive and the rest of the batch goes on. Resolution failures — a
//! directive whose hash path names an archive that was never downloaded —
//! are attributed this way too: the batch splits into the directives whose
//! sources resolve and the per-directive failures, and nothing is dropped.
//!
//! A directive also moves through a fixed lifecycle; the dispatcher only
//! steps it forward, and a failure is terminal for that directive only.

use vstd::prelude::*;
use crate::modlist::{Directive, spec_archive_path};
use crate::resolver::{DownloadSummary, ResolveError, ResolvedSource};

verus! {

/// The lifecycle of one directive.
#[derive(Clone, Copy, PartialEq, Eq, Structural, Debug)]
pub enum DirectiveState {
    Pending,
    Resolving,
    Extracting,
    Transforming,
    Validating,
    Done,
    Failed,
}

/// The states a directive may step to from each state: forward through the
/// pipeline, or to `Failed` from any live state.
pub open spec fn spec_can_step(from: DirectiveState, to: DirectiveState) -> bool {
    match (from, to) {
        (DirectiveState::Pending, DirectiveState::Resolving) => true,
        (DirectiveState::Resolving, DirectiveState::Extracting) => true,
        (DirectiveState::Extracting, DirectiveState::Transforming) => true,
        (DirectiveState::Transforming, DirectiveState::Validating) => true,
        (DirectiveState::Validating, DirectiveState::Done) => true,
        (DirectiveState::Pending, DirectiveState::Failed) => true,
        (DirectiveState::Resolving, DirectiveState::Failed) => true,
        (DirectiveState::Extracting, DirectiveState::Failed) => true,
        (DirectiveState::Transforming, DirectiveState::Failed) => true,
        (DirectiveState::Validating, DirectiveState::Failed) => true,
        _ => false,
    }
}

/// Whether a state is terminal: nothing steps out of it.
pub open spec fn spec_terminal(s: DirectiveState) -> bool {
    s is Done || s is Failed
}

/// Terminal states admit no step; live states step forward or fail.
pub proof fn lemma_terminal_states_stay(from: DirectiveState, to: DirectiveState)
    requires
        spec_terminal(from),
    ensures
        !spec_can_step(from, to),
{
}

/// Step a directive's state, allowed only along the lifecycle.
pub fn step_state(current: DirectiveState, to: DirectiveState) -> (r: Result<
    DirectiveState,
    DirectiveState,
>)
    ensures
        r matches Ok(s) ==> s == to && spec_can_step(current, to),
        r matches Err(s) ==> s == current && !spec_can_step(current, to),
{
    let allowed = match (current, to) {
        (DirectiveState::Pending, DirectiveState::Resolving) => true,
        (DirectiveState::Resolving, DirectiveState::Extracting) => true,
        (DirectiveState::Extracting, DirectiveState::Transforming) => true,
        (DirectiveState::Transforming, DirectiveState::Validating) => true,
        (DirectiveState::Validating, DirectiveState::Done) => true,
        (DirectiveState::Pending, DirectiveState::Failed) => true,
        (DirectiveState::Resolving, DirectiveState::Failed) => true,
        (DirectiveState::Extracting, DirectiveState::Failed) => true,
        (DirectiveState::Transforming, DirectiveState::Failed) => true,
        (DirectiveState::Validating, DirectiveState::Failed) => true,
        _ => false,
    };
    if allowed {
        Ok(to)
    } else {
        Err(current)
    }
}

/// A directive whose source is ready: its position in the batch and, for
/// archive-reading kinds, the resolved root file and path chain.
pub struct ReadyDirective {
    pub index: usize,
    pub source: Option<ResolvedSource>,
}

/// A directive that failed resolution: its position and the error.
pub struct BatchFailure {
    pub index: usize,
    pub error: ResolveError,
}

/// Whether a directive's source resolves against the summary: it either
/// reads no archive, or its root hash is known.
pub open spec fn spec_resolvable(summary: &DownloadSummary, d: Directive) -> bool {
    match spec_archive_path(d) {
        Some(p) => summary.has_hash(p.source_hash@),
        None => true,
    }
}

/// Split a batch into the directives whose sources resolve and the
/// per-directive failures.
///
/// Every directive lands in exactly one of the two lists, in batch order;
/// a directive fails exactly when its hash path names an unknown archive,
/// and one directive's failure never touches the others.
pub fn resolve_batch(summary: &DownloadSummary, directives: &Vec<Directive>) -> (r: (Vec<
    ReadyDirective,
>, Vec<BatchFailure>))
    ensures
        ({
            let (ready, failures) = r;
            &&& ready@.len() + failures@.len() == directives@.len()
            &&& forall|k: int|
                0 <= k < ready@.len() ==> (#[trigger] ready@[k]).index < directives@.len()
                    && spec_resolvable(summary, directives@[ready@[k].index as int])
            &&& forall|k: int|
                0 <= k < failures@.len() ==> (#[trigger] failures@[k]).index < directives@.len()
                    && !spec_resolvable(summary, directives@[failures@[k].index as int])
            &&& forall|k1: int, k2: int|
                0 <= k1 < k2 < ready@.len() ==> (#[trigger] ready@[k1]).index < (
                #[trigger] ready@[k2]).index
            &&& forall|k1: int, k2: int|
                0 <= k1 < k2 < failures@.len() ==> (#[trigger] failures@[k1]).index < (
                #[trigger] failures@[k2]).index
            &&& forall|i: int|
                0 <= i < directives@.len() && spec_resolvable(
                    summary,
                    #[trigger] directives@[i],
                ) ==> exists|k: int| 0 <= k < ready@.len() && (#[trigger] ready@[k]).index == i
            &&& forall|i: int|
                0 <= i < directives@.len() && !spec_resolvable(
                    summary,
                    #[trigger] directives@[i],
                ) ==> exists|k: int|
                    0 <= k < failures@.len() && (#[trigger] failures@[k]).index == i
        }),
{
    let mut ready: Vec<ReadyDirective> = Vec::new();
    let mut failures: Vec<BatchFailure> = Vec::new();
    let mut i: usize = 0;
    while i < directives.len()
        invariant
            i <= directives@.len(),
            ready@.len() + failures@.len() == i,
            forall|k: int|
                0 <= k < ready@.len() ==> (#[trigger] ready@[k]).index < i && spec_resolvable(
                    summary,
                    directives@[ready@[k].index as int],
                ),
            forall|k: int|
                0 <= k < failures@.len() ==> (#[trigger] failures@[k]).index < i
                    && !spec_resolvable(summary, directives@[failures@[k].index as int]),
            forall|k1: int, k2: int|
                0 <= k1 < k2 < ready@.len() ==> (#[trigger] ready@[k1]).index < (
                #[trigger] ready@[k2]).index,
            forall|k1: int, k2: int|
                0 <= k1 < k2 < failures@.len() ==> (#[trigger] failures@[k1]).index < (
                #[trigger] failures@[k2]).index,
            forall|j: int|
                0 <= j < i && spec_resolvable(summary, #[trigger] directives@[j]) ==> exists|
                    k: int,
                |
                    0 <= k < ready@.len() && (#[trigger] ready@[k]).index == j,
            forall|j: int|
                0 <= j < i && !spec_resolvable(summary, #[trigger] directives@[j]) ==> exists|
                    k: int,
                |
                    0 <= k < failures@.len() && (#[trigger] failures@[k]).index == j,
        decreases directives@.len() - i,
    {
        let ghost ready0 = ready@;
        let ghost failures0 = failures@;
        match directives[i].archive_path() {
            None => {
                ready.push(ReadyDirective { index: i, source: None });
                proof {
                    assert(ready@[ready@.len() - 1].index == i);
                    assert(forall|k: int| 0 <= k < ready0.len() ==> ready@[k] == ready0[k]);
                }
            },
            Some(p) => {
                match summary.resolve_archive_path(p) {
                    Ok(rs) => {
                        ready.push(ReadyDirective { index: i, source: Some(rs) });
                        proof {
                            assert(ready@[ready@.len() - 1].index == i);
                            assert(forall|k: int|
                                0 <= k < ready0.len() ==> ready@[k] == ready0[k]);
                            assert(spec_resolvable(summary, directives@[i as int]));
                        }
                    },
                    Err(e) => {
                        failures.push(BatchFailure { index: i, error: e });
                        proof {
                            assert(failures@[failures@.len() - 1].index == i);
                            assert(forall|k: int|
                                0 <= k < failures0.len() ==> failures@[k] == failures0[k]);
                            assert(!spec_resolvable(summary, directives@[i as int]));
                        }
                    },
                }
            },
        }
        i = i + 1;
    }
    (ready, failures)
}

/// Whether a finished batch succeeded: it did exactly when nothing failed.
pub fn batch_succeeded(failures: &Vec<BatchFailure>) -> (r: bool)
    ensures
        r <==> failures@.len() == 0,
{
    failures.len() == 0
}

} // verus!
