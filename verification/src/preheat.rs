//! The eager extraction plan: every entry needed by any directive is pulled
//! up front, once, before directive execution begins.
//!
//! The demanded `(archive, path)` pairs of the whole batch are grouped per
//! archive with duplicates dropped, so each archive is opened once and each
//! entry extracted once however many directives want it; the archives are
//! then worked through in chunks of a bounded size, which bounds how many
//! are open at any moment of the preheat pass.

use vstd::prelude::*;

verus! {

/// Whether the pair `(a, p)` occurs among the demands.
pub open spec fn pair_in(s: Seq<(String, String)>, a: Seq<char>, p: Seq<char>) -> bool {
    exists|i: int| 0 <= i < s.len() && (#[trigger] s[i]).0@ == a && s[i].1@ == p
}

/// One archive with every entry to pull from it.
pub struct PreheatGroup {
    pub archive: String,
    pub paths: Vec<String>,
}

/// Whether the plan serves demand `j`: some group holds its archive and
/// lists its path.
pub open spec fn covers(demands: Seq<(String, String)>, out: Seq<PreheatGroup>, j: int) -> bool {
    exists|g: int, i: int|
        0 <= g < out.len() && 0 <= i < out[g].paths@.len() && (#[trigger] out[g].paths@[i])@
            == demands[j].1@ && out[g].archive@ == demands[j].0@
}

fn find_group(out: &Vec<PreheatGroup>, archive: &String) -> (r: Option<usize>)
    ensures
        r matches Some(gi) ==> gi < out@.len() && out@[gi as int].archive@ == archive@,
        r is None ==> forall|j: int| 0 <= j < out@.len() ==> (#[trigger] out@[j]).archive@
            != archive@,
{
    let mut g: usize = 0;
    while g < out.len()
        invariant
            g <= out@.len(),
            forall|j: int| 0 <= j < g ==> (#[trigger] out@[j]).archive@ != archive@,
        decreases out@.len() - g,
    {
        if out[g].archive == *archive {
            return Some(g);
        }
        g = g + 1;
    }
    None
}

fn contains_path(paths: &Vec<String>, path: &String) -> (r: bool)
    ensures
        r ==> exists|j: int| 0 <= j < paths@.len() && (#[trigger] paths@[j])@ == path@,
        !r ==> forall|j: int| 0 <= j < paths@.len() ==> (#[trigger] paths@[j])@ != path@,
{
    let mut i: usize = 0;
    while i < paths.len()
        invariant
            i <= paths@.len(),
            forall|j: int| 0 <= j < i ==> (#[trigger] paths@[j])@ != path@,
        decreases paths@.len() - i,
    {
        if paths[i] == *path {
            assert((paths@[i as int])@ == path@);
            return true;
        }
        i = i + 1;
    }
    false
}

/// Group the demanded pairs by archive, dropping duplicates.
///
/// The plan holds each demanded archive exactly once, each path within it
/// exactly once, exactly the demanded pairs and nothing else — so one
/// extraction per demanded entry, however often it was demanded.
pub fn plan_preheat(demands: &Vec<(String, String)>) -> (out: Vec<PreheatGroup>)
    ensures
        forall|g1: int, g2: int|
            0 <= g1 < g2 < out@.len() ==> (#[trigger] out@[g1]).archive@ != (
            #[trigger] out@[g2]).archive@,
        forall|g: int, i: int, j: int|
            0 <= g < out@.len() && 0 <= i < j < out@[g].paths@.len()
                ==> (#[trigger] out@[g].paths@[i])@ != (#[trigger] out@[g].paths@[j])@,
        forall|g: int, i: int|
            0 <= g < out@.len() && 0 <= i < out@[g].paths@.len() ==> pair_in(
                demands@,
                out@[g].archive@,
                (#[trigger] out@[g].paths@[i])@,
            ),
        forall|k: int| 0 <= k < demands@.len() ==> covers(demands@, out@, k),
        forall|g: int| 0 <= g < out@.len() ==> (#[trigger] out@[g]).paths@.len() >= 1,
{
    let mut out: Vec<PreheatGroup> = Vec::new();
    let mut k: usize = 0;
    while k < demands.len()
        invariant
            k <= demands@.len(),
            forall|g1: int, g2: int|
                0 <= g1 < g2 < out@.len() ==> (#[trigger] out@[g1]).archive@ != (
                #[trigger] out@[g2]).archive@,
            forall|g: int, i: int, j: int|
                0 <= g < out@.len() && 0 <= i < j < out@[g].paths@.len()
                    ==> (#[trigger] out@[g].paths@[i])@ != (#[trigger] out@[g].paths@[j])@,
            forall|g: int, i: int|
                0 <= g < out@.len() && 0 <= i < out@[g].paths@.len() ==> pair_in(
                    demands@,
                    out@[g].archive@,
                    (#[trigger] out@[g].paths@[i])@,
                ),
            forall|j: int| 0 <= j < k ==> covers(demands@, out@, j),
            forall|g: int| 0 <= g < out@.len() ==> (#[trigger] out@[g]).paths@.len() >= 1,
        decreases demands@.len() - k,
    {
        let archive = demands[k].0.clone();
        let path = demands[k].1.clone();
        let found_group = find_group(&out, &archive);
        let ghost out0 = out@;
        match found_group {
            None => {
                let mut paths: Vec<String> = Vec::new();
                paths.push(path);
                out.push(PreheatGroup { archive, paths });
                proof {
                    assert(forall|j: int| 0 <= j < out0.len() ==> out@[j] == out0[j]);
                    assert(out@[out@.len() - 1].archive@ == demands@[k as int].0@);
                    assert(out@[out@.len() - 1].paths@[0]@ == demands@[k as int].1@);
                    assert(pair_in(demands@, out@[out@.len() - 1].archive@, out@[out@.len()
                        - 1].paths@[0]@)) by {
                        assert((demands@[k as int]).0@ == out@[out@.len() - 1].archive@);
                    }
                    assert forall|j: int| 0 <= j < k + 1 implies covers(
                        demands@,
                        out@,
                        j,
                    ) by {
                        if j < k {
                            assert(covers(demands@, out0, j));
                            let (g, i): (int, int) = choose|g: int, i: int|
                                0 <= g < out0.len() && 0 <= i < out0[g].paths@.len() && (
                                #[trigger] out0[g].paths@[i])@ == demands@[j].1@
                                    && out0[g].archive@ == demands@[j].0@;
                            assert(0 <= g < out@.len() && 0 <= i < out@[g].paths@.len() && (
                            out@[g].paths@[i])@ == demands@[j].1@ && out@[g].archive@
                                == demands@[j].0@);
                        } else {
                            let g = out@.len() - 1;
                            assert(0 <= g < out@.len() && 0 <= 0 < out@[g].paths@.len() && (
                            out@[g].paths@[0])@ == demands@[j].1@ && out@[g].archive@
                                == demands@[j].0@);
                        }
                    }
                }
            },
            Some(gi) => {
                let seen = contains_path(&out[gi].paths, &path);
                if !seen {
                    let mut grp = out.remove(gi);
                    grp.paths.push(path);
                    out.insert(gi, grp);
                    proof {
                        assert(out@ =~= out0.update(gi as int, grp));
                        assert(grp.archive@ == demands@[k as int].0@);
                        assert(grp.paths@[grp.paths@.len() - 1]@ == demands@[k as int].1@);
                        assert(forall|j: int|
                            0 <= j < grp.paths@.len() - 1 ==> (#[trigger] grp.paths@[j])
                                == out0[gi as int].paths@[j]);
                        assert forall|j: int| 0 <= j < k + 1 implies covers(
                            demands@,
                            out@,
                            j,
                        ) by {
                            if j < k {
                                assert(covers(demands@, out0, j));
                                let (g, i): (int, int) = choose|g: int, i: int|
                                    0 <= g < out0.len() && 0 <= i < out0[g].paths@.len() && (
                                    #[trigger] out0[g].paths@[i])@ == demands@[j].1@
                                        && out0[g].archive@ == demands@[j].0@;
                                assert(out@[g].paths@.len() >= out0[g].paths@.len());
                                assert(out@[g].paths@[i] == out0[g].paths@[i]);
                                assert(0 <= g < out@.len() && 0 <= i < out@[g].paths@.len() && (
                                out@[g].paths@[i])@ == demands@[j].1@ && out@[g].archive@
                                    == demands@[j].0@);
                            } else {
                                let g = gi as int;
                                let i = out@[g].paths@.len() - 1;
                                assert(0 <= g < out@.len() && 0 <= i < out@[g].paths@.len() && (
                                out@[g].paths@[i])@ == demands@[j].1@ && out@[g].archive@
                                    == demands@[j].0@);
                            }
                        }
                    }
                } else {
                    proof {
                        assert(out@ == out0);
                        let pj = choose|pj: int|
                            0 <= pj < out@[gi as int].paths@.len() && (#[trigger] out@[
                            gi as int].paths@[pj])@ == path@;
                        assert(out@[gi as int].archive@ == demands@[k as int].0@);
                        assert forall|j: int| 0 <= j < k + 1 implies covers(
                            demands@,
                            out@,
                            j,
                        ) by {
                            if j < k {
                                assert(covers(demands@, out0, j));
                            } else {
                                assert(0 <= gi < out@.len() && 0 <= pj < out@[
                                gi as int].paths@.len() && (out@[gi as int].paths@[pj])@
                                    == demands@[j].1@ && out@[gi as int].archive@
                                    == demands@[j].0@);
                            }
                        }
                    }
                }
            },
        }
        k = k + 1;
    }
    out
}

/// The chunks of a sequence of sequences, in order.
pub open spec fn concat_chunks<T>(cs: Seq<Seq<T>>) -> Seq<T>
    decreases cs.len(),
{
    if cs.len() == 0 {
        Seq::empty()
    } else {
        concat_chunks(cs.drop_last()) + cs.last()
    }
}

/// Cut a work list into chunks of at most `n` items, keeping the order:
/// the bound on how much preheat work runs at once.
pub fn chunk_by_size<T>(input: Vec<T>, n: usize) -> (out: Vec<Vec<T>>)
    requires
        n >= 1,
    ensures
        concat_chunks(out@.map_values(|c: Vec<T>| c@)) == input@,
        forall|g: int| 0 <= g < out@.len() ==> (#[trigger] out@[g])@.len() <= n,
{
    let ghost all = input@;
    let total: usize = input.len();
    let mut input = input;
    let mut out: Vec<Vec<T>> = Vec::new();
    let mut cur: Vec<T> = Vec::new();
    let mut i: usize = 0;
    while input.len() > 0
        invariant
            n >= 1,
            i <= all.len(),
            all.len() == total,
            input@ == all.skip(i as int),
            concat_chunks(out@.map_values(|c: Vec<T>| c@)) + cur@ == all.take(i as int),
            cur@.len() <= n,
            forall|g: int| 0 <= g < out@.len() ==> (#[trigger] out@[g])@.len() <= n,
            cur@.len() == 0 ==> i == 0 || out@.len() > 0,
        decreases input@.len(),
    {
        if cur.len() == n {
            let ghost outv = out@.map_values(|c: Vec<T>| c@);
            let ghost curv = cur@;
            out.push(cur);
            cur = Vec::new();
            proof {
                assert(out@.map_values(|c: Vec<T>| c@) =~= outv.push(curv));
                lemma_concat_push(outv, curv);
            }
        }
        let e = input.remove(0);
        proof {
            assert(all.skip(i as int)[0] == all[i as int]);
            assert(all.skip(i as int).remove(0) =~= all.skip(i + 1));
            assert(all.take(i + 1) =~= all.take(i as int).push(all[i as int]));
        }
        cur.push(e);
        i = i + 1;
    }
    proof {
        assert(all.skip(i as int).len() == 0);
        assert(i == all.len());
        assert(all.take(all.len() as int) =~= all);
    }
    if cur.len() > 0 {
        let ghost outv = out@.map_values(|c: Vec<T>| c@);
        let ghost curv = cur@;
        out.push(cur);
        proof {
            assert(out@.map_values(|c: Vec<T>| c@) =~= outv.push(curv));
            lemma_concat_push(outv, curv);
            assert(concat_chunks(out@.map_values(|c: Vec<T>| c@)) == all);
        }
    } else {
        proof {
            assert(concat_chunks(out@.map_values(|c: Vec<T>| c@)) + cur@ == all);
            assert(concat_chunks(out@.map_values(|c: Vec<T>| c@)) + cur@
                =~= concat_chunks(out@.map_values(|c: Vec<T>| c@)));
        }
    }
    out
}

proof fn lemma_concat_push<T>(cs: Seq<Seq<T>>, c: Seq<T>)
    ensures
        concat_chunks(cs.push(c)) == concat_chunks(cs) + c,
{
    assert(cs.push(c).drop_last() =~= cs);
    assert(cs.push(c).last() == c);
}

/// Whether some call of the predicate on a slice holding `run` returned `b`.
pub open spec fn pred_answered<T, F: Fn(&[T]) -> bool>(pred: F, run: Seq<T>, b: bool) -> bool {
    exists|s: &[T]| s@ == run && call_ensures(pred, (s,), b)
}

/// Split a work list into runs, starting a new run exactly when the predicate
/// holds of the run collected so far. The runs spell out the input exactly:
/// every run but the last was answered true by the predicate, no shorter
/// non-empty lead of any run was, and the last run is what remained when the
/// input ran out.
pub fn chunk_while<T, F: Fn(&[T]) -> bool>(input: Vec<T>, pred: F) -> (out: Vec<Vec<T>>)
    requires
        forall|s: &[T]| #[trigger] call_requires(pred, (s,)),
    ensures
        concat_chunks(out@.map_values(|c: Vec<T>| c@)) == input@,
        out@.len() >= 1,
        forall|g: int|
            0 <= g < out@.len() - 1 ==> pred_answered(pred, (#[trigger] out@[g])@, true),
        forall|g: int, m: int|
            0 <= g < out@.len() && 1 <= m < out@[g]@.len() ==> pred_answered(
                pred,
                #[trigger] out@[g]@.take(m),
                false,
            ),
        input@.len() > 0 ==> out@.last()@.len() >= 1,
        input@.len() == 0 ==> out@.len() == 1 && out@[0]@.len() == 0,
{
    let ghost all = input@;
    let total: usize = input.len();
    let mut input = input;
    let mut out: Vec<Vec<T>> = Vec::new();
    let mut cur: Vec<T> = Vec::new();
    let mut i: usize = 0;
    while input.len() > 0
        invariant
            i <= all.len(),
            all.len() == total,
            input@ == all.skip(i as int),
            concat_chunks(out@.map_values(|c: Vec<T>| c@)) + cur@ == all.take(i as int),
            forall|s: &[T]| #[trigger] call_requires(pred, (s,)),
            forall|g: int| 0 <= g < out@.len() ==> pred_answered(pred, (#[trigger] out@[g])@, true),
            forall|g: int, m: int|
                0 <= g < out@.len() && 1 <= m < out@[g]@.len() ==> pred_answered(
                    pred,
                    #[trigger] out@[g]@.take(m),
                    false,
                ),
            forall|m: int|
                1 <= m < cur@.len() ==> pred_answered(pred, #[trigger] cur@.take(m), false),
            i > 0 ==> cur@.len() >= 1,
            i == 0 ==> cur@.len() == 0 && out@.len() == 0,
        decreases input@.len(),
    {
        let s = cur.as_slice();
        let closed = pred(s);
        proof {
            assert(s@ == cur@ && call_ensures(pred, (s,), closed));
            assert(pred_answered(pred, cur@, closed));
        }
        if closed {
            let ghost outv = out@.map_values(|c: Vec<T>| c@);
            let ghost out0 = out@;
            let ghost curv = cur@;
            out.push(cur);
            cur = Vec::new();
            proof {
                assert(out@.map_values(|c: Vec<T>| c@) =~= outv.push(curv));
                lemma_concat_push(outv, curv);
                assert(forall|g: int| 0 <= g < out0.len() ==> out@[g] == out0[g]);
                assert((out@[out@.len() - 1])@ == curv);
            }
        }
        let e = input.remove(0);
        proof {
            assert(all.skip(i as int)[0] == all[i as int]);
            assert(all.skip(i as int).remove(0) =~= all.skip(i + 1));
            assert(all.take(i + 1) =~= all.take(i as int).push(all[i as int]));
        }
        let ghost prev = cur@;
        cur.push(e);
        proof {
            assert forall|m: int| 1 <= m < cur@.len() implies pred_answered(
                pred,
                #[trigger] cur@.take(m),
                false,
            ) by {
                assert(cur@.take(m) =~= prev.take(m));
                if m == prev.len() {
                    assert(prev.take(m) =~= prev);
                }
            }
        }
        i = i + 1;
    }
    proof {
        assert(all.skip(i as int).len() == 0);
        assert(i == all.len());
        assert(all.take(all.len() as int) =~= all);
    }
    let ghost outv = out@.map_values(|c: Vec<T>| c@);
    let ghost out0 = out@;
    let ghost curv = cur@;
    out.push(cur);
    proof {
        assert(out@.map_values(|c: Vec<T>| c@) =~= outv.push(curv));
        lemma_concat_push(outv, curv);
        assert(forall|g: int| 0 <= g < out0.len() ==> out@[g] == out0[g]);
        assert((out@[out@.len() - 1])@ == curv);
    }
    out
}

} // verus!
