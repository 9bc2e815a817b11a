//! Hierarchical progress accounting.
//!
//! Progress is reported against a tree of spans, each named by the path of
//! span ids from the root. A span starts, receives deltas, and finishes;
//! finishing a span that still has live children is deferred until its
//! counters meet. Progress is a side channel: it never decides what the
//! installer does, and its counters saturate rather than trap.

use vstd::prelude::*;

verus! {

/// The path of span ids from the root to a span.
pub struct SpanPath(pub Vec<u64>);

impl SpanPath {
    pub open spec fn view(&self) -> Seq<u64> {
        self.0@
    }

    pub fn len(&self) -> (r: usize)
        ensures
            r == self@.len(),
    {
        self.0.len()
    }

    pub fn is_empty(&self) -> (r: bool)
        ensures
            r == (self@.len() == 0),
    {
        self.0.len() == 0
    }

    /// Whether this path sits at or below `other`.
    pub fn starts_with(&self, other: &SpanPath) -> (r: bool)
        ensures
            r == (self@.len() >= other@.len() && self@.take(other@.len() as int) == other@),
    {
        if self.0.len() < other.0.len() {
            proof {
                assert(!(self@.len() >= other@.len()));
            }
            return false;
        }
        let mut i: usize = 0;
        while i < other.0.len()
            invariant
                i <= other@.len() <= self@.len(),
                forall|j: int| 0 <= j < i ==> self@[j] == other@[j],
            decreases other@.len() - i,
        {
            if self.0[i] != other.0[i] {
                proof {
                    assert(self@.take(other@.len() as int)[i as int] != other@[i as int]);
                }
                return false;
            }
            i = i + 1;
        }
        proof {
            assert(self@.take(other@.len() as int) =~= other@);
        }
        true
    }

    /// The span this one sits under, if it is not the root.
    pub fn parent(&self) -> (r: Option<SpanPath>)
        ensures
            r is Some <==> self@.len() > 0,
            r matches Some(p) ==> p@ == self@.take(self@.len() - 1),
    {
        if self.0.len() == 0 {
            None
        } else {
            let mut p: Vec<u64> = Vec::new();
            let mut i: usize = 0;
            while i < self.0.len() - 1
                invariant
                    self@.len() > 0,
                    i <= self@.len() - 1,
                    p@ == self@.take(i as int),
                decreases self@.len() - 1 - i,
            {
                p.push(self.0[i]);
                proof {
                    assert(p@ =~= self@.take(i + 1));
                }
                i = i + 1;
            }
            Some(SpanPath(p))
        }
    }

    /// A child of this span under a fresh id.
    pub fn child(&self, next_id: u64) -> (r: SpanPath)
        ensures
            r@ == self@.push(next_id),
    {
        let mut p: Vec<u64> = Vec::new();
        let mut i: usize = 0;
        while i < self.0.len()
            invariant
                i <= self@.len(),
                p@ == self@.take(i as int),
            decreases self@.len() - i,
        {
            p.push(self.0[i]);
            proof {
                assert(p@ =~= self@.take(i + 1));
            }
            i = i + 1;
        }
        proof {
            assert(self@.take(self@.len() as int) =~= self@);
        }
        p.push(next_id);
        SpanPath(p)
    }
}

/// Counters of one span.
pub struct ProgressState {
    pub total: i64,
    pub current: i64,
}

/// An increment to a span's counters.
pub struct ProgressDelta {
    pub total: i64,
    pub current: i64,
}

/// Signed addition clamped to the `i64` range.
pub open spec fn sat_add_i64(a: int, b: int) -> int {
    if a + b > i64::MAX {
        i64::MAX as int
    } else if a + b < i64::MIN {
        i64::MIN as int
    } else {
        a + b
    }
}

/// A delta folded into a state: both counters grow by the delta, clamped.
pub open spec fn spec_apply(s: ProgressState, d: ProgressDelta) -> ProgressState {
    ProgressState {
        total: sat_add_i64(s.total as int, d.total as int) as i64,
        current: sat_add_i64(s.current as int, d.current as int) as i64,
    }
}

/// Saturating signed addition: progress is decorative and must not trap.
fn saturating_add(a: i64, b: i64) -> (r: i64)
    ensures
        r as int == sat_add_i64(a as int, b as int),
{
    if b >= 0 {
        if a <= i64::MAX - b {
            a + b
        } else {
            i64::MAX
        }
    } else {
        if a >= i64::MIN - b {
            a + b
        } else {
            i64::MIN
        }
    }
}

impl ProgressDelta {
    /// Fold this delta into a state: each counter grows by the delta's,
    /// clamped to the `i64` range.
    pub fn apply(&self, state: &mut ProgressState)
        ensures
            *final(state) == spec_apply(*old(state), *self),
    {
        state.total = saturating_add(state.total, self.total);
        state.current = saturating_add(state.current, self.current);
    }
}

/// What a span counts.
#[derive(Clone, Copy, PartialEq, Eq, Structural, Debug)]
pub enum ProgressKind {
    Bytes,
    Iter,
    Parent,
}

/// One live span.
pub struct ProgressSpan {
    pub name: String,
    pub state: ProgressState,
    pub kind: ProgressKind,
}

/// One report against a span.
pub enum Update {
    Start(ProgressSpan),
    Update(ProgressDelta),
    Finish,
}

/// A report addressed to a span.
pub struct ProgressMessage {
    pub span: SpanPath,
    pub update: Update,
}

/// The live span tree: each span path at most once.
pub struct ProgressMap {
    entries: Vec<(SpanPath, ProgressSpan)>,
    finished_pending: Vec<SpanPath>,
}

/// The abstract record of one live span.
pub struct SpanRec {
    pub key: Seq<u64>,
    pub name: Seq<char>,
    pub state: ProgressState,
    pub kind: ProgressKind,
}

/// The abstraction of one table entry.
pub open spec fn rec_of(e: (SpanPath, ProgressSpan)) -> SpanRec {
    SpanRec { key: e.0@, name: e.1.name@, state: e.1.state, kind: e.1.kind }
}

/// The abstraction of the whole span table.
pub open spec fn abs_of(entries: Seq<(SpanPath, ProgressSpan)>) -> Seq<SpanRec> {
    entries.map_values(|e: (SpanPath, ProgressSpan)| rec_of(e))
}

/// Whether a span with this key is in the table.
pub open spec fn abs_has(m: Seq<SpanRec>, key: Seq<u64>) -> bool {
    exists|i: int| 0 <= i < m.len() && (#[trigger] m[i]).key == key
}

/// Whether some span sits strictly below `key`.
pub open spec fn abs_has_below(m: Seq<SpanRec>, key: Seq<u64>) -> bool {
    exists|i: int|
        0 <= i < m.len() && (#[trigger] m[i]).key.len() > key.len() && m[i].key.take(
            key.len() as int,
        ) == key
}

/// First index holding `key`.
pub open spec fn find_index(m: Seq<SpanRec>, key: Seq<u64>) -> Option<int>
    decreases m.len(),
{
    if m.len() == 0 {
        None
    } else if m[0].key == key {
        Some(0int)
    } else {
        match find_index(m.skip(1), key) {
            Some(i) => Some(i + 1),
            None => None,
        }
    }
}

pub proof fn lemma_find_index_props(m: Seq<SpanRec>, key: Seq<u64>)
    ensures
        find_index(m, key) matches Some(i) ==> 0 <= i < m.len() && m[i].key == key,
        find_index(m, key) is None <==> forall|i: int|
            0 <= i < m.len() ==> (#[trigger] m[i]).key != key,
    decreases m.len(),
{
    if m.len() != 0 {
        lemma_find_index_props(m.skip(1), key);
        if m[0].key != key {
            match find_index(m.skip(1), key) {
                Some(i) => {
                    assert(m.skip(1)[i] == m[i + 1]);
                },
                None => {
                    assert forall|i: int| 0 <= i < m.len() implies (#[trigger] m[i]).key
                        != key by {
                        if i > 0 {
                            assert(m.skip(1)[i - 1] == m[i]);
                        }
                    }
                },
            }
        }
    }
}

/// Keys pairwise distinct.
pub open spec fn abs_distinct(m: Seq<SpanRec>) -> bool {
    forall|i: int, j: int|
        0 <= i < j < m.len() ==> (#[trigger] m[i]).key != (#[trigger] m[j]).key
}

proof fn lemma_find_index_unique(m: Seq<SpanRec>, i: int)
    requires
        abs_distinct(m),
        0 <= i < m.len(),
    ensures
        find_index(m, m[i].key) == Some(i),
{
    lemma_find_index_props(m, m[i].key);
    match find_index(m, m[i].key) {
        Some(j) => {
            if j < i {
                assert(m[j].key != m[i].key);
            } else if j > i {
                assert(m[i].key != m[j].key);
            }
        },
        None => {
            assert(m[i].key == m[i].key);
        },
    }
}

/// Whether this key waits in the deferred-finish list.
pub open spec fn pending_has(p: Seq<Seq<u64>>, key: Seq<u64>) -> bool {
    exists|i: int| 0 <= i < p.len() && p[i] == key
}

/// The deferred-finish list with every occurrence of `key` dropped.
pub open spec fn pending_without(p: Seq<Seq<u64>>, key: Seq<u64>) -> Seq<Seq<u64>>
    decreases p.len(),
{
    if p.len() == 0 {
        Seq::empty()
    } else if p.last() == key {
        pending_without(p.drop_last(), key)
    } else {
        pending_without(p.drop_last(), key).push(p.last())
    }
}

/// One report folded into the tree at span `cur`, before any propagation to
/// the parent: the new table, the new deferred-finish list, and the delta to
/// hand the parent, if any.
///
/// A start installs the span, or folds its counters into the one already
/// present under the reported name and kind; a delta grows a present span's
/// counters — removing the span when that completes a deferred finish — or
/// installs a placeholder holding the delta; a finish removes a childless
/// span and is deferred while children are live. Installing a span tells the
/// parent `total += 1`; removing one tells it `current += 1`.
pub open spec fn spec_step(
    m: Seq<SpanRec>,
    pending: Seq<Seq<u64>>,
    cur: Seq<u64>,
    u: Update,
) -> (Seq<SpanRec>, Seq<Seq<u64>>, Option<ProgressDelta>) {
    match u {
        Update::Start(record) => match find_index(m, cur) {
            None => (
                m.push(
                    SpanRec {
                        key: cur,
                        name: record.name@,
                        state: record.state,
                        kind: record.kind,
                    },
                ),
                pending,
                if cur.len() > 0 {
                    Some(ProgressDelta { total: 1, current: 0 })
                } else {
                    None
                },
            ),
            Some(i) => (
                m.update(
                    i,
                    SpanRec {
                        key: cur,
                        name: record.name@,
                        state: spec_apply(
                            m[i].state,
                            ProgressDelta { total: record.state.total, current: record.state.current },
                        ),
                        kind: record.kind,
                    },
                ),
                pending,
                None,
            ),
        },
        Update::Update(d) => match find_index(m, cur) {
            None => (
                m.push(
                    SpanRec {
                        key: cur,
                        name: Seq::empty(),
                        state: ProgressState { total: d.total, current: d.current },
                        kind: ProgressKind::Iter,
                    },
                ),
                pending,
                if cur.len() > 0 {
                    Some(ProgressDelta { total: 1, current: 0 })
                } else {
                    None
                },
            ),
            Some(i) => {
                let st = spec_apply(m[i].state, d);
                let m2 = m.update(
                    i,
                    SpanRec { key: cur, name: m[i].name, state: st, kind: m[i].kind },
                );
                if st.total == st.current && pending_has(pending, cur) {
                    (
                        m2.remove(i),
                        pending_without(pending, cur),
                        if cur.len() > 0 {
                            Some(ProgressDelta { total: 0, current: 1 })
                        } else {
                            None
                        },
                    )
                } else {
                    (m2, pending, None)
                }
            },
        },
        Update::Finish => {
            if abs_has_below(m, cur) {
                (m, pending.push(cur), None)
            } else {
                match find_index(m, cur) {
                    Some(i) => (
                        m.remove(i),
                        pending_without(pending, cur),
                        if cur.len() > 0 {
                            Some(ProgressDelta { total: 0, current: 1 })
                        } else {
                            None
                        },
                    ),
                    None => (m, pending, None),
                }
            }
        },
    }
}

/// A report folded into the tree and propagated: the step at the addressed
/// span, then — while a step hands its parent a delta — the same at each
/// ancestor in turn, up to the root.
pub open spec fn spec_run(
    m: Seq<SpanRec>,
    pending: Seq<Seq<u64>>,
    cur: Seq<u64>,
    u: Update,
) -> (Seq<SpanRec>, Seq<Seq<u64>>)
    decreases cur.len(),
{
    let (m2, p2, next) = spec_step(m, pending, cur, u);
    match next {
        Some(d) => if cur.len() > 0 {
            spec_run(m2, p2, cur.drop_last(), Update::Update(d))
        } else {
            (m2, p2)
        },
        None => (m2, p2),
    }
}

/// A step at a span shorter than `key` never removes `key`.
proof fn lemma_abs_has_after_step(
    m: Seq<SpanRec>,
    p: Seq<Seq<u64>>,
    cur: Seq<u64>,
    d: ProgressDelta,
    key: Seq<u64>,
)
    requires
        abs_has(m, key),
        cur != key,
    ensures
        abs_has(spec_step(m, p, cur, Update::Update(d)).0, key),
{
    let w = choose|i: int| 0 <= i < m.len() && (#[trigger] m[i]).key == key;
    lemma_find_index_props(m, cur);
    match find_index(m, cur) {
        None => {
            assert(m.push(
                SpanRec {
                    key: cur,
                    name: Seq::empty(),
                    state: ProgressState { total: d.total, current: d.current },
                    kind: ProgressKind::Iter,
                },
            )[w] == m[w]);
        },
        Some(i) => {
            assert(m[i].key == cur);
            assert(w != i);
            let st = spec_apply(m[i].state, d);
            let m2 = m.update(i, SpanRec { key: cur, name: m[i].name, state: st, kind: m[i].kind });
            assert(m2[w] == m[w]);
            if st.total == st.current && pending_has(p, cur) {
                let w2: int = if w < i {
                    w
                } else {
                    w - 1
                };
                assert(m2.remove(i)[w2] == m2[w]);
            }
        },
    }
}

impl ProgressMap {
    pub closed spec fn model(&self) -> Seq<(SpanPath, ProgressSpan)> {
        self.entries@
    }

    /// The keys whose finish arrived while children were still live.
    pub closed spec fn pending(&self) -> Seq<Seq<u64>> {
        self.finished_pending@.map_values(|p: SpanPath| p@)
    }

    /// The abstract span table.
    pub open spec fn abs(&self) -> Seq<SpanRec> {
        abs_of(self.model())
    }

    pub open spec fn well_formed(&self) -> bool {
        forall|i: int, j: int|
            0 <= i < j < self.model().len() ==> (#[trigger] self.model()[i]).0@ != (
            #[trigger] self.model()[j]).0@
    }

    /// Whether a span is live.
    pub open spec fn has_span(&self, path: Seq<u64>) -> bool {
        exists|i: int| 0 <= i < self.model().len() && (#[trigger] self.model()[i]).0@ == path
    }

    pub fn new() -> (s: Self)
        ensures
            s.well_formed(),
            s.model().len() == 0,
            s.pending().len() == 0,
    {
        ProgressMap { entries: Vec::new(), finished_pending: Vec::new() }
    }

    fn find(&self, path: &SpanPath) -> (r: Option<usize>)
        ensures
            r matches Some(i) ==> i < self.model().len() && self.model()[i as int].0@ == path@,
            r is None <==> !self.has_span(path@),
    {
        let mut i: usize = 0;
        while i < self.entries.len()
            invariant
                i <= self.model().len(),
                forall|j: int| 0 <= j < i ==> (#[trigger] self.model()[j]).0@ != path@,
            decreases self.model().len() - i,
        {
            if paths_eq(&self.entries[i].0, path) {
                return Some(i);
            }
            i = i + 1;
        }
        proof {
            if self.has_span(path@) {
                let j = choose|j: int|
                    0 <= j < self.model().len() && (#[trigger] self.model()[j]).0@ == path@;
            }
        }
        None
    }

    /// The span's record, while it is live.
    pub fn get(&self, path: &SpanPath) -> (r: Option<&ProgressSpan>)
        ensures
            r is Some <==> self.has_span(path@),
            r matches Some(s) ==> exists|i: int|
                0 <= i < self.abs().len() && (#[trigger] self.abs()[i]) == (SpanRec {
                    key: path@,
                    name: s.name@,
                    state: s.state,
                    kind: s.kind,
                }),
    {
        match self.find(path) {
            Some(i) => {
                proof {
                    assert(self.abs()[i as int] == rec_of(self.model()[i as int]));
                }
                Some(&self.entries[i].1)
            },
            None => None,
        }
    }

    /// Whether some live span sits strictly below this one.
    pub fn has_children(&self, path: &SpanPath) -> (r: bool)
        ensures
            r == exists|i: int|
                0 <= i < self.model().len() && (#[trigger] self.model()[i]).0@.len() > path@.len()
                    && self.model()[i].0@.take(path@.len() as int) == path@,
    {
        let mut i: usize = 0;
        while i < self.entries.len()
            invariant
                i <= self.model().len(),
                forall|j: int|
                    0 <= j < i ==> !((#[trigger] self.model()[j]).0@.len() > path@.len()
                        && self.model()[j].0@.take(path@.len() as int) == path@),
            decreases self.model().len() - i,
        {
            if self.entries[i].0.len() > path.len() && self.entries[i].0.starts_with(path) {
                proof {
                    assert(self.model()[i as int].0@.len() > path@.len() && self.model()[
                    i as int].0@.take(path@.len() as int) == path@);
                }
                return true;
            }
            i = i + 1;
        }
        false
    }

    fn insert_span(&mut self, path: SpanPath, span: ProgressSpan)
        requires
            old(self).well_formed(),
            !old(self).has_span(path@),
        ensures
            final(self).well_formed(),
            final(self).has_span(path@),
            forall|p: Seq<u64>| old(self).has_span(p) ==> final(self).has_span(p),
            final(self).model() == old(self).model().push((path, span)),
            final(self).pending() == old(self).pending(),
    {
        let ghost before = self.entries@;
        let ghost pv = path@;
        self.entries.push((path, span));
        proof {
            assert(self.model()[self.model().len() - 1].0@ == pv);
            assert forall|x: int, y: int|
                0 <= x < y < self.model().len() implies (#[trigger] self.model()[x]).0@ != (
                #[trigger] self.model()[y]).0@ by {
                if y == self.model().len() - 1 {
                    assert(self.model()[x] == before[x]);
                    if before[x].0@ == pv {
                        assert((old(self).model()[x]).0@ == pv);
                        assert(old(self).has_span(pv));
                    }
                } else {
                    assert(self.model()[x] == before[x]);
                    assert(self.model()[y] == before[y]);
                    assert((old(self).model()[x]).0@ != (old(self).model()[y]).0@);
                }
            }
            assert forall|p: Seq<u64>| old(self).has_span(p) implies self.has_span(p) by {
                let j = choose|j: int| 0 <= j < before.len() && (#[trigger] before[j]).0@ == p;
                assert(self.model()[j].0@ == p);
            }
        }
    }

    fn remove_span(&mut self, i: usize)
        requires
            old(self).well_formed(),
            i < old(self).model().len(),
        ensures
            final(self).well_formed(),
            final(self).model() == old(self).model().remove(i as int),
            final(self).pending() == old(self).pending(),
            forall|p: Seq<u64>|
                old(self).has_span(p) && p != old(self).model()[i as int].0@
                    ==> final(self).has_span(p),
    {
        let ghost before = self.entries@;
        self.entries.remove(i);
        proof {
            assert forall|x: int, y: int|
                0 <= x < y < self.model().len() implies (#[trigger] self.model()[x]).0@ != (
                #[trigger] self.model()[y]).0@ by {
                let bx: int = if x < i { x } else { x + 1 };
                let by: int = if y < i { y } else { y + 1 };
                assert(self.model()[x] == before[bx]);
                assert(self.model()[y] == before[by]);
            }
            assert forall|p: Seq<u64>|
                old(self).has_span(p) && p != before[i as int].0@ implies self.has_span(p) by {
                let j = choose|j: int| 0 <= j < before.len() && (#[trigger] before[j]).0@ == p;
                if j < i {
                    assert(self.model()[j].0@ == p);
                } else {
                    assert(j != i);
                    assert(self.model()[j - 1].0@ == p);
                }
            }
        }
    }

    fn set_span(&mut self, i: usize, span: ProgressSpan)
        requires
            old(self).well_formed(),
            i < old(self).model().len(),
        ensures
            final(self).well_formed(),
            final(self).model().len() == old(self).model().len(),
            final(self).model()[i as int].0@ == old(self).model()[i as int].0@,
            final(self).model()[i as int].1 == span,
            forall|k: int|
                0 <= k < final(self).model().len() && k != i ==> final(self).model()[k] == old(
                    self,
                ).model()[k],
            forall|p: Seq<u64>| old(self).has_span(p) ==> final(self).has_span(p),
            final(self).pending() == old(self).pending(),
    {
        let ghost before = self.entries@;
        let path = SpanPath(self.key_ids(i));
        proof {
            assert(path@ == before[i as int].0@);
        }
        self.entries.set(i, (path, span));
        proof {
            assert(forall|k: int|
                0 <= k < self.model().len() && k != i ==> self.model()[k] == before[k]);
            assert(self.model()[i as int].0@ == before[i as int].0@);
            assert forall|x: int, y: int|
                0 <= x < y < self.model().len() implies (#[trigger] self.model()[x]).0@ != (
                #[trigger] self.model()[y]).0@ by {
                assert(before[x].0@ != before[y].0@);
                assert(self.model()[x].0@ == before[x].0@);
                assert(self.model()[y].0@ == before[y].0@);
            }
            assert forall|p: Seq<u64>| old(self).has_span(p) implies self.has_span(p) by {
                let j = choose|j: int| 0 <= j < before.len() && (#[trigger] before[j]).0@ == p;
                assert(self.model()[j].0@ == p);
            }
        }
    }

    fn key_ids(&self, i: usize) -> (r: Vec<u64>)
        requires
            i < self.model().len(),
        ensures
            r@ == self.model()[i as int].0@,
    {
        let src = &self.entries[i].0;
        let mut r: Vec<u64> = Vec::new();
        let mut k: usize = 0;
        while k < src.0.len()
            invariant
                i < self.model().len(),
                src@ == self.model()[i as int].0@,
                k <= src@.len(),
                r@ == src@.take(k as int),
            decreases src@.len() - k,
        {
            r.push(src.0[k]);
            proof {
                assert(r@ =~= src@.take(k + 1));
            }
            k = k + 1;
        }
        proof {
            assert(src@.take(src@.len() as int) =~= src@);
        }
        r
    }

    fn pending_contains(&self, path: &SpanPath) -> (r: bool)
        ensures
            r == pending_has(self.pending(), path@),
    {
        let mut i: usize = 0;
        while i < self.finished_pending.len()
            invariant
                i <= self.finished_pending@.len(),
                forall|j: int| 0 <= j < i ==> self.pending()[j] != path@,
            decreases self.finished_pending@.len() - i,
        {
            proof {
                assert(self.pending()[i as int] == self.finished_pending@[i as int]@);
            }
            if paths_eq(&self.finished_pending[i], path) {
                return true;
            }
            i = i + 1;
        }
        proof {
            if pending_has(self.pending(), path@) {
                let j = choose|j: int|
                    0 <= j < self.pending().len() && self.pending()[j] == path@;
            }
        }
        false
    }

    fn pending_remove(&mut self, path: &SpanPath)
        ensures
            final(self).model() == old(self).model(),
            final(self).pending() == pending_without(old(self).pending(), path@),
    {
        let ghost allv = self.pending();
        let mut kept: Vec<SpanPath> = Vec::new();
        let mut i: usize = 0;
        proof {
            assert(kept@.map_values(|p: SpanPath| p@) =~= pending_without(allv.take(0), path@));
        }
        while i < self.finished_pending.len()
            invariant
                i <= self.finished_pending@.len(),
                allv == self.pending(),
                allv.len() == self.finished_pending@.len(),
                kept@.map_values(|p: SpanPath| p@) == pending_without(allv.take(i as int), path@),
            decreases self.finished_pending@.len() - i,
        {
            proof {
                assert(allv.take(i + 1).drop_last() =~= allv.take(i as int));
                assert(allv.take(i + 1).last() == allv[i as int]);
                assert(allv[i as int] == self.finished_pending@[i as int]@);
            }
            if !paths_eq(&self.finished_pending[i], path) {
                let ghost keptv = kept@.map_values(|p: SpanPath| p@);
                let ids = span_path_ids(&self.finished_pending[i]);
                kept.push(SpanPath(ids));
                proof {
                    assert(kept@.map_values(|p: SpanPath| p@) =~= keptv.push(allv[i as int]));
                }
            }
            i = i + 1;
        }
        proof {
            assert(allv.take(allv.len() as int) =~= allv);
        }
        self.finished_pending = kept;
    }

    /// One report folded in at `cur` alone — exactly the step `spec_step`
    /// describes — handing back the delta to propagate to the parent, if any.
    fn handle_step(&mut self, cur: &SpanPath, u: Update) -> (next: Option<ProgressDelta>)
        requires
            old(self).well_formed(),
        ensures
            final(self).well_formed(),
            (abs_of(final(self).model()), final(self).pending(), next) == spec_step(
                abs_of(old(self).model()),
                old(self).pending(),
                cur@,
                u,
            ),
            next is Some ==> cur@.len() > 0,
    {
        let ghost m0 = abs_of(self.model());
        let ghost p0 = self.pending();
        proof {
            assert forall|x: int, y: int|
                0 <= x < y < m0.len() implies (#[trigger] m0[x]).key != (
            #[trigger] m0[y]).key by {
                assert(m0[x] == rec_of(self.model()[x]));
                assert(m0[y] == rec_of(self.model()[y]));
            }
            assert(abs_distinct(m0));
        }
        match u {
            Update::Start(record) => {
                match self.find(cur) {
                    None => {
                        proof {
                            assert forall|ii: int| 0 <= ii < m0.len() implies (
                            #[trigger] m0[ii]).key != cur@ by {
                                assert(m0[ii] == rec_of(self.model()[ii]));
                            }
                            lemma_find_index_props(m0, cur@);
                        }
                        let ids = span_path_ids(cur);
                        let ghost rec = SpanRec {
                            key: cur@,
                            name: record.name@,
                            state: record.state,
                            kind: record.kind,
                        };
                        let empty = cur.is_empty();
                        self.insert_span(SpanPath(ids), record);
                        proof {
                            assert(abs_of(self.model()) =~= m0.push(rec));
                        }
                        if empty {
                            None
                        } else {
                            Some(ProgressDelta { total: 1, current: 0 })
                        }
                    },
                    Some(i) => {
                        proof {
                            assert(m0[i as int] == rec_of(self.model()[i as int]));
                            lemma_find_index_unique(m0, i as int);
                        }
                        let mut merged_state = ProgressState {
                            total: self.entries[i].1.state.total,
                            current: self.entries[i].1.state.current,
                        };
                        let delta = ProgressDelta {
                            total: record.state.total,
                            current: record.state.current,
                        };
                        delta.apply(&mut merged_state);
                        let ghost rec = SpanRec {
                            key: cur@,
                            name: record.name@,
                            state: merged_state,
                            kind: record.kind,
                        };
                        let merged = ProgressSpan {
                            name: record.name,
                            state: merged_state,
                            kind: record.kind,
                        };
                        self.set_span(i, merged);
                        proof {
                            assert(abs_of(self.model()) =~= m0.update(i as int, rec));
                        }
                        None
                    },
                }
            },
            Update::Update(d) => {
                match self.find(cur) {
                    None => {
                        proof {
                            assert forall|ii: int| 0 <= ii < m0.len() implies (
                            #[trigger] m0[ii]).key != cur@ by {
                                assert(m0[ii] == rec_of(self.model()[ii]));
                            }
                            lemma_find_index_props(m0, cur@);
                        }
                        let placeholder = ProgressSpan {
                            name: String::new(),
                            state: ProgressState { total: d.total, current: d.current },
                            kind: ProgressKind::Iter,
                        };
                        let ghost rec = SpanRec {
                            key: cur@,
                            name: Seq::empty(),
                            state: placeholder.state,
                            kind: ProgressKind::Iter,
                        };
                        let ids = span_path_ids(cur);
                        let empty = cur.is_empty();
                        self.insert_span(SpanPath(ids), placeholder);
                        proof {
                            assert(abs_of(self.model()) =~= m0.push(rec));
                        }
                        if empty {
                            None
                        } else {
                            Some(ProgressDelta { total: 1, current: 0 })
                        }
                    },
                    Some(i) => {
                        proof {
                            assert(m0[i as int] == rec_of(self.model()[i as int]));
                            lemma_find_index_unique(m0, i as int);
                        }
                        let mut state = ProgressState {
                            total: self.entries[i].1.state.total,
                            current: self.entries[i].1.state.current,
                        };
                        d.apply(&mut state);
                        let name = self.entries[i].1.name.clone();
                        let kind = self.entries[i].1.kind;
                        let complete = state.total == state.current;
                        let ghost rec = SpanRec {
                            key: cur@,
                            name: m0[i as int].name,
                            state: state,
                            kind: m0[i as int].kind,
                        };
                        self.set_span(i, ProgressSpan { name, state, kind });
                        proof {
                            assert(abs_of(self.model()) =~= m0.update(i as int, rec));
                        }
                        if complete && self.pending_contains(cur) {
                            let ghost m2 = abs_of(self.model());
                            let empty = cur.is_empty();
                            self.remove_span(i);
                            proof {
                                assert(abs_of(self.model()) =~= m2.remove(i as int));
                            }
                            self.pending_remove(cur);
                            if empty {
                                None
                            } else {
                                Some(ProgressDelta { total: 0, current: 1 })
                            }
                        } else {
                            None
                        }
                    },
                }
            },
            Update::Finish => {
                if self.has_children(cur) {
                    proof {
                        let w = choose|i: int|
                            0 <= i < self.model().len() && (#[trigger] self.model()[i]).0@.len()
                                > cur@.len() && self.model()[i].0@.take(cur@.len() as int) == cur@;
                        assert(m0[w] == rec_of(self.model()[w]));
                        assert(abs_has_below(m0, cur@));
                    }
                    let ids = span_path_ids(cur);
                    let ghost pend0 = self.pending();
                    self.finished_pending.push(SpanPath(ids));
                    proof {
                        assert(self.pending() =~= pend0.push(cur@));
                        assert(abs_of(self.model()) == m0);
                    }
                    None
                } else {
                    proof {
                        if abs_has_below(m0, cur@) {
                            let w = choose|i: int|
                                0 <= i < m0.len() && (#[trigger] m0[i]).key.len() > cur@.len()
                                    && m0[i].key.take(cur@.len() as int) == cur@;
                            assert(m0[w] == rec_of(self.model()[w]));
                            assert(self.model()[w].0@.len() > cur@.len() && self.model()[w].0@.take(
                                cur@.len() as int,
                            ) == cur@);
                            assert(false);
                        }
                    }
                    match self.find(cur) {
                        Some(i) => {
                            proof {
                                assert(m0[i as int] == rec_of(self.model()[i as int]));
                                lemma_find_index_unique(m0, i as int);
                            }
                            let empty = cur.is_empty();
                            self.remove_span(i);
                            proof {
                                assert(abs_of(self.model()) =~= m0.remove(i as int));
                            }
                            self.pending_remove(cur);
                            if empty {
                                None
                            } else {
                                Some(ProgressDelta { total: 0, current: 1 })
                            }
                        },
                        None => {
                            proof {
                                assert forall|ii: int| 0 <= ii < m0.len() implies (
                                #[trigger] m0[ii]).key != cur@ by {
                                    assert(m0[ii] == rec_of(self.model()[ii]));
                                }
                                lemma_find_index_props(m0, cur@);
                            }
                            None
                        },
                    }
                }
            },
        }
    }

    /// Fold one report into the tree: exactly `spec_run` — the step at the
    /// addressed span (a start installs or merges, a delta updates or installs
    /// a placeholder, a finish removes or is deferred while children live),
    /// then the propagated counter updates at each ancestor in turn.
    pub fn handle(&mut self, msg: ProgressMessage)
        requires
            old(self).well_formed(),
        ensures
            final(self).well_formed(),
            (abs_of(final(self).model()), final(self).pending()) == spec_run(
                abs_of(old(self).model()),
                old(self).pending(),
                msg.span@,
                msg.update,
            ),
            msg.update matches Update::Start(_) ==> final(self).has_span(msg.span@),
    {
        let ProgressMessage { span, update } = msg;
        let ghost target = span@;
        let ghost g_m0 = abs_of(self.model());
        let ghost g_p0 = self.pending();
        let ghost g_u0 = update;
        let ghost is_start = update matches Update::Start(_);
        let mut cur = span;
        let mut upd = Some(update);
        let mut first = true;
        while upd.is_some()
            invariant
                self.well_formed(),
                first ==> upd == Some(g_u0) && cur@ == target,
                upd matches Some(u) ==> spec_run(g_m0, g_p0, target, g_u0) == spec_run(
                    abs_of(self.model()),
                    self.pending(),
                    cur@,
                    u,
                ),
                upd is None ==> spec_run(g_m0, g_p0, target, g_u0) == (
                    abs_of(self.model()),
                    self.pending(),
                ),
                !first ==> (upd matches Some(u) ==> u matches Update::Update(_)),
                is_start == (g_u0 matches Update::Start(_)),
                is_start && !first ==> abs_has(abs_of(self.model()), target),
                is_start && !first && upd is Some ==> cur@.len() < target.len(),
            decreases cur@.len() + (if upd is Some { 1int } else { 0int }),
        {
            let u = upd.take().unwrap();
            let ghost m_pre = abs_of(self.model());
            let ghost p_pre = self.pending();
            let ghost curv = cur@;
            let ghost gu = u;
            let parent = cur.parent();
            let next = self.handle_step(&cur, u);
            proof {
                if is_start {
                    if first {
                        lemma_find_index_props(m_pre, curv);
                        match find_index(m_pre, curv) {
                            None => {
                                assert(abs_of(self.model())[m_pre.len() as int].key == curv);
                                assert(abs_has(abs_of(self.model()), target));
                            },
                            Some(i) => {
                                assert(abs_of(self.model())[i].key == curv);
                                assert(abs_has(abs_of(self.model()), target));
                            },
                        }
                    } else {
                        assert(curv.len() < target.len());
                        assert(curv != target);
                        match gu {
                            Update::Update(dd) => {
                                lemma_abs_has_after_step(m_pre, p_pre, curv, dd, target);
                            },
                            _ => {
                                assert(false);
                            },
                        }
                    }
                }
            }
            if let Some(dnext) = next {
                let p = parent.unwrap();
                proof {
                    assert(p@ =~= curv.drop_last());
                }
                cur = p;
                upd = Some(Update::Update(dnext));
            }
            first = false;
        }
        proof {
            if is_start {
                let w = choose|i: int|
                    0 <= i < abs_of(self.model()).len() && (#[trigger] abs_of(self.model())[i]).key
                        == target;
                assert(abs_of(self.model())[w] == rec_of(self.model()[w]));
                assert(self.model()[w].0@ == target);
                assert(self.has_span(target));
            }
        }
    }
}

fn paths_eq(a: &SpanPath, b: &SpanPath) -> (r: bool)
    ensures
        r == (a@ == b@),
{
    if a.0.len() != b.0.len() {
        proof {
            assert(a@.len() != b@.len());
        }
        return false;
    }
    let mut i: usize = 0;
    while i < a.0.len()
        invariant
            i <= a@.len(),
            a@.len() == b@.len(),
            forall|j: int| 0 <= j < i ==> a@[j] == b@[j],
        decreases a@.len() - i,
    {
        if a.0[i] != b.0[i] {
            return false;
        }
        i = i + 1;
    }
    proof {
        assert(a@ =~= b@);
    }
    true
}

fn span_path_ids(p: &SpanPath) -> (r: Vec<u64>)
    ensures
        r@ == p@,
{
    let mut r: Vec<u64> = Vec::new();
    let mut k: usize = 0;
    while k < p.0.len()
        invariant
            k <= p@.len(),
            r@ == p@.take(k as int),
        decreases p@.len() - k,
    {
        r.push(p.0[k]);
        proof {
            assert(r@ =~= p@.take(k + 1));
        }
        k = k + 1;
    }
    proof {
        assert(p@.take(p@.len() as int) =~= p@);
    }
    r
}

} // verus!
