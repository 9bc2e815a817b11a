//! The extraction queue: the decision core of the on-demand archive service.
//!
//! Directives ask for `(archive, entry)` pairs. The queue decides, for each
//! request, whether the result is already cached, whether an identical
//! extraction is already running, whether the archive can be opened within the
//! open-handle budget, or whether an idle open archive must be evicted first.
//! The caller performs the actual opening and extraction and reports back
//! through [`QueueState::finish`]; completed extractions are cached under a
//! token that names the extracted artifact.
//!
//! Two guarantees are proved here as laws over arbitrary event sequences:
//! an extraction for a key is started at most once, however many requests
//! race for it, and the number of open archives never exceeds the bound.

use vstd::prelude::*;

verus! {

/// What the caller must do next for a request.
#[derive(Clone, Copy, PartialEq, Eq, Structural, Debug)]
pub enum Action {
    /// The entry was already extracted; its artifact token is returned.
    Serve(u64),
    /// An identical extraction is running: wait for its completion.
    AwaitInFlight,
    /// The archive is open: start extracting this entry from it.
    StartExtraction,
    /// Open the archive (a slot is free), then start extracting.
    OpenAndExtract,
    /// Close the named idle archive, open this one, then start extracting.
    EvictOpenAndExtract(u64),
    /// Every open archive is busy and none can be evicted: retry after a
    /// completion frees a slot.
    Wait,
}

/// One observable event in the life of the queue.
pub enum QueueEvent {
    /// A caller asked for `(archive, entry)`.
    Request(u64, u64),
    /// A caller reported the extraction of `(archive, entry)` complete,
    /// with the token of the produced artifact.
    Finish(u64, u64, u64),
}

/// Mathematical state of the queue.
pub struct QueueModel {
    /// Greatest number of archives that may be open at once.
    pub bound: int,
    /// Archives open now, least recently touched first.
    pub open: Seq<u64>,
    /// Extractions running now.
    pub in_flight: Seq<(u64, u64)>,
    /// Completed extractions with the token of each artifact.
    pub done: Seq<((u64, u64), u64)>,
}

/// The sequence with every occurrence of `x` removed.
pub open spec fn remove_val<A>(s: Seq<A>, x: A) -> Seq<A> {
    s.filter(|y: A| y != x)
}

/// Keys of the completed extractions.
pub open spec fn done_keys(done: Seq<((u64, u64), u64)>) -> Seq<(u64, u64)> {
    done.map_values(|e: ((u64, u64), u64)| e.0)
}

/// Whether some extraction from archive `a` is running.
pub open spec fn archive_busy(in_flight: Seq<(u64, u64)>, a: u64) -> bool {
    exists|i: int| 0 <= i < in_flight.len() && in_flight[i].0 == a
}

/// The least recently used open archive with no running extraction.
pub open spec fn first_idle(open: Seq<u64>, in_flight: Seq<(u64, u64)>) -> Option<u64>
    decreases open.len(),
{
    if open.len() == 0 {
        None
    } else if !archive_busy(in_flight, open[0]) {
        Some(open[0])
    } else {
        first_idle(open.skip(1), in_flight)
    }
}

impl QueueModel {
    /// An extraction for this key has been started at some point: it is
    /// either still running or already cached.
    pub open spec fn started(self, key: (u64, u64)) -> bool {
        self.in_flight.contains(key) || done_keys(self.done).contains(key)
    }

    /// The token cached for a completed key.
    pub open spec fn token_of(self, key: (u64, u64)) -> u64 {
        self.done[done_keys(self.done).index_of(key)].1
    }

    pub open spec fn well_formed(self) -> bool {
        &&& self.bound >= 1
        &&& self.open.len() <= self.bound
        &&& self.open.no_duplicates()
        &&& self.in_flight.no_duplicates()
        &&& done_keys(self.done).no_duplicates()
        &&& forall|i: int|
            0 <= i < self.in_flight.len() ==> self.open.contains(#[trigger] self.in_flight[i].0)
        &&& forall|k: (u64, u64)|
            #[trigger] self.in_flight.contains(k) ==> !done_keys(self.done).contains(k)
    }
}

/// The decision for a request, and the state it leaves behind.
pub open spec fn spec_request(m: QueueModel, a: u64, p: u64) -> (QueueModel, Action) {
    let key = (a, p);
    if done_keys(m.done).contains(key) {
        (m, Action::Serve(m.token_of(key)))
    } else if m.in_flight.contains(key) {
        (m, Action::AwaitInFlight)
    } else if m.open.contains(a) {
        (
            QueueModel {
                open: remove_val(m.open, a).push(a),
                in_flight: m.in_flight.push(key),
                ..m
            },
            Action::StartExtraction,
        )
    } else if m.open.len() < m.bound {
        (
            QueueModel { open: m.open.push(a), in_flight: m.in_flight.push(key), ..m },
            Action::OpenAndExtract,
        )
    } else {
        match first_idle(m.open, m.in_flight) {
            Some(victim) => (
                QueueModel {
                    open: remove_val(m.open, victim).push(a),
                    in_flight: m.in_flight.push(key),
                    ..m
                },
                Action::EvictOpenAndExtract(victim),
            ),
            None => (m, Action::Wait),
        }
    }
}

/// The state after a completed extraction is reported.
pub open spec fn spec_finish(m: QueueModel, a: u64, p: u64, token: u64) -> QueueModel {
    let key = (a, p);
    if m.in_flight.contains(key) {
        QueueModel {
            in_flight: remove_val(m.in_flight, key),
            done: m.done.push((key, token)),
            ..m
        }
    } else {
        m
    }
}

/// The state after one event.
pub open spec fn spec_step(m: QueueModel, e: QueueEvent) -> QueueModel {
    match e {
        QueueEvent::Request(a, p) => spec_request(m, a, p).0,
        QueueEvent::Finish(a, p, token) => spec_finish(m, a, p, token),
    }
}

/// The state after a whole event sequence.
pub open spec fn spec_run(m: QueueModel, es: Seq<QueueEvent>) -> QueueModel
    decreases es.len(),
{
    if es.len() == 0 {
        m
    } else {
        spec_run(spec_step(m, es[0]), es.skip(1))
    }
}

/// Whether an action starts a new extraction.
pub open spec fn is_start(act: Action) -> bool {
    match act {
        Action::StartExtraction => true,
        Action::OpenAndExtract => true,
        Action::EvictOpenAndExtract(_) => true,
        _ => false,
    }
}

/// How many requests in the event sequence start an extraction for `(a, p)`.
pub open spec fn start_count(m: QueueModel, es: Seq<QueueEvent>, a: u64, p: u64) -> nat
    decreases es.len(),
{
    if es.len() == 0 {
        0
    } else {
        let here: nat = match es[0] {
            QueueEvent::Request(x, y) => if x == a && y == p && is_start(
                spec_request(m, x, y).1,
            ) {
                1nat
            } else {
                0nat
            },
            QueueEvent::Finish(_, _, _) => 0nat,
        };
        here + start_count(spec_step(m, es[0]), es.skip(1), a, p)
    }
}

/// A push of a fresh element keeps a sequence duplicate-free.
pub proof fn lemma_push_no_duplicates<A>(s: Seq<A>, x: A)
    requires
        s.no_duplicates(),
        !s.contains(x),
    ensures
        s.push(x).no_duplicates(),
{
    let t = s.push(x);
    assert forall|i: int, j: int| 0 <= i < j < t.len() implies t[i] != t[j] by {
        if j == t.len() - 1 {
            assert(t[i] == s[i]);
        }
    }
}

/// What removing a value does: the value is gone, everything else stays,
/// order and distinctness are kept.
pub proof fn lemma_remove_val_props<A>(s: Seq<A>, x: A)
    ensures
        !remove_val(s, x).contains(x),
        forall|y: A| y != x ==> (remove_val(s, x).contains(y) <==> s.contains(y)),
        s.no_duplicates() ==> remove_val(s, x).no_duplicates(),
        remove_val(s, x).len() <= s.len(),
        s.contains(x) ==> remove_val(s, x).len() < s.len(),
    decreases s.len(),
{
    reveal(Seq::filter);
    let pred = |y: A| y != x;
    let r = s.filter(pred);
    if s.len() == 0 {
        assert forall|y: A| y != x implies (r.contains(y) <==> s.contains(y)) by {}
        assert(!r.contains(x));
    } else {
        let d = s.drop_last();
        let rd = d.filter(pred);
        lemma_remove_val_props(d, x);
        assert(forall|i: int| 0 <= i < d.len() ==> d[i] == s[i]);
        assert forall|y: A| s.contains(y) implies d.contains(y) || s.last() == y by {
            let i = choose|i: int| 0 <= i < s.len() && s[i] == y;
            if i < s.len() - 1 {
                assert(d[i] == y);
            }
        }
        if pred(s.last()) {
            assert(r == rd.push(s.last()));
            assert(!r.contains(x)) by {
                if r.contains(x) {
                    let i = choose|i: int| 0 <= i < r.len() && r[i] == x;
                    if i < r.len() - 1 {
                        assert(rd[i] == x);
                    }
                }
            }
            assert forall|y: A| y != x implies (r.contains(y) <==> s.contains(y)) by {
                if r.contains(y) {
                    let i = choose|i: int| 0 <= i < r.len() && r[i] == y;
                    if i < r.len() - 1 {
                        assert(rd.contains(y));
                        assert(d.contains(y));
                        let j = choose|j: int| 0 <= j < d.len() && d[j] == y;
                        assert(s[j] == y);
                    } else {
                        assert(s.last() == y);
                        assert(s[s.len() - 1] == y);
                    }
                }
                if s.contains(y) {
                    if d.contains(y) {
                        assert(rd.contains(y));
                        let j = choose|j: int| 0 <= j < rd.len() && rd[j] == y;
                        assert(r[j] == y);
                    } else {
                        assert(s.last() == y);
                        assert(r.last() == y);
                    }
                }
            }
            if s.no_duplicates() {
                assert(d.no_duplicates());
                assert(!d.contains(s.last())) by {
                    if d.contains(s.last()) {
                        let i = choose|i: int| 0 <= i < d.len() && d[i] == s.last();
                        assert(s[i] == s[s.len() - 1]);
                    }
                }
                assert(!rd.contains(s.last()));
                lemma_push_no_duplicates(rd, s.last());
            }
            if s.contains(x) {
                assert(d.contains(x)) by {
                    assert(s.last() != x);
                }
            }
        } else {
            assert(r == rd);
            assert(s.last() == x);
            assert forall|y: A| y != x implies (r.contains(y) <==> s.contains(y)) by {
                if s.contains(y) {
                    assert(d.contains(y)) by {
                        assert(s.last() != y);
                    }
                }
                if r.contains(y) {
                    assert(d.contains(y));
                    let j = choose|j: int| 0 <= j < d.len() && d[j] == y;
                    assert(s[j] == y);
                }
            }
            assert(s.contains(x)) by {
                assert(s[s.len() - 1] == x);
            }
        }
    }
}

/// Everything left after removing a value was already there before.
pub proof fn lemma_remove_val_subset<A>(s: Seq<A>, x: A)
    ensures
        forall|y: A| #[trigger] remove_val(s, x).contains(y) ==> s.contains(y),
{
    lemma_remove_val_props(s, x);
    assert forall|y: A| remove_val(s, x).contains(y) implies s.contains(y) by {
        if y == x {
            assert(false);
        }
    }
}

proof fn lemma_first_idle_props(open: Seq<u64>, in_flight: Seq<(u64, u64)>)
    ensures
        first_idle(open, in_flight) matches Some(v) ==> open.contains(v) && !archive_busy(
            in_flight,
            v,
        ),
    decreases open.len(),
{
    if open.len() != 0 {
        if archive_busy(in_flight, open[0]) {
            lemma_first_idle_props(open.skip(1), in_flight);
            match first_idle(open, in_flight) {
                Some(v) => {
                    assert(open.skip(1).contains(v));
                    let i = choose|i: int| 0 <= i < open.skip(1).len() && open.skip(1)[i] == v;
                    assert(open[i + 1] == v);
                },
                None => {},
            }
        }
    }
}

proof fn lemma_done_keys_push(done: Seq<((u64, u64), u64)>, e: ((u64, u64), u64))
    ensures
        done_keys(done.push(e)) == done_keys(done).push(e.0),
{
    assert(done_keys(done.push(e)) =~= done_keys(done).push(e.0));
}

/// A request leaves the queue well formed, keeps the bound, and starts an
/// extraction exactly when none was ever started for the key.
pub proof fn lemma_request_preserves_wf(m: QueueModel, a: u64, p: u64)
    requires
        m.well_formed(),
    ensures
        spec_request(m, a, p).0.well_formed(),
        spec_request(m, a, p).0.bound == m.bound,
        is_start(spec_request(m, a, p).1) <==> (!m.started((a, p)) && spec_request(m, a, p).1
            != Action::Wait),
        !m.started((a, p)) && spec_request(m, a, p).1 != Action::Wait ==> spec_request(
            m,
            a,
            p,
        ).0.started((a, p)),
{
    let key = (a, p);
    let (m2, act) = spec_request(m, a, p);
    if done_keys(m.done).contains(key) || m.in_flight.contains(key) {
    } else if m.open.contains(a) {
        lemma_remove_val_props(m.open, a);
        let open2 = remove_val(m.open, a).push(a);
        lemma_push_no_duplicates(remove_val(m.open, a), a);
        lemma_push_no_duplicates(m.in_flight, key);
        assert(m2.in_flight[m2.in_flight.len() - 1] == key);
        assert(open2[open2.len() - 1] == a);
        assert forall|i: int| 0 <= i < m2.in_flight.len() implies m2.open.contains(
            #[trigger] m2.in_flight[i].0,
        ) by {
            if i < m2.in_flight.len() - 1 {
                let b = m.in_flight[i].0;
                assert(m.open.contains(b));
                if b != a {
                    assert(remove_val(m.open, a).contains(b));
                    let j = choose|j: int|
                        0 <= j < remove_val(m.open, a).len() && remove_val(m.open, a)[j] == b;
                    assert(open2[j] == b);
                }
            }
        }
        assert forall|k: (u64, u64)| #[trigger] m2.in_flight.contains(k) implies !done_keys(
            m2.done,
        ).contains(k) by {
            let i = choose|i: int| 0 <= i < m2.in_flight.len() && m2.in_flight[i] == k;
            if i < m2.in_flight.len() - 1 {
                assert(m.in_flight.contains(k));
            }
        }
    } else if m.open.len() < m.bound {
        lemma_push_no_duplicates(m.open, a);
        lemma_push_no_duplicates(m.in_flight, key);
        assert(m2.in_flight[m2.in_flight.len() - 1] == key);
        assert(m2.open[m2.open.len() - 1] == a);
        assert forall|i: int| 0 <= i < m2.in_flight.len() implies m2.open.contains(
            #[trigger] m2.in_flight[i].0,
        ) by {
            if i < m2.in_flight.len() - 1 {
                let b = m.in_flight[i].0;
                let j = choose|j: int| 0 <= j < m.open.len() && m.open[j] == b;
                assert(m2.open[j] == b);
            }
        }
        assert forall|k: (u64, u64)| #[trigger] m2.in_flight.contains(k) implies !done_keys(
            m2.done,
        ).contains(k) by {
            let i = choose|i: int| 0 <= i < m2.in_flight.len() && m2.in_flight[i] == k;
            if i < m2.in_flight.len() - 1 {
                assert(m.in_flight.contains(k));
            }
        }
    } else {
        lemma_first_idle_props(m.open, m.in_flight);
        match first_idle(m.open, m.in_flight) {
            Some(victim) => {
                lemma_remove_val_props(m.open, victim);
                let open2 = remove_val(m.open, victim).push(a);
                assert(!remove_val(m.open, victim).contains(a)) by {
                    if a != victim {
                        assert(!m.open.contains(a));
                    }
                }
                lemma_push_no_duplicates(remove_val(m.open, victim), a);
                lemma_push_no_duplicates(m.in_flight, key);
                assert(m2.in_flight[m2.in_flight.len() - 1] == key);
                assert(open2[open2.len() - 1] == a);
                assert forall|i: int| 0 <= i < m2.in_flight.len() implies m2.open.contains(
                    #[trigger] m2.in_flight[i].0,
                ) by {
                    if i < m2.in_flight.len() - 1 {
                        let b = m.in_flight[i].0;
                        assert(m.open.contains(b));
                        assert(b != victim) by {
                            assert(m.in_flight[i].0 == b);
                        }
                        assert(remove_val(m.open, victim).contains(b));
                        let j = choose|j: int|
                            0 <= j < remove_val(m.open, victim).len() && remove_val(
                                m.open,
                                victim,
                            )[j] == b;
                        assert(open2[j] == b);
                    }
                }
                assert forall|k: (u64, u64)| #[trigger] m2.in_flight.contains(k)
                    implies !done_keys(m2.done).contains(k) by {
                    let i = choose|i: int| 0 <= i < m2.in_flight.len() && m2.in_flight[i] == k;
                    if i < m2.in_flight.len() - 1 {
                        assert(m.in_flight.contains(k));
                    }
                }
            },
            None => {},
        }
    }
}

/// A completion report leaves the queue well formed and keeps the bound.
pub proof fn lemma_finish_preserves_wf(m: QueueModel, a: u64, p: u64, token: u64)
    requires
        m.well_formed(),
    ensures
        spec_finish(m, a, p, token).well_formed(),
        spec_finish(m, a, p, token).bound == m.bound,
{
    let key = (a, p);
    let m2 = spec_finish(m, a, p, token);
    if m.in_flight.contains(key) {
        lemma_remove_val_props(m.in_flight, key);
        lemma_done_keys_push(m.done, (key, token));
        assert(!done_keys(m.done).contains(key));
        lemma_push_no_duplicates(done_keys(m.done), key);
        assert forall|i: int| 0 <= i < m2.in_flight.len() implies m2.open.contains(
            #[trigger] m2.in_flight[i].0,
        ) by {
            assert(m2.in_flight.contains(m2.in_flight[i]));
            assert(m.in_flight.contains(m2.in_flight[i])) by {
                assert(m2.in_flight[i] != key);
            }
            let j = choose|j: int| 0 <= j < m.in_flight.len() && m.in_flight[j] == m2.in_flight[i];
            assert(m.open.contains(m.in_flight[j].0));
        }
        assert forall|k: (u64, u64)| #[trigger] m2.in_flight.contains(k) implies !done_keys(
            m2.done,
        ).contains(k) by {
            assert(k != key);
            assert(m.in_flight.contains(k));
            assert(done_keys(m2.done) == done_keys(m.done).push(key));
            if done_keys(m2.done).contains(k) {
                let i = choose|i: int|
                    0 <= i < done_keys(m2.done).len() && done_keys(m2.done)[i] == k;
                assert(done_keys(m.done)[i] == k);
            }
        }
    }
}

/// Every step preserves well-formedness and the bound.
pub proof fn lemma_step_preserves_wf(m: QueueModel, e: QueueEvent)
    requires
        m.well_formed(),
    ensures
        spec_step(m, e).well_formed(),
        spec_step(m, e).bound == m.bound,
{
    match e {
        QueueEvent::Request(a, p) => lemma_request_preserves_wf(m, a, p),
        QueueEvent::Finish(a, p, token) => lemma_finish_preserves_wf(m, a, p, token),
    }
}

/// Bounded concurrency: from a well-formed queue, after any sequence of
/// events the queue is still well formed, so the number of open archives
/// never exceeds the configured bound at any point of any run.
pub proof fn lemma_run_bounded(m: QueueModel, es: Seq<QueueEvent>)
    requires
        m.well_formed(),
    ensures
        spec_run(m, es).well_formed(),
        spec_run(m, es).bound == m.bound,
        spec_run(m, es).open.len() <= m.bound,
    decreases es.len(),
{
    if es.len() != 0 {
        lemma_step_preserves_wf(m, es[0]);
        lemma_run_bounded(spec_step(m, es[0]), es.skip(1));
    }
}

/// Once started, a key stays started through every event.
pub proof fn lemma_started_monotone(m: QueueModel, e: QueueEvent, key: (u64, u64))
    requires
        m.started(key),
    ensures
        spec_step(m, e).started(key),
{
    let m2 = spec_step(m, e);
    match e {
        QueueEvent::Request(a, p) => {
            let (m3, _) = spec_request(m, a, p);
            if m.in_flight.contains(key) {
                if m3.in_flight != m.in_flight {
                    let i = choose|i: int| 0 <= i < m.in_flight.len() && m.in_flight[i] == key;
                    assert(m.in_flight.push((a, p))[i] == key);
                }
            }
        },
        QueueEvent::Finish(a, p, token) => {
            if m.in_flight.contains((a, p)) {
                lemma_done_keys_push(m.done, ((a, p), token));
                if key == (a, p) {
                    assert(done_keys(m2.done)[done_keys(m2.done).len() - 1] == key);
                } else if m.in_flight.contains(key) {
                    lemma_remove_val_props(m.in_flight, (a, p));
                } else {
                    let i = choose|i: int|
                        0 <= i < done_keys(m.done).len() && done_keys(m.done)[i] == key;
                    assert(done_keys(m2.done)[i] == key);
                }
            }
        },
    }
}

/// A started key never has another extraction started for it.
pub proof fn lemma_no_start_when_started(m: QueueModel, es: Seq<QueueEvent>, a: u64, p: u64)
    requires
        m.started((a, p)),
    ensures
        start_count(m, es, a, p) == 0,
    decreases es.len(),
{
    if es.len() != 0 {
        lemma_started_monotone(m, es[0], (a, p));
        lemma_no_start_when_started(spec_step(m, es[0]), es.skip(1), a, p);
    }
}

/// A cached artifact never changes: once a key is done, every event leaves
/// it done with the same token, so every caller served for the key receives
/// the same artifact.
pub proof fn lemma_cached_token_stable(m: QueueModel, e: QueueEvent, key: (u64, u64))
    requires
        m.well_formed(),
        done_keys(m.done).contains(key),
    ensures
        done_keys(spec_step(m, e).done).contains(key),
        spec_step(m, e).token_of(key) == m.token_of(key),
{
    let m2 = spec_step(m, e);
    match e {
        QueueEvent::Request(_, _) => {
            assert(m2.done == m.done);
        },
        QueueEvent::Finish(a, p, token) => {
            if m.in_flight.contains((a, p)) {
                assert((a, p) != key);
                lemma_done_keys_push(m.done, ((a, p), token));
                let keys = done_keys(m.done);
                let keys2 = done_keys(m2.done);
                assert(keys2 == keys.push((a, p)));
                let i = keys.index_of(key);
                assert(0 <= i < keys.len() && keys[i] == key);
                assert(keys2[i] == key);
                let j = keys2.index_of(key);
                assert(0 <= j < keys2.len() && keys2[j] == key);
                assert(j < keys2.len() - 1) by {
                    assert(keys2[keys2.len() - 1] == (a, p));
                }
                assert(j == i) by {
                    if j != i {
                        assert(keys[j] == key);
                    }
                }
                assert(m2.done[i] == m.done[i]);
            } else {
                assert(m2.done == m.done);
            }
        },
    }
}

/// Deduplication: in any run of the queue, however the requests and
/// completions for `(a, p)` interleave with others, at most one extraction
/// for `(a, p)` is ever started.
pub proof fn lemma_extraction_started_at_most_once(
    m: QueueModel,
    es: Seq<QueueEvent>,
    a: u64,
    p: u64,
)
    ensures
        m.started((a, p)) ==> start_count(m, es, a, p) == 0,
        start_count(m, es, a, p) <= 1,
    decreases es.len(),
{
    if m.started((a, p)) {
        lemma_no_start_when_started(m, es, a, p);
    } else if es.len() != 0 {
        let m2 = spec_step(m, es[0]);
        match es[0] {
            QueueEvent::Request(x, y) => {
                if x == a && y == p && is_start(spec_request(m, x, y).1) {
                    assert(m2.started((a, p))) by {
                        let (m3, _) = spec_request(m, x, y);
                        assert(m3.in_flight[m3.in_flight.len() - 1] == (a, p));
                    }
                    lemma_no_start_when_started(m2, es.skip(1), a, p);
                } else {
                    lemma_extraction_started_at_most_once(m2, es.skip(1), a, p);
                }
            },
            QueueEvent::Finish(_, _, _) => {
                lemma_extraction_started_at_most_once(m2, es.skip(1), a, p);
            },
        }
    }
}

/// The token cached for `key` in a completed-extraction table.
pub open spec fn token_in(done: Seq<((u64, u64), u64)>, key: (u64, u64)) -> u64 {
    done[done_keys(done).index_of(key)].1
}

/// How removal interacts with a push at the end.
pub proof fn lemma_remove_val_push<A>(s: Seq<A>, y: A, x: A)
    ensures
        y != x ==> remove_val(s.push(y), x) == remove_val(s, x).push(y),
        y == x ==> remove_val(s.push(y), x) == remove_val(s, x),
{
    reveal(Seq::filter);
    let t = s.push(y);
    assert(t.drop_last() =~= s);
    assert(t.last() == y);
}

fn vec_contains_u64(v: &[u64], x: u64) -> (r: bool)
    ensures
        r == v@.contains(x),
{
    let mut i: usize = 0;
    while i < v.len()
        invariant
            i <= v@.len(),
            forall|j: int| 0 <= j < i ==> v@[j] != x,
        decreases v@.len() - i,
    {
        if v[i] == x {
            return true;
        }
        i = i + 1;
    }
    false
}

fn vec_contains_key(v: &[(u64, u64)], a: u64, p: u64) -> (r: bool)
    ensures
        r == v@.contains((a, p)),
{
    let mut i: usize = 0;
    while i < v.len()
        invariant
            i <= v@.len(),
            forall|j: int| 0 <= j < i ==> v@[j] != (a, p),
        decreases v@.len() - i,
    {
        if v[i].0 == a && v[i].1 == p {
            assert(v@[i as int] == (a, p));
            return true;
        }
        i = i + 1;
    }
    false
}

fn lookup_done(d: &[((u64, u64), u64)], a: u64, p: u64) -> (r: Option<u64>)
    requires
        done_keys(d@).no_duplicates(),
    ensures
        r is Some <==> done_keys(d@).contains((a, p)),
        r matches Some(t) ==> t == token_in(d@, (a, p)),
{
    let key = (a, p);
    let ghost keys = done_keys(d@);
    let mut i: usize = 0;
    while i < d.len()
        invariant
            i <= d@.len(),
            keys == done_keys(d@),
            done_keys(d@).no_duplicates(),
            forall|j: int| 0 <= j < i ==> keys[j] != (a, p),
        decreases d@.len() - i,
    {
        if d[i].0.0 == a && d[i].0.1 == p {
            proof {
                assert(keys[i as int] == (a, p));
                let j = keys.index_of((a, p));
                assert(keys.contains((a, p)));
                assert(0 <= j < keys.len() && keys[j] == (a, p));
                assert(j == i);
            }
            return Some(d[i].1);
        }
        proof {
            assert(keys[i as int] == d@[i as int].0);
        }
        i = i + 1;
    }
    proof {
        if done_keys(d@).contains((a, p)) {
            let j = choose|j: int| 0 <= j < keys.len() && keys[j] == (a, p);
            assert(false);
        }
    }
    None
}

fn vec_remove_u64(v: &[u64], x: u64) -> (r: Vec<u64>)
    ensures
        r@ == remove_val(v@, x),
{
    let mut r: Vec<u64> = Vec::new();
    let mut i: usize = 0;
    proof {
        reveal(Seq::filter);
        assert(v@.take(0) =~= Seq::<u64>::empty());
    }
    while i < v.len()
        invariant
            i <= v@.len(),
            r@ == remove_val(v@.take(i as int), x),
        decreases v@.len() - i,
    {
        proof {
            lemma_remove_val_push(v@.take(i as int), v@[i as int], x);
            assert(v@.take(i as int).push(v@[i as int]) =~= v@.take(i + 1));
        }
        if v[i] != x {
            r.push(v[i]);
        }
        i = i + 1;
    }
    proof {
        assert(v@.take(v@.len() as int) =~= v@);
    }
    r
}

fn vec_remove_key(v: &[(u64, u64)], a: u64, p: u64) -> (r: Vec<(u64, u64)>)
    ensures
        r@ == remove_val(v@, (a, p)),
{
    let mut r: Vec<(u64, u64)> = Vec::new();
    let mut i: usize = 0;
    proof {
        reveal(Seq::filter);
        assert(v@.take(0) =~= Seq::<(u64, u64)>::empty());
    }
    while i < v.len()
        invariant
            i <= v@.len(),
            r@ == remove_val(v@.take(i as int), (a, p)),
        decreases v@.len() - i,
    {
        proof {
            lemma_remove_val_push(v@.take(i as int), v@[i as int], (a, p));
            assert(v@.take(i as int).push(v@[i as int]) =~= v@.take(i + 1));
        }
        if !(v[i].0 == a && v[i].1 == p) {
            let e = v[i];
            proof {
                assert(e != (a, p));
            }
            r.push(e);
        } else {
            proof {
                assert(v@[i as int] == (a, p));
            }
        }
        i = i + 1;
    }
    proof {
        assert(v@.take(v@.len() as int) =~= v@);
    }
    r
}

fn archive_busy_exec(in_flight: &[(u64, u64)], a: u64) -> (r: bool)
    ensures
        r == archive_busy(in_flight@, a),
{
    let mut i: usize = 0;
    while i < in_flight.len()
        invariant
            i <= in_flight@.len(),
            forall|j: int| 0 <= j < i ==> in_flight@[j].0 != a,
        decreases in_flight@.len() - i,
    {
        if in_flight[i].0 == a {
            return true;
        }
        i = i + 1;
    }
    false
}

fn first_idle_exec(open: &[u64], in_flight: &[(u64, u64)]) -> (r: Option<u64>)
    ensures
        r == first_idle(open@, in_flight@),
{
    let mut i: usize = 0;
    proof {
        assert(open@.skip(0) =~= open@);
    }
    while i < open.len()
        invariant
            i <= open@.len(),
            first_idle(open@, in_flight@) == first_idle(open@.skip(i as int), in_flight@),
            forall|j: int| 0 <= j < i ==> archive_busy(in_flight@, open@[j]),
        decreases open@.len() - i,
    {
        let ghost rest = open@.skip(i as int);
        if !archive_busy_exec(in_flight, open[i]) {
            proof {
                assert(rest[0] == open@[i as int]);
            }
            return Some(open[i]);
        }
        proof {
            assert(rest[0] == open@[i as int]);
            assert(rest.skip(1) =~= open@.skip(i + 1));
        }
        i = i + 1;
    }
    proof {
        assert(open@.skip(open@.len() as int) =~= Seq::<u64>::empty());
    }
    None
}

/// The executable queue. Its contract is exact: each operation performs one
/// step of the specification transition system above.
pub struct QueueState {
    bound: usize,
    open: Vec<u64>,
    in_flight: Vec<(u64, u64)>,
    done: Vec<((u64, u64), u64)>,
}

impl QueueState {
    /// The mathematical state this queue is in.
    pub closed spec fn model(&self) -> QueueModel {
        QueueModel {
            bound: self.bound as int,
            open: self.open@,
            in_flight: self.in_flight@,
            done: self.done@,
        }
    }

    /// A fresh queue that will keep at most `bound` archives open.
    pub fn new(bound: usize) -> (s: Self)
        requires
            bound >= 1,
        ensures
            s.model().well_formed(),
            s.model().bound == bound,
            s.model().open.len() == 0,
            s.model().in_flight.len() == 0,
            s.model().done.len() == 0,
    {
        let s = QueueState { bound, open: Vec::new(), in_flight: Vec::new(), done: Vec::new() };
        proof {
            assert(done_keys(s.done@) =~= Seq::<(u64, u64)>::empty());
        }
        s
    }

    /// Decide what to do for a request for entry `p` of archive `a`, and
    /// update the bookkeeping accordingly.
    pub fn request(&mut self, a: u64, p: u64) -> (act: Action)
        requires
            old(self).model().well_formed(),
        ensures
            final(self).model() == spec_request(old(self).model(), a, p).0,
            act == spec_request(old(self).model(), a, p).1,
            final(self).model().well_formed(),
    {
        proof {
            lemma_request_preserves_wf(self.model(), a, p);
        }
        match lookup_done(self.done.as_slice(), a, p) {
            Some(token) => Action::Serve(token),
            None => {
                if vec_contains_key(self.in_flight.as_slice(), a, p) {
                    Action::AwaitInFlight
                } else if vec_contains_u64(self.open.as_slice(), a) {
                    let mut reopened = vec_remove_u64(self.open.as_slice(), a);
                    reopened.push(a);
                    self.open = reopened;
                    self.in_flight.push((a, p));
                    Action::StartExtraction
                } else if self.open.len() < self.bound {
                    self.open.push(a);
                    self.in_flight.push((a, p));
                    Action::OpenAndExtract
                } else {
                    match first_idle_exec(self.open.as_slice(), self.in_flight.as_slice()) {
                        Some(victim) => {
                            let mut reopened = vec_remove_u64(self.open.as_slice(), victim);
                            reopened.push(a);
                            self.open = reopened;
                            self.in_flight.push((a, p));
                            Action::EvictOpenAndExtract(victim)
                        },
                        None => Action::Wait,
                    }
                }
            },
        }
    }

    /// Record a completed extraction for `(a, p)`, caching its artifact token.
    pub fn finish(&mut self, a: u64, p: u64, token: u64)
        requires
            old(self).model().well_formed(),
        ensures
            final(self).model() == spec_finish(old(self).model(), a, p, token),
            final(self).model().well_formed(),
    {
        proof {
            lemma_finish_preserves_wf(self.model(), a, p, token);
        }
        if vec_contains_key(self.in_flight.as_slice(), a, p) {
            let trimmed = vec_remove_key(self.in_flight.as_slice(), a, p);
            self.in_flight = trimmed;
            self.done.push(((a, p), token));
        }
    }

    /// Tear the queue down: forget every open archive and cached result and
    /// hand back the tokens of all cached artifacts, so that the caller can
    /// delete each backing temporary file.
    pub fn shutdown(&mut self) -> (tokens: Vec<u64>)
        ensures
            final(self).model().open.len() == 0,
            final(self).model().in_flight.len() == 0,
            final(self).model().done.len() == 0,
            final(self).model().bound == old(self).model().bound,
            tokens@ == old(self).model().done.map_values(|e: ((u64, u64), u64)| e.1),
    {
        let mut tokens: Vec<u64> = Vec::new();
        let mut i: usize = 0;
        let ghost done0 = self.done@;
        while i < self.done.len()
            invariant
                i <= done0.len(),
                self.done@ == done0,
                tokens@ == done0.take(i as int).map_values(|e: ((u64, u64), u64)| e.1),
            decreases done0.len() - i,
        {
            tokens.push(self.done[i].1);
            proof {
                assert(tokens@ =~= done0.take(i + 1).map_values(|e: ((u64, u64), u64)| e.1));
            }
            i = i + 1;
        }
        self.open = Vec::new();
        self.in_flight = Vec::new();
        self.done = Vec::new();
        proof {
            assert(done0.take(done0.len() as int) =~= done0);
        }
        tokens
    }
}

} // verus!
