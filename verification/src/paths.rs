//! Archive-internal path handling.
//!
//! Manifest entries write paths with Windows separators (`\` and the escaped
//! `\\`); archives on disk and the install tree use `/`. Every comparison in
//! the resolver and the extraction planners happens on the normalized form.

use vstd::prelude::*;
use crate::text::{chars_to_string, chars_to_lower, chars_eq, str_to_chars, lower_seq};

verus! {

/// A path as the manifest spells it, possibly with Windows separators.
pub struct MaybeWindowsPath(pub String);

impl View for MaybeWindowsPath {
    type V = Seq<char>;

    open spec fn view(&self) -> Seq<char> {
        self.0@
    }
}

/// Separator normalization: each escaped double backslash becomes one slash,
/// then every remaining backslash becomes a slash; other characters stay.
pub open spec fn normalize_seps(s: Seq<char>) -> Seq<char>
    decreases s.len(),
{
    if s.len() == 0 {
        s
    } else if s.len() >= 2 && s[0] == '\\' && s[1] == '\\' {
        seq!['/'] + normalize_seps(s.skip(2))
    } else if s[0] == '\\' {
        seq!['/'] + normalize_seps(s.skip(1))
    } else {
        seq![s[0]] + normalize_seps(s.skip(1))
    }
}

/// Normalization leaves a backslash-free sequence unchanged.
pub proof fn lemma_normalize_seps_noop(s: Seq<char>)
    requires
        forall|i: int| 0 <= i < s.len() ==> s[i] != '\\',
    ensures
        normalize_seps(s) == s,
    decreases s.len(),
{
    if s.len() == 0 {
    } else {
        lemma_normalize_seps_noop(s.skip(1));
        assert(seq![s[0]] + s.skip(1) =~= s);
    }
}

fn normalize_chars(v: &[char]) -> (r: Vec<char>)
    ensures
        r@ == normalize_seps(v@),
{
    let n = v.len();
    let mut r: Vec<char> = Vec::new();
    let mut i: usize = 0;
    proof {
        assert(v@.skip(0) =~= v@);
        assert(Seq::<char>::empty() + normalize_seps(v@) =~= normalize_seps(v@));
    }
    while i < n
        invariant
            i <= n,
            n == v@.len(),
            normalize_seps(v@) == r@ + normalize_seps(v@.skip(i as int)),
        decreases n - i,
    {
        let ghost pre = r@;
        let ghost rest = v@.skip(i as int);
        if i + 1 < n && v[i] == '\\' && v[i + 1] == '\\' {
            r.push('/');
            proof {
                assert(rest[0] == '\\' && rest[1] == '\\');
                assert(normalize_seps(rest) == seq!['/'] + normalize_seps(rest.skip(2)));
                assert(rest.skip(2) =~= v@.skip(i + 2));
                assert(pre + (seq!['/'] + normalize_seps(v@.skip(i + 2)))
                    =~= r@ + normalize_seps(v@.skip(i + 2)));
            }
            i = i + 2;
        } else if v[i] == '\\' {
            r.push('/');
            proof {
                assert(rest[0] == '\\');
                assert(!(rest.len() >= 2 && rest[0] == '\\' && rest[1] == '\\'));
                assert(normalize_seps(rest) == seq!['/'] + normalize_seps(rest.skip(1)));
                assert(rest.skip(1) =~= v@.skip(i + 1));
                assert(pre + (seq!['/'] + normalize_seps(v@.skip(i + 1)))
                    =~= r@ + normalize_seps(v@.skip(i + 1)));
            }
            i = i + 1;
        } else {
            r.push(v[i]);
            proof {
                assert(rest[0] == v@[i as int] && rest[0] != '\\');
                assert(normalize_seps(rest) == seq![rest[0]] + normalize_seps(rest.skip(1)));
                assert(rest.skip(1) =~= v@.skip(i + 1));
                assert(pre + (seq![rest[0]] + normalize_seps(v@.skip(i + 1)))
                    =~= r@ + normalize_seps(v@.skip(i + 1)));
            }
            i = i + 1;
        }
    }
    proof {
        assert(v@.skip(n as int) =~= Seq::<char>::empty());
        assert(r@ + Seq::<char>::empty() =~= r@);
    }
    r
}

impl MaybeWindowsPath {
    /// The path with separators normalized to `/`.
    pub fn into_path(self) -> (r: String)
        ensures
            r@ == normalize_seps(self@),
    {
        let v = str_to_chars(self.0.as_str());
        let normalized = normalize_chars(v.as_slice());
        chars_to_string(normalized.as_slice())
    }
}

/// Index just past the last occurrence of `c`, or 0 when `c` does not occur.
pub open spec fn after_last(s: Seq<char>, c: char) -> int
    decreases s.len(),
{
    if s.len() == 0 {
        0
    } else if s[s.len() - 1] == c {
        s.len() as int
    } else {
        after_last(s.take(s.len() - 1), c)
    }
}

pub proof fn lemma_after_last_bounds(s: Seq<char>, c: char)
    ensures
        0 <= after_last(s, c) <= s.len(),
    decreases s.len(),
{
    if s.len() != 0 && s[s.len() - 1] != c {
        lemma_after_last_bounds(s.take(s.len() - 1), c);
    }
}

fn find_after_last(v: &[char], c: char) -> (r: usize)
    ensures
        r == after_last(v@, c),
{
    let mut i: usize = v.len();
    proof {
        assert(v@.take(v@.len() as int) =~= v@);
    }
    while i > 0
        invariant
            i <= v@.len(),
            after_last(v@, c) == after_last(v@.take(i as int), c),
            forall|j: int| i <= j < v@.len() ==> v@[j] != c,
        decreases i,
    {
        if v[i - 1] == c {
            proof {
                let t = v@.take(i as int);
                assert(t[t.len() - 1] == c);
            }
            return i;
        }
        proof {
            let t = v@.take(i as int);
            assert(t[t.len() - 1] != c);
            assert(t.take(t.len() - 1) =~= v@.take(i - 1));
        }
        i = i - 1;
    }
    proof {
        assert(v@.take(0) =~= Seq::<char>::empty());
    }
    0
}

/// The file name of a `/`-separated path: what follows the last slash.
pub open spec fn file_name_of(s: Seq<char>) -> Seq<char> {
    s.skip(after_last(s, '/'))
}

/// The extension of a `/`-separated path, `None` when the file name holds no
/// dot after its first character.
pub open spec fn extension_of(s: Seq<char>) -> Option<Seq<char>> {
    let name = file_name_of(s);
    let cut = after_last(name, '.');
    if cut <= 1 {
        None
    } else {
        Some(name.skip(cut))
    }
}

/// Extensions whose entries carry headers that installation rewrites, so the
/// recorded content hash cannot match and only the size is checked.
pub open spec fn is_hash_whitelisted(path: Seq<char>) -> bool {
    extension_of(path) matches Some(ext) && lower_seq(ext) == "dds"@
}

/// Whether the path's extension is on the hash-check whitelist.
pub fn is_whitelisted_by_path(path: &str) -> (r: bool)
    ensures
        r == is_hash_whitelisted(path@),
{
    let v = str_to_chars(path);
    let slash = find_after_last(v.as_slice(), '/');
    proof {
        lemma_after_last_bounds(v@, '/');
    }
    let name: Vec<char> = vstd::slice::slice_to_vec(
        vstd::slice::slice_subrange(v.as_slice(), slash, v.len()),
    );
    proof {
        assert(name@ =~= file_name_of(path@));
    }
    let dot = find_after_last(name.as_slice(), '.');
    proof {
        lemma_after_last_bounds(name@, '.');
    }
    if dot <= 1 {
        return false;
    }
    let ext: Vec<char> = vstd::slice::slice_to_vec(
        vstd::slice::slice_subrange(name.as_slice(), dot, name.len()),
    );
    proof {
        assert(ext@ =~= file_name_of(path@).skip(after_last(file_name_of(path@), '.')));
    }
    let lowered = chars_to_lower(ext.as_slice());
    let dds = str_to_chars("dds");
    chars_eq(lowered.as_slice(), dds.as_slice())
}

/// Index of the first occurrence of `sep`, or the length when absent.
pub open spec fn first_at(s: Seq<char>, sep: char) -> int
    decreases s.len(),
{
    if s.len() == 0 {
        0
    } else if s[0] == sep {
        0
    } else {
        1 + first_at(s.skip(1), sep)
    }
}

pub proof fn lemma_first_at_props(s: Seq<char>, sep: char)
    ensures
        0 <= first_at(s, sep) <= s.len(),
        first_at(s, sep) < s.len() ==> s[first_at(s, sep)] == sep,
        forall|j: int| 0 <= j < first_at(s, sep) ==> s[j] != sep,
    decreases s.len(),
{
    if s.len() != 0 && s[0] != sep {
        lemma_first_at_props(s.skip(1), sep);
        assert(forall|j: int| 0 <= j < s.skip(1).len() ==> s.skip(1)[j] == s[j + 1]);
        assert forall|j: int| 0 <= j < first_at(s, sep) implies s[j] != sep by {
            if j > 0 {
                assert(s.skip(1)[j - 1] == s[j]);
            }
        }
    }
}

/// The segments of `s` between occurrences of `sep`; always at least one,
/// empty segments included.
pub open spec fn split_seq(s: Seq<char>, sep: char) -> Seq<Seq<char>>
    decreases s.len(),
{
    let k = first_at(s, sep);
    if 0 <= k < s.len() {
        seq![s.take(k)] + split_seq(s.skip(k + 1), sep)
    } else {
        seq![s]
    }
}

fn find_first(v: &[char], from: usize, sep: char) -> (r: usize)
    requires
        from <= v@.len(),
    ensures
        from <= r <= v@.len(),
        r - from == first_at(v@.skip(from as int), sep),
{
    let mut i = from;
    proof {
        assert(v@.skip(from as int).skip(0) =~= v@.skip(from as int));
    }
    while i < v.len()
        invariant
            from <= i <= v@.len(),
            first_at(v@.skip(from as int), sep) == (i - from) + first_at(
                v@.skip(i as int),
                sep,
            ),
        decreases v@.len() - i,
    {
        let ghost rest = v@.skip(i as int);
        proof {
            assert(rest[0] == v@[i as int]);
            assert(rest.skip(1) =~= v@.skip(i + 1));
        }
        if v[i] == sep {
            proof {
                assert(first_at(rest, sep) == 0);
            }
            return i;
        }
        i = i + 1;
    }
    proof {
        assert(v@.skip(v@.len() as int).len() == 0);
    }
    i
}

/// Split on a separator; empty segments are kept.
pub fn split_chars(v: &[char], sep: char) -> (r: Vec<Vec<char>>)
    ensures
        r@.map_values(|c: Vec<char>| c@) == split_seq(v@, sep),
{
    let mut r: Vec<Vec<char>> = Vec::new();
    let mut pos: usize = 0;
    proof {
        assert(v@.skip(0) =~= v@);
        assert(Seq::<Seq<char>>::empty() + split_seq(v@, sep) =~= split_seq(v@, sep));
    }
    loop
        invariant
            pos <= v@.len(),
            split_seq(v@, sep) == r@.map_values(|c: Vec<char>| c@) + split_seq(
                v@.skip(pos as int),
                sep,
            ),
        decreases v@.len() - pos + 1,
    {
        let ghost rest = v@.skip(pos as int);
        let k = find_first(v, pos, sep);
        let seg: Vec<char> = vstd::slice::slice_to_vec(
            vstd::slice::slice_subrange(v, pos, k),
        );
        let ghost rv0 = r@.map_values(|c: Vec<char>| c@);
        proof {
            lemma_first_at_props(rest, sep);
            assert(seg@ =~= rest.take(k - pos));
        }
        r.push(seg);
        proof {
            assert(r@.map_values(|c: Vec<char>| c@) =~= rv0.push(seg@));
        }
        if k == v.len() {
            proof {
                assert(first_at(rest, sep) == rest.len());
                assert(split_seq(rest, sep) == seq![rest]);
                assert(rest.take(k - pos) =~= rest);
                assert(rv0 + seq![rest] =~= rv0.push(seg@));
            }
            return r;
        }
        proof {
            assert(0 <= first_at(rest, sep) < rest.len());
        }
        proof {
            assert(first_at(rest, sep) == k - pos);
            assert(k - pos < rest.len());
            assert(split_seq(rest, sep) == seq![rest.take(k - pos)] + split_seq(
                rest.skip(k - pos + 1),
                sep,
            ));
            assert(rest.skip(k - pos + 1) =~= v@.skip(k + 1));
            assert(rv0 + (seq![seg@] + split_seq(v@.skip(k + 1), sep)) =~= rv0.push(seg@)
                + split_seq(v@.skip(k + 1), sep));
        }
        pos = k + 1;
    }
}

/// Resolved path components: empty segments and `.` vanish, `..` pops the
/// component before it, and past the root it vanishes.
pub open spec fn resolve_components(segs: Seq<Seq<char>>) -> Seq<Seq<char>>
    decreases segs.len(),
{
    if segs.len() == 0 {
        Seq::empty()
    } else {
        let prev = resolve_components(segs.drop_last());
        let last = segs.last();
        if last == Seq::<char>::empty() || last == "."@ {
            prev
        } else if last == ".."@ {
            if prev.len() == 0 {
                prev
            } else {
                prev.drop_last()
            }
        } else {
            prev.push(last)
        }
    }
}

/// The path under the emulated Windows drive that mirrors a host path: the
/// resolved components of the host path under the root `Z:`, spelled with
/// backslashes.
pub open spec fn pfx_path_of(s: Seq<char>) -> Seq<char> {
    "Z:"@ + seq!['\\'] + crate::remap::spec_join(
        resolve_components(split_seq(s, '/')),
        seq!['\\'],
    )
}

fn resolve_segments(segs: &Vec<Vec<char>>) -> (r: Vec<Vec<char>>)
    ensures
        r@.map_values(|c: Vec<char>| c@) == resolve_components(
            segs@.map_values(|c: Vec<char>| c@),
        ),
{
    let ghost all = segs@.map_values(|c: Vec<char>| c@);
    let mut stack: Vec<Vec<char>> = Vec::new();
    let mut i: usize = 0;
    proof {
        assert(all.take(0) =~= Seq::<Seq<char>>::empty());
        assert(stack@.map_values(|c: Vec<char>| c@) =~= resolve_components(all.take(0)));
        reveal_strlit(".");
        reveal_strlit("..");
    }
    while i < segs.len()
        invariant
            i <= segs@.len(),
            all == segs@.map_values(|c: Vec<char>| c@),
            stack@.map_values(|c: Vec<char>| c@) == resolve_components(all.take(i as int)),
        decreases segs@.len() - i,
    {
        let seg = &segs[i];
        let dot = str_to_chars(".");
        let dotdot = str_to_chars("..");
        let ghost sv0 = stack@.map_values(|c: Vec<char>| c@);
        proof {
            assert(all.take(i + 1).drop_last() =~= all.take(i as int));
            assert(all.take(i + 1).last() == all[i as int]);
            assert(all[i as int] == seg@);
        }
        if seg.len() == 0 || chars_eq(seg.as_slice(), dot.as_slice()) {
            proof {
                assert(seg@ == Seq::<char>::empty() || seg@ == "."@);
            }
        } else if chars_eq(seg.as_slice(), dotdot.as_slice()) {
            if stack.len() > 0 {
                stack.pop();
                proof {
                    assert(stack@.map_values(|c: Vec<char>| c@) =~= sv0.drop_last());
                }
            }
        } else {
            let copy: Vec<char> = vstd::slice::slice_to_vec(
                vstd::slice::slice_subrange(seg.as_slice(), 0, seg.len()),
            );
            proof {
                assert(copy@ =~= seg@);
            }
            stack.push(copy);
            proof {
                assert(stack@.map_values(|c: Vec<char>| c@) =~= sv0.push(seg@));
            }
        }
        i = i + 1;
    }
    proof {
        assert(all.take(all.len() as int) =~= all);
    }
    stack
}

fn spell_pfx(stack: &Vec<Vec<char>>) -> (r: Vec<char>)
    ensures
        r@ == "Z:"@ + seq!['\\'] + crate::remap::spec_join(
            stack@.map_values(|c: Vec<char>| c@),
            seq!['\\'],
        ),
{
    let mut out: Vec<char> = Vec::new();
    out.push('Z');
    out.push(':');
    out.push('\\');
    proof {
        reveal_strlit("Z:");
        assert(out@ =~= "Z:"@ + seq!['\\']);
    }
    let ghost comps = stack@.map_values(|c: Vec<char>| c@);
    let ghost head = out@;
    let mut g: usize = 0;
    while g < stack.len()
        invariant
            g <= stack@.len(),
            comps == stack@.map_values(|c: Vec<char>| c@),
            out@ == head + crate::remap::spec_join(comps.take(g as int), seq!['\\']),
        decreases stack@.len() - g,
    {
        if g > 0 {
            out.push('\\');
        }
        let seg = &stack[g];
        let ghost out1 = out@;
        let mut j: usize = 0;
        while j < seg.len()
            invariant
                j <= seg@.len(),
                out@ == out1 + seg@.take(j as int),
                g < stack@.len(),
                seg@ == comps[g as int],
            decreases seg@.len() - j,
        {
            out.push(seg[j]);
            proof {
                assert(out1 + seg@.take(j + 1) =~= (out1 + seg@.take(j as int)).push(
                    seg@[j as int],
                ));
            }
            j = j + 1;
        }
        proof {
            assert(seg@.take(seg@.len() as int) =~= seg@);
            assert(comps.take(g + 1).drop_last() =~= comps.take(g as int));
            assert(comps.take(g + 1).last() == comps[g as int]);
            if g == 0 {
                assert(out@ =~= head + crate::remap::spec_join(comps.take(1), seq!['\\']))
                    by {
                    assert(comps.take(1).len() == 1);
                    assert(comps.take(1)[0] == comps[0]);
                }
            } else {
                assert(out@ =~= head + (crate::remap::spec_join(comps.take(g as int), seq![
                    '\\',
                ]) + seq!['\\'] + comps[g as int]));
            }
        }
        g = g + 1;
    }
    proof {
        assert(comps.take(comps.len() as int) =~= comps);
    }
    out
}

/// Translate a host path to its spelling inside the emulated Windows
/// prefix, where the whole host tree hangs under drive `Z:`.
pub fn host_to_pfx_path(path: &str) -> (r: String)
    ensures
        r@ == pfx_path_of(path@),
{
    let chars = str_to_chars(path);
    let segs = split_chars(chars.as_slice(), '/');
    let stack = resolve_segments(&segs);
    let out = spell_pfx(&stack);
    chars_to_string(out.as_slice())
}

} // verus!
