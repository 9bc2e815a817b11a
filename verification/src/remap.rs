//! Remapped inline files: placeholder substitution.
//!
//! Inline configuration files carry magic placeholders for the game folder,
//! the install folder and the downloads folder; installation replaces each
//! placeholder with the corresponding path, spelled with escaped Windows
//! separators and without a leading `./`-style prefix.

use vstd::prelude::*;
use crate::text::{str_to_chars, chars_to_string, chars_eq};

verus! {

/// `s` with every occurrence of `from` replaced by `to`, scanning left to
/// right without reexamining replacements.
pub open spec fn replace_spec(s: Seq<char>, from: Seq<char>, to: Seq<char>) -> Seq<char>
    recommends
        from.len() >= 1,
    decreases s.len(),
    when from.len() >= 1
{
    if s.len() < from.len() {
        s
    } else if s.take(from.len() as int) == from {
        to + replace_spec(s.skip(from.len() as int), from, to)
    } else {
        s.take(1) + replace_spec(s.skip(1), from, to)
    }
}

/// Replace every occurrence of `from` in `v` by `to`.
pub fn replace_all(v: &[char], from: &[char], to: &[char]) -> (r: Vec<char>)
    requires
        from@.len() >= 1,
    ensures
        r@ == replace_spec(v@, from@, to@),
{
    let mut out: Vec<char> = Vec::new();
    let mut i: usize = 0;
    proof {
        assert(v@.skip(0) =~= v@);
        assert(Seq::<char>::empty() + replace_spec(v@, from@, to@) =~= replace_spec(
            v@,
            from@,
            to@,
        ));
    }
    while i < v.len()
        invariant
            i <= v@.len(),
            from@.len() >= 1,
            replace_spec(v@, from@, to@) == out@ + replace_spec(v@.skip(i as int), from@, to@),
        decreases v@.len() - i,
    {
        let ghost rest = v@.skip(i as int);
        let n = v.len();
        let flen = from.len();
        let matches_here = if n - i >= flen {
            let window = vstd::slice::slice_subrange(v, i, i + flen);
            chars_eq(window, from)
        } else {
            false
        };
        proof {
            if n - i >= flen {
                assert(rest.take(flen as int) =~= v@.subrange(i as int, i + flen));
            }
        }
        if matches_here {
            let ghost out0 = out@;
            let mut j: usize = 0;
            while j < to.len()
                invariant
                    j <= to@.len(),
                    out@ == out0 + to@.take(j as int),
                decreases to@.len() - j,
            {
                out.push(to[j]);
                proof {
                    assert(out0 + to@.take(j + 1) =~= (out0 + to@.take(j as int)).push(
                        to@[j as int],
                    ));
                }
                j = j + 1;
            }
            proof {
                assert(to@.take(to@.len() as int) =~= to@);
                assert(rest.take(from@.len() as int) == from@);
                assert(replace_spec(rest, from@, to@) == to@ + replace_spec(
                    rest.skip(from@.len() as int),
                    from@,
                    to@,
                ));
                assert(rest.skip(from@.len() as int) =~= v@.skip(i + flen));
                assert(out0 + (to@ + replace_spec(v@.skip(i + flen), from@, to@)) =~= (out0
                    + to@) + replace_spec(v@.skip(i + flen), from@, to@));
            }
            i = i + flen;
        } else {
            let ghost out0 = out@;
            out.push(v[i]);
            proof {
                let tail = v@.skip(i + 1);
                assert(rest.skip(1) =~= tail);
                assert(rest[0] == v@[i as int]);
                if rest.len() < from@.len() {
                    assert(replace_spec(rest, from@, to@) == rest);
                    assert(replace_spec(tail, from@, to@) == tail);
                    assert(rest =~= seq![v@[i as int]] + tail);
                } else {
                    assert(!(rest.take(from@.len() as int) == from@));
                    assert(replace_spec(rest, from@, to@) == rest.take(1) + replace_spec(
                        tail,
                        from@,
                        to@,
                    ));
                    assert(rest.take(1) =~= seq![v@[i as int]]);
                }
                assert(out0 + (seq![v@[i as int]] + replace_spec(tail, from@, to@)) =~= out@
                    + replace_spec(tail, from@, to@));
            }
            i = i + 1;
        }
    }
    proof {
        assert(v@.skip(v@.len() as int) =~= Seq::<char>::empty());
        assert(replace_spec(Seq::<char>::empty(), from@, to@) == Seq::<char>::empty());
        assert(out@ + Seq::<char>::empty() =~= out@);
    }
    out
}

/// The placeholder markers a manifest writes into remapped inline files.
pub open spec fn spec_remap(
    data: Seq<char>,
    game: Seq<char>,
    install: Seq<char>,
    downloads: Seq<char>,
) -> Seq<char> {
    let s1 = replace_spec(data, "{--||GAME_PATH_MAGIC_DOUBLE_BACK||--}"@, game);
    let s2 = replace_spec(s1, "{--||GAME_PATH_MAGIC_FORWARD||--}"@, game);
    let s3 = replace_spec(s2, "{--||MO2_PATH_MAGIC_BACK||--}"@, install);
    let s4 = replace_spec(s3, "{--||MO2_PATH_MAGIC_DOUBLE_BACK||--}"@, install);
    let s5 = replace_spec(s4, "{--||MO2_PATH_MAGIC_FORWARD||--}"@, install);
    let s6 = replace_spec(s5, "{--||DOWNLOAD_PATH_MAGIC_BACK||--}"@, downloads);
    let s7 = replace_spec(s6, "{--||DOWNLOAD_PATH_MAGIC_DOUBLE_BACK||--}"@, downloads);
    replace_spec(s7, "{--||DOWNLOAD_PATH_MAGIC_FORWARD||--}"@, downloads)
}

/// The folders substituted into remapped inline files, already spelled as
/// the target expects them: joined with escaped separators, with no
/// `./`-style prefix.
pub struct RemappingContext {
    pub game_folder: String,
    pub output_directory: String,
    pub downloads_directory: String,
}

impl RemappingContext {
    /// Substitute every path placeholder in `data`.
    pub fn remap_file_contents(&self, data: &str) -> (r: String)
        ensures
            r@ == spec_remap(
                data@,
                self.game_folder@,
                self.output_directory@,
                self.downloads_directory@,
            ),
    {
        let game = str_to_chars(self.game_folder.as_str());
        let install = str_to_chars(self.output_directory.as_str());
        let downloads = str_to_chars(self.downloads_directory.as_str());
        let chars = str_to_chars(data);
        proof {
            reveal_strlit("{--||GAME_PATH_MAGIC_DOUBLE_BACK||--}");
            reveal_strlit("{--||GAME_PATH_MAGIC_FORWARD||--}");
            reveal_strlit("{--||MO2_PATH_MAGIC_BACK||--}");
            reveal_strlit("{--||MO2_PATH_MAGIC_DOUBLE_BACK||--}");
            reveal_strlit("{--||MO2_PATH_MAGIC_FORWARD||--}");
            reveal_strlit("{--||DOWNLOAD_PATH_MAGIC_BACK||--}");
            reveal_strlit("{--||DOWNLOAD_PATH_MAGIC_DOUBLE_BACK||--}");
            reveal_strlit("{--||DOWNLOAD_PATH_MAGIC_FORWARD||--}");
        }
        let m1 = str_to_chars("{--||GAME_PATH_MAGIC_DOUBLE_BACK||--}");
        let s1 = replace_all(chars.as_slice(), m1.as_slice(), game.as_slice());
        let m2 = str_to_chars("{--||GAME_PATH_MAGIC_FORWARD||--}");
        let s2 = replace_all(s1.as_slice(), m2.as_slice(), game.as_slice());
        let m3 = str_to_chars("{--||MO2_PATH_MAGIC_BACK||--}");
        let s3 = replace_all(s2.as_slice(), m3.as_slice(), install.as_slice());
        let m4 = str_to_chars("{--||MO2_PATH_MAGIC_DOUBLE_BACK||--}");
        let s4 = replace_all(s3.as_slice(), m4.as_slice(), install.as_slice());
        let m5 = str_to_chars("{--||MO2_PATH_MAGIC_FORWARD||--}");
        let s5 = replace_all(s4.as_slice(), m5.as_slice(), install.as_slice());
        let m6 = str_to_chars("{--||DOWNLOAD_PATH_MAGIC_BACK||--}");
        let s6 = replace_all(s5.as_slice(), m6.as_slice(), downloads.as_slice());
        let m7 = str_to_chars("{--||DOWNLOAD_PATH_MAGIC_DOUBLE_BACK||--}");
        let s7 = replace_all(s6.as_slice(), m7.as_slice(), downloads.as_slice());
        let m8 = str_to_chars("{--||DOWNLOAD_PATH_MAGIC_FORWARD||--}");
        let s8 = replace_all(s7.as_slice(), m8.as_slice(), downloads.as_slice());
        chars_to_string(s8.as_slice())
    }
}

/// Components joined with a delimiter between them.
pub open spec fn spec_join(segments: Seq<Seq<char>>, delimiter: Seq<char>) -> Seq<char>
    decreases segments.len(),
{
    if segments.len() == 0 {
        Seq::empty()
    } else if segments.len() == 1 {
        segments[0]
    } else {
        spec_join(segments.drop_last(), delimiter) + delimiter + segments.last()
    }
}

/// Join path components with a delimiter, as the placeholder substitution
/// spells folders.
pub fn join_with_delimiter(segments: &Vec<String>, delimiter: &str) -> (r: String)
    ensures
        r@ == spec_join(crate::hash_path::views_of(segments@), delimiter@),
{
    let mut out: Vec<char> = Vec::new();
    let delim = str_to_chars(delimiter);
    let mut i: usize = 0;
    let ghost views = crate::hash_path::views_of(segments@);
    while i < segments.len()
        invariant
            i <= segments@.len(),
            views == crate::hash_path::views_of(segments@),
            delim@ == delimiter@,
            out@ == spec_join(views.take(i as int), delimiter@),
        decreases segments@.len() - i,
    {
        let ghost out0 = out@;
        if i > 0 {
            let mut j: usize = 0;
            while j < delim.len()
                invariant
                    j <= delim@.len(),
                    out@ == out0 + delim@.take(j as int),
                decreases delim@.len() - j,
            {
                out.push(delim[j]);
                proof {
                    assert(out0 + delim@.take(j + 1) =~= (out0 + delim@.take(j as int)).push(
                        delim@[j as int],
                    ));
                }
                j = j + 1;
            }
            proof {
                assert(delim@.take(delim@.len() as int) =~= delim@);
            }
        }
        let seg = str_to_chars(segments[i].as_str());
        let ghost out1 = out@;
        let mut j: usize = 0;
        while j < seg.len()
            invariant
                j <= seg@.len(),
                out@ == out1 + seg@.take(j as int),
                seg@ == segments@[i as int]@,
            decreases seg@.len() - j,
        {
            out.push(seg[j]);
            proof {
                assert(out1 + seg@.take(j + 1) =~= (out1 + seg@.take(j as int)).push(
                    seg@[j as int],
                ));
            }
            j = j + 1;
        }
        proof {
            assert(seg@.take(seg@.len() as int) =~= seg@);
            assert(views.take(i + 1).drop_last() =~= views.take(i as int));
            assert(views.take(i + 1).last() == views[i as int]);
            if i == 0 {
                assert(out@ =~= spec_join(views.take(1), delimiter@)) by {
                    assert(views.take(1).len() == 1);
                    assert(views.take(1)[0] == views[0]);
                    assert(out@ =~= views[0]);
                }
            } else {
                assert(out@ =~= spec_join(views.take(i as int), delimiter@) + delimiter@
                    + views[i as int]);
            }
        }
        i = i + 1;
    }
    proof {
        assert(views.take(views.len() as int) =~= views);
    }
    chars_to_string(out.as_slice())
}

} // verus!
