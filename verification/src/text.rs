//! Character-level text helpers shared by the path and remapping logic.
//!
//! Text is manipulated as `Vec<char>` so that every transformation is a
//! verified loop; `String` appears only at the boundary.

use vstd::prelude::*;

verus! {

/// Relies on String::push: appends exactly the one character.
#[verifier::external_body]
fn string_push(s: &mut String, c: char)
    ensures
        final(s)@ == old(s)@.push(c),
{
    s.push(c);
}

/// The characters of a string, as a vector.
pub fn str_to_chars(s: &str) -> (r: Vec<char>)
    ensures
        r@ == s@,
{
    let n = s.unicode_len();
    let mut r: Vec<char> = Vec::new();
    let mut i: usize = 0;
    while i < n
        invariant
            i <= n,
            n == s@.len(),
            r@ == s@.take(i as int),
        decreases n - i,
    {
        r.push(s.get_char(i));
        proof {
            assert(r@ =~= s@.take(i + 1));
        }
        i = i + 1;
    }
    proof {
        assert(s@.take(n as int) =~= s@);
    }
    r
}

/// The string spelled by a sequence of characters.
pub fn chars_to_string(v: &[char]) -> (r: String)
    ensures
        r@ == v@,
{
    let mut r = String::new();
    let mut i: usize = 0;
    while i < v.len()
        invariant
            i <= v@.len(),
            r@ == v@.take(i as int),
        decreases v@.len() - i,
    {
        string_push(&mut r, v[i]);
        proof {
            assert(r@ =~= v@.take(i + 1));
        }
        i = i + 1;
    }
    proof {
        assert(v@.take(v@.len() as int) =~= v@);
    }
    r
}

/// ASCII-folded form of one character: uppercase ASCII letters become
/// lowercase, everything else is unchanged.
pub open spec fn lower_char(c: char) -> char {
    if 'A' <= c && c <= 'Z' {
        ((c as u32) + 32) as char
    } else {
        c
    }
}

/// ASCII-folded form of a character sequence.
pub open spec fn lower_seq(s: Seq<char>) -> Seq<char> {
    s.map_values(|c: char| lower_char(c))
}

pub fn char_to_lower(c: char) -> (r: char)
    ensures
        r == lower_char(c),
{
    if 'A' <= c && c <= 'Z' {
        (((c as u8) + 32) as char)
    } else {
        c
    }
}

/// ASCII-folded copy of a character vector.
pub fn chars_to_lower(v: &[char]) -> (r: Vec<char>)
    ensures
        r@ == lower_seq(v@),
{
    let mut r: Vec<char> = Vec::new();
    let mut i: usize = 0;
    while i < v.len()
        invariant
            i <= v@.len(),
            r@ == lower_seq(v@.take(i as int)),
        decreases v@.len() - i,
    {
        r.push(char_to_lower(v[i]));
        proof {
            assert(r@ =~= lower_seq(v@.take(i + 1)));
        }
        i = i + 1;
    }
    proof {
        assert(v@.take(v@.len() as int) =~= v@);
    }
    r
}

/// Folding is idempotent: folding an already folded sequence changes nothing.
pub proof fn lemma_lower_seq_idempotent(s: Seq<char>)
    ensures
        lower_seq(lower_seq(s)) == lower_seq(s),
{
    assert(lower_seq(lower_seq(s)) =~= lower_seq(s)) by {
        assert forall|i: int| 0 <= i < s.len() implies lower_char(lower_char(s[i]))
            == lower_char(s[i]) by {
        }
    }
}

/// Character-wise equality of two vectors.
pub fn chars_eq(a: &[char], b: &[char]) -> (r: bool)
    ensures
        r == (a@ == b@),
{
    if a.len() != b.len() {
        proof {
            assert(a@.len() != b@.len());
        }
        return false;
    }
    let mut i: usize = 0;
    while i < a.len()
        invariant
            i <= a@.len(),
            a@.len() == b@.len(),
            forall|j: int| 0 <= j < i ==> a@[j] == b@[j],
        decreases a@.len() - i,
    {
        if a[i] != b[i] {
            return false;
        }
        i = i + 1;
    }
    proof {
        assert(a@ =~= b@);
    }
    true
}

/// Whether two character sequences are equal after ASCII folding.
pub fn chars_eq_fold(a: &[char], b: &[char]) -> (r: bool)
    ensures
        r == (lower_seq(a@) == lower_seq(b@)),
{
    let la = chars_to_lower(a);
    let lb = chars_to_lower(b);
    chars_eq(la.as_slice(), lb.as_slice())
}

/// The decimal digit character for a value below ten.
pub open spec fn digit_char(d: nat) -> char {
    (('0' as u32) + d as u32) as char
}

/// The decimal spelling of a number, most significant digit first.
pub open spec fn decimal_of(n: nat) -> Seq<char>
    decreases n,
{
    if n < 10 {
        seq![digit_char(n)]
    } else {
        decimal_of(n / 10).push(digit_char(n % 10))
    }
}

/// Spell a number in decimal.
pub fn u64_to_decimal(n: u64) -> (r: String)
    ensures
        r@ == decimal_of(n as nat),
{
    let mut digits: Vec<char> = Vec::new();
    let mut rest: u64 = n;
    proof {
        assert(digits@.reverse() =~= Seq::<char>::empty());
        assert(decimal_of(n as nat) + Seq::<char>::empty() =~= decimal_of(n as nat));
    }
    while rest >= 10
        invariant
            decimal_of(n as nat) == decimal_of(rest as nat) + digits@.reverse(),
        decreases rest,
    {
        let ghost rest0 = rest as nat;
        let ghost digits0 = digits@;
        let d = rest % 10;
        digits.push((('0' as u8) + (d as u8)) as char);
        rest = rest / 10;
        proof {
            assert(decimal_of(rest0) == decimal_of(rest0 / 10).push(digit_char(rest0 % 10)));
            assert(rest as nat == rest0 / 10);
            assert(d as nat == rest0 % 10);
            assert(digits@.last() == digit_char(d as nat));
            assert(digits@.reverse() =~= seq![digit_char(d as nat)] + digits0.reverse());
            assert((decimal_of(rest as nat).push(digit_char(d as nat))) + digits0.reverse()
                =~= decimal_of(rest as nat) + (seq![digit_char(d as nat)] + digits0.reverse()));
        }
    }
    let ghost digitsv = digits@;
    let mut out: Vec<char> = Vec::new();
    out.push((('0' as u8) + (rest as u8)) as char);
    let mut i: usize = digits.len();
    proof {
        assert(digitsv.skip(i as int).reverse() =~= Seq::<char>::empty());
        assert(out@[0] == digit_char(rest as nat));
        assert(out@ =~= seq![digit_char(rest as nat)]);
        assert(decimal_of(rest as nat) == seq![digit_char(rest as nat)]);
        assert(out@ =~= decimal_of(rest as nat) + digitsv.skip(i as int).reverse());
    }
    while i > 0
        invariant
            i <= digitsv.len(),
            digits@ == digitsv,
            out@ == decimal_of(rest as nat) + digitsv.skip(i as int).reverse(),
        decreases i,
    {
        let ghost out0 = out@;
        out.push(digits[i - 1]);
        proof {
            assert(digitsv.skip(i - 1).reverse() =~= digitsv.skip(i as int).reverse().push(
                digitsv[i - 1],
            ));
            assert(decimal_of(rest as nat) + digitsv.skip(i - 1).reverse() =~= (decimal_of(
                rest as nat,
            ) + digitsv.skip(i as int).reverse()).push(digitsv[i - 1]));
        }
        i = i - 1;
    }
    proof {
        assert(digitsv.skip(0) =~= digitsv);
        assert(decimal_of(n as nat) == decimal_of(rest as nat) + digitsv.reverse());
    }
    chars_to_string(out.as_slice())
}

/// The masked form of a sensitive value: short values are all stars, longer
/// ones keep their first and last character.
pub open spec fn spec_obfuscate(s: Seq<char>) -> Seq<char> {
    if s.len() < 3 {
        s.map_values(|c: char| '*')
    } else {
        seq![s[0]] + s.subrange(1, s.len() as int - 1).map_values(|c: char| '*') + seq![
            s.last(),
        ]
    }
}

/// Mask a sensitive value, as logs print credentials.
pub fn obfuscate_value(value: &str) -> (r: String)
    ensures
        r@ == spec_obfuscate(value@),
{
    let v = str_to_chars(value);
    let n = v.len();
    let mut out: Vec<char> = Vec::new();
    if n < 3 {
        let mut i: usize = 0;
        while i < n
            invariant
                i <= n,
                n == v@.len(),
                v@.len() < 3,
                out@ == v@.take(i as int).map_values(|c: char| '*'),
            decreases n - i,
        {
            out.push('*');
            proof {
                assert(out@ =~= v@.take(i + 1).map_values(|c: char| '*'));
            }
            i = i + 1;
        }
        proof {
            assert(v@.take(n as int) =~= v@);
        }
    } else {
        out.push(v[0]);
        let mut i: usize = 1;
        while i < n - 1
            invariant
                1 <= i <= n - 1,
                n == v@.len(),
                v@.len() >= 3,
                out@ == seq![v@[0]] + v@.subrange(1, i as int).map_values(|c: char| '*'),
            decreases n - i,
        {
            out.push('*');
            proof {
                assert(out@ =~= seq![v@[0]] + v@.subrange(1, i + 1).map_values(|c: char| '*'));
            }
            i = i + 1;
        }
        out.push(v[n - 1]);
        proof {
            assert(out@ =~= spec_obfuscate(v@));
        }
    }
    chars_to_string(out.as_slice())
}

} // verus!
