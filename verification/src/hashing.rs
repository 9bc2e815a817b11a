//! Content hashing and the textual encodings of digests.
//!
//! Archives and directives are identified by content hashes: a fast XXH64
//! digest carried around as standard base64 of its little-endian bytes, and
//! SHA-512 rendered as lowercase hex. The digest and encoding computations
//! come from outside crates; everything that combines them is verified.

use vstd::prelude::*;

verus! {

/// Digest that the one-shot XXH64 function computes for the given bytes and seed.
pub uninterp spec fn xxh64_of(data: Seq<u8>, seed: u64) -> u64;

/// Relies on xxhash_rust::xxh64::xxh64: the digest is a function of the input
/// bytes and the seed alone.
pub assume_specification [ xxhash_rust::xxh64::xxh64 ](input: &[u8], seed: u64) -> (r: u64)
    ensures
        r == xxh64_of(input@, seed),
;

/// SHA-512 digest of the given bytes.
pub uninterp spec fn sha512_of(data: Seq<u8>) -> Seq<u8>;

/// Relies on sha2::Sha512 through Digest::digest: a 64-byte digest that is a
/// function of the input bytes alone.
#[verifier::external_body]
fn sha512_digest(data: &[u8]) -> (r: Vec<u8>)
    ensures
        r@ == sha512_of(data@),
        r@.len() == 64,
{
    <sha2::Sha512 as sha2::Digest>::digest(data).to_vec()
}

/// Lowercase hexadecimal rendering of the given bytes.
pub uninterp spec fn hex_of(data: Seq<u8>) -> Seq<char>;

/// Relies on hex::encode: lowercase hex, two digits for each input byte,
/// a function of the bytes alone.
#[verifier::external_body]
fn hex_encode(data: &[u8]) -> (r: String)
    ensures
        r@ == hex_of(data@),
        r@.len() == 2 * data@.len(),
{
    hex::encode(data)
}

/// Standard-alphabet, padded base64 rendering of the given bytes.
pub uninterp spec fn base64_of(data: Seq<u8>) -> Seq<char>;

/// Relies on base64's BASE64_STANDARD engine: standard alphabet with padding,
/// four output characters for every three input bytes, a function of the
/// bytes alone.
#[verifier::external_body]
fn base64_encode(data: &[u8]) -> (r: String)
    ensures
        r@ == base64_of(data@),
        r@.len() == ((data@.len() + 2) / 3) * 4,
{
    base64::Engine::encode(&base64::prelude::BASE64_STANDARD, data)
}

/// Declares base64's error type, so that the decoder can return it.
#[verifier::external_type_specification]
#[verifier::external_body]
pub struct ExDecodeError(base64::DecodeError);

/// Relies on base64's BASE64_STANDARD engine: with canonical padding required,
/// decoding inverts encoding exactly.
#[verifier::external_body]
fn base64_decode(input: &str) -> (r: Result<Vec<u8>, base64::DecodeError>)
    ensures
        (r matches Ok(v) ==> input@ == base64_of(v@)),
        (r matches Ok(v) ==> forall|s: Seq<u8>| input@ == base64_of(s) ==> s == v@),
        (r matches Err(e) ==> forall|s: Seq<u8>| input@ != base64_of(s)),
{
    base64::Engine::decode(&base64::prelude::BASE64_STANDARD, input)
}

/// The eight bytes of `x`, least significant first.
pub open spec fn u64_le_bytes(x: u64) -> Seq<u8> {
    seq![
        (x & 0xff) as u8,
        ((x >> 8) & 0xff) as u8,
        ((x >> 16) & 0xff) as u8,
        ((x >> 24) & 0xff) as u8,
        ((x >> 32) & 0xff) as u8,
        ((x >> 40) & 0xff) as u8,
        ((x >> 48) & 0xff) as u8,
        ((x >> 56) & 0xff) as u8,
    ]
}

/// The integer read from eight little-endian bytes.
pub open spec fn u64_from_le(s: Seq<u8>) -> u64
    recommends
        s.len() == 8,
{
    s[0] as u64
        | (s[1] as u64) << 8
        | (s[2] as u64) << 16
        | (s[3] as u64) << 24
        | (s[4] as u64) << 32
        | (s[5] as u64) << 40
        | (s[6] as u64) << 48
        | (s[7] as u64) << 56
}

/// Reading back the little-endian bytes of an integer gives the integer.
pub proof fn lemma_u64_le_round_trip(x: u64)
    ensures
        u64_from_le(u64_le_bytes(x)) == x,
{
    assert(((x & 0xff) as u8) as u64
        | ((((x >> 8) & 0xff) as u8) as u64) << 8
        | ((((x >> 16) & 0xff) as u8) as u64) << 16
        | ((((x >> 24) & 0xff) as u8) as u64) << 24
        | ((((x >> 32) & 0xff) as u8) as u64) << 32
        | ((((x >> 40) & 0xff) as u8) as u64) << 40
        | ((((x >> 48) & 0xff) as u8) as u64) << 48
        | ((((x >> 56) & 0xff) as u8) as u64) << 56 == x) by (bit_vector);
}

/// Rendering the integer read from eight bytes gives back the same bytes.
pub proof fn lemma_u64_le_inverse(s: Seq<u8>)
    requires
        s.len() == 8,
    ensures
        u64_le_bytes(u64_from_le(s)) == s,
{
    let b0 = s[0];
    let b1 = s[1];
    let b2 = s[2];
    let b3 = s[3];
    let b4 = s[4];
    let b5 = s[5];
    let b6 = s[6];
    let b7 = s[7];
    let x = u64_from_le(s);
    assert(x == b0 as u64 | (b1 as u64) << 8 | (b2 as u64) << 16 | (b3 as u64) << 24
        | (b4 as u64) << 32 | (b5 as u64) << 40 | (b6 as u64) << 48 | (b7 as u64) << 56);
    assert({
        let y = b0 as u64 | (b1 as u64) << 8 | (b2 as u64) << 16 | (b3 as u64) << 24
            | (b4 as u64) << 32 | (b5 as u64) << 40 | (b6 as u64) << 48 | (b7 as u64) << 56;
        (y & 0xff) as u8 == b0
            && ((y >> 8) & 0xff) as u8 == b1
            && ((y >> 16) & 0xff) as u8 == b2
            && ((y >> 24) & 0xff) as u8 == b3
            && ((y >> 32) & 0xff) as u8 == b4
            && ((y >> 40) & 0xff) as u8 == b5
            && ((y >> 48) & 0xff) as u8 == b6
            && ((y >> 56) & 0xff) as u8 == b7
    }) by (bit_vector);
    assert(u64_le_bytes(x) =~= s);
}

/// The little-endian byte rendering is injective.
pub proof fn lemma_u64_le_bytes_injective(x: u64, y: u64)
    requires
        u64_le_bytes(x) == u64_le_bytes(y),
    ensures
        x == y,
{
    lemma_u64_le_round_trip(x);
    lemma_u64_le_round_trip(y);
    assert(u64_from_le(u64_le_bytes(x)) == u64_from_le(u64_le_bytes(y)));
}

pub fn u64_to_le_bytes(x: u64) -> (r: Vec<u8>)
    ensures
        r@ == u64_le_bytes(x),
{
    let mut r: Vec<u8> = Vec::new();
    r.push((x & 0xff) as u8);
    r.push(((x >> 8) & 0xff) as u8);
    r.push(((x >> 16) & 0xff) as u8);
    r.push(((x >> 24) & 0xff) as u8);
    r.push(((x >> 32) & 0xff) as u8);
    r.push(((x >> 40) & 0xff) as u8);
    r.push(((x >> 48) & 0xff) as u8);
    r.push(((x >> 56) & 0xff) as u8);
    proof {
        assert(r@ =~= u64_le_bytes(x));
    }
    r
}

pub fn u64_from_le_bytes(b: &[u8]) -> (r: u64)
    requires
        b@.len() == 8,
    ensures
        r == u64_from_le(b@),
{
    let r = b[0] as u64
        | (b[1] as u64) << 8
        | (b[2] as u64) << 16
        | (b[3] as u64) << 24
        | (b[4] as u64) << 32
        | (b[5] as u64) << 40
        | (b[6] as u64) << 48
        | (b[7] as u64) << 56;
    r
}

/// The textual form in which this installer carries an XXH64 content hash:
/// standard base64 of the digest's little-endian bytes.
pub open spec fn wabbajack_hash_text(data: Seq<u8>) -> Seq<char> {
    base64_of(u64_le_bytes(xxh64_of(data, 0)))
}

/// XXH64 digest (seed 0) of the given bytes.
pub fn xxh64_digest(data: &[u8]) -> (r: u64)
    ensures
        r == xxh64_of(data@, 0),
{
    xxhash_rust::xxh64::xxh64(data, 0)
}

/// Base64 text of the little-endian bytes of a digest.
pub fn to_base_64_from_u64(input: u64) -> (r: String)
    ensures
        r@ == base64_of(u64_le_bytes(input)),
        r@.len() == 12,
{
    let bytes = u64_to_le_bytes(input);
    base64_encode(bytes.as_slice())
}

/// Digest parsed back from its base64 text; `None` when the text is not the
/// encoding of any digest.
pub fn to_u64_from_base_64(input: &str) -> (r: Option<u64>)
    ensures
        forall|h: u64| input@ == base64_of(u64_le_bytes(h)) ==> r == Some(h),
        r matches Some(h) ==> input@ == base64_of(u64_le_bytes(h)),
{
    match base64_decode(input) {
        Err(_) => None,
        Ok(bytes) => {
            if bytes.len() != 8 {
                proof {
                    assert forall|h: u64| input@ == base64_of(u64_le_bytes(h)) implies false by {
                        assert(bytes@ == u64_le_bytes(h));
                    }
                }
                None
            } else {
                let h = u64_from_le_bytes(bytes.as_slice());
                proof {
                    assert forall|g: u64| input@ == base64_of(u64_le_bytes(g)) implies h == g by {
                        assert(bytes@ == u64_le_bytes(g));
                        lemma_u64_le_round_trip(g);
                    }
                    lemma_u64_le_inverse(bytes@);
                    assert(input@ == base64_of(u64_le_bytes(h)));
                }
                Some(h)
            }
        }
    }
}

/// Whole-file hash text as the installer records it: base64 of XXH64.
pub fn calculate_hash_text(data: &[u8]) -> (r: String)
    ensures
        r@ == wabbajack_hash_text(data@),
        r@.len() == 12,
{
    let digest = xxh64_digest(data);
    to_base_64_from_u64(digest)
}

/// SHA-512 digest rendered as lowercase hex.
pub fn sha512_hex_string(input: &[u8]) -> (r: String)
    ensures
        r@ == hex_of(sha512_of(input@)),
        r@.len() == 128,
{
    let digest = sha512_digest(input);
    hex_encode(digest.as_slice())
}

/// A stable short identifier for a serialized record: base64 text of its
/// XXH64 digest, as used to name directives in failure reports.
pub fn stable_hash_text(serialized: &[u8]) -> (r: String)
    ensures
        r@ == wabbajack_hash_text(serialized@),
        r@.len() == 12,
{
    calculate_hash_text(serialized)
}

} // verus!
