use hoolamike::hashing::{calculate_hash_text, sha512_hex_string, stable_hash_text,
    to_base_64_from_u64, to_u64_from_base_64, u64_from_le_bytes, u64_to_le_bytes, xxh64_digest};

#[test]
fn xxh64_digest_matches_reference() {
    let data = b"hello world";
    assert_eq!(xxh64_digest(data), xxhash_rust::xxh64::xxh64(data, 0));
}

#[test]
fn xxh64_digest_empty_known_value() {
    assert_eq!(xxh64_digest(b""), 0xef46db3751d8e999);
}

#[test]
fn le_bytes_round_trip() {
    let values = [0u64, 1, 0xff, 0x1234_5678_9abc_def0, u64::MAX];
    for v in values {
        let bytes = u64_to_le_bytes(v);
        assert_eq!(bytes.len(), 8);
        assert_eq!(u64_from_le_bytes(bytes.as_slice()), v);
    }
}

#[test]
fn le_bytes_exact() {
    let bytes = u64_to_le_bytes(0x0102_0304_0506_0708);
    assert_eq!(bytes, vec![0x08, 0x07, 0x06, 0x05, 0x04, 0x03, 0x02, 0x01]);
}

#[test]
fn base64_of_u64_matches_reference() {
    let v = 0xdeadbeef_01020304u64;
    let text = to_base_64_from_u64(v);
    let expected = base64::Engine::encode(
        &base64::prelude::BASE64_STANDARD,
        v.to_le_bytes(),
    );
    assert_eq!(text, expected);
}

#[test]
fn base64_u64_round_trip() {
    for v in [0u64, 42, u64::MAX, 0x0123_4567_89ab_cdef] {
        let text = to_base_64_from_u64(v);
        assert_eq!(to_u64_from_base_64(text.as_str()), Some(v));
    }
}

#[test]
fn base64_u64_rejects_bad_text() {
    assert_eq!(to_u64_from_base_64("not base64 at all!!"), None);
    // Valid base64 of the wrong length is also rejected.
    assert_eq!(to_u64_from_base_64("YWJj"), None);
}

#[test]
fn sha512_hex_empty_known_value() {
    let expected = "cf83e1357eefb8bdf1542850d66d8007d620e4050b5715dc83f4a921d36ce9ce\
47d0d13c5d85f2b0ff8318d2877eec2f63b931bd47417a81a538327af927da3e";
    assert_eq!(sha512_hex_string(b""), expected);
}

#[test]
fn sha512_hex_matches_reference() {
    let data = b"some archive bytes";
    let expected = hex::encode(<sha2::Sha512 as sha2::Digest>::digest(data));
    assert_eq!(sha512_hex_string(data), expected);
}

#[test]
fn whole_file_hash_text_composes() {
    let data = b"payload";
    let digest = xxhash_rust::xxh64::xxh64(data, 0);
    let expected = base64::Engine::encode(
        &base64::prelude::BASE64_STANDARD,
        digest.to_le_bytes(),
    );
    assert_eq!(calculate_hash_text(data), expected);
    assert_eq!(stable_hash_text(data), expected);
}
