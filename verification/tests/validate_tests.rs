use hoolamike::validate::{and_validate_size, validate_bytes, ByteCounter, StreamValidator,
    ValidationError};

#[test]
fn round_trip_validation_succeeds_on_correct_source() {
    let data = b"exactly these bytes".to_vec();
    let hash = xxhash_rust::xxh64::xxh64(&data, 0);
    let r = validate_bytes(&data, data.len() as u64, hash, true);
    assert_eq!(r, Ok(data.len() as u64));
}

#[test]
fn one_flipped_byte_fails_with_hash_mismatch() {
    let data = b"exactly these bytes".to_vec();
    let hash = xxhash_rust::xxh64::xxh64(&data, 0);
    let mut corrupted = data.clone();
    corrupted[4] ^= 0x01;
    match validate_bytes(&corrupted, corrupted.len() as u64, hash, true) {
        Err(ValidationError::HashMismatch { expected, found }) => {
            assert_eq!(expected, hash);
            assert_eq!(found, xxhash_rust::xxh64::xxh64(&corrupted, 0));
            assert_ne!(expected, found);
        }
        other => panic!("expected a hash mismatch, got {:?}", other),
    }
}

#[test]
fn wrong_length_fails_with_size_mismatch_before_any_hash_check() {
    let data = b"short".to_vec();
    match validate_bytes(&data, 100, 0, true) {
        Err(ValidationError::SizeMismatch { expected, found }) => {
            assert_eq!(expected, 100);
            assert_eq!(found, 5);
        }
        other => panic!("expected a size mismatch, got {:?}", other),
    }
}

#[test]
fn whitelisted_entries_validate_size_only() {
    let data = b"dds with rewritten header".to_vec();
    // A deliberately wrong hash passes when the hash check is waived.
    let r = validate_bytes(&data, data.len() as u64, 12345, false);
    assert_eq!(r, Ok(data.len() as u64));
}

#[test]
fn streaming_validator_accepts_chunked_stream() {
    let data = b"streamed in several chunks".to_vec();
    let hash = xxhash_rust::xxh64::xxh64(&data, 0);
    let mut v = StreamValidator::new(data.len() as u64, Some(hash));
    for chunk in data.chunks(7) {
        v.push_chunk(chunk).unwrap();
    }
    assert_eq!(v.finish(), Ok(data.len() as u64));
}

#[test]
fn streaming_validator_fails_fast_on_overrun() {
    let mut v = StreamValidator::new(4, None);
    v.push_chunk(b"abcd").unwrap();
    match v.push_chunk(b"e") {
        Err(ValidationError::SizeMismatch { expected, found }) => {
            assert_eq!(expected, 4);
            assert_eq!(found, 5);
        }
        other => panic!("expected a size mismatch, got {:?}", other),
    }
}

#[test]
fn streaming_validator_reports_short_stream_at_finish() {
    let mut v = StreamValidator::new(10, None);
    v.push_chunk(b"abc").unwrap();
    match v.finish() {
        Err(ValidationError::SizeMismatch { expected, found }) => {
            assert_eq!(expected, 10);
            assert_eq!(found, 3);
        }
        other => panic!("expected a size mismatch, got {:?}", other),
    }
}

#[test]
fn size_check_is_exact() {
    assert_eq!(and_validate_size(8, 8), Ok(8));
    assert_eq!(
        and_validate_size(7, 8),
        Err(ValidationError::SizeMismatch { expected: 8, found: 7 })
    );
}

#[test]
fn byte_counter_counts() {
    let mut c = ByteCounter::new(String::from("sink"));
    assert_eq!(c.get_count(), 0);
    c.record(10);
    c.record(5);
    assert_eq!(c.get_count(), 15);
    assert_eq!(c.into_inner(), "sink");
}
