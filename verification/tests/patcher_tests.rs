use hoolamike::patcher::{apply_patch, encode_delta, parse_delta, PatchError, PatchOp};

#[test]
fn known_delta_reconstructs_expected_output() {
    // Base: 20 bytes 0..20. Delta: copy [0,10), insert "XYZ", copy [10,20).
    let base: Vec<u8> = (0u8..20).collect();
    let ops = vec![
        PatchOp::CopyFromBase { offset: 0, len: 10 },
        PatchOp::InsertLiteral { bytes: b"XYZ".to_vec() },
        PatchOp::CopyFromBase { offset: 10, len: 10 },
    ];
    let out = apply_patch(&base, &ops).unwrap();
    let mut expected: Vec<u8> = (0u8..10).collect();
    expected.extend_from_slice(b"XYZ");
    expected.extend(10u8..20);
    assert_eq!(out, expected);
    assert_eq!(out.len(), 23);
}

#[test]
fn copy_past_base_end_is_fatal_and_names_the_instruction() {
    let base: Vec<u8> = (0u8..20).collect();
    let ops = vec![
        PatchOp::InsertLiteral { bytes: b"ok".to_vec() },
        PatchOp::CopyFromBase { offset: 15, len: 10 },
    ];
    assert_eq!(apply_patch(&base, &ops), Err(PatchError::CopyOutOfRange { index: 1 }));
}

#[test]
fn empty_delta_produces_empty_output() {
    let base: Vec<u8> = (0u8..20).collect();
    let out = apply_patch(&base, &Vec::new()).unwrap();
    assert_eq!(out, Vec::<u8>::new());
}

#[test]
fn wire_round_trip() {
    let ops = vec![
        PatchOp::CopyFromBase { offset: 3, len: 4 },
        PatchOp::InsertLiteral { bytes: vec![9, 8, 7] },
        PatchOp::InsertLiteral { bytes: Vec::new() },
        PatchOp::CopyFromBase { offset: 0, len: 0 },
    ];
    let wire = encode_delta(&ops);
    let decoded = parse_delta(&wire).unwrap();
    assert_eq!(decoded.len(), ops.len());
    let base: Vec<u8> = (0u8..10).collect();
    assert_eq!(apply_patch(&base, &decoded), apply_patch(&base, &ops));
}

#[test]
fn truncated_delta_is_malformed() {
    let ops = vec![PatchOp::InsertLiteral { bytes: b"payload".to_vec() }];
    let mut wire = encode_delta(&ops);
    wire.pop();
    assert_eq!(parse_delta(&wire), Err(PatchError::MalformedDelta));
}

#[test]
fn short_header_is_malformed() {
    assert_eq!(parse_delta(&[1, 2, 3]), Err(PatchError::MalformedDelta));
}

#[test]
fn unknown_instruction_tag_is_malformed() {
    let mut wire = 1u64.to_le_bytes().to_vec();
    wire.push(9);
    wire.extend_from_slice(&[0; 16]);
    assert_eq!(parse_delta(&wire), Err(PatchError::MalformedDelta));
}

#[test]
fn trailing_bytes_are_malformed() {
    let ops = vec![PatchOp::CopyFromBase { offset: 0, len: 1 }];
    let mut wire = encode_delta(&ops);
    wire.push(0);
    assert_eq!(parse_delta(&wire), Err(PatchError::MalformedDelta));
}
