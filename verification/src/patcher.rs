//! The delta patch applier.
//!
//! A patched directive reconstructs its target from a base byte source plus a
//! delta: a sequence of copy-from-base and insert-literal instructions. The
//! base is addressed by arbitrary offsets (the instructions reference it
//! non-sequentially), while the delta itself is decoded strictly in order
//! from its byte stream. A malformed delta, or a copy reaching past the end
//! of the base, is fatal for the one directive that carries it.

use vstd::prelude::*;
use crate::hashing::{u64_le_bytes, u64_from_le, u64_to_le_bytes, u64_from_le_bytes,
    lemma_u64_le_round_trip};

verus! {

/// One delta instruction.
#[derive(Debug, Clone, PartialEq, Eq)]
pub enum PatchOp {
    /// Copy `len` bytes of the base, starting at `offset`.
    CopyFromBase { offset: u64, len: u64 },
    /// Insert the given bytes.
    InsertLiteral { bytes: Vec<u8> },
}

/// Why a delta cannot be applied or decoded.
#[derive(PartialEq, Eq, Structural, Clone, Copy, Debug)]
pub enum PatchError {
    /// An instruction copies a range that reaches past the end of the base;
    /// the index of the first such instruction.
    CopyOutOfRange { index: usize },
    /// The delta bytes end in the middle of an instruction, or carry an
    /// unknown instruction tag.
    MalformedDelta,
}

/// Whether every copy instruction stays inside the base.
pub open spec fn ops_valid(base: Seq<u8>, ops: Seq<PatchOp>) -> bool {
    forall|i: int|
        0 <= i < ops.len() ==> (#[trigger] ops[i] matches PatchOp::CopyFromBase { offset, len }
            ==> offset + len <= base.len())
}

/// The bytes one instruction contributes.
pub open spec fn op_output(base: Seq<u8>, op: PatchOp) -> Seq<u8> {
    match op {
        PatchOp::CopyFromBase { offset, len } => base.subrange(
            offset as int,
            offset as int + len as int,
        ),
        PatchOp::InsertLiteral { bytes } => bytes@,
    }
}

/// The whole reconstructed stream: each instruction's bytes in order.
pub open spec fn patch_output(base: Seq<u8>, ops: Seq<PatchOp>) -> Seq<u8>
    decreases ops.len(),
{
    if ops.len() == 0 {
        Seq::empty()
    } else {
        patch_output(base, ops.drop_last()) + op_output(base, ops.last())
    }
}

/// Index of the first instruction whose copy range leaves the base, if any.
pub open spec fn first_invalid(base: Seq<u8>, ops: Seq<PatchOp>) -> Option<int>
    decreases ops.len(),
{
    if ops.len() == 0 {
        None
    } else if !(ops[0] matches PatchOp::CopyFromBase { offset, len } ==> offset + len
        <= base.len()) {
        Some(0int)
    } else {
        match first_invalid(base, ops.skip(1)) {
            Some(i) => Some(i + 1),
            None => None,
        }
    }
}

proof fn lemma_first_invalid_none(base: Seq<u8>, ops: Seq<PatchOp>)
    ensures
        first_invalid(base, ops) is None <==> ops_valid(base, ops),
        first_invalid(base, ops) matches Some(i) ==> 0 <= i < ops.len() && !(ops[i]
            matches PatchOp::CopyFromBase { offset, len } ==> offset + len <= base.len()),
    decreases ops.len(),
{
    if ops.len() != 0 {
        lemma_first_invalid_none(base, ops.skip(1));
        assert(forall|i: int| 0 <= i < ops.skip(1).len() ==> ops.skip(1)[i] == ops[i + 1]);
        if (ops[0] matches PatchOp::CopyFromBase { offset, len } ==> offset + len
            <= base.len()) {
            if first_invalid(base, ops.skip(1)) is None {
                assert forall|i: int| 0 <= i < ops.len() implies (#[trigger] ops[i]
                    matches PatchOp::CopyFromBase { offset, len } ==> offset + len
                    <= base.len()) by {
                    if i > 0 {
                        assert(ops.skip(1)[i - 1] == ops[i]);
                    }
                }
            }
        }
    }
}

/// Reconstruct the patched stream from a base and decoded instructions.
///
/// Succeeds exactly when every copy stays inside the base and the output
/// fits in memory; the output is then each instruction's bytes in order.
/// Fails naming the first out-of-range instruction otherwise.
pub fn apply_patch(base: &[u8], ops: &Vec<PatchOp>) -> (r: Result<Vec<u8>, PatchError>)
    ensures
        r is Ok <==> ops_valid(base@, ops@),
        r matches Ok(out) ==> out@ == patch_output(base@, ops@),
        r matches Err(e) ==> e matches PatchError::CopyOutOfRange { index } && first_invalid(
            base@,
            ops@,
        ) == Some(index as int),
{
    let mut out: Vec<u8> = Vec::new();
    let mut i: usize = 0;
    proof {
        assert(patch_output(base@, ops@.take(0)) =~= Seq::<u8>::empty());
        assert(ops@.skip(0) =~= ops@);
    }
    while i < ops.len()
        invariant
            i <= ops@.len(),
            out@ == patch_output(base@, ops@.take(i as int)),
            ops_valid(base@, ops@.take(i as int)),
            first_invalid(base@, ops@) == match first_invalid(base@, ops@.skip(i as int)) {
                Some(j) => Some(j + i),
                None => None,
            },
        decreases ops@.len() - i,
    {
        let ghost rest = ops@.skip(i as int);
        proof {
            assert(rest[0] == ops@[i as int]);
            assert(rest.skip(1) =~= ops@.skip(i + 1));
            assert(ops@.take(i + 1).drop_last() =~= ops@.take(i as int));
            assert(ops@.take(i + 1).last() == ops@[i as int]);
        }
        match &ops[i] {
            PatchOp::CopyFromBase { offset, len } => {
                let offset = *offset;
                let len = *len;
                if offset > base.len() as u64 || len > base.len() as u64 - offset {
                    proof {
                        assert(first_invalid(base@, rest) == Some(0int));
                        lemma_first_invalid_none(base@, ops@);
                    }
                    return Err(PatchError::CopyOutOfRange { index: i });
                }
                let from = offset as usize;
                let to = from + len as usize;
                let mut j: usize = from;
                proof {
                    assert(out@ + base@.subrange(from as int, from as int)
                        =~= out@);
                }
                let ghost out0 = out@;
                while j < to
                    invariant
                        from <= j <= to <= base@.len(),
                        out@ == out0 + base@.subrange(from as int, j as int),
                    decreases to - j,
                {
                    out.push(base[j]);
                    proof {
                        assert(out0 + base@.subrange(from as int, j + 1) =~= (out0
                            + base@.subrange(from as int, j as int)).push(base@[j as int]));
                    }
                    j = j + 1;
                }
                proof {
                    assert(op_output(base@, ops@[i as int]) == base@.subrange(
                        from as int,
                        to as int,
                    ));
                    assert(ops_valid(base@, ops@.take(i + 1))) by {
                        assert(forall|k: int|
                            0 <= k < i ==> ops@.take(i + 1)[k] == ops@.take(i as int)[k]);
                        assert(ops@.take(i + 1)[i as int] == ops@[i as int]);
                    }
                }
            },
            PatchOp::InsertLiteral { bytes } => {
                let mut j: usize = 0;
                let ghost out0 = out@;
                while j < bytes.len()
                    invariant
                        j <= bytes@.len(),
                        out@ == out0 + bytes@.take(j as int),
                    decreases bytes@.len() - j,
                {
                    out.push(bytes[j]);
                    proof {
                        assert(out0 + bytes@.take(j + 1) =~= (out0 + bytes@.take(
                            j as int,
                        )).push(bytes@[j as int]));
                    }
                    j = j + 1;
                }
                proof {
                    assert(bytes@.take(bytes@.len() as int) =~= bytes@);
                    assert(ops_valid(base@, ops@.take(i + 1))) by {
                        assert(forall|k: int|
                            0 <= k < i ==> ops@.take(i + 1)[k] == ops@.take(i as int)[k]);
                        assert(ops@.take(i + 1)[i as int] == ops@[i as int]);
                    }
                }
            },
        }
        i = i + 1;
    }
    proof {
        assert(ops@.take(ops@.len() as int) =~= ops@);
        assert(ops@.skip(ops@.len() as int) =~= Seq::<PatchOp>::empty());
        lemma_first_invalid_none(base@, ops@);
    }
    Ok(out)
}

/// A delta instruction, mathematically.
pub enum SpecPatchOp {
    Copy { offset: u64, len: u64 },
    Insert { bytes: Seq<u8> },
}

/// The mathematical form of one instruction.
pub open spec fn op_model(op: PatchOp) -> SpecPatchOp {
    match op {
        PatchOp::CopyFromBase { offset, len } => SpecPatchOp::Copy { offset, len },
        PatchOp::InsertLiteral { bytes } => SpecPatchOp::Insert { bytes: bytes@ },
    }
}

/// The mathematical form of an instruction sequence.
pub open spec fn ops_model(ops: Seq<PatchOp>) -> Seq<SpecPatchOp> {
    ops.map_values(|op: PatchOp| op_model(op))
}

/// The wire form of one instruction: a tag byte, then its fields, each
/// length and offset as eight little-endian bytes.
pub open spec fn encode_op(op: SpecPatchOp) -> Seq<u8> {
    match op {
        SpecPatchOp::Copy { offset, len } => seq![0u8] + u64_le_bytes(offset) + u64_le_bytes(len),
        SpecPatchOp::Insert { bytes } => seq![1u8] + u64_le_bytes(bytes.len() as u64) + bytes,
    }
}

/// The wire form of an instruction sequence.
pub open spec fn encode_ops(ops: Seq<SpecPatchOp>) -> Seq<u8>
    decreases ops.len(),
{
    if ops.len() == 0 {
        Seq::empty()
    } else {
        encode_op(ops[0]) + encode_ops(ops.skip(1))
    }
}

/// The wire form of a whole delta: the instruction count, then the
/// instructions.
pub open spec fn encode_delta_model(ops: Seq<SpecPatchOp>) -> Seq<u8> {
    u64_le_bytes(ops.len() as u64) + encode_ops(ops)
}

/// An instruction sequence that the wire form can carry: literal lengths
/// and the instruction count fit their fields.
pub open spec fn ops_encodable(ops: Seq<SpecPatchOp>) -> bool {
    &&& ops.len() <= u64::MAX
    &&& forall|i: int|
        0 <= i < ops.len() ==> (#[trigger] ops[i] matches SpecPatchOp::Insert { bytes }
            ==> bytes.len() <= u64::MAX)
}

/// Parse `count` instructions from the front of `bytes`; trailing bytes are
/// malformed.
pub open spec fn parse_ops(bytes: Seq<u8>, count: nat) -> Option<Seq<SpecPatchOp>>
    decreases count,
{
    if count == 0 {
        if bytes.len() == 0 {
            Some(Seq::empty())
        } else {
            None
        }
    } else if bytes.len() < 1 {
        None
    } else if bytes[0] == 0u8 {
        if bytes.len() < 17 {
            None
        } else {
            let offset = u64_from_le(bytes.subrange(1, 9));
            let len = u64_from_le(bytes.subrange(9, 17));
            match parse_ops(bytes.skip(17), (count - 1) as nat) {
                Some(rest) => Some(seq![SpecPatchOp::Copy { offset, len }] + rest),
                None => None,
            }
        }
    } else if bytes[0] == 1u8 {
        if bytes.len() < 9 {
            None
        } else {
            let n = u64_from_le(bytes.subrange(1, 9));
            if bytes.len() < 9 + n {
                None
            } else {
                let lit = bytes.subrange(9, 9 + n as int);
                match parse_ops(bytes.skip(9 + n as int), (count - 1) as nat) {
                    Some(rest) => Some(seq![SpecPatchOp::Insert { bytes: lit }] + rest),
                    None => None,
                }
            }
        }
    } else {
        None
    }
}

/// Parse a whole delta: the eight-byte instruction count, then exactly that
/// many instructions.
pub open spec fn parse_delta_model(bytes: Seq<u8>) -> Option<Seq<SpecPatchOp>> {
    if bytes.len() < 8 {
        None
    } else {
        parse_ops(bytes.skip(8), u64_from_le(bytes.take(8)) as nat)
    }
}

/// Decoding inverts encoding: parsing the wire form of any encodable
/// instruction sequence gives back exactly that sequence.
pub proof fn lemma_delta_round_trip(ops: Seq<SpecPatchOp>)
    requires
        ops_encodable(ops),
    ensures
        parse_delta_model(encode_delta_model(ops)) == Some(ops),
{
    let bytes = encode_delta_model(ops);
    assert(bytes.take(8) =~= u64_le_bytes(ops.len() as u64));
    assert(bytes.skip(8) =~= encode_ops(ops));
    lemma_u64_le_round_trip(ops.len() as u64);
    lemma_parse_encode_ops(ops);
}

proof fn lemma_parse_encode_ops(ops: Seq<SpecPatchOp>)
    requires
        ops_encodable(ops),
    ensures
        parse_ops(encode_ops(ops), ops.len() as nat) == Some(ops),
    decreases ops.len(),
{
    if ops.len() == 0 {
    } else {
        let head = encode_op(ops[0]);
        let tail = encode_ops(ops.skip(1));
        let bytes = head + tail;
        assert(ops_encodable(ops.skip(1))) by {
            assert(forall|i: int| 0 <= i < ops.skip(1).len() ==> ops.skip(1)[i] == ops[i + 1]);
        }
        lemma_parse_encode_ops(ops.skip(1));
        match ops[0] {
            SpecPatchOp::Copy { offset, len } => {
                assert(head.len() == 17);
                assert(bytes[0] == 0u8);
                assert(bytes.subrange(1, 9) =~= u64_le_bytes(offset));
                assert(bytes.subrange(9, 17) =~= u64_le_bytes(len));
                lemma_u64_le_round_trip(offset);
                lemma_u64_le_round_trip(len);
                assert(bytes.skip(17) =~= tail);
                assert(seq![SpecPatchOp::Copy { offset, len }] + ops.skip(1) =~= ops);
            },
            SpecPatchOp::Insert { bytes: lit } => {
                assert(head.len() == 9 + lit.len());
                assert(bytes[0] == 1u8);
                assert(bytes.subrange(1, 9) =~= u64_le_bytes(lit.len() as u64));
                lemma_u64_le_round_trip(lit.len() as u64);
                assert(bytes.subrange(9, 9 + lit.len() as int) =~= lit);
                assert(bytes.skip(9 + lit.len() as int) =~= tail);
                assert(seq![SpecPatchOp::Insert { bytes: lit }] + ops.skip(1) =~= ops);
            },
        }
    }
}

proof fn lemma_encode_ops_snoc(m: Seq<SpecPatchOp>, x: SpecPatchOp)
    ensures
        encode_ops(m.push(x)) == encode_ops(m) + encode_op(x),
    decreases m.len(),
{
    if m.len() == 0 {
        assert(m.push(x)[0] == x);
        assert(m.push(x).skip(1) =~= Seq::<SpecPatchOp>::empty());
        assert(encode_ops(m.push(x).skip(1)) == Seq::<u8>::empty());
        assert(encode_ops(m.push(x)) == encode_op(x) + encode_ops(m.push(x).skip(1)));
        assert(encode_ops(m) == Seq::<u8>::empty());
        assert(encode_op(x) + Seq::<u8>::empty() =~= Seq::<u8>::empty() + encode_op(x));
    } else {
        assert(m.push(x)[0] == m[0]);
        assert(m.push(x).skip(1) =~= m.skip(1).push(x));
        lemma_encode_ops_snoc(m.skip(1), x);
        assert(encode_op(m[0]) + (encode_ops(m.skip(1)) + encode_op(x)) =~= (encode_op(m[0])
            + encode_ops(m.skip(1))) + encode_op(x));
    }
}

proof fn lemma_ops_model_push(s: Seq<PatchOp>, op: PatchOp)
    ensures
        ops_model(s.push(op)) == ops_model(s).push(op_model(op)),
{
    assert(ops_model(s.push(op)) =~= ops_model(s).push(op_model(op)));
}

fn push_bytes(out: &mut Vec<u8>, add: &[u8])
    ensures
        final(out)@ == old(out)@ + add@,
{
    let mut i: usize = 0;
    proof {
        assert(old(out)@ + add@.take(0) =~= old(out)@);
    }
    while i < add.len()
        invariant
            i <= add@.len(),
            out@ == old(out)@ + add@.take(i as int),
        decreases add@.len() - i,
    {
        out.push(add[i]);
        proof {
            assert(old(out)@ + add@.take(i + 1) =~= (old(out)@ + add@.take(i as int)).push(
                add@[i as int],
            ));
        }
        i = i + 1;
    }
    proof {
        assert(add@.take(add@.len() as int) =~= add@);
    }
}

/// Encode instructions into the delta wire form.
pub fn encode_delta(ops: &Vec<PatchOp>) -> (r: Vec<u8>)
    ensures
        r@ == encode_delta_model(ops_model(ops@)),
{
    let mut out = u64_to_le_bytes(ops.len() as u64);
    let ghost count = ops@.len() as u64;
    let mut i: usize = 0;
    proof {
        assert(ops_model(ops@).len() == ops@.len());
        assert(encode_ops(ops_model(ops@.take(0))) =~= Seq::<u8>::empty());
        assert(out@ + encode_ops(ops_model(ops@.take(0))) =~= out@);
    }
    while i < ops.len()
        invariant
            i <= ops@.len(),
            out@ == u64_le_bytes(count) + encode_ops(ops_model(ops@.take(i as int))),
            count == ops@.len() as u64,
        decreases ops@.len() - i,
    {
        let ghost m = ops_model(ops@.take(i as int));
        proof {
            assert(ops@.take(i + 1) =~= ops@.take(i as int).push(ops@[i as int]));
            lemma_ops_model_push(ops@.take(i as int), ops@[i as int]);
            lemma_encode_ops_snoc(m, op_model(ops@[i as int]));
        }
        match &ops[i] {
            PatchOp::CopyFromBase { offset, len } => {
                out.push(0u8);
                let ob = u64_to_le_bytes(*offset);
                push_bytes(&mut out, ob.as_slice());
                let lb = u64_to_le_bytes(*len);
                push_bytes(&mut out, lb.as_slice());
                proof {
                    assert(out@ =~= u64_le_bytes(count) + encode_ops(ops_model(ops@.take(
                        i + 1,
                    ))));
                }
            },
            PatchOp::InsertLiteral { bytes } => {
                out.push(1u8);
                let nb = u64_to_le_bytes(bytes.len() as u64);
                push_bytes(&mut out, nb.as_slice());
                push_bytes(&mut out, bytes.as_slice());
                proof {
                    assert(out@ =~= u64_le_bytes(count) + encode_ops(ops_model(ops@.take(
                        i + 1,
                    ))));
                }
            },
        }
        i = i + 1;
    }
    proof {
        assert(ops@.take(ops@.len() as int) =~= ops@);
    }
    out
}

/// Decode a delta wire stream into instructions.
///
/// Succeeds exactly when the bytes are a well-formed delta — an eight-byte
/// instruction count followed by exactly that many instructions and nothing
/// else — and then yields exactly the instructions the stream spells.
pub fn parse_delta(bytes: &[u8]) -> (r: Result<Vec<PatchOp>, PatchError>)
    ensures
        r is Ok <==> parse_delta_model(bytes@) is Some,
        r matches Ok(ops) ==> parse_delta_model(bytes@) == Some(ops_model(ops@)),
        r matches Err(e) ==> e == PatchError::MalformedDelta,
{
    let n = bytes.len();
    if n < 8 {
        return Err(PatchError::MalformedDelta);
    }
    let header = vstd::slice::slice_subrange(bytes, 0, 8);
    let count = u64_from_le_bytes(header);
    proof {
        assert(header@ =~= bytes@.take(8));
    }
    let mut acc: Vec<PatchOp> = Vec::new();
    let mut pos: usize = 8;
    let mut k: u64 = 0;
    proof {
        assert(ops_model(acc@) =~= Seq::<SpecPatchOp>::empty());
        assert(ops_model(acc@) + parse_ops(bytes@.skip(8), (count - k) as nat).unwrap()
            =~= parse_ops(bytes@.skip(8), (count - k) as nat).unwrap());
    }
    while k < count
        invariant
            8 <= pos <= n,
            n == bytes@.len(),
            k <= count,
            parse_delta_model(bytes@) == match parse_ops(
                bytes@.skip(pos as int),
                (count - k) as nat,
            ) {
                Some(m) => Some(ops_model(acc@) + m),
                None => None,
            },
        decreases count - k,
    {
        let ghost rem = bytes@.skip(pos as int);
        let ghost c = (count - k) as nat;
        if pos == n {
            proof {
                assert(rem.len() == 0);
                assert(c != 0);
                assert(parse_ops(rem, c) is None);
            }
            return Err(PatchError::MalformedDelta);
        }
        let tag = bytes[pos];
        proof {
            assert(rem[0] == bytes@[pos as int]);
        }
        if tag == 0 {
            if n - pos < 17 {
                proof {
                    assert(rem.len() < 17);
                }
                return Err(PatchError::MalformedDelta);
            }
            let off_slice = vstd::slice::slice_subrange(bytes, pos + 1, pos + 9);
            let len_slice = vstd::slice::slice_subrange(bytes, pos + 9, pos + 17);
            let offset = u64_from_le_bytes(off_slice);
            let len = u64_from_le_bytes(len_slice);
            proof {
                assert(off_slice@ =~= rem.subrange(1, 9));
                assert(len_slice@ =~= rem.subrange(9, 17));
            }
            let op = PatchOp::CopyFromBase { offset, len };
            let ghost acc0 = acc@;
            proof {
                lemma_ops_model_push(acc0, op);
            }
            acc.push(op);
            proof {
                assert(rem.skip(17) =~= bytes@.skip(pos as int + 17));
                match parse_ops(bytes@.skip(pos as int + 17), (c - 1) as nat) {
                    Some(rest) => {
                        assert(parse_ops(rem, c) == Some(
                            seq![SpecPatchOp::Copy { offset, len }] + rest,
                        ));
                        assert(ops_model(acc0) + (seq![SpecPatchOp::Copy { offset, len }] + rest)
                            =~= ops_model(acc@) + rest);
                    },
                    None => {
                        assert(parse_ops(rem, c) is None);
                    },
                }
            }
            pos = pos + 17;
        } else if tag == 1 {
            if n - pos < 9 {
                proof {
                    assert(rem.len() < 9);
                }
                return Err(PatchError::MalformedDelta);
            }
            let n_slice = vstd::slice::slice_subrange(bytes, pos + 1, pos + 9);
            let lit_len = u64_from_le_bytes(n_slice);
            proof {
                assert(n_slice@ =~= rem.subrange(1, 9));
            }
            if lit_len > (n - pos - 9) as u64 {
                proof {
                    assert(rem.len() < 9 + lit_len);
                }
                return Err(PatchError::MalformedDelta);
            }
            let lit_n = lit_len as usize;
            let lit_slice = vstd::slice::slice_subrange(bytes, pos + 9, pos + 9 + lit_n);
            let lit = vstd::slice::slice_to_vec(lit_slice);
            proof {
                assert(lit@ =~= rem.subrange(9, 9 + lit_len as int));
            }
            let op = PatchOp::InsertLiteral { bytes: lit };
            let ghost acc0 = acc@;
            let ghost litv = rem.subrange(9, 9 + lit_len as int);
            proof {
                lemma_ops_model_push(acc0, op);
            }
            acc.push(op);
            proof {
                assert(rem.skip(9 + lit_len as int) =~= bytes@.skip(pos as int + 9 + lit_n));
                match parse_ops(bytes@.skip(pos as int + 9 + lit_n), (c - 1) as nat) {
                    Some(rest) => {
                        assert(parse_ops(rem, c) == Some(
                            seq![SpecPatchOp::Insert { bytes: litv }] + rest,
                        ));
                        assert(ops_model(acc0) + (seq![SpecPatchOp::Insert { bytes: litv }] + rest)
                            =~= ops_model(acc@) + rest);
                    },
                    None => {
                        assert(parse_ops(rem, c) is None);
                    },
                }
            }
            pos = pos + 9 + lit_n;
        } else {
            proof {
                assert(parse_ops(rem, c) is None);
            }
            return Err(PatchError::MalformedDelta);
        }
        k = k + 1;
    }
    if pos != n {
        proof {
            assert(bytes@.skip(pos as int).len() != 0);
            assert(parse_ops(bytes@.skip(pos as int), 0) is None);
        }
        return Err(PatchError::MalformedDelta);
    }
    proof {
        assert(bytes@.skip(pos as int).len() == 0);
        assert(parse_ops(bytes@.skip(pos as int), 0) == Some(Seq::<SpecPatchOp>::empty()));
        assert(ops_model(acc@) + Seq::<SpecPatchOp>::empty() =~= ops_model(acc@));
    }
    Ok(acc)
}

} // verus!
