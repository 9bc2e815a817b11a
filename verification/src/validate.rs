//! Streaming size and hash validation.
//!
//! Every directive writes through a validator: bytes are counted and a
//! running digest is kept, and at the end both are held against the
//! directive's declared size and content hash. Entries whose extension is on
//! the header-rewrite whitelist skip the hash check and validate size only.

use vstd::prelude::*;
use crate::hashing::{xxh64_of, xxh64_digest};

verus! {

/// Why validation failed.
#[derive(PartialEq, Eq, Structural, Clone, Copy, Debug)]
pub enum ValidationError {
    /// The byte count does not match the declared size.
    SizeMismatch { expected: u64, found: u64 },
    /// The digest does not match the declared hash.
    HashMismatch { expected: u64, found: u64 },
}

/// A read or write count held against the declared size, as every extraction
/// does after copying an entry.
pub fn and_validate_size(found: u64, expected_size: u64) -> (r: Result<u64, ValidationError>)
    ensures
        r is Ok <==> found == expected_size,
        r matches Ok(n) ==> n == found,
        r matches Err(e) ==> e == (ValidationError::SizeMismatch {
            expected: expected_size,
            found,
        }),
{
    if found == expected_size {
        Ok(found)
    } else {
        Err(ValidationError::SizeMismatch { expected: expected_size, found })
    }
}

/// Validate a whole byte stream against a declared size and, unless the
/// check is waived, against the declared XXH64 digest.
///
/// Success exactly when the length equals the declared size and, where the
/// hash is checked, the digest equals the declared one; the size is held
/// first, so a stream of the wrong length never reports a hash mismatch.
pub fn validate_bytes(data: &[u8], expected_size: u64, expected_hash: u64, check_hash: bool) -> (r:
    Result<u64, ValidationError>)
    ensures
        r is Ok <==> (data@.len() == expected_size && (!check_hash || xxh64_of(data@, 0)
            == expected_hash)),
        r matches Ok(n) ==> n == expected_size,
        r matches Err(e) ==> (e matches ValidationError::SizeMismatch { expected, found } ==> (
        expected == expected_size && found == data@.len() && data@.len() != expected_size)),
        r matches Err(e) ==> (e matches ValidationError::HashMismatch { expected, found } ==> (
        expected == expected_hash && found == xxh64_of(data@, 0) && data@.len() == expected_size
            && check_hash && xxh64_of(data@, 0) != expected_hash)),
{
    let found_size = data.len() as u64;
    if found_size != expected_size {
        return Err(ValidationError::SizeMismatch { expected: expected_size, found: found_size });
    }
    if check_hash {
        let digest = xxh64_digest(data);
        if digest != expected_hash {
            return Err(ValidationError::HashMismatch { expected: expected_hash, found: digest });
        }
    }
    Ok(expected_size)
}

/// A validator fed chunk by chunk, for sources read incrementally.
pub struct StreamValidator {
    expected_size: u64,
    expected_hash: Option<u64>,
    data: Vec<u8>,
}

impl StreamValidator {
    /// Bytes fed so far.
    pub closed spec fn seen(&self) -> Seq<u8> {
        self.data@
    }

    pub closed spec fn spec_expected_size(&self) -> u64 {
        self.expected_size
    }

    pub closed spec fn spec_expected_hash(&self) -> Option<u64> {
        self.expected_hash
    }

    /// A validator for a stream declared to hold `expected_size` bytes;
    /// `expected_hash` is `None` for entries whose hash check is waived.
    pub fn new(expected_size: u64, expected_hash: Option<u64>) -> (s: Self)
        ensures
            s.seen().len() == 0,
            s.spec_expected_size() == expected_size,
            s.spec_expected_hash() == expected_hash,
    {
        StreamValidator { expected_size, expected_hash, data: Vec::new() }
    }

    /// Feed one chunk. Fails fast exactly when the stream has already grown
    /// longer than the declared size, in which case nothing is recorded.
    pub fn push_chunk(&mut self, chunk: &[u8]) -> (r: Result<(), ValidationError>)
        ensures
            r is Ok <==> old(self).seen().len() + chunk@.len() <= old(
                self,
            ).spec_expected_size(),
            r is Ok ==> final(self).seen() == old(self).seen() + chunk@,
            r is Err ==> final(self).seen() == old(self).seen(),
            final(self).spec_expected_size() == old(self).spec_expected_size(),
            final(self).spec_expected_hash() == old(self).spec_expected_hash(),
            r matches Err(e) ==> e matches ValidationError::SizeMismatch { expected, found }
                && expected == old(self).spec_expected_size() && found == (if old(
                self,
            ).seen().len() + chunk@.len() <= u64::MAX {
                (old(self).seen().len() + chunk@.len()) as u64
            } else {
                u64::MAX
            }),
    {
        let have = self.data.len() as u64;
        let more = chunk.len() as u64;
        if have > self.expected_size || more > self.expected_size - have {
            let found = if more <= u64::MAX - have {
                have + more
            } else {
                u64::MAX
            };
            proof {
                assert(self.data@.len() + chunk@.len() > self.expected_size);
            }
            return Err(ValidationError::SizeMismatch {
                expected: self.expected_size,
                found,
            });
        }
        let mut i: usize = 0;
        let ghost before = self.data@;
        while i < chunk.len()
            invariant
                i <= chunk@.len(),
                self.data@ == before + chunk@.take(i as int),
                self.expected_size == old(self).spec_expected_size(),
                self.expected_hash == old(self).spec_expected_hash(),
            decreases chunk@.len() - i,
        {
            self.data.push(chunk[i]);
            proof {
                assert(before + chunk@.take(i as int + 1) =~= (before + chunk@.take(
                    i as int,
                )).push(chunk@[i as int]));
            }
            i = i + 1;
        }
        proof {
            assert(chunk@.take(chunk@.len() as int) =~= chunk@);
        }
        Ok(())
    }

    /// Finish the stream: hold the byte count against the declared size and
    /// the digest against the declared hash. The size is held first.
    pub fn finish(self) -> (r: Result<u64, ValidationError>)
        ensures
            r is Ok <==> (self.seen().len() == self.spec_expected_size() && (
            self.spec_expected_hash() matches Some(h) ==> xxh64_of(self.seen(), 0) == h)),
            r matches Ok(n) ==> n == self.spec_expected_size(),
            r matches Err(e) ==> (e matches ValidationError::SizeMismatch { expected, found } ==> (
            expected == self.spec_expected_size() && found == self.seen().len()
                && self.seen().len() != self.spec_expected_size())),
            r matches Err(e) ==> (e matches ValidationError::HashMismatch { expected, found } ==> (
            self.spec_expected_hash() == Some(expected) && found == xxh64_of(self.seen(), 0)
                && self.seen().len() == self.spec_expected_size() && xxh64_of(self.seen(), 0)
                != expected)),
    {
        let found_size = self.data.len() as u64;
        if found_size != self.expected_size {
            return Err(ValidationError::SizeMismatch {
                expected: self.expected_size,
                found: found_size,
            });
        }
        match self.expected_hash {
            None => Ok(found_size),
            Some(expected) => {
                let digest = xxh64_digest(self.data.as_slice());
                if digest != expected {
                    Err(ValidationError::HashMismatch { expected, found: digest })
                } else {
                    Ok(found_size)
                }
            },
        }
    }
}

/// A write sink wrapper that counts the bytes passed through it.
pub struct ByteCounter<W> {
    inner: W,
    count: usize,
}

impl<W> ByteCounter<W> {
    /// Bytes recorded so far.
    pub closed spec fn spec_count(&self) -> usize {
        self.count
    }

    pub closed spec fn spec_inner(&self) -> W {
        self.inner
    }

    pub fn new(inner: W) -> (s: Self)
        ensures
            s.spec_count() == 0,
            s.spec_inner() == inner,
    {
        ByteCounter { inner, count: 0 }
    }

    pub fn get_count(&self) -> (r: usize)
        ensures
            r == self.spec_count(),
    {
        self.count
    }

    pub fn into_inner(self) -> (r: W)
        ensures
            r == self.spec_inner(),
    {
        self.inner
    }

    /// Record that `n` bytes were written to the underlying sink.
    pub fn record(&mut self, n: usize)
        requires
            old(self).spec_count() + n <= usize::MAX,
        ensures
            final(self).spec_count() == old(self).spec_count() + n,
            final(self).spec_inner() == old(self).spec_inner(),
    {
        self.count = self.count + n;
    }

    /// Borrow the underlying sink, to perform the actual write.
    pub fn inner_mut(&mut self) -> (r: &mut W)
        ensures
            *r == old(self).spec_inner(),
            final(self).spec_inner() == *final(r),
            final(self).spec_count() == old(self).spec_count(),
    {
        &mut self.inner
    }
}

} // verus!
