//! A byte-stream wrapper that reports every transferred chunk to a callback.
//!
//! Progress reporting hangs readers and writers with a hook; the hook itself
//! is only a pair of the wrapped stream and the callback, and the read and
//! write plumbing around it lives with the I/O code.

use vstd::prelude::*;

verus! {

/// A stream together with the callback told about each transfer.
pub struct IoHook<R, F> {
    pub inner: R,
    pub callback: F,
}

impl<R, F> IoHook<R, F> {
    pub fn new(inner: R, callback: F) -> (s: Self)
        ensures
            s.inner == inner,
            s.callback == callback,
    {
        IoHook { inner, callback }
    }
}

} // verus!
