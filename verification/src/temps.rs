//! Accounting of scoped temporary files.
//!
//! Every extracted entry is backed by a temporary file owned by exactly one
//! handle. The registry tracks which temporary files are live under fresh
//! integer tokens; the caller maps tokens to real paths and deletes the file
//! whenever a token is released. Draining the registry names every live
//! token, so tearing a queue down leaves nothing live — the cleanup-on-drop
//! guarantee, stated in the contracts below.

use vstd::prelude::*;
use crate::queue::{remove_val, lemma_push_no_duplicates, lemma_remove_val_props,
    lemma_remove_val_push, lemma_remove_val_subset};

verus! {

/// The live temporary files, each under a unique token.
pub struct TempRegistry {
    next: u64,
    live: Vec<u64>,
}

impl TempRegistry {
    /// Tokens of the live temporary files.
    pub closed spec fn live_tokens(&self) -> Seq<u64> {
        self.live@
    }

    pub closed spec fn well_formed(&self) -> bool {
        &&& self.live@.no_duplicates()
        &&& forall|i: int| 0 <= i < self.live@.len() ==> self.live@[i] < self.next
    }

    pub fn new() -> (s: Self)
        ensures
            s.well_formed(),
            s.live_tokens().len() == 0,
    {
        TempRegistry { next: 0, live: Vec::new() }
    }

    /// Register a new temporary file. The returned token is fresh: it names
    /// no file that was live before. `None` only when the token counter is
    /// exhausted, which no realistic run reaches.
    pub fn create(&mut self) -> (t: Option<u64>)
        requires
            old(self).well_formed(),
        ensures
            final(self).well_formed(),
            t matches Some(tok) ==> !old(self).live_tokens().contains(tok)
                && final(self).live_tokens() == old(self).live_tokens().push(tok),
            t is None ==> final(self).live_tokens() == old(self).live_tokens(),
    {
        if self.next == u64::MAX {
            None
        } else {
            let tok = self.next;
            self.next = self.next + 1;
            proof {
                if self.live@.contains(tok) {
                    let i = choose|i: int| 0 <= i < self.live@.len() && self.live@[i] == tok;
                }
            }
            proof {
                lemma_push_no_duplicates(self.live@, tok);
            }
            self.live.push(tok);
            Some(tok)
        }
    }

    /// Drop one temporary file: its token is no longer live. The caller
    /// deletes the backing file as it does so.
    pub fn release(&mut self, t: u64) -> (was_live: bool)
        requires
            old(self).well_formed(),
        ensures
            final(self).well_formed(),
            was_live == old(self).live_tokens().contains(t),
            final(self).live_tokens() == remove_val(old(self).live_tokens(), t),
            !final(self).live_tokens().contains(t),
    {
        let mut kept: Vec<u64> = Vec::new();
        let mut found = false;
        let mut i: usize = 0;
        proof {
            reveal(Seq::filter);
            assert(self.live@.take(0) =~= Seq::<u64>::empty());
        }
        while i < self.live.len()
            invariant
                i <= self.live@.len(),
                kept@ == remove_val(self.live@.take(i as int), t),
                found == self.live@.take(i as int).contains(t),
            decreases self.live@.len() - i,
        {
            let ghost prefix = self.live@.take(i as int);
            proof {
                lemma_remove_val_push(prefix, self.live@[i as int], t);
                assert(prefix.push(self.live@[i as int]) =~= self.live@.take(i + 1));
            }
            if self.live[i] == t {
                found = true;
                proof {
                    assert(self.live@.take(i + 1)[i as int] == t);
                }
            } else {
                kept.push(self.live[i]);
                proof {
                    if self.live@.take(i + 1).contains(t) != found {
                        let j = choose|j: int|
                            0 <= j < i + 1 && #[trigger] self.live@.take(i + 1)[j] == t;
                        assert(prefix[j] == t);
                    }
                }
            }
            i = i + 1;
        }
        proof {
            assert(self.live@.take(self.live@.len() as int) =~= self.live@);
            lemma_remove_val_props(self.live@, t);
            lemma_remove_val_subset(self.live@, t);
            assert forall|i2: int| 0 <= i2 < kept@.len() implies kept@[i2] < self.next by {
                assert(kept@.contains(kept@[i2]));
                assert(self.live@.contains(kept@[i2]));
                let j = choose|j: int| 0 <= j < self.live@.len() && self.live@[j] == kept@[i2];
            }
        }
        self.live = kept;
        found
    }

    /// Drain everything: afterwards no temporary file is live, and the
    /// returned tokens are exactly those that were live, for the caller to
    /// delete one by one.
    pub fn drain(&mut self) -> (tokens: Vec<u64>)
        requires
            old(self).well_formed(),
        ensures
            final(self).well_formed(),
            final(self).live_tokens().len() == 0,
            tokens@ == old(self).live_tokens(),
    {
        let mut tokens: Vec<u64> = Vec::new();
        std::mem::swap(&mut tokens, &mut self.live);
        tokens
    }
}

} // verus!
