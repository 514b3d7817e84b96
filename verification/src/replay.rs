//! Replay protection: the set of message nonces already applied on a
//! destination side.  A nonce is applied at most once; rejecting a
//! marked nonce before any balance mutation is the sole replay defence.

use vstd::prelude::*;

verus! {

/// The nonces already finalized on one destination side.
#[derive(Debug)]
pub struct ProcessedNonceSet {
    nonces: Vec<u64>,
}

impl View for ProcessedNonceSet {
    type V = Set<u64>;

    closed spec fn view(&self) -> Set<u64> {
        Set::new(|n: u64| self.nonces@.contains(n))
    }
}

impl ProcessedNonceSet {
    /// An empty set: nothing has been applied yet.
    pub fn new() -> (r: ProcessedNonceSet)
        ensures
            r@ == Set::<u64>::empty(),
    {
        let r = ProcessedNonceSet { nonces: Vec::new() };
        proof {
            assert(r@ =~= Set::<u64>::empty());
        }
        r
    }

    /// Whether `nonce` was already applied.
    pub fn has_processed(&self, nonce: u64) -> (r: bool)
        ensures
            r == self@.contains(nonce),
    {
        let mut i: usize = 0;
        while i < self.nonces.len()
            invariant
                i <= self.nonces@.len(),
                forall|k: int| 0 <= k < i ==> self.nonces@[k] != nonce,
            decreases self.nonces@.len() - i,
        {
            if self.nonces[i] == nonce {
                return true;
            }
            i = i + 1;
        }
        false
    }

    /// Record that `nonce` has been applied.
    pub fn mark_processed(&mut self, nonce: u64)
        ensures
            final(self)@ == old(self)@.insert(nonce),
    {
        let ghost prev = self.nonces@;
        if !self.has_processed(nonce) {
            self.nonces.push(nonce);
            proof {
                assert forall|x: u64| self@.contains(x) <==> old(self)@.insert(nonce).contains(
                    x,
                ) by {
                    if x == nonce {
                        assert(self.nonces@[prev.len() as int] == nonce);
                    } else {
                        if prev.contains(x) {
                            let j = choose|j: int| 0 <= j < prev.len() && prev[j] == x;
                            assert(self.nonces@[j] == x);
                        }
                        if self.nonces@.contains(x) {
                            let j = choose|j: int|
                                0 <= j < self.nonces@.len() && self.nonces@[j] == x;
                            assert(j < prev.len());
                            assert(prev[j] == x);
                        }
                    }
                }
                assert(self@ =~= old(self)@.insert(nonce));
            }
        } else {
            proof {
                assert(self@ =~= old(self)@.insert(nonce));
            }
        }
    }
}

} // verus!
