//! The multi-signature quorum rule.
//!
//! A message passes against a guardian roster and a quorum exactly when
//! the distinct authorized keys with a cryptographically valid
//! signature over its digest number at least the quorum.  Two
//! signatures by one key count once; unknown keys and invalid
//! signatures count not at all.

use crate::bytesops::bytes32_eq;
use crate::crypto::{ed25519_valid, ed25519_verify};
use crate::message::{spec_digest, SigView, VaaView, VAA};
use vstd::prelude::*;
use vstd::set::axiom_set_insert_len;

verus! {

broadcast use vstd::set::group_set_axioms;

/// The byte strings of a list of 32-byte keys.
pub open spec fn keys_view(keys: Seq<[u8; 32]>) -> Seq<Seq<u8>> {
    Seq::new(keys.len(), |i: int| keys[i]@)
}

/// Whether one attached signature counts: its key is authorized and its
/// signature verifies over the digest.
pub open spec fn sig_accepted(s: SigView, roster: Seq<Seq<u8>>, digest: Seq<u8>) -> bool {
    roster.contains(s.guardian_pubkey) && ed25519_valid(s.guardian_pubkey, digest, s.signature)
}

/// The set of distinct guardian keys with an accepted signature in the
/// list.
pub open spec fn valid_signers(sigs: Seq<SigView>, roster: Seq<Seq<u8>>, digest: Seq<u8>) -> Set<
    Seq<u8>,
>
    decreases sigs.len(),
{
    if sigs.len() == 0 {
        Set::empty()
    } else {
        let rest = valid_signers(sigs.drop_last(), roster, digest);
        if sig_accepted(sigs.last(), roster, digest) {
            rest.insert(sigs.last().guardian_pubkey)
        } else {
            rest
        }
    }
}

/// The distinct accepted signers are finite and no more numerous than
/// the attached signatures.
pub proof fn lemma_valid_signers_bound(sigs: Seq<SigView>, roster: Seq<Seq<u8>>, digest: Seq<u8>)
    ensures
        valid_signers(sigs, roster, digest).finite(),
        valid_signers(sigs, roster, digest).len() <= sigs.len(),
    decreases sigs.len(),
{
    if sigs.len() > 0 {
        lemma_valid_signers_bound(sigs.drop_last(), roster, digest);
        if sig_accepted(sigs.last(), roster, digest) {
            axiom_set_insert_len(
                valid_signers(sigs.drop_last(), roster, digest),
                sigs.last().guardian_pubkey,
            );
        }
    }
}

/// A key is an accepted signer exactly when some attached signature
/// carries it and counts; the order of the signature list plays no
/// part.
pub proof fn lemma_valid_signers_members(sigs: Seq<SigView>, roster: Seq<Seq<u8>>, digest: Seq<u8>)
    ensures
        forall|pk: Seq<u8>|
            #[trigger] valid_signers(sigs, roster, digest).contains(pk) <==> exists|i: int|
                0 <= i < sigs.len() && (#[trigger] sigs[i]).guardian_pubkey == pk && sig_accepted(
                    sigs[i],
                    roster,
                    digest,
                ),
    decreases sigs.len(),
{
    if sigs.len() > 0 {
        let rest = valid_signers(sigs.drop_last(), roster, digest);
        let whole = valid_signers(sigs, roster, digest);
        let last_idx = sigs.len() - 1;
        lemma_valid_signers_members(sigs.drop_last(), roster, digest);
        assert forall|pk: Seq<u8>| #[trigger] whole.contains(pk) implies exists|i: int|
            0 <= i < sigs.len() && (#[trigger] sigs[i]).guardian_pubkey == pk && sig_accepted(
                sigs[i],
                roster,
                digest,
            ) by {
            if sig_accepted(sigs.last(), roster, digest) && pk == sigs.last().guardian_pubkey {
                assert(0 <= last_idx < sigs.len() && sigs[last_idx].guardian_pubkey == pk
                    && sig_accepted(sigs[last_idx], roster, digest));
            } else {
                assert(rest.contains(pk));
                let i = choose|i: int|
                    0 <= i < sigs.drop_last().len() && (#[trigger] sigs.drop_last()[i]).guardian_pubkey
                        == pk && sig_accepted(sigs.drop_last()[i], roster, digest);
                assert(sigs.drop_last()[i] == sigs[i]);
                assert(0 <= i < sigs.len() && sigs[i].guardian_pubkey == pk && sig_accepted(
                    sigs[i],
                    roster,
                    digest,
                ));
            }
        }
        assert forall|pk: Seq<u8>|
            (exists|i: int|
                0 <= i < sigs.len() && (#[trigger] sigs[i]).guardian_pubkey == pk && sig_accepted(
                    sigs[i],
                    roster,
                    digest,
                )) implies #[trigger] whole.contains(pk) by {
            let i = choose|i: int|
                0 <= i < sigs.len() && (#[trigger] sigs[i]).guardian_pubkey == pk && sig_accepted(
                    sigs[i],
                    roster,
                    digest,
                );
            if i < last_idx {
                assert(sigs.drop_last()[i] == sigs[i]);
                assert(rest.contains(pk));
            } else {
                assert(sig_accepted(sigs.last(), roster, digest));
                assert(whole == rest.insert(sigs.last().guardian_pubkey));
            }
        }
    }
}

/// Whether a message meets the quorum under a roster: at least `quorum`
/// distinct authorized keys carry a valid signature over its digest.
pub open spec fn spec_quorum_met(v: VaaView, roster: Seq<Seq<u8>>, quorum: int) -> bool {
    valid_signers(v.signatures, roster, spec_digest(v)).len() >= quorum
}

/// Whether `pk` occurs among the 32-byte keys of `keys`.
fn keys_contain(keys: &[[u8; 32]], pk: &[u8; 32]) -> (r: bool)
    ensures
        r == keys_view(keys@).contains(pk@),
{
    let mut i: usize = 0;
    while i < keys.len()
        invariant
            i <= keys@.len(),
            forall|k: int| 0 <= k < i ==> keys_view(keys@)[k] != pk@,
        decreases keys@.len() - i,
    {
        if bytes32_eq(&keys[i], pk) {
            proof {
                assert(keys_view(keys@)[i as int] == pk@);
            }
            return true;
        }
        i = i + 1;
    }
    proof {
        assert(!keys_view(keys@).contains(pk@));
    }
    false
}

/// Whether `pk` occurs in the vector of 32-byte keys.
fn vec_keys_contain(keys: &Vec<[u8; 32]>, pk: &[u8; 32]) -> (r: bool)
    ensures
        r == keys_view(keys@).contains(pk@),
{
    keys_contain(keys.as_slice(), pk)
}

impl VAA {
    /// Verify the attached signatures against an authorized roster and
    /// a quorum.  Rejects without computing the digest when even the
    /// raw signature count falls short.
    pub fn verify_signatures(&self, authorized_guardians: &[[u8; 32]], quorum: usize) -> (r: bool)
        ensures
            r == spec_quorum_met(self@, keys_view(authorized_guardians@), quorum as int),
    {
        let roster = authorized_guardians;
        if self.signatures.len() < quorum {
            proof {
                lemma_valid_signers_bound(self@.signatures, keys_view(roster@), spec_digest(self@));
            }
            return false;
        }
        let digest = self.digest();
        let mut counted: Vec<[u8; 32]> = Vec::new();
        let n = self.signatures.len();
        let mut idx: usize = 0;
        while idx < n
            invariant
                idx <= n,
                n == self.signatures@.len(),
                digest@ == spec_digest(self@),
                valid_signers(
                    self@.signatures.take(idx as int),
                    keys_view(roster@),
                    spec_digest(self@),
                ).finite(),
                counted@.len() == valid_signers(
                    self@.signatures.take(idx as int),
                    keys_view(roster@),
                    spec_digest(self@),
                ).len(),
                forall|pk: Seq<u8>|
                    #[trigger] keys_view(counted@).contains(pk) <==> valid_signers(
                        self@.signatures.take(idx as int),
                        keys_view(roster@),
                        spec_digest(self@),
                    ).contains(pk),
            decreases n - idx,
        {
            let ghost pre = valid_signers(
                self@.signatures.take(idx as int),
                keys_view(roster@),
                spec_digest(self@),
            );
            let ghost post = valid_signers(
                self@.signatures.take(idx + 1),
                keys_view(roster@),
                spec_digest(self@),
            );
            let ghost key = self@.signatures[idx as int].guardian_pubkey;
            proof {
                assert(self@.signatures.take(idx + 1).drop_last() =~= self@.signatures.take(
                    idx as int,
                ));
                assert(self@.signatures.take(idx + 1).last() == self@.signatures[idx as int]);
            }
            let sig = &self.signatures[idx];
            let authorized = keys_contain(roster, &sig.guardian_pubkey);
            let valid = if authorized {
                ed25519_verify(&sig.guardian_pubkey, &digest, &sig.signature)
            } else {
                false
            };
            if valid {
                proof {
                    assert(sig_accepted(
                        self@.signatures[idx as int],
                        keys_view(roster@),
                        spec_digest(self@),
                    ));
                    assert(post == pre.insert(key));
                    axiom_set_insert_len(pre, key);
                }
                let already = vec_keys_contain(&counted, &sig.guardian_pubkey);
                if !already {
                    let ghost prev = counted@;
                    counted.push(sig.guardian_pubkey);
                    proof {
                        assert(counted@ == prev.push(self.signatures@[idx as int].guardian_pubkey));
                        assert(keys_view(counted@).len() == prev.len() + 1);
                        assert(keys_view(counted@)[prev.len() as int] == key);
                        assert(forall|j: int|
                            0 <= j < prev.len() ==> keys_view(counted@)[j] == #[trigger] keys_view(
                                prev,
                            )[j]);
                        assert(!pre.contains(key));
                        assert forall|pk: Seq<u8>| #[trigger]
                            keys_view(counted@).contains(pk) <==> post.contains(pk) by {
                            if pk == key {
                                assert(keys_view(counted@)[prev.len() as int] == pk);
                                assert(keys_view(counted@).contains(pk));
                                assert(post.contains(pk));
                            } else {
                                if keys_view(counted@).contains(pk) {
                                    let j = choose|j: int|
                                        0 <= j < keys_view(counted@).len() && keys_view(counted@)[j]
                                            == pk;
                                    assert(j != prev.len());
                                    assert(keys_view(prev)[j] == pk);
                                    assert(keys_view(prev).contains(pk));
                                }
                                if keys_view(prev).contains(pk) {
                                    let j = choose|j: int|
                                        0 <= j < keys_view(prev).len() && keys_view(prev)[j] == pk;
                                    assert(keys_view(counted@)[j] == pk);
                                    assert(keys_view(counted@).contains(pk));
                                }
                            }
                        }
                    }
                } else {
                    proof {
                        assert(pre.contains(key));
                        assert(post =~= pre);
                    }
                }
            } else {
                proof {
                    assert(!sig_accepted(
                        self@.signatures[idx as int],
                        keys_view(roster@),
                        spec_digest(self@),
                    ));
                    assert(post == pre);
                }
            }
            idx = idx + 1;
        }
        proof {
            assert(self@.signatures.take(n as int) =~= self@.signatures);
        }
        counted.len() >= quorum
    }
}

} // verus!
