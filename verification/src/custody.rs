//! The custody side of the bridge: native tokens are locked under a
//! fresh monotonic nonce and released at most once each, against a
//! quorum-verified message attesting that the opposite chain has
//! burned the wrapped tokens.

use crate::bytesops::bytes32_eq;
use crate::codec::spec_deserialize;
use crate::ledger::{guardian_keys, Guardian};
use crate::message::{ChainId, VAA};
use crate::quorum::{keys_view, spec_quorum_met};
use crate::BridgeError;
use vstd::prelude::*;

verus! {

/// Running counters over all lock and release transactions.
#[derive(Debug, Clone, Copy)]
pub struct BridgeStats {
    /// Number of lock transactions.
    pub total_locked: u64,
    /// Number of release transactions.
    pub total_released: u64,
    /// Sum of all locked amounts.
    pub total_volume: i128,
}

/// One lock transaction, keyed by its nonce.
#[derive(Debug, Clone, Copy)]
pub struct LockRecord {
    pub nonce: u64,
    pub token: [u8; 32],
    pub amount: i128,
    pub sender: [u8; 32],
    pub recipient_chain: u32,
    pub recipient: [u8; 32],
    pub timestamp: u64,
    pub is_released: bool,
}

/// Whether some record carries `nonce`.
pub open spec fn has_record(s: Seq<LockRecord>, nonce: u64) -> bool {
    exists|i: int| 0 <= i < s.len() && (#[trigger] s[i]).nonce == nonce
}

/// The record stored under `nonce`, if any.
pub open spec fn spec_find_record(s: Seq<LockRecord>, nonce: u64) -> Option<LockRecord>
    decreases s.len(),
{
    if s.len() == 0 {
        Option::None
    } else if s[0].nonce == nonce {
        Option::Some(s[0])
    } else {
        spec_find_record(s.drop_first(), nonce)
    }
}

/// No two records carry one nonce.
pub open spec fn distinct_nonces(s: Seq<LockRecord>) -> bool {
    forall|i: int, j: int|
        0 <= i < j < s.len() ==> (#[trigger] s[i]).nonce != (#[trigger] s[j]).nonce
}

/// With distinct nonces, the record at index `i` is what lookup finds.
pub proof fn lemma_record_found(s: Seq<LockRecord>, i: int, nonce: u64)
    requires
        distinct_nonces(s),
        0 <= i < s.len(),
        s[i].nonce == nonce,
    ensures
        has_record(s, nonce),
        spec_find_record(s, nonce) == Option::Some(s[i]),
    decreases s.len(),
{
    if i > 0 {
        assert(s.drop_first()[i - 1] == s[i]);
        lemma_record_found(s.drop_first(), i - 1, nonce);
    }
}

/// Without a record under `nonce`, lookup finds nothing.
pub proof fn lemma_record_absent(s: Seq<LockRecord>, nonce: u64)
    requires
        !has_record(s, nonce),
    ensures
        spec_find_record(s, nonce) is None,
    decreases s.len(),
{
    if s.len() > 0 {
        assert(forall|k: int|
            0 <= k < s.drop_first().len() ==> (#[trigger] s.drop_first()[k]) == s[k + 1]);
        lemma_record_absent(s.drop_first(), nonce);
    }
}

/// Replacing one record by another under the same nonce touches no
/// other nonce's lookup.
pub proof fn lemma_record_update(s: Seq<LockRecord>, i: int, e: LockRecord)
    requires
        distinct_nonces(s),
        0 <= i < s.len(),
        e.nonce == s[i].nonce,
    ensures
        distinct_nonces(s.update(i, e)),
        forall|n: u64|
            #[trigger] spec_find_record(s.update(i, e), n) == (if n == e.nonce {
                Option::Some(e)
            } else {
                spec_find_record(s, n)
            }),
    decreases s.len(),
{
    let t = s.update(i, e);
    assert(forall|k: int| 0 <= k < t.len() ==> (#[trigger] t[k]).nonce == s[k].nonce);
    if i == 0 {
        assert(t.drop_first() =~= s.drop_first());
        assert forall|n: u64|
            #[trigger] spec_find_record(t, n) == (if n == e.nonce {
                Option::Some(e)
            } else {
                spec_find_record(s, n)
            }) by {
            if n != e.nonce {
                assert(s[0].nonce != n);
                assert(spec_find_record(t, n) == spec_find_record(t.drop_first(), n));
                assert(spec_find_record(s, n) == spec_find_record(s.drop_first(), n));
            }
        }
    } else {
        assert(t.drop_first() =~= s.drop_first().update(i - 1, e));
        assert(s.drop_first()[i - 1] == s[i]);
        lemma_record_update(s.drop_first(), i - 1, e);
        assert(s[0].nonce != e.nonce);
        assert forall|n: u64|
            #[trigger] spec_find_record(t, n) == (if n == e.nonce {
                Option::Some(e)
            } else {
                spec_find_record(s, n)
            }) by {
            assert(spec_find_record(s.drop_first().update(i - 1, e), n) == (if n == e.nonce {
                Option::Some(e)
            } else {
                spec_find_record(s.drop_first(), n)
            }));
            assert(spec_find_record(t, n) == (if t[0].nonce == n {
                Option::Some(t[0])
            } else {
                spec_find_record(t.drop_first(), n)
            }));
            assert(spec_find_record(s, n) == (if s[0].nonce == n {
                Option::Some(s[0])
            } else {
                spec_find_record(s.drop_first(), n)
            }));
        }
    }
}

/// Appending a record under a fresh nonce touches no other nonce's
/// lookup.
pub proof fn lemma_record_push(s: Seq<LockRecord>, e: LockRecord)
    requires
        distinct_nonces(s),
        !has_record(s, e.nonce),
    ensures
        distinct_nonces(s.push(e)),
        forall|n: u64|
            #[trigger] spec_find_record(s.push(e), n) == (if n == e.nonce {
                Option::Some(e)
            } else {
                spec_find_record(s, n)
            }),
    decreases s.len(),
{
    let t = s.push(e);
    assert(forall|k: int| 0 <= k < s.len() ==> (#[trigger] t[k]) == s[k]);
    if s.len() == 0 {
        assert(t.drop_first() =~= Seq::<LockRecord>::empty());
        assert forall|n: u64|
            #[trigger] spec_find_record(t, n) == (if n == e.nonce {
                Option::Some(e)
            } else {
                spec_find_record(s, n)
            }) by {
            assert(spec_find_record(Seq::<LockRecord>::empty(), n) is None);
            assert(spec_find_record(t, n) == (if t[0].nonce == n {
                Option::Some(t[0])
            } else {
                spec_find_record(t.drop_first(), n)
            }));
            assert(spec_find_record(s, n) is None);
        }
    } else {
        assert(t.drop_first() =~= s.drop_first().push(e));
        assert(forall|k: int|
            0 <= k < s.drop_first().len() ==> (#[trigger] s.drop_first()[k]) == s[k + 1]);
        assert(!has_record(s.drop_first(), e.nonce));
        lemma_record_push(s.drop_first(), e);
        assert forall|n: u64|
            #[trigger] spec_find_record(t, n) == (if n == e.nonce {
                Option::Some(e)
            } else {
                spec_find_record(s, n)
            }) by {
            assert(spec_find_record(s.drop_first().push(e), n) == (if n == e.nonce {
                Option::Some(e)
            } else {
                spec_find_record(s.drop_first(), n)
            }));
            assert(spec_find_record(t, n) == (if t[0].nonce == n {
                Option::Some(t[0])
            } else {
                spec_find_record(t.drop_first(), n)
            }));
            assert(spec_find_record(s, n) == (if s[0].nonce == n {
                Option::Some(s[0])
            } else {
                spec_find_record(s.drop_first(), n)
            }));
            if n == e.nonce {
                assert(s[0].nonce != n);
            }
        }
    }
}

/// The custody-side contract state: admin, guardian roster, nonce
/// counter, the lock book, and running statistics, owned by one
/// contract identity.
#[derive(Debug)]
pub struct AuroraBridgeContract {
    /// Principal allowed to replace the guardian roster.
    pub admin: [u8; 32],
    /// This contract's identity; messages must name it as destination.
    pub contract_id: [u8; 32],
    /// Authorized guardian public keys.
    pub guardians: Vec<Guardian>,
    /// Required signature quorum.
    pub quorum: u32,
    /// Nonce of the most recent lock; zero before any.
    pub lock_nonce: u64,
    /// All lock transactions, one record per nonce.
    pub records: Vec<LockRecord>,
    /// Running counters.
    pub stats: BridgeStats,
}

impl AuroraBridgeContract {
    /// Well-formedness: a meaningful quorum, and nonces that are
    /// distinct, positive, no later than the counter, with the lock
    /// count equal to the counter.
    pub open spec fn wf(self) -> bool {
        &&& 0 < self.quorum <= self.guardians@.len()
        &&& distinct_nonces(self.records@)
        &&& forall|i: int|
            0 <= i < self.records@.len() ==> 0 < (#[trigger] self.records@[i]).nonce
                <= self.lock_nonce
        &&& self.stats.total_locked == self.lock_nonce
    }
}

/// The exact outcome of a lock.
pub open spec fn spec_lock_result(s: AuroraBridgeContract, amount: i128) -> Result<
    u64,
    BridgeError,
> {
    if amount <= 0 {
        Result::Err(BridgeError::InvalidAmount)
    } else if s.lock_nonce == u64::MAX {
        Result::Err(BridgeError::Overflow)
    } else if s.stats.total_volume + amount > i128::MAX {
        Result::Err(BridgeError::Overflow)
    } else {
        Result::Ok((s.lock_nonce + 1) as u64)
    }
}

/// The exact outcome of a release, the mirror of a mint: the first
/// failing check names the error, and only a quorum-verified message
/// that references an unreleased lock record is applied.
pub open spec fn spec_release_result(s: AuroraBridgeContract, data: Seq<u8>) -> Result<
    (),
    BridgeError,
> {
    match spec_deserialize(data) {
        Option::None => Result::Err(BridgeError::MalformedMessage),
        Option::Some(v) => {
            if !(v.destination_chain == ChainId::Stellar && v.destination_contract
                == s.contract_id@) {
                Result::Err(BridgeError::WrongDestination)
            } else if !spec_quorum_met(v, guardian_keys(s.guardians@), s.quorum as int) {
                Result::Err(BridgeError::VerificationFailed)
            } else {
                match spec_find_record(s.records@, v.nonce) {
                    Option::None => Result::Err(BridgeError::LockNotFound),
                    Option::Some(rec) => {
                        if rec.is_released {
                            Result::Err(BridgeError::AlreadyReleased)
                        } else if s.stats.total_released == u64::MAX {
                            Result::Err(BridgeError::Overflow)
                        } else {
                            Result::Ok(())
                        }
                    },
                }
            }
        },
    }
}

/// Exactly-once release, stated once and for all: when the record
/// under a message's nonce already stands released, no message
/// carrying that nonce can release it again, whatever else it carries.
pub proof fn lemma_release_refused(s: AuroraBridgeContract, data: Seq<u8>)
    requires
        spec_deserialize(data) matches Some(v) && spec_find_record(s.records@, v.nonce)
            matches Some(rec) && rec.is_released,
    ensures
        !(spec_release_result(s, data) is Ok),
{
}

/// The exact outcome of a guardian-roster update on this side.
pub open spec fn spec_update_guardians_result(
    s: AuroraBridgeContract,
    caller: [u8; 32],
    new_guardians: Seq<[u8; 32]>,
    new_quorum: u32,
) -> Result<(), BridgeError> {
    if caller@ != s.admin@ {
        Result::Err(BridgeError::NotOwner)
    } else if !(0 < new_quorum && new_quorum <= new_guardians.len()) {
        Result::Err(BridgeError::InvalidQuorum)
    } else {
        Result::Ok(())
    }
}

/// Find the index of the record under `nonce`, if one exists.
fn find_record(records: &Vec<LockRecord>, nonce: u64) -> (r: Option<usize>)
    ensures
        match r {
            Some(i) => i < records@.len() && records@[i as int].nonce == nonce,
            None => !has_record(records@, nonce),
        },
{
    let mut i: usize = 0;
    while i < records.len()
        invariant
            i <= records@.len(),
            forall|k: int| 0 <= k < i ==> (#[trigger] records@[k]).nonce != nonce,
        decreases records@.len() - i,
    {
        if records[i].nonce == nonce {
            return Some(i);
        }
        i = i + 1;
    }
    None
}

impl AuroraBridgeContract {
    /// Set up the contract with an admin, a guardian roster and
    /// zeroed counters; rejects a quorum outside (0, roster size].
    pub fn initialize(
        admin: [u8; 32],
        contract_id: [u8; 32],
        guardians: Vec<[u8; 32]>,
        quorum: u32,
    ) -> (r: Result<AuroraBridgeContract, BridgeError>)
        ensures
            r is Ok <==> 0 < quorum <= guardians@.len(),
            r matches Err(e) ==> e == BridgeError::InvalidQuorum,
            r matches Ok(c) ==> {
                &&& c.wf()
                &&& c.admin == admin
                &&& c.contract_id == contract_id
                &&& c.quorum == quorum
                &&& guardian_keys(c.guardians@) == keys_view(guardians@)
                &&& c.lock_nonce == 0
                &&& c.records@ == Seq::<LockRecord>::empty()
                &&& c.stats.total_locked == 0
                &&& c.stats.total_released == 0
                &&& c.stats.total_volume == 0
            },
    {
        if quorum == 0 || quorum as usize > guardians.len() {
            return Err(BridgeError::InvalidQuorum);
        }
        let mut roster: Vec<Guardian> = Vec::new();
        let mut i: usize = 0;
        while i < guardians.len()
            invariant
                i <= guardians@.len(),
                roster@.len() == i,
                forall|k: int| 0 <= k < i ==> (#[trigger] roster@[k]).pubkey == guardians@[k],
            decreases guardians@.len() - i,
        {
            roster.push(Guardian { pubkey: guardians[i] });
            i = i + 1;
        }
        let r = AuroraBridgeContract {
            admin,
            contract_id,
            guardians: roster,
            quorum,
            lock_nonce: 0,
            records: Vec::new(),
            stats: BridgeStats { total_locked: 0, total_released: 0, total_volume: 0 },
        };
        proof {
            assert(guardian_keys(r.guardians@) =~= keys_view(guardians@));
            assert(r.records@ =~= Seq::<LockRecord>::empty());
        }
        Ok(r)
    }

    /// The guardian public keys, in roster order.
    pub fn get_guardians(&self) -> (r: Vec<[u8; 32]>)
        ensures
            keys_view(r@) == guardian_keys(self.guardians@),
            r@.len() == self.guardians@.len(),
    {
        let mut out: Vec<[u8; 32]> = Vec::new();
        let mut i: usize = 0;
        while i < self.guardians.len()
            invariant
                i <= self.guardians@.len(),
                out@.len() == i,
                forall|k: int| 0 <= k < i ==> out@[k] == (#[trigger] self.guardians@[k]).pubkey,
            decreases self.guardians@.len() - i,
        {
            out.push(self.guardians[i].pubkey);
            i = i + 1;
        }
        proof {
            assert(keys_view(out@) =~= guardian_keys(self.guardians@));
        }
        out
    }

    /// Lock tokens for a cross-chain transfer: allocate the next
    /// nonce, store the record unreleased, and count the transaction.
    /// Repeating the same arguments allocates a new nonce — locks are
    /// never deduplicated, only release is.
    pub fn lock_tokens(
        &mut self,
        token: [u8; 32],
        amount: i128,
        recipient_chain: u32,
        recipient: [u8; 32],
        sender: [u8; 32],
        timestamp: u64,
    ) -> (r: Result<u64, BridgeError>)
        requires
            old(self).wf(),
        ensures
            final(self).wf(),
            r == spec_lock_result(*old(self), amount),
            final(self).admin == old(self).admin,
            r is Err ==> *final(self) == *old(self),
            r matches Ok(nonce) ==> {
                &&& nonce == old(self).lock_nonce + 1
                &&& final(self).lock_nonce == nonce
                &&& final(self).stats.total_locked == old(self).stats.total_locked + 1
                &&& final(self).stats.total_released == old(self).stats.total_released
                &&& final(self).stats.total_volume == old(self).stats.total_volume + amount
                &&& spec_find_record(final(self).records@, nonce) == Option::Some(
                    LockRecord {
                        nonce,
                        token,
                        amount,
                        sender,
                        recipient_chain,
                        recipient,
                        timestamp,
                        is_released: false,
                    },
                )
                &&& forall|n: u64|
                    n != nonce ==> #[trigger] spec_find_record(final(self).records@, n)
                        == spec_find_record(old(self).records@, n)
            },
    {
        if amount <= 0 {
            return Err(BridgeError::InvalidAmount);
        }
        if self.lock_nonce == u64::MAX {
            return Err(BridgeError::Overflow);
        }
        if self.stats.total_volume > i128::MAX - amount {
            return Err(BridgeError::Overflow);
        }
        let nonce = self.lock_nonce + 1;
        let record = LockRecord {
            nonce,
            token,
            amount,
            sender,
            recipient_chain,
            recipient,
            timestamp,
            is_released: false,
        };
        proof {
            assert(!has_record(self.records@, nonce));
            lemma_record_push(self.records@, record);
        }
        self.records.push(record);
        self.lock_nonce = nonce;
        self.stats = BridgeStats {
            total_locked: self.stats.total_locked + 1,
            total_released: self.stats.total_released,
            total_volume: self.stats.total_volume + amount,
        };
        Ok(nonce)
    }

    /// Release a locked record from a serialized, guardian-signed
    /// message, the mirror of a mint.
    ///
    /// The message must parse, name this contract on this chain, and
    /// meet the quorum under the current roster; its nonce must
    /// reference a stored, not-yet-released lock record.  Then the
    /// record is flagged released, at most once ever; the token
    /// transfer itself belongs to the host chain.
    pub fn release_tokens(&mut self, vaa_bytes: &[u8]) -> (r: Result<(), BridgeError>)
        requires
            old(self).wf(),
        ensures
            final(self).wf(),
            r == spec_release_result(*old(self), vaa_bytes@),
            final(self).admin == old(self).admin,
            final(self).contract_id == old(self).contract_id,
            final(self).guardians == old(self).guardians,
            final(self).quorum == old(self).quorum,
            final(self).lock_nonce == old(self).lock_nonce,
            r is Err ==> *final(self) == *old(self),
            r is Ok ==> {
                let v = spec_deserialize(vaa_bytes@)->Some_0;
                let rec = spec_find_record(old(self).records@, v.nonce)->Some_0;
                &&& spec_find_record(final(self).records@, v.nonce) == Option::Some(
                    LockRecord { is_released: true, ..rec },
                )
                &&& forall|n: u64|
                    n != v.nonce ==> #[trigger] spec_find_record(final(self).records@, n)
                        == spec_find_record(old(self).records@, n)
                &&& final(self).stats.total_released == old(self).stats.total_released + 1
                &&& final(self).stats.total_locked == old(self).stats.total_locked
                &&& final(self).stats.total_volume == old(self).stats.total_volume
            },
    {
        let vaa = match VAA::from_bytes(vaa_bytes) {
            Ok(v) => v,
            Err(e) => {
                return Err(e);
            },
        };
        let right_chain = match vaa.destination_chain {
            ChainId::Stellar => true,
            ChainId::Near => false,
        };
        if !right_chain || !bytes32_eq(&vaa.destination_contract, &self.contract_id) {
            return Err(BridgeError::WrongDestination);
        }
        let roster = self.get_guardians();
        let quorum = self.quorum as usize;
        if !vaa.verify_signatures(roster.as_slice(), quorum) {
            proof {
                assert(keys_view(roster@) == guardian_keys(self.guardians@));
            }
            return Err(BridgeError::VerificationFailed);
        }
        let nonce = vaa.nonce;
        let ghost records0 = self.records@;
        let i = match find_record(&self.records, nonce) {
            Some(i) => i,
            None => {
                proof {
                    lemma_record_absent(self.records@, nonce);
                }
                return Err(BridgeError::LockNotFound);
            },
        };
        proof {
            lemma_record_found(records0, i as int, nonce);
        }
        if self.records[i].is_released {
            return Err(BridgeError::AlreadyReleased);
        }
        if self.stats.total_released == u64::MAX {
            return Err(BridgeError::Overflow);
        }
        let old_record = self.records[i];
        let released = LockRecord { is_released: true, ..old_record };
        proof {
            lemma_record_update(records0, i as int, released);
        }
        self.records[i] = released;
        self.stats = BridgeStats {
            total_locked: self.stats.total_locked,
            total_released: self.stats.total_released + 1,
            total_volume: self.stats.total_volume,
        };
        proof {
            assert(self.records@ =~= records0.update(i as int, released));
        }
        Ok(())
    }

    /// Replace the guardian roster and the quorum atomically; only
    /// the admin may, and only with a quorum in (0, new roster size].
    pub fn update_guardians(
        &mut self,
        caller: [u8; 32],
        new_guardians: Vec<[u8; 32]>,
        new_quorum: u32,
    ) -> (r: Result<(), BridgeError>)
        requires
            old(self).wf(),
        ensures
            final(self).wf(),
            r == spec_update_guardians_result(*old(self), caller, new_guardians@, new_quorum),
            final(self).admin == old(self).admin,
            final(self).contract_id == old(self).contract_id,
            final(self).lock_nonce == old(self).lock_nonce,
            final(self).records == old(self).records,
            final(self).stats == old(self).stats,
            r is Err ==> *final(self) == *old(self),
            r is Ok ==> {
                &&& guardian_keys(final(self).guardians@) == keys_view(new_guardians@)
                &&& final(self).quorum == new_quorum
            },
    {
        if !bytes32_eq(&caller, &self.admin) {
            return Err(BridgeError::NotOwner);
        }
        if new_quorum == 0 || new_quorum as usize > new_guardians.len() {
            return Err(BridgeError::InvalidQuorum);
        }
        let mut roster: Vec<Guardian> = Vec::new();
        let mut i: usize = 0;
        while i < new_guardians.len()
            invariant
                i <= new_guardians@.len(),
                roster@.len() == i,
                forall|k: int| 0 <= k < i ==> (#[trigger] roster@[k]).pubkey == new_guardians@[k],
            decreases new_guardians@.len() - i,
        {
            roster.push(Guardian { pubkey: new_guardians[i] });
            i = i + 1;
        }
        self.guardians = roster;
        self.quorum = new_quorum;
        proof {
            assert(guardian_keys(self.guardians@) =~= keys_view(new_guardians@));
        }
        Ok(())
    }

    /// The record stored under `nonce`, or a zeroed record when none
    /// is.
    pub fn view_lock_record(&self, nonce: u64) -> (r: LockRecord)
        requires
            self.wf(),
        ensures
            has_record(self.records@, nonce) ==> Option::Some(r) == spec_find_record(
                self.records@,
                nonce,
            ),
            !has_record(self.records@, nonce) ==> {
                &&& r.nonce == 0
                &&& r.amount == 0
                &&& r.recipient_chain == 0
                &&& r.timestamp == 0
                &&& !r.is_released
                &&& r.token@ == Seq::new(32, |k: int| 0u8)
                &&& r.sender@ == Seq::new(32, |k: int| 0u8)
                &&& r.recipient@ == Seq::new(32, |k: int| 0u8)
            },
    {
        match find_record(&self.records, nonce) {
            Some(i) => {
                proof {
                    lemma_record_found(self.records@, i as int, nonce);
                }
                self.records[i]
            },
            None => {
                let zero = [0u8; 32];
                proof {
                    assert(zero@ =~= Seq::new(32, |k: int| 0u8));
                }
                LockRecord {
                    nonce: 0,
                    token: zero,
                    amount: 0,
                    sender: zero,
                    recipient_chain: 0,
                    recipient: zero,
                    timestamp: 0,
                    is_released: false,
                }
            },
        }
    }

    /// The running statistics.
    pub fn view_bridge_stats(&self) -> (r: BridgeStats)
        ensures
            r == self.stats,
    {
        self.stats
    }
}

} // verus!
