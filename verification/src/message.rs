//! The canonical cross-chain message and its deterministic digest.
//!
//! The digest covers every field except the signature list, in a fixed
//! order, so independently built messages with equal payloads hash
//! identically and guardians can sign without coordination.

use crate::bytesops::{
    push_bytes, spec_u128_to_be_bytes, spec_u64_to_be_bytes, u128_to_be_bytes, u64_to_be_bytes,
};
use crate::crypto::{sha256_digest, sha256_of};
use vstd::prelude::*;

verus! {

/// Tag of one of the two ledgers taking part in a transfer.
#[derive(Debug, Clone, Copy, PartialEq, Eq, Structural)]
pub enum ChainId {
    Stellar,
    Near,
}

/// The wire byte standing for a chain tag.
pub open spec fn spec_chain_byte(c: ChainId) -> u8 {
    match c {
        ChainId::Stellar => 1u8,
        ChainId::Near => 2u8,
    }
}

/// The chain tag a wire byte stands for, if any.
pub open spec fn spec_chain_of_byte(b: u8) -> Option<ChainId> {
    if b == 1 {
        Some(ChainId::Stellar)
    } else if b == 2 {
        Some(ChainId::Near)
    } else {
        None
    }
}

/// Encode a chain tag as its wire byte.
pub fn chain_byte(c: ChainId) -> (r: u8)
    ensures
        r == spec_chain_byte(c),
{
    match c {
        ChainId::Stellar => 1,
        ChainId::Near => 2,
    }
}

/// Decode a wire byte into a chain tag.
pub fn chain_of_byte(b: u8) -> (r: Option<ChainId>)
    ensures
        r == spec_chain_of_byte(b),
{
    if b == 1 {
        Some(ChainId::Stellar)
    } else if b == 2 {
        Some(ChainId::Near)
    } else {
        None
    }
}

/// One guardian's attestation: its public key and its signature over
/// the message digest.  It lives only inside the message it signs.
#[derive(Debug, Clone)]
pub struct Signature {
    /// Guardian public key (Ed25519, 32 bytes).
    pub guardian_pubkey: [u8; 32],
    /// Signature over the digest (Ed25519, 64 bytes).
    pub signature: [u8; 64],
}

/// The mathematical value of one attached signature.
#[verifier::ext_equal]
pub ghost struct SigView {
    pub guardian_pubkey: Seq<u8>,
    pub signature: Seq<u8>,
}

impl SigView {
    /// Key and signature have their fixed widths.
    pub open spec fn wf(self) -> bool {
        self.guardian_pubkey.len() == 32 && self.signature.len() == 64
    }
}

impl View for Signature {
    type V = SigView;

    open spec fn view(&self) -> SigView {
        SigView { guardian_pubkey: self.guardian_pubkey@, signature: self.signature@ }
    }
}

/// The cross-chain message: a versioned record of one lock or burn
/// event, plus the guardian signatures gathered over its digest.
#[derive(Debug, Clone)]
pub struct VAA {
    /// Version of the message format.
    pub version: u8,
    /// Chain where the lock or burn event happened.
    pub origin_chain: ChainId,
    /// Origin contract identifier (32 bytes, zero-padded if shorter).
    pub origin_contract: [u8; 32],
    /// Chain where tokens will be minted or released.
    pub destination_chain: ChainId,
    /// Destination contract identifier.
    pub destination_contract: [u8; 32],
    /// Asset identifier (hash or address).
    pub asset_id: [u8; 32],
    /// Amount to transfer; no implicit rescaling.
    pub amount: u128,
    /// Recipient address on the destination chain.
    pub recipient: [u8; 32],
    /// Nonce for replay protection, unique per origin event.
    pub nonce: u64,
    /// Time of the origin event (unix epoch seconds).
    pub timestamp: u64,
    /// Guardian signatures gathered so far, in arrival order.
    pub signatures: Vec<Signature>,
}

/// The mathematical value of a message.
#[verifier::ext_equal]
pub ghost struct VaaView {
    pub version: u8,
    pub origin_chain: ChainId,
    pub origin_contract: Seq<u8>,
    pub destination_chain: ChainId,
    pub destination_contract: Seq<u8>,
    pub asset_id: Seq<u8>,
    pub amount: u128,
    pub recipient: Seq<u8>,
    pub nonce: u64,
    pub timestamp: u64,
    pub signatures: Seq<SigView>,
}

impl VaaView {
    /// Every fixed-width field has its width.
    pub open spec fn wf(self) -> bool {
        &&& self.origin_contract.len() == 32
        &&& self.destination_contract.len() == 32
        &&& self.asset_id.len() == 32
        &&& self.recipient.len() == 32
        &&& forall|i: int| 0 <= i < self.signatures.len() ==> (#[trigger] self.signatures[i]).wf()
    }

    /// The same message with another signature list.
    pub open spec fn with_signatures(self, sigs: Seq<SigView>) -> VaaView {
        VaaView { signatures: sigs, ..self }
    }
}

impl View for VAA {
    type V = VaaView;

    open spec fn view(&self) -> VaaView {
        VaaView {
            version: self.version,
            origin_chain: self.origin_chain,
            origin_contract: self.origin_contract@,
            destination_chain: self.destination_chain,
            destination_contract: self.destination_contract@,
            asset_id: self.asset_id@,
            amount: self.amount,
            recipient: self.recipient@,
            nonce: self.nonce,
            timestamp: self.timestamp,
            signatures: Seq::new(
                self.signatures@.len(),
                |i: int| self.signatures@[i]@,
            ),
        }
    }
}

/// The bytes the digest is computed over: every field except the
/// signature list, concatenated in a fixed order, integers big-endian.
pub open spec fn spec_preimage(v: VaaView) -> Seq<u8> {
    seq![v.version] + seq![spec_chain_byte(v.origin_chain)] + v.origin_contract + seq![
        spec_chain_byte(v.destination_chain),
    ] + v.destination_contract + v.asset_id + spec_u128_to_be_bytes(v.amount) + v.recipient
        + spec_u64_to_be_bytes(v.nonce) + spec_u64_to_be_bytes(v.timestamp)
}

/// The digest guardians sign: SHA-256 of the payload bytes.
pub open spec fn spec_digest(v: VaaView) -> Seq<u8> {
    sha256_of(spec_preimage(v))
}

/// The digest reads the payload alone: two messages that agree on every
/// field but the signature list have equal digests.  Together with the
/// contract of `VAA::digest` this also makes repeated digest
/// computations of one message agree.
pub proof fn lemma_digest_ignores_signatures(a: VaaView, b: VaaView)
    requires
        b == a.with_signatures(b.signatures),
    ensures
        spec_digest(a) == spec_digest(b),
{
    assert(spec_preimage(a) == spec_preimage(b));
}

impl VAA {
    /// A message is well formed as a value; its fixed-width fields are
    /// arrays, so this always holds.
    pub proof fn lemma_wf(&self)
        ensures
            self@.wf(),
    {
    }

    /// Build an unsigned message at the current protocol revision.
    #[allow(clippy::too_many_arguments)]
    pub fn new(
        origin_chain: ChainId,
        origin_contract: [u8; 32],
        destination_chain: ChainId,
        destination_contract: [u8; 32],
        asset_id: [u8; 32],
        amount: u128,
        recipient: [u8; 32],
        nonce: u64,
        timestamp: u64,
    ) -> (r: VAA)
        ensures
            r@ == (VaaView {
                version: 1u8,
                origin_chain,
                origin_contract: origin_contract@,
                destination_chain,
                destination_contract: destination_contract@,
                asset_id: asset_id@,
                amount,
                recipient: recipient@,
                nonce,
                timestamp,
                signatures: Seq::<SigView>::empty(),
            }),
    {
        let r = VAA {
            version: 1,
            origin_chain,
            origin_contract,
            destination_chain,
            destination_contract,
            asset_id,
            amount,
            recipient,
            nonce,
            timestamp,
            signatures: Vec::new(),
        };
        proof {
            assert(r@.signatures =~= Seq::<SigView>::empty());
            assert(r@ =~= (VaaView {
                version: 1u8,
                origin_chain,
                origin_contract: origin_contract@,
                destination_chain,
                destination_contract: destination_contract@,
                asset_id: asset_id@,
                amount,
                recipient: recipient@,
                nonce,
                timestamp,
                signatures: Seq::<SigView>::empty(),
            }));
        }
        r
    }

    /// The payload bytes the digest is computed over; the wire
    /// encoding starts with the same bytes.
    pub(crate) fn payload_bytes(&self) -> (r: Vec<u8>)
        ensures
            r@ == spec_preimage(self@),
    {
        let mut buf: Vec<u8> = Vec::new();
        buf.push(self.version);
        buf.push(chain_byte(self.origin_chain));
        push_bytes(&mut buf, &self.origin_contract);
        buf.push(chain_byte(self.destination_chain));
        push_bytes(&mut buf, &self.destination_contract);
        push_bytes(&mut buf, &self.asset_id);
        let amount_bytes = u128_to_be_bytes(self.amount);
        push_bytes(&mut buf, amount_bytes.as_slice());
        push_bytes(&mut buf, &self.recipient);
        let nonce_bytes = u64_to_be_bytes(self.nonce);
        push_bytes(&mut buf, nonce_bytes.as_slice());
        let ts_bytes = u64_to_be_bytes(self.timestamp);
        push_bytes(&mut buf, ts_bytes.as_slice());
        proof {
            assert(buf@ =~= spec_preimage(self@));
        }
        buf
    }

    /// Compute the digest that guardians sign.
    pub fn digest(&self) -> (r: [u8; 32])
        ensures
            r@ == spec_digest(self@),
    {
        let buf = self.payload_bytes();
        sha256_digest(buf.as_slice())
    }

    /// Append one guardian signature; no de-duplication happens here —
    /// duplicates are filtered during verification.
    pub fn add_signature(&mut self, guardian_pubkey: [u8; 32], signature: [u8; 64])
        ensures
            final(self)@ == old(self)@.with_signatures(
                old(self)@.signatures.push(
                    SigView { guardian_pubkey: guardian_pubkey@, signature: signature@ },
                ),
            ),
    {
        self.signatures.push(Signature { guardian_pubkey, signature });
        proof {
            assert(self@.signatures =~= old(self)@.signatures.push(
                SigView { guardian_pubkey: guardian_pubkey@, signature: signature@ },
            ));
            assert(self@ =~= old(self)@.with_signatures(
                old(self)@.signatures.push(
                    SigView { guardian_pubkey: guardian_pubkey@, signature: signature@ },
                ),
            ));
        }
    }
}

} // verus!
