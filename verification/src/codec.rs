//! Wire encoding of messages, lossless in both directions.
//!
//! The layout is the digest payload (163 bytes, fixed field order),
//! then the signature count as 8 big-endian bytes, then 96 bytes per
//! signature (32-byte key, 64-byte signature).

use crate::bytesops::{
    copy_range, copy_range32, copy_range64, push_bytes, spec_u128_from_be_bytes,
    spec_u128_to_be_bytes, spec_u64_from_be_bytes, spec_u64_to_be_bytes, u128_from_be_bytes,
    u64_from_be_bytes, u64_to_be_bytes, lemma_u128_be_bytes, lemma_u64_be_bytes,
};
use crate::message::{
    spec_chain_of_byte, spec_preimage, chain_of_byte, SigView, Signature, VaaView, VAA,
};
use crate::BridgeError;
use vstd::prelude::*;

verus! {

/// The bytes of a signature list: 96 bytes per entry, in order.
pub open spec fn spec_sigs_bytes(sigs: Seq<SigView>) -> Seq<u8>
    decreases sigs.len(),
{
    if sigs.len() == 0 {
        Seq::empty()
    } else {
        spec_sigs_bytes(sigs.drop_last()) + sigs.last().guardian_pubkey + sigs.last().signature
    }
}

/// A well-formed signature list serializes to 96 bytes per entry.
pub proof fn lemma_sigs_bytes_len(sigs: Seq<SigView>)
    requires
        forall|i: int| 0 <= i < sigs.len() ==> (#[trigger] sigs[i]).wf(),
    ensures
        spec_sigs_bytes(sigs).len() == 96 * sigs.len(),
    decreases sigs.len(),
{
    if sigs.len() > 0 {
        lemma_sigs_bytes_len(sigs.drop_last());
    }
}

/// Each serialized signature sits at its fixed offset.
pub proof fn lemma_sigs_bytes_index(sigs: Seq<SigView>, i: int)
    requires
        forall|k: int| 0 <= k < sigs.len() ==> (#[trigger] sigs[k]).wf(),
        0 <= i < sigs.len(),
    ensures
        spec_sigs_bytes(sigs).subrange(96 * i, 96 * i + 32) == sigs[i].guardian_pubkey,
        spec_sigs_bytes(sigs).subrange(96 * i + 32, 96 * i + 96) == sigs[i].signature,
    decreases sigs.len(),
{
    lemma_sigs_bytes_len(sigs);
    lemma_sigs_bytes_len(sigs.drop_last());
    if i == sigs.len() - 1 {
        assert(spec_sigs_bytes(sigs).subrange(96 * i, 96 * i + 32) =~= sigs[i].guardian_pubkey);
        assert(spec_sigs_bytes(sigs).subrange(96 * i + 32, 96 * i + 96) =~= sigs[i].signature);
    } else {
        lemma_sigs_bytes_index(sigs.drop_last(), i);
        assert(spec_sigs_bytes(sigs).subrange(96 * i, 96 * i + 32) =~= spec_sigs_bytes(
            sigs.drop_last(),
        ).subrange(96 * i, 96 * i + 32));
        assert(spec_sigs_bytes(sigs).subrange(96 * i + 32, 96 * i + 96) =~= spec_sigs_bytes(
            sigs.drop_last(),
        ).subrange(96 * i + 32, 96 * i + 96));
    }
}

/// The full wire encoding of a message.
pub open spec fn spec_serialize(v: VaaView) -> Seq<u8> {
    spec_preimage(v) + spec_u64_to_be_bytes(v.signatures.len() as u64) + spec_sigs_bytes(
        v.signatures,
    )
}

/// The message a byte string encodes, or `None` where it is malformed:
/// too short, an unknown chain byte, or a length that does not match
/// the announced signature count.
pub open spec fn spec_deserialize(data: Seq<u8>) -> Option<VaaView> {
    if data.len() < 171 {
        None
    } else {
        match (spec_chain_of_byte(data[1]), spec_chain_of_byte(data[34])) {
            (Some(origin_chain), Some(destination_chain)) => {
                let n = spec_u64_from_be_bytes(data.subrange(163, 171)) as int;
                if data.len() != 171 + 96 * n {
                    None
                } else {
                    Some(
                        VaaView {
                            version: data[0],
                            origin_chain,
                            origin_contract: data.subrange(2, 34),
                            destination_chain,
                            destination_contract: data.subrange(35, 67),
                            asset_id: data.subrange(67, 99),
                            amount: spec_u128_from_be_bytes(data.subrange(99, 115)),
                            recipient: data.subrange(115, 147),
                            nonce: spec_u64_from_be_bytes(data.subrange(147, 155)),
                            timestamp: spec_u64_from_be_bytes(data.subrange(155, 163)),
                            signatures: Seq::new(
                                n as nat,
                                |i: int|
                                    SigView {
                                        guardian_pubkey: data.subrange(
                                            171 + 96 * i,
                                            171 + 96 * i + 32,
                                        ),
                                        signature: data.subrange(
                                            171 + 96 * i + 32,
                                            171 + 96 * i + 96,
                                        ),
                                    },
                            ),
                        },
                    )
                }
            },
            _ => None,
        }
    }
}

/// The payload of a well-formed message is 163 bytes long.
pub proof fn lemma_preimage_len(v: VaaView)
    requires
        v.wf(),
    ensures
        spec_preimage(v).len() == 163,
{
    lemma_u128_be_bytes(v.amount);
    lemma_u64_be_bytes(v.nonce);
    lemma_u64_be_bytes(v.timestamp);
}

/// Decoding inverts encoding: a well-formed message read back from its
/// own wire bytes is the same message, signature list included.
pub proof fn lemma_codec_roundtrip(v: VaaView)
    requires
        v.wf(),
        v.signatures.len() <= u64::MAX,
    ensures
        spec_deserialize(spec_serialize(v)) == Some(v),
{
    let data = spec_serialize(v);
    let pre = spec_preimage(v);
    let cnt = spec_u64_to_be_bytes(v.signatures.len() as u64);
    let body = spec_sigs_bytes(v.signatures);
    let n = v.signatures.len() as int;
    lemma_preimage_len(v);
    lemma_u64_be_bytes(v.signatures.len() as u64);
    lemma_u128_be_bytes(v.amount);
    lemma_u64_be_bytes(v.nonce);
    lemma_u64_be_bytes(v.timestamp);
    lemma_sigs_bytes_len(v.signatures);
    assert(data.len() == 171 + 96 * n);

    assert(data.subrange(163, 171) =~= cnt);
    assert(spec_u64_from_be_bytes(data.subrange(163, 171)) as int == n);

    assert(data[0] == v.version);
    assert(data[1] == crate::message::spec_chain_byte(v.origin_chain));
    assert(data[34] == crate::message::spec_chain_byte(v.destination_chain));
    assert(spec_chain_of_byte(data[1]) == Some(v.origin_chain));
    assert(spec_chain_of_byte(data[34]) == Some(v.destination_chain));

    assert(data.subrange(2, 34) =~= v.origin_contract);
    assert(data.subrange(35, 67) =~= v.destination_contract);
    assert(data.subrange(67, 99) =~= v.asset_id);
    assert(data.subrange(99, 115) =~= spec_u128_to_be_bytes(v.amount));
    assert(data.subrange(115, 147) =~= v.recipient);
    assert(data.subrange(147, 155) =~= spec_u64_to_be_bytes(v.nonce));
    assert(data.subrange(155, 163) =~= spec_u64_to_be_bytes(v.timestamp));

    let got = spec_deserialize(data)->Some_0;
    assert forall|i: int| 0 <= i < n implies got.signatures[i] == v.signatures[i] by {
        lemma_sigs_bytes_index(v.signatures, i);
        assert(data.subrange(171 + 96 * i, 171 + 96 * i + 32) =~= body.subrange(
            96 * i,
            96 * i + 32,
        ));
        assert(data.subrange(171 + 96 * i + 32, 171 + 96 * i + 96) =~= body.subrange(
            96 * i + 32,
            96 * i + 96,
        ));
        assert(got.signatures[i] =~= v.signatures[i]);
    }
    assert(got.signatures =~= v.signatures);
    assert(got =~= v);
}

impl VAA {
    /// Serialize the message, signatures included, losslessly.
    pub fn to_bytes(&self) -> (r: Vec<u8>)
        ensures
            r@ == spec_serialize(self@),
            spec_deserialize(r@) == Some(self@),
    {
        let mut buf = self.payload_bytes();
        let n = self.signatures.len();
        let cnt = u64_to_be_bytes(n as u64);
        push_bytes(&mut buf, cnt.as_slice());
        let mut i: usize = 0;
        while i < n
            invariant
                i <= n,
                n == self.signatures@.len(),
                buf@ == spec_preimage(self@) + spec_u64_to_be_bytes(n as u64) + spec_sigs_bytes(
                    self@.signatures.take(i as int),
                ),
            decreases n - i,
        {
            push_bytes(&mut buf, &self.signatures[i].guardian_pubkey);
            push_bytes(&mut buf, &self.signatures[i].signature);
            proof {
                let taken = self@.signatures.take(i + 1);
                assert(taken.drop_last() =~= self@.signatures.take(i as int));
                assert(taken.last() == self@.signatures[i as int]);
                assert(buf@ =~= spec_preimage(self@) + spec_u64_to_be_bytes(n as u64)
                    + spec_sigs_bytes(taken));
            }
            i = i + 1;
        }
        proof {
            assert(self@.signatures.take(n as int) =~= self@.signatures);
            self.lemma_wf();
            lemma_codec_roundtrip(self@);
        }
        buf
    }

    /// Deserialize a message from its wire bytes; rejects exactly the
    /// byte strings that encode no message.
    pub fn from_bytes(data: &[u8]) -> (r: Result<VAA, BridgeError>)
        ensures
            r matches Ok(v) ==> spec_deserialize(data@) == Some(v@),
            r matches Err(e) ==> spec_deserialize(data@) is None && e
                == BridgeError::MalformedMessage,
    {
        let dlen = data.len();
        if dlen < 171 {
            return Err(BridgeError::MalformedMessage);
        }
        let version = data[0];
        let origin_chain = match chain_of_byte(data[1]) {
            Some(c) => c,
            None => {
                return Err(BridgeError::MalformedMessage);
            },
        };
        let destination_chain = match chain_of_byte(data[34]) {
            Some(c) => c,
            None => {
                return Err(BridgeError::MalformedMessage);
            },
        };
        let cnt_bytes = copy_range(data, 163, 8);
        let n64 = u64_from_be_bytes(cnt_bytes.as_slice());
        let spare = dlen - 171;
        if spare % 96 != 0 || (spare / 96) as u64 != n64 {
            proof {
                assert(data@.len() != 171 + 96 * (n64 as int));
            }
            return Err(BridgeError::MalformedMessage);
        }
        let n = spare / 96;
        proof {
            assert(dlen == 171 + 96 * (n64 as int));
        }
        let origin_contract = copy_range32(data, 2);
        let destination_contract = copy_range32(data, 35);
        let asset_id = copy_range32(data, 67);
        let amount_bytes = copy_range(data, 99, 16);
        let amount = u128_from_be_bytes(amount_bytes.as_slice());
        let recipient = copy_range32(data, 115);
        let nonce_bytes = copy_range(data, 147, 8);
        let nonce = u64_from_be_bytes(nonce_bytes.as_slice());
        let ts_bytes = copy_range(data, 155, 8);
        let timestamp = u64_from_be_bytes(ts_bytes.as_slice());
        let mut signatures: Vec<Signature> = Vec::new();
        let mut i: usize = 0;
        while i < n
            invariant
                i <= n,
                dlen == data@.len(),
                n == (data@.len() - 171) / 96,
                data@.len() == 171 + 96 * (n as int),
                signatures@.len() == i,
                forall|k: int|
                    0 <= k < i ==> (#[trigger] signatures@[k])@.guardian_pubkey == data@.subrange(
                        171 + 96 * k,
                        171 + 96 * k + 32,
                    ),
                forall|k: int|
                    0 <= k < i ==> (#[trigger] signatures@[k])@.signature == data@.subrange(
                        171 + 96 * k + 32,
                        171 + 96 * k + 96,
                    ),
            decreases n - i,
        {
            proof {
                assert(96 * (i as int) + 96 <= 96 * (n as int));
            }
            let off = 171 + 96 * i;
            let guardian_pubkey = copy_range32(data, off);
            let signature = copy_range64(data, off + 32);
            signatures.push(Signature { guardian_pubkey, signature });
            i = i + 1;
        }
        let v = VAA {
            version,
            origin_chain,
            origin_contract,
            destination_chain,
            destination_contract,
            asset_id,
            amount,
            recipient,
            nonce,
            timestamp,
            signatures,
        };
        proof {
            let expected = spec_deserialize(data@)->Some_0;
            assert(v@.signatures =~= expected.signatures);
            assert(v@ =~= expected);
        }
        Ok(v)
    }
}

} // verus!
