//! The relay orchestrator's decisions: turning an observed lock or
//! burn event into a signed cross-chain message.
//!
//! The polling loop itself, the clocks and the network clients stay
//! with the host program; everything here is a function from plain
//! event values to the message that must be submitted.

use crate::bytesops::{copy_range32, pad32, spec_pad32};
use crate::crypto::{
    ed25519_derive_public, ed25519_public_key, ed25519_sign, ed25519_signature, ed25519_valid,
};
use crate::hexutil::{hex_decode, is_valid_hex, spec_hex_decode};
use crate::message::{spec_digest, ChainId, SigView, VaaView, VAA};
use crate::BridgeError;
use vstd::prelude::*;

verus! {

/// The UTF-8 bytes of a string value; hexadecimal decoding of
/// configured addresses reads these.
pub open spec fn spec_str_bytes(s: Seq<char>) -> Seq<u8> {
    vstd::utf8::encode_utf8(s)
}

/// Startup configuration of one relayer process.
#[derive(Debug, Clone)]
pub struct Config {
    /// Stellar Horizon API URL.
    pub stellar_horizon_url: String,
    /// Stellar bridge contract address (hex).
    pub stellar_bridge_contract: String,
    /// NEAR RPC URL.
    pub near_rpc_url: String,
    /// NEAR bridge contract address (hex).
    pub near_bridge_contract: String,
    /// Guardian private key (hex-encoded Ed25519 seed).
    pub guardian_private_key: String,
    /// Poll interval in seconds.
    pub poll_interval_secs: u64,
}

/// One lock or burn event observed on a chain, already validated into
/// plain values at the boundary.
#[derive(Debug, Clone)]
pub struct LockEvent {
    pub event_type: String,
    pub asset: String,
    pub amount: u128,
    pub sender: String,
    pub recipient_chain: u8,
    pub recipient: [u8; 32],
    pub nonce: u64,
    pub timestamp: u64,
}

/// One guardian's relay state: the configuration and the signing seed
/// decoded from it.
#[derive(Debug)]
pub struct Relayer {
    /// The configuration the relayer was started with.
    pub config: Config,
    /// The guardian's Ed25519 seed, decoded from the configuration.
    pub guardian_seed: [u8; 32],
}

/// The unsigned message a Stellar lock event turns into: origin
/// Stellar, destination NEAR, both contract addresses hex-decoded and
/// zero-padded to 32 bytes; an asset field that is not valid hex
/// becomes the all-zero identifier.
pub open spec fn spec_stellar_lock_vaa(rel: Relayer, event: LockEvent) -> VaaView {
    VaaView {
        version: 1u8,
        origin_chain: ChainId::Stellar,
        origin_contract: spec_pad32(
            spec_hex_decode(spec_str_bytes(rel.config.stellar_bridge_contract@)),
        ),
        destination_chain: ChainId::Near,
        destination_contract: spec_pad32(
            spec_hex_decode(spec_str_bytes(rel.config.near_bridge_contract@)),
        ),
        asset_id: spec_pad32(
            if is_valid_hex(spec_str_bytes(event.asset@)) {
                spec_hex_decode(spec_str_bytes(event.asset@))
            } else {
                Seq::<u8>::empty()
            },
        ),
        amount: event.amount,
        recipient: event.recipient@,
        nonce: event.nonce,
        timestamp: event.timestamp,
        signatures: Seq::<SigView>::empty(),
    }
}

/// The unsigned message a NEAR burn event turns into: the reverse
/// direction, with the asset name carried as its UTF-8 bytes and the
/// submission time taken from the caller.
pub open spec fn spec_near_burn_vaa(rel: Relayer, event: LockEvent, timestamp: u64) -> VaaView {
    VaaView {
        version: 1u8,
        origin_chain: ChainId::Near,
        origin_contract: spec_pad32(
            spec_hex_decode(spec_str_bytes(rel.config.near_bridge_contract@)),
        ),
        destination_chain: ChainId::Stellar,
        destination_contract: spec_pad32(
            spec_hex_decode(spec_str_bytes(rel.config.stellar_bridge_contract@)),
        ),
        asset_id: spec_pad32(spec_str_bytes(event.asset@)),
        amount: event.amount,
        recipient: event.recipient@,
        nonce: event.nonce,
        timestamp,
        signatures: Seq::<SigView>::empty(),
    }
}

/// The one signature this guardian adds to a message: its public key
/// and its deterministic signature over the message digest.
pub open spec fn spec_guardian_signature(seed: Seq<u8>, unsigned: VaaView) -> SigView {
    SigView {
        guardian_pubkey: ed25519_public_key(seed),
        signature: ed25519_signature(seed, spec_digest(unsigned)),
    }
}

impl Relayer {
    /// Decode the guardian key and take up the configuration; rejects
    /// a key that is not valid hex or not exactly 32 bytes.
    pub fn new(config: Config) -> (r: Result<Relayer, BridgeError>)
        ensures
            r is Ok <==> is_valid_hex(spec_str_bytes(config.guardian_private_key@))
                && spec_hex_decode(spec_str_bytes(config.guardian_private_key@)).len() == 32,
            r matches Ok(rel) ==> {
                &&& rel.config == config
                &&& rel.guardian_seed@ == spec_hex_decode(
                    spec_str_bytes(config.guardian_private_key@),
                )
            },
            r matches Err(e) ==> (e == BridgeError::InvalidHex && !is_valid_hex(
                spec_str_bytes(config.guardian_private_key@),
            )) || (e == BridgeError::InvalidKeyLength && is_valid_hex(
                spec_str_bytes(config.guardian_private_key@),
            ) && spec_hex_decode(spec_str_bytes(config.guardian_private_key@)).len() != 32),
    {
        let key_bytes = match hex_decode(config.guardian_private_key.as_str()) {
            Ok(v) => v,
            Err(e) => {
                return Err(e);
            },
        };
        if key_bytes.len() != 32 {
            return Err(BridgeError::InvalidKeyLength);
        }
        let guardian_seed = copy_range32(key_bytes.as_slice(), 0);
        proof {
            assert(guardian_seed@ =~= key_bytes@);
        }
        Ok(Relayer { config, guardian_seed })
    }

    /// Turn an observed Stellar lock event into a message signed by
    /// this guardian, bound for the NEAR side.
    pub fn create_vaa_from_stellar_lock(&self, event: &LockEvent) -> (r: Result<VAA, BridgeError>)
        ensures
            r is Ok <==> is_valid_hex(spec_str_bytes(self.config.stellar_bridge_contract@))
                && is_valid_hex(spec_str_bytes(self.config.near_bridge_contract@)),
            r matches Err(e) ==> e == BridgeError::InvalidHex,
            r matches Ok(v) ==> {
                let unsigned = spec_stellar_lock_vaa(*self, *event);
                &&& v@ == unsigned.with_signatures(
                    seq![spec_guardian_signature(self.guardian_seed@, unsigned)],
                )
                &&& spec_digest(v@) == spec_digest(unsigned)
                &&& ed25519_valid(
                    ed25519_public_key(self.guardian_seed@),
                    spec_digest(v@),
                    ed25519_signature(self.guardian_seed@, spec_digest(unsigned)),
                )
            },
    {
        let origin_contract = match hex_decode(self.config.stellar_bridge_contract.as_str()) {
            Ok(v) => v,
            Err(e) => {
                return Err(e);
            },
        };
        let destination_contract = match hex_decode(self.config.near_bridge_contract.as_str()) {
            Ok(v) => v,
            Err(e) => {
                return Err(e);
            },
        };
        let asset_bytes = match hex_decode(event.asset.as_str()) {
            Ok(v) => v,
            Err(_) => Vec::new(),
        };
        proof {
            assert(asset_bytes@ =~= (if is_valid_hex(spec_str_bytes(event.asset@)) {
                spec_hex_decode(spec_str_bytes(event.asset@))
            } else {
                Seq::<u8>::empty()
            }));
        }
        let origin = pad32(origin_contract.as_slice());
        let destination = pad32(destination_contract.as_slice());
        let asset_id = pad32(asset_bytes.as_slice());
        let mut vaa = VAA::new(
            ChainId::Stellar,
            origin,
            ChainId::Near,
            destination,
            asset_id,
            event.amount,
            event.recipient,
            event.nonce,
            event.timestamp,
        );
        let ghost unsigned = spec_stellar_lock_vaa(*self, *event);
        proof {
            assert(vaa@ =~= unsigned);
        }
        let digest = vaa.digest();
        let signature = ed25519_sign(&self.guardian_seed, &digest);
        let guardian_pubkey = ed25519_derive_public(&self.guardian_seed);
        vaa.add_signature(guardian_pubkey, signature);
        proof {
            assert(vaa@.signatures =~= seq![
                spec_guardian_signature(self.guardian_seed@, unsigned),
            ]);
            assert(vaa@ =~= unsigned.with_signatures(
                seq![spec_guardian_signature(self.guardian_seed@, unsigned)],
            ));
            crate::message::lemma_digest_ignores_signatures(unsigned, vaa@);
        }
        Ok(vaa)
    }

    /// Turn an observed NEAR burn event into a message signed by this
    /// guardian, bound for the Stellar side; the caller supplies the
    /// submission time.
    pub fn create_vaa_from_near_burn(&self, event: &LockEvent, timestamp: u64) -> (r: Result<
        VAA,
        BridgeError,
    >)
        ensures
            r is Ok <==> is_valid_hex(spec_str_bytes(self.config.stellar_bridge_contract@))
                && is_valid_hex(spec_str_bytes(self.config.near_bridge_contract@)),
            r matches Err(e) ==> e == BridgeError::InvalidHex,
            r matches Ok(v) ==> {
                let unsigned = spec_near_burn_vaa(*self, *event, timestamp);
                &&& v@ == unsigned.with_signatures(
                    seq![spec_guardian_signature(self.guardian_seed@, unsigned)],
                )
                &&& spec_digest(v@) == spec_digest(unsigned)
                &&& ed25519_valid(
                    ed25519_public_key(self.guardian_seed@),
                    spec_digest(v@),
                    ed25519_signature(self.guardian_seed@, spec_digest(unsigned)),
                )
            },
    {
        let origin_contract = match hex_decode(self.config.near_bridge_contract.as_str()) {
            Ok(v) => v,
            Err(e) => {
                return Err(e);
            },
        };
        let destination_contract = match hex_decode(self.config.stellar_bridge_contract.as_str()) {
            Ok(v) => v,
            Err(e) => {
                return Err(e);
            },
        };
        let asset_bytes = event.asset.as_str().as_bytes();
        let origin = pad32(origin_contract.as_slice());
        let destination = pad32(destination_contract.as_slice());
        let asset_id = pad32(asset_bytes);
        let mut vaa = VAA::new(
            ChainId::Near,
            origin,
            ChainId::Stellar,
            destination,
            asset_id,
            event.amount,
            event.recipient,
            event.nonce,
            timestamp,
        );
        let ghost unsigned = spec_near_burn_vaa(*self, *event, timestamp);
        proof {
            assert(vaa@ =~= unsigned);
        }
        let digest = vaa.digest();
        let signature = ed25519_sign(&self.guardian_seed, &digest);
        let guardian_pubkey = ed25519_derive_public(&self.guardian_seed);
        vaa.add_signature(guardian_pubkey, signature);
        proof {
            assert(vaa@.signatures =~= seq![
                spec_guardian_signature(self.guardian_seed@, unsigned),
            ]);
            assert(vaa@ =~= unsigned.with_signatures(
                seq![spec_guardian_signature(self.guardian_seed@, unsigned)],
            ));
            crate::message::lemma_digest_ignores_signatures(unsigned, vaa@);
        }
        Ok(vaa)
    }
}

} // verus!
