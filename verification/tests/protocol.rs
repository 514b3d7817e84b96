use bridge_core::bytesops::pad32;
use bridge_core::message::{ChainId, VAA};
use bridge_core::relay::{Config, LockEvent, Relayer};
use bridge_core::BridgeError;
use ed25519_dalek::Signer;
use sha2::Digest;

fn sample_vaa() -> VAA {
    VAA::new(
        ChainId::Stellar,
        [1u8; 32],
        ChainId::Near,
        [2u8; 32],
        [3u8; 32],
        1000u128,
        [4u8; 32],
        1,
        1234567890,
    )
}

fn guardian(seed: u8) -> ed25519_dalek::SigningKey {
    ed25519_dalek::SigningKey::from_bytes(&[seed; 32])
}

#[test]
fn test_vaa_digest() {
    let vaa = sample_vaa();

    let digest = vaa.digest();
    assert_eq!(digest.len(), 32);

    // Digest should be deterministic
    let digest2 = vaa.digest();
    assert_eq!(digest, digest2);
}

#[test]
fn test_vaa_serialization() {
    let vaa = sample_vaa();

    let bytes = vaa.to_bytes();
    let decoded = VAA::from_bytes(&bytes).unwrap();

    assert_eq!(vaa.nonce, decoded.nonce);
    assert_eq!(vaa.amount, decoded.amount);
}

#[test]
fn digest_matches_sha256_of_payload() {
    let vaa = sample_vaa();
    // Assemble the documented payload independently: version, chain
    // bytes, the five 32-byte fields, amount/nonce/timestamp big-endian.
    let mut payload: Vec<u8> = Vec::new();
    payload.push(1u8); // version
    payload.push(1u8); // origin chain: Stellar
    payload.extend_from_slice(&[1u8; 32]);
    payload.push(2u8); // destination chain: Near
    payload.extend_from_slice(&[2u8; 32]);
    payload.extend_from_slice(&[3u8; 32]);
    payload.extend_from_slice(&1000u128.to_be_bytes());
    payload.extend_from_slice(&[4u8; 32]);
    payload.extend_from_slice(&1u64.to_be_bytes());
    payload.extend_from_slice(&1234567890u64.to_be_bytes());
    let expected: [u8; 32] = {
        let mut h = sha2::Sha256::new();
        h.update(&payload);
        h.finalize().into()
    };
    assert_eq!(vaa.digest(), expected);
}

#[test]
fn digest_ignores_signatures() {
    let mut vaa = sample_vaa();
    let before = vaa.digest();
    vaa.add_signature([9u8; 32], [7u8; 64]);
    vaa.add_signature([8u8; 32], [6u8; 64]);
    assert_eq!(vaa.digest(), before);
}

#[test]
fn serialization_round_trips_all_fields() {
    let mut vaa = sample_vaa();
    vaa.add_signature([9u8; 32], [7u8; 64]);
    vaa.add_signature([8u8; 32], [6u8; 64]);

    let bytes = vaa.to_bytes();
    let decoded = VAA::from_bytes(&bytes).unwrap();

    assert_eq!(decoded.version, vaa.version);
    assert_eq!(decoded.origin_chain, vaa.origin_chain);
    assert_eq!(decoded.origin_contract, vaa.origin_contract);
    assert_eq!(decoded.destination_chain, vaa.destination_chain);
    assert_eq!(decoded.destination_contract, vaa.destination_contract);
    assert_eq!(decoded.asset_id, vaa.asset_id);
    assert_eq!(decoded.amount, vaa.amount);
    assert_eq!(decoded.recipient, vaa.recipient);
    assert_eq!(decoded.nonce, vaa.nonce);
    assert_eq!(decoded.timestamp, vaa.timestamp);
    assert_eq!(decoded.signatures.len(), 2);
    assert_eq!(decoded.signatures[0].guardian_pubkey, [9u8; 32]);
    assert_eq!(decoded.signatures[0].signature, [7u8; 64]);
    assert_eq!(decoded.signatures[1].guardian_pubkey, [8u8; 32]);
    assert_eq!(decoded.signatures[1].signature, [6u8; 64]);
}

#[test]
fn serialization_round_trips_empty_signature_list() {
    let vaa = sample_vaa();
    let bytes = vaa.to_bytes();
    let decoded = VAA::from_bytes(&bytes).unwrap();
    assert_eq!(decoded.signatures.len(), 0);
    assert_eq!(decoded.amount, vaa.amount);
}

#[test]
fn deserialization_rejects_malformed_bytes() {
    assert!(matches!(
        VAA::from_bytes(&[]),
        Err(BridgeError::MalformedMessage)
    ));
    let vaa = sample_vaa();
    let mut bytes = vaa.to_bytes();
    // Truncated input.
    bytes.pop();
    assert!(matches!(
        VAA::from_bytes(&bytes),
        Err(BridgeError::MalformedMessage)
    ));
    // Unknown chain byte.
    let mut bytes2 = vaa.to_bytes();
    bytes2[1] = 9;
    assert!(matches!(
        VAA::from_bytes(&bytes2),
        Err(BridgeError::MalformedMessage)
    ));
}

#[test]
fn quorum_two_of_three_guardians() {
    // Roster of 3 guardians, quorum 2: A and B sign -> true; A alone -> false.
    let a = guardian(1);
    let b = guardian(2);
    let c = guardian(3);
    let roster = [
        a.verifying_key().to_bytes(),
        b.verifying_key().to_bytes(),
        c.verifying_key().to_bytes(),
    ];

    let mut vaa = sample_vaa();
    let digest = vaa.digest();
    vaa.add_signature(a.verifying_key().to_bytes(), a.sign(&digest).to_bytes());
    vaa.add_signature(b.verifying_key().to_bytes(), b.sign(&digest).to_bytes());
    assert!(vaa.verify_signatures(&roster, 2));

    let mut only_a = sample_vaa();
    only_a.add_signature(a.verifying_key().to_bytes(), a.sign(&digest).to_bytes());
    assert!(!only_a.verify_signatures(&roster, 2));
}

#[test]
fn quorum_counts_distinct_guardians_once() {
    let a = guardian(1);
    let roster = [a.verifying_key().to_bytes(), guardian(2).verifying_key().to_bytes()];
    let mut vaa = sample_vaa();
    let digest = vaa.digest();
    let sig = a.sign(&digest).to_bytes();
    vaa.add_signature(a.verifying_key().to_bytes(), sig);
    vaa.add_signature(a.verifying_key().to_bytes(), sig);
    // Two copies of one guardian's signature count once.
    assert!(!vaa.verify_signatures(&roster, 2));
    assert!(vaa.verify_signatures(&roster, 1));
}

#[test]
fn quorum_rejects_tampered_signature() {
    let a = guardian(1);
    let b = guardian(2);
    let roster = [a.verifying_key().to_bytes(), b.verifying_key().to_bytes()];
    let mut vaa = sample_vaa();
    let digest = vaa.digest();
    vaa.add_signature(a.verifying_key().to_bytes(), a.sign(&digest).to_bytes());
    // B's signature replaced with random bytes: valid count drops below quorum.
    vaa.add_signature(b.verifying_key().to_bytes(), [0x5a; 64]);
    assert!(!vaa.verify_signatures(&roster, 2));
}

#[test]
fn quorum_ignores_unauthorized_guardian() {
    let a = guardian(1);
    let outsider = guardian(9);
    let roster = [a.verifying_key().to_bytes()];
    let mut vaa = sample_vaa();
    let digest = vaa.digest();
    vaa.add_signature(outsider.verifying_key().to_bytes(), outsider.sign(&digest).to_bytes());
    assert!(!vaa.verify_signatures(&roster, 1));
    vaa.add_signature(a.verifying_key().to_bytes(), a.sign(&digest).to_bytes());
    assert!(vaa.verify_signatures(&roster, 1));
}

fn sample_config() -> Config {
    Config {
        stellar_horizon_url: "https://horizon-testnet.stellar.org".to_string(),
        stellar_bridge_contract: "aa".repeat(16),
        near_rpc_url: "https://rpc.testnet.near.org".to_string(),
        near_bridge_contract: "bb".repeat(16),
        guardian_private_key: "07".repeat(32),
        poll_interval_secs: 10,
    }
}

#[test]
fn relayer_new_decodes_guardian_key() {
    let relayer = Relayer::new(sample_config()).unwrap();
    assert_eq!(relayer.guardian_seed, [0x07u8; 32]);
}

#[test]
fn relayer_new_rejects_bad_keys() {
    let mut config = sample_config();
    config.guardian_private_key = "zz".to_string();
    assert!(matches!(Relayer::new(config), Err(BridgeError::InvalidHex)));

    let mut short = sample_config();
    short.guardian_private_key = "0707".to_string();
    assert!(matches!(
        Relayer::new(short),
        Err(BridgeError::InvalidKeyLength)
    ));
}

#[test]
fn relayer_builds_signed_stellar_lock_vaa() {
    let relayer = Relayer::new(sample_config()).unwrap();
    let event = LockEvent {
        event_type: "lock".to_string(),
        asset: "03".repeat(32),
        amount: 1000,
        sender: "someone".to_string(),
        recipient_chain: 2,
        recipient: [4u8; 32],
        nonce: 7,
        timestamp: 1234567890,
    };
    let vaa = relayer.create_vaa_from_stellar_lock(&event).unwrap();
    assert_eq!(vaa.version, 1);
    assert_eq!(vaa.origin_chain, ChainId::Stellar);
    assert_eq!(vaa.origin_contract, pad32(&[0xaa; 16]));
    assert_eq!(vaa.destination_chain, ChainId::Near);
    assert_eq!(vaa.destination_contract, pad32(&[0xbb; 16]));
    assert_eq!(vaa.asset_id, [3u8; 32]);
    assert_eq!(vaa.amount, 1000);
    assert_eq!(vaa.recipient, [4u8; 32]);
    assert_eq!(vaa.nonce, 7);
    assert_eq!(vaa.timestamp, 1234567890);
    assert_eq!(vaa.signatures.len(), 1);

    // The attached signature is this guardian's and verifies.
    let key = guardian(7);
    assert_eq!(
        vaa.signatures[0].guardian_pubkey,
        key.verifying_key().to_bytes()
    );
    let roster = [key.verifying_key().to_bytes()];
    assert!(vaa.verify_signatures(&roster, 1));
}

#[test]
fn relayer_zero_fills_non_hex_asset() {
    let relayer = Relayer::new(sample_config()).unwrap();
    let event = LockEvent {
        event_type: "lock".to_string(),
        asset: "not hex!".to_string(),
        amount: 5,
        sender: "someone".to_string(),
        recipient_chain: 2,
        recipient: [4u8; 32],
        nonce: 8,
        timestamp: 1,
    };
    let vaa = relayer.create_vaa_from_stellar_lock(&event).unwrap();
    assert_eq!(vaa.asset_id, [0u8; 32]);
}

#[test]
fn relayer_builds_signed_near_burn_vaa() {
    let relayer = Relayer::new(sample_config()).unwrap();
    let event = LockEvent {
        event_type: "burn".to_string(),
        asset: "wNEAR".to_string(),
        amount: 400,
        sender: "someone.near".to_string(),
        recipient_chain: 1,
        recipient: [5u8; 32],
        nonce: 12,
        timestamp: 0,
    };
    let vaa = relayer.create_vaa_from_near_burn(&event, 777).unwrap();
    assert_eq!(vaa.origin_chain, ChainId::Near);
    assert_eq!(vaa.origin_contract, pad32(&[0xbb; 16]));
    assert_eq!(vaa.destination_chain, ChainId::Stellar);
    assert_eq!(vaa.destination_contract, pad32(&[0xaa; 16]));
    assert_eq!(vaa.asset_id, pad32(b"wNEAR"));
    assert_eq!(vaa.timestamp, 777);

    let key = guardian(7);
    let roster = [key.verifying_key().to_bytes()];
    assert!(vaa.verify_signatures(&roster, 1));
}

#[test]
fn relayer_rejects_non_hex_contract_address() {
    let mut config = sample_config();
    config.stellar_bridge_contract = "xyz".to_string();
    let relayer = Relayer::new(config).unwrap();
    let event = LockEvent {
        event_type: "lock".to_string(),
        asset: "00".to_string(),
        amount: 1,
        sender: "s".to_string(),
        recipient_chain: 2,
        recipient: [0u8; 32],
        nonce: 1,
        timestamp: 1,
    };
    assert!(matches!(
        relayer.create_vaa_from_stellar_lock(&event),
        Err(BridgeError::InvalidHex)
    ));
}
