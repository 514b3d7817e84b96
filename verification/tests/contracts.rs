use bridge_core::bytesops::pad32;
use bridge_core::custody::AuroraBridgeContract;
use bridge_core::ledger::NearBridge;
use bridge_core::message::{ChainId, VAA};
use bridge_core::BridgeError;
use ed25519_dalek::Signer;

fn guardian(seed: u8) -> ed25519_dalek::SigningKey {
    ed25519_dalek::SigningKey::from_bytes(&[seed; 32])
}

const CONTRACT_ID: [u8; 32] = [0xd0; 32];

/// A ledger with three guardians and quorum two.
fn sample_bridge() -> (NearBridge, Vec<ed25519_dalek::SigningKey>) {
    let keys = vec![guardian(1), guardian(2), guardian(3)];
    let roster: Vec<[u8; 32]> = keys.iter().map(|k| k.verifying_key().to_bytes()).collect();
    let bridge = NearBridge::new(pad32(b"owner.near"), CONTRACT_ID, roster, 2).unwrap();
    (bridge, keys)
}

/// A message to this ledger, signed by the given guardians.
fn signed_vaa(signers: &[&ed25519_dalek::SigningKey], amount: u128, nonce: u64) -> VAA {
    let mut vaa = VAA::new(
        ChainId::Stellar,
        [1u8; 32],
        ChainId::Near,
        CONTRACT_ID,
        pad32(b"stellar_asset_123"),
        amount,
        pad32(b"user.near"),
        nonce,
        1234567890,
    );
    let digest = vaa.digest();
    for key in signers {
        vaa.add_signature(key.verifying_key().to_bytes(), key.sign(&digest).to_bytes());
    }
    vaa
}

#[test]
fn test_initialization() {
    let guardians = vec![[1u8; 32], [2u8; 32]];
    let contract = NearBridge::new(pad32(b"owner.near"), CONTRACT_ID, guardians, 2).unwrap();

    assert_eq!(contract.guardians.len(), 2);
    assert_eq!(contract.quorum, 2);
}

#[test]
fn test_balance_of() {
    let contract = NearBridge::new(pad32(b"owner.near"), CONTRACT_ID, vec![[1u8; 32]], 1).unwrap();

    let balance = contract.balance_of(pad32(b"test_asset"), pad32(b"user.near"));
    assert_eq!(balance, 0);
}

#[test]
fn initialization_rejects_invalid_quorum() {
    assert!(matches!(
        NearBridge::new(pad32(b"owner.near"), CONTRACT_ID, vec![[1u8; 32]], 0),
        Err(BridgeError::InvalidQuorum)
    ));
    assert!(matches!(
        NearBridge::new(pad32(b"owner.near"), CONTRACT_ID, vec![[1u8; 32]], 2),
        Err(BridgeError::InvalidQuorum)
    ));
}

#[test]
fn mint_then_replay_is_rejected() {
    // Lock of 1000 with nonce 7 on the origin becomes a mint here:
    // recipient balance 1000, supply 1000; the same nonce again is
    // rejected and the state is unchanged.
    let (mut bridge, keys) = sample_bridge();
    let vaa = signed_vaa(&[&keys[0], &keys[1]], 1000, 7);
    let bytes = vaa.to_bytes();

    assert!(bridge.mint_wrapped(&bytes).is_ok());
    let asset = pad32(b"stellar_asset_123");
    let user = pad32(b"user.near");
    assert_eq!(bridge.balance_of(asset, user), 1000);
    assert_eq!(bridge.total_supply(asset), 1000);
    assert!(bridge.is_vaa_processed(7));

    assert!(matches!(
        bridge.mint_wrapped(&bytes),
        Err(BridgeError::AlreadyProcessed)
    ));
    assert_eq!(bridge.balance_of(asset, user), 1000);
    assert_eq!(bridge.total_supply(asset), 1000);
}

#[test]
fn mint_rejects_insufficient_quorum() {
    let (mut bridge, keys) = sample_bridge();
    let one_signer = signed_vaa(&[&keys[0]], 1000, 7);
    assert!(matches!(
        bridge.mint_wrapped(&one_signer.to_bytes()),
        Err(BridgeError::VerificationFailed)
    ));
    assert!(!bridge.is_vaa_processed(7));
}

#[test]
fn mint_rejects_unknown_signers() {
    let (mut bridge, _) = sample_bridge();
    let outsiders = [guardian(8), guardian(9)];
    let vaa = signed_vaa(&[&outsiders[0], &outsiders[1]], 1000, 7);
    assert!(matches!(
        bridge.mint_wrapped(&vaa.to_bytes()),
        Err(BridgeError::VerificationFailed)
    ));
}

#[test]
fn mint_rejects_wrong_destination() {
    let (mut bridge, keys) = sample_bridge();
    let mut vaa = VAA::new(
        ChainId::Stellar,
        [1u8; 32],
        ChainId::Near,
        [0xee; 32], // another contract
        pad32(b"stellar_asset_123"),
        1000,
        pad32(b"user.near"),
        7,
        1234567890,
    );
    let digest = vaa.digest();
    for key in &keys[..2] {
        vaa.add_signature(key.verifying_key().to_bytes(), key.sign(&digest).to_bytes());
    }
    assert!(matches!(
        bridge.mint_wrapped(&vaa.to_bytes()),
        Err(BridgeError::WrongDestination)
    ));
}

#[test]
fn mint_rejects_malformed_bytes() {
    let (mut bridge, _) = sample_bridge();
    assert!(matches!(
        bridge.mint_wrapped(&[1, 2, 3]),
        Err(BridgeError::MalformedMessage)
    ));
}

#[test]
fn mint_rejects_supply_overflow() {
    let (mut bridge, keys) = sample_bridge();
    let huge = signed_vaa(&[&keys[0], &keys[1]], u128::MAX, 1);
    assert!(bridge.mint_wrapped(&huge.to_bytes()).is_ok());
    let one_more = signed_vaa(&[&keys[0], &keys[1]], 1, 2);
    assert!(matches!(
        bridge.mint_wrapped(&one_more.to_bytes()),
        Err(BridgeError::Overflow)
    ));
}

#[test]
fn burn_shrinks_balance_and_supply() {
    // Burn 400 out of 1000: balance 600, supply down by 400; a later
    // burn of 700 is rejected with no state change.
    let (mut bridge, keys) = sample_bridge();
    let vaa = signed_vaa(&[&keys[0], &keys[1]], 1000, 7);
    bridge.mint_wrapped(&vaa.to_bytes()).unwrap();

    let asset = pad32(b"stellar_asset_123");
    let user = pad32(b"user.near");
    assert!(bridge.burn_wrapped(user, asset, 400, 1, [6u8; 32]).is_ok());
    assert_eq!(bridge.balance_of(asset, user), 600);
    assert_eq!(bridge.total_supply(asset), 600);

    assert!(matches!(
        bridge.burn_wrapped(user, asset, 700, 1, [6u8; 32]),
        Err(BridgeError::InsufficientBalance)
    ));
    assert_eq!(bridge.balance_of(asset, user), 600);
    assert_eq!(bridge.total_supply(asset), 600);
}

#[test]
fn burn_rejects_zero_amount_and_unknown_asset() {
    let (mut bridge, keys) = sample_bridge();
    let vaa = signed_vaa(&[&keys[0], &keys[1]], 1000, 7);
    bridge.mint_wrapped(&vaa.to_bytes()).unwrap();

    let asset = pad32(b"stellar_asset_123");
    let user = pad32(b"user.near");
    assert!(matches!(
        bridge.burn_wrapped(user, asset, 0, 1, [6u8; 32]),
        Err(BridgeError::InvalidAmount)
    ));
    assert!(matches!(
        bridge.burn_wrapped(user, pad32(b"other_asset"), 5, 1, [6u8; 32]),
        Err(BridgeError::AssetNotFound)
    ));
}

#[test]
fn update_guardians_owner_only_and_quorum_checked() {
    let (mut bridge, _) = sample_bridge();
    let new_keys = vec![[7u8; 32], [8u8; 32]];

    // A non-owner caller is rejected unconditionally.
    assert!(matches!(
        bridge.update_guardians(pad32(b"mallory.near"), new_keys.clone(), 1),
        Err(BridgeError::NotOwner)
    ));
    // The owner with a quorum of zero or above the roster size is rejected.
    assert!(matches!(
        bridge.update_guardians(pad32(b"owner.near"), new_keys.clone(), 0),
        Err(BridgeError::InvalidQuorum)
    ));
    assert!(matches!(
        bridge.update_guardians(pad32(b"owner.near"), new_keys.clone(), 3),
        Err(BridgeError::InvalidQuorum)
    ));
    assert_eq!(bridge.quorum, 2);
    assert_eq!(bridge.get_guardians().len(), 3);

    // A valid call replaces roster and quorum atomically.
    assert!(bridge
        .update_guardians(pad32(b"owner.near"), new_keys.clone(), 1)
        .is_ok());
    assert_eq!(bridge.get_guardians(), new_keys);
    assert_eq!(bridge.quorum, 1);
}

const STELLAR_CONTRACT_ID: [u8; 32] = [0xc5; 32];

/// A custody contract with three guardians and quorum two.
fn sample_custody() -> (AuroraBridgeContract, Vec<ed25519_dalek::SigningKey>) {
    let keys = vec![guardian(1), guardian(2), guardian(3)];
    let roster: Vec<[u8; 32]> = keys.iter().map(|k| k.verifying_key().to_bytes()).collect();
    let contract =
        AuroraBridgeContract::initialize(pad32(b"admin"), STELLAR_CONTRACT_ID, roster, 2).unwrap();
    (contract, keys)
}

/// A release message to this custody contract, signed by the given
/// guardians.
fn release_vaa(signers: &[&ed25519_dalek::SigningKey], nonce: u64) -> VAA {
    let mut vaa = VAA::new(
        ChainId::Near,
        [2u8; 32],
        ChainId::Stellar,
        STELLAR_CONTRACT_ID,
        pad32(b"token"),
        1000,
        [2u8; 32],
        nonce,
        1234567890,
    );
    let digest = vaa.digest();
    for key in signers {
        vaa.add_signature(key.verifying_key().to_bytes(), key.sign(&digest).to_bytes());
    }
    vaa
}

#[test]
fn test_initialize() {
    let (contract, _) = sample_custody();

    let stats = contract.view_bridge_stats();
    assert_eq!(stats.total_locked, 0);
    assert_eq!(stats.total_released, 0);
}

#[test]
fn custody_initialize_rejects_invalid_quorum() {
    assert!(matches!(
        AuroraBridgeContract::initialize(pad32(b"admin"), STELLAR_CONTRACT_ID, vec![[1u8; 32]], 0),
        Err(BridgeError::InvalidQuorum)
    ));
    assert!(matches!(
        AuroraBridgeContract::initialize(pad32(b"admin"), STELLAR_CONTRACT_ID, vec![[1u8; 32]], 2),
        Err(BridgeError::InvalidQuorum)
    ));
}

#[test]
fn test_lock_tokens() {
    let (mut contract, _) = sample_custody();
    let token = pad32(b"token");
    let recipient = [1u8; 32];

    let nonce = contract
        .lock_tokens(token, 1000000, 2, recipient, pad32(b"sender"), 500)
        .unwrap();
    assert_eq!(nonce, 1);

    let lock_record = contract.view_lock_record(nonce);
    assert_eq!(lock_record.amount, 1000000);
    assert_eq!(lock_record.recipient_chain, 2);
    assert_eq!(lock_record.is_released, false);
}

#[test]
fn lock_rejects_non_positive_amounts() {
    let (mut contract, _) = sample_custody();
    let token = pad32(b"token");
    assert!(matches!(
        contract.lock_tokens(token, 0, 2, [1u8; 32], pad32(b"sender"), 500),
        Err(BridgeError::InvalidAmount)
    ));
    assert!(matches!(
        contract.lock_tokens(token, -5, 2, [1u8; 32], pad32(b"sender"), 500),
        Err(BridgeError::InvalidAmount)
    ));
    assert_eq!(contract.view_bridge_stats().total_locked, 0);
}

#[test]
fn lock_allocates_fresh_nonces() {
    let (mut contract, _) = sample_custody();
    let token = pad32(b"token");
    let n1 = contract
        .lock_tokens(token, 10, 2, [1u8; 32], pad32(b"sender"), 500)
        .unwrap();
    let n2 = contract
        .lock_tokens(token, 10, 2, [1u8; 32], pad32(b"sender"), 500)
        .unwrap();
    assert_eq!(n1, 1);
    assert_eq!(n2, 2);
    let stats = contract.view_bridge_stats();
    assert_eq!(stats.total_locked, 2);
    assert_eq!(stats.total_volume, 20);
}

#[test]
fn release_happens_exactly_once() {
    let (mut contract, keys) = sample_custody();
    let token = pad32(b"token");
    let nonce = contract
        .lock_tokens(token, 1000, 2, [1u8; 32], pad32(b"sender"), 500)
        .unwrap();

    // A message whose nonce has no record is refused.
    let unknown = release_vaa(&[&keys[0], &keys[1]], 99);
    assert!(matches!(
        contract.release_tokens(&unknown.to_bytes()),
        Err(BridgeError::LockNotFound)
    ));
    // The first quorum-verified release succeeds; the second is
    // rejected and the statistics stand still.
    let vaa = release_vaa(&[&keys[0], &keys[1]], nonce);
    assert!(contract.release_tokens(&vaa.to_bytes()).is_ok());
    assert!(contract.view_lock_record(nonce).is_released);
    assert!(matches!(
        contract.release_tokens(&vaa.to_bytes()),
        Err(BridgeError::AlreadyReleased)
    ));
    assert_eq!(contract.view_bridge_stats().total_released, 1);
}

#[test]
fn release_requires_a_quorum_verified_message() {
    let (mut contract, keys) = sample_custody();
    let nonce = contract
        .lock_tokens(pad32(b"token"), 1000, 2, [1u8; 32], pad32(b"sender"), 500)
        .unwrap();

    // Garbage bytes are refused before anything else.
    assert!(matches!(
        contract.release_tokens(&[9, 9, 9]),
        Err(BridgeError::MalformedMessage)
    ));
    // One authorized signature is below the quorum of two.
    let one_signer = release_vaa(&[&keys[0]], nonce);
    assert!(matches!(
        contract.release_tokens(&one_signer.to_bytes()),
        Err(BridgeError::VerificationFailed)
    ));
    // Unknown signers never count toward the quorum.
    let outsiders = [guardian(8), guardian(9)];
    let foreign = release_vaa(&[&outsiders[0], &outsiders[1]], nonce);
    assert!(matches!(
        contract.release_tokens(&foreign.to_bytes()),
        Err(BridgeError::VerificationFailed)
    ));
    // A message for another contract or the other chain is refused.
    let mut wrong = VAA::new(
        ChainId::Near,
        [2u8; 32],
        ChainId::Stellar,
        [0xee; 32],
        pad32(b"token"),
        1000,
        [2u8; 32],
        nonce,
        1234567890,
    );
    let digest = wrong.digest();
    for key in &keys[..2] {
        wrong.add_signature(key.verifying_key().to_bytes(), key.sign(&digest).to_bytes());
    }
    assert!(matches!(
        contract.release_tokens(&wrong.to_bytes()),
        Err(BridgeError::WrongDestination)
    ));
    // Nothing above released the record.
    assert!(!contract.view_lock_record(nonce).is_released);
    assert_eq!(contract.view_bridge_stats().total_released, 0);
}

#[test]
fn custody_update_guardians_admin_only_and_quorum_checked() {
    let (mut contract, _) = sample_custody();
    let new_keys = vec![[7u8; 32], [8u8; 32]];

    assert!(matches!(
        contract.update_guardians(pad32(b"mallory"), new_keys.clone(), 1),
        Err(BridgeError::NotOwner)
    ));
    assert!(matches!(
        contract.update_guardians(pad32(b"admin"), new_keys.clone(), 0),
        Err(BridgeError::InvalidQuorum)
    ));
    assert!(matches!(
        contract.update_guardians(pad32(b"admin"), new_keys.clone(), 3),
        Err(BridgeError::InvalidQuorum)
    ));
    assert!(contract
        .update_guardians(pad32(b"admin"), new_keys.clone(), 2)
        .is_ok());
    assert_eq!(contract.get_guardians(), new_keys);
    assert_eq!(contract.quorum, 2);
}

#[test]
fn view_lock_record_returns_zeroed_record_when_absent() {
    let (contract, _) = sample_custody();
    let record = contract.view_lock_record(42);
    assert_eq!(record.nonce, 0);
    assert_eq!(record.amount, 0);
    assert!(!record.is_released);
}

#[test]
fn conservation_holds_across_mixed_operations() {
    // total_supply equals the sum of balances after every operation,
    // over a sequence of mints and burns for two recipients.
    let (mut bridge, keys) = sample_bridge();
    let asset = pad32(b"stellar_asset_123");
    let user = pad32(b"user.near");

    let mut vaa2 = VAA::new(
        ChainId::Stellar,
        [1u8; 32],
        ChainId::Near,
        CONTRACT_ID,
        asset,
        250,
        pad32(b"other.near"),
        8,
        1234567891,
    );
    let digest = vaa2.digest();
    for key in &keys[..2] {
        vaa2.add_signature(key.verifying_key().to_bytes(), key.sign(&digest).to_bytes());
    }

    bridge
        .mint_wrapped(&signed_vaa(&[&keys[0], &keys[1]], 1000, 7).to_bytes())
        .unwrap();
    assert_eq!(bridge.total_supply(asset), bridge.balance_of(asset, user));

    bridge.mint_wrapped(&vaa2.to_bytes()).unwrap();
    assert_eq!(
        bridge.total_supply(asset),
        bridge.balance_of(asset, user) + bridge.balance_of(asset, pad32(b"other.near"))
    );

    bridge.burn_wrapped(user, asset, 400, 1, [6u8; 32]).unwrap();
    assert_eq!(
        bridge.total_supply(asset),
        bridge.balance_of(asset, user) + bridge.balance_of(asset, pad32(b"other.near"))
    );
    assert_eq!(bridge.total_supply(asset), 850);
}
