//! Trusted boundary to the cryptographic primitives.
//!
//! The digest and the signature scheme are standard algorithms whose
//! outputs are functions of their byte inputs alone; they are given
//! names here, and the callers' contracts speak of those names.

use sha2::Digest;
use vstd::prelude::*;

verus! {

/// The SHA-256 digest of a byte string.
pub uninterp spec fn sha256_of(data: Seq<u8>) -> Seq<u8>;

/// Whether `sig` is a valid Ed25519 signature on `msg` under the public
/// key encoded by `pubkey` (false when `pubkey` encodes no valid key).
pub uninterp spec fn ed25519_valid(pubkey: Seq<u8>, msg: Seq<u8>, sig: Seq<u8>) -> bool;

/// The Ed25519 signature that the secret key with seed `seed` produces
/// on `msg`; the scheme signs deterministically.
pub uninterp spec fn ed25519_signature(seed: Seq<u8>, msg: Seq<u8>) -> Seq<u8>;

/// The public key belonging to the secret key with seed `seed`.
pub uninterp spec fn ed25519_public_key(seed: Seq<u8>) -> Seq<u8>;

/// Relies on sha2's `Sha256` (`Digest::new`, `update`, `finalize`): the
/// 32-byte SHA-256 digest of `data`, a function of the bytes alone.
#[verifier::external_body]
pub fn sha256_digest(data: &[u8]) -> (r: [u8; 32])
    ensures
        r@ == sha256_of(data@),
{
    let mut hasher = sha2::Sha256::new();
    hasher.update(data);
    hasher.finalize().into()
}

/// Relies on ed25519_dalek's `VerifyingKey::from_bytes`,
/// `Signature::from_bytes` and `Verifier::verify`: whether the check
/// passes depends on the three byte strings alone; key bytes that parse
/// to no valid key make it fail.
#[verifier::external_body]
pub fn ed25519_verify(pubkey: &[u8; 32], msg: &[u8], sig: &[u8; 64]) -> (r: bool)
    ensures
        r == ed25519_valid(pubkey@, msg@, sig@),
{
    match ed25519_dalek::VerifyingKey::from_bytes(pubkey) {
        Ok(key) => {
            let signature = ed25519_dalek::Signature::from_bytes(sig);
            ed25519_dalek::Verifier::verify(&key, msg, &signature).is_ok()
        },
        Err(_) => false,
    }
}

/// Relies on ed25519_dalek's `SigningKey::from_bytes` and
/// `Signer::sign`: Ed25519 signing is deterministic in the seed and the
/// message, and the signature it produces verifies under the matching
/// public key.
#[verifier::external_body]
pub fn ed25519_sign(seed: &[u8; 32], msg: &[u8]) -> (r: [u8; 64])
    ensures
        r@ == ed25519_signature(seed@, msg@),
        ed25519_valid(ed25519_public_key(seed@), msg@, r@),
{
    let key = ed25519_dalek::SigningKey::from_bytes(seed);
    let signature = ed25519_dalek::Signer::sign(&key, msg);
    signature.to_bytes()
}

/// Relies on ed25519_dalek's `SigningKey::from_bytes` and
/// `SigningKey::verifying_key`: the 32-byte public key derived from a
/// seed, a function of the seed alone.
#[verifier::external_body]
pub fn ed25519_derive_public(seed: &[u8; 32]) -> (r: [u8; 32])
    ensures
        r@ == ed25519_public_key(seed@),
{
    let key = ed25519_dalek::SigningKey::from_bytes(seed);
    key.verifying_key().to_bytes()
}

} // verus!
