//! Core of a guardian-attested cross-chain message protocol.
//!
//! Two ledgers exchange proof of value-locking events through signed
//! messages.  This crate holds the canonical message format and its
//! deterministic digest, the multi-signature quorum rule, the replay
//! guard, and the two ledger state machines (custody side and wrapped
//! side) that those components gate.

pub mod bytesops;
pub mod codec;
pub mod crypto;
pub mod custody;
pub mod hexutil;
pub mod ledger;
pub mod message;
pub mod quorum;
pub mod relay;
pub mod replay;

use vstd::prelude::*;

verus! {

/// Why an operation was refused.  Every refusal leaves the state untouched.
#[derive(Debug, Clone, Copy, PartialEq, Eq, Structural)]
pub enum BridgeError {
    /// The byte string is not a well-formed serialized message.
    MalformedMessage,
    /// The message names another destination chain or contract.
    WrongDestination,
    /// Fewer distinct valid guardian signatures than the quorum asks.
    VerificationFailed,
    /// The message's nonce was already applied on this side.
    AlreadyProcessed,
    /// A zero or negative amount.
    InvalidAmount,
    /// The caller holds less than the amount to burn.
    InsufficientBalance,
    /// No balances exist under this asset.
    AssetNotFound,
    /// The caller is not the owner (or admin) of the state.
    NotOwner,
    /// A quorum outside (0, roster size].
    InvalidQuorum,
    /// No lock record stands under this nonce.
    LockNotFound,
    /// The lock record was already released.
    AlreadyReleased,
    /// A counter or balance would exceed its type's range.
    Overflow,
    /// A string that is not an even run of hexadecimal digits.
    InvalidHex,
    /// A decoded guardian key is not exactly 32 bytes long.
    InvalidKeyLength,
}

} // verus!
