//! Error kinds of the core, by layer.
//!
//! The lowest layer that can recover does so silently; protocol faults are
//! dropped below consensus; only signing and fatal errors reach the caller.

use vstd::prelude::*;

verus! {

/// Signature or digest mismatch: the message is dropped.
#[derive(Clone, Copy, Debug, PartialEq, Eq, Structural)]
pub enum CryptoError {
    /// A signature does not verify over the claimed content.
    Invalid,
    /// A signature verifies but under a key other than the claimed signer's.
    WrongSigner,
}

/// Malformed or out-of-protocol message: dropped below consensus.
#[derive(Clone, Copy, Debug, PartialEq, Eq, Structural)]
pub enum ProtocolError {
    /// The frame or its inner message does not decode.
    MalformedMessage,
    /// The author is not a member of the committee.
    UnknownAuthor,
    /// The round number violates the protocol's ordering rules.
    BadRound,
}

/// Recoverable synchronizer outcomes; the caller retries on the next event.
#[derive(Clone, Copy, Debug, PartialEq, Eq, Structural)]
pub enum SyncError {
    /// A waiter on a missing parent block expired.
    Timeout,
    /// A requested block is not obtainable right now.
    Unavailable,
}

/// Store outcomes. `NotFound` is part of normal flow and triggers a sync.
#[derive(Clone, Copy, Debug, PartialEq, Eq, Structural)]
pub enum StorageError {
    /// No value is recorded under the key.
    NotFound,
    /// The underlying medium failed; fatal.
    Io,
}

/// Consensus-level evidence; the offender's message is dropped.
#[derive(Clone, Copy, Debug, PartialEq, Eq, Structural)]
pub enum ConsensusFault {
    /// The named voter sent two distinct votes in one round.
    Equivocation(u64),
}

/// Signing outcomes surfaced to the caller of `sign`.
#[derive(Clone, Copy, Debug, PartialEq, Eq, Structural)]
pub enum SigningError {
    /// The deadline passed with fewer than the required partial signatures.
    InsufficientShares { received: u64, required: u64 },
    /// Enough partials were present but the combined signature did not
    /// verify: a broken operator.
    CombineFailed,
}

/// Faults that terminate the validator loop.
#[derive(Clone, Copy, Debug, PartialEq, Eq, Structural)]
pub enum FatalError {
    /// An internal channel closed while the loop still needed it.
    ChannelClosed,
    /// The keystore material does not parse or verify.
    KeystoreCorrupt,
}

} // verus!
