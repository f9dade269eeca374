//! Verified core of a peer-to-peer encrypted file transfer tool.
//!
//! Two peers connect over an ordered byte stream, agree on a protocol
//! version, negotiate a sender/receiver role, optionally skip files the
//! receiver already holds (size-then-hash duplicate detection), and move
//! file content as a sequence of length-framed, independently
//! authenticated encrypted chunks.  This crate holds the protocol logic:
//! the wire encoding, the chunked encryption pipeline and its round-trip
//! guarantees, the handshake decisions, duplicate detection, collision-free
//! destination naming, and progress accounting.  Socket and file I/O live
//! outside, handing plain byte values in and out.

pub mod crypto;
pub mod dedup;
pub mod handshake;
pub mod mode;
pub mod naming;
pub mod pipeline;
pub mod progress;
pub mod wire;

use vstd::prelude::*;

verus! {

/// Why a session was aborted: every error is fatal to the session.
#[derive(Debug, PartialEq, Eq, Structural, Clone, Copy)]
pub enum TransferError {
    /// Both peers asked for the same role: two senders or two receivers.
    RoleCollision,
    /// A frame's length prefix does not describe a well-formed chunk.
    MalformedFrame,
    /// The stream ended before a complete frame arrived.
    PrematureEnd,
    /// Authentication failed when opening a chunk: corruption or tampering.
    CryptoFailure,
    /// The random generator refused to yield nonce bytes.
    RandomnessFailure,
}

} // verus!
