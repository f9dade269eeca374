//! The handshake run right after the connection is established.
//!
//! Both peers exchange an 8-byte protocol version, then a role flag.  One
//! side of the connection leads: it writes first in each exchange while
//! the other reads first, so the two ends never both block on a read.  A
//! version mismatch is a warning only — the wire format is kept
//! byte-compatible across versions — but a role collision (both peers
//! sender, or both receiver) always aborts the session, before any file
//! descriptor is exchanged.

use vstd::prelude::*;

use crate::TransferError;

verus! {

/// Which end of the session this peer is.
#[derive(Debug, Clone, Copy, PartialEq, Eq, Structural)]
pub enum Role {
    /// Moves file bytes toward the peer.
    Sender,
    /// Writes received file bytes to disk.
    Receiver,
}

/// The wire flag a peer presents for its role: 1 for sender, 0 for
/// receiver.
pub open spec fn spec_role_flag(role: Role) -> u64 {
    if role is Sender {
        1
    } else {
        0
    }
}

/// A peer accepts the session exactly when the flag it read is
/// compatible with its own role: a sender must not see the sender flag,
/// and a receiver must see it.
pub open spec fn roles_compatible(local: Role, peer_flag: u64) -> bool {
    if local is Sender {
        peer_flag != 1
    } else {
        peer_flag == 1
    }
}

/// Where the handshake stands.
#[derive(Debug, Clone, Copy, PartialEq, Eq, Structural)]
pub enum Phase {
    /// Nothing exchanged yet.
    Start,
    /// Versions exchanged; roles still open.
    VersionExchanged,
    /// Exactly one sender and one receiver agreed: file transfer may
    /// begin.
    RoleAgreed,
    /// The handshake aborted; no file data may move.
    Failed,
}

/// The handshake state machine for one session.  Methods advance the
/// phase in the fixed order; file descriptors may be exchanged only once
/// the phase reads `RoleAgreed`.
pub struct Handshake {
    /// Where the handshake stands.
    pub phase: Phase,
    /// This peer's protocol version, sent as-is on the wire.
    pub version: u64,
    /// This peer's role for the whole session.
    pub role: Role,
    /// Whether this side writes first in each exchange.  The two ends of
    /// a connection must hold opposite values, which is what rules out a
    /// deadlock where both block on a read.
    pub leads: bool,
}

impl Handshake {
    /// A fresh handshake: nothing exchanged yet.
    pub fn new(version: u64, role: Role, leads: bool) -> (r: Handshake)
        ensures
            r.phase is Start,
            r.version == version,
            r.role == role,
            r.leads == leads,
    {
        Handshake { phase: Phase::Start, version, role, leads }
    }

    /// The version value this peer puts on the wire.
    pub fn version_message(&self) -> (r: u64)
        requires
            self.phase is Start,
        ensures
            r == self.version,
    {
        self.version
    }

    /// Record the peer's version.  A mismatch is reported as a warning
    /// and nothing more: the session continues either way.
    pub fn record_peer_version(&mut self, peer_version: u64) -> (warn: bool)
        requires
            old(self).phase is Start,
        ensures
            final(self).phase is VersionExchanged,
            final(self).version == old(self).version,
            final(self).role == old(self).role,
            final(self).leads == old(self).leads,
            warn == (peer_version != old(self).version),
    {
        self.phase = Phase::VersionExchanged;
        peer_version != self.version
    }

    /// The role flag this peer puts on the wire: 1 as sender, 0 as
    /// receiver.
    pub fn role_message(&self) -> (r: u64)
        requires
            self.phase is VersionExchanged,
        ensures
            r == spec_role_flag(self.role),
    {
        match self.role {
            Role::Sender => 1,
            Role::Receiver => 0,
        }
    }

    /// Record the peer's role flag.  The session is ready exactly when
    /// the roles are compatible; otherwise it fails with a role
    /// collision, and no later step will accept the handshake.
    pub fn record_peer_role(&mut self, peer_flag: u64) -> (r: Result<(), TransferError>)
        requires
            old(self).phase is VersionExchanged,
        ensures
            final(self).version == old(self).version,
            final(self).role == old(self).role,
            final(self).leads == old(self).leads,
            r is Ok <==> roles_compatible(old(self).role, peer_flag),
            r is Ok ==> final(self).phase is RoleAgreed,
            r matches Err(e) ==> e == TransferError::RoleCollision && final(self).phase is Failed,
    {
        let compatible = match self.role {
            Role::Sender => peer_flag != 1,
            Role::Receiver => peer_flag == 1,
        };
        if compatible {
            self.phase = Phase::RoleAgreed;
            Ok(())
        } else {
            self.phase = Phase::Failed;
            Err(TransferError::RoleCollision)
        }
    }

    /// Whether file transfer may begin: only a handshake that agreed on
    /// roles is ready, so a failed negotiation can never reach the file
    /// descriptor exchange.
    pub fn ready(&self) -> (r: bool)
        ensures
            r == (self.phase is RoleAgreed),
    {
        match self.phase {
            Phase::RoleAgreed => true,
            _ => false,
        }
    }
}

/// Role negotiation admits exactly one sender/receiver pairing: two
/// peers presenting the same role collide — both flags sender, or both
/// receiver — and the session fails before any file descriptor moves,
/// while one sender facing one receiver is accepted on both ends.
pub proof fn lemma_role_negotiation(local: Role, peer: Role)
    ensures
        local == peer ==> !roles_compatible(local, spec_role_flag(peer)),
        local != peer ==> roles_compatible(local, spec_role_flag(peer)) && roles_compatible(
            peer,
            spec_role_flag(local),
        ),
{
}

} // verus!
