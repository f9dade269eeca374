//! Connection-mode selection.
//!
//! A session connects in exactly one of three ways, chosen once from the
//! command-line flags and then consumed by connection establishment:
//! discover a peer on the local network, listen for an inbound connection,
//! or dial a given address directly.

use vstd::prelude::*;

verus! {

/// How this endpoint finds its peer.
#[derive(Debug, Clone)]
pub enum ConnectionMode {
    /// Query the local-network discovery service and dial a found peer.
    AutoDiscover,
    /// Advertise on the local network and accept one inbound connection.
    Listen,
    /// Dial the given address directly.
    Connect(String),
}

/// Resolve the command-line flags into a connection mode: an explicit
/// address wins over the listen flag, and with neither the session
/// auto-discovers.
pub fn determine_connection_mode(listen: bool, connect: Option<String>) -> (r: ConnectionMode)
    ensures
        connect matches Some(ip) ==> (r matches ConnectionMode::Connect(a) && a@ == ip@),
        connect is None && listen ==> r is Listen,
        connect is None && !listen ==> r is AutoDiscover,
{
    match connect {
        Some(ip) => ConnectionMode::Connect(ip),
        None => {
            if listen {
                ConnectionMode::Listen
            } else {
                ConnectionMode::AutoDiscover
            }
        },
    }
}

} // verus!
