//! The transport's vocabulary: its errors, the server that serves the client
//! page and upgrades `/signal` to a WebSocket, and one connected client.
//!
//! ICE is configured with no STUN and no TURN servers, so only host
//! candidates are gathered and the two machines connect directly on the LAN.

use vstd::prelude::*;

verus! {

/// Why the transport failed.
#[derive(Debug)]
pub enum RtcError {
    Bind(std::io::Error),
    /// A client failed or omitted the shared-secret handshake.
    Unauthorised,
    Negotiation(String),
    PeerClosed,
}

/// The HTTP and WebSocket server.
pub struct Server {
    _private: (),
}

/// One connected client's peer connection.
pub struct Session {
    _private: (),
}

} // verus!
