//! The host-to-client half of the signalling protocol, carried as JSON over
//! the signalling WebSocket. The client-to-host messages carry input events
//! with fractional coordinates, so they are read outside the library and
//! handed to the signalling state machine as [`crate::signaling::ClientText`].

use vstd::prelude::*;

verus! {

/// One ICE candidate, as the browser describes it.
#[derive(Debug, Clone, PartialEq, Eq)]
pub struct IceCandidate {
    pub candidate: String,
    pub sdp_mid: Option<String>,
    pub sdp_mline_index: Option<u16>,
}

/// A message from the host to a client.
#[derive(Debug, Clone, PartialEq, Eq)]
pub enum HostMsg {
    /// The session description the host offers.
    Offer(String),
    /// A local ICE candidate, trickled as it is gathered.
    Ice(IceCandidate),
    /// The stream's size and rate, so the client can size itself.
    Config { w: u32, h: u32, fps: u32 },
    /// Why the host is closing the session.
    Error(String),
}

} // verus!
