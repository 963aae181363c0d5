//! Annex: the logic of a LAN screen-extension host, verified.
//!
//! The modules follow the layers of the host: the H.264 elementary-stream
//! framing, the keyboard map and input decisions, access control for the
//! signalling endpoint, the signalling state machine, and the small pieces of
//! drawing and text the menu bar needs.

pub mod annexb;
pub mod text;
pub mod keymap;
pub mod input;
pub mod auth;
pub mod protocol;
pub mod signaling;
pub mod displays;
pub mod icon;
pub mod image;
pub mod tray;
pub mod shared;
pub mod capture;
pub mod encoder;
pub mod transport;
pub mod virtual_display;
pub mod host;
pub mod frame;
pub mod stream;
