//! The hardware encoder's vocabulary.
//!
//! The encoder is tuned for latency: real time, no frame reordering, Annex-B
//! output with the parameter sets in band on every keyframe. The session
//! itself belongs to the platform; its errors and handle are named here.

use vstd::prelude::*;

verus! {

/// Why the encoder refused.
#[derive(Debug)]
pub enum EncError {
    SessionCreateFailed(i32),
    PropertyRejected(&'static str),
    EncodeFailed(i32),
    /// Built for a platform with no CoreGraphics.
    Unsupported,
}

/// A compression session, released on drop.
pub struct Encoder {
    _private: (),
}

} // verus!
