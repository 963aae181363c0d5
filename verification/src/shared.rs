//! Shared vocabulary: encoder settings, the pipeline's error type, and the
//! compressed samples that travel from the encoder to the transport.

use crate::text::push_str;
use vstd::prelude::*;
use vstd::std_specs::convert::FromSpecImpl;

verus! {

/// Pixel format requested from the capture stream. Prefer `Nv12`: it is the
/// encoder's native input, so it avoids a colour conversion.
#[derive(Debug, Clone, Copy, PartialEq, Eq, Structural)]
pub enum PixFmt {
    Nv12,
    Bgra,
}

/// The video codec.
#[derive(Debug, Clone, Copy, PartialEq, Eq, Structural)]
pub enum Codec {
    /// Constrained Baseline or Main, Annex-B. The safe universal choice.
    H264,
    /// Smaller, but only for clients that negotiate it.
    Hevc,
}

/// Encoder settings.
#[derive(Debug, Clone, Copy, PartialEq, Eq, Structural)]
pub struct EncoderConfig {
    pub width: u32,
    pub height: u32,
    pub fps: u32,
    pub bitrate_kbps: u32,
    pub codec: Codec,
    /// Keyframes also arrive on demand when a client reports picture loss,
    /// so this can be generous.
    pub keyframe_interval: u32,
}

impl Default for EncoderConfig {
    /// 1920x1080 at 60 fps, 12 Mbit/s H.264, a keyframe every 120 frames.
    fn default() -> (c: Self)
        ensures
            c.width == 1920,
            c.height == 1080,
            c.fps == 60,
            c.bitrate_kbps == 12_000,
            c.codec == Codec::H264,
            c.keyframe_interval == 120,
    {
        EncoderConfig {
            width: 1920,
            height: 1080,
            fps: 60,
            bitrate_kbps: 12_000,
            codec: Codec::H264,
            keyframe_interval: 120,
        }
    }
}

#[verifier::external_type_specification]
#[verifier::external_body]
pub struct ExIoError(std::io::Error);

/// One error type for the whole pipeline, so a caller can tell a missing
/// permission from a bind failure.
#[derive(Debug)]
pub enum Error {
    /// The virtual display could not be created.
    VirtualDisplay(String),
    /// Capture could not start; usually a missing permission.
    Capture(String),
    /// The encoder rejected the session or a frame.
    Encode(String),
    /// Signalling, ICE, or the peer connection failed.
    Transport(String),
    /// Input injection failed; usually a missing permission.
    Input(String),
    Config(String),
    Io(std::io::Error),
}

/// Renders an I/O error as its `Display` text.
///
/// Trusted: formats the `std::io::Error` with `{}`. The text depends on the
/// operating system's error strings, so nothing is said of it.
#[verifier::external_body]
fn io_error_text(e: &std::io::Error) -> String {
    format!("{}", e)
}

/// The layer prefix of an error's message.
pub open spec fn error_prefix(e: Error) -> Seq<char> {
    match e {
        Error::VirtualDisplay(_) => "virtual display: "@,
        Error::Capture(_) => "capture: "@,
        Error::Encode(_) => "encoder: "@,
        Error::Transport(_) => "transport: "@,
        Error::Input(_) => "input: "@,
        Error::Config(_) => "config: "@,
        Error::Io(_) => "io: "@,
    }
}

impl Error {
    /// The message: the layer it came from, a colon, and the detail.
    pub fn message(&self) -> (m: String)
        ensures
            m@.len() >= error_prefix(*self).len(),
            m@.take(error_prefix(*self).len() as int) == error_prefix(*self),
            match self {
                Error::VirtualDisplay(d) => m@ == error_prefix(*self) + d@,
                Error::Capture(d) => m@ == error_prefix(*self) + d@,
                Error::Encode(d) => m@ == error_prefix(*self) + d@,
                Error::Transport(d) => m@ == error_prefix(*self) + d@,
                Error::Input(d) => m@ == error_prefix(*self) + d@,
                Error::Config(d) => m@ == error_prefix(*self) + d@,
                Error::Io(_) => true,
            },
    {
        let (mut m, detail): (String, Option<&String>) = match self {
            Error::VirtualDisplay(d) => (String::from_str("virtual display: "), Some(d)),
            Error::Capture(d) => (String::from_str("capture: "), Some(d)),
            Error::Encode(d) => (String::from_str("encoder: "), Some(d)),
            Error::Transport(d) => (String::from_str("transport: "), Some(d)),
            Error::Input(d) => (String::from_str("input: "), Some(d)),
            Error::Config(d) => (String::from_str("config: "), Some(d)),
            Error::Io(_) => (String::from_str("io: "), None),
        };
        let ghost prefix = m@;
        match detail {
            Some(d) => push_str(&mut m, d.as_str()),
            None => {
                if let Error::Io(e) = self {
                    let t = io_error_text(e);
                    push_str(&mut m, t.as_str());
                }
            },
        }
        assert(m@.take(prefix.len() as int) =~= prefix);
        m
    }
}

impl From<std::io::Error> for Error {
    fn from(e: std::io::Error) -> (r: Self) {
        Error::Io(e)
    }
}

impl FromSpecImpl<std::io::Error> for Error {
    open spec fn obeys_from_spec() -> bool {
        true
    }

    open spec fn from_spec(v: std::io::Error) -> Self {
        Error::Io(v)
    }
}

/// Presentation timestamp in microseconds on the capture clock.
pub type Timestamp = i64;

/// One compressed access unit, ready for the payloader. `data` is Annex-B;
/// keyframes carry their parameter sets in band.
#[derive(Debug)]
pub struct EncodedSample {
    pub data: Vec<u8>,
    pub pts: Timestamp,
    pub dur: std::time::Duration,
    pub keyframe: bool,
}

impl EncodedSample {
    /// Number of bytes of compressed data.
    pub fn len(&self) -> (n: usize)
        ensures
            n == self.data@.len(),
    {
        self.data.len()
    }

    /// Whether the sample holds no data.
    pub fn is_empty(&self) -> (r: bool)
        ensures
            r == (self.data@.len() == 0),
    {
        self.data.len() == 0
    }
}

} // verus!
