//! What the menu bar menu says.
//!
//! The menu itself is AppKit and lives with the application; the lines it
//! shows are decided here, from a [`Status`] refreshed on a timer.

use crate::text::{decimal, decimal_chars, push_chars, push_str, str_eq};
use vstd::prelude::*;

verus! {

/// What the menu needs to render.
pub struct Status {
    pub url: String,
    pub clients: u64,
    pub fps_out: u64,
    pub source: String,
    pub resolution: (u32, u32),
    /// Resolutions offered, as menu labels. Empty when the source is a real
    /// screen, whose mode is not ours to change.
    pub modes: Vec<String>,
    pub current_mode: String,
    /// Whether clients can drive this Mac. Shown because a capability like
    /// this should never be invisible to the person whose machine it is.
    pub input_enabled: bool,
}

/// The input line: deliberately explicit when clients can take control.
pub open spec fn input_text(enabled: bool) -> Seq<char> {
    if enabled {
        "Clients CAN control this Mac"@
    } else {
        "View only"@
    }
}

/// Deliberately explicit when on: "Input: on" would be easy to skim past for
/// something that hands a remote machine your cursor and keyboard.
pub fn input_line(enabled: bool) -> (s: String)
    ensures
        s@ == input_text(enabled),
{
    if enabled {
        String::from_str("Clients CAN control this Mac")
    } else {
        String::from_str("View only")
    }
}

/// The streaming line: source and resolution.
pub open spec fn status_text(source: Seq<char>, w: u32, h: u32) -> Seq<char> {
    "Streaming "@ + source + " at "@ + decimal(w as nat) + "x"@ + decimal(h as nat)
}

/// "Streaming <source> at <w>x<h>".
pub fn status_line(source: &str, resolution: (u32, u32)) -> (s: String)
    ensures
        s@ == status_text(source@, resolution.0, resolution.1),
{
    let mut s = String::from_str("Streaming ");
    push_str(&mut s, source);
    push_str(&mut s, " at ");
    push_chars(&mut s, decimal_chars(resolution.0 as u64).as_slice());
    push_str(&mut s, "x");
    push_chars(&mut s, decimal_chars(resolution.1 as u64).as_slice());
    s
}

/// The clients line: nobody, one client, or how many, with the frame rate.
pub open spec fn clients_text(clients: u64, fps: u64) -> Seq<char> {
    if clients == 0 {
        "No clients connected"@
    } else if clients == 1 {
        "1 client  ·  "@ + decimal(fps as nat) + " fps"@
    } else {
        decimal(clients as nat) + " clients  ·  "@ + decimal(fps as nat) + " fps"@
    }
}

/// How many clients are watching, and at what frame rate.
pub fn clients_line(clients: u64, fps: u64) -> (s: String)
    ensures
        s@ == clients_text(clients, fps),
{
    if clients == 0 {
        String::from_str("No clients connected")
    } else if clients == 1 {
        let mut s = String::from_str("1 client  ·  ");
        push_chars(&mut s, decimal_chars(fps).as_slice());
        push_str(&mut s, " fps");
        s
    } else {
        let mut s = String::new();
        push_chars(&mut s, decimal_chars(clients).as_slice());
        push_str(&mut s, " clients  ·  ");
        push_chars(&mut s, decimal_chars(fps).as_slice());
        push_str(&mut s, " fps");
        proof {
            assert(s@ =~= clients_text(clients, fps));
        }
        s
    }
}

/// Which resolution entries carry the tick: those whose label is the live
/// mode.
pub fn mode_checks(modes: &[String], current_mode: &str) -> (checks: Vec<bool>)
    ensures
        checks@.len() == modes@.len(),
        forall|i: int| 0 <= i < modes@.len() ==> #[trigger] checks@[i] == (modes@[i]@ == current_mode@),
{
    let mut checks: Vec<bool> = Vec::new();
    let mut i: usize = 0;
    while i < modes.len()
        invariant
            i <= modes.len(),
            checks@.len() == i,
            forall|j: int| 0 <= j < i ==> #[trigger] checks@[j] == (modes@[j]@ == current_mode@),
        decreases modes.len() - i,
    {
        checks.push(str_eq(modes[i].as_str(), current_mode));
        i += 1;
    }
    checks
}

/// The lines of the menu for a status: streaming, clients, input, URL.
pub fn menu_lines(s: &Status) -> (lines: (String, String, String, String))
    ensures
        lines.0@ == status_text(s.source@, s.resolution.0, s.resolution.1),
        lines.1@ == clients_text(s.clients, s.fps_out),
        lines.2@ == input_text(s.input_enabled),
        lines.3@ == s.url@,
{
    (
        status_line(s.source.as_str(), s.resolution),
        clients_line(s.clients, s.fps_out),
        input_line(s.input_enabled),
        s.url.clone(),
    )
}

} // verus!
