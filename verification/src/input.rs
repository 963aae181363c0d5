//! The decisions behind turning client input into macOS events.
//!
//! Posting the events needs CoreGraphics and runs on the host's main thread;
//! what to post is decided here. Coordinates arrive normalised and are mapped
//! by the caller, which also measures whether a press lands close enough, in
//! time and place, to the previous one to continue a multi-click.
//!
//! Two rules carry most of the weight. A move while a button is held must be
//! sent as a drag, or selection and drag-and-drop do nothing. And a release
//! must carry the same click count as its press, or the pair is not
//! recognised as one click.

use crate::keymap::{code_to_virtual, virtual_key};
use vstd::prelude::*;

verus! {

/// A mouse button, as the client names it.
#[derive(Debug, Clone, Copy, PartialEq, Eq, Structural)]
pub enum MouseButton {
    Left,
    Right,
    Middle,
}

/// Modifier state, matching the browser's `KeyboardEvent` booleans rather
/// than any Apple constant.
#[derive(Debug, Clone, Copy, PartialEq, Eq, Default, Structural)]
pub struct KeyMods {
    pub shift: bool,
    pub ctrl: bool,
    pub alt: bool,
    pub meta: bool,
}

/// Why an event could not be injected.
#[derive(Debug)]
pub enum InputError {
    /// The Accessibility grant is missing.
    PermissionDenied,
    /// The display vanished, so there is nothing to map coordinates onto.
    NoDisplay,
    PostFailed,
    /// Built for a platform with no CoreGraphics.
    Unsupported,
}

impl InputError {
    /// The human-readable description of the error.
    pub fn message(&self) -> (m: &'static str)
        ensures
            m@ == match self {
                InputError::PermissionDenied => "Accessibility permission not granted"@,
                InputError::NoDisplay => "the target display is gone"@,
                InputError::PostFailed => "CGEventPost failed"@,
                InputError::Unsupported => "no CoreGraphics on this platform"@,
            },
    {
        match self {
            InputError::PermissionDenied => "Accessibility permission not granted",
            InputError::NoDisplay => "the target display is gone",
            InputError::PostFailed => "CGEventPost failed",
            InputError::Unsupported => "no CoreGraphics on this platform",
        }
    }
}

// CGEventType values.
pub const MOUSE_MOVED: u32 = 5;
pub const LEFT_DOWN: u32 = 1;
pub const LEFT_UP: u32 = 2;
pub const RIGHT_DOWN: u32 = 3;
pub const RIGHT_UP: u32 = 4;
pub const OTHER_DOWN: u32 = 25;
pub const OTHER_UP: u32 = 26;
pub const LEFT_DRAGGED: u32 = 6;
pub const RIGHT_DRAGGED: u32 = 7;
pub const OTHER_DRAGGED: u32 = 27;

// CGMouseButton values.
pub const BUTTON_LEFT: u32 = 0;
pub const BUTTON_RIGHT: u32 = 1;
pub const BUTTON_CENTER: u32 = 2;

// CGEventFlags.
pub const FLAG_SHIFT: u64 = 0x0002_0000;
pub const FLAG_CONTROL: u64 = 0x0004_0000;
pub const FLAG_ALTERNATE: u64 = 0x0008_0000;
pub const FLAG_COMMAND: u64 = 0x0010_0000;

/// The event flags for a modifier state: the sum of the flags of the
/// modifiers that are down.
pub open spec fn flags_of(m: KeyMods) -> u64 {
    ((if m.shift { FLAG_SHIFT } else { 0u64 }) + (if m.ctrl { FLAG_CONTROL } else { 0u64 }) + (if m.alt {
        FLAG_ALTERNATE
    } else {
        0u64
    }) + (if m.meta { FLAG_COMMAND } else { 0u64 })) as u64
}

/// Translates a modifier state into `CGEventFlags`.
///
/// Each flag is present exactly when its modifier is down, so no modifier
/// can act as another.
pub fn flags_for(m: KeyMods) -> (f: u64)
    ensures
        f == flags_of(m),
        (f & FLAG_SHIFT != 0) == m.shift,
        (f & FLAG_CONTROL != 0) == m.ctrl,
        (f & FLAG_ALTERNATE != 0) == m.alt,
        (f & FLAG_COMMAND != 0) == m.meta,
        f & !(FLAG_SHIFT | FLAG_CONTROL | FLAG_ALTERNATE | FLAG_COMMAND) == 0,
{
    let mut f: u64 = 0;
    if m.shift {
        f = f + FLAG_SHIFT;
    }
    if m.ctrl {
        f = f + FLAG_CONTROL;
    }
    if m.alt {
        f = f + FLAG_ALTERNATE;
    }
    if m.meta {
        f = f + FLAG_COMMAND;
    }
    let (s, c, a, k) = (m.shift, m.ctrl, m.alt, m.meta);
    assert(f == ((if s { 0x20000u64 } else { 0u64 }) + (if c { 0x40000u64 } else { 0u64 }) + (if a {
        0x80000u64
    } else {
        0u64
    }) + (if k { 0x100000u64 } else { 0u64 })) as u64);
    assert((f & 0x20000u64 != 0) == s && (f & 0x40000u64 != 0) == c && (f & 0x80000u64 != 0) == a
        && (f & 0x100000u64 != 0) == k && f & !(0x20000u64 | 0x40000u64 | 0x80000u64 | 0x100000u64)
        == 0) by (bit_vector)
        requires
            f == ((if s { 0x20000u64 } else { 0u64 }) + (if c { 0x40000u64 } else { 0u64 }) + (if a {
                0x80000u64
            } else {
                0u64
            }) + (if k { 0x100000u64 } else { 0u64 })) as u64,
    ;
    f
}

/// The four modifier flags occupy distinct bits.
pub proof fn lemma_modifier_flags_distinct()
    ensures
        FLAG_SHIFT & FLAG_CONTROL == 0,
        FLAG_SHIFT & FLAG_ALTERNATE == 0,
        FLAG_SHIFT & FLAG_COMMAND == 0,
        FLAG_CONTROL & FLAG_ALTERNATE == 0,
        FLAG_CONTROL & FLAG_COMMAND == 0,
        FLAG_ALTERNATE & FLAG_COMMAND == 0,
{
    assert(0x20000u64 & 0x40000u64 == 0) by (bit_vector);
    assert(0x20000u64 & 0x80000u64 == 0) by (bit_vector);
    assert(0x20000u64 & 0x100000u64 == 0) by (bit_vector);
    assert(0x40000u64 & 0x80000u64 == 0) by (bit_vector);
    assert(0x40000u64 & 0x100000u64 == 0) by (bit_vector);
    assert(0x80000u64 & 0x100000u64 == 0) by (bit_vector);
}

/// Help text for a missing Accessibility grant.
pub fn permission_help() -> (h: &'static str)
    ensures
        h@ == "Accessibility permission is required to control this Mac from the client.\n\
     \n\
     Open System Settings > Privacy & Security > Accessibility and enable Annex,\n\
     then relaunch. macOS applies this permission only when an app starts."@,
{
    "Accessibility permission is required to control this Mac from the client.\n\
     \n\
     Open System Settings > Privacy & Security > Accessibility and enable Annex,\n\
     then relaunch. macOS applies this permission only when an app starts."
}

/// One mouse event to post: its `CGEventType`, its `CGMouseButton`, and the
/// click count to set on it (zero means the field is left alone).
#[derive(Debug, Clone, Copy, PartialEq, Eq, Structural)]
pub struct MouseAction {
    pub kind: u32,
    pub button: u32,
    pub clicks: u32,
}

/// The event type and button of a move: a drag of the held button, or a
/// plain move when nothing is held.
pub open spec fn move_event(held: Option<MouseButton>) -> (u32, u32) {
    match held {
        Some(MouseButton::Left) => (LEFT_DRAGGED, BUTTON_LEFT),
        Some(MouseButton::Right) => (RIGHT_DRAGGED, BUTTON_RIGHT),
        Some(MouseButton::Middle) => (OTHER_DRAGGED, BUTTON_CENTER),
        None => (MOUSE_MOVED, BUTTON_LEFT),
    }
}

/// The event type and button of a press or release.
pub open spec fn button_event(btn: MouseButton, down: bool) -> (u32, u32) {
    match (btn, down) {
        (MouseButton::Left, true) => (LEFT_DOWN, BUTTON_LEFT),
        (MouseButton::Left, false) => (LEFT_UP, BUTTON_LEFT),
        (MouseButton::Right, true) => (RIGHT_DOWN, BUTTON_RIGHT),
        (MouseButton::Right, false) => (RIGHT_UP, BUTTON_RIGHT),
        (MouseButton::Middle, true) => (OTHER_DOWN, BUTTON_CENTER),
        (MouseButton::Middle, false) => (OTHER_UP, BUTTON_CENTER),
    }
}

/// The click count of a press: it continues the previous sequence (one,
/// two, three, then one again) when the press is close to the last one in
/// time and place, and starts a new sequence otherwise.
pub open spec fn press_clicks(last: Option<u32>, continues: bool) -> u32 {
    match last {
        Some(n) if continues => ((n % 3) + 1) as u32,
        _ => 1,
    }
}

/// The click count of a release: the count of the press it ends.
pub open spec fn release_clicks(last: Option<u32>) -> u32 {
    match last {
        Some(n) => n,
        None => 1,
    }
}

/// What the injector remembers between events: which button is held, and
/// the click count of the last press.
#[derive(Debug, Clone, Copy, PartialEq, Eq, Structural)]
pub struct PointerState {
    pub held: Option<MouseButton>,
    pub last_clicks: Option<u32>,
}

impl PointerState {
    /// No button held and no click yet.
    pub fn new() -> (s: Self)
        ensures
            s.held is None,
            s.last_clicks is None,
    {
        PointerState { held: None, last_clicks: None }
    }

    /// The event for a move: a drag when a button is held, with no click
    /// count.
    pub fn on_move(&self) -> (a: MouseAction)
        ensures
            (a.kind, a.button) == move_event(self.held),
            a.clicks == 0,
    {
        let (kind, button) = match self.held {
            Some(MouseButton::Left) => (LEFT_DRAGGED, BUTTON_LEFT),
            Some(MouseButton::Right) => (RIGHT_DRAGGED, BUTTON_RIGHT),
            Some(MouseButton::Middle) => (OTHER_DRAGGED, BUTTON_CENTER),
            None => (MOUSE_MOVED, BUTTON_LEFT),
        };
        MouseAction { kind, button, clicks: 0 }
    }

    /// The event for a press or release of `btn`, and the state after it.
    ///
    /// `continues` says whether a press lands soon enough and close enough to
    /// the previous press to extend its click sequence; it is ignored for a
    /// release, which repeats the count of the press.
    pub fn on_button(&mut self, btn: MouseButton, down: bool, continues: bool) -> (a: MouseAction)
        ensures
            (a.kind, a.button) == button_event(btn, down),
            final(self).held == (if down { Some(btn) } else { None::<MouseButton> }),
            down ==> a.clicks == press_clicks(old(self).last_clicks, continues)
                && final(self).last_clicks == Some(a.clicks),
            !down ==> a.clicks == release_clicks(old(self).last_clicks) && final(self).last_clicks
                == old(self).last_clicks,
            down && !continues ==> a.clicks == 1,
            down && continues && old(self).last_clicks == Some(1u32) ==> a.clicks == 2,
            down && continues && old(self).last_clicks == Some(2u32) ==> a.clicks == 3,
            down && continues && old(self).last_clicks == Some(3u32) ==> a.clicks == 1,
            down && old(self).last_clicks is None ==> a.clicks == 1,
    {
        let (kind, button) = match (btn, down) {
            (MouseButton::Left, true) => (LEFT_DOWN, BUTTON_LEFT),
            (MouseButton::Left, false) => (LEFT_UP, BUTTON_LEFT),
            (MouseButton::Right, true) => (RIGHT_DOWN, BUTTON_RIGHT),
            (MouseButton::Right, false) => (RIGHT_UP, BUTTON_RIGHT),
            (MouseButton::Middle, true) => (OTHER_DOWN, BUTTON_CENTER),
            (MouseButton::Middle, false) => (OTHER_UP, BUTTON_CENTER),
        };
        self.held = if down {
            Some(btn)
        } else {
            None
        };
        let clicks = if down {
            let c = match self.last_clicks {
                Some(n) if continues => (n % 3) + 1,
                _ => 1,
            };
            self.last_clicks = Some(c);
            c
        } else {
            match self.last_clicks {
                Some(n) => n,
                None => 1,
            }
        };
        MouseAction { kind, button, clicks }
    }
}

/// A press that does not continue the previous sequence, or follows no
/// press at all, is a single click, whatever came before; a continuing press
/// counts one more than the press it continues, wrapping after three.
pub proof fn lemma_new_sequence_is_single_click(last: Option<u32>, continues: bool)
    ensures
        press_clicks(last, false) == 1,
        press_clicks(None, continues) == 1,
        forall|n: u32| 1 <= n < 3 && continues && last == Some(n) ==> press_clicks(last, continues) == n + 1,
        continues && last == Some(3u32) ==> press_clicks(last, continues) == 1,
{
}

/// A press starts or continues a click sequence, so its count is 1, 2 or 3,
/// and the release that follows it carries the same count.
pub proof fn lemma_release_matches_press(
    last: Option<u32>,
    continues: bool,
)
    requires
        last matches Some(n) ==> 1 <= n <= 3,
    ensures
        1 <= press_clicks(last, continues) <= 3,
        release_clicks(Some(press_clicks(last, continues))) == press_clicks(last, continues),
        continues && last == Some(1u32) ==> press_clicks(last, continues) == 2,
        continues && last == Some(2u32) ==> press_clicks(last, continues) == 3,
        continues && last == Some(3u32) ==> press_clicks(last, continues) == 1,
{
}

/// The keyboard event for a key: the virtual key code and the modifier
/// flags, or nothing for a key with no macOS equivalent.
pub fn key_event(code: &str, mods: KeyMods) -> (r: Option<(u16, u64)>)
    ensures
        r == match virtual_key(code@) {
            Some(vk) => Some((vk, flags_of(mods))),
            None => None,
        },
{
    match code_to_virtual(code) {
        Some(vk) => Some((vk, flags_for(mods))),
        None => None,
    }
}

} // verus!
