//! Translating browser key identifiers into macOS virtual key codes.
//!
//! The browser's `KeyboardEvent.code` names the physical key (`KeyA` wherever
//! that key sits and whatever it prints), and macOS virtual key codes are
//! physical too, so one maps onto the other directly and the Mac's own layout
//! then decides what the keypress produces. The constants are the ANSI
//! positions from `HIToolbox/Events.h`.
//!
//! Keys with no equivalent map to nothing and are dropped rather than
//! guessed at: a wrong keycode types the wrong character, which is worse than
//! typing nothing. Modifiers are absent on purpose, since they travel as
//! flags on other events.

use crate::text::str_eq;
use vstd::prelude::*;

verus! {

/// Letters, in the order Apple defines them (it follows the physical ANSI layout).
pub open spec fn letter_key(code: Seq<char>) -> Option<u16> {
    if code == "KeyA"@ {
        Some(0x00u16)
    } else if code == "KeyS"@ {
        Some(0x01u16)
    } else if code == "KeyD"@ {
        Some(0x02u16)
    } else if code == "KeyF"@ {
        Some(0x03u16)
    } else if code == "KeyH"@ {
        Some(0x04u16)
    } else if code == "KeyG"@ {
        Some(0x05u16)
    } else if code == "KeyZ"@ {
        Some(0x06u16)
    } else if code == "KeyX"@ {
        Some(0x07u16)
    } else if code == "KeyC"@ {
        Some(0x08u16)
    } else if code == "KeyV"@ {
        Some(0x09u16)
    } else if code == "KeyB"@ {
        Some(0x0Bu16)
    } else if code == "KeyQ"@ {
        Some(0x0Cu16)
    } else if code == "KeyW"@ {
        Some(0x0Du16)
    } else if code == "KeyE"@ {
        Some(0x0Eu16)
    } else if code == "KeyR"@ {
        Some(0x0Fu16)
    } else if code == "KeyY"@ {
        Some(0x10u16)
    } else if code == "KeyT"@ {
        Some(0x11u16)
    } else if code == "KeyO"@ {
        Some(0x1Fu16)
    } else if code == "KeyU"@ {
        Some(0x20u16)
    } else if code == "KeyI"@ {
        Some(0x22u16)
    } else if code == "KeyP"@ {
        Some(0x23u16)
    } else if code == "KeyL"@ {
        Some(0x25u16)
    } else if code == "KeyJ"@ {
        Some(0x26u16)
    } else if code == "KeyK"@ {
        Some(0x28u16)
    } else if code == "KeyN"@ {
        Some(0x2Du16)
    } else if code == "KeyM"@ {
        Some(0x2Eu16)
    } else {
        None
    }
}

fn letter_code(code: &str) -> (r: Option<u16>)
    ensures
        r == letter_key(code@),
{
    if str_eq(code, "KeyA") {
        return Some(0x00);
    }
    if str_eq(code, "KeyS") {
        return Some(0x01);
    }
    if str_eq(code, "KeyD") {
        return Some(0x02);
    }
    if str_eq(code, "KeyF") {
        return Some(0x03);
    }
    if str_eq(code, "KeyH") {
        return Some(0x04);
    }
    if str_eq(code, "KeyG") {
        return Some(0x05);
    }
    if str_eq(code, "KeyZ") {
        return Some(0x06);
    }
    if str_eq(code, "KeyX") {
        return Some(0x07);
    }
    if str_eq(code, "KeyC") {
        return Some(0x08);
    }
    if str_eq(code, "KeyV") {
        return Some(0x09);
    }
    if str_eq(code, "KeyB") {
        return Some(0x0B);
    }
    if str_eq(code, "KeyQ") {
        return Some(0x0C);
    }
    if str_eq(code, "KeyW") {
        return Some(0x0D);
    }
    if str_eq(code, "KeyE") {
        return Some(0x0E);
    }
    if str_eq(code, "KeyR") {
        return Some(0x0F);
    }
    if str_eq(code, "KeyY") {
        return Some(0x10);
    }
    if str_eq(code, "KeyT") {
        return Some(0x11);
    }
    if str_eq(code, "KeyO") {
        return Some(0x1F);
    }
    if str_eq(code, "KeyU") {
        return Some(0x20);
    }
    if str_eq(code, "KeyI") {
        return Some(0x22);
    }
    if str_eq(code, "KeyP") {
        return Some(0x23);
    }
    if str_eq(code, "KeyL") {
        return Some(0x25);
    }
    if str_eq(code, "KeyJ") {
        return Some(0x26);
    }
    if str_eq(code, "KeyK") {
        return Some(0x28);
    }
    if str_eq(code, "KeyN") {
        return Some(0x2D);
    }
    if str_eq(code, "KeyM") {
        return Some(0x2E);
    }
    None
}

/// The digit row.
pub open spec fn digit_key(code: Seq<char>) -> Option<u16> {
    if code == "Digit1"@ {
        Some(0x12u16)
    } else if code == "Digit2"@ {
        Some(0x13u16)
    } else if code == "Digit3"@ {
        Some(0x14u16)
    } else if code == "Digit4"@ {
        Some(0x15u16)
    } else if code == "Digit6"@ {
        Some(0x16u16)
    } else if code == "Digit5"@ {
        Some(0x17u16)
    } else if code == "Digit9"@ {
        Some(0x19u16)
    } else if code == "Digit7"@ {
        Some(0x1Au16)
    } else if code == "Digit8"@ {
        Some(0x1Cu16)
    } else if code == "Digit0"@ {
        Some(0x1Du16)
    } else {
        None
    }
}

fn digit_code(code: &str) -> (r: Option<u16>)
    ensures
        r == digit_key(code@),
{
    if str_eq(code, "Digit1") {
        return Some(0x12);
    }
    if str_eq(code, "Digit2") {
        return Some(0x13);
    }
    if str_eq(code, "Digit3") {
        return Some(0x14);
    }
    if str_eq(code, "Digit4") {
        return Some(0x15);
    }
    if str_eq(code, "Digit6") {
        return Some(0x16);
    }
    if str_eq(code, "Digit5") {
        return Some(0x17);
    }
    if str_eq(code, "Digit9") {
        return Some(0x19);
    }
    if str_eq(code, "Digit7") {
        return Some(0x1A);
    }
    if str_eq(code, "Digit8") {
        return Some(0x1C);
    }
    if str_eq(code, "Digit0") {
        return Some(0x1D);
    }
    None
}

/// Punctuation.
pub open spec fn punctuation_key(code: Seq<char>) -> Option<u16> {
    if code == "Equal"@ {
        Some(0x18u16)
    } else if code == "Minus"@ {
        Some(0x1Bu16)
    } else if code == "BracketRight"@ {
        Some(0x1Eu16)
    } else if code == "BracketLeft"@ {
        Some(0x21u16)
    } else if code == "Quote"@ {
        Some(0x27u16)
    } else if code == "Semicolon"@ {
        Some(0x29u16)
    } else if code == "Backslash"@ {
        Some(0x2Au16)
    } else if code == "Comma"@ {
        Some(0x2Bu16)
    } else if code == "Slash"@ {
        Some(0x2Cu16)
    } else if code == "Period"@ {
        Some(0x2Fu16)
    } else if code == "Backquote"@ {
        Some(0x32u16)
    } else {
        None
    }
}

fn punctuation_code(code: &str) -> (r: Option<u16>)
    ensures
        r == punctuation_key(code@),
{
    if str_eq(code, "Equal") {
        return Some(0x18);
    }
    if str_eq(code, "Minus") {
        return Some(0x1B);
    }
    if str_eq(code, "BracketRight") {
        return Some(0x1E);
    }
    if str_eq(code, "BracketLeft") {
        return Some(0x21);
    }
    if str_eq(code, "Quote") {
        return Some(0x27);
    }
    if str_eq(code, "Semicolon") {
        return Some(0x29);
    }
    if str_eq(code, "Backslash") {
        return Some(0x2A);
    }
    if str_eq(code, "Comma") {
        return Some(0x2B);
    }
    if str_eq(code, "Slash") {
        return Some(0x2C);
    }
    if str_eq(code, "Period") {
        return Some(0x2F);
    }
    if str_eq(code, "Backquote") {
        return Some(0x32);
    }
    None
}

/// Editing and whitespace. Both Enter keys map to the same code.
pub open spec fn editing_key(code: Seq<char>) -> Option<u16> {
    if code == "Enter"@ {
        Some(0x24u16)
    } else if code == "NumpadEnter"@ {
        Some(0x24u16)
    } else if code == "Tab"@ {
        Some(0x30u16)
    } else if code == "Space"@ {
        Some(0x31u16)
    } else if code == "Backspace"@ {
        Some(0x33u16)
    } else if code == "Escape"@ {
        Some(0x35u16)
    } else if code == "Delete"@ {
        Some(0x75u16)
    } else {
        None
    }
}

fn editing_code(code: &str) -> (r: Option<u16>)
    ensures
        r == editing_key(code@),
{
    if str_eq(code, "Enter") {
        return Some(0x24);
    }
    if str_eq(code, "NumpadEnter") {
        return Some(0x24);
    }
    if str_eq(code, "Tab") {
        return Some(0x30);
    }
    if str_eq(code, "Space") {
        return Some(0x31);
    }
    if str_eq(code, "Backspace") {
        return Some(0x33);
    }
    if str_eq(code, "Escape") {
        return Some(0x35);
    }
    if str_eq(code, "Delete") {
        return Some(0x75);
    }
    None
}

/// Navigation.
pub open spec fn navigation_key(code: Seq<char>) -> Option<u16> {
    if code == "Home"@ {
        Some(0x73u16)
    } else if code == "End"@ {
        Some(0x77u16)
    } else if code == "PageUp"@ {
        Some(0x74u16)
    } else if code == "PageDown"@ {
        Some(0x79u16)
    } else if code == "ArrowLeft"@ {
        Some(0x7Bu16)
    } else if code == "ArrowRight"@ {
        Some(0x7Cu16)
    } else if code == "ArrowDown"@ {
        Some(0x7Du16)
    } else if code == "ArrowUp"@ {
        Some(0x7Eu16)
    } else {
        None
    }
}

fn navigation_code(code: &str) -> (r: Option<u16>)
    ensures
        r == navigation_key(code@),
{
    if str_eq(code, "Home") {
        return Some(0x73);
    }
    if str_eq(code, "End") {
        return Some(0x77);
    }
    if str_eq(code, "PageUp") {
        return Some(0x74);
    }
    if str_eq(code, "PageDown") {
        return Some(0x79);
    }
    if str_eq(code, "ArrowLeft") {
        return Some(0x7B);
    }
    if str_eq(code, "ArrowRight") {
        return Some(0x7C);
    }
    if str_eq(code, "ArrowDown") {
        return Some(0x7D);
    }
    if str_eq(code, "ArrowUp") {
        return Some(0x7E);
    }
    None
}

/// The function row.
pub open spec fn function_key(code: Seq<char>) -> Option<u16> {
    if code == "F1"@ {
        Some(0x7Au16)
    } else if code == "F2"@ {
        Some(0x78u16)
    } else if code == "F3"@ {
        Some(0x63u16)
    } else if code == "F4"@ {
        Some(0x76u16)
    } else if code == "F5"@ {
        Some(0x60u16)
    } else if code == "F6"@ {
        Some(0x61u16)
    } else if code == "F7"@ {
        Some(0x62u16)
    } else if code == "F8"@ {
        Some(0x64u16)
    } else if code == "F9"@ {
        Some(0x65u16)
    } else if code == "F10"@ {
        Some(0x6Du16)
    } else if code == "F11"@ {
        Some(0x67u16)
    } else if code == "F12"@ {
        Some(0x6Fu16)
    } else {
        None
    }
}

fn function_code(code: &str) -> (r: Option<u16>)
    ensures
        r == function_key(code@),
{
    if str_eq(code, "F1") {
        return Some(0x7A);
    }
    if str_eq(code, "F2") {
        return Some(0x78);
    }
    if str_eq(code, "F3") {
        return Some(0x63);
    }
    if str_eq(code, "F4") {
        return Some(0x76);
    }
    if str_eq(code, "F5") {
        return Some(0x60);
    }
    if str_eq(code, "F6") {
        return Some(0x61);
    }
    if str_eq(code, "F7") {
        return Some(0x62);
    }
    if str_eq(code, "F8") {
        return Some(0x64);
    }
    if str_eq(code, "F9") {
        return Some(0x65);
    }
    if str_eq(code, "F10") {
        return Some(0x6D);
    }
    if str_eq(code, "F11") {
        return Some(0x67);
    }
    if str_eq(code, "F12") {
        return Some(0x6F);
    }
    None
}

/// The numeric keypad.
pub open spec fn keypad_key(code: Seq<char>) -> Option<u16> {
    if code == "Numpad0"@ {
        Some(0x52u16)
    } else if code == "Numpad1"@ {
        Some(0x53u16)
    } else if code == "Numpad2"@ {
        Some(0x54u16)
    } else if code == "Numpad3"@ {
        Some(0x55u16)
    } else if code == "Numpad4"@ {
        Some(0x56u16)
    } else if code == "Numpad5"@ {
        Some(0x57u16)
    } else if code == "Numpad6"@ {
        Some(0x58u16)
    } else if code == "Numpad7"@ {
        Some(0x59u16)
    } else if code == "Numpad8"@ {
        Some(0x5Bu16)
    } else if code == "Numpad9"@ {
        Some(0x5Cu16)
    } else if code == "NumpadDecimal"@ {
        Some(0x41u16)
    } else if code == "NumpadMultiply"@ {
        Some(0x43u16)
    } else if code == "NumpadAdd"@ {
        Some(0x45u16)
    } else if code == "NumpadDivide"@ {
        Some(0x4Bu16)
    } else if code == "NumpadSubtract"@ {
        Some(0x4Eu16)
    } else if code == "NumpadEqual"@ {
        Some(0x51u16)
    } else {
        None
    }
}

fn keypad_code(code: &str) -> (r: Option<u16>)
    ensures
        r == keypad_key(code@),
{
    if str_eq(code, "Numpad0") {
        return Some(0x52);
    }
    if str_eq(code, "Numpad1") {
        return Some(0x53);
    }
    if str_eq(code, "Numpad2") {
        return Some(0x54);
    }
    if str_eq(code, "Numpad3") {
        return Some(0x55);
    }
    if str_eq(code, "Numpad4") {
        return Some(0x56);
    }
    if str_eq(code, "Numpad5") {
        return Some(0x57);
    }
    if str_eq(code, "Numpad6") {
        return Some(0x58);
    }
    if str_eq(code, "Numpad7") {
        return Some(0x59);
    }
    if str_eq(code, "Numpad8") {
        return Some(0x5B);
    }
    if str_eq(code, "Numpad9") {
        return Some(0x5C);
    }
    if str_eq(code, "NumpadDecimal") {
        return Some(0x41);
    }
    if str_eq(code, "NumpadMultiply") {
        return Some(0x43);
    }
    if str_eq(code, "NumpadAdd") {
        return Some(0x45);
    }
    if str_eq(code, "NumpadDivide") {
        return Some(0x4B);
    }
    if str_eq(code, "NumpadSubtract") {
        return Some(0x4E);
    }
    if str_eq(code, "NumpadEqual") {
        return Some(0x51);
    }
    None
}

/// The macOS virtual key code for a `KeyboardEvent.code` value, if it has one.
pub open spec fn virtual_key(code: Seq<char>) -> Option<u16> {
    if letter_key(code) is Some {
        letter_key(code)
    } else if digit_key(code) is Some {
        digit_key(code)
    } else if punctuation_key(code) is Some {
        punctuation_key(code)
    } else if editing_key(code) is Some {
        editing_key(code)
    } else if navigation_key(code) is Some {
        navigation_key(code)
    } else if function_key(code) is Some {
        function_key(code)
    } else {
        keypad_key(code)
    }
}

/// Maps a `KeyboardEvent.code` value to a macOS virtual key code.
///
/// Returns `None` for keys with no equivalent, which are then dropped rather
/// than guessed at.
pub fn code_to_virtual(code: &str) -> (r: Option<u16>)
    ensures
        r == virtual_key(code@),
{
    let r = letter_code(code);
    if r.is_some() {
        return r;
    }
    let r = digit_code(code);
    if r.is_some() {
        return r;
    }
    let r = punctuation_code(code);
    if r.is_some() {
        return r;
    }
    let r = editing_code(code);
    if r.is_some() {
        return r;
    }
    let r = navigation_code(code);
    if r.is_some() {
        return r;
    }
    let r = function_code(code);
    if r.is_some() {
        return r;
    }
    keypad_code(code)
}

/// The key a virtual key code belongs to, for the codes the map produces;
/// the code both Enter keys share belongs to `Enter`.
pub open spec fn key_of(vk: u16) -> Seq<char> {
    if vk == 0x00u16 {
        "KeyA"@
    } else if vk == 0x01u16 {
        "KeyS"@
    } else if vk == 0x02u16 {
        "KeyD"@
    } else if vk == 0x03u16 {
        "KeyF"@
    } else if vk == 0x04u16 {
        "KeyH"@
    } else if vk == 0x05u16 {
        "KeyG"@
    } else if vk == 0x06u16 {
        "KeyZ"@
    } else if vk == 0x07u16 {
        "KeyX"@
    } else if vk == 0x08u16 {
        "KeyC"@
    } else if vk == 0x09u16 {
        "KeyV"@
    } else if vk == 0x0Bu16 {
        "KeyB"@
    } else if vk == 0x0Cu16 {
        "KeyQ"@
    } else if vk == 0x0Du16 {
        "KeyW"@
    } else if vk == 0x0Eu16 {
        "KeyE"@
    } else if vk == 0x0Fu16 {
        "KeyR"@
    } else if vk == 0x10u16 {
        "KeyY"@
    } else if vk == 0x11u16 {
        "KeyT"@
    } else if vk == 0x1Fu16 {
        "KeyO"@
    } else if vk == 0x20u16 {
        "KeyU"@
    } else if vk == 0x22u16 {
        "KeyI"@
    } else if vk == 0x23u16 {
        "KeyP"@
    } else if vk == 0x25u16 {
        "KeyL"@
    } else if vk == 0x26u16 {
        "KeyJ"@
    } else if vk == 0x28u16 {
        "KeyK"@
    } else if vk == 0x2Du16 {
        "KeyN"@
    } else if vk == 0x2Eu16 {
        "KeyM"@
    } else if vk == 0x12u16 {
        "Digit1"@
    } else if vk == 0x13u16 {
        "Digit2"@
    } else if vk == 0x14u16 {
        "Digit3"@
    } else if vk == 0x15u16 {
        "Digit4"@
    } else if vk == 0x16u16 {
        "Digit6"@
    } else if vk == 0x17u16 {
        "Digit5"@
    } else if vk == 0x19u16 {
        "Digit9"@
    } else if vk == 0x1Au16 {
        "Digit7"@
    } else if vk == 0x1Cu16 {
        "Digit8"@
    } else if vk == 0x1Du16 {
        "Digit0"@
    } else if vk == 0x18u16 {
        "Equal"@
    } else if vk == 0x1Bu16 {
        "Minus"@
    } else if vk == 0x1Eu16 {
        "BracketRight"@
    } else if vk == 0x21u16 {
        "BracketLeft"@
    } else if vk == 0x27u16 {
        "Quote"@
    } else if vk == 0x29u16 {
        "Semicolon"@
    } else if vk == 0x2Au16 {
        "Backslash"@
    } else if vk == 0x2Bu16 {
        "Comma"@
    } else if vk == 0x2Cu16 {
        "Slash"@
    } else if vk == 0x2Fu16 {
        "Period"@
    } else if vk == 0x32u16 {
        "Backquote"@
    } else if vk == 0x24u16 {
        "Enter"@
    } else if vk == 0x30u16 {
        "Tab"@
    } else if vk == 0x31u16 {
        "Space"@
    } else if vk == 0x33u16 {
        "Backspace"@
    } else if vk == 0x35u16 {
        "Escape"@
    } else if vk == 0x75u16 {
        "Delete"@
    } else if vk == 0x73u16 {
        "Home"@
    } else if vk == 0x77u16 {
        "End"@
    } else if vk == 0x74u16 {
        "PageUp"@
    } else if vk == 0x79u16 {
        "PageDown"@
    } else if vk == 0x7Bu16 {
        "ArrowLeft"@
    } else if vk == 0x7Cu16 {
        "ArrowRight"@
    } else if vk == 0x7Du16 {
        "ArrowDown"@
    } else if vk == 0x7Eu16 {
        "ArrowUp"@
    } else if vk == 0x7Au16 {
        "F1"@
    } else if vk == 0x78u16 {
        "F2"@
    } else if vk == 0x63u16 {
        "F3"@
    } else if vk == 0x76u16 {
        "F4"@
    } else if vk == 0x60u16 {
        "F5"@
    } else if vk == 0x61u16 {
        "F6"@
    } else if vk == 0x62u16 {
        "F7"@
    } else if vk == 0x64u16 {
        "F8"@
    } else if vk == 0x65u16 {
        "F9"@
    } else if vk == 0x6Du16 {
        "F10"@
    } else if vk == 0x67u16 {
        "F11"@
    } else if vk == 0x6Fu16 {
        "F12"@
    } else if vk == 0x52u16 {
        "Numpad0"@
    } else if vk == 0x53u16 {
        "Numpad1"@
    } else if vk == 0x54u16 {
        "Numpad2"@
    } else if vk == 0x55u16 {
        "Numpad3"@
    } else if vk == 0x56u16 {
        "Numpad4"@
    } else if vk == 0x57u16 {
        "Numpad5"@
    } else if vk == 0x58u16 {
        "Numpad6"@
    } else if vk == 0x59u16 {
        "Numpad7"@
    } else if vk == 0x5Bu16 {
        "Numpad8"@
    } else if vk == 0x5Cu16 {
        "Numpad9"@
    } else if vk == 0x41u16 {
        "NumpadDecimal"@
    } else if vk == 0x43u16 {
        "NumpadMultiply"@
    } else if vk == 0x45u16 {
        "NumpadAdd"@
    } else if vk == 0x4Bu16 {
        "NumpadDivide"@
    } else if vk == 0x4Eu16 {
        "NumpadSubtract"@
    } else if vk == 0x51u16 {
        "NumpadEqual"@
    } else {
        Seq::empty()
    }
}

proof fn lemma_letter_key_inverse(code: Seq<char>)
    ensures
        letter_key(code) matches Some(v) ==> code == key_of(v) || (code == "NumpadEnter"@ && v == 0x24u16),
{
}

proof fn lemma_digit_key_inverse(code: Seq<char>)
    ensures
        digit_key(code) matches Some(v) ==> code == key_of(v) || (code == "NumpadEnter"@ && v == 0x24u16),
{
}

proof fn lemma_punctuation_key_inverse(code: Seq<char>)
    ensures
        punctuation_key(code) matches Some(v) ==> code == key_of(v) || (code == "NumpadEnter"@ && v == 0x24u16),
{
}

proof fn lemma_editing_key_inverse(code: Seq<char>)
    ensures
        editing_key(code) matches Some(v) ==> code == key_of(v) || (code == "NumpadEnter"@ && v == 0x24u16),
{
}

proof fn lemma_navigation_key_inverse(code: Seq<char>)
    ensures
        navigation_key(code) matches Some(v) ==> code == key_of(v) || (code == "NumpadEnter"@ && v == 0x24u16),
{
}

proof fn lemma_function_key_inverse(code: Seq<char>)
    ensures
        function_key(code) matches Some(v) ==> code == key_of(v) || (code == "NumpadEnter"@ && v == 0x24u16),
{
}

proof fn lemma_keypad_key_inverse(code: Seq<char>)
    ensures
        keypad_key(code) matches Some(v) ==> code == key_of(v) || (code == "NumpadEnter"@ && v == 0x24u16),
{
}

/// No two keys type the same thing: the only distinct codes that map to one
/// virtual key code are the two Enter keys.
pub proof fn lemma_only_enter_keys_share_a_code(a: Seq<char>, b: Seq<char>)
    requires
        a != b,
        virtual_key(a) is Some,
        virtual_key(a) == virtual_key(b),
    ensures
        (a == "Enter"@ && b == "NumpadEnter"@) || (a == "NumpadEnter"@ && b == "Enter"@),
{
    lemma_letter_key_inverse(a);
    lemma_letter_key_inverse(b);
    lemma_digit_key_inverse(a);
    lemma_digit_key_inverse(b);
    lemma_punctuation_key_inverse(a);
    lemma_punctuation_key_inverse(b);
    lemma_editing_key_inverse(a);
    lemma_editing_key_inverse(b);
    lemma_navigation_key_inverse(a);
    lemma_navigation_key_inverse(b);
    lemma_function_key_inverse(a);
    lemma_function_key_inverse(b);
    lemma_keypad_key_inverse(a);
    lemma_keypad_key_inverse(b);
}

} // verus!
