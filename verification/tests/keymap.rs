use annex::keymap::code_to_virtual;

#[test]
fn maps_the_keys_people_actually_press() {
    assert_eq!(code_to_virtual("KeyA"), Some(0x00));
    assert_eq!(code_to_virtual("Space"), Some(0x31));
    assert_eq!(code_to_virtual("Enter"), Some(0x24));
    assert_eq!(code_to_virtual("ArrowUp"), Some(0x7E));
    assert_eq!(code_to_virtual("Escape"), Some(0x35));
}

#[test]
fn both_enter_keys_agree() {
    // A laptop has one Enter, a full keyboard has two, and they should not
    // behave differently.
    assert_eq!(code_to_virtual("Enter"), code_to_virtual("NumpadEnter"));
}

#[test]
fn unknown_keys_are_dropped_not_guessed() {
    // Typing the wrong character is worse than typing nothing.
    assert_eq!(code_to_virtual("MediaPlayPause"), None);
    assert_eq!(code_to_virtual(""), None);
    assert_eq!(code_to_virtual("Nonsense"), None);
}

#[test]
fn modifiers_are_not_keystrokes() {
    // They travel as flags on other events, so mapping them here would
    // double-apply them.
    assert_eq!(code_to_virtual("ShiftLeft"), None);
    assert_eq!(code_to_virtual("MetaLeft"), None);
}

#[test]
fn every_group_of_keys_maps() {
    assert_eq!(code_to_virtual("KeyM"), Some(0x2E));
    assert_eq!(code_to_virtual("Digit0"), Some(0x1D));
    assert_eq!(code_to_virtual("Backquote"), Some(0x32));
    assert_eq!(code_to_virtual("Delete"), Some(0x75));
    assert_eq!(code_to_virtual("PageDown"), Some(0x79));
    assert_eq!(code_to_virtual("F12"), Some(0x6F));
    assert_eq!(code_to_virtual("NumpadEqual"), Some(0x51));
    // Case matters: codes are identifiers, not text.
    assert_eq!(code_to_virtual("keya"), None);
}

#[test]
fn only_the_enter_keys_share_a_code() {
    let codes = [
        "KeyA", "KeyS", "KeyD", "KeyF", "KeyH", "KeyG", "KeyZ", "KeyX", "KeyC", "KeyV", "KeyB", "KeyQ",
        "KeyW", "KeyE", "KeyR", "KeyY", "KeyT", "KeyO", "KeyU", "KeyI", "KeyP", "KeyL", "KeyJ", "KeyK",
        "KeyN", "KeyM", "Digit0", "Digit1", "Digit2", "Digit3", "Digit4", "Digit5", "Digit6", "Digit7",
        "Digit8", "Digit9", "Equal", "Minus", "BracketRight", "BracketLeft", "Quote", "Semicolon",
        "Backslash", "Comma", "Slash", "Period", "Backquote", "Enter", "NumpadEnter", "Tab", "Space",
        "Backspace", "Escape", "Delete", "Home", "End", "PageUp", "PageDown", "ArrowLeft", "ArrowRight",
        "ArrowDown", "ArrowUp", "F1", "F2", "F3", "F4", "F5", "F6", "F7", "F8", "F9", "F10", "F11", "F12",
        "Numpad0", "Numpad1", "Numpad2", "Numpad3", "Numpad4", "Numpad5", "Numpad6", "Numpad7",
        "Numpad8", "Numpad9", "NumpadDecimal", "NumpadMultiply", "NumpadAdd", "NumpadDivide",
        "NumpadSubtract", "NumpadEqual",
    ];
    for (i, a) in codes.iter().enumerate() {
        for b in &codes[i + 1..] {
            let (va, vb) = (code_to_virtual(a), code_to_virtual(b));
            assert!(va.is_some());
            if va == vb {
                assert_eq!((*a, *b), ("Enter", "NumpadEnter"));
            }
        }
    }
}
