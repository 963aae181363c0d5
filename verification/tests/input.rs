use annex::input::{
    flags_for, key_event, permission_help, InputError, KeyMods, MouseButton, PointerState,
    BUTTON_CENTER, BUTTON_LEFT, BUTTON_RIGHT, FLAG_ALTERNATE, FLAG_COMMAND, FLAG_CONTROL,
    FLAG_SHIFT, LEFT_DOWN, LEFT_DRAGGED, LEFT_UP, MOUSE_MOVED, OTHER_DOWN, OTHER_DRAGGED,
    RIGHT_DRAGGED, RIGHT_UP,
};

#[test]
fn modifier_flags_combine() {
    let none = flags_for(KeyMods::default());
    assert_eq!(none, 0);

    let cmd_shift = flags_for(KeyMods {
        shift: true,
        meta: true,
        ..Default::default()
    });
    assert_eq!(cmd_shift, FLAG_SHIFT | FLAG_COMMAND);
}

#[test]
fn all_four_modifiers_are_distinct() {
    // A collision here would make one modifier silently act as another.
    let all = [FLAG_SHIFT, FLAG_CONTROL, FLAG_ALTERNATE, FLAG_COMMAND];
    for (i, a) in all.iter().enumerate() {
        for b in &all[i + 1..] {
            assert_eq!(a & b, 0, "modifier flags overlap");
        }
    }
}

#[test]
fn every_modifier_sets_its_own_flag() {
    let all = KeyMods { shift: true, ctrl: true, alt: true, meta: true };
    assert_eq!(flags_for(all), 0x001E_0000);
    assert_eq!(flags_for(KeyMods { ctrl: true, ..Default::default() }), FLAG_CONTROL);
    assert_eq!(flags_for(KeyMods { alt: true, ..Default::default() }), FLAG_ALTERNATE);
}

#[test]
fn a_move_with_a_button_held_is_a_drag() {
    let mut p = PointerState::new();
    let a = p.on_move();
    assert_eq!((a.kind, a.button, a.clicks), (MOUSE_MOVED, BUTTON_LEFT, 0));
    p.on_button(MouseButton::Left, true, false);
    let a = p.on_move();
    assert_eq!((a.kind, a.button), (LEFT_DRAGGED, BUTTON_LEFT));
    p.on_button(MouseButton::Left, false, false);
    p.on_button(MouseButton::Right, true, false);
    assert_eq!(p.on_move().kind, RIGHT_DRAGGED);
    p.on_button(MouseButton::Middle, true, false);
    let a = p.on_move();
    assert_eq!((a.kind, a.button), (OTHER_DRAGGED, BUTTON_CENTER));
}

#[test]
fn clicks_count_up_to_three_and_releases_repeat_them() {
    let mut p = PointerState::new();
    let down = p.on_button(MouseButton::Left, true, true);
    assert_eq!((down.kind, down.button, down.clicks), (LEFT_DOWN, BUTTON_LEFT, 1));
    let up = p.on_button(MouseButton::Left, false, true);
    assert_eq!((up.kind, up.clicks), (LEFT_UP, 1));
    assert_eq!(p.on_button(MouseButton::Left, true, true).clicks, 2);
    assert_eq!(p.on_button(MouseButton::Left, false, true).clicks, 2);
    assert_eq!(p.on_button(MouseButton::Left, true, true).clicks, 3);
    assert_eq!(p.on_button(MouseButton::Left, false, false).clicks, 3);
    assert_eq!(p.on_button(MouseButton::Left, true, true).clicks, 1);
    // Too far away, or too late: a new sequence.
    p.on_button(MouseButton::Left, false, true);
    assert_eq!(p.on_button(MouseButton::Left, true, false).clicks, 1);
}

#[test]
fn buttons_map_to_their_events() {
    let mut p = PointerState::new();
    let a = p.on_button(MouseButton::Right, false, false);
    assert_eq!((a.kind, a.button, a.clicks), (RIGHT_UP, BUTTON_RIGHT, 1));
    let a = p.on_button(MouseButton::Middle, true, false);
    assert_eq!((a.kind, a.button), (OTHER_DOWN, BUTTON_CENTER));
    assert_eq!(p.held, Some(MouseButton::Middle));
}

#[test]
fn keys_carry_their_modifier_flags() {
    let mods = KeyMods { shift: true, ..Default::default() };
    assert_eq!(key_event("KeyA", mods), Some((0x00, FLAG_SHIFT)));
    assert_eq!(key_event("ShiftLeft", mods), None);
}

#[test]
fn input_errors_and_help_read_plainly() {
    assert_eq!(InputError::PermissionDenied.message(), "Accessibility permission not granted");
    assert_eq!(InputError::NoDisplay.message(), "the target display is gone");
    assert_eq!(InputError::PostFailed.message(), "CGEventPost failed");
    assert_eq!(InputError::Unsupported.message(), "no CoreGraphics on this platform");
    assert!(permission_help().starts_with("Accessibility permission is required"));
    assert!(permission_help().ends_with("only when an app starts."));
}
