use evdev::KeyCode;
use voiceflow::hotkey::{
    choose_keyboard, is_alt, is_shift, Chord, KEY_LEFTALT, KEY_LEFTSHIFT, KEY_RIGHTALT,
    KEY_RIGHTSHIFT,
};

const ALT: u16 = KeyCode::KEY_LEFTALT.code();
const SHIFT: u16 = KeyCode::KEY_LEFTSHIFT.code();
const TAB: u16 = KeyCode::KEY_TAB.code();

/// Feeds a sequence and reports how many times the chord fired.
fn run(seq: &[(u16, i32)]) -> usize {
    let mut c = Chord::default();
    seq.iter().filter(|(k, v)| c.feed(*k, *v)).count()
}

#[test]
fn clean_tap_fires_once() {
    assert_eq!(run(&[(ALT, 1), (SHIFT, 1), (SHIFT, 0), (ALT, 0)]), 1);
}

#[test]
fn reverse_order_also_fires() {
    assert_eq!(run(&[(SHIFT, 1), (ALT, 1), (ALT, 0), (SHIFT, 0)]), 1);
}

#[test]
fn chord_used_as_a_modifier_does_not_fire() {
    assert_eq!(
        run(&[(ALT, 1), (SHIFT, 1), (TAB, 1), (TAB, 0), (SHIFT, 0), (ALT, 0)]),
        0
    );
}

#[test]
fn re_pressing_shift_after_alt_shift_tab_does_not_fire() {
    // Window cycling: Alt stays down while Shift is tapped again.
    assert_eq!(
        run(&[
            (ALT, 1),
            (SHIFT, 1),
            (TAB, 1),
            (TAB, 0),
            (SHIFT, 0),
            (SHIFT, 1),
            (SHIFT, 0),
            (ALT, 0),
        ]),
        0
    );
}

#[test]
fn single_modifier_does_not_fire() {
    assert_eq!(run(&[(ALT, 1), (ALT, 0)]), 0);
    assert_eq!(run(&[(SHIFT, 1), (SHIFT, 0)]), 0);
}

#[test]
fn autorepeat_is_ignored() {
    assert_eq!(
        run(&[(ALT, 1), (SHIFT, 1), (SHIFT, 2), (ALT, 2), (SHIFT, 0), (ALT, 0)]),
        1
    );
}

#[test]
fn two_taps_fire_twice() {
    assert_eq!(
        run(&[
            (ALT, 1),
            (SHIFT, 1),
            (SHIFT, 0),
            (ALT, 0),
            (ALT, 1),
            (SHIFT, 1),
            (SHIFT, 0),
            (ALT, 0),
        ]),
        2
    );
}

#[test]
fn right_hand_modifiers_fire_too() {
    let r_alt = KeyCode::KEY_RIGHTALT.code();
    let r_shift = KeyCode::KEY_RIGHTSHIFT.code();
    assert_eq!(run(&[(r_alt, 1), (r_shift, 1), (r_alt, 0), (r_shift, 0)]), 1);
}

#[test]
fn key_codes_match_the_input_layer() {
    assert_eq!(KEY_LEFTALT, KeyCode::KEY_LEFTALT.code());
    assert_eq!(KEY_RIGHTALT, KeyCode::KEY_RIGHTALT.code());
    assert_eq!(KEY_LEFTSHIFT, KeyCode::KEY_LEFTSHIFT.code());
    assert_eq!(KEY_RIGHTSHIFT, KeyCode::KEY_RIGHTSHIFT.code());
    assert!(is_alt(ALT) && !is_alt(SHIFT) && !is_alt(TAB));
    assert!(is_shift(SHIFT) && !is_shift(ALT) && !is_shift(TAB));
}

#[test]
fn typing_before_the_chord_does_not_spoil_it() {
    // A key pressed while no modifier is held is ordinary typing, not a use
    // of the chord: the taps after it fire.
    assert_eq!(
        run(&[
            (TAB, 1),
            (TAB, 0),
            (ALT, 1),
            (SHIFT, 1),
            (SHIFT, 0),
            (ALT, 0),
            (TAB, 1),
            (TAB, 2),
            (TAB, 0),
            (SHIFT, 1),
            (ALT, 1),
            (ALT, 0),
            (SHIFT, 0),
        ]),
        2
    );
}

#[test]
fn a_key_typed_while_one_modifier_is_held_spoils_the_chord() {
    assert_eq!(
        run(&[(SHIFT, 1), (TAB, 1), (TAB, 0), (ALT, 1), (ALT, 0), (SHIFT, 0)]),
        0
    );
}

fn devs(list: &[(&str, bool)]) -> Vec<(String, bool)> {
    list.iter().map(|(n, a)| (n.to_string(), *a)).collect()
}

#[test]
fn prefers_the_remapping_keyboard() {
    let d = devs(&[
        ("Logitech K120 Keyboard", true),
        ("Power Button", false),
        ("XWayKeyz (virtual) Keyboard", true),
    ]);
    assert_eq!(choose_keyboard(&d, &None), Some(2));
}

#[test]
fn falls_back_to_the_first_keyboard_with_alt() {
    let d = devs(&[
        ("Power Button", false),
        ("ydotoold virtual device", true),
        ("Logitech K120 Keyboard", true),
        ("USB Keyboard", true),
    ]);
    assert_eq!(choose_keyboard(&d, &None), Some(2));
    assert_eq!(choose_keyboard(&devs(&[("Power Button", false)]), &None), None);
}

#[test]
fn an_explicit_name_may_pick_the_injection_device() {
    let d = devs(&[
        ("Logitech K120 Keyboard", true),
        ("ydotoold virtual device", true),
    ]);
    assert_eq!(choose_keyboard(&d, &Some("ydotoold".to_string())), Some(1));
    assert_eq!(choose_keyboard(&d, &Some("nothing like it".to_string())), Some(0));
}
