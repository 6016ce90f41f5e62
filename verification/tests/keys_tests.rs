use hremap::events::{EV_ABS, EV_KEY, EV_REL, REL_WHEEL, REL_WHEEL_HI_RES, REL_X};
use hremap::keys::{
    compute_modifier_index, is_modifier_key, KeySet, BTN_EXTRA, BTN_LEFT, BTN_MIDDLE, BTN_RIGHT,
    BTN_SIDE, KEY_A, KEY_LEFTALT, KEY_LEFTCTRL, KEY_LEFTMETA, KEY_LEFTSHIFT, KEY_RIGHTALT,
    KEY_RIGHTCTRL, KEY_RIGHTMETA, KEY_RIGHTSHIFT, MODIFIER_COUNT,
};

#[test]
fn key_codes_match_evdev() {
    assert_eq!(KEY_LEFTCTRL, evdev::Key::KEY_LEFTCTRL.code());
    assert_eq!(KEY_RIGHTCTRL, evdev::Key::KEY_RIGHTCTRL.code());
    assert_eq!(KEY_LEFTSHIFT, evdev::Key::KEY_LEFTSHIFT.code());
    assert_eq!(KEY_RIGHTSHIFT, evdev::Key::KEY_RIGHTSHIFT.code());
    assert_eq!(KEY_LEFTALT, evdev::Key::KEY_LEFTALT.code());
    assert_eq!(KEY_RIGHTALT, evdev::Key::KEY_RIGHTALT.code());
    assert_eq!(KEY_LEFTMETA, evdev::Key::KEY_LEFTMETA.code());
    assert_eq!(KEY_RIGHTMETA, evdev::Key::KEY_RIGHTMETA.code());
    assert_eq!(KEY_A, evdev::Key::KEY_A.code());
    assert_eq!(BTN_LEFT, evdev::Key::BTN_LEFT.code());
    assert_eq!(BTN_RIGHT, evdev::Key::BTN_RIGHT.code());
    assert_eq!(BTN_MIDDLE, evdev::Key::BTN_MIDDLE.code());
    assert_eq!(BTN_SIDE, evdev::Key::BTN_SIDE.code());
    assert_eq!(BTN_EXTRA, evdev::Key::BTN_EXTRA.code());
}

#[test]
fn event_codes_match_evdev() {
    assert_eq!(EV_KEY, evdev::EventType::KEY.0);
    assert_eq!(EV_REL, evdev::EventType::RELATIVE.0);
    assert_eq!(EV_ABS, evdev::EventType::ABSOLUTE.0);
    assert_eq!(REL_X, evdev::RelativeAxisType::REL_X.0);
    assert_eq!(REL_WHEEL, evdev::RelativeAxisType::REL_WHEEL.0);
    assert_eq!(REL_WHEEL_HI_RES, evdev::RelativeAxisType::REL_WHEEL_HI_RES.0);
}

#[test]
fn modifier_keys_are_the_eight_modifiers() {
    for code in [
        KEY_LEFTCTRL,
        KEY_RIGHTCTRL,
        KEY_LEFTSHIFT,
        KEY_RIGHTSHIFT,
        KEY_LEFTALT,
        KEY_RIGHTALT,
        KEY_LEFTMETA,
        KEY_RIGHTMETA,
    ] {
        assert!(is_modifier_key(code));
    }
    assert!(!is_modifier_key(KEY_A));
    assert!(!is_modifier_key(BTN_LEFT));
}

#[test]
fn modifier_index_combines_bits() {
    let mut held = KeySet::new();
    assert_eq!(compute_modifier_index(&held), 0);
    held.insert(KEY_RIGHTSHIFT);
    assert_eq!(compute_modifier_index(&held), 1);
    held.insert(KEY_LEFTALT);
    assert_eq!(compute_modifier_index(&held), 5);
    held.insert(KEY_RIGHTCTRL);
    assert_eq!(compute_modifier_index(&held), 7);
    held.insert(KEY_LEFTSHIFT);
    assert_eq!(compute_modifier_index(&held), 7);
    assert!(compute_modifier_index(&held) < MODIFIER_COUNT);
}

#[test]
fn meta_does_not_count_as_modifier_bit() {
    let mut held = KeySet::new();
    held.insert(KEY_LEFTMETA);
    assert_eq!(compute_modifier_index(&held), 0);
}

#[test]
fn key_set_keeps_insertion_order() {
    let mut s = KeySet::new();
    s.insert(KEY_LEFTALT);
    s.insert(KEY_LEFTCTRL);
    s.insert(KEY_LEFTALT);
    assert_eq!(s.len(), 2);
    assert_eq!(s.get(0), KEY_LEFTALT);
    assert_eq!(s.get(1), KEY_LEFTCTRL);
    s.remove(KEY_LEFTALT);
    assert_eq!(s.len(), 1);
    assert_eq!(s.get(0), KEY_LEFTCTRL);
    assert!(!s.contains(KEY_LEFTALT));
    assert!(s.contains(KEY_LEFTCTRL));
    s.remove(KEY_LEFTCTRL);
    assert!(s.is_empty());
}
