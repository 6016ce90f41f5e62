use hremap::devices::{device_kind, keyboard_output_keys, should_grab, DeviceCaps, DeviceKind, KeySupport};

fn caps(name: Option<&str>, keys: Option<(bool, bool)>, touchpad: bool, rel_x: bool) -> DeviceCaps {
    DeviceCaps {
        name: name.map(|n| n.to_string()),
        keys: keys.map(|(key_a, btn_left)| KeySupport { key_a, btn_left }),
        abs_mt_position_x: touchpad,
        rel_x,
    }
}

#[test]
fn keyboards_and_mice_are_grabbed() {
    let none: Vec<String> = vec![];
    assert!(should_grab(&caps(Some("AT keyboard"), Some((true, false)), false, false), &none));
    assert!(should_grab(&caps(Some("USB mouse"), Some((false, true)), false, true), &none));
    assert!(should_grab(&caps(None, Some((true, true)), false, false), &none));
}

#[test]
fn devices_without_keys_or_touchpads_are_skipped() {
    let none: Vec<String> = vec![];
    assert!(!should_grab(&caps(Some("power button"), None, false, false), &none));
    assert!(!should_grab(&caps(Some("lid"), Some((false, false)), false, false), &none));
    assert!(!should_grab(&caps(Some("Touchpad"), Some((false, true)), true, false), &none));
}

#[test]
fn name_filter_is_case_insensitive() {
    let filter = vec!["Logitech".to_string(), "KEYCHRON".to_string()];
    assert!(should_grab(&caps(Some("logitech MX Keys"), Some((true, false)), false, false), &filter));
    assert!(should_grab(&caps(Some("Keychron K2"), Some((true, false)), false, false), &filter));
    assert!(!should_grab(&caps(Some("AT keyboard"), Some((true, false)), false, false), &filter));
    assert!(!should_grab(&caps(None, Some((true, false)), false, false), &filter));
}

#[test]
fn relative_motion_makes_a_mouse() {
    assert_eq!(device_kind(&caps(Some("m"), Some((false, true)), false, true)), DeviceKind::Mouse);
    assert_eq!(device_kind(&caps(Some("k"), Some((true, false)), false, false)), DeviceKind::Keyboard);
}

#[test]
fn keyboard_output_has_the_keys_it_may_send() {
    let keys = keyboard_output_keys();
    assert_eq!(keys.len(), 119);
    assert!(keys.windows(2).all(|w| w[0] < w[1]));
    // Esc, A, the modifiers, F12, Up, mute, play/pause, F24
    for code in [1u16, 30, 29, 42, 54, 56, 97, 100, 125, 126, 88, 103, 113, 164, 194] {
        assert!(keys.contains(&code), "missing {code}");
    }
    // keypad comma, KEY_102ND, power, and the mouse buttons are not there
    for code in [84u16, 86, 116, 0x110, 0x114] {
        assert!(!keys.contains(&code), "unexpected {code}");
    }
}
