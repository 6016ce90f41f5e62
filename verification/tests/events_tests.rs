use hremap::config::KeyCombo;
use hremap::events::{
    build_combo_events, is_mouse_event, resolve_key, resolve_value, should_passthrough,
    should_skip_event_on_action, split_by_device, InputEvent, EV_ABS, EV_KEY, EV_REL, REL_WHEEL,
    REL_WHEEL_HI_RES, REL_X,
};
use hremap::keys::{KeySet, BTN_LEFT, KEY_A, KEY_LEFTALT, KEY_LEFTCTRL, KEY_LEFTSHIFT, WHEEL_DOWN, WHEEL_UP};

fn key(code: u16, value: i32) -> InputEvent {
    InputEvent { kind: EV_KEY, code, value }
}

#[test]
fn key_and_wheel_events_are_remapped() {
    assert!(!should_passthrough(&key(KEY_A, 1)));
    assert!(!should_passthrough(&InputEvent { kind: EV_REL, code: REL_WHEEL, value: 1 }));
    assert!(!should_passthrough(&InputEvent { kind: EV_REL, code: REL_WHEEL_HI_RES, value: 120 }));
    assert!(should_passthrough(&InputEvent { kind: EV_REL, code: REL_X, value: 3 }));
    assert!(should_passthrough(&InputEvent { kind: EV_ABS, code: 0, value: 3 }));
}

#[test]
fn wheel_steps_become_pseudo_keys() {
    let up = InputEvent { kind: EV_REL, code: REL_WHEEL, value: 1 };
    let down = InputEvent { kind: EV_REL, code: REL_WHEEL_HI_RES, value: -120 };
    assert_eq!(resolve_key(&up), WHEEL_UP);
    assert_eq!(resolve_key(&down), WHEEL_DOWN);
    assert_eq!(resolve_value(&down), 1);
    assert_eq!(resolve_key(&key(KEY_A, 2)), KEY_A);
    assert_eq!(resolve_value(&key(KEY_A, 2)), 2);
    assert!(should_skip_event_on_action(&down));
    assert!(!should_skip_event_on_action(&up));
}

#[test]
fn mouse_events_go_to_the_virtual_mouse() {
    assert!(is_mouse_event(&key(BTN_LEFT, 1)));
    assert!(is_mouse_event(&InputEvent { kind: EV_REL, code: REL_X, value: 1 }));
    assert!(!is_mouse_event(&key(KEY_A, 1)));
    let batch = vec![key(KEY_A, 1), key(BTN_LEFT, 1), key(KEY_A, 0)];
    let (kb, mouse) = split_by_device(&batch);
    assert_eq!(kb, vec![key(KEY_A, 1), key(KEY_A, 0)]);
    assert_eq!(mouse, vec![key(BTN_LEFT, 1)]);
}

#[test]
fn combo_press_and_release_order() {
    let combo = KeyCombo { modifiers: vec![KEY_LEFTCTRL, KEY_LEFTSHIFT], key: KEY_A };
    assert_eq!(
        build_combo_events(&combo, 1, None),
        vec![key(KEY_LEFTCTRL, 1), key(KEY_LEFTSHIFT, 1), key(KEY_A, 1)]
    );
    assert_eq!(
        build_combo_events(&combo, 0, None),
        vec![key(KEY_A, 0), key(KEY_LEFTSHIFT, 0), key(KEY_LEFTCTRL, 0)]
    );
}

#[test]
fn combo_events_add_other_held_keys() {
    let combo = KeyCombo { modifiers: vec![KEY_LEFTCTRL], key: KEY_A };
    let mut held = KeySet::new();
    held.insert(KEY_LEFTALT);
    held.insert(KEY_LEFTCTRL);
    assert_eq!(
        build_combo_events(&combo, 1, Some(&held)),
        vec![key(KEY_LEFTALT, 1), key(KEY_LEFTCTRL, 1), key(KEY_A, 1)]
    );
    assert_eq!(
        build_combo_events(&combo, 0, Some(&held)),
        vec![key(KEY_A, 0), key(KEY_LEFTCTRL, 0), key(KEY_LEFTALT, 0)]
    );
    // a repeat repeats the main key and keeps the combination held
    assert_eq!(build_combo_events(&combo, 2, Some(&held)), vec![key(KEY_A, 2)]);
}

#[test]
fn combo_release_touches_the_pressed_keys() {
    let combo = KeyCombo { modifiers: vec![KEY_LEFTSHIFT, KEY_LEFTCTRL], key: KEY_A };
    let mut held = KeySet::new();
    held.insert(KEY_LEFTALT);
    let mut pressed: Vec<u16> = build_combo_events(&combo, 1, Some(&held)).iter().map(|e| e.code).collect();
    let mut released: Vec<u16> = build_combo_events(&combo, 0, Some(&held)).iter().map(|e| e.code).collect();
    pressed.sort();
    released.sort();
    assert_eq!(pressed, released);
}

#[test]
fn combo_press_and_release_mirror_each_other() {
    let combo = KeyCombo { modifiers: vec![KEY_LEFTSHIFT, KEY_LEFTCTRL], key: KEY_A };
    let mut held = KeySet::new();
    held.insert(KEY_LEFTALT);
    let press = build_combo_events(&combo, 1, Some(&held));
    let release = build_combo_events(&combo, 0, Some(&held));
    assert_eq!(press.len(), 4);
    assert_eq!(release.len(), press.len());
    assert!(press.iter().all(|e| e.kind == EV_KEY && e.value == 1));
    assert!(release.iter().all(|e| e.kind == EV_KEY && e.value == 0));
    for k in 0..3 {
        assert_eq!(release[k].code, press[press.len() - 1 - k].code);
    }
    assert_eq!(
        release.iter().map(|e| e.code).collect::<Vec<u16>>(),
        vec![KEY_A, KEY_LEFTCTRL, KEY_LEFTSHIFT, KEY_LEFTALT]
    );
}
