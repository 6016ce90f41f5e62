use hremap::config::{KeyCombo, MacroStep};
use hremap::events::{InputEvent, EV_KEY};
use hremap::keys::{KeySet, KEY_A, KEY_LEFTALT, KEY_LEFTCTRL};
use hremap::macros::MacroRunner;

const KEY_B: u16 = 48;

fn key(code: u16, value: i32) -> InputEvent {
    InputEvent { kind: EV_KEY, code, value }
}

fn step(modifiers: Vec<u16>, k: u16, delay_ms: u64, up: bool) -> MacroStep {
    MacroStep { combo: KeyCombo { modifiers, key: k }, delay_ms, up }
}

#[test]
fn macro_run_plays_steps_then_releases_what_is_still_pressed() {
    let steps = vec![
        step(vec![KEY_LEFTCTRL], KEY_A, 20, false),
        step(vec![], KEY_B, 0, false),
        step(vec![], KEY_B, 5, true),
    ];
    let mut runner = MacroRunner::new(steps, KeySet::new());
    assert!(!runner.is_done());
    let (e1, d1) = runner.advance();
    assert_eq!(e1, vec![key(KEY_LEFTCTRL, 1), key(KEY_A, 1)]);
    assert_eq!(d1, 20);
    let (e2, d2) = runner.advance();
    assert_eq!(e2, vec![key(KEY_B, 1)]);
    assert_eq!(d2, 0);
    let (e3, d3) = runner.advance();
    assert_eq!(e3, vec![key(KEY_B, 0)]);
    assert_eq!(d3, 5);
    assert!(runner.is_done());
    assert_eq!(runner.release_events(), vec![key(KEY_A, 0), key(KEY_LEFTCTRL, 0)]);
}

#[test]
fn cancelled_macro_releases_in_reverse_order() {
    let steps = vec![step(vec![], KEY_A, 0, false), step(vec![], KEY_B, 0, false)];
    let mut held = KeySet::new();
    held.insert(KEY_LEFTALT);
    let mut runner = MacroRunner::new(steps, held);
    let (e1, _) = runner.advance();
    assert_eq!(e1, vec![key(KEY_LEFTALT, 1), key(KEY_A, 1)]);
    runner.advance();
    assert_eq!(
        runner.release_events(),
        vec![key(KEY_B, 0), key(KEY_LEFTALT, 0), key(KEY_A, 0), key(KEY_LEFTALT, 0)]
    );
}

#[test]
fn empty_macro_is_done_at_once() {
    let runner = MacroRunner::new(vec![], KeySet::new());
    assert!(runner.is_done());
    assert!(runner.release_events().is_empty());
}
