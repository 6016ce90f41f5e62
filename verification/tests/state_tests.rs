use hremap::config::{Config, MacroMode, RawAction, RawConfig, RawLayer, RawMacroStep, RawMapping, RawProfile, VolumeDirection, LayerMode};
use hremap::events::{InputEvent, EV_ABS, EV_KEY, EV_REL, REL_WHEEL, REL_WHEEL_HI_RES, REL_X};
use hremap::keys::{KEY_A, KEY_LEFTCTRL, KEY_LEFTSHIFT};
use hremap::parser::resolve_config;
use hremap::state::{Command, InputState, LoopEvent};
use hremap::watcher::WindowInfo;

const KEY_B: u16 = 48;
const KEY_C: u16 = 46;
const KEY_L: u16 = 38;
const KEY_T: u16 = 20;
const KEY_M: u16 = 50;
const KEY_N: u16 = 49;
const KEY_V: u16 = 47;
const KEY_UP: u16 = 103;

fn names(v: &[&str]) -> Vec<String> {
    v.iter().map(|s| s.to_string()).collect()
}

fn mapping(trigger: &[&str], action: RawAction) -> RawMapping {
    RawMapping { trigger: names(trigger), action }
}

fn key_action(keys: &[&str]) -> RawAction {
    RawAction::Key { keys: names(keys) }
}

fn config() -> Config {
    let base = RawLayer {
        parent: None,
        mappings: vec![
            mapping(&["KEY_A"], key_action(&["KEY_LEFTCTRL", "KEY_B"])),
            mapping(&["KEY_L"], RawAction::Layer { layer: "nav".to_string(), mode: LayerMode::Shift }),
            mapping(&["KEY_T"], RawAction::Layer { layer: "nav".to_string(), mode: LayerMode::Toggle }),
            mapping(
                &["KEY_M"],
                RawAction::Macro {
                    mode: MacroMode::Hold,
                    steps: vec![RawMacroStep { keys: names(&["KEY_C"]), delay_ms: 10, up: false }],
                },
            ),
            mapping(
                &["KEY_N"],
                RawAction::Macro {
                    mode: MacroMode::Toggle,
                    steps: vec![RawMacroStep { keys: names(&["KEY_C"]), delay_ms: 0, up: false }],
                },
            ),
            mapping(&["KEY_V"], RawAction::Volume { direction: VolumeDirection::Up, percent: 10 }),
            mapping(&["WHEEL_UP"], key_action(&["KEY_UP"])),
        ],
    };
    let nav = RawLayer {
        parent: Some("base".to_string()),
        mappings: vec![mapping(&["KEY_A"], key_action(&["KEY_UP"]))],
    };
    let raw = RawConfig {
        device_names: vec![],
        default_layer: "base".to_string(),
        layers: vec![("base".to_string(), base), ("nav".to_string(), nav)],
        profiles: vec![RawProfile { wm_classes: names(&["editor"]), layer: "nav".to_string() }],
    };
    resolve_config(&raw).ok().unwrap()
}

fn key(code: u16, value: i32) -> InputEvent {
    InputEvent { kind: EV_KEY, code, value }
}

fn new_state(cfg: &Config) -> InputState {
    InputState::new(cfg.find_layer(&"base".to_string()).unwrap())
}

fn emitted(cmds: &[Command]) -> Vec<InputEvent> {
    cmds.iter()
        .map(|c| match c {
            Command::Emit(e) => *e,
            _ => panic!("expected only emits"),
        })
        .collect()
}

fn device(st: &mut InputState, cfg: &Config, ev: InputEvent) -> Vec<Command> {
    st.step(cfg, LoopEvent::DeviceEvent(ev))
}

fn window(class: &str) -> WindowInfo {
    WindowInfo {
        title: "t".to_string(),
        wm_class: class.to_string(),
        wm_class_instance: class.to_string(),
        pid: 42,
    }
}

#[test]
fn mapped_key_press_and_release() {
    let cfg = config();
    let mut st = new_state(&cfg);
    let press = device(&mut st, &cfg, key(KEY_A, 1));
    assert_eq!(emitted(&press), vec![key(KEY_LEFTCTRL, 1), key(KEY_B, 1)]);
    let release = device(&mut st, &cfg, key(KEY_A, 0));
    assert_eq!(emitted(&release), vec![key(KEY_B, 0), key(KEY_LEFTCTRL, 0)]);
}

#[test]
fn release_uses_the_pressed_action_after_a_window_change() {
    let cfg = config();
    let mut st = new_state(&cfg);
    let press = device(&mut st, &cfg, key(KEY_A, 1));
    assert_eq!(emitted(&press), vec![key(KEY_LEFTCTRL, 1), key(KEY_B, 1)]);
    // the editor's profile switches the base layer to "nav", where A is UP
    let out = st.step(&cfg, LoopEvent::WindowChanged(Some(window("editor"))));
    assert!(out.is_empty());
    assert_eq!(st.current_layer, cfg.find_layer(&"nav".to_string()).unwrap());
    // the repeat keeps Ctrl+B held: B repeats, nothing is released
    let repeat = device(&mut st, &cfg, key(KEY_A, 2));
    assert_eq!(emitted(&repeat), vec![key(KEY_B, 2)]);
    let release = device(&mut st, &cfg, key(KEY_A, 0));
    assert_eq!(emitted(&release), vec![key(KEY_B, 0), key(KEY_LEFTCTRL, 0)]);
    let again = device(&mut st, &cfg, key(KEY_A, 1));
    assert_eq!(emitted(&again), vec![key(KEY_UP, 1)]);
}

#[test]
fn unknown_window_class_uses_default_layer() {
    let cfg = config();
    let mut st = new_state(&cfg);
    st.step(&cfg, LoopEvent::WindowChanged(Some(window("editor"))));
    st.step(&cfg, LoopEvent::WindowChanged(Some(window("browser"))));
    assert_eq!(st.current_layer, cfg.find_layer(&"base".to_string()).unwrap());
    st.step(&cfg, LoopEvent::WindowChanged(Some(window("editor"))));
    st.step(&cfg, LoopEvent::WindowChanged(None));
    assert_eq!(st.current_layer, cfg.find_layer(&"base".to_string()).unwrap());
}

#[test]
fn modifiers_pass_through_and_are_tracked() {
    let cfg = config();
    let mut st = new_state(&cfg);
    let out = device(&mut st, &cfg, key(KEY_LEFTSHIFT, 1));
    assert_eq!(emitted(&out), vec![key(KEY_LEFTSHIFT, 1)]);
    assert!(st.held_modifiers.contains(KEY_LEFTSHIFT));
    // with shift held, A has no exact mapping and falls back to the plain
    // one, adding the held shift around the combination
    let press = device(&mut st, &cfg, key(KEY_A, 1));
    assert_eq!(emitted(&press), vec![key(KEY_LEFTSHIFT, 1), key(KEY_LEFTCTRL, 1), key(KEY_B, 1)]);
    let out = device(&mut st, &cfg, key(KEY_LEFTSHIFT, 0));
    assert_eq!(emitted(&out), vec![key(KEY_LEFTSHIFT, 0)]);
    assert!(st.held_modifiers.is_empty());
}

#[test]
fn unmapped_keys_pass_through() {
    let cfg = config();
    let mut st = new_state(&cfg);
    assert_eq!(emitted(&device(&mut st, &cfg, key(KEY_C, 1))), vec![key(KEY_C, 1)]);
    assert_eq!(emitted(&device(&mut st, &cfg, key(KEY_C, 2))), vec![key(KEY_C, 2)]);
    assert_eq!(emitted(&device(&mut st, &cfg, key(KEY_C, 0))), vec![key(KEY_C, 0)]);
}

#[test]
fn shift_layer_is_active_while_held() {
    let cfg = config();
    let mut st = new_state(&cfg);
    let nav = cfg.find_layer(&"nav".to_string()).unwrap();
    assert!(device(&mut st, &cfg, key(KEY_L, 1)).is_empty());
    assert_eq!(st.active_layer(), nav);
    assert_eq!(st.shift_trigger_key, Some(KEY_L));
    assert!(device(&mut st, &cfg, key(KEY_L, 2)).is_empty());
    assert_eq!(emitted(&device(&mut st, &cfg, key(KEY_A, 1))), vec![key(KEY_UP, 1)]);
    assert_eq!(emitted(&device(&mut st, &cfg, key(KEY_A, 0))), vec![key(KEY_UP, 0)]);
    assert!(device(&mut st, &cfg, key(KEY_L, 0)).is_empty());
    assert_eq!(st.shift_layer, None);
    assert_eq!(st.shift_trigger_key, None);
    assert_eq!(st.active_layer(), cfg.find_layer(&"base".to_string()).unwrap());
}

#[test]
fn toggle_layer_twice() {
    let cfg = config();
    let mut st = new_state(&cfg);
    let nav = cfg.find_layer(&"nav".to_string()).unwrap();
    device(&mut st, &cfg, key(KEY_T, 1));
    device(&mut st, &cfg, key(KEY_T, 0));
    assert_eq!(st.shift_layer, Some(nav));
    // nav inherits T from base, so pressing T again hides nav
    device(&mut st, &cfg, key(KEY_T, 1));
    device(&mut st, &cfg, key(KEY_T, 0));
    assert_eq!(st.shift_layer, None);
}

#[test]
fn hold_macro_runs_while_held() {
    let cfg = config();
    let mut st = new_state(&cfg);
    let press = device(&mut st, &cfg, key(KEY_M, 1));
    assert_eq!(press.len(), 1);
    match &press[0] {
        Command::SpawnMacro { key, mode, steps, .. } => {
            assert_eq!(*key, KEY_M);
            assert_eq!(*mode, MacroMode::Hold);
            assert_eq!(steps.len(), 1);
            assert_eq!(steps[0].combo.key, KEY_C);
        }
        _ => panic!("expected a macro start"),
    }
    let release = device(&mut st, &cfg, key(KEY_M, 0));
    assert!(matches!(release.as_slice(), [Command::CancelMacro { key: KEY_M }]));
}

#[test]
fn toggle_macro_starts_and_stops() {
    let cfg = config();
    let mut st = new_state(&cfg);
    let first = device(&mut st, &cfg, key(KEY_N, 1));
    assert!(matches!(first.as_slice(), [Command::SpawnMacro { key: KEY_N, .. }]));
    assert!(device(&mut st, &cfg, key(KEY_N, 0)).is_empty());
    let second = device(&mut st, &cfg, key(KEY_N, 1));
    assert!(matches!(second.as_slice(), [Command::CancelMacro { key: KEY_N }]));
    let third = device(&mut st, &cfg, key(KEY_N, 1));
    assert!(matches!(third.as_slice(), [Command::SpawnMacro { key: KEY_N, .. }]));
}

#[test]
fn volume_key_asks_for_a_volume_change_on_press_only() {
    let cfg = config();
    let mut st = new_state(&cfg);
    let press = device(&mut st, &cfg, key(KEY_V, 1));
    assert!(matches!(
        press.as_slice(),
        [Command::SystemVolume { direction: VolumeDirection::Up, percent: 10 }]
    ));
    assert!(device(&mut st, &cfg, key(KEY_V, 0)).is_empty());
}

#[test]
fn wheel_steps_are_remapped_once() {
    let cfg = config();
    let mut st = new_state(&cfg);
    let lo = device(&mut st, &cfg, InputEvent { kind: EV_REL, code: REL_WHEEL, value: 1 });
    assert_eq!(emitted(&lo), vec![key(KEY_UP, 1)]);
    let hi = device(&mut st, &cfg, InputEvent { kind: EV_REL, code: REL_WHEEL_HI_RES, value: 120 });
    assert!(hi.is_empty());
    // an unmapped direction passes on unchanged
    let down = InputEvent { kind: EV_REL, code: REL_WHEEL, value: -1 };
    assert_eq!(emitted(&device(&mut st, &cfg, down)), vec![down]);
}

#[test]
fn other_device_events_pass_through_except_absolute() {
    let cfg = config();
    let mut st = new_state(&cfg);
    let motion = InputEvent { kind: EV_REL, code: REL_X, value: 4 };
    assert_eq!(emitted(&device(&mut st, &cfg, motion)), vec![motion]);
    let abs = InputEvent { kind: EV_ABS, code: 0, value: 4 };
    assert!(device(&mut st, &cfg, abs).is_empty());
    let syn = InputEvent { kind: 0, code: 0, value: 0 };
    assert_eq!(emitted(&device(&mut st, &cfg, syn)), vec![syn]);
}

#[test]
fn macro_output_is_emitted() {
    let cfg = config();
    let mut st = new_state(&cfg);
    let out = st.step(&cfg, LoopEvent::MacroEvent(key(KEY_C, 1)));
    assert_eq!(emitted(&out), vec![key(KEY_C, 1)]);
}

#[test]
fn hold_macro_release_after_repeats_and_window_change() {
    let cfg = config();
    let mut st = new_state(&cfg);
    let press = device(&mut st, &cfg, key(KEY_M, 1));
    assert!(matches!(press.as_slice(), [Command::SpawnMacro { key: KEY_M, .. }]));
    assert!(device(&mut st, &cfg, key(KEY_M, 2)).is_empty());
    assert!(st.step(&cfg, LoopEvent::WindowChanged(Some(window("editor")))).is_empty());
    assert!(device(&mut st, &cfg, key(KEY_M, 2)).is_empty());
    let release = device(&mut st, &cfg, key(KEY_M, 0));
    assert!(matches!(release.as_slice(), [Command::CancelMacro { key: KEY_M }]));
    assert!(st.pending_releases.is_empty());
}

#[test]
fn shift_layer_repeats_are_swallowed_until_release() {
    let cfg = config();
    let mut st = new_state(&cfg);
    assert!(device(&mut st, &cfg, key(KEY_L, 1)).is_empty());
    assert!(device(&mut st, &cfg, key(KEY_L, 2)).is_empty());
    assert!(device(&mut st, &cfg, key(KEY_L, 2)).is_empty());
    assert!(device(&mut st, &cfg, key(KEY_L, 0)).is_empty());
    assert_eq!(st.shift_layer, None);
    assert!(st.pending_releases.is_empty());
}

#[test]
fn unmapped_key_passes_through_while_held() {
    let cfg = config();
    let mut st = new_state(&cfg);
    assert_eq!(emitted(&device(&mut st, &cfg, key(KEY_C, 1))), vec![key(KEY_C, 1)]);
    assert_eq!(emitted(&device(&mut st, &cfg, key(KEY_C, 2))), vec![key(KEY_C, 2)]);
    assert!(st.step(&cfg, LoopEvent::WindowChanged(Some(window("editor")))).is_empty());
    assert_eq!(emitted(&device(&mut st, &cfg, key(KEY_C, 2))), vec![key(KEY_C, 2)]);
    assert_eq!(emitted(&device(&mut st, &cfg, key(KEY_C, 0))), vec![key(KEY_C, 0)]);
    assert!(st.pending_releases.is_empty());
}
