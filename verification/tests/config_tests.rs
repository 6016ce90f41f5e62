use hremap::config::{
    Action, LayerMode, LookupResult, MacroMode, RawAction, RawConfig, RawLayer, RawMacroStep,
    RawMapping, RawProfile, VolumeDirection,
};
use hremap::keys::{KEY_A, KEY_LEFTALT, KEY_LEFTCTRL, KEY_LEFTMETA, WHEEL_DOWN, WHEEL_UP};
use hremap::parser::{
    parents_terminate, parse_combo, parse_key, parse_trigger, resolve_action, resolve_config,
    ConfigError,
};

fn names(v: &[&str]) -> Vec<String> {
    v.iter().map(|s| s.to_string()).collect()
}

fn key_action(keys: &[&str]) -> RawAction {
    RawAction::Key { keys: names(keys) }
}

fn mapping(trigger: &[&str], action: RawAction) -> RawMapping {
    RawMapping { trigger: names(trigger), action }
}

fn layer(name: &str, parent: Option<&str>, mappings: Vec<RawMapping>) -> (String, RawLayer) {
    (name.to_string(), RawLayer { parent: parent.map(|p| p.to_string()), mappings })
}

fn raw(layers: Vec<(String, RawLayer)>, profiles: Vec<RawProfile>) -> RawConfig {
    RawConfig {
        device_names: vec![],
        default_layer: "base".to_string(),
        layers,
        profiles,
    }
}

fn combo_of(action: &Action) -> (Vec<u16>, u16) {
    match action {
        Action::Key(c) => (c.modifiers.clone(), c.key),
        _ => panic!("not a key action"),
    }
}

#[test]
fn key_names_resolve_through_evdev() {
    assert_eq!(parse_key(&"KEY_A".to_string()).ok(), Some(30));
    assert_eq!(parse_key(&"KEY_LEFTCTRL".to_string()).ok(), Some(KEY_LEFTCTRL));
    assert_eq!(parse_key(&"BTN_LEFT".to_string()).ok(), Some(0x110));
    assert_eq!(parse_key(&"WHEEL_UP".to_string()).ok(), Some(WHEEL_UP));
    assert_eq!(parse_key(&"WHEEL_DOWN".to_string()).ok(), Some(WHEEL_DOWN));
    match parse_key(&"KEY_FOOBAR".to_string()) {
        Err(ConfigError::UnknownKey(n)) => assert_eq!(n, "KEY_FOOBAR"),
        _ => panic!("expected an unknown key"),
    }
    assert!(parse_key(&"key_a".to_string()).is_err());
}

#[test]
fn combo_parsing() {
    let c = parse_combo(&names(&["KEY_LEFTCTRL", "KEY_LEFTALT", "KEY_A"])).ok().unwrap();
    assert_eq!(c.modifiers, vec![KEY_LEFTCTRL, KEY_LEFTALT]);
    assert_eq!(c.key, KEY_A);
    let meta = parse_combo(&names(&["KEY_LEFTMETA", "KEY_A"])).ok().unwrap();
    assert_eq!(meta.modifiers, vec![KEY_LEFTMETA]);
    assert!(matches!(parse_combo(&names(&[])), Err(ConfigError::EmptyCombo)));
    assert!(matches!(
        parse_combo(&names(&["KEY_A", "KEY_B"])),
        Err(ConfigError::MultipleMainKeysInCombo)
    ));
    assert!(matches!(parse_combo(&names(&["KEY_LEFTCTRL"])), Err(ConfigError::NoMainKeyInCombo)));
    assert!(matches!(
        parse_combo(&names(&["KEY_A", "NOPE", "KEY_B"])),
        Err(ConfigError::UnknownKey(_))
    ));
    // the first problem in list order is the one reported
    assert!(matches!(
        parse_combo(&names(&["KEY_A", "KEY_B", "NOPE"])),
        Err(ConfigError::MultipleMainKeysInCombo)
    ));
}

#[test]
fn trigger_parsing() {
    assert_eq!(
        parse_trigger(&names(&["KEY_LEFTSHIFT", "KEY_RIGHTSHIFT", "KEY_A"])).ok(),
        Some((KEY_A, 1))
    );
    assert_eq!(parse_trigger(&names(&["KEY_RIGHTCTRL", "KEY_LEFTALT", "KEY_A"])).ok(), Some((KEY_A, 6)));
    assert_eq!(parse_trigger(&names(&["KEY_A"])).ok(), Some((KEY_A, 0)));
    assert!(matches!(parse_trigger(&names(&[])), Err(ConfigError::EmptyTrigger)));
    assert!(matches!(
        parse_trigger(&names(&["KEY_LEFTMETA", "KEY_A"])),
        Err(ConfigError::MultipleMainKeysInTrigger)
    ));
    assert!(matches!(
        parse_trigger(&names(&["KEY_LEFTSHIFT"])),
        Err(ConfigError::ModifierOnlyTrigger)
    ));
    assert!(matches!(parse_trigger(&names(&["KEY_ZZ"])), Err(ConfigError::UnknownKey(_))));
    assert_eq!(parse_trigger(&names(&["KEY_LEFTMETA"])).ok(), Some((KEY_LEFTMETA, 0)));
}

#[test]
fn macro_actions_resolve_every_step() {
    let raw_action = RawAction::Macro {
        mode: MacroMode::Hold,
        steps: vec![
            RawMacroStep { keys: names(&["KEY_A"]), delay_ms: 5, up: false },
            RawMacroStep { keys: names(&["KEY_A"]), delay_ms: 0, up: true },
        ],
    };
    match resolve_action(&raw_action) {
        Ok(Action::Macro { mode, steps }) => {
            assert_eq!(mode, MacroMode::Hold);
            assert_eq!(steps.len(), 2);
            assert_eq!(steps[0].combo.key, KEY_A);
            assert_eq!(steps[0].delay_ms, 5);
            assert!(steps[1].up);
        }
        _ => panic!("expected a macro"),
    }
    let bad = RawAction::Macro {
        mode: MacroMode::Once,
        steps: vec![RawMacroStep { keys: names(&[]), delay_ms: 0, up: false }],
    };
    assert!(matches!(resolve_action(&bad), Err(ConfigError::EmptyCombo)));
    let vol = RawAction::Volume { direction: VolumeDirection::Down, percent: 5 };
    assert!(matches!(
        resolve_action(&vol),
        Ok(Action::Volume { direction: VolumeDirection::Down, percent: 5 })
    ));
}

#[test]
fn child_layer_overrides_parent() {
    let cfg = resolve_config(&raw(
        vec![
            layer(
                "base",
                None,
                vec![
                    mapping(&["KEY_A"], key_action(&["KEY_B"])),
                    mapping(&["KEY_C"], key_action(&["KEY_D"])),
                ],
            ),
            layer(
                "child",
                Some("base"),
                vec![
                    mapping(&["KEY_A"], key_action(&["KEY_X"])),
                    mapping(&["KEY_A"], key_action(&["KEY_Y"])),
                ],
            ),
        ],
        vec![],
    ))
    .ok()
    .unwrap();
    assert_eq!(cfg.layers.len(), 2);
    let child = &cfg.layers[cfg.find_layer(&"child".to_string()).unwrap()];
    let base = &cfg.layers[cfg.find_layer(&"base".to_string()).unwrap()];
    match child.lookup(KEY_A, 0) {
        Some(LookupResult::Exact(a)) => assert_eq!(combo_of(a).1, 21),
        _ => panic!("expected the child's last mapping"),
    }
    match child.lookup(46, 0) {
        Some(LookupResult::Exact(a)) => assert_eq!(combo_of(a).1, 32),
        _ => panic!("expected the parent's mapping"),
    }
    match base.lookup(KEY_A, 0) {
        Some(LookupResult::Exact(a)) => assert_eq!(combo_of(a).1, 48),
        _ => panic!("expected the base mapping"),
    }
}

#[test]
fn lookup_falls_back_to_the_plain_slot() {
    let cfg = resolve_config(&raw(
        vec![layer(
            "base",
            None,
            vec![
                mapping(&["KEY_A"], key_action(&["KEY_B"])),
                mapping(&["KEY_LEFTCTRL", "KEY_C"], key_action(&["KEY_D"])),
            ],
        )],
        vec![],
    ))
    .ok()
    .unwrap();
    let base = &cfg.layers[0];
    assert!(matches!(base.lookup(KEY_A, 2), Some(LookupResult::Fallback(_))));
    assert!(matches!(base.lookup(KEY_A, 0), Some(LookupResult::Exact(_))));
    assert!(matches!(base.lookup(46, 2), Some(LookupResult::Exact(_))));
    assert!(base.lookup(46, 0).is_none());
    assert!(base.lookup(46, 1).is_none());
    assert!(base.lookup(99, 0).is_none());
}

#[test]
fn missing_parent_is_an_error() {
    let r = resolve_config(&raw(vec![layer("base", Some("ghost"), vec![])], vec![]));
    match r {
        Err(ConfigError::LayerNotFound(n)) => assert_eq!(n, "ghost"),
        _ => panic!("expected a missing layer"),
    }
}

#[test]
fn bad_mapping_is_an_error() {
    let r = resolve_config(&raw(
        vec![layer("base", None, vec![mapping(&["KEY_LEFTALT"], key_action(&["KEY_A"]))])],
        vec![],
    ));
    assert!(matches!(r, Err(ConfigError::ModifierOnlyTrigger)));
    let r = resolve_config(&raw(
        vec![layer("base", None, vec![mapping(&["KEY_A"], key_action(&["KEY_LEFTALT"]))])],
        vec![],
    ));
    assert!(matches!(r, Err(ConfigError::NoMainKeyInCombo)));
}

#[test]
fn last_profile_wins() {
    let cfg = resolve_config(&raw(
        vec![layer("base", None, vec![]), layer("games", None, vec![]), layer("web", None, vec![])],
        vec![
            RawProfile { wm_classes: names(&["steam", "firefox"]), layer: "games".to_string() },
            RawProfile { wm_classes: names(&["firefox"]), layer: "web".to_string() },
        ],
    ))
    .ok()
    .unwrap();
    assert_eq!(cfg.profile_map.get(&"firefox".to_string()).cloned(), Some("web".to_string()));
    assert_eq!(cfg.profile_map.get(&"steam".to_string()).cloned(), Some("games".to_string()));
    assert_eq!(cfg.profile_map.get(&"term".to_string()).cloned(), None);
}

#[test]
fn parent_cycles_are_detected() {
    let cyclic = raw(vec![layer("a", Some("b"), vec![]), layer("b", Some("a"), vec![])], vec![]);
    assert!(!parents_terminate(&cyclic));
    let self_parent = raw(vec![layer("a", Some("a"), vec![])], vec![]);
    assert!(!parents_terminate(&self_parent));
    let chain = raw(
        vec![layer("a", Some("b"), vec![]), layer("b", Some("c"), vec![]), layer("c", None, vec![])],
        vec![],
    );
    assert!(parents_terminate(&chain));
    let dangling = raw(vec![layer("a", Some("zz"), vec![])], vec![]);
    assert!(parents_terminate(&dangling));
}

#[test]
fn layer_actions_keep_their_fields() {
    let a = resolve_action(&RawAction::Layer { layer: "nav".to_string(), mode: LayerMode::Toggle });
    match a {
        Ok(Action::Layer { layer, mode }) => {
            assert_eq!(layer, "nav");
            assert_eq!(mode, LayerMode::Toggle);
        }
        _ => panic!("expected a layer action"),
    }
    let _ = KEY_LEFTALT;
}
