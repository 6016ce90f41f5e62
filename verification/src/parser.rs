//! Resolution of the raw configuration: key names to codes, key lists to
//! combinations and triggers, raw actions to actions, and each layer's
//! mappings laid over its parent's.

use vstd::prelude::*;
use crate::config::{
    first_index, lemma_first_index, lemma_first_index_found, names_view, steps_view, table_with, Action,
    ActionModel, ComboModel, Config, ConfigModel, KeyCombo, LayerMappings, LayerModel, MacroStep, RawMapping, raw_mappings_view,
    ProfileMap, RawAction, RawActionModel, RawConfig, RawConfigModel, RawLayerModel,
    RawMacroStep, RawMacroStepModel, RawMappingModel, RawProfileModel, ResolvedLayer, StepModel,
};
use crate::keys::{
    is_modifier_key, is_alt, is_ctrl, is_shift, modifier_bits, spec_is_modifier_key,
    KEY_LEFTALT, KEY_LEFTCTRL, KEY_LEFTSHIFT, KEY_RIGHTALT, KEY_RIGHTCTRL, KEY_RIGHTSHIFT,
    MODIFIER_COUNT, WHEEL_DOWN, WHEEL_UP,
};

verus! {

// ─── Key names ───────────────────────────────────────────────────────────────

#[verifier::external_type_specification]
#[verifier::external_body]
pub struct ExEnumParseError(evdev::EnumParseError);

/// The code of the evdev key whose constant is called `name` (such as
/// "KEY_A"), if there is one.
pub uninterp spec fn evdev_key_named(name: Seq<char>) -> Option<u16>;

/// Calls evdev's `FromStr` for `Key`, which looks the name up among the
/// key constants' names; the contract claims only that the result is the
/// named lookup of the string, and an error exactly when the lookup fails.
#[verifier::external_body]
fn evdev_key_from_str(name: &str) -> (r: Result<u16, evdev::EnumParseError>)
    ensures
        match r {
            Ok(code) => evdev_key_named(name@) == Some(code),
            Err(_) => evdev_key_named(name@) is None,
        },
{
    name.parse::<evdev::Key>().map(|k| k.code())
}

pub open spec fn wheel_up_name() -> Seq<char> {
    seq!['W', 'H', 'E', 'E', 'L', '_', 'U', 'P']
}

pub open spec fn wheel_down_name() -> Seq<char> {
    seq!['W', 'H', 'E', 'E', 'L', '_', 'D', 'O', 'W', 'N']
}

/// The code a key name stands for: the two wheel pseudo keys, or an evdev
/// key constant's name.
pub open spec fn spec_parse_key(name: Seq<char>) -> Option<u16> {
    if name == wheel_up_name() {
        Some(WHEEL_UP)
    } else if name == wheel_down_name() {
        Some(WHEEL_DOWN)
    } else {
        evdev_key_named(name)
    }
}

/// Errors in a configuration.
pub enum ConfigError {
    EmptyCombo,
    UnknownKey(String),
    MultipleMainKeysInCombo,
    NoMainKeyInCombo,
    EmptyTrigger,
    MultipleMainKeysInTrigger,
    ModifierOnlyTrigger,
    LayerNotFound(String),
}

pub enum ConfigErrorModel {
    EmptyCombo,
    UnknownKey(Seq<char>),
    MultipleMainKeysInCombo,
    NoMainKeyInCombo,
    EmptyTrigger,
    MultipleMainKeysInTrigger,
    ModifierOnlyTrigger,
    LayerNotFound(Seq<char>),
}

impl View for ConfigError {
    type V = ConfigErrorModel;

    open spec fn view(&self) -> ConfigErrorModel {
        match self {
            ConfigError::EmptyCombo => ConfigErrorModel::EmptyCombo,
            ConfigError::UnknownKey(n) => ConfigErrorModel::UnknownKey(n@),
            ConfigError::MultipleMainKeysInCombo => ConfigErrorModel::MultipleMainKeysInCombo,
            ConfigError::NoMainKeyInCombo => ConfigErrorModel::NoMainKeyInCombo,
            ConfigError::EmptyTrigger => ConfigErrorModel::EmptyTrigger,
            ConfigError::MultipleMainKeysInTrigger => ConfigErrorModel::MultipleMainKeysInTrigger,
            ConfigError::ModifierOnlyTrigger => ConfigErrorModel::ModifierOnlyTrigger,
            ConfigError::LayerNotFound(n) => ConfigErrorModel::LayerNotFound(n@),
        }
    }
}

fn str_is(s: &str, word: &[char]) -> (r: bool)
    ensures
        r == (s@ == word@),
{
    let n = s.unicode_len();
    if n != word.len() {
        return false;
    }
    let mut i: usize = 0;
    while i < n
        invariant
            0 <= i <= n,
            n == s@.len(),
            n == word@.len(),
            forall|j: int| 0 <= j < i ==> s@[j] == word@[j],
        decreases n - i,
    {
        if s.get_char(i) != word[i] {
            return false;
        }
        i = i + 1;
    }
    proof {
        assert(s@ =~= word@);
    }
    true
}

/// The code of a key name (see `spec_parse_key`).
pub fn parse_key(name: &String) -> (r: Result<u16, ConfigError>)
    ensures
        match r {
            Ok(code) => spec_parse_key(name@) == Some(code),
            Err(e) => spec_parse_key(name@) is None && e@ == ConfigErrorModel::UnknownKey(name@),
        },
{
    let up = ['W', 'H', 'E', 'E', 'L', '_', 'U', 'P'];
    let down = ['W', 'H', 'E', 'E', 'L', '_', 'D', 'O', 'W', 'N'];
    proof {
        assert(up@ =~= wheel_up_name());
        assert(down@ =~= wheel_down_name());
    }
    if str_is(name.as_str(), &up) {
        return Ok(WHEEL_UP);
    }
    if str_is(name.as_str(), &down) {
        return Ok(WHEEL_DOWN);
    }
    match evdev_key_from_str(name.as_str()) {
        Ok(code) => Ok(code),
        Err(_) => Err(ConfigError::UnknownKey(name.clone())),
    }
}

// ─── Combinations and triggers ───────────────────────────────────────────────

/// Reading a key list for a combination: the modifiers in order and the one
/// main key, stopping at the first unknown name or second main key.
pub open spec fn combo_scan(names: Seq<Seq<char>>) -> Result<(Seq<u16>, Option<u16>), ConfigErrorModel>
    decreases names.len(),
{
    if names.len() == 0 {
        Ok((Seq::empty(), None))
    } else {
        match combo_scan(names.drop_last()) {
            Err(e) => Err(e),
            Ok((mods, main)) => match spec_parse_key(names.last()) {
                None => Err(ConfigErrorModel::UnknownKey(names.last())),
                Some(k) => if spec_is_modifier_key(k) {
                    Ok((mods.push(k), main))
                } else if main is Some {
                    Err(ConfigErrorModel::MultipleMainKeysInCombo)
                } else {
                    Ok((mods, Some(k)))
                },
            },
        }
    }
}

/// A key list as a combination.
pub open spec fn spec_parse_combo(names: Seq<Seq<char>>) -> Result<ComboModel, ConfigErrorModel> {
    if names.len() == 0 {
        Err(ConfigErrorModel::EmptyCombo)
    } else {
        match combo_scan(names) {
            Err(e) => Err(e),
            Ok((mods, None)) => Err(ConfigErrorModel::NoMainKeyInCombo),
            Ok((mods, Some(k))) => Ok(ComboModel { modifiers: mods, key: k }),
        }
    }
}

pub open spec fn combo_result_view(r: Result<KeyCombo, ConfigError>) -> Result<ComboModel, ConfigErrorModel> {
    match r {
        Ok(c) => Ok(c@),
        Err(e) => Err(e@),
    }
}

/// Parses a key list into a combination (see `spec_parse_combo`).
pub fn parse_combo(keys: &Vec<String>) -> (r: Result<KeyCombo, ConfigError>)
    ensures
        combo_result_view(r) == spec_parse_combo(names_view(keys@)),
{
    let ghost names = names_view(keys@);
    if keys.len() == 0 {
        return Err(ConfigError::EmptyCombo);
    }
    let mut modifiers: Vec<u16> = Vec::new();
    let mut main_key: Option<u16> = None;
    let mut i: usize = 0;
    while i < keys.len()
        invariant
            0 <= i <= keys@.len(),
            names == names_view(keys@),
            combo_scan(names.take(i as int)) == Ok::<(Seq<u16>, Option<u16>), ConfigErrorModel>((modifiers@, main_key)),
        decreases keys@.len() - i,
    {
        proof {
            assert(names.take(i + 1).drop_last() =~= names.take(i as int));
            assert(names.take(i + 1).last() == keys@[i as int]@);
        }
        let key = match parse_key(&keys[i]) {
            Ok(k) => k,
            Err(e) => {
                proof {
                    lemma_combo_scan_err_prefix(names, i as int + 1);
                }
                return Err(e);
            },
        };
        if is_modifier_key(key) {
            modifiers.push(key);
        } else {
            if main_key.is_some() {
                proof {
                    lemma_combo_scan_err_prefix(names, i as int + 1);
                }
                return Err(ConfigError::MultipleMainKeysInCombo);
            }
            main_key = Some(key);
        }
        i = i + 1;
    }
    proof {
        assert(names.take(keys@.len() as int) =~= names);
    }
    match main_key {
        Some(k) => Ok(KeyCombo { modifiers, key: k }),
        None => Err(ConfigError::NoMainKeyInCombo),
    }
}

/// Once a prefix of the key list fails, the whole list fails the same way.
proof fn lemma_combo_scan_err_prefix(names: Seq<Seq<char>>, n: int)
    requires
        0 < n <= names.len(),
        combo_scan(names.take(n)) is Err,
    ensures
        combo_scan(names) == combo_scan(names.take(n)),
    decreases names.len() - n,
{
    if n < names.len() {
        assert(names.take(n + 1).drop_last() =~= names.take(n));
        lemma_combo_scan_err_prefix(names, n + 1);
    } else {
        assert(names.take(n) =~= names);
    }
}

/// Reading a key list for a trigger: which of shift, ctrl and alt it holds,
/// and its one main key (any other key, meta included).
pub open spec fn trigger_scan(names: Seq<Seq<char>>) -> Result<(bool, bool, bool, Option<u16>), ConfigErrorModel>
    decreases names.len(),
{
    if names.len() == 0 {
        Ok((false, false, false, None))
    } else {
        match trigger_scan(names.drop_last()) {
            Err(e) => Err(e),
            Ok((sh, ct, al, main)) => match spec_parse_key(names.last()) {
                None => Err(ConfigErrorModel::UnknownKey(names.last())),
                Some(k) => if is_shift(k) {
                    Ok((true, ct, al, main))
                } else if is_ctrl(k) {
                    Ok((sh, true, al, main))
                } else if is_alt(k) {
                    Ok((sh, ct, true, main))
                } else if main is Some {
                    Err(ConfigErrorModel::MultipleMainKeysInTrigger)
                } else {
                    Ok((sh, ct, al, Some(k)))
                },
            },
        }
    }
}

/// A key list as a trigger: the main key's code and the modifier bitmask.
pub open spec fn spec_parse_trigger(names: Seq<Seq<char>>) -> Result<(u16, int), ConfigErrorModel> {
    if names.len() == 0 {
        Err(ConfigErrorModel::EmptyTrigger)
    } else {
        match trigger_scan(names) {
            Err(e) => Err(e),
            Ok((sh, ct, al, None)) => Err(ConfigErrorModel::ModifierOnlyTrigger),
            Ok((sh, ct, al, Some(k))) => Ok((k, modifier_bits(sh, ct, al))),
        }
    }
}

proof fn lemma_trigger_scan_err_prefix(names: Seq<Seq<char>>, n: int)
    requires
        0 < n <= names.len(),
        trigger_scan(names.take(n)) is Err,
    ensures
        trigger_scan(names) == trigger_scan(names.take(n)),
    decreases names.len() - n,
{
    if n < names.len() {
        assert(names.take(n + 1).drop_last() =~= names.take(n));
        lemma_trigger_scan_err_prefix(names, n + 1);
    } else {
        assert(names.take(n) =~= names);
    }
}

/// Parses a trigger key list (see `spec_parse_trigger`).
pub fn parse_trigger(keys: &Vec<String>) -> (r: Result<(u16, usize), ConfigError>)
    ensures
        match r {
            Ok((code, mi)) => spec_parse_trigger(names_view(keys@)) == Ok::<(u16, int), ConfigErrorModel>((code, mi as int))
                && mi < MODIFIER_COUNT,
            Err(e) => spec_parse_trigger(names_view(keys@)) == Err::<(u16, int), ConfigErrorModel>(e@),
        },
{
    let ghost names = names_view(keys@);
    if keys.len() == 0 {
        return Err(ConfigError::EmptyTrigger);
    }
    let mut shift = false;
    let mut ctrl = false;
    let mut alt = false;
    let mut main_key: Option<u16> = None;
    let mut i: usize = 0;
    while i < keys.len()
        invariant
            0 <= i <= keys@.len(),
            names == names_view(keys@),
            trigger_scan(names.take(i as int)) == Ok::<(bool, bool, bool, Option<u16>), ConfigErrorModel>((shift, ctrl, alt, main_key)),
        decreases keys@.len() - i,
    {
        proof {
            assert(names.take(i + 1).drop_last() =~= names.take(i as int));
            assert(names.take(i + 1).last() == keys@[i as int]@);
        }
        let key = match parse_key(&keys[i]) {
            Ok(k) => k,
            Err(e) => {
                proof {
                    lemma_trigger_scan_err_prefix(names, i as int + 1);
                }
                return Err(e);
            },
        };
        if key == KEY_LEFTSHIFT || key == KEY_RIGHTSHIFT {
            shift = true;
        } else if key == KEY_LEFTCTRL || key == KEY_RIGHTCTRL {
            ctrl = true;
        } else if key == KEY_LEFTALT || key == KEY_RIGHTALT {
            alt = true;
        } else {
            if main_key.is_some() {
                proof {
                    lemma_trigger_scan_err_prefix(names, i as int + 1);
                }
                return Err(ConfigError::MultipleMainKeysInTrigger);
            }
            main_key = Some(key);
        }
        i = i + 1;
    }
    proof {
        assert(names.take(keys@.len() as int) =~= names);
    }
    let mut index: usize = 0;
    if shift {
        index = index + 1;
    }
    if ctrl {
        index = index + 2;
    }
    if alt {
        index = index + 4;
    }
    match main_key {
        Some(k) => Ok((k, index)),
        None => Err(ConfigError::ModifierOnlyTrigger),
    }
}


// ─── Actions ─────────────────────────────────────────────────────────────────

/// Resolving macro steps in order, stopping at the first bad key list.
pub open spec fn steps_scan(steps: Seq<RawMacroStepModel>) -> Result<Seq<StepModel>, ConfigErrorModel>
    decreases steps.len(),
{
    if steps.len() == 0 {
        Ok(Seq::empty())
    } else {
        match steps_scan(steps.drop_last()) {
            Err(e) => Err(e),
            Ok(done) => match spec_parse_combo(steps.last().keys) {
                Err(e) => Err(e),
                Ok(c) => Ok(done.push(StepModel { combo: c, delay_ms: steps.last().delay_ms, up: steps.last().up })),
            },
        }
    }
}

/// A raw action resolved: key lists become combinations, everything else
/// is carried over.
pub open spec fn spec_resolve_action(raw: RawActionModel) -> Result<ActionModel, ConfigErrorModel> {
    match raw {
        RawActionModel::Key { keys } => match spec_parse_combo(keys) {
            Ok(c) => Ok(ActionModel::Key(c)),
            Err(e) => Err(e),
        },
        RawActionModel::Macro { mode, steps } => match steps_scan(steps) {
            Ok(s) => Ok(ActionModel::Macro { mode, steps: s }),
            Err(e) => Err(e),
        },
        RawActionModel::Layer { layer, mode } => Ok(ActionModel::Layer { layer, mode }),
        RawActionModel::Volume { direction, percent } => Ok(ActionModel::Volume { direction, percent }),
        RawActionModel::AppVolume { direction, percent } => Ok(ActionModel::AppVolume { direction, percent }),
        RawActionModel::Launch { command } => Ok(ActionModel::Launch { command }),
    }
}

pub open spec fn action_result_view(r: Result<Action, ConfigError>) -> Result<ActionModel, ConfigErrorModel> {
    match r {
        Ok(a) => Ok(a@),
        Err(e) => Err(e@),
    }
}

proof fn lemma_steps_scan_err_prefix(steps: Seq<RawMacroStepModel>, n: int)
    requires
        0 < n <= steps.len(),
        steps_scan(steps.take(n)) is Err,
    ensures
        steps_scan(steps) == steps_scan(steps.take(n)),
    decreases steps.len() - n,
{
    if n < steps.len() {
        assert(steps.take(n + 1).drop_last() =~= steps.take(n));
        lemma_steps_scan_err_prefix(steps, n + 1);
    } else {
        assert(steps.take(n) =~= steps);
    }
}

fn resolve_steps(steps: &Vec<RawMacroStep>) -> (r: Result<Vec<MacroStep>, ConfigError>)
    ensures
        match r {
            Ok(v) => steps_scan(steps@.map_values(|s: RawMacroStep| s@)) == Ok::<Seq<StepModel>, ConfigErrorModel>(steps_view(v@)),
            Err(e) => steps_scan(steps@.map_values(|s: RawMacroStep| s@)) == Err::<Seq<StepModel>, ConfigErrorModel>(e@),
        },
{
    let ghost raw = steps@.map_values(|s: RawMacroStep| s@);
    let mut out: Vec<MacroStep> = Vec::new();
    proof {
        assert(raw.take(0) =~= Seq::<RawMacroStepModel>::empty());
        assert(steps_view(out@) =~= Seq::<StepModel>::empty());
    }
    let mut i: usize = 0;
    while i < steps.len()
        invariant
            0 <= i <= steps@.len(),
            raw == steps@.map_values(|s: RawMacroStep| s@),
            steps_scan(raw.take(i as int)) == Ok::<Seq<StepModel>, ConfigErrorModel>(steps_view(out@)),
        decreases steps@.len() - i,
    {
        proof {
            assert(raw.take(i + 1).drop_last() =~= raw.take(i as int));
            assert(raw.take(i + 1).last() == steps@[i as int]@);
        }
        let step = &steps[i];
        match parse_combo(&step.keys) {
            Ok(combo) => {
                let ghost prev = out@;
                let new_step = MacroStep { combo, delay_ms: step.delay_ms, up: step.up };
                let ghost sv = new_step@;
                out.push(new_step);
                proof {
                    assert(steps_view(out@) =~= steps_view(prev).push(sv));
                }
            },
            Err(e) => {
                proof {
                    lemma_steps_scan_err_prefix(raw, i as int + 1);
                }
                return Err(e);
            },
        }
        i = i + 1;
    }
    proof {
        assert(raw.take(steps@.len() as int) =~= raw);
    }
    Ok(out)
}

/// Resolves a raw action (see `spec_resolve_action`).
pub fn resolve_action(raw: &RawAction) -> (r: Result<Action, ConfigError>)
    ensures
        action_result_view(r) == spec_resolve_action(raw@),
{
    match raw {
        RawAction::Key { keys } => match parse_combo(keys) {
            Ok(c) => Ok(Action::Key(c)),
            Err(e) => Err(e),
        },
        RawAction::Macro { mode, steps } => match resolve_steps(steps) {
            Ok(s) => Ok(Action::Macro { mode: *mode, steps: s }),
            Err(e) => Err(e),
        },
        RawAction::Layer { layer, mode } => Ok(Action::Layer { layer: layer.clone(), mode: *mode }),
        RawAction::Volume { direction, percent } => Ok(
            Action::Volume { direction: *direction, percent: *percent },
        ),
        RawAction::AppVolume { direction, percent } => Ok(
            Action::AppVolume { direction: *direction, percent: *percent },
        ),
        RawAction::Launch { command } => Ok(Action::Launch { command: command.clone() }),
    }
}


// ─── Layers ──────────────────────────────────────────────────────────────────

pub type Table = Map<u16, Seq<Option<ActionModel>>>;

pub open spec fn raw_layer_names(layers: Seq<(Seq<char>, RawLayerModel)>) -> Seq<Seq<char>> {
    layers.map_values(|l: (Seq<char>, RawLayerModel)| l.0)
}

/// The position of the raw layer called `name`.
pub open spec fn raw_layer_index(layers: Seq<(Seq<char>, RawLayerModel)>, name: Seq<char>) -> Option<int> {
    first_index(raw_layer_names(layers), name)
}

/// A layer's mappings applied in order over `base`: each trigger's slot
/// gets the mapping's action, later mappings overriding earlier ones; the
/// first bad trigger or action (trigger first) is the error.
pub open spec fn apply_mappings(base: Table, ms: Seq<RawMappingModel>) -> Result<Table, ConfigErrorModel>
    decreases ms.len(),
{
    if ms.len() == 0 {
        Ok(base)
    } else {
        match apply_mappings(base, ms.drop_last()) {
            Err(e) => Err(e),
            Ok(t) => match spec_parse_trigger(ms.last().trigger) {
                Err(e) => Err(e),
                Ok((code, mi)) => match spec_resolve_action(ms.last().action) {
                    Err(e) => Err(e),
                    Ok(a) => Ok(table_with(t, code, mi, a)),
                },
            },
        }
    }
}

/// Following parents from `name` reaches a layer without parent, or a
/// missing layer, within `fuel` steps.
pub open spec fn chain_terminates(layers: Seq<(Seq<char>, RawLayerModel)>, name: Seq<char>, fuel: nat) -> bool
    decreases fuel,
{
    match raw_layer_index(layers, name) {
        None => true,
        Some(i) => match layers[i].1.parent {
            None => true,
            Some(p) => fuel > 0 && chain_terminates(layers, p, (fuel - 1) as nat),
        },
    }
}

/// No layer is its own ancestor: every parent chain ends.
pub open spec fn parents_acyclic(raw: RawConfigModel) -> bool {
    forall|i: int|
        0 <= i < raw.layers.len() ==> chain_terminates(raw.layers, #[trigger] raw.layers[i].0, raw.layers.len())
}

/// A layer's table: its parent's table (empty without parent) with its own
/// mappings applied; a missing layer is an error.
pub open spec fn spec_resolve_layer(layers: Seq<(Seq<char>, RawLayerModel)>, name: Seq<char>, fuel: nat) -> Result<Table, ConfigErrorModel>
    decreases fuel,
{
    match raw_layer_index(layers, name) {
        None => Err(ConfigErrorModel::LayerNotFound(name)),
        Some(i) => {
            let base = match layers[i].1.parent {
                None => Ok(Map::empty()),
                Some(p) => if fuel == 0 {
                    Err(ConfigErrorModel::LayerNotFound(p))
                } else {
                    spec_resolve_layer(layers, p, (fuel - 1) as nat)
                },
            };
            match base {
                Err(e) => Err(e),
                Ok(b) => apply_mappings(b, layers[i].1.mappings),
            }
        },
    }
}

/// With a chain that ends within `f` steps, more fuel changes nothing.
pub proof fn lemma_resolve_fuel_pub(layers: Seq<(Seq<char>, RawLayerModel)>, name: Seq<char>, f: nat, g: nat)
    requires
        chain_terminates(layers, name, f),
        f <= g,
    ensures
        chain_terminates(layers, name, g),
        spec_resolve_layer(layers, name, f) == spec_resolve_layer(layers, name, g),
{
    lemma_resolve_fuel(layers, name, f, g);
}

proof fn lemma_resolve_fuel(layers: Seq<(Seq<char>, RawLayerModel)>, name: Seq<char>, f: nat, g: nat)
    requires
        chain_terminates(layers, name, f),
        f <= g,
    ensures
        chain_terminates(layers, name, g),
        spec_resolve_layer(layers, name, f) == spec_resolve_layer(layers, name, g),
    decreases f,
{
    match raw_layer_index(layers, name) {
        None => {},
        Some(i) => match layers[i].1.parent {
            None => {},
            Some(p) => {
                lemma_resolve_fuel(layers, p, (f - 1) as nat, (g - 1) as nat);
            },
        },
    }
}

pub open spec fn table_result_view(r: Result<LayerMappings, ConfigError>) -> Result<Table, ConfigErrorModel> {
    match r {
        Ok(m) => Ok(m@),
        Err(e) => Err(e@),
    }
}

fn find_raw_layer(raw: &RawConfig, name: &String) -> (r: Option<usize>)
    ensures
        match r {
            Some(i) => i < raw@.layers.len() && raw_layer_index(raw@.layers, name@) == Some(i as int),
            None => raw_layer_index(raw@.layers, name@) is None,
        },
{
    let ghost names = raw_layer_names(raw@.layers);
    let mut i: usize = 0;
    while i < raw.layers.len()
        invariant
            0 <= i <= raw.layers@.len(),
            names == raw_layer_names(raw@.layers),
            names.len() == raw.layers@.len(),
            forall|j: int| 0 <= j < i ==> names[j] != name@,
        decreases raw.layers@.len() - i,
    {
        proof {
            assert(names[i as int] == raw.layers@[i as int].0@);
        }
        if raw.layers[i].0 == *name {
            proof {
                lemma_first_index(names, name@, i as int);
            }
            return Some(i);
        }
        i = i + 1;
    }
    None
}

proof fn lemma_apply_err_prefix(base: Table, ms: Seq<RawMappingModel>, n: int)
    requires
        0 < n <= ms.len(),
        apply_mappings(base, ms.take(n)) is Err,
    ensures
        apply_mappings(base, ms) == apply_mappings(base, ms.take(n)),
    decreases ms.len() - n,
{
    if n < ms.len() {
        assert(ms.take(n + 1).drop_last() =~= ms.take(n));
        lemma_apply_err_prefix(base, ms, n + 1);
    } else {
        assert(ms.take(n) =~= ms);
    }
}

/// What the cache holds: for each layer already resolved, its table.
pub open spec fn cache_ok(raw: RawConfigModel, cache: Seq<Option<LayerMappings>>) -> bool {
    &&& cache.len() == raw.layers.len()
    &&& forall|j: int|
        0 <= j < cache.len() && #[trigger] cache[j] is Some ==> {
            &&& cache[j]->0.wf()
            &&& raw_layer_index(raw.layers, raw.layers[j].0) == Some(j)
            &&& spec_resolve_layer(raw.layers, raw.layers[j].0, raw.layers.len()) == Ok::<Table, ConfigErrorModel>(cache[j]->0@)
        }
}

/// Applies a layer's raw mappings over `mappings` (see `apply_mappings`).
fn apply_raw_mappings(initial: LayerMappings, raw_ms: &Vec<RawMapping>) -> (r: Result<LayerMappings, ConfigError>)
    requires
        initial.wf(),
    ensures
        table_result_view(r) == apply_mappings(initial@, raw_mappings_view(raw_ms@)),
        r matches Ok(m) ==> m.wf(),
{
    let ghost base = initial@;
    let ghost ms = raw_mappings_view(raw_ms@);
    let mut mappings = initial;
    proof {
        assert(ms.take(0) =~= Seq::<RawMappingModel>::empty());
    }
    let mut i: usize = 0;
    while i < raw_ms.len()
        invariant
            0 <= i <= raw_ms@.len(),
            ms == raw_mappings_view(raw_ms@),
            base == initial@,
            mappings.wf(),
            apply_mappings(base, ms.take(i as int)) == Ok::<Table, ConfigErrorModel>(mappings@),
        decreases raw_ms@.len() - i,
    {
        proof {
            assert(ms.take(i + 1).drop_last() =~= ms.take(i as int));
            assert(ms.take(i + 1).last() == raw_ms@[i as int]@);
        }
        let m = &raw_ms[i];
        let (code, mi) = match parse_trigger(&m.trigger) {
            Ok(t) => t,
            Err(e) => {
                proof {
                    assert(apply_mappings(base, ms.take(i + 1)) == Err::<Table, ConfigErrorModel>(e@));
                    lemma_apply_err_prefix(base, ms, i as int + 1);
                }
                return Err(e);
            },
        };
        let action = match resolve_action(&m.action) {
            Ok(a) => a,
            Err(e) => {
                proof {
                    assert(apply_mappings(base, ms.take(i + 1)) == Err::<Table, ConfigErrorModel>(e@));
                    lemma_apply_err_prefix(base, ms, i as int + 1);
                }
                return Err(e);
            },
        };
        mappings.set(code, mi, action);
        i = i + 1;
    }
    proof {
        assert(ms.take(raw_ms@.len() as int) =~= ms);
    }
    Ok(mappings)
}

/// Resolves the layer called `name`, reusing and filling the cache of
/// resolved layers.
#[verifier::rlimit(40)]
fn resolve_layer(
    raw: &RawConfig,
    name: &String,
    fuel: usize,
    cache: &mut Vec<Option<LayerMappings>>,
) -> (r: Result<LayerMappings, ConfigError>)
    requires
        chain_terminates(raw@.layers, name@, fuel as nat),
        fuel <= raw@.layers.len(),
        cache_ok(raw@, old(cache)@),
    ensures
        cache_ok(raw@, final(cache)@),
        table_result_view(r) == spec_resolve_layer(raw@.layers, name@, raw@.layers.len()),
        r matches Ok(m) ==> m.wf(),
        // entries are only ever added: what the cache held stays as it was
        forall|j: int|
            0 <= j < old(cache)@.len() && old(cache)@[j] is Some ==> #[trigger] final(cache)@[j]
                == old(cache)@[j],
        // a layer already in the cache is handed back, and nothing changes
        forall|i: int|
            raw_layer_index(raw@.layers, name@) == Some(i) && #[trigger] old(cache)@[i] is Some
                ==> final(cache)@ == old(cache)@ && (r matches Ok(m) && m@ == old(cache)@[i]->0@),
        // an unknown layer changes nothing
        raw_layer_index(raw@.layers, name@) is None ==> final(cache)@ == old(cache)@,
        // a resolved layer is in the cache afterwards; a failed one is not
        forall|i: int|
            raw_layer_index(raw@.layers, name@) == Some(i) ==> match r {
                Ok(m) => #[trigger] final(cache)@[i] matches Some(c) && c@ == m@,
                Err(_) => final(cache)@[i] is None,
            },
    decreases fuel,
{
    let ghost layers = raw@.layers;
    let ghost n = layers.len();
    proof {
        lemma_resolve_fuel(layers, name@, fuel as nat, n);
    }
    let idx = match find_raw_layer(raw, name) {
        Some(i) => i,
        None => return Err(ConfigError::LayerNotFound(name.clone())),
    };
    proof {
        assert(layers[idx as int] == (raw.layers@[idx as int].0@, raw.layers@[idx as int].1@));
    }
    match &cache[idx] {
        Some(m) => {
            proof {
                assert(cache@[idx as int] is Some);
                assert(layers[idx as int].0 == name@) by {
                    lemma_first_index_found(raw_layer_names(layers), name@);
                }
            }
            return Ok(m.clone());
        },
        None => {},
    }
    let layer = &raw.layers[idx].1;
    let mut mappings = match &layer.parent {
        Some(p) => {
            proof {
                assert(layer.parent@ is Some);
                assert(layers[idx as int].1.parent == Some(p@));
            }
            match resolve_layer(raw, p, fuel - 1, cache) {
                Ok(m) => {
                    proof {
                        lemma_resolve_fuel(layers, p@, (fuel - 1) as nat, (n - 1) as nat);
                        lemma_resolve_fuel(layers, p@, (fuel - 1) as nat, n);
                    }
                    m
                },
                Err(e) => {
                    proof {
                        lemma_resolve_fuel(layers, p@, (fuel - 1) as nat, (n - 1) as nat);
                        lemma_resolve_fuel(layers, p@, (fuel - 1) as nat, n);
                    }
                    return Err(e);
                },
            }
        },
        None => LayerMappings::new(),
    };
    let ghost base = mappings@;
    let mappings = match apply_raw_mappings(mappings, &layer.mappings) {
        Ok(m) => m,
        Err(e) => return Err(e),
    };
    proof {
        assert(layers[idx as int].1.mappings == raw_mappings_view(layer.mappings@));
        assert(layers[idx as int].0 == name@) by {
            lemma_first_index_found(raw_layer_names(layers), name@);
        }
    }
    let stored = mappings.clone();
    cache.set(idx, Some(stored));
    Ok(mappings)
}


// ─── Whole configuration ─────────────────────────────────────────────────────

/// Every layer resolved, in order; the first failure is the error.
pub open spec fn spec_resolve_all(layers: Seq<(Seq<char>, RawLayerModel)>, k: int) -> Result<Seq<LayerModel>, ConfigErrorModel>
    decreases k,
{
    if k <= 0 {
        Ok(Seq::empty())
    } else {
        match spec_resolve_all(layers, k - 1) {
            Err(e) => Err(e),
            Ok(done) => match spec_resolve_layer(layers, layers[k - 1].0, layers.len()) {
                Err(e) => Err(e),
                Ok(t) => Ok(done.push(LayerModel { name: layers[k - 1].0, mappings: t })),
            },
        }
    }
}

/// Each window class mapped to `layer`, in order.
pub open spec fn insert_classes(m: Map<Seq<char>, Seq<char>>, classes: Seq<Seq<char>>, layer: Seq<char>) -> Map<Seq<char>, Seq<char>>
    decreases classes.len(),
{
    if classes.len() == 0 {
        m
    } else {
        insert_classes(m, classes.drop_last(), layer).insert(classes.last(), layer)
    }
}

/// The window-class profiles as one map; a class named by several profiles
/// goes to the last of them.
pub open spec fn spec_profile_map(profiles: Seq<RawProfileModel>) -> Map<Seq<char>, Seq<char>>
    decreases profiles.len(),
{
    if profiles.len() == 0 {
        Map::empty()
    } else {
        insert_classes(spec_profile_map(profiles.drop_last()), profiles.last().wm_classes, profiles.last().layer)
    }
}

/// The resolved configuration of a raw one.
pub open spec fn spec_load_config(raw: RawConfigModel) -> Result<ConfigModel, ConfigErrorModel> {
    match spec_resolve_all(raw.layers, raw.layers.len() as int) {
        Err(e) => Err(e),
        Ok(layers) => Ok(
            ConfigModel {
                layers,
                profile_map: spec_profile_map(raw.profiles),
                default_layer: raw.default_layer,
                device_names: raw.device_names,
            },
        ),
    }
}

pub open spec fn config_result_view(r: Result<Config, ConfigError>) -> Result<ConfigModel, ConfigErrorModel> {
    match r {
        Ok(c) => Ok(c@),
        Err(e) => Err(e@),
    }
}

proof fn lemma_resolve_all_err_prefix(layers: Seq<(Seq<char>, RawLayerModel)>, k: int, n: int)
    requires
        0 <= k <= n,
        spec_resolve_all(layers, k) is Err,
    ensures
        spec_resolve_all(layers, n) == spec_resolve_all(layers, k),
    decreases n - k,
{
    if k < n {
        lemma_resolve_all_err_prefix(layers, k + 1, n);
        assert(spec_resolve_all(layers, k + 1) == spec_resolve_all(layers, k));
    }
}

fn build_profile_map(profiles: &Vec<crate::config::RawProfile>) -> (m: ProfileMap)
    ensures
        m.wf(),
        m@ == spec_profile_map(profiles@.map_values(|p: crate::config::RawProfile| p@)),
{
    let ghost ps = profiles@.map_values(|p: crate::config::RawProfile| p@);
    let mut m = ProfileMap::new();
    let mut i: usize = 0;
    while i < profiles.len()
        invariant
            0 <= i <= profiles@.len(),
            ps == profiles@.map_values(|p: crate::config::RawProfile| p@),
            m.wf(),
            m@ == spec_profile_map(ps.take(i as int)),
        decreases profiles@.len() - i,
    {
        let profile = &profiles[i];
        let ghost before = m@;
        let ghost classes = names_view(profile.wm_classes@);
        let mut j: usize = 0;
        while j < profile.wm_classes.len()
            invariant
                0 <= j <= profile.wm_classes@.len(),
                classes == names_view(profile.wm_classes@),
                m.wf(),
                m@ == insert_classes(before, classes.take(j as int), profile.layer@),
            decreases profile.wm_classes@.len() - j,
        {
            proof {
                assert(classes.take(j + 1).drop_last() =~= classes.take(j as int));
            }
            m.insert(profile.wm_classes[j].clone(), profile.layer.clone());
            j = j + 1;
        }
        proof {
            assert(classes.take(profile.wm_classes@.len() as int) =~= classes);
            assert(ps.take(i + 1).drop_last() =~= ps.take(i as int));
            assert(ps.take(i + 1).last() == profile@);
        }
        i = i + 1;
    }
    proof {
        assert(ps.take(profiles@.len() as int) =~= ps);
    }
    m
}

/// Resolves a raw configuration (see `spec_load_config`). Every layer's
/// parent chain must end.
pub fn resolve_config(raw: &RawConfig) -> (r: Result<Config, ConfigError>)
    requires
        parents_acyclic(raw@),
    ensures
        config_result_view(r) == spec_load_config(raw@),
        r matches Ok(c) ==> c.wf(),
{
    let ghost layers = raw@.layers;
    let n = raw.layers.len();
    let mut cache: Vec<Option<LayerMappings>> = Vec::new();
    let mut k: usize = 0;
    while k < n
        invariant
            0 <= k <= n,
            n == raw.layers@.len(),
            cache@.len() == k,
            forall|j: int| 0 <= j < k ==> cache@[j] is None,
        decreases n - k,
    {
        cache.push(None);
        k = k + 1;
    }
    let mut resolved: Vec<ResolvedLayer> = Vec::new();
    proof {
        assert(resolved@.map_values(|l: ResolvedLayer| l@) =~= Seq::<LayerModel>::empty());
    }
    let mut i: usize = 0;
    while i < n
        invariant
            0 <= i <= n,
            n == raw.layers@.len(),
            layers == raw@.layers,
            parents_acyclic(raw@),
            cache_ok(raw@, cache@),
            forall|j: int| 0 <= j < resolved@.len() ==> (#[trigger] resolved@[j]).wf(),
            spec_resolve_all(layers, i as int) == Ok::<Seq<LayerModel>, ConfigErrorModel>(resolved@.map_values(|l: ResolvedLayer| l@)),
        decreases n - i,
    {
        let name = &raw.layers[i].0;
        proof {
            assert(layers[i as int].0 == name@);
            assert(chain_terminates(layers, layers[i as int].0, layers.len()));
        }
        match resolve_layer(raw, name, n, &mut cache) {
            Ok(mappings) => {
                let ghost prev = resolved@;
                let layer = ResolvedLayer { name: name.clone(), mappings };
                let ghost lv = layer@;
                resolved.push(layer);
                proof {
                    assert(resolved@.map_values(|l: ResolvedLayer| l@) =~= prev.map_values(|l: ResolvedLayer| l@).push(lv));
                }
            },
            Err(e) => {
                proof {
                    lemma_resolve_all_err_prefix(layers, i as int + 1, n as int);
                }
                return Err(e);
            },
        }
        i = i + 1;
    }
    let profile_map = build_profile_map(&raw.profiles);
    Ok(Config {
        layers: resolved,
        profile_map,
        default_layer: raw.default_layer.clone(),
        device_names: raw.device_names.clone(),
    })
}

fn chain_ends(raw: &RawConfig, name: &String, fuel: usize) -> (r: bool)
    ensures
        r == chain_terminates(raw@.layers, name@, fuel as nat),
    decreases fuel,
{
    match find_raw_layer(raw, name) {
        None => true,
        Some(i) => {
            proof {
                assert(raw@.layers[i as int] == (raw.layers@[i as int].0@, raw.layers@[i as int].1@));
            }
            match &raw.layers[i].1.parent {
                None => true,
                Some(p) => fuel > 0 && chain_ends(raw, p, fuel - 1),
            }
        },
    }
}

/// Whether every layer's parent chain ends (no layer is its own ancestor),
/// which `resolve_config` needs.
pub fn parents_terminate(raw: &RawConfig) -> (r: bool)
    ensures
        r == parents_acyclic(raw@),
{
    let n = raw.layers.len();
    let mut i: usize = 0;
    while i < n
        invariant
            0 <= i <= n,
            n == raw.layers@.len(),
            forall|j: int| 0 <= j < i ==> chain_terminates(raw@.layers, #[trigger] raw@.layers[j].0, n as nat),
        decreases n - i,
    {
        proof {
            assert(raw@.layers[i as int].0 == raw.layers@[i as int].0@);
        }
        if !chain_ends(raw, &raw.layers[i].0, n) {
            return false;
        }
        i = i + 1;
    }
    true
}

} // verus!
