//! The remapping state machine. The event loop hands it one event at a
//! time and performs the commands it returns: emitting events, adjusting the
//! volume, launching programs, and starting or cancelling macros.

use vstd::prelude::*;
use std::collections::{HashMap, HashSet};
use crate::config::{
    spec_find_layer, spec_lookup, steps_view, Action, ActionModel, Config,
    ConfigModel, LayerMode, LookupModel, LookupResult, MacroMode, MacroStep, StepModel,
    VolumeDirection,
};
use crate::events::{
    build_combo_events, resolve_key, resolve_value, should_passthrough, should_skip_event_on_action,
    spec_combo_events, spec_resolve_key, spec_resolve_value, spec_should_passthrough,
    spec_should_skip_event_on_action, InputEvent, EV_ABS,
};
use crate::keys::{differs_from, compute_modifier_index, is_modifier_key, spec_is_modifier_key, spec_modifier_index, KeySet};
use crate::watcher::{WindowInfo, WindowModel};

verus! {

broadcast use vstd::std_specs::hash::group_hash_axioms;

/// Something the event loop must do.
pub enum Command {
    /// Emit one event through the virtual devices.
    Emit(InputEvent),
    /// Change the system volume.
    SystemVolume { direction: VolumeDirection, percent: u32 },
    /// Change the volume of the focused window's application.
    AppVolume { direction: VolumeDirection, percent: u32 },
    /// Run a shell command.
    Launch { command: String },
    /// Start playing a macro on behalf of `key`, with the modifiers held at
    /// the time.
    SpawnMacro { key: u16, mode: MacroMode, steps: Vec<MacroStep>, held: KeySet },
    /// Stop the macro running on behalf of `key`.
    CancelMacro { key: u16 },
}

#[allow(inconsistent_fields)]
pub enum CommandModel {
    Emit(InputEvent),
    SystemVolume { direction: VolumeDirection, percent: u32 },
    AppVolume { direction: VolumeDirection, percent: u32 },
    Launch { command: Seq<char> },
    SpawnMacro { key: u16, mode: MacroMode, steps: Seq<StepModel>, held: Seq<u16> },
    CancelMacro { key: u16 },
}

impl View for Command {
    type V = CommandModel;

    open spec fn view(&self) -> CommandModel {
        match self {
            Command::Emit(e) => CommandModel::Emit(*e),
            Command::SystemVolume { direction, percent } => CommandModel::SystemVolume {
                direction: *direction,
                percent: *percent,
            },
            Command::AppVolume { direction, percent } => CommandModel::AppVolume {
                direction: *direction,
                percent: *percent,
            },
            Command::Launch { command } => CommandModel::Launch { command: command@ },
            Command::SpawnMacro { key, mode, steps, held } => CommandModel::SpawnMacro {
                key: *key,
                mode: *mode,
                steps: steps_view(steps@),
                held: held.seq(),
            },
            Command::CancelMacro { key } => CommandModel::CancelMacro { key: *key },
        }
    }
}

pub open spec fn commands_view(s: Seq<Command>) -> Seq<CommandModel> {
    s.map_values(|c: Command| c@)
}

pub open spec fn emits(events: Seq<InputEvent>) -> Seq<CommandModel> {
    events.map_values(|e: InputEvent| CommandModel::Emit(e))
}

/// What happens to an input event in the event loop.
pub enum LoopEvent {
    /// An event that a running macro produced.
    MacroEvent(InputEvent),
    /// The focused window changed (or is no longer known).
    WindowChanged(Option<WindowInfo>),
    /// An event read from a grabbed device.
    DeviceEvent(InputEvent),
}

pub enum LoopEventModel {
    MacroEvent(InputEvent),
    WindowChanged(Option<WindowModel>),
    DeviceEvent(InputEvent),
}

impl View for LoopEvent {
    type V = LoopEventModel;

    open spec fn view(&self) -> LoopEventModel {
        match self {
            LoopEvent::MacroEvent(e) => LoopEventModel::MacroEvent(*e),
            LoopEvent::WindowChanged(w) => LoopEventModel::WindowChanged(
                match w {
                    Some(w) => Some(w@),
                    None => None,
                },
            ),
            LoopEvent::DeviceEvent(e) => LoopEventModel::DeviceEvent(*e),
        }
    }
}

/// The remapper's state: the base layer chosen for the focused window, the
/// temporarily active layer and the key that holds it, the held modifier
/// keys, the keys whose macros run, and, for each pressed key, the action
/// that its release (and repeats) must use.
pub struct InputState {
    pub current_layer: usize,
    pub shift_layer: Option<usize>,
    pub shift_trigger_key: Option<u16>,
    pub held_modifiers: KeySet,
    pub macro_keys: HashSet<u16>,
    pub pending_releases: HashMap<u16, Action>,
}

pub struct StateModel {
    pub current_layer: usize,
    pub shift_layer: Option<usize>,
    pub shift_trigger_key: Option<u16>,
    pub held: Seq<u16>,
    pub macros: Set<u16>,
    pub pending: Map<u16, ActionModel>,
}

impl View for InputState {
    type V = StateModel;

    open spec fn view(&self) -> StateModel {
        StateModel {
            current_layer: self.current_layer,
            shift_layer: self.shift_layer,
            shift_trigger_key: self.shift_trigger_key,
            held: self.held_modifiers.seq(),
            macros: self.macro_keys@,
            pending: self.pending_releases@.map_values(|a: Action| a@),
        }
    }
}

/// The layer whose mappings apply: the shifted or toggled layer if there is
/// one, else the base layer.
pub open spec fn spec_active_layer(st: StateModel) -> usize {
    match st.shift_layer {
        Some(l) => l,
        None => st.current_layer,
    }
}

/// The state refers only to layers of `c`.
pub open spec fn state_fits(st: StateModel, c: ConfigModel) -> bool {
    &&& st.current_layer < c.layers.len()
    &&& st.shift_layer matches Some(l) ==> l < c.layers.len()
}

pub open spec fn held_after(held: Seq<u16>, key: u16, value: i32) -> Seq<u16> {
    if value == 1 {
        if held.contains(key) {
            held
        } else {
            held.push(key)
        }
    } else if value == 0 {
        held.filter(differs_from(key))
    } else {
        held
    }
}

/// Starting a macro for `key`: a macro already running for it is cancelled.
pub open spec fn spec_spawn(st: StateModel, key: u16, mode: MacroMode, steps: Seq<StepModel>) -> (
    StateModel,
    Seq<CommandModel>,
) {
    let cancel = if st.macros.contains(key) {
        seq![CommandModel::CancelMacro { key }]
    } else {
        Seq::empty()
    };
    (
        StateModel { macros: st.macros.insert(key), ..st },
        cancel + seq![CommandModel::SpawnMacro { key, mode, steps, held: st.held }],
    )
}

/// Stopping the macro of `key`, if one runs.
pub open spec fn spec_stop(st: StateModel, key: u16) -> (StateModel, Seq<CommandModel>) {
    if st.macros.contains(key) {
        (StateModel { macros: st.macros.remove(key), ..st }, seq![CommandModel::CancelMacro { key }])
    } else {
        (st, Seq::empty())
    }
}

/// What an action does for a key event of the given value (1 press,
/// 0 release, 2 repeat).
pub open spec fn spec_handle_action(
    c: ConfigModel,
    st: StateModel,
    action: ActionModel,
    value: i32,
    key: u16,
    held: Option<Seq<u16>>,
) -> (StateModel, Seq<CommandModel>) {
    match action {
        ActionModel::Key(combo) => (st, emits(spec_combo_events(combo, value, held))),
        ActionModel::Layer { layer, mode } => match mode {
            LayerMode::Shift => if value == 1 {
                match spec_find_layer(c, layer) {
                    Some(i) => (
                        StateModel {
                            shift_layer: Some(i as usize),
                            shift_trigger_key: Some(key),
                            ..st
                        },
                        Seq::empty(),
                    ),
                    None => (st, Seq::empty()),
                }
            } else if value == 0 {
                (StateModel { shift_layer: None, shift_trigger_key: None, ..st }, Seq::empty())
            } else {
                (st, Seq::empty())
            },
            LayerMode::Toggle => if value == 1 {
                if st.shift_layer matches Some(l) && c.layers[l as int].name == layer {
                    (StateModel { shift_layer: None, ..st }, Seq::empty())
                } else {
                    match spec_find_layer(c, layer) {
                        Some(i) => (StateModel { shift_layer: Some(i as usize), ..st }, Seq::empty()),
                        None => (st, Seq::empty()),
                    }
                }
            } else {
                (st, Seq::empty())
            },
        },
        ActionModel::Volume { direction, percent } => if value == 1 {
            (st, seq![CommandModel::SystemVolume { direction, percent }])
        } else {
            (st, Seq::empty())
        },
        ActionModel::AppVolume { direction, percent } => if value == 1 {
            (st, seq![CommandModel::AppVolume { direction, percent }])
        } else {
            (st, Seq::empty())
        },
        ActionModel::Launch { command } => if value == 1 {
            (st, seq![CommandModel::Launch { command }])
        } else {
            (st, Seq::empty())
        },
        ActionModel::Macro { mode, steps } => match mode {
            MacroMode::Once => if value == 1 {
                spec_spawn(st, key, mode, steps)
            } else {
                (st, Seq::empty())
            },
            MacroMode::Hold => if value == 1 {
                spec_spawn(st, key, mode, steps)
            } else if value == 0 {
                spec_stop(st, key)
            } else {
                (st, Seq::empty())
            },
            MacroMode::Toggle => if value == 1 {
                if st.macros.contains(key) {
                    spec_stop(st, key)
                } else {
                    spec_spawn(st, key, mode, steps)
                }
            } else {
                (st, Seq::empty())
            },
        },
    }
}

/// What a key or wheel event does. Modifier keys are tracked and passed
/// on; the release of the key holding a shifted layer drops that layer
/// (its repeats are swallowed); repeats and releases reuse the action chosen
/// at the press; a press looks its key up in the active layer under the held
/// modifiers, and passes on unchanged when nothing is mapped.
pub open spec fn spec_process_key_event(c: ConfigModel, st: StateModel, ev: InputEvent) -> (
    StateModel,
    Seq<CommandModel>,
) {
    let key = spec_resolve_key(ev);
    let value = spec_resolve_value(ev);
    if spec_is_modifier_key(key) {
        (StateModel { held: held_after(st.held, key, value), ..st }, seq![CommandModel::Emit(ev)])
    } else if st.shift_trigger_key == Some(key) && value != 0 {
        (st, Seq::empty())
    } else {
        let st1 = if st.shift_trigger_key == Some(key) {
            StateModel { shift_layer: None, shift_trigger_key: None, ..st }
        } else {
            st
        };
        if value == 2 {
            if st1.pending.contains_key(key) {
                spec_handle_action(c, st1, st1.pending[key], value, key, None)
            } else {
                (st1, seq![CommandModel::Emit(ev)])
            }
        } else if value == 0 {
            if st1.pending.contains_key(key) {
                spec_handle_action(
                    c,
                    StateModel { pending: st1.pending.remove(key), ..st1 },
                    st1.pending[key],
                    value,
                    key,
                    None,
                )
            } else {
                (st1, seq![CommandModel::Emit(ev)])
            }
        } else {
            let mi = spec_modifier_index(st1.held.to_set());
            let found = spec_lookup(c.layers[spec_active_layer(st1) as int].mappings, key, mi);
            if spec_should_skip_event_on_action(ev) && found is Some {
                (st1, Seq::empty())
            } else {
                match found {
                    Some(LookupModel::Exact(a)) => spec_handle_action(
                        c,
                        StateModel { pending: st1.pending.insert(key, a), ..st1 },
                        a,
                        value,
                        key,
                        None,
                    ),
                    Some(LookupModel::Fallback(a)) => spec_handle_action(
                        c,
                        StateModel { pending: st1.pending.insert(key, a), ..st1 },
                        a,
                        value,
                        key,
                        Some(st1.held),
                    ),
                    None => (st1, seq![CommandModel::Emit(ev)]),
                }
            }
        }
    }
}

/// The base layer for a focused window: the layer its class's profile names,
/// when that layer exists, else the default layer. A layer name that does
/// not resolve leaves the base layer as it was.
pub open spec fn spec_update_base_layer(c: ConfigModel, st: StateModel, window: Option<WindowModel>) -> StateModel {
    let name = match window {
        Some(w) => if c.profile_map.contains_key(w.wm_class) && spec_find_layer(
            c,
            c.profile_map[w.wm_class],
        ) is Some {
            c.profile_map[w.wm_class]
        } else {
            c.default_layer
        },
        None => c.default_layer,
    };
    match spec_find_layer(c, name) {
        Some(i) => StateModel { current_layer: i as usize, ..st },
        None => st,
    }
}

/// One turn of the event loop: macro output is emitted, a window change
/// picks the base layer, a device event that is not a key or wheel event is
/// passed on (absolute axis events are dropped), and key and wheel events go
/// through the remapping.
pub open spec fn spec_step(c: ConfigModel, st: StateModel, e: LoopEventModel) -> (
    StateModel,
    Seq<CommandModel>,
) {
    match e {
        LoopEventModel::MacroEvent(ev) => (st, seq![CommandModel::Emit(ev)]),
        LoopEventModel::WindowChanged(w) => (spec_update_base_layer(c, st, w), Seq::empty()),
        LoopEventModel::DeviceEvent(ev) => if spec_should_passthrough(ev) {
            if ev.kind != EV_ABS {
                (st, seq![CommandModel::Emit(ev)])
            } else {
                (st, Seq::empty())
            }
        } else {
            spec_process_key_event(c, st, ev)
        },
    }
}

fn push_emits(out: &mut Vec<Command>, events: Vec<InputEvent>)
    ensures
        commands_view(final(out)@) == commands_view(old(out)@) + emits(events@),
{
    let mut i: usize = 0;
    while i < events.len()
        invariant
            0 <= i <= events@.len(),
            commands_view(out@) == commands_view(old(out)@) + emits(events@.take(i as int)),
        decreases events@.len() - i,
    {
        let ghost prev = out@;
        out.push(Command::Emit(events[i]));
        proof {
            assert(commands_view(out@) =~= commands_view(prev).push(CommandModel::Emit(events@[i as int])));
            assert(events@.take(i + 1) =~= events@.take(i as int).push(events@[i as int]));
            assert(emits(events@.take(i + 1)) =~= emits(events@.take(i as int)).push(CommandModel::Emit(events@[i as int])));
            assert(commands_view(out@) =~= commands_view(old(out)@) + emits(events@.take(i + 1)));
        }
        i = i + 1;
    }
    proof {
        assert(events@.take(events@.len() as int) =~= events@);
    }
}

fn push_command(out: &mut Vec<Command>, c: Command)
    ensures
        commands_view(final(out)@) == commands_view(old(out)@).push(c@),
{
    out.push(c);
    proof {
        assert(commands_view(out@) =~= commands_view(old(out)@).push(c@));
    }
}

impl InputState {
    pub open spec fn wf(&self) -> bool {
        self.held_modifiers.wf()
    }

    /// A state on the given base layer, with nothing held, pending or running.
    pub fn new(default_layer: usize) -> (s: Self)
        ensures
            s.wf(),
            s@.current_layer == default_layer,
            s@.shift_layer is None,
            s@.shift_trigger_key is None,
            s@.held == Seq::<u16>::empty(),
            s@.macros == Set::<u16>::empty(),
            s@.pending == Map::<u16, ActionModel>::empty(),
    {
        let s = InputState {
            current_layer: default_layer,
            shift_layer: None,
            shift_trigger_key: None,
            held_modifiers: KeySet::new(),
            macro_keys: HashSet::new(),
            pending_releases: HashMap::new(),
        };
        proof {
            assert(s@.pending =~= Map::<u16, ActionModel>::empty());
        }
        s
    }

    /// The layer whose mappings apply.
    pub fn active_layer(&self) -> (l: usize)
        ensures
            l == spec_active_layer(self@),
    {
        match self.shift_layer {
            Some(l) => l,
            None => self.current_layer,
        }
    }

    fn spawn_macro(&mut self, key: u16, mode: MacroMode, steps: Vec<MacroStep>, out: &mut Vec<Command>)
        ensures
            final(self).wf() == old(self).wf(),
            ({
                let (st, cmds) = spec_spawn(old(self)@, key, mode, steps_view(steps@));
                &&& final(self)@ == st
                &&& commands_view(final(out)@) == commands_view(old(out)@) + cmds
            }),
    {
        if self.macro_keys.contains(&key) {
            push_command(out, Command::CancelMacro { key });
        }
        let held = self.held_modifiers.duplicate();
        push_command(out, Command::SpawnMacro { key, mode, steps, held });
        self.macro_keys.insert(key);
        proof {
            let (st, cmds) = spec_spawn(old(self)@, key, mode, steps_view(steps@));
            assert(commands_view(out@) =~= commands_view(old(out)@) + cmds);
            assert(self@.pending =~= st.pending);
        }
    }

    fn stop_macro_for_key(&mut self, key: u16, out: &mut Vec<Command>)
        ensures
            final(self).wf() == old(self).wf(),
            ({
                let (st, cmds) = spec_stop(old(self)@, key);
                &&& final(self)@ == st
                &&& commands_view(final(out)@) == commands_view(old(out)@) + cmds
            }),
    {
        if self.macro_keys.contains(&key) {
            self.macro_keys.remove(&key);
            push_command(out, Command::CancelMacro { key });
            proof {
                assert(self.macro_keys@ =~= old(self).macro_keys@.remove(key));
                assert(commands_view(out@) =~= commands_view(old(out)@) + seq![CommandModel::CancelMacro { key }]);
            }
        } else {
            proof {
                assert(commands_view(out@) =~= commands_view(old(out)@) + Seq::<CommandModel>::empty());
            }
        }
    }

    /// Carries out `action` for a key event of `value`, appending the
    /// commands it needs to `out`.
    pub fn handle_action(
        &mut self,
        config: &Config,
        action: Action,
        value: i32,
        key: u16,
        held: Option<&KeySet>,
        out: &mut Vec<Command>,
    )
        requires
            old(self).wf(),
            state_fits(old(self)@, config@),
        ensures
            final(self).wf(),
            state_fits(final(self)@, config@),
            ({
                let (st, cmds) = spec_handle_action(
                    config@,
                    old(self)@,
                    action@,
                    value,
                    key,
                    match held {
                        Some(h) => Some(h.seq()),
                        None => None,
                    },
                );
                &&& final(self)@ == st
                &&& commands_view(final(out)@) == commands_view(old(out)@) + cmds
            }),
    {
        let ghost a = action@;
        let ghost hs = match held {
            Some(h) => Some(h.seq()),
            None => None::<Seq<u16>>,
        };
        match action {
            Action::Key(combo) => {
                let events = build_combo_events(&combo, value, held);
                push_emits(out, events);
            },
            Action::Layer { layer, mode } => match mode {
                LayerMode::Shift => {
                    if value == 1 {
                        if let Some(i) = config.find_layer(&layer) {
                            self.shift_layer = Some(i);
                            self.shift_trigger_key = Some(key);
                        }
                    } else if value == 0 {
                        self.shift_layer = None;
                        self.shift_trigger_key = None;
                    }
                    proof {
                        assert(commands_view(out@) =~= commands_view(old(out)@) + Seq::<CommandModel>::empty());
                    }
                },
                LayerMode::Toggle => {
                    if value == 1 {
                        let same = match self.shift_layer {
                            Some(l) => config.layers[l].name == layer,
                            None => false,
                        };
                        if same {
                            self.shift_layer = None;
                        } else if let Some(i) = config.find_layer(&layer) {
                            self.shift_layer = Some(i);
                        }
                    }
                    proof {
                        assert(commands_view(out@) =~= commands_view(old(out)@) + Seq::<CommandModel>::empty());
                    }
                },
            },
            Action::Volume { direction, percent } => {
                if value == 1 {
                    push_command(out, Command::SystemVolume { direction, percent });
                }
                proof {
                    assert(commands_view(out@) =~= commands_view(old(out)@) + spec_handle_action(config@, old(self)@, a, value, key, hs).1);
                }
            },
            Action::AppVolume { direction, percent } => {
                if value == 1 {
                    push_command(out, Command::AppVolume { direction, percent });
                }
                proof {
                    assert(commands_view(out@) =~= commands_view(old(out)@) + spec_handle_action(config@, old(self)@, a, value, key, hs).1);
                }
            },
            Action::Launch { command } => {
                if value == 1 {
                    push_command(out, Command::Launch { command });
                }
                proof {
                    assert(commands_view(out@) =~= commands_view(old(out)@) + spec_handle_action(config@, old(self)@, a, value, key, hs).1);
                }
            },
            Action::Macro { mode, steps } => match mode {
                MacroMode::Once => {
                    if value == 1 {
                        self.spawn_macro(key, MacroMode::Once, steps, out);
                    } else {
                        proof {
                            assert(commands_view(out@) =~= commands_view(old(out)@) + Seq::<CommandModel>::empty());
                        }
                    }
                },
                MacroMode::Hold => {
                    if value == 1 {
                        self.spawn_macro(key, MacroMode::Hold, steps, out);
                    } else if value == 0 {
                        self.stop_macro_for_key(key, out);
                    } else {
                        proof {
                            assert(commands_view(out@) =~= commands_view(old(out)@) + Seq::<CommandModel>::empty());
                        }
                    }
                },
                MacroMode::Toggle => {
                    if value == 1 {
                        if self.macro_keys.contains(&key) {
                            self.stop_macro_for_key(key, out);
                        } else {
                            self.spawn_macro(key, MacroMode::Toggle, steps, out);
                        }
                    } else {
                        proof {
                            assert(commands_view(out@) =~= commands_view(old(out)@) + Seq::<CommandModel>::empty());
                        }
                    }
                },
            },
        }
    }
    /// Remaps one key or wheel event (see `spec_process_key_event`).
    pub fn process_key_event(&mut self, config: &Config, ev: InputEvent) -> (out: Vec<Command>)
        requires
            old(self).wf(),
            config.wf(),
            state_fits(old(self)@, config@),
        ensures
            final(self).wf(),
            state_fits(final(self)@, config@),
            (final(self)@, commands_view(out@)) == spec_process_key_event(config@, old(self)@, ev),
    {
        let ghost c = config@;
        let key = resolve_key(&ev);
        let value = resolve_value(&ev);
        let mut out: Vec<Command> = Vec::new();
        if is_modifier_key(key) {
            if value == 1 {
                let ghost h0 = self.held_modifiers.seq();
                self.held_modifiers.insert(key);
                proof {
                    if h0.contains(key) {
                        assert(self.held_modifiers.seq() == held_after(h0, key, value));
                    } else {
                        assert(self.held_modifiers.seq() == held_after(h0, key, value));
                    }
                }
            } else if value == 0 {
                self.held_modifiers.remove(key);
            }
            push_command(&mut out, Command::Emit(ev));
            proof {
                assert(commands_view(out@) =~= seq![CommandModel::Emit(ev)]);
                assert(self@.pending =~= old(self)@.pending);
            }
            return out;
        }
        let is_trigger = match self.shift_trigger_key {
            Some(k) => k == key,
            None => false,
        };
        if is_trigger {
            if value == 0 {
                self.shift_layer = None;
                self.shift_trigger_key = None;
            } else {
                proof {
                    assert(commands_view(out@) =~= Seq::<CommandModel>::empty());
                }
                return out;
            }
        }
        let ghost st1 = self@;
        if value == 2 {
            match self.pending_releases.get(&key) {
                Some(a) => {
                    let action = a.clone();
                    proof {
                        assert(st1.pending.contains_key(key));
                        assert(action@ == st1.pending[key]);
                    }
                    self.handle_action(config, action, value, key, None, &mut out);
                },
                None => {
                    push_command(&mut out, Command::Emit(ev));
                },
            }
            proof {
                assert(commands_view(out@) =~= spec_process_key_event(c, old(self)@, ev).1);
            }
            return out;
        }
        if value == 0 {
            match self.pending_releases.remove(&key) {
                Some(action) => {
                    proof {
                        assert(self@.pending =~= st1.pending.remove(key));
                        assert(st1.pending.contains_key(key));
                        assert(action@ == st1.pending[key]);
                    }
                    self.handle_action(config, action, value, key, None, &mut out);
                },
                None => {
                    proof {
                        assert(self@.pending =~= st1.pending);
                    }
                    push_command(&mut out, Command::Emit(ev));
                },
            }
            proof {
                assert(commands_view(out@) =~= spec_process_key_event(c, old(self)@, ev).1);
            }
            return out;
        }
        let mi = compute_modifier_index(&self.held_modifiers);
        let layer = self.active_layer();
        let found = config.layers[layer].lookup(key, mi);
        let skipped = should_skip_event_on_action(&ev);
        proof {
            assert(c.layers[layer as int] == config.layers@[layer as int]@);
        }
        if skipped && found.is_some() {
            proof {
                assert(commands_view(out@) =~= Seq::<CommandModel>::empty());
            }
            return out;
        }
        match found {
            Some(LookupResult::Exact(a)) => {
                let stored = a.clone();
                let action = a.clone();
                self.pending_releases.insert(key, stored);
                proof {
                    assert(self@.pending =~= st1.pending.insert(key, a@));
                }
                self.handle_action(config, action, value, key, None, &mut out);
            },
            Some(LookupResult::Fallback(a)) => {
                let stored = a.clone();
                let action = a.clone();
                let held = self.held_modifiers.duplicate();
                self.pending_releases.insert(key, stored);
                proof {
                    assert(self@.pending =~= st1.pending.insert(key, a@));
                }
                self.handle_action(config, action, value, key, Some(&held), &mut out);
            },
            None => {
                push_command(&mut out, Command::Emit(ev));
                proof {
                    assert(commands_view(out@) =~= seq![CommandModel::Emit(ev)]);
                }
            },
        }
        out
    }

    /// Chooses the base layer for the focused window (see
    /// `spec_update_base_layer`).
    pub fn update_base_layer(&mut self, config: &Config, window: Option<&WindowInfo>)
        requires
            config.wf(),
            state_fits(old(self)@, config@),
        ensures
            final(self).wf() == old(self).wf(),
            state_fits(final(self)@, config@),
            final(self)@ == spec_update_base_layer(
                config@,
                old(self)@,
                match window {
                    Some(w) => Some(w@),
                    None => None,
                },
            ),
    {
        let name: &String = match window {
            Some(w) => match config.profile_map.get(&w.wm_class) {
                Some(l) => {
                    if config.find_layer(l).is_some() {
                        l
                    } else {
                        &config.default_layer
                    }
                },
                None => &config.default_layer,
            },
            None => &config.default_layer,
        };
        if let Some(i) = config.find_layer(name) {
            self.current_layer = i;
        }
    }

    /// One turn of the event loop (see `spec_step`).
    pub fn step(&mut self, config: &Config, event: LoopEvent) -> (out: Vec<Command>)
        requires
            old(self).wf(),
            config.wf(),
            state_fits(old(self)@, config@),
        ensures
            final(self).wf(),
            state_fits(final(self)@, config@),
            (final(self)@, commands_view(out@)) == spec_step(config@, old(self)@, event@),
    {
        match event {
            LoopEvent::MacroEvent(ev) => {
                let mut out: Vec<Command> = Vec::new();
                push_command(&mut out, Command::Emit(ev));
                proof {
                    assert(commands_view(out@) =~= seq![CommandModel::Emit(ev)]);
                }
                out
            },
            LoopEvent::WindowChanged(w) => {
                match &w {
                    Some(info) => self.update_base_layer(config, Some(info)),
                    None => self.update_base_layer(config, None),
                }
                let out: Vec<Command> = Vec::new();
                proof {
                    assert(commands_view(out@) =~= Seq::<CommandModel>::empty());
                }
                out
            },
            LoopEvent::DeviceEvent(ev) => {
                if should_passthrough(&ev) {
                    let mut out: Vec<Command> = Vec::new();
                    if ev.kind != EV_ABS {
                        push_command(&mut out, Command::Emit(ev));
                    }
                    proof {
                        assert(commands_view(out@) =~= spec_step(config@, old(self)@, event@).1);
                    }
                    out
                } else {
                    self.process_key_event(config, ev)
                }
            },
        }
    }


}

} // verus!
