//! Configuration data: the raw form read from the configuration file, and
//! the resolved form the event loop works on (per-layer tables from key code
//! and modifier combination to an action).

use vstd::prelude::*;
use crate::keys::MODIFIER_COUNT;

verus! {

#[derive(Clone, Copy, PartialEq, Eq, Structural, Debug)]
pub enum VolumeDirection {
    Up,
    Down,
    Mute,
}

#[derive(Clone, Copy, PartialEq, Eq, Structural, Debug)]
pub enum MacroMode {
    Once,
    Hold,
    Toggle,
}

#[derive(Clone, Copy, PartialEq, Eq, Structural, Debug)]
pub enum LayerMode {
    Shift,
    Toggle,
}

/// The character sequences of a list of strings.
pub open spec fn names_view(v: Seq<String>) -> Seq<Seq<char>> {
    v.map_values(|s: String| s@)
}

// ─── Raw configuration ───────────────────────────────────────────────────────

pub struct RawMacroStep {
    pub keys: Vec<String>,
    pub delay_ms: u64,
    pub up: bool,
}

pub struct RawMacroStepModel {
    pub keys: Seq<Seq<char>>,
    pub delay_ms: u64,
    pub up: bool,
}

impl View for RawMacroStep {
    type V = RawMacroStepModel;

    open spec fn view(&self) -> RawMacroStepModel {
        RawMacroStepModel { keys: names_view(self.keys@), delay_ms: self.delay_ms, up: self.up }
    }
}

/// A configured action as written in the file. Volume amounts are held as
/// whole percentages (the file's fraction times one hundred, truncated).
#[allow(inconsistent_fields)]
pub enum RawAction {
    Key { keys: Vec<String> },
    Macro { mode: MacroMode, steps: Vec<RawMacroStep> },
    Layer { layer: String, mode: LayerMode },
    Volume { direction: VolumeDirection, percent: u32 },
    AppVolume { direction: VolumeDirection, percent: u32 },
    Launch { command: String },
}

#[allow(inconsistent_fields)]
pub enum RawActionModel {
    Key { keys: Seq<Seq<char>> },
    Macro { mode: MacroMode, steps: Seq<RawMacroStepModel> },
    Layer { layer: Seq<char>, mode: LayerMode },
    Volume { direction: VolumeDirection, percent: u32 },
    AppVolume { direction: VolumeDirection, percent: u32 },
    Launch { command: Seq<char> },
}

impl View for RawAction {
    type V = RawActionModel;

    open spec fn view(&self) -> RawActionModel {
        match self {
            RawAction::Key { keys } => RawActionModel::Key { keys: names_view(keys@) },
            RawAction::Macro { mode, steps } => RawActionModel::Macro {
                mode: *mode,
                steps: steps@.map_values(|s: RawMacroStep| s@),
            },
            RawAction::Layer { layer, mode } => RawActionModel::Layer { layer: layer@, mode: *mode },
            RawAction::Volume { direction, percent } => RawActionModel::Volume {
                direction: *direction,
                percent: *percent,
            },
            RawAction::AppVolume { direction, percent } => RawActionModel::AppVolume {
                direction: *direction,
                percent: *percent,
            },
            RawAction::Launch { command } => RawActionModel::Launch { command: command@ },
        }
    }
}

pub struct RawMapping {
    pub trigger: Vec<String>,
    pub action: RawAction,
}

pub struct RawMappingModel {
    pub trigger: Seq<Seq<char>>,
    pub action: RawActionModel,
}

impl View for RawMapping {
    type V = RawMappingModel;

    open spec fn view(&self) -> RawMappingModel {
        RawMappingModel { trigger: names_view(self.trigger@), action: self.action@ }
    }
}

pub open spec fn raw_mappings_view(v: Seq<RawMapping>) -> Seq<RawMappingModel> {
    v.map_values(|m: RawMapping| m@)
}

pub struct RawLayer {
    pub parent: Option<String>,
    pub mappings: Vec<RawMapping>,
}

pub struct RawLayerModel {
    pub parent: Option<Seq<char>>,
    pub mappings: Seq<RawMappingModel>,
}

impl View for RawLayer {
    type V = RawLayerModel;

    open spec fn view(&self) -> RawLayerModel {
        RawLayerModel {
            parent: match &self.parent {
                Some(p) => Some(p@),
                None => None,
            },
            mappings: raw_mappings_view(self.mappings@),
        }
    }
}

pub struct RawProfile {
    pub wm_classes: Vec<String>,
    pub layer: String,
}

pub struct RawProfileModel {
    pub wm_classes: Seq<Seq<char>>,
    pub layer: Seq<char>,
}

impl View for RawProfile {
    type V = RawProfileModel;

    open spec fn view(&self) -> RawProfileModel {
        RawProfileModel { wm_classes: names_view(self.wm_classes@), layer: self.layer@ }
    }
}

/// The whole configuration file. `layers` holds each named layer once.
pub struct RawConfig {
    pub device_names: Vec<String>,
    pub default_layer: String,
    pub layers: Vec<(String, RawLayer)>,
    pub profiles: Vec<RawProfile>,
}

pub struct RawConfigModel {
    pub device_names: Seq<Seq<char>>,
    pub default_layer: Seq<char>,
    pub layers: Seq<(Seq<char>, RawLayerModel)>,
    pub profiles: Seq<RawProfileModel>,
}

impl View for RawConfig {
    type V = RawConfigModel;

    open spec fn view(&self) -> RawConfigModel {
        RawConfigModel {
            device_names: names_view(self.device_names@),
            default_layer: self.default_layer@,
            layers: self.layers@.map_values(|l: (String, RawLayer)| (l.0@, l.1@)),
            profiles: self.profiles@.map_values(|p: RawProfile| p@),
        }
    }
}

// ─── Resolved configuration ──────────────────────────────────────────────────

/// Modifier keys held around one main key.
pub struct KeyCombo {
    pub modifiers: Vec<u16>,
    pub key: u16,
}

pub struct ComboModel {
    pub modifiers: Seq<u16>,
    pub key: u16,
}

impl View for KeyCombo {
    type V = ComboModel;

    open spec fn view(&self) -> ComboModel {
        ComboModel { modifiers: self.modifiers@, key: self.key }
    }
}

impl Clone for KeyCombo {
    fn clone(&self) -> (r: Self)
        ensures
            r@ == self@,
    {
        let modifiers = self.modifiers.clone();
        proof {
            assert(modifiers@ =~= self.modifiers@);
        }
        KeyCombo { modifiers, key: self.key }
    }
}

pub struct MacroStep {
    pub combo: KeyCombo,
    pub delay_ms: u64,
    pub up: bool,
}

pub struct StepModel {
    pub combo: ComboModel,
    pub delay_ms: u64,
    pub up: bool,
}

impl View for MacroStep {
    type V = StepModel;

    open spec fn view(&self) -> StepModel {
        StepModel { combo: self.combo@, delay_ms: self.delay_ms, up: self.up }
    }
}

impl Clone for MacroStep {
    fn clone(&self) -> (r: Self)
        ensures
            r@ == self@,
    {
        MacroStep { combo: self.combo.clone(), delay_ms: self.delay_ms, up: self.up }
    }
}

pub open spec fn steps_view(v: Seq<MacroStep>) -> Seq<StepModel> {
    v.map_values(|s: MacroStep| s@)
}

/// A copy of a list of macro steps.
pub fn clone_steps(v: &Vec<MacroStep>) -> (r: Vec<MacroStep>)
    ensures
        steps_view(r@) == steps_view(v@),
{
    let mut r: Vec<MacroStep> = Vec::new();
    let mut i: usize = 0;
    while i < v.len()
        invariant
            0 <= i <= v@.len(),
            r@.len() == i,
            forall|j: int| 0 <= j < i ==> #[trigger] r@[j]@ == v@[j]@,
        decreases v@.len() - i,
    {
        r.push(v[i].clone());
        i = i + 1;
    }
    proof {
        assert(steps_view(r@) =~= steps_view(v@));
    }
    r
}

/// What a mapping does when its trigger is pressed, repeated or released.
#[allow(inconsistent_fields)]
pub enum Action {
    Key(KeyCombo),
    Macro { mode: MacroMode, steps: Vec<MacroStep> },
    Layer { layer: String, mode: LayerMode },
    Volume { direction: VolumeDirection, percent: u32 },
    AppVolume { direction: VolumeDirection, percent: u32 },
    Launch { command: String },
}

#[allow(inconsistent_fields)]
pub enum ActionModel {
    Key(ComboModel),
    Macro { mode: MacroMode, steps: Seq<StepModel> },
    Layer { layer: Seq<char>, mode: LayerMode },
    Volume { direction: VolumeDirection, percent: u32 },
    AppVolume { direction: VolumeDirection, percent: u32 },
    Launch { command: Seq<char> },
}

impl View for Action {
    type V = ActionModel;

    open spec fn view(&self) -> ActionModel {
        match self {
            Action::Key(c) => ActionModel::Key(c@),
            Action::Macro { mode, steps } => ActionModel::Macro { mode: *mode, steps: steps_view(steps@) },
            Action::Layer { layer, mode } => ActionModel::Layer { layer: layer@, mode: *mode },
            Action::Volume { direction, percent } => ActionModel::Volume {
                direction: *direction,
                percent: *percent,
            },
            Action::AppVolume { direction, percent } => ActionModel::AppVolume {
                direction: *direction,
                percent: *percent,
            },
            Action::Launch { command } => ActionModel::Launch { command: command@ },
        }
    }
}

impl Clone for Action {
    fn clone(&self) -> (r: Self)
        ensures
            r@ == self@,
    {
        match self {
            Action::Key(c) => Action::Key(c.clone()),
            Action::Macro { mode, steps } => Action::Macro { mode: *mode, steps: clone_steps(steps) },
            Action::Layer { layer, mode } => Action::Layer { layer: layer.clone(), mode: *mode },
            Action::Volume { direction, percent } => Action::Volume {
                direction: *direction,
                percent: *percent,
            },
            Action::AppVolume { direction, percent } => Action::AppVolume {
                direction: *direction,
                percent: *percent,
            },
            Action::Launch { command } => Action::Launch { command: command.clone() },
        }
    }
}

pub open spec fn opt_action_view(o: Option<Action>) -> Option<ActionModel> {
    match o {
        Some(a) => Some(a@),
        None => None,
    }
}

pub open spec fn slots_view(v: Seq<Option<Action>>) -> Seq<Option<ActionModel>> {
    v.map_values(|o: Option<Action>| opt_action_view(o))
}

/// Eight empty slots, one per modifier combination.
pub open spec fn empty_slots() -> Seq<Option<ActionModel>> {
    Seq::new(MODIFIER_COUNT as nat, |i: int| None::<ActionModel>)
}

/// A layer's table with `action` placed at (`code`, `modifier_index`).
pub open spec fn table_with(
    table: Map<u16, Seq<Option<ActionModel>>>,
    code: u16,
    modifier_index: int,
    action: ActionModel,
) -> Map<u16, Seq<Option<ActionModel>>> {
    let row = if table.contains_key(code) { table[code] } else { empty_slots() };
    table.insert(code, row.update(modifier_index, Some(action)))
}

/// The row of slots for one key code.
pub struct SlotRow {
    pub code: u16,
    pub slots: Vec<Option<Action>>,
}

/// A table from key code to eight slots indexed by modifier bitmask.
pub struct LayerMappings {
    rows: Vec<SlotRow>,
}

impl View for LayerMappings {
    type V = Map<u16, Seq<Option<ActionModel>>>;

    closed spec fn view(&self) -> Map<u16, Seq<Option<ActionModel>>> {
        Map::new(
            |c: u16| exists|i: int| 0 <= i < self.rows@.len() && self.rows@[i].code == c,
            |c: u16|
                slots_view(
                    self.rows@[choose|i: int| 0 <= i < self.rows@.len() && self.rows@[i].code == c].slots@,
                ),
        )
    }
}

impl LayerMappings {
    /// Each code has one row, and each row has one slot per modifier combination.
    pub closed spec fn wf(&self) -> bool {
        &&& forall|i: int, j: int|
            0 <= i < j < self.rows@.len() ==> self.rows@[i].code != self.rows@[j].code
        &&& forall|i: int| 0 <= i < self.rows@.len() ==> #[trigger] self.rows@[i].slots@.len() == MODIFIER_COUNT
    }

    proof fn lemma_row_view(&self, i: int)
        requires
            self.wf(),
            0 <= i < self.rows@.len(),
        ensures
            self@.contains_key(self.rows@[i].code),
            self@[self.rows@[i].code] == slots_view(self.rows@[i].slots@),
    {
        let c = self.rows@[i].code;
        let k = choose|k: int| 0 <= k < self.rows@.len() && self.rows@[k].code == c;
        if k != i {
            if k < i {
                assert(self.rows@[k].code != self.rows@[i].code);
            } else {
                assert(self.rows@[i].code != self.rows@[k].code);
            }
        }
    }

    pub fn new() -> (m: Self)
        ensures
            m.wf(),
            m@ == Map::<u16, Seq<Option<ActionModel>>>::empty(),
    {
        let m = LayerMappings { rows: Vec::new() };
        proof {
            assert(m@ =~= Map::<u16, Seq<Option<ActionModel>>>::empty());
        }
        m
    }

    /// Every row of the table has one slot per modifier combination.
    pub proof fn lemma_rows_full(&self, code: u16)
        requires
            self.wf(),
            self@.contains_key(code),
        ensures
            self@[code].len() == MODIFIER_COUNT,
    {
        let i = choose|i: int| 0 <= i < self.rows@.len() && self.rows@[i].code == code;
        self.lemma_row_view(i);
    }

    fn find_row(&self, code: u16) -> (r: Option<usize>)
        requires
            self.wf(),
        ensures
            match r {
                Some(i) => i < self.rows@.len() && self.rows@[i as int].code == code,
                None => !self@.contains_key(code),
            },
    {
        let mut i: usize = 0;
        while i < self.rows.len()
            invariant
                0 <= i <= self.rows@.len(),
                forall|j: int| 0 <= j < i ==> self.rows@[j].code != code,
            decreases self.rows@.len() - i,
        {
            if self.rows[i].code == code {
                return Some(i);
            }
            i = i + 1;
        }
        None
    }

    /// The slot for (`code`, `modifier_index`), if the code has a row.
    pub fn slot(&self, code: u16, modifier_index: usize) -> (r: Option<&Option<Action>>)
        requires
            self.wf(),
            modifier_index < MODIFIER_COUNT,
        ensures
            match r {
                Some(o) => self@.contains_key(code) && opt_action_view(*o)
                    == self@[code][modifier_index as int],
                None => !self@.contains_key(code),
            },
    {
        match self.find_row(code) {
            Some(i) => {
                proof {
                    self.lemma_row_view(i as int);
                }
                Some(&self.rows[i].slots[modifier_index])
            },
            None => None,
        }
    }

    /// Places `action` at (`code`, `modifier_index`), creating the row with
    /// empty slots when the code had none.
    pub fn set(&mut self, code: u16, modifier_index: usize, action: Action)
        requires
            old(self).wf(),
            modifier_index < MODIFIER_COUNT,
        ensures
            final(self).wf(),
            final(self)@ == table_with(old(self)@, code, modifier_index as int, action@),
    {
        let ghost a = action@;
        match self.find_row(code) {
            Some(i) => {
                proof {
                    self.lemma_row_view(i as int);
                }
                let mut row = self.rows.remove(i);
                row.slots.set(modifier_index, Some(action));
                self.rows.insert(i, row);
                proof {
                    assert(slots_view(self.rows@[i as int].slots@) =~= old(self)@[code].update(
                        modifier_index as int,
                        Some(a),
                    ));
                    assert forall|j: int| 0 <= j < self.rows@.len() && j != i implies #[trigger] self.rows@[j] == old(self).rows@[j] by {}
                    assert(self@ =~= table_with(old(self)@, code, modifier_index as int, a)) by {
                        assert forall|c: u16| #[trigger] self@.contains_key(c) <==> table_with(old(self)@, code, modifier_index as int, a).contains_key(c) by {
                            if self@.contains_key(c) {
                                let k = choose|k: int| 0 <= k < self.rows@.len() && self.rows@[k].code == c;
                                if k != i {
                                    assert(old(self).rows@[k].code == c);
                                }
                            }
                            if old(self)@.contains_key(c) {
                                let k = choose|k: int| 0 <= k < old(self).rows@.len() && old(self).rows@[k].code == c;
                                if k != i {
                                    assert(self.rows@[k].code == c);
                                }
                            }
                        }
                        assert forall|c: u16| #[trigger] self@.contains_key(c) implies self@[c] == table_with(old(self)@, code, modifier_index as int, a)[c] by {
                            let k = choose|k: int| 0 <= k < self.rows@.len() && self.rows@[k].code == c;
                            self.lemma_row_view(k);
                            if k != i {
                                old(self).lemma_row_view(k);
                            }
                        }
                    }
                }
            },
            None => {
                let mut slots: Vec<Option<Action>> = Vec::new();
                let mut j: usize = 0;
                while j < MODIFIER_COUNT
                    invariant
                        0 <= j <= MODIFIER_COUNT,
                        slots@.len() == j,
                        forall|k: int| 0 <= k < j ==> slots@[k] is None,
                    decreases MODIFIER_COUNT - j,
                {
                    slots.push(None);
                    j = j + 1;
                }
                slots.set(modifier_index, Some(action));
                self.rows.push(SlotRow { code, slots });
                proof {
                    let n = old(self).rows@.len() as int;
                    assert(slots_view(self.rows@[n].slots@) =~= empty_slots().update(
                        modifier_index as int,
                        Some(a),
                    ));
                    self.lemma_row_view(n);
                    assert(self@ =~= table_with(old(self)@, code, modifier_index as int, a)) by {
                        assert forall|c: u16| #[trigger] self@.contains_key(c) <==> table_with(old(self)@, code, modifier_index as int, a).contains_key(c) by {
                            if old(self)@.contains_key(c) {
                                let k = choose|k: int| 0 <= k < old(self).rows@.len() && old(self).rows@[k].code == c;
                                assert(self.rows@[k].code == c);
                            }
                            if self@.contains_key(c) && c != code {
                                let k = choose|k: int| 0 <= k < self.rows@.len() && self.rows@[k].code == c;
                                assert(old(self).rows@[k].code == c);
                            }
                        }
                        assert forall|c: u16| #[trigger] self@.contains_key(c) implies self@[c] == table_with(old(self)@, code, modifier_index as int, a)[c] by {
                            let k = choose|k: int| 0 <= k < self.rows@.len() && self.rows@[k].code == c;
                            self.lemma_row_view(k);
                            if k != n {
                                old(self).lemma_row_view(k);
                            }
                        }
                    }
                }
            },
        }
    }
}

impl Clone for LayerMappings {
    fn clone(&self) -> (r: Self)
        ensures
            self.wf() ==> r.wf(),
            self.wf() ==> r@ == self@,
    {
        let mut rows: Vec<SlotRow> = Vec::new();
        let mut i: usize = 0;
        while i < self.rows.len()
            invariant
                0 <= i <= self.rows@.len(),
                rows@.len() == i,
                forall|j: int| 0 <= j < i ==> #[trigger] rows@[j].code == self.rows@[j].code,
                forall|j: int| 0 <= j < i ==> slots_view(#[trigger] rows@[j].slots@) == slots_view(self.rows@[j].slots@),
                forall|j: int| 0 <= j < i ==> (#[trigger] rows@[j]).slots@.len() == self.rows@[j].slots@.len(),
            decreases self.rows@.len() - i,
        {
            let row = &self.rows[i];
            let mut slots: Vec<Option<Action>> = Vec::new();
            let mut k: usize = 0;
            while k < row.slots.len()
                invariant
                    0 <= k <= row.slots@.len(),
                    slots@.len() == k,
                    forall|m: int| 0 <= m < k ==> opt_action_view(#[trigger] slots@[m]) == opt_action_view(row.slots@[m]),
                decreases row.slots@.len() - k,
            {
                let s = match &row.slots[k] {
                    Some(a) => Some(a.clone()),
                    None => None,
                };
                slots.push(s);
                k = k + 1;
            }
            proof {
                assert(slots_view(slots@) =~= slots_view(row.slots@));
            }
            rows.push(SlotRow { code: row.code, slots });
            i = i + 1;
        }
        let r = LayerMappings { rows };
        proof {
            assert(self.wf() ==> r@ =~= self@) by {
                assert forall|c: u16| #[trigger] r@.contains_key(c) <==> self@.contains_key(c) by {
                    if r@.contains_key(c) {
                        let k = choose|k: int| 0 <= k < r.rows@.len() && r.rows@[k].code == c;
                        assert(self.rows@[k].code == c);
                    }
                    if self@.contains_key(c) {
                        let k = choose|k: int| 0 <= k < self.rows@.len() && self.rows@[k].code == c;
                        assert(r.rows@[k].code == c);
                    }
                }
                if self.wf() {
                    assert forall|c: u16| #[trigger] r@.contains_key(c) implies r@[c] == self@[c] by {
                        let k = choose|k: int| 0 <= k < r.rows@.len() && r.rows@[k].code == c;
                        r.lemma_row_view(k);
                        self.lemma_row_view(k);
                    }
                }
            }
        }
        r
    }
}


/// A layer after resolution: its own mappings laid over its parent's.
pub struct ResolvedLayer {
    pub name: String,
    pub mappings: LayerMappings,
}

pub struct LayerModel {
    pub name: Seq<char>,
    pub mappings: Map<u16, Seq<Option<ActionModel>>>,
}

impl View for ResolvedLayer {
    type V = LayerModel;

    open spec fn view(&self) -> LayerModel {
        LayerModel { name: self.name@, mappings: self.mappings@ }
    }
}

/// How a key press found its action: in the slot for the exact modifier
/// combination, or in the no-modifier slot as a fallback.
pub enum LookupResult<'a> {
    Exact(&'a Action),
    Fallback(&'a Action),
}

pub enum LookupModel {
    Exact(ActionModel),
    Fallback(ActionModel),
}

impl<'a> View for LookupResult<'a> {
    type V = LookupModel;

    open spec fn view(&self) -> LookupModel {
        match self {
            LookupResult::Exact(a) => LookupModel::Exact(a@),
            LookupResult::Fallback(a) => LookupModel::Fallback(a@),
        }
    }
}

pub open spec fn opt_lookup_view(r: Option<LookupResult>) -> Option<LookupModel> {
    match r {
        Some(l) => Some(l@),
        None => None,
    }
}

/// Lookup in a layer table: the exact slot when it is filled; otherwise,
/// for a non-empty modifier combination, the no-modifier slot.
pub open spec fn spec_lookup(
    table: Map<u16, Seq<Option<ActionModel>>>,
    code: u16,
    modifier_index: int,
) -> Option<LookupModel> {
    if !table.contains_key(code) {
        None
    } else if table[code][modifier_index] is Some {
        Some(LookupModel::Exact(table[code][modifier_index]->0))
    } else if modifier_index != 0 && table[code][0] is Some {
        Some(LookupModel::Fallback(table[code][0]->0))
    } else {
        None
    }
}

impl ResolvedLayer {
    pub open spec fn wf(&self) -> bool {
        self.mappings.wf()
    }

    /// The action for `key_code` under the held modifier combination.
    pub fn lookup(&self, key_code: u16, modifier_index: usize) -> (r: Option<LookupResult>)
        requires
            self.wf(),
            modifier_index < MODIFIER_COUNT,
        ensures
            opt_lookup_view(r) == spec_lookup(self.mappings@, key_code, modifier_index as int),
    {
        match self.mappings.slot(key_code, modifier_index) {
            None => None,
            Some(slot) => {
                proof {
                    self.mappings.lemma_rows_full(key_code);
                }
                match slot {
                    Some(action) => Some(LookupResult::Exact(action)),
                    None => {
                        if modifier_index != 0 {
                            match self.mappings.slot(key_code, 0) {
                                Some(Some(action)) => Some(LookupResult::Fallback(action)),
                                _ => None,
                            }
                        } else {
                            None
                        }
                    },
                }
            },
        }
    }
}

/// The first position of `x` in `s`, if any.
pub open spec fn first_index<A>(s: Seq<A>, x: A) -> Option<int> {
    if exists|i: int| 0 <= i < s.len() && s[i] == x {
        Some(
            choose|i: int|
                0 <= i < s.len() && s[i] == x && forall|j: int| 0 <= j < i ==> s[j] != x,
        )
    } else {
        None
    }
}

/// `first_index` is the smallest position holding `x`.
pub proof fn lemma_first_index<A>(s: Seq<A>, x: A, i: int)
    requires
        0 <= i < s.len(),
        s[i] == x,
        forall|j: int| 0 <= j < i ==> s[j] != x,
    ensures
        first_index(s, x) == Some(i),
{
    let k = choose|k: int| 0 <= k < s.len() && s[k] == x && forall|j: int| 0 <= j < k ==> s[j] != x;
    assert(0 <= i < s.len() && s[i] == x && forall|j: int| 0 <= j < i ==> s[j] != x);
    if k < i {
        assert(s[k] != x);
    } else if k > i {
        assert(s[i] != x);
    }
}

/// A found position holds the value looked for.
pub proof fn lemma_first_index_found<A>(s: Seq<A>, x: A)
    requires
        first_index(s, x) is Some,
    ensures
        0 <= first_index(s, x)->0 < s.len(),
        s[first_index(s, x)->0] == x,
        forall|j: int| 0 <= j < first_index(s, x)->0 ==> s[j] != x,
{
    let i = choose|i: int| 0 <= i < s.len() && s[i] == x;
    lemma_minimal_index(s, x, i);
}

proof fn lemma_minimal_index<A>(s: Seq<A>, x: A, i: int)
    requires
        0 <= i < s.len(),
        s[i] == x,
    ensures
        exists|k: int| 0 <= k < s.len() && s[k] == x && forall|j: int| 0 <= j < k ==> s[j] != x,
    decreases i,
{
    if exists|j: int| 0 <= j < i && s[j] == x {
        let j = choose|j: int| 0 <= j < i && s[j] == x;
        lemma_minimal_index(s, x, j);
    } else {
        assert(0 <= i < s.len() && s[i] == x && forall|j: int| 0 <= j < i ==> s[j] != x);
    }
}

/// A map from window class to layer name; each class occurs once.
pub struct ProfileMap {
    entries: Vec<(String, String)>,
}

impl View for ProfileMap {
    type V = Map<Seq<char>, Seq<char>>;

    closed spec fn view(&self) -> Map<Seq<char>, Seq<char>> {
        Map::new(
            |k: Seq<char>| exists|i: int| 0 <= i < self.entries@.len() && self.entries@[i].0@ == k,
            |k: Seq<char>|
                self.entries@[choose|i: int|
                    0 <= i < self.entries@.len() && self.entries@[i].0@ == k].1@,
        )
    }
}

impl ProfileMap {
    pub closed spec fn wf(&self) -> bool {
        forall|i: int, j: int|
            0 <= i < j < self.entries@.len() ==> self.entries@[i].0@ != self.entries@[j].0@
    }

    proof fn lemma_entry_view(&self, i: int)
        requires
            self.wf(),
            0 <= i < self.entries@.len(),
        ensures
            self@.contains_key(self.entries@[i].0@),
            self@[self.entries@[i].0@] == self.entries@[i].1@,
    {
        let c = self.entries@[i].0@;
        let k = choose|k: int| 0 <= k < self.entries@.len() && self.entries@[k].0@ == c;
        if k != i {
            if k < i {
                assert(self.entries@[k].0@ != self.entries@[i].0@);
            } else {
                assert(self.entries@[i].0@ != self.entries@[k].0@);
            }
        }
    }

    pub fn new() -> (m: Self)
        ensures
            m.wf(),
            m@ == Map::<Seq<char>, Seq<char>>::empty(),
    {
        let m = ProfileMap { entries: Vec::new() };
        proof {
            assert(m@ =~= Map::<Seq<char>, Seq<char>>::empty());
        }
        m
    }

    fn find(&self, key: &String) -> (r: Option<usize>)
        requires
            self.wf(),
        ensures
            match r {
                Some(i) => i < self.entries@.len() && self.entries@[i as int].0@ == key@,
                None => !self@.contains_key(key@),
            },
    {
        let mut i: usize = 0;
        while i < self.entries.len()
            invariant
                0 <= i <= self.entries@.len(),
                forall|j: int| 0 <= j < i ==> self.entries@[j].0@ != key@,
            decreases self.entries@.len() - i,
        {
            if self.entries[i].0 == *key {
                return Some(i);
            }
            i = i + 1;
        }
        None
    }

    pub fn get(&self, key: &String) -> (r: Option<&String>)
        requires
            self.wf(),
        ensures
            match r {
                Some(v) => self@.contains_key(key@) && v@ == self@[key@],
                None => !self@.contains_key(key@),
            },
    {
        match self.find(key) {
            Some(i) => {
                proof {
                    self.lemma_entry_view(i as int);
                }
                Some(&self.entries[i].1)
            },
            None => None,
        }
    }

    pub fn insert(&mut self, key: String, value: String)
        requires
            old(self).wf(),
        ensures
            final(self).wf(),
            final(self)@ == old(self)@.insert(key@, value@),
    {
        let ghost k = key@;
        let ghost v = value@;
        match self.find(&key) {
            Some(i) => {
                self.entries.set(i, (key, value));
                proof {
                    assert forall|j: int| 0 <= j < self.entries@.len() && j != i implies #[trigger] self.entries@[j] == old(self).entries@[j] by {}
                    assert(self@ =~= old(self)@.insert(k, v)) by {
                        assert forall|c: Seq<char>| #[trigger] self@.contains_key(c) <==> old(self)@.insert(k, v).contains_key(c) by {
                            if self@.contains_key(c) {
                                let m = choose|m: int| 0 <= m < self.entries@.len() && self.entries@[m].0@ == c;
                                if m != i {
                                    assert(old(self).entries@[m].0@ == c);
                                }
                            }
                            if old(self)@.contains_key(c) {
                                let m = choose|m: int| 0 <= m < old(self).entries@.len() && old(self).entries@[m].0@ == c;
                                if m != i {
                                    assert(self.entries@[m].0@ == c);
                                } else {
                                    assert(self.entries@[i as int].0@ == c);
                                }
                            }
                            if c == k {
                                assert(self.entries@[i as int].0@ == c);
                            }
                        }
                        assert forall|c: Seq<char>| #[trigger] self@.contains_key(c) implies self@[c] == old(self)@.insert(k, v)[c] by {
                            let m = choose|m: int| 0 <= m < self.entries@.len() && self.entries@[m].0@ == c;
                            self.lemma_entry_view(m);
                            if m != i {
                                old(self).lemma_entry_view(m);
                            }
                        }
                    }
                }
            },
            None => {
                self.entries.push((key, value));
                proof {
                    let n = old(self).entries@.len() as int;
                    self.lemma_entry_view(n);
                    assert(self@ =~= old(self)@.insert(k, v)) by {
                        assert forall|c: Seq<char>| #[trigger] self@.contains_key(c) <==> old(self)@.insert(k, v).contains_key(c) by {
                            if old(self)@.contains_key(c) {
                                let m = choose|m: int| 0 <= m < old(self).entries@.len() && old(self).entries@[m].0@ == c;
                                assert(self.entries@[m].0@ == c);
                            }
                            if self@.contains_key(c) && c != k {
                                let m = choose|m: int| 0 <= m < self.entries@.len() && self.entries@[m].0@ == c;
                                assert(old(self).entries@[m].0@ == c);
                            }
                        }
                        assert forall|c: Seq<char>| #[trigger] self@.contains_key(c) implies self@[c] == old(self)@.insert(k, v)[c] by {
                            let m = choose|m: int| 0 <= m < self.entries@.len() && self.entries@[m].0@ == c;
                            self.lemma_entry_view(m);
                            if m != n {
                                old(self).lemma_entry_view(m);
                            }
                        }
                    }
                }
            },
        }
    }
}

/// The resolved configuration: every layer with its parent chain applied,
/// the window-class profiles, the default layer and the device filter.
pub struct Config {
    pub layers: Vec<ResolvedLayer>,
    pub profile_map: ProfileMap,
    pub default_layer: String,
    pub device_names: Vec<String>,
}

pub struct ConfigModel {
    pub layers: Seq<LayerModel>,
    pub profile_map: Map<Seq<char>, Seq<char>>,
    pub default_layer: Seq<char>,
    pub device_names: Seq<Seq<char>>,
}

impl View for Config {
    type V = ConfigModel;

    open spec fn view(&self) -> ConfigModel {
        ConfigModel {
            layers: self.layers@.map_values(|l: ResolvedLayer| l@),
            profile_map: self.profile_map@,
            default_layer: self.default_layer@,
            device_names: names_view(self.device_names@),
        }
    }
}

pub open spec fn layer_names(layers: Seq<LayerModel>) -> Seq<Seq<char>> {
    layers.map_values(|l: LayerModel| l.name)
}

/// The position of the layer called `name`.
pub open spec fn spec_find_layer(c: ConfigModel, name: Seq<char>) -> Option<int> {
    first_index(layer_names(c.layers), name)
}

impl Config {
    pub open spec fn wf(&self) -> bool {
        &&& forall|i: int| 0 <= i < self.layers@.len() ==> (#[trigger] self.layers@[i]).wf()
        &&& self.profile_map.wf()
    }

    /// The position of the layer called `name`.
    pub fn find_layer(&self, name: &String) -> (r: Option<usize>)
        ensures
            match r {
                Some(i) => Some(i as int) == spec_find_layer(self@, name@) && i < self.layers@.len(),
                None => spec_find_layer(self@, name@) is None,
            },
    {
        let ghost names = layer_names(self@.layers);
        let mut i: usize = 0;
        while i < self.layers.len()
            invariant
                0 <= i <= self.layers@.len(),
                names == layer_names(self@.layers),
                names.len() == self.layers@.len(),
                forall|j: int| 0 <= j < i ==> names[j] != name@,
            decreases self.layers@.len() - i,
        {
            proof {
                assert(names[i as int] == self.layers@[i as int].name@);
            }
            if self.layers[i].name == *name {
                proof {
                    lemma_first_index(names, name@, i as int);
                }
                return Some(i);
            }
            i = i + 1;
        }
        None
    }
}


// The event loop's names for the resolved configuration.
pub type RuntimeKeyCombo = KeyCombo;
pub type RuntimeMacroStep = MacroStep;
pub type RuntimeAction = Action;
pub type RuntimeLayer = ResolvedLayer;
pub type RuntimeConfig = Config;

} // verus!
