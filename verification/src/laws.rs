//! Properties of the library that span several operations, proved over the
//! same specifications the operations' contracts use.

use vstd::prelude::*;
use crate::config::{
    spec_find_layer, spec_lookup, table_with, ActionModel, ComboModel, ConfigModel, LayerMode,
    LookupModel, MacroMode, StepModel,
};
use crate::events::{
    key_event, key_events, spec_combo_events, spec_resolve_key, spec_resolve_value,
    spec_should_skip_event_on_action, InputEvent, EV_KEY,
};
use crate::keys::{differs_from, spec_is_modifier_key, spec_modifier_index};
use crate::state::{
    emits, held_after, spec_active_layer, spec_handle_action, spec_process_key_event, spec_step,
    spec_update_base_layer, CommandModel, LoopEventModel, StateModel,
};
use crate::watcher::{activation_marker, spec_feed, spec_parse_dbus_value, KdeModel, WindowModel};
use crate::text::{is_ws, lemma_trim_idempotent, lemma_trim_padding, spec_contains, spec_trim};
use crate::parser::{
    apply_mappings, chain_terminates, insert_classes, raw_layer_index, spec_parse_trigger,
    spec_profile_map, spec_resolve_action, spec_resolve_layer, Table,
};
use crate::config::{RawConfigModel, RawMappingModel, RawProfileModel};
use crate::macros::{held_option, release_all};
use crate::text::{decimal_chars, decimal_value, digit_char, digit_value, spec_parse_u32, all_digits, without_plus};
use crate::keys::MODIFIER_COUNT;

verus! {

/// Pressing a modifier that was not held and releasing it passes both
/// events on unchanged and leaves the held modifiers as they were.
pub proof fn law_modifier_press_release_restores(c: ConfigModel, st: StateModel, key: u16)
    requires
        spec_is_modifier_key(key),
        !st.held.contains(key),
    ensures
        ({
            let (st1, press) = spec_process_key_event(c, st, key_event(key, 1));
            let (st2, release) = spec_process_key_event(c, st1, key_event(key, 0));
            &&& press == seq![CommandModel::Emit(key_event(key, 1))]
            &&& release == seq![CommandModel::Emit(key_event(key, 0))]
            &&& st1.held.contains(key)
            &&& st2 == st
        }),
{
    let h = st.held;
    let f = differs_from(key);
    h.lemma_filter_push(key, f);
    assert forall|i: int| 0 <= i < h.len() implies f(h[i]) by {
        assert(h[i] != key);
    }
    lemma_filter_all(h, f);
    assert(held_after(held_after(h, key, 1), key, 0) == h);
    let (st1, press) = spec_process_key_event(c, st, key_event(key, 1));
    let (st2, release) = spec_process_key_event(c, st1, key_event(key, 0));
    assert(st1.held == h.push(key));
    assert(st1.held.contains(key)) by {
        assert(st1.held[h.len() as int] == key);
    }
    assert(st2.held == h);
}

/// Filtering by a predicate that every element meets keeps the sequence.
pub proof fn lemma_filter_all<A>(s: Seq<A>, p: spec_fn(A) -> bool)
    requires
        forall|i: int| 0 <= i < s.len() ==> p(s[i]),
    ensures
        s.filter(p) == s,
    decreases s.len(),
{
    broadcast use vstd::seq_lib::group_seq_properties;
    if s.len() > 0 {
        let init = s.drop_last();
        lemma_filter_all(init, p);
        assert(s =~= init.push(s.last()));
        init.lemma_filter_push(s.last(), p);
    } else {
        assert(s.filter(p) =~= s);
    }
}

/// Pressing a layer toggle twice, starting with no shifted layer, shows the
/// layer and then hides it again.
pub proof fn law_toggle_twice(c: ConfigModel, st: StateModel, layer: Seq<char>, key: u16)
    requires
        c.layers.len() <= usize::MAX,
        st.shift_layer is None,
        spec_find_layer(c, layer) is Some,
    ensures
        ({
            let action = ActionModel::Layer { layer, mode: LayerMode::Toggle };
            let (st1, c1) = spec_handle_action(c, st, action, 1, key, None);
            let (st2, c2) = spec_handle_action(c, st1, action, 1, key, None);
            &&& st1.shift_layer == Some(spec_find_layer(c, layer)->0 as usize)
            &&& st2 == st
            &&& c1.len() == 0 && c2.len() == 0
        }),
{
    crate::config::lemma_first_index_found(crate::config::layer_names(c.layers), layer);
    let i = spec_find_layer(c, layer)->0;
    assert(crate::config::layer_names(c.layers)[i] == c.layers[i].name);
}

/// A shift-layer key makes its layer active while held; releasing it makes
/// the base layer active again and clears the shifted layer.
pub proof fn law_shift_layer_while_held(
    c: ConfigModel,
    st: StateModel,
    layer: Seq<char>,
    key: u16,
)
    requires
        c.layers.len() <= usize::MAX,
        !spec_is_modifier_key(key),
        st.shift_trigger_key != Some(key),
        spec_find_layer(c, layer) is Some,
        spec_lookup(
            c.layers[spec_active_layer(st) as int].mappings,
            key,
            spec_modifier_index(st.held.to_set()),
        ) == Some(LookupModel::Exact(ActionModel::Layer { layer, mode: LayerMode::Shift })),
    ensures
        ({
            let (st1, _) = spec_process_key_event(c, st, key_event(key, 1));
            let (st2, out) = spec_process_key_event(c, st1, key_event(key, 0));
            &&& spec_active_layer(st1) == spec_find_layer(c, layer)->0
            &&& st1.shift_trigger_key == Some(key)
            &&& st2.shift_layer is None
            &&& st2.shift_trigger_key is None
            &&& spec_active_layer(st2) == st.current_layer
            &&& st2.pending == st.pending.remove(key)
            &&& out.len() == 0
        }),
{
    let a = ActionModel::Layer { layer, mode: LayerMode::Shift };
    crate::config::lemma_first_index_found(crate::config::layer_names(c.layers), layer);
    assert(st.pending.insert(key, a).remove(key) =~= st.pending.remove(key));
}

/// A window change picks the base layer and touches nothing else: held
/// modifiers, running macros, pending releases and the shifted layer stay.
pub proof fn law_window_change_only_moves_base_layer(
    c: ConfigModel,
    st: StateModel,
    window: Option<WindowModel>,
)
    ensures
        ({
            let (st1, out) = spec_step(c, st, LoopEventModel::WindowChanged(window));
            &&& out.len() == 0
            &&& st1.held == st.held
            &&& st1.macros == st.macros
            &&& st1.pending == st.pending
            &&& st1.shift_layer == st.shift_layer
            &&& st1.shift_trigger_key == st.shift_trigger_key
        }),
{
}

/// A key press with nothing mapped in the active layer is passed on
/// unchanged and changes nothing.
pub proof fn law_unmapped_press_passes_through(c: ConfigModel, st: StateModel, key: u16)
    requires
        !spec_is_modifier_key(key),
        st.shift_trigger_key != Some(key),
        spec_lookup(
            c.layers[spec_active_layer(st) as int].mappings,
            key,
            spec_modifier_index(st.held.to_set()),
        ) is None,
    ensures
        spec_process_key_event(c, st, key_event(key, 1)) == (st, seq![CommandModel::Emit(key_event(key, 1))]),
{
}

/// A hold-mode macro runs while its key is held: the press starts it for
/// that key, the release stops it.
pub proof fn law_hold_macro_runs_while_held(
    c: ConfigModel,
    st: StateModel,
    key: u16,
    steps: Seq<StepModel>,
)
    requires
        !spec_is_modifier_key(key),
        st.shift_trigger_key != Some(key),
        !st.macros.contains(key),
        spec_lookup(
            c.layers[spec_active_layer(st) as int].mappings,
            key,
            spec_modifier_index(st.held.to_set()),
        ) == Some(LookupModel::Exact(ActionModel::Macro { mode: MacroMode::Hold, steps })),
    ensures
        ({
            let (st1, press) = spec_process_key_event(c, st, key_event(key, 1));
            let (st2, release) = spec_process_key_event(c, st1, key_event(key, 0));
            &&& press == seq![CommandModel::SpawnMacro { key, mode: MacroMode::Hold, steps, held: st.held }]
            &&& st1.macros.contains(key)
            &&& release == seq![CommandModel::CancelMacro { key }]
            &&& st2.macros == st.macros
        }),
{
    let (st1, press) = spec_process_key_event(c, st, key_event(key, 1));
    assert(press =~= seq![CommandModel::SpawnMacro { key, mode: MacroMode::Hold, steps, held: st.held }]);
    assert(st.macros.insert(key).remove(key) =~= st.macros);
}

/// Pressing and releasing a combination touch the same keys: a key is
/// pressed by the press events exactly when the release events release it.
pub proof fn law_combo_release_matches_press(combo: ComboModel, held: Option<Seq<u16>>, code: u16)
    ensures
        (exists|i: int|
            0 <= i < spec_combo_events(combo, 1, held).len() && #[trigger] spec_combo_events(combo, 1, held)[i]
                == key_event(code, 1)) <==> (exists|j: int|
            0 <= j < spec_combo_events(combo, 0, held).len() && #[trigger] spec_combo_events(combo, 0, held)[j]
                == key_event(code, 0)),
{
    let press = spec_combo_events(combo, 1, held);
    let release = spec_combo_events(combo, 0, held);
    let extra = crate::events::extra_held(combo, held);
    let m = combo.modifiers;
    let ne = extra.len() as int;
    let nm = m.len() as int;
    if exists|i: int| 0 <= i < press.len() && press[i] == key_event(code, 1) {
        let i = choose|i: int| 0 <= i < press.len() && press[i] == key_event(code, 1);
        if i < ne {
            assert(release[1 + nm + i] == key_event(code, 0));
        } else if i < ne + nm {
            let k = i - ne;
            assert(m.reverse()[nm - 1 - k] == m[k]);
            assert(release[1 + (nm - 1 - k)] == key_event(code, 0));
        } else {
            assert(release[0] == key_event(code, 0));
        }
    }
    if exists|j: int| 0 <= j < release.len() && release[j] == key_event(code, 0) {
        let j = choose|j: int| 0 <= j < release.len() && release[j] == key_event(code, 0);
        if j == 0 {
            assert(press[ne + nm] == key_event(code, 1));
        } else if j < 1 + nm {
            let k = j - 1;
            assert(m.reverse()[k] == m[nm - 1 - k]);
            assert(press[ne + (nm - 1 - k)] == key_event(code, 1));
        } else {
            assert(press[j - 1 - nm] == key_event(code, 1));
        }
    }
}


/// The action in a table's slot, `None` when the code has no row.
pub open spec fn slot(t: Table, code: u16, mi: int) -> Option<ActionModel> {
    if t.contains_key(code) {
        t[code][mi]
    } else {
        None
    }
}

/// Every row has one slot per modifier combination.
pub open spec fn rows_full(t: Table) -> bool {
    forall|k: u16| t.contains_key(k) ==> #[trigger] t[k].len() == MODIFIER_COUNT
}

/// The mapping's trigger is (`code`, `mi`).
pub open spec fn targets(m: RawMappingModel, code: u16, mi: int) -> bool {
    spec_parse_trigger(m.trigger) == Ok::<(u16, int), crate::parser::ConfigErrorModel>((code, mi))
}

proof fn lemma_apply_rows_full(base: Table, ms: Seq<RawMappingModel>)
    requires
        rows_full(base),
        apply_mappings(base, ms) is Ok,
    ensures
        rows_full(apply_mappings(base, ms)->Ok_0),
    decreases ms.len(),
{
    if ms.len() > 0 {
        lemma_apply_rows_full(base, ms.drop_last());
        let t = apply_mappings(base, ms.drop_last())->Ok_0;
        let (code, mi) = spec_parse_trigger(ms.last().trigger)->Ok_0;
        let a = spec_resolve_action(ms.last().action)->Ok_0;
        let r = table_with(t, code, mi, a);
        assert forall|k: u16| r.contains_key(k) implies #[trigger] r[k].len() == MODIFIER_COUNT by {
            if k != code {
                assert(t.contains_key(k));
            }
        }
    }
}

/// A slot that none of a layer's own mappings targets keeps the value it has
/// in the parent's table.
pub proof fn law_untargeted_slot_inherited(base: Table, ms: Seq<RawMappingModel>, code: u16, mi: int)
    requires
        0 <= mi < MODIFIER_COUNT,
        rows_full(base),
        apply_mappings(base, ms) is Ok,
        forall|i: int| 0 <= i < ms.len() ==> !targets(#[trigger] ms[i], code, mi),
    ensures
        slot(apply_mappings(base, ms)->Ok_0, code, mi) == slot(base, code, mi),
    decreases ms.len(),
{
    if ms.len() > 0 {
        let init = ms.drop_last();
        assert forall|i: int| 0 <= i < init.len() implies !targets(#[trigger] init[i], code, mi) by {
            assert(init[i] == ms[i]);
        }
        law_untargeted_slot_inherited(base, init, code, mi);
        lemma_apply_rows_full(base, init);
        let t = apply_mappings(base, init)->Ok_0;
        let (c2, m2) = spec_parse_trigger(ms.last().trigger)->Ok_0;
        assert(!targets(ms[ms.len() - 1], code, mi));
        if c2 == code {
            assert(m2 != mi);
        }
    }
}

/// The last of a layer's own mappings that targets a slot decides it.
pub proof fn law_last_mapping_wins(base: Table, ms: Seq<RawMappingModel>, k: int, code: u16, mi: int)
    requires
        0 <= mi < MODIFIER_COUNT,
        rows_full(base),
        apply_mappings(base, ms) is Ok,
        0 <= k < ms.len(),
        targets(ms[k], code, mi),
        forall|j: int| k < j < ms.len() ==> !targets(#[trigger] ms[j], code, mi),
    ensures
        spec_resolve_action(ms[k].action) is Ok,
        slot(apply_mappings(base, ms)->Ok_0, code, mi) == Some(spec_resolve_action(ms[k].action)->Ok_0),
    decreases ms.len(),
{
    let init = ms.drop_last();
    lemma_apply_rows_full(base, init);
    if k == ms.len() - 1 {
        assert(ms.last() == ms[k]);
    } else {
        assert forall|j: int| k < j < init.len() implies !targets(#[trigger] init[j], code, mi) by {
            assert(init[j] == ms[j]);
        }
        assert(init[k] == ms[k]);
        law_last_mapping_wins(base, init, k, code, mi);
        let (c2, m2) = spec_parse_trigger(ms.last().trigger)->Ok_0;
        assert(!targets(ms[ms.len() - 1], code, mi));
        if c2 == code {
            assert(m2 != mi);
        }
    }
}

/// A layer with a parent resolves to the parent's table with its own
/// mappings laid over it: a slot the layer maps is the layer's last mapping
/// for it, any other slot is the parent's.
pub proof fn law_child_overrides_parent(raw: RawConfigModel, i: int, code: u16, mi: int)
    requires
        0 <= i < raw.layers.len(),
        0 <= mi < MODIFIER_COUNT,
        raw_layer_index(raw.layers, raw.layers[i].0) == Some(i),
        chain_terminates(raw.layers, raw.layers[i].0, raw.layers.len()),
        raw.layers[i].1.parent is Some,
        spec_resolve_layer(raw.layers, raw.layers[i].0, raw.layers.len()) is Ok,
    ensures
        ({
            let parent = spec_resolve_layer(raw.layers, raw.layers[i].1.parent->0, raw.layers.len());
            let own = raw.layers[i].1.mappings;
            let child = spec_resolve_layer(raw.layers, raw.layers[i].0, raw.layers.len())->Ok_0;
            &&& parent is Ok
            &&& (forall|j: int| 0 <= j < own.len() ==> !targets(#[trigger] own[j], code, mi))
                ==> slot(child, code, mi) == slot(parent->Ok_0, code, mi)
            &&& forall|k: int|
                0 <= k < own.len() && targets(own[k], code, mi) && (forall|j: int|
                    k < j < own.len() ==> !targets(#[trigger] own[j], code, mi)) ==> slot(child, code, mi)
                    == Some(spec_resolve_action(#[trigger] own[k].action)->Ok_0)
        }),
{
    let n = raw.layers.len();
    let p = raw.layers[i].1.parent->0;
    let own = raw.layers[i].1.mappings;
    assert(n > 0);
    crate::parser::lemma_resolve_fuel_pub(raw.layers, p, (n - 1) as nat, n);
    let pt = spec_resolve_layer(raw.layers, p, n);
    lemma_resolved_rows_full(raw.layers, p, n);
    if forall|j: int| 0 <= j < own.len() ==> !targets(#[trigger] own[j], code, mi) {
        law_untargeted_slot_inherited(pt->Ok_0, own, code, mi);
    }
    assert forall|k: int|
        0 <= k < own.len() && targets(own[k], code, mi) && (forall|j: int|
            k < j < own.len() ==> !targets(#[trigger] own[j], code, mi)) implies slot(
        spec_resolve_layer(raw.layers, raw.layers[i].0, n)->Ok_0,
        code,
        mi,
    ) == Some(spec_resolve_action(#[trigger] own[k].action)->Ok_0) by {
        law_last_mapping_wins(pt->Ok_0, own, k, code, mi);
    }
}

/// Every table that resolution produces has full rows.
pub proof fn lemma_resolved_rows_full(layers: Seq<(Seq<char>, crate::config::RawLayerModel)>, name: Seq<char>, fuel: nat)
    ensures
        spec_resolve_layer(layers, name, fuel) is Ok ==> rows_full(spec_resolve_layer(layers, name, fuel)->Ok_0),
    decreases fuel,
{
    match raw_layer_index(layers, name) {
        None => {},
        Some(i) => {
            let base = match layers[i].1.parent {
                None => Ok(Map::<u16, Seq<Option<ActionModel>>>::empty()),
                Some(p) => if fuel == 0 {
                    Err(crate::parser::ConfigErrorModel::LayerNotFound(p))
                } else {
                    lemma_resolved_rows_full(layers, p, (fuel - 1) as nat);
                    spec_resolve_layer(layers, p, (fuel - 1) as nat)
                },
            };
            if base is Ok && apply_mappings(base->Ok_0, layers[i].1.mappings) is Ok {
                lemma_apply_rows_full(base->Ok_0, layers[i].1.mappings);
            }
        },
    }
}

/// A press with no modifiers held finds only the exact slot.
pub proof fn law_no_modifier_lookup_is_exact(t: Table, code: u16)
    ensures
        !(spec_lookup(t, code, 0) matches Some(LookupModel::Fallback(_))),
{
}

/// With modifiers held and nothing mapped for them, the key's
/// no-modifier mapping applies.
pub proof fn law_lookup_falls_back(t: Table, code: u16, mi: int)
    requires
        0 < mi < MODIFIER_COUNT,
        t.contains_key(code),
        t[code][mi] is None,
        t[code][0] is Some,
    ensures
        spec_lookup(t, code, mi) == Some(LookupModel::Fallback(t[code][0]->0)),
{
}

/// A window class listed by several profiles goes to the layer of the last
/// of them.
pub proof fn law_last_profile_wins(ps: Seq<RawProfileModel>, k: int, class: Seq<char>)
    requires
        0 <= k < ps.len(),
        ps[k].wm_classes.contains(class),
        forall|j: int| k < j < ps.len() ==> !(#[trigger] ps[j]).wm_classes.contains(class),
    ensures
        spec_profile_map(ps).contains_key(class),
        spec_profile_map(ps)[class] == ps[k].layer,
    decreases ps.len(),
{
    let init = ps.drop_last();
    if k == ps.len() - 1 {
        lemma_insert_classes_contains(spec_profile_map(init), ps[k].wm_classes, ps[k].layer, class);
    } else {
        assert forall|j: int| k < j < init.len() implies !(#[trigger] init[j]).wm_classes.contains(class) by {
            assert(init[j] == ps[j]);
        }
        assert(init[k] == ps[k]);
        law_last_profile_wins(init, k, class);
        lemma_insert_classes_other(spec_profile_map(init), ps.last().wm_classes, ps.last().layer, class);
    }
}

proof fn lemma_insert_classes_contains(m: Map<Seq<char>, Seq<char>>, classes: Seq<Seq<char>>, layer: Seq<char>, class: Seq<char>)
    requires
        classes.contains(class),
    ensures
        insert_classes(m, classes, layer).contains_key(class),
        insert_classes(m, classes, layer)[class] == layer,
    decreases classes.len(),
{
    if classes.last() != class {
        let i = choose|i: int| 0 <= i < classes.len() && classes[i] == class;
        assert(classes.drop_last()[i] == class);
        lemma_insert_classes_contains(m, classes.drop_last(), layer, class);
    }
}

proof fn lemma_insert_classes_other(m: Map<Seq<char>, Seq<char>>, classes: Seq<Seq<char>>, layer: Seq<char>, class: Seq<char>)
    requires
        !classes.contains(class),
    ensures
        insert_classes(m, classes, layer).contains_key(class) == m.contains_key(class),
        m.contains_key(class) ==> insert_classes(m, classes, layer)[class] == m[class],
    decreases classes.len(),
{
    if classes.len() > 0 {
        if classes.drop_last().contains(class) {
            let i = choose|i: int| 0 <= i < classes.drop_last().len() && classes.drop_last()[i] == class;
            assert(classes[i] == class);
        }
        lemma_insert_classes_other(m, classes.drop_last(), layer, class);
        assert(classes[classes.len() - 1] != class);
    }
}

/// Every combination still pressed when a macro run ends is released by
/// the run's final releases.
pub proof fn law_macro_releases_everything_pressed(pressed: Seq<ComboModel>, held: Seq<u16>, k: int)
    requires
        0 <= k < pressed.len(),
    ensures
        release_all(pressed, held).contains(key_event(pressed[k].key, 0)),
    decreases pressed.len(),
{
    let first = spec_combo_events(pressed.last(), 0, held_option(held));
    if k == pressed.len() - 1 {
        assert((first + release_all(pressed.drop_last(), held))[0] == key_event(pressed[k].key, 0));
    } else {
        assert(pressed.drop_last()[k] == pressed[k]);
        law_macro_releases_everything_pressed(pressed.drop_last(), held, k);
        let rest = release_all(pressed.drop_last(), held);
        let j = choose|j: int| 0 <= j < rest.len() && rest[j] == key_event(pressed[k].key, 0);
        assert((first + rest)[first.len() + j] == key_event(pressed[k].key, 0));
    }
}

proof fn lemma_decimal_chars_digits(n: nat)
    ensures
        decimal_chars(n).len() > 0,
        all_digits(decimal_chars(n)),
        decimal_value(decimal_chars(n)) == n,
        decimal_chars(n)[0] != '+',
    decreases n,
{
    if n < 10 {
        assert(digit_char(n) as u32 == '0' as u32 + n);
        assert(decimal_chars(n).drop_last() =~= Seq::<char>::empty());
        assert(decimal_value(Seq::<char>::empty()) == 0);
        assert(digit_value(decimal_chars(n).last()) == n);
    } else {
        lemma_decimal_chars_digits(n / 10);
        let d = (n % 10) as nat;
        assert(digit_char(d) as u32 == '0' as u32 + d);
        let s = decimal_chars(n);
        assert(s.drop_last() =~= decimal_chars(n / 10));
        assert(s.last() == digit_char(d));
        assert(digit_value(s.last()) == d);
        assert(decimal_value(s) == 10 * decimal_value(decimal_chars(n / 10)) + d);
        assert(10 * (n / 10) + d == n);
        assert forall|i: int| 0 <= i < s.len() implies crate::text::is_digit(#[trigger] s[i]) by {
            if i < s.len() - 1 {
                assert(s[i] == decimal_chars(n / 10)[i]);
            }
        }
        assert(s[0] == decimal_chars(n / 10)[0]);
    }
}

/// Printing a number in decimal and parsing it back gives the number.
pub proof fn law_decimal_round_trip(n: u32)
    ensures
        spec_parse_u32(decimal_chars(n as nat)) == Some(n),
{
    lemma_decimal_chars_digits(n as nat);
    assert(without_plus(decimal_chars(n as nat)) == decimal_chars(n as nat));
}


/// A line that is an argument value and not an activation header.
pub open spec fn value_line(line: Seq<char>, v: Seq<char>) -> bool {
    &&& !spec_contains(spec_trim(line, false), activation_marker())
    &&& spec_parse_dbus_value(spec_trim(line, false)) == Some(v)
}

/// After an activation header, four argument values give the window: the
/// caption, class, instance and process id (zero when it does not parse),
/// whatever was read before the header.
pub proof fn law_kde_activation_yields_window(
    st: KdeModel,
    header: Seq<char>,
    l1: Seq<char>,
    l2: Seq<char>,
    l3: Seq<char>,
    l4: Seq<char>,
    v1: Seq<char>,
    v2: Seq<char>,
    v3: Seq<char>,
    v4: Seq<char>,
)
    requires
        spec_contains(spec_trim(header, false), activation_marker()),
        value_line(l1, v1),
        value_line(l2, v2),
        value_line(l3, v3),
        value_line(l4, v4),
    ensures
        ({
            let (s0, w0) = spec_feed(st, header);
            let (s1, w1) = spec_feed(s0, l1);
            let (s2, w2) = spec_feed(s1, l2);
            let (s3, w3) = spec_feed(s2, l3);
            let (s4, w4) = spec_feed(s3, l4);
            &&& w0 is None && w1 is None && w2 is None && w3 is None
            &&& w4 == Some(
                WindowModel {
                    title: v1,
                    wm_class: v2,
                    wm_class_instance: v3,
                    pid: match spec_parse_u32(v4) {
                        Some(p) => p,
                        None => 0,
                    },
                },
            )
            &&& s4.field == 0
        }),
{
    crate::text::lemma_trim_idempotent(l1, false);
    crate::text::lemma_trim_idempotent(l2, false);
    crate::text::lemma_trim_idempotent(l3, false);
    crate::text::lemma_trim_idempotent(l4, false);
}

/// The state after a run of loop events.
pub open spec fn after_steps(c: ConfigModel, st: StateModel, evs: Seq<LoopEventModel>) -> StateModel
    decreases evs.len(),
{
    if evs.len() == 0 {
        st
    } else {
        spec_step(c, after_steps(c, st, evs.drop_last()), evs.last()).0
    }
}

/// A loop event that can come while `key` is held down: a repeat of it,
/// a window change, or a macro's output.
pub open spec fn while_held(key: u16, e: LoopEventModel) -> bool {
    match e {
        LoopEventModel::DeviceEvent(ev) => ev == key_event(key, 2),
        _ => true,
    }
}

/// The action a press chooses from what it looked up, and the held
/// modifiers the action is handled with.
pub open spec fn press_choice(found: LookupModel, held: Seq<u16>) -> (ActionModel, Option<Seq<u16>>) {
    match found {
        LookupModel::Exact(a) => (a, None),
        LookupModel::Fallback(a) => (a, Some(held)),
    }
}

/// What a repeat of `key` does while the press chose `a`: nothing while the
/// key holds a shifted layer, else the action run with value 2.
pub open spec fn repeat_commands(c: ConfigModel, st: StateModel, key: u16, a: ActionModel) -> Seq<CommandModel> {
    if st.shift_trigger_key == Some(key) {
        Seq::empty()
    } else {
        spec_handle_action(c, st, a, 2, key, None).1
    }
}

/// Running an action never changes which keys wait for their release.
pub proof fn lemma_handle_action_keeps_pending(
    c: ConfigModel,
    st: StateModel,
    a: ActionModel,
    value: i32,
    key: u16,
    held: Option<Seq<u16>>,
)
    ensures
        spec_handle_action(c, st, a, value, key, held).0.pending == st.pending,
{
}

/// While `key` is held with an action waiting for its release, the loop
/// events that can come keep what waits for release as it is.
proof fn lemma_held_keeps_pending(c: ConfigModel, st: StateModel, key: u16, evs: Seq<LoopEventModel>)
    requires
        !spec_is_modifier_key(key),
        st.pending.contains_key(key),
        forall|i: int| 0 <= i < evs.len() ==> while_held(key, #[trigger] evs[i]),
    ensures
        after_steps(c, st, evs).pending == st.pending,
    decreases evs.len(),
{
    if evs.len() > 0 {
        let init = evs.drop_last();
        assert forall|i: int| 0 <= i < init.len() implies while_held(key, #[trigger] init[i]) by {
            assert(init[i] == evs[i]);
        }
        lemma_held_keeps_pending(c, st, key, init);
        let s = after_steps(c, st, init);
        assert(while_held(key, evs[evs.len() - 1]));
        lemma_handle_action_keeps_pending(c, s, s.pending[key], 2, key, None);
    }
}

/// While an unmapped `key` is held, the loop events that can come leave
/// what waits for release and the key holding a shifted layer as they are.
proof fn lemma_held_unmapped(c: ConfigModel, st: StateModel, key: u16, evs: Seq<LoopEventModel>)
    requires
        !spec_is_modifier_key(key),
        !st.pending.contains_key(key),
        st.shift_trigger_key != Some(key),
        forall|i: int| 0 <= i < evs.len() ==> while_held(key, #[trigger] evs[i]),
    ensures
        after_steps(c, st, evs).pending == st.pending,
        after_steps(c, st, evs).shift_trigger_key == st.shift_trigger_key,
        after_steps(c, st, evs).held == st.held,
    decreases evs.len(),
{
    if evs.len() > 0 {
        let init = evs.drop_last();
        assert forall|i: int| 0 <= i < init.len() implies while_held(key, #[trigger] init[i]) by {
            assert(init[i] == evs[i]);
        }
        lemma_held_unmapped(c, st, key, init);
        assert(while_held(key, evs[evs.len() - 1]));
    }
}

/// The first `i` of a run of events that can come while a key is held can
/// come while it is held too.
proof fn lemma_take_while_held(key: u16, evs: Seq<LoopEventModel>, i: int)
    requires
        0 <= i <= evs.len(),
        forall|j: int| 0 <= j < evs.len() ==> while_held(key, #[trigger] evs[j]),
    ensures
        forall|j: int| 0 <= j < evs.take(i).len() ==> while_held(key, #[trigger] evs.take(i)[j]),
{
    assert forall|j: int| 0 <= j < evs.take(i).len() implies while_held(key, #[trigger] evs.take(i)[j]) by {
        assert(evs.take(i)[j] == evs[j]);
    }
}

/// A key's release runs the action that its press chose, whatever the
/// action and whatever happens in between: repeats of the key, window
/// changes (and so a new base layer) and macro output.
///
/// When the press found an action (exactly or by falling back to fewer
/// modifiers), the press remembers it and runs it with value 1; everything
/// in between leaves it remembered, and each repeat runs it with value 2
/// (or does nothing while the key holds a shifted layer), with no fresh
/// lookup; the release forgets the key and runs the same action with value
/// 0, after dropping the shifted layer the key held, and the raw release is
/// not sent. When the press found nothing and nothing waited for the key,
/// the press, each repeat and the release are each sent on unchanged.
pub proof fn law_release_reuses_press_action(
    c: ConfigModel,
    st: StateModel,
    down: InputEvent,
    up: InputEvent,
    found: Option<LookupModel>,
    evs: Seq<LoopEventModel>,
)
    requires
        spec_resolve_value(down) == 1,
        !spec_should_skip_event_on_action(down),
        spec_resolve_value(up) == 0,
        spec_resolve_key(up) == spec_resolve_key(down),
        !spec_is_modifier_key(spec_resolve_key(down)),
        st.shift_trigger_key != Some(spec_resolve_key(down)),
        spec_lookup(
            c.layers[spec_active_layer(st) as int].mappings,
            spec_resolve_key(down),
            spec_modifier_index(st.held.to_set()),
        ) == found,
        found is None ==> !st.pending.contains_key(spec_resolve_key(down)),
        forall|i: int| 0 <= i < evs.len() ==> while_held(spec_resolve_key(down), #[trigger] evs[i]),
    ensures
        ({
            let key = spec_resolve_key(down);
            let (st1, press) = spec_process_key_event(c, st, down);
            let sw = after_steps(c, st1, evs);
            let (sf, release) = spec_process_key_event(c, sw, up);
            match found {
                Some(l) => {
                    let (a, held) = press_choice(l, st.held);
                    let cleared = if sw.shift_trigger_key == Some(key) {
                        StateModel { shift_layer: None, shift_trigger_key: None, ..sw }
                    } else {
                        sw
                    };
                    &&& (st1, press) == spec_handle_action(
                        c,
                        StateModel { pending: st.pending.insert(key, a), ..st },
                        a,
                        1,
                        key,
                        held,
                    )
                    &&& sw.pending == st.pending.insert(key, a)
                    &&& forall|i: int|
                        0 <= i < evs.len() && #[trigger] evs[i] is DeviceEvent ==> spec_step(
                            c,
                            after_steps(c, st1, evs.take(i)),
                            evs[i],
                        ).1 == repeat_commands(c, after_steps(c, st1, evs.take(i)), key, a)
                    &&& (sf, release) == spec_handle_action(
                        c,
                        StateModel { pending: st.pending.remove(key), ..cleared },
                        a,
                        0,
                        key,
                        None,
                    )
                    &&& sf.pending == st.pending.remove(key)
                },
                None => {
                    &&& press == seq![CommandModel::Emit(down)]
                    &&& st1 == st
                    &&& forall|i: int|
                        0 <= i < evs.len() && #[trigger] evs[i] is DeviceEvent ==> spec_step(
                            c,
                            after_steps(c, st, evs.take(i)),
                            evs[i],
                        ).1 == seq![CommandModel::Emit(key_event(key, 2))]
                    &&& release == seq![CommandModel::Emit(up)]
                    &&& sf == sw
                    &&& sf.pending == st.pending
                },
            }
        }),
{
    let key = spec_resolve_key(down);
    let (st1, press) = spec_process_key_event(c, st, down);
    match found {
        Some(l) => {
            let (a, held) = press_choice(l, st.held);
            lemma_handle_action_keeps_pending(
                c,
                StateModel { pending: st.pending.insert(key, a), ..st },
                a,
                1,
                key,
                held,
            );
            assert(st1.pending == st.pending.insert(key, a));
            lemma_held_keeps_pending(c, st1, key, evs);
            let sw = after_steps(c, st1, evs);
            assert forall|i: int|
                0 <= i < evs.len() && #[trigger] evs[i] is DeviceEvent implies spec_step(
                    c,
                    after_steps(c, st1, evs.take(i)),
                    evs[i],
                ).1 == repeat_commands(c, after_steps(c, st1, evs.take(i)), key, a) by {
                lemma_take_while_held(key, evs, i);
                lemma_held_keeps_pending(c, st1, key, evs.take(i));
                assert(while_held(key, evs[i]));
            }
            assert(sw.pending.remove(key) =~= st.pending.remove(key));
            let cleared = if sw.shift_trigger_key == Some(key) {
                StateModel { shift_layer: None, shift_trigger_key: None, ..sw }
            } else {
                sw
            };
            lemma_handle_action_keeps_pending(
                c,
                StateModel { pending: st.pending.remove(key), ..cleared },
                a,
                0,
                key,
                None,
            );
        },
        None => {
            lemma_held_unmapped(c, st, key, evs);
            assert forall|i: int|
                0 <= i < evs.len() && #[trigger] evs[i] is DeviceEvent implies spec_step(
                    c,
                    after_steps(c, st, evs.take(i)),
                    evs[i],
                ).1 == seq![CommandModel::Emit(key_event(key, 2))] by {
                lemma_take_while_held(key, evs, i);
                lemma_held_unmapped(c, st, key, evs.take(i));
                assert(while_held(key, evs[i]));
            }
        },
    }
}

/// A key action sends the combination's events one command each, in order:
/// a press the extra held keys, the modifiers and the main key; a repeat
/// the main key only; a release the main key, the modifiers in reverse and
/// the extra held keys. Nothing else changes.
pub proof fn law_key_action_emits_each_event(
    c: ConfigModel,
    st: StateModel,
    combo: ComboModel,
    value: i32,
    key: u16,
    held: Option<Seq<u16>>,
)
    ensures
        ({
            let (st1, cmds) = spec_handle_action(c, st, ActionModel::Key(combo), value, key, held);
            let events = spec_combo_events(combo, value, held);
            &&& st1 == st
            &&& cmds.len() == events.len()
            &&& forall|i: int| 0 <= i < cmds.len() ==> #[trigger] cmds[i] == CommandModel::Emit(events[i])
        }),
{
}

/// A combination's press and release mirror each other: both are key
/// events, the press all of value 1 and the release all of value 0, of the
/// same length (the extra held keys, the modifiers and the main key); the
/// release begins with the press's last keys in reverse order, and both
/// touch the same keys as many times.
pub proof fn law_combo_press_release_mirror(combo: ComboModel, value: i32, held: Option<Seq<u16>>)
    requires
        value != 1,
        value != 2,
    ensures
        ({
            let p = spec_combo_events(combo, 1, held);
            let r = spec_combo_events(combo, value, held);
            let extra = crate::events::extra_held(combo, held);
            let n = combo.modifiers.len() as int;
            &&& p.len() == extra.len() + n + 1
            &&& r.len() == p.len()
            &&& forall|i: int| 0 <= i < p.len() ==> (#[trigger] p[i]).kind == EV_KEY && p[i].value == 1
            &&& forall|i: int| 0 <= i < r.len() ==> (#[trigger] r[i]).kind == EV_KEY && r[i].value == 0
            &&& forall|k: int| 0 <= k <= n ==> (#[trigger] r[k]).code == p[p.len() - 1 - k].code
            &&& event_codes(p).to_multiset() == event_codes(r).to_multiset()
        }),
{
    let p = spec_combo_events(combo, 1, held);
    let r = spec_combo_events(combo, value, held);
    let extra = crate::events::extra_held(combo, held);
    let m = combo.modifiers;
    let n = m.len() as int;
    let ne = extra.len() as int;
    assert forall|k: int| 0 <= k <= n implies (#[trigger] r[k]).code == p[p.len() - 1 - k].code by {
        if k > 0 {
            assert(m.reverse()[k - 1] == m[n - k]);
        }
    }
    let pe = event_codes(key_events(extra, 1));
    let pm = event_codes(key_events(m, 1));
    let rm = event_codes(key_events(m.reverse(), 0));
    let re = event_codes(key_events(extra, 0));
    let last = seq![combo.key];
    assert(pe =~= extra);
    assert(re =~= extra);
    assert(pm =~= m);
    assert(rm =~= m.reverse());
    assert(event_codes(p) =~= extra + m + last);
    assert(event_codes(r) =~= last + m.reverse() + extra);
    lemma_reverse_multiset(m);
    vstd::seq_lib::lemma_multiset_commutative(extra + m, last);
    vstd::seq_lib::lemma_multiset_commutative(extra, m);
    vstd::seq_lib::lemma_multiset_commutative(last + m.reverse(), extra);
    vstd::seq_lib::lemma_multiset_commutative(last, m.reverse());
    assert(event_codes(p).to_multiset() =~= event_codes(r).to_multiset());
}

/// The codes of a run of events.
pub open spec fn event_codes(events: Seq<InputEvent>) -> Seq<u16> {
    events.map_values(|e: InputEvent| e.code)
}

/// Reversing a sequence keeps how often each element occurs.
pub proof fn lemma_reverse_multiset(s: Seq<u16>)
    ensures
        s.reverse().to_multiset() == s.to_multiset(),
    decreases s.len(),
{
    if s.len() > 0 {
        let init = s.drop_last();
        lemma_reverse_multiset(init);
        assert(s.reverse() =~= seq![s.last()] + init.reverse());
        assert(s =~= init + seq![s.last()]);
        vstd::seq_lib::lemma_multiset_commutative(seq![s.last()], init.reverse());
        vstd::seq_lib::lemma_multiset_commutative(init, seq![s.last()]);
    } else {
        assert(s.reverse() =~= s);
    }
}

/// Whitespace around a `dbus-monitor` argument line does not change the
/// value read from it, and reading a trimmed line gives the same value.
pub proof fn law_dbus_value_ignores_padding(a: Seq<char>, s: Seq<char>, b: Seq<char>)
    requires
        forall|k: int| 0 <= k < a.len() ==> is_ws(#[trigger] a[k]),
        forall|k: int| 0 <= k < b.len() ==> is_ws(#[trigger] b[k]),
    ensures
        spec_parse_dbus_value(a + s + b) == spec_parse_dbus_value(s),
        spec_parse_dbus_value(spec_trim(s, false)) == spec_parse_dbus_value(s),
{
    assert forall|k: int| 0 <= k < a.len() implies crate::text::trimmed(false, #[trigger] a[k]) by {
        assert(is_ws(a[k]));
    }
    assert forall|k: int| 0 <= k < b.len() implies crate::text::trimmed(false, #[trigger] b[k]) by {
        assert(is_ws(b[k]));
    }
    lemma_trim_padding(a, s, b, false);
    lemma_trim_idempotent(s, false);
}

/// The pseudo key of a wheel step: wheel up for a positive step, wheel down
/// otherwise.
pub open spec fn wheel_key(ev: InputEvent) -> u16 {
    if ev.value > 0 {
        crate::keys::WHEEL_UP
    } else {
        crate::keys::WHEEL_DOWN
    }
}

/// A wheel step (plain or high-resolution) whose direction the active layer
/// does not map under the held modifiers, neither exactly nor by fallback,
/// is sent on unchanged and changes nothing: scrolling in an unmapped
/// direction keeps working, for high-resolution clients too.
pub proof fn law_unmapped_wheel_passes_through(c: ConfigModel, st: StateModel, ev: InputEvent)
    requires
        ev.kind == crate::events::EV_REL,
        ev.code == crate::events::REL_WHEEL || ev.code == crate::events::REL_WHEEL_HI_RES,
        st.shift_trigger_key != Some(wheel_key(ev)),
        spec_lookup(
            c.layers[spec_active_layer(st) as int].mappings,
            wheel_key(ev),
            spec_modifier_index(st.held.to_set()),
        ) is None,
    ensures
        spec_process_key_event(c, st, ev) == (st, seq![CommandModel::Emit(ev)]),
        spec_step(c, st, LoopEventModel::DeviceEvent(ev)) == (st, seq![CommandModel::Emit(ev)]),
{
}

/// The high-resolution step of a wheel direction that the active layer maps
/// is dropped and changes nothing: the action runs on the plain step alone.
pub proof fn law_mapped_hires_wheel_is_dropped(c: ConfigModel, st: StateModel, ev: InputEvent)
    requires
        ev.kind == crate::events::EV_REL,
        ev.code == crate::events::REL_WHEEL_HI_RES,
        spec_lookup(
            c.layers[spec_active_layer(st) as int].mappings,
            wheel_key(ev),
            spec_modifier_index(st.held.to_set()),
        ) is Some,
    ensures
        spec_process_key_event(c, st, ev) == (st, Seq::<CommandModel>::empty()),
{
}

/// The modifier bit a trigger key sets: 1 for either shift key, 2 for
/// either ctrl key, 4 for either alt key.
pub open spec fn trigger_bit(m: u16) -> int {
    if m == crate::keys::KEY_LEFTSHIFT || m == crate::keys::KEY_RIGHTSHIFT {
        1
    } else if m == crate::keys::KEY_LEFTCTRL || m == crate::keys::KEY_RIGHTCTRL {
        2
    } else {
        4
    }
}

/// One of the six keys a trigger reads as a modifier.
pub open spec fn is_trigger_modifier(m: u16) -> bool {
    ||| m == crate::keys::KEY_LEFTSHIFT
    ||| m == crate::keys::KEY_RIGHTSHIFT
    ||| m == crate::keys::KEY_LEFTCTRL
    ||| m == crate::keys::KEY_RIGHTCTRL
    ||| m == crate::keys::KEY_LEFTALT
    ||| m == crate::keys::KEY_RIGHTALT
}

/// A trigger of one modifier key and one other key, in either order, is
/// that other key with the modifier's bit: the left and the right key of a
/// pair count the same.
pub proof fn law_trigger_modifier_bit(m_name: Seq<char>, k_name: Seq<char>, m: u16, k: u16)
    requires
        crate::parser::spec_parse_key(m_name) == Some(m),
        crate::parser::spec_parse_key(k_name) == Some(k),
        is_trigger_modifier(m),
        !is_trigger_modifier(k),
    ensures
        spec_parse_trigger(seq![m_name, k_name]) == Ok::<(u16, int), crate::parser::ConfigErrorModel>((k, trigger_bit(m))),
        spec_parse_trigger(seq![k_name, m_name]) == Ok::<(u16, int), crate::parser::ConfigErrorModel>((k, trigger_bit(m))),
{
    let a = seq![m_name, k_name];
    let b = seq![k_name, m_name];
    let bits = (crate::keys::is_shift(m), crate::keys::is_ctrl(m), crate::keys::is_alt(m));
    assert(crate::keys::is_shift(m) || crate::keys::is_ctrl(m) || crate::keys::is_alt(m));
    assert(!crate::keys::is_shift(k) && !crate::keys::is_ctrl(k) && !crate::keys::is_alt(k));
    assert(crate::keys::modifier_bits(bits.0, bits.1, bits.2) == trigger_bit(m));
    assert(a.drop_last() =~= seq![m_name]);
    assert(seq![m_name].drop_last() =~= Seq::<Seq<char>>::empty());
    assert(b.drop_last() =~= seq![k_name]);
    assert(seq![k_name].drop_last() =~= Seq::<Seq<char>>::empty());
    assert(crate::parser::trigger_scan(Seq::<Seq<char>>::empty()) == Ok::<(bool, bool, bool, Option<u16>), crate::parser::ConfigErrorModel>((false, false, false, None)));
    assert(seq![m_name].last() == m_name);
    assert(seq![k_name].last() == k_name);
    assert(a.last() == k_name);
    assert(b.last() == m_name);
    assert(crate::parser::trigger_scan(seq![m_name]) == Ok::<(bool, bool, bool, Option<u16>), crate::parser::ConfigErrorModel>((bits.0, bits.1, bits.2, None)));
    assert(crate::parser::trigger_scan(a) == Ok::<(bool, bool, bool, Option<u16>), crate::parser::ConfigErrorModel>((bits.0, bits.1, bits.2, Some(k))));
    assert(crate::parser::trigger_scan(seq![k_name]) == Ok::<(bool, bool, bool, Option<u16>), crate::parser::ConfigErrorModel>((false, false, false, Some(k))));
    assert(crate::parser::trigger_scan(b) == Ok::<(bool, bool, bool, Option<u16>), crate::parser::ConfigErrorModel>((bits.0, bits.1, bits.2, Some(k))));
}

/// A volume key asks on its press for exactly its own kind of change: the
/// focused application's volume for an application volume action, the
/// system volume for a volume action, with the action's direction and
/// amount; its repeats and release ask nothing; and the state stays.
pub proof fn law_volume_actions(
    c: ConfigModel,
    st: StateModel,
    direction: crate::config::VolumeDirection,
    percent: u32,
    value: i32,
    key: u16,
    held: Option<Seq<u16>>,
)
    ensures
        spec_handle_action(c, st, ActionModel::AppVolume { direction, percent }, 1, key, held)
            == (st, seq![CommandModel::AppVolume { direction, percent }]),
        spec_handle_action(c, st, ActionModel::Volume { direction, percent }, 1, key, held)
            == (st, seq![CommandModel::SystemVolume { direction, percent }]),
        value != 1 ==> spec_handle_action(c, st, ActionModel::AppVolume { direction, percent }, value, key, held)
            == (st, Seq::<CommandModel>::empty()),
        value != 1 ==> spec_handle_action(c, st, ActionModel::Volume { direction, percent }, value, key, held)
            == (st, Seq::<CommandModel>::empty()),
{
}

/// No action other than a volume action asks for a volume change.
pub proof fn law_only_volume_actions_change_volume(
    c: ConfigModel,
    st: StateModel,
    a: ActionModel,
    value: i32,
    key: u16,
    held: Option<Seq<u16>>,
)
    requires
        !(a is Volume),
        !(a is AppVolume),
    ensures
        forall|i: int|
            0 <= i < spec_handle_action(c, st, a, value, key, held).1.len() ==> {
                let cmd = #[trigger] spec_handle_action(c, st, a, value, key, held).1[i];
                !(cmd is SystemVolume) && !(cmd is AppVolume)
            },
{
    let cmds = spec_handle_action(c, st, a, value, key, held).1;
    assert forall|i: int| 0 <= i < cmds.len() implies !(#[trigger] cmds[i] is SystemVolume) && !(cmds[i] is AppVolume) by {
        match a {
            ActionModel::Key(combo) => {
                assert(cmds[i] == CommandModel::Emit(spec_combo_events(combo, value, held)[i]));
            },
            ActionModel::Macro { mode, steps } => {
                let cancel = if st.macros.contains(key) {
                    seq![CommandModel::CancelMacro { key }]
                } else {
                    Seq::empty()
                };
                if cancel.len() > 0 && i == 0 {
                    assert(cmds[i] is CancelMacro || cmds[i] is SpawnMacro);
                }
            },
            _ => {},
        }
    }
}

/// A macro that is not in hold mode does nothing on a repeat or a release:
/// a macro started once plays to its end whatever its key does, and a
/// toggled macro changes only on a press.
pub proof fn law_only_hold_macros_follow_release(
    c: ConfigModel,
    st: StateModel,
    mode: MacroMode,
    steps: Seq<StepModel>,
    value: i32,
    key: u16,
    held: Option<Seq<u16>>,
)
    requires
        mode != MacroMode::Hold,
        value != 1,
    ensures
        spec_handle_action(c, st, ActionModel::Macro { mode, steps }, value, key, held) == (st, Seq::<CommandModel>::empty()),
{
}

/// The base layer after a window change depends on the window only through
/// its class: its title, instance name and process do not matter.
pub proof fn law_base_layer_depends_on_class_only(
    c: ConfigModel,
    st: StateModel,
    w1: WindowModel,
    w2: WindowModel,
)
    requires
        w1.wm_class == w2.wm_class,
    ensures
        spec_update_base_layer(c, st, Some(w1)) == spec_update_base_layer(c, st, Some(w2)),
{
}

/// A window whose class has a profile naming an existing layer makes that
/// layer the base layer, and changes nothing else.
pub proof fn law_profile_picks_base_layer(c: ConfigModel, st: StateModel, w: WindowModel, i: int)
    requires
        c.profile_map.contains_key(w.wm_class),
        spec_find_layer(c, c.profile_map[w.wm_class]) == Some(i),
    ensures
        spec_update_base_layer(c, st, Some(w)) == (StateModel { current_layer: i as usize, ..st }),
{
}

} // verus!
