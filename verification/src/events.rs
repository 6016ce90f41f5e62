//! Input events as plain values, their classification, and the key event
//! sequences that press or release a key combination.

use vstd::prelude::*;
use crate::config::{ComboModel, KeyCombo};
use crate::keys::{KeySet, BTN_EXTRA, BTN_LEFT, BTN_MIDDLE, BTN_RIGHT, BTN_SIDE, WHEEL_DOWN, WHEEL_UP};

verus! {

/// Event type of key and button events.
pub const EV_KEY: u16 = 0x01;
/// Event type of relative axis events (mouse motion, wheels).
pub const EV_REL: u16 = 0x02;
/// Event type of absolute axis events (touchpads, tablets).
pub const EV_ABS: u16 = 0x03;

pub const REL_X: u16 = 0x00;
pub const REL_WHEEL: u16 = 0x08;
pub const REL_WHEEL_HI_RES: u16 = 0x0b;

/// One input event: its type, code and value.
#[derive(Clone, Copy, PartialEq, Eq, Structural, Debug)]
pub struct InputEvent {
    pub kind: u16,
    pub code: u16,
    pub value: i32,
}

/// A key event of the given code and value.
pub open spec fn key_event(code: u16, value: i32) -> InputEvent {
    InputEvent { kind: EV_KEY, code, value }
}

pub open spec fn spec_is_wheel(ev: InputEvent) -> bool {
    ev.kind == EV_REL && (ev.code == REL_WHEEL || ev.code == REL_WHEEL_HI_RES)
}

pub open spec fn spec_should_passthrough(ev: InputEvent) -> bool {
    ev.kind != EV_KEY && !spec_is_wheel(ev)
}

pub open spec fn spec_resolve_key(ev: InputEvent) -> u16 {
    if spec_is_wheel(ev) {
        if ev.value > 0 {
            WHEEL_UP
        } else {
            WHEEL_DOWN
        }
    } else {
        ev.code
    }
}

pub open spec fn spec_resolve_value(ev: InputEvent) -> i32 {
    if spec_is_wheel(ev) {
        1
    } else {
        ev.value
    }
}

pub open spec fn spec_should_skip_event_on_action(ev: InputEvent) -> bool {
    ev.kind == EV_REL && ev.code == REL_WHEEL_HI_RES
}

pub open spec fn spec_is_mouse_event(ev: InputEvent) -> bool {
    ev.kind == EV_REL || (ev.kind == EV_KEY && BTN_LEFT <= ev.code <= BTN_EXTRA)
}

fn is_wheel(ev: &InputEvent) -> (r: bool)
    ensures
        r == spec_is_wheel(*ev),
{
    ev.kind == EV_REL && (ev.code == REL_WHEEL || ev.code == REL_WHEEL_HI_RES)
}

/// Whether the event bypasses remapping: everything but key events and
/// scroll-wheel steps.
pub fn should_passthrough(ev: &InputEvent) -> (r: bool)
    ensures
        r == spec_should_passthrough(*ev),
{
    if ev.kind == EV_KEY {
        return false;
    }
    if is_wheel(ev) {
        return false;
    }
    true
}

/// The key an event stands for: a wheel step becomes the pseudo key of its
/// direction, anything else keeps its code.
pub fn resolve_key(ev: &InputEvent) -> (r: u16)
    ensures
        r == spec_resolve_key(*ev),
{
    if is_wheel(ev) {
        if ev.value > 0 {
            WHEEL_UP
        } else {
            WHEEL_DOWN
        }
    } else {
        ev.code
    }
}

/// The key value an event stands for: a wheel step is a press.
pub fn resolve_value(ev: &InputEvent) -> (r: i32)
    ensures
        r == spec_resolve_value(*ev),
{
    if is_wheel(ev) {
        1
    } else {
        ev.value
    }
}

/// High-resolution wheel events are dropped when the wheel step is mapped,
/// so that one step does not fire the action twice.
pub fn should_skip_event_on_action(ev: &InputEvent) -> (r: bool)
    ensures
        r == spec_should_skip_event_on_action(*ev),
{
    ev.kind == EV_REL && ev.code == REL_WHEEL_HI_RES
}

/// Whether the virtual mouse (rather than the virtual keyboard) emits the
/// event: relative motion and the five mouse buttons.
pub fn is_mouse_event(ev: &InputEvent) -> (r: bool)
    ensures
        r == spec_is_mouse_event(*ev),
{
    match ev.kind {
        EV_REL => true,
        EV_KEY => ev.code == BTN_LEFT || ev.code == BTN_RIGHT || ev.code == BTN_MIDDLE || ev.code
            == BTN_SIDE || ev.code == BTN_EXTRA,
        _ => false,
    }
}

/// Splits a batch into the keyboard part and the mouse part, each in the
/// batch's order.
pub fn split_by_device(events: &[InputEvent]) -> (r: (Vec<InputEvent>, Vec<InputEvent>))
    ensures
        r.0@ == events@.filter(|e: InputEvent| !spec_is_mouse_event(e)),
        r.1@ == events@.filter(|e: InputEvent| spec_is_mouse_event(e)),
{
    let ghost kf = |e: InputEvent| !spec_is_mouse_event(e);
    let ghost mf = |e: InputEvent| spec_is_mouse_event(e);
    let mut keyboard: Vec<InputEvent> = Vec::new();
    let mut mouse: Vec<InputEvent> = Vec::new();
    let mut i: usize = 0;
    while i < events.len()
        invariant
            0 <= i <= events@.len(),
            kf == (|e: InputEvent| !spec_is_mouse_event(e)),
            mf == (|e: InputEvent| spec_is_mouse_event(e)),
            keyboard@ == events@.take(i as int).filter(kf),
            mouse@ == events@.take(i as int).filter(mf),
        decreases events@.len() - i,
    {
        let ev = events[i];
        proof {
            assert(events@.take(i + 1) =~= events@.take(i as int).push(ev));
            events@.take(i as int).lemma_filter_push(ev, kf);
            events@.take(i as int).lemma_filter_push(ev, mf);
        }
        if is_mouse_event(&ev) {
            mouse.push(ev);
        } else {
            keyboard.push(ev);
        }
        i = i + 1;
    }
    proof {
        assert(events@.take(events@.len() as int) =~= events@);
    }
    (keyboard, mouse)
}

/// Held keys that a combination does not already hold.
pub open spec fn extra_held(combo: ComboModel, held: Option<Seq<u16>>) -> Seq<u16> {
    match held {
        Some(h) => h.filter(|c: u16| !combo.modifiers.contains(c)),
        None => Seq::empty(),
    }
}

pub open spec fn key_events(codes: Seq<u16>, value: i32) -> Seq<InputEvent> {
    codes.map_values(|c: u16| key_event(c, value))
}

/// The events for a combination: a press (value 1) presses the extra held
/// keys, then the modifiers, then the main key; a repeat (value 2) repeats
/// the main key and leaves the combination held; anything else releases the
/// main key, then the modifiers in reverse order, then the extra held keys.
pub open spec fn spec_combo_events(
    combo: ComboModel,
    value: i32,
    held: Option<Seq<u16>>,
) -> Seq<InputEvent> {
    let extra = extra_held(combo, held);
    if value == 1 {
        key_events(extra, 1) + key_events(combo.modifiers, 1) + seq![key_event(combo.key, 1)]
    } else if value == 2 {
        seq![key_event(combo.key, 2)]
    } else {
        seq![key_event(combo.key, 0)] + key_events(combo.modifiers.reverse(), 0) + key_events(
            extra,
            0,
        )
    }
}

fn contains_code(v: &Vec<u16>, code: u16) -> (r: bool)
    ensures
        r == v@.contains(code),
{
    let mut i: usize = 0;
    while i < v.len()
        invariant
            0 <= i <= v@.len(),
            forall|j: int| 0 <= j < i ==> v@[j] != code,
        decreases v@.len() - i,
    {
        if v[i] == code {
            return true;
        }
        i = i + 1;
    }
    false
}

/// Appends one key event per held key that the combination does not hold.
fn push_extra_held(events: &mut Vec<InputEvent>, combo: &KeyCombo, held: &KeySet, value: i32)
    ensures
        final(events)@ == old(events)@ + key_events(extra_held(combo@, Some(held.seq())), value),
{
    let ghost f = |c: u16| !combo@.modifiers.contains(c);
    let ghost start = events@;
    let mut i: usize = 0;
    while i < held.len()
        invariant
            0 <= i <= held.seq().len(),
            f == (|c: u16| !combo@.modifiers.contains(c)),
            events@ == start + key_events(held.seq().take(i as int).filter(f), value),
        decreases held.seq().len() - i,
    {
        let code = held.get(i);
        proof {
            assert(held.seq().take(i + 1) =~= held.seq().take(i as int).push(code));
            held.seq().take(i as int).lemma_filter_push(code, f);
        }
        if !contains_code(&combo.modifiers, code) {
            events.push(InputEvent { kind: EV_KEY, code, value });
            proof {
                let s = held.seq().take(i as int).filter(f);
                assert(key_events(s.push(code), value) =~= key_events(s, value).push(
                    key_event(code, value),
                ));
            }
        }
        i = i + 1;
    }
    proof {
        assert(held.seq().take(held.seq().len() as int) =~= held.seq());
    }
}

/// The key events that press (`value` 1), repeat (`value` 2) or release (any
/// other value) a combination, with the extra held keys when `held` is given.
pub fn build_combo_events(combo: &KeyCombo, value: i32, held: Option<&KeySet>) -> (r: Vec<InputEvent>)
    ensures
        r@ == spec_combo_events(
            combo@,
            value,
            match held {
                Some(h) => Some(h.seq()),
                None => None,
            },
        ),
{
    let ghost hs = match held {
        Some(h) => Some(h.seq()),
        None => None::<Seq<u16>>,
    };
    let ghost extra = extra_held(combo@, hs);
    let mut events: Vec<InputEvent> = Vec::new();
    if value == 1 {
        match held {
            Some(h) => push_extra_held(&mut events, combo, h, 1),
            None => {},
        }
        assert(events@ =~= key_events(extra, 1));
        let mut i: usize = 0;
        while i < combo.modifiers.len()
            invariant
                0 <= i <= combo.modifiers@.len(),
                events@ == key_events(extra, 1) + key_events(combo.modifiers@.take(i as int), 1),
            decreases combo.modifiers@.len() - i,
        {
            events.push(InputEvent { kind: EV_KEY, code: combo.modifiers[i], value: 1 });
            proof {
                assert(key_events(combo.modifiers@.take(i + 1), 1) =~= key_events(
                    combo.modifiers@.take(i as int),
                    1,
                ).push(key_event(combo.modifiers@[i as int], 1)));
                assert(events@ =~= key_events(extra, 1) + key_events(
                    combo.modifiers@.take(i + 1),
                    1,
                ));
            }
            i = i + 1;
        }
        events.push(InputEvent { kind: EV_KEY, code: combo.key, value: 1 });
        proof {
            assert(combo.modifiers@.take(combo.modifiers@.len() as int) =~= combo.modifiers@);
            assert(events@ =~= spec_combo_events(combo@, value, hs));
        }
    } else if value == 2 {
        events.push(InputEvent { kind: EV_KEY, code: combo.key, value: 2 });
        proof {
            assert(events@ =~= spec_combo_events(combo@, value, hs));
        }
    } else {
        events.push(InputEvent { kind: EV_KEY, code: combo.key, value: 0 });
        let n = combo.modifiers.len();
        let mut i: usize = 0;
        while i < n
            invariant
                0 <= i <= n,
                n == combo.modifiers@.len(),
                events@ == seq![key_event(combo.key, 0)] + key_events(
                    combo.modifiers@.reverse().take(i as int),
                    0,
                ),
            decreases n - i,
        {
            events.push(InputEvent { kind: EV_KEY, code: combo.modifiers[n - 1 - i], value: 0 });
            proof {
                let rv = combo.modifiers@.reverse();
                assert(rv[i as int] == combo.modifiers@[n - 1 - i]);
                assert(key_events(rv.take(i + 1), 0) =~= key_events(rv.take(i as int), 0).push(
                    key_event(rv[i as int], 0),
                ));
                assert(events@ =~= seq![key_event(combo.key, 0)] + key_events(rv.take(i + 1), 0));
            }
            i = i + 1;
        }
        proof {
            assert(combo.modifiers@.reverse().take(n as int) =~= combo.modifiers@.reverse());
        }
        let ghost mid = events@;
        match held {
            Some(h) => push_extra_held(&mut events, combo, h, 0),
            None => {},
        }
        proof {
            assert(events@ =~= mid + key_events(extra, 0));
            assert(events@ =~= spec_combo_events(combo@, value, hs));
        }
    }
    events
}

} // verus!
