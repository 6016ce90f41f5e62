//! Macro playback: the events each step sends, and the releases owed at the
//! end for combinations still pressed. The event loop's task sends the
//! events, sleeps between steps and watches for cancellation.

use vstd::prelude::*;
use crate::config::{steps_view, ComboModel, KeyCombo, MacroStep, StepModel};
use crate::events::{build_combo_events, spec_combo_events, InputEvent};
use crate::keys::KeySet;

verus! {

/// "Has a main key other than `key`".
pub open spec fn other_key(key: u16) -> spec_fn(ComboModel) -> bool {
    |c: ComboModel| c.key != key
}

/// The combinations still pressed after the first `n` steps: a press step
/// adds its combination, a release step drops every pressed combination
/// with the same main key.
pub open spec fn pressed_after(steps: Seq<StepModel>, n: int) -> Seq<ComboModel>
    decreases n,
{
    if n <= 0 {
        Seq::empty()
    } else {
        let p = pressed_after(steps, n - 1);
        let s = steps[n - 1];
        if s.up {
            p.filter(other_key(s.combo.key))
        } else {
            p.push(s.combo)
        }
    }
}

/// The held modifiers a macro step adds: none when nothing was held.
pub open spec fn held_option(held: Seq<u16>) -> Option<Seq<u16>> {
    if held.len() == 0 {
        None
    } else {
        Some(held)
    }
}

/// The events of one step: its combination pressed, or released for a
/// release step.
pub open spec fn step_events(step: StepModel, held: Seq<u16>) -> Seq<InputEvent> {
    spec_combo_events(step.combo, if step.up { 0 } else { 1 }, held_option(held))
}

/// Releases of pressed combinations, the most recently pressed first.
pub open spec fn release_all(pressed: Seq<ComboModel>, held: Seq<u16>) -> Seq<InputEvent>
    decreases pressed.len(),
{
    if pressed.len() == 0 {
        Seq::empty()
    } else {
        spec_combo_events(pressed.last(), 0, held_option(held)) + release_all(
            pressed.drop_last(),
            held,
        )
    }
}

/// One run through a macro's steps.
pub struct MacroRunner {
    steps: Vec<MacroStep>,
    held: KeySet,
    next: usize,
    pressed: Vec<KeyCombo>,
}

impl MacroRunner {
    pub closed spec fn steps(&self) -> Seq<StepModel> {
        steps_view(self.steps@)
    }

    pub closed spec fn held(&self) -> Seq<u16> {
        self.held.seq()
    }

    /// How many steps have been played.
    pub closed spec fn played(&self) -> int {
        self.next as int
    }

    pub closed spec fn pressed(&self) -> Seq<ComboModel> {
        self.pressed@.map_values(|c: KeyCombo| c@)
    }

    pub closed spec fn wf(&self) -> bool {
        &&& self.next <= self.steps@.len()
        &&& self.pressed() == pressed_after(self.steps(), self.next as int)
    }

    /// A well-formed run has played at most its steps, and the combinations
    /// it holds pressed are those its played steps left pressed.
    pub proof fn lemma_pressed(&self)
        requires
            self.wf(),
        ensures
            0 <= self.played() <= self.steps().len(),
            self.pressed() == pressed_after(self.steps(), self.played()),
    {
    }

    /// A run of `steps` with the modifiers held when the macro started.
    pub fn new(steps: Vec<MacroStep>, held: KeySet) -> (r: Self)
        ensures
            r.wf(),
            r.steps() == steps_view(steps@),
            r.held() == held.seq(),
            r.played() == 0,
            r.pressed() == pressed_after(r.steps(), r.played()),
    {
        let r = MacroRunner { steps, held, next: 0, pressed: Vec::new() };
        proof {
            assert(r.pressed() =~= Seq::<ComboModel>::empty());
        }
        r
    }

    /// Whether every step has been played.
    pub fn is_done(&self) -> (b: bool)
        requires
            self.wf(),
        ensures
            b == (self.played() == self.steps().len()),
    {
        self.next >= self.steps.len()
    }

    /// Plays the next step: returns its events and the delay to wait after
    /// them.
    pub fn advance(&mut self) -> (r: (Vec<InputEvent>, u64))
        requires
            old(self).wf(),
            old(self).played() < old(self).steps().len(),
        ensures
            final(self).wf(),
            final(self).steps() == old(self).steps(),
            final(self).held() == old(self).held(),
            final(self).played() == old(self).played() + 1,
            final(self).pressed() == pressed_after(final(self).steps(), final(self).played()),
            r.0@ == step_events(old(self).steps()[old(self).played()], old(self).held()),
            r.1 == old(self).steps()[old(self).played()].delay_ms,
    {
        let ghost n = self.next as int;
        let count = self.steps.len();
        let step = &self.steps[self.next];
        proof {
            assert(self.steps()[n] == step@);
            assert(self.next < count);
        }
        let value: i32 = if step.up {
            0
        } else {
            1
        };
        let events = if self.held.is_empty() {
            build_combo_events(&step.combo, value, None)
        } else {
            build_combo_events(&step.combo, value, Some(&self.held))
        };
        let delay = step.delay_ms;
        let following = self.next + 1;
        if step.up {
            let key = step.combo.key;
            let mut kept: Vec<KeyCombo> = Vec::new();
            let ghost p = self.pressed();
            let ghost f = other_key(key);
            let mut i: usize = 0;
            while i < self.pressed.len()
                invariant
                    0 <= i <= self.pressed@.len(),
                    p == self.pressed@.map_values(|c: KeyCombo| c@),
                    f == other_key(key),
                    kept@.map_values(|c: KeyCombo| c@) == p.take(i as int).filter(f),
                decreases self.pressed@.len() - i,
            {
                let c = &self.pressed[i];
                proof {
                    assert(p.take(i + 1) =~= p.take(i as int).push(c@));
                    p.take(i as int).lemma_filter_push(c@, f);
                }
                if c.key != key {
                    let ghost prev = kept@;
                    let copy = c.clone();
                    kept.push(copy);
                    proof {
                        assert(kept@.map_values(|c: KeyCombo| c@) =~= prev.map_values(|c: KeyCombo| c@).push(c@));
                    }
                }
                i = i + 1;
            }
            proof {
                assert(p.take(p.len() as int) =~= p);
            }
            self.pressed = kept;
        } else {
            let ghost prev = self.pressed@;
            let copy = step.combo.clone();
            self.pressed.push(copy);
            proof {
                assert(self.pressed() =~= prev.map_values(|c: KeyCombo| c@).push(self.steps()[n].combo));
            }
        }
        self.next = following;
        (events, delay)
    }

    /// The releases owed for the combinations still pressed, the most
    /// recently pressed first.
    pub fn release_events(&self) -> (r: Vec<InputEvent>)
        requires
            self.wf(),
        ensures
            r@ == release_all(self.pressed(), self.held()),
    {
        let mut out: Vec<InputEvent> = Vec::new();
        let n = self.pressed.len();
        let ghost p = self.pressed();
        let mut i: usize = n;
        proof {
            assert(p.take(n as int) =~= p);
        }
        while i > 0
            invariant
                0 <= i <= n,
                n == self.pressed@.len(),
                p == self.pressed@.map_values(|c: KeyCombo| c@),
                out@ + release_all(p.take(i as int), self.held.seq()) == release_all(p, self.held.seq()),
            decreases i,
        {
            let combo = &self.pressed[i - 1];
            let events = if self.held.is_empty() {
                build_combo_events(combo, 0, None)
            } else {
                build_combo_events(combo, 0, Some(&self.held))
            };
            proof {
                assert(p.take(i as int).last() == combo@);
                assert(p.take(i as int).drop_last() =~= p.take(i - 1));
            }
            let ghost before = out@;
            let mut j: usize = 0;
            while j < events.len()
                invariant
                    0 <= j <= events@.len(),
                    out@ == before + events@.take(j as int),
                decreases events@.len() - j,
            {
                out.push(events[j]);
                proof {
                    assert(events@.take(j + 1) =~= events@.take(j as int).push(events@[j as int]));
                }
                j = j + 1;
            }
            proof {
                assert(events@.take(events@.len() as int) =~= events@);
                assert(out@ + release_all(p.take(i - 1), self.held.seq()) =~= before + release_all(p.take(i as int), self.held.seq()));
            }
            i = i - 1;
        }
        proof {
            assert(p.take(0) =~= Seq::<ComboModel>::empty());
            assert(out@ + Seq::<InputEvent>::empty() =~= out@);
        }
        out
    }
}

} // verus!
