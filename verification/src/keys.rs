//! Linux input key codes used by the remapper, the modifier bitmask, and an
//! insertion-ordered set of held key codes.

use vstd::prelude::*;

verus! {

/// Number of modifier combinations a mapping slot table holds: three bits,
/// SHIFT = 1, CTRL = 2, ALT = 4.
pub const MODIFIER_COUNT: usize = 8;

pub const KEY_LEFTCTRL: u16 = 29;
pub const KEY_A: u16 = 30;
pub const KEY_LEFTSHIFT: u16 = 42;
pub const KEY_RIGHTSHIFT: u16 = 54;
pub const KEY_LEFTALT: u16 = 56;
pub const KEY_RIGHTCTRL: u16 = 97;
pub const KEY_RIGHTALT: u16 = 100;
pub const KEY_LEFTMETA: u16 = 125;
pub const KEY_RIGHTMETA: u16 = 126;
pub const BTN_LEFT: u16 = 0x110;
pub const BTN_RIGHT: u16 = 0x111;
pub const BTN_MIDDLE: u16 = 0x112;
pub const BTN_SIDE: u16 = 0x113;
pub const BTN_EXTRA: u16 = 0x114;

/// Pseudo key emitted for a scroll-wheel step upwards (a code that no
/// physical key uses).
pub const WHEEL_UP: u16 = 0x2f0;
/// Pseudo key emitted for a scroll-wheel step downwards.
pub const WHEEL_DOWN: u16 = 0x2f1;

pub open spec fn is_shift(code: u16) -> bool {
    code == KEY_LEFTSHIFT || code == KEY_RIGHTSHIFT
}

pub open spec fn is_ctrl(code: u16) -> bool {
    code == KEY_LEFTCTRL || code == KEY_RIGHTCTRL
}

pub open spec fn is_alt(code: u16) -> bool {
    code == KEY_LEFTALT || code == KEY_RIGHTALT
}

pub open spec fn is_meta(code: u16) -> bool {
    code == KEY_LEFTMETA || code == KEY_RIGHTMETA
}

/// The eight modifier keys: both shifts, ctrls, alts and metas.
pub open spec fn spec_is_modifier_key(code: u16) -> bool {
    is_shift(code) || is_ctrl(code) || is_alt(code) || is_meta(code)
}

/// The modifier bitmask for the presence of shift, ctrl and alt.
pub open spec fn modifier_bits(shift: bool, ctrl: bool, alt: bool) -> int {
    (if shift { 1int } else { 0int }) + (if ctrl { 2int } else { 0int }) + (if alt { 4int } else { 0int })
}

/// The modifier bitmask of a set of held key codes (meta does not count).
pub open spec fn spec_modifier_index(held: Set<u16>) -> int {
    modifier_bits(
        held.contains(KEY_LEFTSHIFT) || held.contains(KEY_RIGHTSHIFT),
        held.contains(KEY_LEFTCTRL) || held.contains(KEY_RIGHTCTRL),
        held.contains(KEY_LEFTALT) || held.contains(KEY_RIGHTALT),
    )
}

/// Whether `code` is one of the eight modifier keys.
pub fn is_modifier_key(code: u16) -> (r: bool)
    ensures
        r == spec_is_modifier_key(code),
{
    code == KEY_LEFTCTRL || code == KEY_RIGHTCTRL || code == KEY_LEFTSHIFT || code
        == KEY_RIGHTSHIFT || code == KEY_LEFTALT || code == KEY_RIGHTALT || code == KEY_LEFTMETA
        || code == KEY_RIGHTMETA
}

/// The predicate "is not `code`".
pub open spec fn differs_from(code: u16) -> spec_fn(u16) -> bool {
    |c: u16| c != code
}

/// A set of key codes that remembers the order in which codes were added.
pub struct KeySet {
    codes: Vec<u16>,
}

impl View for KeySet {
    type V = Set<u16>;

    open spec fn view(&self) -> Set<u16> {
        self.seq().to_set()
    }
}

impl KeySet {
    /// The codes in the order they were added.
    pub closed spec fn seq(&self) -> Seq<u16> {
        self.codes@
    }

    /// No code occurs twice.
    pub closed spec fn wf(&self) -> bool {
        self.codes@.no_duplicates()
    }

    pub fn new() -> (s: Self)
        ensures
            s.wf(),
            s.seq() == Seq::<u16>::empty(),
            s@ == Set::<u16>::empty(),
    {
        let s = KeySet { codes: Vec::new() };
        proof {
            assert(s.codes@.to_set() =~= Set::<u16>::empty());
        }
        s
    }

    /// A set holding the same codes in the same order.
    pub fn duplicate(&self) -> (r: Self)
        ensures
            r.seq() == self.seq(),
            r@ == self@,
            r.wf() == self.wf(),
    {
        let codes = self.codes.clone();
        proof {
            assert(codes@ =~= self.codes@);
        }
        KeySet { codes }
    }

    pub fn len(&self) -> (n: usize)
        ensures
            n == self.seq().len(),
    {
        self.codes.len()
    }

    /// The code at position `i` in insertion order.
    pub fn get(&self, i: usize) -> (c: u16)
        requires
            i < self.seq().len(),
        ensures
            c == self.seq()[i as int],
    {
        self.codes[i]
    }

    pub fn is_empty(&self) -> (b: bool)
        ensures
            b == (self.seq().len() == 0),
    {
        self.codes.len() == 0
    }

    pub fn contains(&self, code: u16) -> (b: bool)
        ensures
            b == self@.contains(code),
            b == self.seq().contains(code),
    {
        let mut i: usize = 0;
        while i < self.codes.len()
            invariant
                0 <= i <= self.codes@.len(),
                forall|j: int| 0 <= j < i ==> self.codes@[j] != code,
            decreases self.codes@.len() - i,
        {
            if self.codes[i] == code {
                proof {
                    assert(self.codes@.to_set().contains(code));
                }
                return true;
            }
            i = i + 1;
        }
        proof {
            if self.codes@.to_set().contains(code) {
                assert(self.codes@.contains(code));
            }
        }
        false
    }

    /// Adds `code` at the end unless it is already present.
    pub fn insert(&mut self, code: u16)
        requires
            old(self).wf(),
        ensures
            final(self).wf(),
            final(self)@ == old(self)@.insert(code),
            old(self).seq().contains(code) ==> final(self).seq() == old(self).seq(),
            !old(self).seq().contains(code) ==> final(self).seq() == old(self).seq().push(code),
    {
        if !self.contains(code) {
            self.codes.push(code);
            proof {
                assert(self.codes@.to_set() =~= old(self).codes@.to_set().insert(code)) by {
                    assert forall|c: u16| self.codes@.to_set().contains(c) implies old(
                        self,
                    ).codes@.to_set().insert(code).contains(c) by {
                        if c != code {
                            let j = choose|j: int| 0 <= j < self.codes@.len() && self.codes@[j] == c;
                            assert(old(self).codes@[j] == c);
                        }
                    }
                    assert forall|c: u16| old(self).codes@.to_set().insert(code).contains(c) implies self.codes@.to_set().contains(c) by {
                        if c == code {
                            assert(self.codes@[self.codes@.len() - 1] == code);
                        } else {
                            let j = choose|j: int| 0 <= j < old(self).codes@.len() && old(self).codes@[j] == c;
                            assert(self.codes@[j] == c);
                        }
                    }
                }
            }
        } else {
            proof {
                assert(old(self)@.insert(code) =~= old(self)@);
            }
        }
    }

    /// Removes `code` if present, keeping the order of the others.
    pub fn remove(&mut self, code: u16)
        requires
            old(self).wf(),
        ensures
            final(self).wf(),
            final(self)@ == old(self)@.remove(code),
            final(self).seq() == old(self).seq().filter(differs_from(code)),
    {
        let ghost f = differs_from(code);
        let mut kept: Vec<u16> = Vec::new();
        let mut i: usize = 0;
        while i < self.codes.len()
            invariant
                0 <= i <= self.codes@.len(),
                self.codes@ == old(self).codes@,
                self.codes@.no_duplicates(),
                f == differs_from(code),
                kept@ == self.codes@.take(i as int).filter(f),
            decreases self.codes@.len() - i,
        {
            proof {
                assert(self.codes@.take(i + 1) =~= self.codes@.take(i as int).push(self.codes@[i as int]));
                self.codes@.take(i as int).lemma_filter_push(self.codes@[i as int], f);
            }
            let c = self.codes[i];
            if c != code {
                kept.push(c);
            }
            proof {
                if c != code {
                    assert(f(c));
                } else {
                    assert(!f(c));
                }
            }
            i = i + 1;
        }
        proof {
            assert(self.codes@.take(self.codes@.len() as int) =~= self.codes@);
            lemma_filter_no_dup_remove(self.codes@, code);
        }
        self.codes = kept;
    }
}

/// Filtering one value out of a duplicate-free sequence keeps it
/// duplicate-free and removes exactly that value from its set.
proof fn lemma_filter_no_dup_remove(s: Seq<u16>, code: u16)
    requires
        s.no_duplicates(),
    ensures
        s.filter(differs_from(code)).no_duplicates(),
        s.filter(differs_from(code)).to_set() == s.to_set().remove(code),
    decreases s.len(),
{
    let f = differs_from(code);
    broadcast use vstd::seq_lib::group_seq_properties;
    if s.len() == 0 {
        assert(s.to_set() =~= Set::<u16>::empty());
        assert(s.filter(f) =~= Seq::<u16>::empty());
        assert(s.filter(f).to_set() =~= Set::<u16>::empty());
    } else {
        let init = s.drop_last();
        let last = s.last();
        assert(s =~= init.push(last));
        assert(init.no_duplicates());
        lemma_filter_no_dup_remove(init, code);
        init.lemma_filter_push(last, f);
        assert(!init.contains(last));
        assert(s.to_set() =~= init.to_set().insert(last));
        if last != code {
            if init.filter(f).contains(last) {
                init.lemma_filter_contains_rev(f, last);
            }
            assert(s.filter(f).to_set() =~= init.filter(f).to_set().insert(last));
        }
        assert(s.filter(f).to_set() =~= s.to_set().remove(code));
    }
}

/// The modifier bitmask (SHIFT = 1, CTRL = 2, ALT = 4) of the held keys.
pub fn compute_modifier_index(held: &KeySet) -> (index: usize)
    ensures
        index == spec_modifier_index(held@),
        index < MODIFIER_COUNT,
{
    let mut index: usize = 0;
    if held.contains(KEY_LEFTSHIFT) || held.contains(KEY_RIGHTSHIFT) {
        index = index + 1;
    }
    if held.contains(KEY_LEFTCTRL) || held.contains(KEY_RIGHTCTRL) {
        index = index + 2;
    }
    if held.contains(KEY_LEFTALT) || held.contains(KEY_RIGHTALT) {
        index = index + 4;
    }
    index
}

} // verus!
