//! Which input devices to grab, and whether a device is a keyboard or a
//! mouse, from the capabilities the device reports.

use vstd::prelude::*;
use crate::config::names_view;
use crate::text::{contains, lowercase_chars, spec_contains, str_lowercase};
use crate::events::{key_event, spec_is_mouse_event};
use crate::keys::spec_is_modifier_key;

verus! {

/// Whether a device can send `KEY_A` and `BTN_LEFT`.
#[derive(Clone, Copy, PartialEq, Eq, Structural, Debug)]
pub struct KeySupport {
    pub key_a: bool,
    pub btn_left: bool,
}

/// What the remapper reads of an input device: its name, its keys (none
/// when it reports no key capability), whether it reports the multitouch
/// X position (touchpads), and whether it reports relative X motion (mice).
pub struct DeviceCaps {
    pub name: Option<String>,
    pub keys: Option<KeySupport>,
    pub abs_mt_position_x: bool,
    pub rel_x: bool,
}

pub struct DeviceCapsModel {
    pub name: Option<Seq<char>>,
    pub keys: Option<KeySupport>,
    pub abs_mt_position_x: bool,
    pub rel_x: bool,
}

impl View for DeviceCaps {
    type V = DeviceCapsModel;

    open spec fn view(&self) -> DeviceCapsModel {
        DeviceCapsModel {
            name: match &self.name {
                Some(n) => Some(n@),
                None => None,
            },
            keys: self.keys,
            abs_mt_position_x: self.abs_mt_position_x,
            rel_x: self.rel_x,
        }
    }
}

/// A device is grabbed when its lowercased name (empty when it has none)
/// contains one of the lowercased configured names (any name passes when
/// none is configured), it has `KEY_A` or `BTN_LEFT`, and it is not a
/// touchpad.
pub open spec fn spec_should_grab(caps: DeviceCapsModel, device_names: Seq<Seq<char>>) -> bool {
    let name = str_lowercase(
        match caps.name {
            Some(n) => n,
            None => Seq::empty(),
        },
    );
    &&& (device_names.len() == 0 || exists|i: int|
        0 <= i < device_names.len() && spec_contains(name, str_lowercase(#[trigger] device_names[i])))
    &&& caps.keys matches Some(k) && (k.key_a || k.btn_left)
    &&& !caps.abs_mt_position_x
}

/// Whether to grab a device (see `spec_should_grab`).
pub fn should_grab(caps: &DeviceCaps, device_names: &Vec<String>) -> (r: bool)
    ensures
        r == spec_should_grab(caps@, names_view(device_names@)),
{
    let ghost names = names_view(device_names@);
    let name = match &caps.name {
        Some(n) => lowercase_chars(n.as_str()),
        None => lowercase_chars(""),
    };
    proof {
        assert(""@ =~= Seq::<char>::empty()) by {
            reveal_strlit("");
        }
    }
    if device_names.len() != 0 {
        let mut found = false;
        let mut i: usize = 0;
        while i < device_names.len()
            invariant
                0 <= i <= device_names@.len(),
                names == names_view(device_names@),
                found == exists|j: int| 0 <= j < i && spec_contains(name@, str_lowercase(#[trigger] names[j])),
            decreases device_names@.len() - i,
        {
            let pattern = lowercase_chars(device_names[i].as_str());
            proof {
                assert(names[i as int] == device_names@[i as int]@);
            }
            if contains(name.as_slice(), pattern.as_slice()) {
                found = true;
            }
            i = i + 1;
        }
        if !found {
            return false;
        }
    }
    let supported = match caps.keys {
        Some(k) => k,
        None => return false,
    };
    if !supported.key_a && !supported.btn_left {
        return false;
    }
    if caps.abs_mt_position_x {
        return false;
    }
    true
}

#[derive(Clone, Copy, PartialEq, Eq, Structural, Debug)]
pub enum DeviceKind {
    Keyboard,
    Mouse,
}

/// A device with relative X motion is a mouse; anything else a keyboard.
pub fn device_kind(caps: &DeviceCaps) -> (k: DeviceKind)
    ensures
        k == (if caps.rel_x {
            DeviceKind::Mouse
        } else {
            DeviceKind::Keyboard
        }),
{
    if caps.rel_x {
        DeviceKind::Mouse
    } else {
        DeviceKind::Keyboard
    }
}

/// Whether the virtual keyboard can send a Linux key code: Esc, the main
/// block (digits, letters, punctuation, Enter, Backspace, Tab, Space, Caps
/// Lock, the left-hand modifiers), F1 to F10, Num Lock, Scroll Lock and
/// most of the keypad (1 to 83); F11 and F12; keypad Enter, right Ctrl and
/// keypad slash; right Alt; Home to Delete with the arrows (102 to 111);
/// mute and volume down and up; the meta keys; next, play/pause, previous;
/// F13 to F24.
pub open spec fn is_keyboard_output(c: int) -> bool {
    ||| 1 <= c <= 83
    ||| c == 87 || c == 88
    ||| 96 <= c <= 98
    ||| c == 100
    ||| 102 <= c <= 111
    ||| 113 <= c <= 115
    ||| c == 125 || c == 126
    ||| 163 <= c <= 165
    ||| 183 <= c <= 194
}

/// `x` held within `lo..=hi`.
pub open spec fn clamp(x: int, lo: int, hi: int) -> int {
    if x < lo {
        lo
    } else if x > hi {
        hi
    } else {
        x
    }
}

/// How many codes below `c` the virtual keyboard can send.
pub open spec fn keyboard_outputs_below(c: int) -> int {
    (clamp(c, 1, 84) - 1) + (clamp(c, 87, 89) - 87) + (clamp(c, 96, 99) - 96) + (clamp(c, 100, 101)
        - 100) + (clamp(c, 102, 112) - 102) + (clamp(c, 113, 116) - 113) + (clamp(c, 125, 127) - 125)
        + (clamp(c, 163, 166) - 163) + (clamp(c, 183, 195) - 183)
}

fn keyboard_output(c: u16) -> (r: bool)
    ensures
        r == is_keyboard_output(c as int),
{
    (1 <= c && c <= 83) || c == 87 || c == 88 || (96 <= c && c <= 98) || c == 100 || (102 <= c && c
        <= 111) || (113 <= c && c <= 115) || c == 125 || c == 126 || (163 <= c && c <= 165) || (183
        <= c && c <= 194)
}

/// The keys of the virtual keyboard, in ascending order: each code it can
/// send once, the modifiers among them, and no mouse button.
pub fn keyboard_output_keys() -> (r: Vec<u16>)
    ensures
        forall|c: u16| r@.contains(c) <==> is_keyboard_output(c as int),
        forall|i: int, j: int| 0 <= i < j < r@.len() ==> r@[i] < r@[j],
        r@.no_duplicates(),
        r@.len() == 119,
        forall|c: u16| spec_is_modifier_key(c) ==> r@.contains(c),
        forall|i: int| 0 <= i < r@.len() ==> !spec_is_mouse_event(#[trigger] key_event(r@[i], 1)),
{
    let mut r: Vec<u16> = Vec::new();
    let mut c: u16 = 0;
    while c < 195
        invariant
            c <= 195,
            r@.len() == keyboard_outputs_below(c as int),
            forall|i: int| 0 <= i < r@.len() ==> is_keyboard_output(#[trigger] r@[i] as int) && r@[i] < c,
            forall|i: int, j: int| 0 <= i < j < r@.len() ==> r@[i] < r@[j],
            forall|d: u16| d < c && is_keyboard_output(d as int) ==> r@.contains(d),
        decreases 195 - c,
    {
        if keyboard_output(c) {
            let ghost prev = r@;
            r.push(c);
            proof {
                assert forall|d: u16| d < c + 1 && is_keyboard_output(d as int) implies r@.contains(d) by {
                    if d == c {
                        assert(r@[prev.len() as int] == d);
                    } else {
                        let k = choose|k: int| 0 <= k < prev.len() && prev[k] == d;
                        assert(r@[k] == d);
                    }
                }
            }
        } else {
            proof {
                assert forall|d: u16| d < c + 1 && is_keyboard_output(d as int) implies r@.contains(d) by {
                    assert(d != c);
                }
            }
        }
        c = c + 1;
    }
    proof {
        assert forall|d: u16| r@.contains(d) implies is_keyboard_output(d as int) by {
            let k = choose|k: int| 0 <= k < r@.len() && r@[k] == d;
        }
        assert forall|d: u16| spec_is_modifier_key(d) implies r@.contains(d) by {
            assert(is_keyboard_output(d as int));
        }
        assert forall|i: int| 0 <= i < r@.len() implies !spec_is_mouse_event(#[trigger] key_event(r@[i], 1)) by {
            assert(r@[i] < 195);
        }
        assert forall|i: int, j: int| 0 <= i < r@.len() && 0 <= j < r@.len() && i != j implies r@[i] != r@[j] by {
            if i < j {
                assert(r@[i] < r@[j]);
            } else {
                assert(r@[j] < r@[i]);
            }
        }
    }
    r
}

} // verus!
