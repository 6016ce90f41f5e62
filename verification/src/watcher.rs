//! The focused window as the window watchers report it, the reading of
//! `dbus-monitor` output for KWin's window activations, and the choice of
//! watcher for the desktop environment.

use vstd::prelude::*;
use crate::text::{
    contains, lowercase_chars, parse_u32, spec_contains, spec_parse_u32, spec_starts_with,
    spec_trim, spec_trim_end, starts_with, str_chars, str_lowercase, string_from_chars,
    sub_chars, trim, trim_end, decimal_chars, u32_to_decimal,
};

verus! {

/// The focused window: its title, class, class instance and process id.
pub struct WindowInfo {
    pub title: String,
    pub wm_class: String,
    pub wm_class_instance: String,
    pub pid: u32,
}

pub struct WindowModel {
    pub title: Seq<char>,
    pub wm_class: Seq<char>,
    pub wm_class_instance: Seq<char>,
    pub pid: u32,
}

impl View for WindowInfo {
    type V = WindowModel;

    open spec fn view(&self) -> WindowModel {
        WindowModel {
            title: self.title@,
            wm_class: self.wm_class@,
            wm_class_instance: self.wm_class_instance@,
            pid: self.pid,
        }
    }
}

impl Clone for WindowInfo {
    fn clone(&self) -> (r: Self)
        ensures
            r@ == self@,
    {
        WindowInfo {
            title: self.title.clone(),
            wm_class: self.wm_class.clone(),
            wm_class_instance: self.wm_class_instance.clone(),
            pid: self.pid,
        }
    }
}


/// A value on a `dbus-monitor` argument line: the text of `string "..."`
/// without trailing quotes, or the number of `uint32 ...` / `int32 ...`.
pub open spec fn spec_parse_dbus_value(line: Seq<char>) -> Option<Seq<char>> {
    let t = spec_trim(line, false);
    if spec_starts_with(t, "string \""@) {
        Some(spec_trim_end(t.subrange("string \""@.len() as int, t.len() as int), true))
    } else if spec_starts_with(t, "uint32 "@) {
        Some(spec_trim(t.subrange("uint32 "@.len() as int, t.len() as int), false))
    } else if spec_starts_with(t, "int32 "@) {
        Some(spec_trim(t.subrange("int32 "@.len() as int, t.len() as int), false))
    } else {
        None
    }
}

fn dbus_value_chars(line: &[char]) -> (r: Option<Vec<char>>)
    ensures
        match r {
            Some(v) => spec_parse_dbus_value(line@) == Some(v@),
            None => spec_parse_dbus_value(line@) is None,
        },
{
    let t = trim(line, false);
    let string_prefix = str_chars("string \"");
    let uint_prefix = str_chars("uint32 ");
    let int_prefix = str_chars("int32 ");
    let n = t.len();
    if starts_with(t.as_slice(), string_prefix.as_slice()) {
        let rest = sub_chars(t.as_slice(), string_prefix.len(), n);
        return Some(trim_end(rest.as_slice(), true));
    }
    if starts_with(t.as_slice(), uint_prefix.as_slice()) {
        let rest = sub_chars(t.as_slice(), uint_prefix.len(), n);
        return Some(trim(rest.as_slice(), false));
    }
    if starts_with(t.as_slice(), int_prefix.as_slice()) {
        let rest = sub_chars(t.as_slice(), int_prefix.len(), n);
        return Some(trim(rest.as_slice(), false));
    }
    None
}

/// Reads the value of a `dbus-monitor` argument line (see
/// `spec_parse_dbus_value`).
pub fn parse_dbus_value(line: &str) -> (r: Option<String>)
    ensures
        match r {
            Some(v) => spec_parse_dbus_value(line@) == Some(v@),
            None => spec_parse_dbus_value(line@) is None,
        },
{
    let chars = str_chars(line);
    match dbus_value_chars(chars.as_slice()) {
        Some(v) => Some(string_from_chars(v.as_slice())),
        None => None,
    }
}

/// What has been read of the current window activation signal.
pub struct KdeMonitor {
    pub caption: String,
    pub resource_class: String,
    pub resource_name: String,
    pub field: usize,
}

pub struct KdeModel {
    pub caption: Seq<char>,
    pub resource_class: Seq<char>,
    pub resource_name: Seq<char>,
    pub field: usize,
}

impl View for KdeMonitor {
    type V = KdeModel;

    open spec fn view(&self) -> KdeModel {
        KdeModel {
            caption: self.caption@,
            resource_class: self.resource_class@,
            resource_name: self.resource_name@,
            field: self.field,
        }
    }
}

pub open spec fn activation_marker() -> Seq<char> {
    "member=windowActivated"@
}

/// One line of `dbus-monitor` output: the signal's header line starts a new
/// activation; its four argument values are, in order, the caption, the
/// resource class, the resource name and the process id (zero when it does
/// not parse), and the fourth completes the window.
pub open spec fn spec_feed(st: KdeModel, line: Seq<char>) -> (KdeModel, Option<WindowModel>) {
    let t = spec_trim(line, false);
    if spec_contains(t, activation_marker()) {
        (KdeModel { caption: Seq::empty(), resource_class: Seq::empty(), resource_name: Seq::empty(), field: 0 }, None)
    } else {
        match spec_parse_dbus_value(t) {
            None => (st, None),
            Some(v) => if st.field == 0 {
                (KdeModel { caption: v, field: 1, ..st }, None)
            } else if st.field == 1 {
                (KdeModel { resource_class: v, field: 2, ..st }, None)
            } else if st.field == 2 {
                (KdeModel { resource_name: v, field: 3, ..st }, None)
            } else {
                (
                    KdeModel { field: 0, ..st },
                    Some(
                        WindowModel {
                            title: st.caption,
                            wm_class: st.resource_class,
                            wm_class_instance: st.resource_name,
                            pid: match spec_parse_u32(v) {
                                Some(p) => p,
                                None => 0,
                            },
                        },
                    ),
                )
            },
        }
    }
}

impl KdeMonitor {
    pub open spec fn wf(&self) -> bool {
        self.field <= 3
    }

    pub fn new() -> (m: Self)
        ensures
            m.wf(),
            m@.caption == Seq::<char>::empty(),
            m@.resource_class == Seq::<char>::empty(),
            m@.resource_name == Seq::<char>::empty(),
            m@.field == 0,
    {
        KdeMonitor {
            caption: String::new(),
            resource_class: String::new(),
            resource_name: String::new(),
            field: 0,
        }
    }

    /// Reads one line; returns the window when a signal is complete (see
    /// `spec_feed`).
    pub fn feed(&mut self, line: &str) -> (r: Option<WindowInfo>)
        requires
            old(self).wf(),
        ensures
            final(self).wf(),
            ({
                let (st, w) = spec_feed(old(self)@, line@);
                &&& final(self)@ == st
                &&& match r {
                    Some(info) => w == Some(info@),
                    None => w is None,
                }
            }),
    {
        let raw = str_chars(line);
        let t = trim(raw.as_slice(), false);
        let marker = str_chars("member=windowActivated");
        if contains(t.as_slice(), marker.as_slice()) {
            self.caption = String::new();
            self.resource_class = String::new();
            self.resource_name = String::new();
            self.field = 0;
            return None;
        }
        proof {
            crate::text::lemma_trim_idempotent(raw@, false);
        }
        match dbus_value_chars(t.as_slice()) {
            None => None,
            Some(v) => {
                if self.field == 0 {
                    self.caption = string_from_chars(v.as_slice());
                    self.field = 1;
                    None
                } else if self.field == 1 {
                    self.resource_class = string_from_chars(v.as_slice());
                    self.field = 2;
                    None
                } else if self.field == 2 {
                    self.resource_name = string_from_chars(v.as_slice());
                    self.field = 3;
                    None
                } else {
                    let pid = match parse_u32(v.as_slice()) {
                        Some(p) => p,
                        None => 0,
                    };
                    let info = WindowInfo {
                        title: self.caption.clone(),
                        wm_class: self.resource_class.clone(),
                        wm_class_instance: self.resource_name.clone(),
                        pid,
                    };
                    self.field = 0;
                    Some(info)
                }
            },
        }
    }
}

/// The desktop environments with a window watcher.
#[derive(Clone, Copy, PartialEq, Eq, Structural, Debug)]
pub enum DesktopEnvironment {
    Kde,
    Gnome,
}

/// KDE when the lowercased `XDG_CURRENT_DESKTOP` names KDE or Plasma; GNOME
/// when it names GNOME, Unity or Pop; otherwise KDE when the lowercased
/// `DESKTOP_SESSION` names Plasma or KDE, else GNOME.
pub open spec fn spec_detect_desktop(xdg: Seq<char>, session: Seq<char>) -> DesktopEnvironment {
    let x = str_lowercase(xdg);
    let s = str_lowercase(session);
    if spec_contains(x, "kde"@) || spec_contains(x, "plasma"@) {
        DesktopEnvironment::Kde
    } else if spec_contains(x, "gnome"@) || spec_contains(x, "unity"@) || spec_contains(x, "pop"@) {
        DesktopEnvironment::Gnome
    } else if spec_contains(s, "plasma"@) || spec_contains(s, "kde"@) {
        DesktopEnvironment::Kde
    } else {
        DesktopEnvironment::Gnome
    }
}

/// Chooses the window watcher from the desktop variables (see
/// `spec_detect_desktop`); unset variables are passed as empty strings.
pub fn detect_desktop(xdg_current_desktop: &str, desktop_session: &str) -> (r: DesktopEnvironment)
    ensures
        r == spec_detect_desktop(xdg_current_desktop@, desktop_session@),
{
    let x = lowercase_chars(xdg_current_desktop);
    let kde = str_chars("kde");
    let plasma = str_chars("plasma");
    if contains(x.as_slice(), kde.as_slice()) || contains(x.as_slice(), plasma.as_slice()) {
        return DesktopEnvironment::Kde;
    }
    let gnome = str_chars("gnome");
    let unity = str_chars("unity");
    let pop = str_chars("pop");
    if contains(x.as_slice(), gnome.as_slice()) || contains(x.as_slice(), unity.as_slice())
        || contains(x.as_slice(), pop.as_slice()) {
        return DesktopEnvironment::Gnome;
    }
    let s = lowercase_chars(desktop_session);
    if contains(s.as_slice(), plasma.as_slice()) || contains(s.as_slice(), kde.as_slice()) {
        DesktopEnvironment::Kde
    } else {
        DesktopEnvironment::Gnome
    }
}

/// The D-Bus object path of the KWin script that KWin loaded under `id`;
/// KWin answers a refused script with a negative id, which has no path.
pub fn kwin_script_path(id: i32) -> (r: Option<String>)
    ensures
        (id < 0) <==> r is None,
        r matches Some(p) ==> p@ == "/Scripting/Script"@ + decimal_chars(id as nat),
{
    if id < 0 {
        return None;
    }
    let mut path = str_chars("/Scripting/Script");
    let ghost prefix = path@;
    let digits = u32_to_decimal(id as u32);
    let mut i: usize = 0;
    while i < digits.len()
        invariant
            0 <= i <= digits@.len(),
            path@ == prefix + digits@.take(i as int),
        decreases digits@.len() - i,
    {
        path.push(digits[i]);
        proof {
            assert(digits@.take(i + 1) =~= digits@.take(i as int).push(digits@[i as int]));
        }
        i = i + 1;
    }
    proof {
        assert(digits@.take(digits@.len() as int) =~= digits@);
        assert((id as u32) as nat == id as nat);
    }
    Some(string_from_chars(path.as_slice()))
}

} // verus!
