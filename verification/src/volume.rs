//! Volume control: the command lines that change the system volume or one
//! application's volume, and the search of `pactl list sink-inputs` output
//! for the sink input that belongs to a process.

use vstd::prelude::*;
use crate::config::VolumeDirection;
use crate::text::{
    decimal_chars, parse_u32, spec_parse_u32, spec_starts_with, spec_trim, starts_with,
    str_chars, string_from_chars, sub_chars, trim, u32_to_decimal,
};

verus! {

broadcast use vstd::string::group_string_axioms;

/// A program to run and its arguments.
pub struct ProgramCall {
    pub program: String,
    pub args: Vec<String>,
}

pub struct ProgramCallModel {
    pub program: Seq<char>,
    pub args: Seq<Seq<char>>,
}

impl View for ProgramCall {
    type V = ProgramCallModel;

    open spec fn view(&self) -> ProgramCallModel {
        ProgramCallModel { program: self.program@, args: self.args@.map_values(|a: String| a@) }
    }
}

/// The volume change argument: the percentage followed by `%+` or `%-`.
pub open spec fn volume_step_arg(direction: VolumeDirection, percent: u32) -> Seq<char> {
    decimal_chars(percent as nat) + if direction == VolumeDirection::Up {
        seq!['%', '+']
    } else {
        seq!['%', '-']
    }
}

fn volume_step(direction: VolumeDirection, percent: u32) -> (s: String)
    ensures
        s@ == volume_step_arg(direction, percent),
{
    let mut chars = u32_to_decimal(percent);
    chars.push('%');
    if direction == VolumeDirection::Up {
        chars.push('+');
    } else {
        chars.push('-');
    }
    proof {
        assert(chars@ =~= volume_step_arg(direction, percent));
    }
    string_from_chars(chars.as_slice())
}

pub open spec fn strings_view(v: Seq<String>) -> Seq<Seq<char>> {
    v.map_values(|a: String| a@)
}

/// `wpctl set-mute @DEFAULT_AUDIO_SINK@ toggle` to mute or unmute, else
/// `wpctl set-volume --limit 1.0 @DEFAULT_AUDIO_SINK@ <percent>%±`.
pub open spec fn spec_system_volume_call(direction: VolumeDirection, percent: u32) -> ProgramCallModel {
    if direction == VolumeDirection::Mute {
        ProgramCallModel {
            program: "wpctl"@,
            args: seq!["set-mute"@, "@DEFAULT_AUDIO_SINK@"@, "toggle"@],
        }
    } else {
        ProgramCallModel {
            program: "wpctl"@,
            args: seq![
                "set-volume"@,
                "--limit"@,
                "1.0"@,
                "@DEFAULT_AUDIO_SINK@"@,
                volume_step_arg(direction, percent),
            ],
        }
    }
}

/// The command that changes the system volume.
pub fn system_volume_call(direction: VolumeDirection, percent: u32) -> (c: ProgramCall)
    ensures
        c@ == spec_system_volume_call(direction, percent),
{
    let program = "wpctl".to_string();
    let mut args: Vec<String> = Vec::new();
    if direction == VolumeDirection::Mute {
        args.push("set-mute".to_string());
        args.push("@DEFAULT_AUDIO_SINK@".to_string());
        args.push("toggle".to_string());
    } else {
        args.push("set-volume".to_string());
        args.push("--limit".to_string());
        args.push("1.0".to_string());
        args.push("@DEFAULT_AUDIO_SINK@".to_string());
        args.push(volume_step(direction, percent));
    }
    let c = ProgramCall { program, args };
    proof {
        assert(c@.args =~= spec_system_volume_call(direction, percent).args);
    }
    c
}

/// `pactl set-sink-input-mute <index> toggle` to mute or unmute, else
/// `pactl set-sink-input-volume <index> <percent>%±`.
pub open spec fn spec_app_volume_call(direction: VolumeDirection, percent: u32, sink_index: u32) -> ProgramCallModel {
    if direction == VolumeDirection::Mute {
        ProgramCallModel {
            program: "pactl"@,
            args: seq!["set-sink-input-mute"@, decimal_chars(sink_index as nat), "toggle"@],
        }
    } else {
        ProgramCallModel {
            program: "pactl"@,
            args: seq![
                "set-sink-input-volume"@,
                decimal_chars(sink_index as nat),
                volume_step_arg(direction, percent),
            ],
        }
    }
}

/// The command that changes the volume of one sink input.
pub fn app_volume_call(direction: VolumeDirection, percent: u32, sink_index: u32) -> (c: ProgramCall)
    ensures
        c@ == spec_app_volume_call(direction, percent, sink_index),
{
    let program = "pactl".to_string();
    let index_chars = u32_to_decimal(sink_index);
    let index = string_from_chars(index_chars.as_slice());
    let mut args: Vec<String> = Vec::new();
    if direction == VolumeDirection::Mute {
        args.push("set-sink-input-mute".to_string());
        args.push(index);
        args.push("toggle".to_string());
    } else {
        args.push("set-sink-input-volume".to_string());
        args.push(index);
        args.push(volume_step(direction, percent));
    }
    let c = ProgramCall { program, args };
    proof {
        assert(c@.args =~= spec_app_volume_call(direction, percent, sink_index).args);
    }
    c
}

// ─── Sink input listing ──────────────────────────────────────────────────────

/// The first position at or after `i` holding `c`, or the length.
pub open spec fn next_char(s: Seq<char>, c: char, i: int) -> int
    decreases s.len() - i,
{
    if i < 0 || i >= s.len() || s[i] == c {
        i
    } else {
        next_char(s, c, i + 1)
    }
}

pub proof fn lemma_next_char(s: Seq<char>, c: char, i: int)
    requires
        0 <= i <= s.len(),
    ensures
        i <= next_char(s, c, i) <= s.len(),
        forall|k: int| i <= k < next_char(s, c, i) ==> s[k] != c,
        next_char(s, c, i) < s.len() ==> s[next_char(s, c, i)] == c,
    decreases s.len() - i,
{
    if i < s.len() && s[i] != c {
        lemma_next_char(s, c, i + 1);
    }
}

fn find_char(s: &[char], c: char, from: usize) -> (r: usize)
    requires
        from <= s@.len(),
    ensures
        r as int == next_char(s@, c, from as int),
{
    let mut i = from;
    while i < s.len() && s[i] != c
        invariant
            from <= i <= s@.len(),
            next_char(s@, c, i as int) == next_char(s@, c, from as int),
        decreases s@.len() - i,
    {
        i = i + 1;
    }
    i
}

/// `str::trim_start_matches` with a non-empty string pattern: every leading
/// copy of `p` removed.
pub open spec fn strip_all(s: Seq<char>, p: Seq<char>) -> Seq<char>
    decreases s.len(),
{
    if p.len() > 0 && spec_starts_with(s, p) {
        strip_all(s.subrange(p.len() as int, s.len() as int), p)
    } else {
        s
    }
}

fn strip_prefixes(s: &[char], p: &[char]) -> (r: Vec<char>)
    requires
        p@.len() > 0,
    ensures
        r@ == strip_all(s@, p@),
{
    let mut i: usize = 0;
    let n = s.len();
    let mut rest = sub_chars(s, 0, n);
    proof {
        assert(s@.subrange(0, n as int) =~= s@);
    }
    while starts_with(rest.as_slice(), p)
        invariant
            p@.len() > 0,
            strip_all(rest@, p@) == strip_all(s@, p@),
        decreases rest@.len(),
    {
        let len = rest.len();
        rest = sub_chars(rest.as_slice(), p.len(), len);
    }
    rest
}

/// The text between the first `=` and the next one (or the end):
/// `split('=').nth(1)`.
pub open spec fn second_field(line: Seq<char>) -> Option<Seq<char>> {
    let a = next_char(line, '=', 0);
    if a >= line.len() {
        None
    } else {
        Some(line.subrange(a + 1, next_char(line, '=', a + 1)))
    }
}

/// The process id on an `application.process.id = "1234"` line.
pub open spec fn pid_value(line: Seq<char>) -> Option<u32> {
    match second_field(line) {
        None => None,
        Some(f) => spec_parse_u32(spec_trim(spec_trim(f, false), true)),
    }
}

pub open spec fn sink_header() -> Seq<char> {
    "Sink Input #"@
}

pub open spec fn pid_key() -> Seq<char> {
    "application.process.id"@
}

/// Reading the listing line by line from position `start`, with `current`
/// the number of the sink input block being read: a `Sink Input #N` line
/// starts block N (no number when N does not parse); the first
/// `application.process.id` line naming `pid` gives the current block.
pub open spec fn scan_from(s: Seq<char>, start: int, current: Option<u32>, pid: u32) -> Option<u32>
    decreases s.len() - start,
{
    if start < 0 || start > s.len() {
        None
    } else {
        let e = next_char(s, '\n', start);
        let line = spec_trim(s.subrange(start, e), false);
        let cur = if spec_starts_with(line, sink_header()) {
            spec_parse_u32(strip_all(line, sink_header()))
        } else {
            current
        };
        if spec_starts_with(line, pid_key()) && pid_value(line) == Some(pid) {
            cur
        } else if e >= s.len() {
            None
        } else {
            proof {
                lemma_next_char(s, '\n', start);
            }
            scan_from(s, e + 1, cur, pid)
        }
    }
}

/// The sink input that belongs to process `pid`, by the listing of
/// `pactl list sink-inputs`.
pub open spec fn spec_find_sink_input(listing: Seq<char>, pid: u32) -> Option<u32> {
    scan_from(listing, 0, None, pid)
}

fn line_pid(line: &[char]) -> (r: Option<u32>)
    ensures
        r == pid_value(line@),
{
    let a = find_char(line, '=', 0);
    proof {
        lemma_next_char(line@, '=', 0);
    }
    if a >= line.len() {
        return None;
    }
    let b = find_char(line, '=', a + 1);
    proof {
        lemma_next_char(line@, '=', a + 1);
    }
    let field = sub_chars(line, a + 1, b);
    let t1 = trim(field.as_slice(), false);
    let t2 = trim(t1.as_slice(), true);
    parse_u32(t2.as_slice())
}

/// Finds the sink input of process `pid` in a `pactl list sink-inputs`
/// listing (see `spec_find_sink_input`).
pub fn find_sink_input(listing: &str, pid: u32) -> (r: Option<u32>)
    ensures
        r == spec_find_sink_input(listing@, pid),
{
    let s = str_chars(listing);
    let header = str_chars("Sink Input #");
    let key = str_chars("application.process.id");
    proof {
        assert(header@.len() > 0) by {
            reveal_strlit("Sink Input #");
        }
    }
    let n = s.len();
    let mut start: usize = 0;
    let mut current: Option<u32> = None;
    while start <= n
        invariant
            0 <= start <= n,
            n == s@.len(),
            s@ == listing@,
            header@ == sink_header(),
            key@ == pid_key(),
            header@.len() > 0,
            scan_from(s@, start as int, current, pid) == spec_find_sink_input(listing@, pid),
        decreases n + 1 - start,
    {
        let e = find_char(s.as_slice(), '\n', start);
        proof {
            lemma_next_char(s@, '\n', start as int);
        }
        let raw_line = sub_chars(s.as_slice(), start, e);
        let line = trim(raw_line.as_slice(), false);
        if starts_with(line.as_slice(), header.as_slice()) {
            let rest = strip_prefixes(line.as_slice(), header.as_slice());
            current = parse_u32(rest.as_slice());
        }
        if starts_with(line.as_slice(), key.as_slice()) {
            if line_pid(line.as_slice()) == Some(pid) {
                return current;
            }
        }
        if e >= n {
            return None;
        }
        start = e + 1;
    }
    None
}

} // verus!
