//! Character-level text helpers with the semantics of the standard string
//! methods the watchers and the volume controls rely on: whitespace and
//! character trimming, prefixes, substring search, and unsigned decimal
//! parsing and printing.

use vstd::prelude::*;

verus! {

/// Rust's `char::is_whitespace`: the Unicode White_Space property.
pub open spec fn is_ws(c: char) -> bool {
    let u = c as u32;
    (0x09 <= u && u <= 0x0d) || u == 0x20 || u == 0x85 || u == 0xa0 || u == 0x1680 || (0x2000
        <= u && u <= 0x200a) || u == 0x2028 || u == 0x2029 || u == 0x202f || u == 0x205f || u
        == 0x3000
}

pub fn is_whitespace(c: char) -> (r: bool)
    ensures
        r == is_ws(c),
{
    let u = c as u32;
    (0x09 <= u && u <= 0x0d) || u == 0x20 || u == 0x85 || u == 0xa0 || u == 0x1680 || (0x2000
        <= u && u <= 0x200a) || u == 0x2028 || u == 0x2029 || u == 0x202f || u == 0x205f || u
        == 0x3000
}

/// The characters that a trim removes: whitespace, or double quotes.
pub open spec fn trimmed(quotes: bool, c: char) -> bool {
    if quotes {
        c == '"'
    } else {
        is_ws(c)
    }
}

fn is_trimmed(quotes: bool, c: char) -> (r: bool)
    ensures
        r == trimmed(quotes, c),
{
    if quotes {
        c == '"'
    } else {
        is_whitespace(c)
    }
}

/// The first position at or after `i` not holding a trimmed character.
pub open spec fn skip_fwd(s: Seq<char>, quotes: bool, i: int) -> int
    decreases s.len() - i,
{
    if i < 0 || i >= s.len() || !trimmed(quotes, s[i]) {
        i
    } else {
        skip_fwd(s, quotes, i + 1)
    }
}

/// The end of `s[..j]` once trailing trimmed characters are dropped.
pub open spec fn skip_back(s: Seq<char>, quotes: bool, j: int) -> int
    decreases j,
{
    if j <= 0 || j > s.len() || !trimmed(quotes, s[j - 1]) {
        j
    } else {
        skip_back(s, quotes, j - 1)
    }
}

/// `str::trim` (whitespace) or `str::trim_matches('"')` (quotes).
pub open spec fn spec_trim(s: Seq<char>, quotes: bool) -> Seq<char> {
    let a = skip_fwd(s, quotes, 0);
    let b = skip_back(s, quotes, s.len() as int);
    if a < b {
        s.subrange(a, b)
    } else {
        Seq::empty()
    }
}

/// `str::trim_end_matches` of one character kind.
pub open spec fn spec_trim_end(s: Seq<char>, quotes: bool) -> Seq<char> {
    s.subrange(0, skip_back(s, quotes, s.len() as int))
}

proof fn lemma_skip_fwd_bounds(s: Seq<char>, quotes: bool, i: int)
    requires
        0 <= i <= s.len(),
    ensures
        i <= skip_fwd(s, quotes, i) <= s.len(),
    decreases s.len() - i,
{
    if i < s.len() && trimmed(quotes, s[i]) {
        lemma_skip_fwd_bounds(s, quotes, i + 1);
    }
}

proof fn lemma_skip_back_bounds(s: Seq<char>, quotes: bool, j: int)
    requires
        0 <= j <= s.len(),
    ensures
        0 <= skip_back(s, quotes, j) <= j,
    decreases j,
{
    if j > 0 && trimmed(quotes, s[j - 1]) {
        lemma_skip_back_bounds(s, quotes, j - 1);
    }
}

/// The characters of `v[a..b]`.
pub fn sub_chars(v: &[char], a: usize, b: usize) -> (r: Vec<char>)
    requires
        a <= b <= v@.len(),
    ensures
        r@ == v@.subrange(a as int, b as int),
{
    let mut r: Vec<char> = Vec::new();
    let mut i: usize = a;
    while i < b
        invariant
            a <= i <= b,
            b <= v@.len(),
            r@ == v@.subrange(a as int, i as int),
        decreases b - i,
    {
        r.push(v[i]);
        proof {
            assert(v@.subrange(a as int, i + 1) =~= v@.subrange(a as int, i as int).push(v@[i as int]));
        }
        i = i + 1;
    }
    r
}

fn skip_forward(v: &[char], quotes: bool) -> (a: usize)
    ensures
        a as int == skip_fwd(v@, quotes, 0),
{
    let mut i: usize = 0;
    while i < v.len() && is_trimmed(quotes, v[i])
        invariant
            0 <= i <= v@.len(),
            skip_fwd(v@, quotes, i as int) == skip_fwd(v@, quotes, 0),
        decreases v@.len() - i,
    {
        i = i + 1;
    }
    i
}

fn skip_backward(v: &[char], quotes: bool) -> (b: usize)
    ensures
        b as int == skip_back(v@, quotes, v@.len() as int),
{
    let mut j: usize = v.len();
    while j > 0 && is_trimmed(quotes, v[j - 1])
        invariant
            0 <= j <= v@.len(),
            skip_back(v@, quotes, j as int) == skip_back(v@, quotes, v@.len() as int),
        decreases j,
    {
        j = j - 1;
    }
    j
}

/// `v` without leading and trailing whitespace (or double quotes).
pub fn trim(v: &[char], quotes: bool) -> (r: Vec<char>)
    ensures
        r@ == spec_trim(v@, quotes),
{
    let a = skip_forward(v, quotes);
    let b = skip_backward(v, quotes);
    proof {
        lemma_skip_fwd_bounds(v@, quotes, 0);
        lemma_skip_back_bounds(v@, quotes, v@.len() as int);
    }
    if a < b {
        sub_chars(v, a, b)
    } else {
        Vec::new()
    }
}

/// `v` without trailing whitespace (or double quotes).
pub fn trim_end(v: &[char], quotes: bool) -> (r: Vec<char>)
    ensures
        r@ == spec_trim_end(v@, quotes),
{
    let b = skip_backward(v, quotes);
    proof {
        lemma_skip_back_bounds(v@, quotes, v@.len() as int);
    }
    sub_chars(v, 0, b)
}

pub open spec fn spec_starts_with(s: Seq<char>, p: Seq<char>) -> bool {
    p.len() <= s.len() && s.subrange(0, p.len() as int) == p
}

/// Whether `s` begins with `p`.
pub fn starts_with(s: &[char], p: &[char]) -> (r: bool)
    ensures
        r == spec_starts_with(s@, p@),
{
    if p.len() > s.len() {
        return false;
    }
    let mut i: usize = 0;
    while i < p.len()
        invariant
            0 <= i <= p@.len(),
            p@.len() <= s@.len(),
            forall|j: int| 0 <= j < i ==> s@[j] == p@[j],
        decreases p@.len() - i,
    {
        if s[i] != p[i] {
            proof {
                assert(s@.subrange(0, p@.len() as int)[i as int] != p@[i as int]);
            }
            return false;
        }
        i = i + 1;
    }
    proof {
        assert(s@.subrange(0, p@.len() as int) =~= p@);
    }
    true
}

/// `needle` occurs in `s` at position `i`.
pub open spec fn occurs_at(s: Seq<char>, needle: Seq<char>, i: int) -> bool {
    0 <= i && i + needle.len() <= s.len() && s.subrange(i, i + needle.len()) == needle
}

/// `str::contains` with a string pattern.
pub open spec fn spec_contains(s: Seq<char>, needle: Seq<char>) -> bool {
    exists|i: int| occurs_at(s, needle, i)
}

/// Whether `needle` occurs in `s`.
pub fn contains(s: &[char], needle: &[char]) -> (r: bool)
    ensures
        r == spec_contains(s@, needle@),
{
    if needle.len() == 0 {
        proof {
            assert(s@.subrange(0, 0) =~= needle@);
            assert(occurs_at(s@, needle@, 0));
        }
        return true;
    }
    if needle.len() > s.len() {
        proof {
            assert forall|i: int| !occurs_at(s@, needle@, i) by {}
        }
        return false;
    }
    let n = s.len();
    let last = n - needle.len();
    let mut i: usize = 0;
    while i <= last
        invariant
            0 <= i <= last + 1,
            n == s@.len(),
            needle@.len() > 0,
            last == s@.len() - needle@.len(),
            forall|k: int| 0 <= k < i ==> !occurs_at(s@, needle@, k),
        decreases last + 1 - i,
    {
        let mut j: usize = 0;
        let mut same = true;
        while j < needle.len()
            invariant
                0 <= j <= needle@.len(),
                n == s@.len(),
                i + needle@.len() <= s@.len(),
                same ==> forall|m: int| 0 <= m < j ==> s@[i + m] == needle@[m],
                !same ==> !occurs_at(s@, needle@, i as int),
            decreases needle@.len() - j,
        {
            if same && s[i + j] != needle[j] {
                same = false;
                proof {
                    assert(s@.subrange(i as int, i + needle@.len())[j as int] != needle@[j as int]);
                }
            }
            j = j + 1;
        }
        if same {
            proof {
                assert(s@.subrange(i as int, i + needle@.len()) =~= needle@);
                assert(occurs_at(s@, needle@, i as int));
            }
            return true;
        }
        i = i + 1;
    }
    proof {
        assert forall|k: int| !occurs_at(s@, needle@, k) by {
            if 0 <= k && k + needle@.len() <= s@.len() {
                assert(k < i);
            }
        }
    }
    false
}

pub open spec fn is_digit(c: char) -> bool {
    '0' <= c && c <= '9'
}

pub open spec fn digit_value(c: char) -> int {
    (c as u32) - ('0' as u32)
}

/// The value of a string of decimal digits.
pub open spec fn decimal_value(s: Seq<char>) -> int
    decreases s.len(),
{
    if s.len() == 0 {
        0
    } else {
        10 * decimal_value(s.drop_last()) + digit_value(s.last())
    }
}

/// Every character is a decimal digit.
pub open spec fn all_digits(d: Seq<char>) -> bool {
    forall|i: int| 0 <= i < d.len() ==> is_digit(#[trigger] d[i])
}

/// The string without one leading `+`.
pub open spec fn without_plus(s: Seq<char>) -> Seq<char> {
    if s.len() > 0 && s[0] == '+' {
        s.drop_first()
    } else {
        s
    }
}

/// `u32::from_str`: an optional `+`, then one or more decimal digits, the
/// value not above `u32::MAX`.
pub open spec fn spec_parse_u32(s: Seq<char>) -> Option<u32> {
    let d = without_plus(s);
    if d.len() == 0 || !all_digits(d) || decimal_value(d) > u32::MAX {
        None
    } else {
        Some(decimal_value(d) as u32)
    }
}

proof fn lemma_decimal_nonneg(s: Seq<char>)
    requires
        forall|i: int| 0 <= i < s.len() ==> is_digit(#[trigger] s[i]),
    ensures
        decimal_value(s) >= 0,
    decreases s.len(),
{
    if s.len() > 0 {
        lemma_decimal_nonneg(s.drop_last());
    }
}

/// Once a digit prefix exceeds `u32::MAX`, every longer digit string does.
proof fn lemma_decimal_grows(s: Seq<char>, k: int)
    requires
        0 <= k <= s.len(),
        forall|i: int| 0 <= i < s.len() ==> is_digit(#[trigger] s[i]),
        decimal_value(s.take(k)) > u32::MAX,
    ensures
        decimal_value(s) > u32::MAX,
    decreases s.len() - k,
{
    if k < s.len() {
        assert(s.take(k + 1).drop_last() =~= s.take(k));
        assert(s.take(k + 1).last() == s[k]);
        lemma_decimal_grows(s, k + 1);
    } else {
        assert(s.take(k) =~= s);
    }
}

/// Parses an unsigned decimal with `u32::from_str`'s rules.
pub fn parse_u32(s: &[char]) -> (r: Option<u32>)
    ensures
        r == spec_parse_u32(s@),
{
    let ghost d = if s@.len() > 0 && s@[0] == '+' {
        s@.drop_first()
    } else {
        s@
    };
    let start: usize = if s.len() > 0 && s[0] == '+' {
        1
    } else {
        0
    };
    proof {
        assert(d =~= s@.subrange(start as int, s@.len() as int));
    }
    if start >= s.len() {
        return None;
    }
    let mut value: u64 = 0;
    let mut i: usize = start;
    while i < s.len()
        invariant
            start <= i <= s@.len(),
            d == s@.subrange(start as int, s@.len() as int),
            d == without_plus(s@),
            d.len() > 0,
            forall|k: int| 0 <= k < i - start ==> is_digit(#[trigger] d[k]),
            value == decimal_value(d.take(i - start)),
            value <= u32::MAX,
        decreases s@.len() - i,
    {
        let c = s[i];
        if !('0' <= c && c <= '9') {
            proof {
                assert(!is_digit(d[i - start]));
            }
            return None;
        }
        let dv = (c as u32 - '0' as u32) as u64;
        proof {
            assert(d.take(i - start + 1).drop_last() =~= d.take(i - start));
            assert(d.take(i - start + 1).last() == c);
            assert(digit_value(c) == dv);
        }
        let next = value * 10 + dv;
        proof {
            assert(decimal_value(d.take(i - start + 1)) == next);
        }
        if next > 0xffff_ffff {
            proof {
                assert forall|k: int| 0 <= k < i - start + 1 implies is_digit(#[trigger] d[k]) by {
                    if k == i - start {
                        assert(d[k] == c);
                    }
                }
                if all_digits(d) {
                    lemma_decimal_grows(d, i - start + 1);
                }
            }
            return None;
        }
        value = next;
        i = i + 1;
        proof {
            assert forall|k: int| 0 <= k < i - start implies is_digit(#[trigger] d[k]) by {
                if k == i - start - 1 {
                    assert(d[k] == c);
                }
            }
        }
    }
    proof {
        assert(d.take(d.len() as int) =~= d);
    }
    Some(value as u32)
}

/// The decimal digits of `n`, without leading zeros ("0" for zero).
pub open spec fn decimal_chars(n: nat) -> Seq<char>
    decreases n,
{
    if n < 10 {
        seq![digit_char(n)]
    } else {
        decimal_chars(n / 10).push(digit_char(n % 10))
    }
}

pub open spec fn digit_char(d: nat) -> char {
    (('0' as u32) + d) as char
}

fn digit(d: u32) -> (c: char)
    requires
        d < 10,
    ensures
        c == digit_char(d as nat),
{
    if d == 0 {
        '0'
    } else if d == 1 {
        '1'
    } else if d == 2 {
        '2'
    } else if d == 3 {
        '3'
    } else if d == 4 {
        '4'
    } else if d == 5 {
        '5'
    } else if d == 6 {
        '6'
    } else if d == 7 {
        '7'
    } else if d == 8 {
        '8'
    } else {
        '9'
    }
}

/// `n` printed in decimal, as `format!("{}", n)` does.
pub fn u32_to_decimal(n: u32) -> (r: Vec<char>)
    ensures
        r@ == decimal_chars(n as nat),
    decreases n,
{
    if n < 10 {
        let mut r: Vec<char> = Vec::new();
        r.push(digit(n));
        proof {
            assert(r@ =~= seq![digit_char(n as nat)]);
        }
        r
    } else {
        let mut r = u32_to_decimal(n / 10);
        r.push(digit(n % 10));
        r
    }
}

/// The characters of a string.
pub fn str_chars(s: &str) -> (r: Vec<char>)
    ensures
        r@ == s@,
{
    let mut r: Vec<char> = Vec::new();
    for c in it: s.chars()
        invariant
            r@ == it.seq().take(it.index() as int),
            it.seq() == s@,
    {
        r.push(c);
        proof {
            assert(it.seq().take(it.index() + 1) =~= it.seq().take(it.index() as int).push(c));
        }
    }
    proof {
        assert(s@.take(s@.len() as int) =~= s@);
    }
    r
}

/// A string of the given characters; calls std's `FromIterator<char>` for
/// `String`, which yields exactly those characters in order.
#[verifier::external_body]
pub(crate) fn string_from_chars(v: &[char]) -> (s: String)
    ensures
        s@ == v@,
{
    v.iter().collect()
}

/// The Unicode lowercase mapping of a string, as std's `str::to_lowercase`
/// computes it.
pub uninterp spec fn str_lowercase(s: Seq<char>) -> Seq<char>;

/// Calls std's `str::to_lowercase` and returns the characters of the result;
/// the contract only names that result.
#[verifier::external_body]
pub(crate) fn lowercase_chars(s: &str) -> (r: Vec<char>)
    ensures
        r@ == str_lowercase(s@),
{
    s.to_lowercase().chars().collect()
}


/// Trimming a trimmed string changes nothing.
pub proof fn lemma_trim_idempotent(s: Seq<char>, quotes: bool)
    ensures
        spec_trim(spec_trim(s, quotes), quotes) == spec_trim(s, quotes),
{
    let a = skip_fwd(s, quotes, 0);
    let b = skip_back(s, quotes, s.len() as int);
    lemma_skip_fwd_bounds(s, quotes, 0);
    lemma_skip_back_bounds(s, quotes, s.len() as int);
    lemma_skip_fwd_stop(s, quotes, 0);
    lemma_skip_back_stop(s, quotes, s.len() as int);
    let t = spec_trim(s, quotes);
    if a < b {
        assert(t[0] == s[a]);
        assert(t[t.len() - 1] == s[b - 1]);
        assert(skip_fwd(t, quotes, 0) == 0);
        assert(skip_back(t, quotes, t.len() as int) == t.len());
        assert(t.subrange(0, t.len() as int) =~= t);
    } else {
        assert(t.len() == 0);
        assert(skip_fwd(t, quotes, 0) == 0);
    }
}

proof fn lemma_skip_fwd_stop(s: Seq<char>, quotes: bool, i: int)
    requires
        0 <= i <= s.len(),
    ensures
        skip_fwd(s, quotes, i) < s.len() ==> !trimmed(quotes, s[skip_fwd(s, quotes, i)]),
    decreases s.len() - i,
{
    if i < s.len() && trimmed(quotes, s[i]) {
        lemma_skip_fwd_stop(s, quotes, i + 1);
    }
}

proof fn lemma_skip_back_stop(s: Seq<char>, quotes: bool, j: int)
    requires
        0 <= j <= s.len(),
    ensures
        skip_back(s, quotes, j) > 0 ==> !trimmed(quotes, s[skip_back(s, quotes, j) - 1]),
    decreases j,
{
    if j > 0 && trimmed(quotes, s[j - 1]) {
        lemma_skip_back_stop(s, quotes, j - 1);
    }
}

/// `skip_fwd` stops at the first position `j` from `i` on that ends the
/// string or holds a character that is not trimmed.
proof fn lemma_skip_fwd_is(s: Seq<char>, quotes: bool, i: int, j: int)
    requires
        0 <= i <= j <= s.len(),
        forall|k: int| i <= k < j ==> trimmed(quotes, #[trigger] s[k]),
        j == s.len() || !trimmed(quotes, s[j]),
    ensures
        skip_fwd(s, quotes, i) == j,
    decreases j - i,
{
    if i < j {
        lemma_skip_fwd_is(s, quotes, i + 1, j);
    }
}

/// `skip_back` stops at the last position `i` up to `j` that starts the
/// string or follows a character that is not trimmed.
proof fn lemma_skip_back_is(s: Seq<char>, quotes: bool, j: int, i: int)
    requires
        0 <= i <= j <= s.len(),
        forall|k: int| i <= k < j ==> trimmed(quotes, #[trigger] s[k]),
        i == 0 || !trimmed(quotes, s[i - 1]),
    ensures
        skip_back(s, quotes, j) == i,
    decreases j - i,
{
    if i < j {
        lemma_skip_back_is(s, quotes, j - 1, i);
    }
}

/// Every character that `skip_fwd` passes over is trimmed.
proof fn lemma_skip_fwd_all(s: Seq<char>, quotes: bool, i: int)
    requires
        0 <= i <= s.len(),
    ensures
        forall|k: int| i <= k < skip_fwd(s, quotes, i) ==> trimmed(quotes, #[trigger] s[k]),
    decreases s.len() - i,
{
    if i < s.len() && trimmed(quotes, s[i]) {
        lemma_skip_fwd_all(s, quotes, i + 1);
    }
}

/// Every character that `skip_back` passes over is trimmed.
proof fn lemma_skip_back_all(s: Seq<char>, quotes: bool, j: int)
    requires
        0 <= j <= s.len(),
    ensures
        forall|k: int| skip_back(s, quotes, j) <= k < j ==> trimmed(quotes, #[trigger] s[k]),
    decreases j,
{
    if j > 0 && trimmed(quotes, s[j - 1]) {
        lemma_skip_back_all(s, quotes, j - 1);
    }
}

/// Trimmed characters added before and after a string do not change what
/// trimming it gives.
pub proof fn lemma_trim_padding(a: Seq<char>, s: Seq<char>, b: Seq<char>, quotes: bool)
    requires
        forall|k: int| 0 <= k < a.len() ==> trimmed(quotes, #[trigger] a[k]),
        forall|k: int| 0 <= k < b.len() ==> trimmed(quotes, #[trigger] b[k]),
    ensures
        spec_trim(a + s + b, quotes) == spec_trim(s, quotes),
{
    let u = a + s + b;
    let al = a.len() as int;
    let sl = s.len() as int;
    let fs = skip_fwd(s, quotes, 0);
    let bs = skip_back(s, quotes, sl);
    lemma_skip_fwd_bounds(s, quotes, 0);
    lemma_skip_back_bounds(s, quotes, sl);
    lemma_skip_fwd_stop(s, quotes, 0);
    lemma_skip_back_stop(s, quotes, sl);
    lemma_skip_fwd_all(s, quotes, 0);
    lemma_skip_back_all(s, quotes, sl);
    if fs < sl {
        assert(fs < bs) by {
            if bs <= fs {
                assert(trimmed(quotes, s[fs]));
            }
        }
        assert forall|k: int| 0 <= k < al + fs implies trimmed(quotes, #[trigger] u[k]) by {
            if k < al {
                assert(u[k] == a[k]);
            } else {
                assert(u[k] == s[k - al]);
            }
        }
        assert(u[al + fs] == s[fs]);
        lemma_skip_fwd_is(u, quotes, 0, al + fs);
        assert forall|k: int| al + bs <= k < u.len() implies trimmed(quotes, #[trigger] u[k]) by {
            if k < al + sl {
                assert(u[k] == s[k - al]);
            } else {
                assert(u[k] == b[k - al - sl]);
            }
        }
        assert(u[al + bs - 1] == s[bs - 1]);
        lemma_skip_back_is(u, quotes, u.len() as int, al + bs);
        assert(u.subrange(al + fs, al + bs) =~= s.subrange(fs, bs));
    } else {
        assert forall|k: int| 0 <= k < u.len() implies trimmed(quotes, #[trigger] u[k]) by {
            if k < al {
                assert(u[k] == a[k]);
            } else if k < al + sl {
                assert(u[k] == s[k - al]);
            } else {
                assert(u[k] == b[k - al - sl]);
            }
        }
        lemma_skip_fwd_is(u, quotes, 0, u.len() as int);
        lemma_skip_back_bounds(u, quotes, u.len() as int);
    }
}

} // verus!
