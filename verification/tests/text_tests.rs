use hremap::text::{contains, parse_u32, str_chars, trim, trim_end, u32_to_decimal};

fn chars(s: &str) -> Vec<char> {
    s.chars().collect()
}

#[test]
fn parse_u32_follows_std() {
    for s in ["0", "7", "+7", "0042", "4294967295", "4294967296", "", "+", "-1", "12a", " 1", "١"] {
        assert_eq!(parse_u32(&chars(s)), s.parse::<u32>().ok(), "input {:?}", s);
    }
}

#[test]
fn decimal_printing_matches_format() {
    for n in [0u32, 9, 10, 99, 100, 12345, u32::MAX] {
        let printed: String = u32_to_decimal(n).into_iter().collect();
        assert_eq!(printed, format!("{}", n));
    }
}

#[test]
fn decimal_round_trip() {
    for n in [0u32, 1, 42, 1000, u32::MAX] {
        assert_eq!(parse_u32(&u32_to_decimal(n)), Some(n));
    }
}

#[test]
fn trim_follows_std() {
    for s in ["  a b  ", "\t\u{3000}x\u{85}", "   ", "", "x"] {
        let t: String = trim(&chars(s), false).into_iter().collect();
        assert_eq!(t, s.trim());
    }
    let q: String = trim(&chars("\"\"abc\""), true).into_iter().collect();
    assert_eq!(q, "\"\"abc\"".trim_matches('"'));
    let e: String = trim_end(&chars("\"abc\"\""), true).into_iter().collect();
    assert_eq!(e, "\"abc\"\"".trim_end_matches('"'));
}

#[test]
fn trim_twice_is_trim_once() {
    let once = trim(&chars(" \t x y \n"), false);
    let twice = trim(&once, false);
    assert_eq!(once, twice);
}

#[test]
fn contains_follows_std() {
    assert!(contains(&chars("kde-plasma"), &chars("plasma")));
    assert!(contains(&chars("abc"), &chars("")));
    assert!(!contains(&chars("ab"), &chars("abc")));
    assert!(!contains(&chars("gnome"), &chars("kde")));
}

#[test]
fn str_chars_gives_every_char() {
    assert_eq!(str_chars("héllo"), vec!['h', 'é', 'l', 'l', 'o']);
    assert_eq!(str_chars(""), Vec::<char>::new());
}
