//! Number parsing and trimming.

use gcrecomp::symbols::{is_whitespace, parse_hex_u32, parse_usize, trim_range};

fn chars(s: &str) -> Vec<char> {
    s.chars().collect()
}

#[test]
fn hex_numbers_parse_like_from_str_radix() {
    for s in ["0", "80003100", "FFFFFFFF", "+1a", "abc", "00000000000001"] {
        assert_eq!(parse_hex_u32(&chars(s)), u32::from_str_radix(s, 16).ok(), "{s}");
    }
    for s in ["", "+", "-1", "100000000", "12g", " 1"] {
        assert_eq!(parse_hex_u32(&chars(s)), None, "{s}");
    }
}

#[test]
fn decimal_numbers_parse_like_from_str() {
    assert_eq!(parse_usize("8192"), Some(8192));
    assert_eq!(parse_usize("+7"), Some(7));
    assert_eq!(parse_usize("-7"), None);
    assert_eq!(parse_usize("99999999999999999999999"), None);
    assert_eq!(parse_usize(""), None);
}

#[test]
fn trimming_drops_unicode_whitespace() {
    let s = chars("\u{3000}\t name \r\n");
    let t: String = trim_range(&s, 0, s.len()).into_iter().collect();
    assert_eq!(t, "name");
    for c in ['\u{85}', '\u{a0}', '\u{2009}', ' ', '\n'] {
        assert_eq!(is_whitespace(c), c.is_whitespace());
    }
    assert!(!is_whitespace('x'));
    assert!(!is_whitespace('\u{200b}'));
}
