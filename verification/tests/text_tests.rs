use auditguard::path::starts_with;
use auditguard::text::{
    chars_of, parse_unsigned_chars, push_decimal, split_chars, split_whitespace_chars, string_of,
    trim_chars,
};

fn v(s: &str) -> Vec<char> {
    s.chars().collect()
}

fn strings(parts: Vec<Vec<char>>) -> Vec<String> {
    parts.into_iter().map(|p| p.into_iter().collect()).collect()
}

#[test]
fn split_keeps_empty_pieces() {
    assert_eq!(strings(split_chars(&v("a::b:"), ':')), vec!["a", "", "b", ""]);
    assert_eq!(strings(split_chars(&v(""), ':')), vec![""]);
}

#[test]
fn split_whitespace_drops_empty_pieces() {
    assert_eq!(strings(split_whitespace_chars(&v("  a\t b\u{3000}c  "))), vec!["a", "b", "c"]);
    assert!(split_whitespace_chars(&v(" \n ")).is_empty());
}

#[test]
fn trim_matches_std() {
    for s in ["  x y \n", "", " ", "\u{85}z\u{2029}", "abc"] {
        let t: String = trim_chars(&v(s)).into_iter().collect();
        assert_eq!(t, s.trim());
    }
}

#[test]
fn parse_matches_from_str_radix() {
    for s in ["0", "ff", "FF", "+1a", "", "+", "-1", "10000", "ffff", "g", "0000000000000ffff"] {
        assert_eq!(
            parse_unsigned_chars(&v(s), 16, u16::MAX as u64),
            u16::from_str_radix(s, 16).ok().map(|x| x as u64),
            "input {:?}",
            s
        );
    }
    for s in ["18446744073709551615", "18446744073709551616", "007", "1a", "+0"] {
        assert_eq!(parse_unsigned_chars(&v(s), 10, u64::MAX), s.parse::<u64>().ok(), "input {:?}", s);
    }
}

#[test]
fn decimal_matches_display() {
    for n in [0u64, 7, 10, 255, 65535, u64::MAX] {
        let mut s = String::from("x");
        push_decimal(&mut s, n);
        assert_eq!(s, format!("x{}", n));
    }
}

#[test]
fn chars_round_trip() {
    let s = "héllo wörld";
    assert_eq!(string_of(&chars_of(s)), s);
}

#[test]
fn path_prefix_is_component_wise() {
    let cases = [
        ("/tmp", "/tmp"),
        ("/tmp/x", "/tmp"),
        ("/tmpfoo", "/tmp"),
        ("//tmp//x", "/tmp"),
        ("/./tmp", "/tmp"),
        ("/var/tmp/a", "/var/tmp"),
        ("/var/tmpx", "/var/tmp"),
        ("tmp/x", "/tmp"),
        ("./a/b", "./a"),
        ("a/./b", "a/b"),
        ("/etc/", "/etc"),
        ("/", "/tmp"),
    ];
    for (p, b) in cases {
        assert_eq!(starts_with(p, b), std::path::Path::new(p).starts_with(b), "{} {}", p, b);
    }
}

#[test]
fn whitespace_set_is_unicode_white_space() {
    for u in 0..=0x10FFFFu32 {
        if let Some(c) = char::from_u32(u) {
            assert_eq!(auditguard::text::is_whitespace(c), c.is_whitespace(), "U+{:04X}", u);
        }
    }
}

#[test]
fn single_digits_match_to_digit() {
    for u in 0..=0x10FFFFu32 {
        if let Some(c) = char::from_u32(u) {
            for radix in [10u32, 16] {
                assert_eq!(
                    parse_unsigned_chars(&vec![c], radix, u64::MAX),
                    c.to_digit(radix).map(|d| d as u64),
                    "U+{:04X}",
                    u
                );
            }
        }
    }
}
