//! Text handling on concrete values.

use dap_console::text::{
    has_char, is_space, join2, join3, lowercase, parse_usize, push_decimal, push_signed,
    same_text, split_word, strip_char, strip_prefix, trim, trim_line_end,
};

#[test]
fn space_is_that_of_unicode() {
    for n in 0..0x3100u32 {
        if let Some(c) = char::from_u32(n) {
            assert_eq!(is_space(c), c.is_whitespace());
        }
    }
    assert!(!is_space('\u{feff}'));
}

#[test]
fn texts_are_trimmed() {
    for text in ["", " ", "a", "  a b\t", "\u{3000}ü\u{85}", "\r\na"] {
        assert_eq!(trim(text), text.trim());
    }
}

#[test]
fn words_are_split_off() {
    assert_eq!(split_word("frame 3 x"), ("frame", " 3 x"));
    assert_eq!(split_word("  bt"), ("bt", ""));
    assert_eq!(split_word(" \t "), ("", ""));
    assert_eq!(split_word(""), ("", ""));
}

#[test]
fn starts_are_stripped() {
    assert_eq!(strip_char(":help", ':'), Some("help"));
    assert_eq!(strip_char("::", ':'), Some(":"));
    assert_eq!(strip_char("x:", ':'), None);
    assert_eq!(strip_char("", ':'), None);
    assert_eq!(strip_prefix("content-length: 3", "content-length:"), Some(" 3"));
    assert_eq!(strip_prefix("content", "content-length:"), None);
    assert_eq!(strip_prefix("üx", "ü"), Some("x"));
}

#[test]
fn line_ends_are_stripped() {
    for text in ["a\r\n", "a\n\n\r", "\r\n", "", "a", "\ra"] {
        assert_eq!(trim_line_end(text), text.trim_end_matches(['\r', '\n']));
    }
}

#[test]
fn numerals_are_read() {
    for text in ["0", "007", "+12", "18446744073709551615", "4294967296"] {
        assert_eq!(parse_usize(text), text.parse().ok());
        assert!(parse_usize(text).is_some());
    }
    for text in ["", "+", "-1", "++1", " 1", "1 ", "1x", "٣", "18446744073709551616"] {
        assert_eq!(parse_usize(text), None);
    }
}

#[test]
fn numbers_are_written() {
    for n in [0, 7, 10, 1234567890, u64::MAX] {
        let mut out = "n=".to_string();
        push_decimal(&mut out, n);
        assert_eq!(out, format!("n={n}"));
    }
    for n in [0, -1, 42, i64::MIN, i64::MAX] {
        let mut out = String::new();
        push_signed(&mut out, n);
        assert_eq!(out, n.to_string());
    }
}

#[test]
fn only_ascii_is_lowered() {
    assert_eq!(lowercase("Content-LENGTH: ÄZ[@"), "content-length: Äz[@");
}

#[test]
fn texts_are_joined_and_compared() {
    assert_eq!(join2("a", "ü"), "aü");
    assert_eq!(join3("a", "", "c"), "ac");
    assert!(same_text("ab", "ab"));
    assert!(!same_text("ab", "abc"));
    assert!(!same_text("ab", "aB"));
    assert!(has_char("host:1", ':'));
    assert!(!has_char("5680", ':'));
}

#[test]
fn long_texts_are_walked_once() {
    let long = "A".repeat(300_000);
    assert_eq!(lowercase(&long).len(), long.len());
    assert_eq!(trim(&long).len(), long.len());
    assert_eq!(trim_line_end(&long).len(), long.len());
    assert_eq!(split_word(&long).0.len(), long.len());
    assert!(!has_char(&long, ':'));
    let zeros = "0".repeat(300_000);
    assert_eq!(parse_usize(&zeros), Some(0));
}
