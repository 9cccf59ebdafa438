use whatbubbles_core::text::{
    char_is_space, decimal_string, hex_digit, push_hex, starts_with, str_eq, str_le,
    trim, trim_start_matches,
};

#[test]
fn trim_drops_surrounding_white_space_only() {
    assert_eq!(trim("  relay.example \t\n"), "relay.example");
    assert_eq!(trim("a b"), "a b");
    assert_eq!(trim("   "), "");
    assert_eq!(trim(""), "");
    assert_eq!(trim("\u{3000}x\u{2003}"), "x");
}

#[test]
fn white_space_follows_unicode() {
    assert!(char_is_space(' '));
    assert!(char_is_space('\u{85}'));
    assert!(char_is_space('\u{a0}'));
    assert!(!char_is_space('x'));
    assert!(!char_is_space('\u{200b}'));
    for c in ['\t', '\n', '\u{b}', '\u{c}', '\r', ' ', '\u{1680}', '\u{2028}', '\u{205f}'] {
        assert_eq!(char_is_space(c), c.is_whitespace());
    }
}

#[test]
fn prefixes_and_equality() {
    assert!(starts_with("needs_extra:code", "needs_extra:"));
    assert!(!starts_with("needs", "needs_extra:"));
    assert!(starts_with("abc", ""));
    assert!(str_eq("ready", "ready"));
    assert!(!str_eq("ready", "ready "));
}

#[test]
fn trim_start_matches_strips_every_leading_repetition() {
    assert_eq!(trim_start_matches("error:error:boom", "error:"), "boom");
    assert_eq!(trim_start_matches("error:boom", "error:"), "boom");
    assert_eq!(trim_start_matches("boom", "error:"), "boom");
    assert_eq!(trim_start_matches("abc", ""), "abc");
}

#[test]
fn numbers_and_bytes_as_text() {
    assert_eq!(decimal_string(0), "0");
    assert_eq!(decimal_string(1660), "1660");
    assert_eq!(decimal_string(u64::MAX), "18446744073709551615");
    assert_eq!(hex_digit(11, true), "B");
    assert_eq!(hex_digit(11, false), "b");
    let mut out = String::from("x");
    push_hex(&mut out, &[0x00, 0x0f, 0xa5, 0xff], 1, 4, true);
    assert_eq!(out, "x0FA5FF");
    let mut lower = String::new();
    push_hex(&mut lower, &[0xde, 0xad], 0, 2, false);
    assert_eq!(lower, "dead");
}

#[test]
fn concat_puts_one_after_the_other() {
    assert_eq!(whatbubbles_core::text::concat("temp-", "abc"), "temp-abc");
}

#[test]
fn str_le_is_code_point_order() {
    assert!(str_le("", "a"));
    assert!(str_le("ab", "abc"));
    assert!(!str_le("abc", "ab"));
    assert!(str_le("Zed", "alpha"));
    assert!(str_le("same", "same"));
    let words = ["b", "a", "ab", "B", "\u{e9}", "e"];
    for x in words {
        for y in words {
            assert_eq!(str_le(x, y), x <= y);
        }
    }
}
