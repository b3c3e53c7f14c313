use task_cli::decimal::{parse_unsigned, push_decimal, push_zero_padded};
use task_cli::text::{
    chars_of, equals_str, find, find_line_end, matches_at, push_all, push_str, slice, string_of,
    strip, strip_end, strip_start, CharClass,
};

fn chars(s: &str) -> Vec<char> {
    s.chars().collect()
}

fn text(v: &Vec<char>) -> String {
    v.iter().collect()
}

#[test]
fn strings_and_characters_convert_both_ways() {
    for s in ["", "a", "buy milk", "gr\u{fc}\u{df}e \u{1f600}", "line\nbreak"] {
        assert_eq!(chars_of(s), chars(s));
        assert_eq!(string_of(&chars(s)), s);
    }
}

#[test]
fn pushing_appends() {
    let mut out = chars("ab");
    push_str(&mut out, "cd\u{e9}");
    assert_eq!(text(&out), "abcd\u{e9}");
    push_all(&mut out, &chars("ef"));
    assert_eq!(text(&out), "abcd\u{e9}ef");
    push_str(&mut out, "");
    assert_eq!(text(&out), "abcd\u{e9}ef");
}

#[test]
fn slice_copies_a_range() {
    let s = chars("hello world");
    assert_eq!(text(&slice(&s, 0, 5)), "hello");
    assert_eq!(text(&slice(&s, 6, 11)), "world");
    assert_eq!(text(&slice(&s, 3, 3)), "");
}

#[test]
fn equals_str_compares_every_character() {
    assert!(equals_str(&chars("todo"), "todo"));
    assert!(!equals_str(&chars("todo"), "tod"));
    assert!(!equals_str(&chars("tod"), "todo"));
    assert!(!equals_str(&chars("todo"), "tods"));
    assert!(equals_str(&chars(""), ""));
}

#[test]
fn decimal_agrees_with_the_standard_formatter() {
    for n in [0u64, 1, 9, 10, 11, 99, 100, 101, 4_294_967_295, 1_709_164_800, u64::MAX] {
        let mut out = Vec::new();
        push_decimal(&mut out, n);
        assert_eq!(text(&out), format!("{}", n));
    }
}

#[test]
fn zero_padding_agrees_with_the_standard_formatter() {
    for n in [0u64, 5, 9, 10, 42, 99, 100, 999, 1000, 9999, 10000, 65535] {
        let mut out = Vec::new();
        push_zero_padded(&mut out, n, 2);
        assert_eq!(text(&out), format!("{:02}", n));
        let mut out = Vec::new();
        push_zero_padded(&mut out, n, 4);
        assert_eq!(text(&out), format!("{:04}", n));
        let mut out = Vec::new();
        push_zero_padded(&mut out, n, 0);
        assert_eq!(text(&out), format!("{}", n));
    }
}

#[test]
fn parse_unsigned_reads_digits() {
    assert_eq!(parse_unsigned(&chars("0"), 255), Some(0));
    assert_eq!(parse_unsigned(&chars("7"), 255), Some(7));
    assert_eq!(parse_unsigned(&chars("007"), 255), Some(7));
    assert_eq!(parse_unsigned(&chars("255"), 255), Some(255));
    assert_eq!(parse_unsigned(&chars("4294967295"), 4_294_967_295), Some(4_294_967_295));
    assert_eq!(parse_unsigned(&chars("18446744073709551615"), u64::MAX), Some(u64::MAX));
}

#[test]
fn parse_unsigned_takes_one_plus_sign() {
    assert_eq!(parse_unsigned(&chars("+7"), 255), Some(7));
    assert_eq!(parse_unsigned(&chars("++7"), 255), None);
    assert_eq!(parse_unsigned(&chars("+"), 255), None);
    assert_eq!(parse_unsigned(&chars("7+"), 255), None);
}

#[test]
fn parse_unsigned_rejects_what_is_no_number() {
    for s in ["", " ", "-", "-1", "-0", "1 ", " 1", "1a", "a", "1.0", "0x10", "\u{661}", "1_000"] {
        assert_eq!(parse_unsigned(&chars(s), 4_294_967_295), None);
    }
}

#[test]
fn parse_unsigned_rejects_numbers_above_the_bound() {
    assert_eq!(parse_unsigned(&chars("256"), 255), None);
    assert_eq!(parse_unsigned(&chars("4294967296"), 4_294_967_295), None);
    assert_eq!(parse_unsigned(&chars("99999999999999999999999999"), 4_294_967_295), None);
    assert_eq!(parse_unsigned(&chars("18446744073709551616"), u64::MAX), None);
    assert_eq!(parse_unsigned(&chars("0000000000000000000000000001"), 255), Some(1));
}

#[test]
fn parse_unsigned_agrees_with_the_standard_parser() {
    for s in ["", "+", "-", "0", "+0", "-0", "12", "+12", "00012", "300", "65535", "65536", "1x", "x1", "4294967295", "4294967296"] {
        assert_eq!(parse_unsigned(&chars(s), 255), s.parse::<u8>().ok().map(u64::from));
        assert_eq!(parse_unsigned(&chars(s), 65535), s.parse::<u16>().ok().map(u64::from));
        assert_eq!(parse_unsigned(&chars(s), 4_294_967_295), s.parse::<u32>().ok().map(u64::from));
    }
}

#[test]
fn whitespace_is_what_unicode_calls_white_space() {
    for code in 0u32..=0x10FFFF {
        if let Some(c) = char::from_u32(code) {
            assert_eq!(CharClass::Whitespace.contains(c), c.is_whitespace(), "U+{:04X}", code);
        }
    }
}

#[test]
fn a_class_of_one_character_holds_that_character() {
    assert!(CharClass::Only('"').contains('"'));
    assert!(!CharClass::Only('"').contains('\''));
    assert!(!CharClass::Only(',').contains(' '));
}

#[test]
fn stripping_whitespace_agrees_with_trim() {
    for s in ["", " ", "  a  ", "a", "\t a b \r\n", "\u{a0}x\u{3000}", " \u{2003} ", "x y"] {
        assert_eq!(text(&strip(&chars(s), CharClass::Whitespace)), s.trim());
        assert_eq!(text(&strip_start(&chars(s), CharClass::Whitespace)), s.trim_start());
        assert_eq!(text(&strip_end(&chars(s), CharClass::Whitespace)), s.trim_end());
    }
}

#[test]
fn stripping_a_character_agrees_with_trim_matches() {
    for s in ["", "\"", "\"\"", "\"a\"", "\"\"a\"b\"\"", "a\"", "a", ",\"a\","] {
        assert_eq!(text(&strip(&chars(s), CharClass::Only('"'))), s.trim_matches('"'));
        assert_eq!(text(&strip_end(&chars(s), CharClass::Only(','))), s.trim_end_matches(','));
        assert_eq!(text(&strip_start(&chars(s), CharClass::Only(','))), s.trim_start_matches(','));
    }
}

#[test]
fn find_gives_the_first_occurrence() {
    let s = chars("a : b : c");
    let sep = chars(" : ");
    assert_eq!(find(&s, &sep, 0), Some(1));
    assert_eq!(find(&s, &sep, 1), Some(1));
    assert_eq!(find(&s, &sep, 2), Some(5));
    assert_eq!(find(&s, &sep, 6), None);
    assert_eq!(find(&s, &sep, 100), None);
    assert_eq!(find(&chars("a: b"), &sep, 0), None);
    assert_eq!(find(&chars(" :"), &sep, 0), None);
    assert_eq!(find(&chars(" : "), &sep, 0), Some(0));
    assert_eq!(find(&chars(""), &sep, 0), None);
    assert_eq!(find(&chars("ab"), &chars(""), 0), Some(0));
    assert_eq!(find(&chars("ab"), &chars(""), 2), Some(2));
    assert_eq!(find(&chars("ab"), &chars(""), 3), None);
}

#[test]
fn matches_at_compares_in_place() {
    let s = chars("a : b");
    let sep = chars(" : ");
    assert!(matches_at(&s, &sep, 1));
    assert!(!matches_at(&s, &sep, 0));
    assert!(!matches_at(&s, &sep, 2));
    assert!(!matches_at(&s, &sep, 3));
    assert!(!matches_at(&s, &sep, 99));
}

#[test]
fn find_line_end_stops_at_the_line_feed() {
    let s = chars("ab\ncd\n\nef");
    assert_eq!(find_line_end(&s, 0), 2);
    assert_eq!(find_line_end(&s, 2), 2);
    assert_eq!(find_line_end(&s, 3), 5);
    assert_eq!(find_line_end(&s, 6), 6);
    assert_eq!(find_line_end(&s, 7), 9);
    assert_eq!(find_line_end(&s, 9), 9);
}
