//! Strings and JSON strings.

use frontdoor::json::json_str;
use frontdoor::text::{give, str_eq, trim};

#[test]
fn strings_compare_by_their_characters() {
    assert!(str_eq("", ""));
    assert!(str_eq("bücher", "bücher"));
    assert!(!str_eq("a", "b"));
    assert!(!str_eq("a", "aa"));
    assert!(!str_eq("tls", "tlS"));
}

#[test]
fn trimming_agrees_with_std_on_every_character() {
    for n in 0..=0x10ffffu32 {
        if let Some(c) = char::from_u32(n) {
            let mut s = String::new();
            s.push(c);
            s.push('x');
            s.push(c);
            assert_eq!(trim(&s), s.trim(), "U+{:04x}", n);
        }
    }
}

#[test]
fn trimming_keeps_the_middle() {
    assert_eq!(trim(" \t a b \r\n"), "a b");
    assert_eq!(trim("ü ü"), "ü ü");
    assert_eq!(trim(" \u{2003}\u{3000} "), "");
    assert_eq!(trim(""), "");
}

#[test]
fn empty_strings_are_not_given() {
    assert_eq!(give(None), None);
    assert_eq!(give(Some(String::new())), None);
    assert_eq!(give(Some(" ".to_string())), Some(" ".to_string()));
}

#[test]
fn json_strings_escape_what_they_must() {
    assert_eq!(json_str(""), "\"\"");
    assert_eq!(json_str("a\"b\\c"), "\"a\\\"b\\\\c\"");
    assert_eq!(json_str("\n\r\t"), "\"\\n\\r\\t\"");
    assert_eq!(json_str("\u{0}\u{1f}\u{7f}"), "\"\\u0000\\u001f\u{7f}\"");
    assert_eq!(json_str("/ü\u{1f600}"), "\"/ü\u{1f600}\"");
}

#[test]
fn json_strings_read_back() {
    for n in 0..0x3000u32 {
        if let Some(c) = char::from_u32(n) {
            let s = format!("<{}>", c);
            let text = json_str(&s);
            let back: String = serde_json::from_str(&text).unwrap();
            assert_eq!(back, s);
            assert!(!text.chars().any(|c| (c as u32) < 0x20));
        }
    }
}

#[test]
fn json_strings_show_where_they_end() {
    // What follows a string never becomes part of it.
    assert_ne!(json_str("a\",\"b"), "\"a\",\"b\"");
    assert_ne!(json_str("a") + "x", json_str("ax"));
}
