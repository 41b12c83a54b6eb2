//! Characters and texts as the library sees them.

use ds_free_api::repair::repair_unquoted_keys;
use ds_free_api::text::{
    cat3, decimal_text, find_bytes, has_bytes, join, starts_with, str_eq, str_less,
};
use ds_free_api::tool_parser::parse_tool_call_body;

const WHITE_SPACE: [char; 25] = [
    '\u{9}', '\u{a}', '\u{b}', '\u{c}', '\u{d}', '\u{20}', '\u{85}', '\u{a0}', '\u{1680}',
    '\u{2000}', '\u{2001}', '\u{2002}', '\u{2003}', '\u{2004}', '\u{2005}', '\u{2006}',
    '\u{2007}', '\u{2008}', '\u{2009}', '\u{200a}', '\u{2028}', '\u{2029}', '\u{202f}',
    '\u{205f}', '\u{3000}',
];

#[test]
fn white_space_is_a_list_of_characters() {
    for c in '\0'..=char::MAX {
        let skipped = repair_unquoted_keys(&format!("{{{c}k:1}}")) == format!("{{{c}\"k\":1}}");
        let starts_key = c.is_alphabetic() || c == '_';
        let is_mark = c == '{' || c == ',';
        assert_eq!(skipped, WHITE_SPACE.contains(&c) || is_mark, "{:?}", c);
        assert!(!(skipped && starts_key));
    }
}

#[test]
fn letters_and_digits_make_keys() {
    assert_eq!(repair_unquoted_keys("{éß2:1}"), "{\"éß2\":1}");
    assert_eq!(repair_unquoted_keys("{a-b:1}"), "{a-b:1}");
}

#[test]
fn bodies_are_trimmed() {
    let mut ids = ds_free_api::call_ids::CallIds::new();
    for c in WHITE_SPACE {
        let call = parse_tool_call_body("t", &format!("{c}{c}"), &mut ids);
        assert_eq!(call.unwrap().function.unwrap().arguments, "{}");
    }
    assert!(parse_tool_call_body("t", "\u{200b}", &mut ids).is_none());
}

#[test]
fn texts_are_put_together() {
    let parts = vec!["a".to_string(), String::new(), "c".to_string()];
    assert_eq!(join(&parts, ", "), "a, , c");
    assert_eq!(join(&vec![], ", "), "");
    assert_eq!(cat3("a", "", "b"), "ab");
    assert_eq!(decimal_text(0), "0");
    assert_eq!(decimal_text(1090), "1090");
    assert_eq!(decimal_text(usize::MAX), usize::MAX.to_string());
}

#[test]
fn texts_are_compared() {
    assert!(str_eq("你", "你"));
    assert!(!str_eq("a", "ab"));
    assert!(starts_with("你好", "你"));
    assert!(!starts_with("你", "你好"));
    assert!(str_less("a", "b") && str_less("a", "ab") && str_less("", "a"));
    assert!(!str_less("b", "a") && !str_less("a", "a"));
    assert!(str_less("z", "你"));
}

#[test]
fn bytes_are_found() {
    assert_eq!(find_bytes(b"abcabc", b"bc", 2), Some(4));
    assert_eq!(find_bytes(b"abc", b"", 3), Some(3));
    assert_eq!(find_bytes(b"abc", b"d", 0), None);
    assert_eq!(find_bytes(b"abc", b"a", 9), None);
    assert!(has_bytes(b"abc", b"bc"));
    assert!(!has_bytes(b"ab", b"abc"));
}
