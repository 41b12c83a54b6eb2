//! Tool calls in a whole text.

use ds_free_api::call_ids::CallIds;
use ds_free_api::repair::{repair_invalid_backslashes, repair_unquoted_keys};
use ds_free_api::tags::{get_partial_xml_tool_tag_tail_length, is_partial_xml_tool_tag};
use ds_free_api::tool_parser::{contains_start_tag_with, parse_tool_calls_with, TagConfig};

fn cfg(names: &[&str]) -> TagConfig {
    TagConfig {
        tool_names: names.iter().map(|s| s.to_string()).collect(),
    }
}

fn tool(name: &str, args: &str) -> String {
    format!("<{name}>{args}</{name}>")
}

#[test]
fn parse_single_tool_call() {
    let xml = tool("get_weather", r#"{"city": "北京"}"#);
    let (calls, remaining) = parse_tool_calls_with(&xml, &cfg(&["get_weather"]), &mut CallIds::new()).unwrap();
    assert!(remaining.is_empty());
    assert_eq!(calls.len(), 1);
    assert_eq!(calls[0].function.as_ref().unwrap().name, "get_weather");
    assert_eq!(
        calls[0].function.as_ref().unwrap().arguments,
        r#"{"city":"北京"}"#
    );
}

#[test]
fn parse_tool_call_with_surrounding_text() {
    let xml = format!("好的，我来查一下。{}", tool("get_weather", r#"{"city": "北京"}"#));
    let (calls, remaining) = parse_tool_calls_with(&xml, &cfg(&["get_weather"]), &mut CallIds::new()).unwrap();
    assert_eq!(calls.len(), 1);
    assert_eq!(remaining, "好的，我来查一下。");
}

#[test]
fn parse_multiple_tool_calls() {
    let xml = format!(
        "{}{}",
        tool("get_weather", r#"{"city": "北京"}"#),
        tool("get_time", r#"{"tz": "bj"}"#)
    );
    let (calls, remaining) = parse_tool_calls_with(&xml, &cfg(&["get_weather", "get_time"]), &mut CallIds::new()).unwrap();
    assert!(remaining.is_empty());
    assert_eq!(calls.len(), 2);
    assert_eq!(calls[0].function.as_ref().unwrap().name, "get_weather");
    assert_eq!(calls[1].function.as_ref().unwrap().name, "get_time");
}

#[test]
fn parse_tool_call_empty_args() {
    let xml = tool("do_thing", "{}");
    let (calls, _) = parse_tool_calls_with(&xml, &cfg(&["do_thing"]), &mut CallIds::new()).unwrap();
    assert_eq!(calls.len(), 1);
    assert_eq!(calls[0].function.as_ref().unwrap().arguments, "{}");
}

#[test]
fn parse_tool_call_no_args() {
    let xml = tool("do_thing", "");
    let (calls, _) = parse_tool_calls_with(&xml, &cfg(&["do_thing"]), &mut CallIds::new()).unwrap();
    assert_eq!(calls.len(), 1);
    assert_eq!(calls[0].function.as_ref().unwrap().arguments, "{}");
}

#[test]
fn parse_tool_call_with_unquoted_keys() {
    let xml = tool("get_weather", r#"{city: "北京"}"#);
    let (calls, _) = parse_tool_calls_with(&xml, &cfg(&["get_weather"]), &mut CallIds::new()).unwrap();
    assert_eq!(calls.len(), 1);
    assert_eq!(
        calls[0].function.as_ref().unwrap().arguments,
        r#"{"city":"北京"}"#
    );
}

#[test]
fn parse_tool_call_with_invalid_backslashes() {
    let xml = tool("read_file", r#"{"path": "C:\Users\name"}"#);
    let (calls, _) = parse_tool_calls_with(&xml, &cfg(&["read_file"]), &mut CallIds::new()).unwrap();
    assert_eq!(calls.len(), 1);
}

#[test]
fn parse_tool_call_with_both_repairs() {
    let xml = tool("read_file", r#"{path: "C:\file"}"#);
    let (calls, _) = parse_tool_calls_with(&xml, &cfg(&["read_file"]), &mut CallIds::new()).unwrap();
    assert_eq!(calls.len(), 1);
}

#[test]
fn parse_tool_call_inside_code_fence_skipped() {
    let xml = format!(
        "示例：\n```json\n{}\n```",
        tool("get_weather", r#"{"city": "北京"}"#)
    );
    assert!(parse_tool_calls_with(&xml, &cfg(&["get_weather"]), &mut CallIds::new()).is_none());
}

#[test]
fn parse_tool_call_not_inside_code_fence() {
    let xml = tool("get_weather", r#"{"city": "北京"}"#);
    assert!(parse_tool_calls_with(&xml, &cfg(&["get_weather"]), &mut CallIds::new()).is_some());
}

#[test]
fn parse_unknown_tool_name_ignored() {
    let xml = tool("unknown_tool", r#"{"x": 1}"#);
    assert!(parse_tool_calls_with(&xml, &cfg(&["get_weather"]), &mut CallIds::new()).is_none());
}

#[test]
fn parse_tool_call_with_newlines() {
    let xml = format!("<get_weather>\n{{\"city\": \"北京\"}}\n</get_weather>");
    let (calls, _) = parse_tool_calls_with(&xml, &cfg(&["get_weather"]), &mut CallIds::new()).unwrap();
    assert_eq!(calls.len(), 1);
}

#[test]
fn parse_tool_call_with_whitespace_in_tag() {
    let xml = "< get_weather >{\"city\":\"北京\"}</ get_weather >";
    let (calls, _) = parse_tool_calls_with(&xml, &cfg(&["get_weather"]), &mut CallIds::new()).unwrap();
    assert_eq!(calls.len(), 1);
}

#[test]
fn parse_tool_calls_interleaved_with_text() {
    let xml = format!(
        "让我先查天气。{}再查时间。{}",
        tool("get_weather", r#"{"city": "北京"}"#),
        tool("get_time", r#"{"tz": "bj"}"#)
    );
    let (calls, remaining) = parse_tool_calls_with(&xml, &cfg(&["get_weather", "get_time"]), &mut CallIds::new()).unwrap();
    assert_eq!(calls.len(), 2);
    assert_eq!(remaining, "让我先查天气。再查时间。");
}

#[test]
fn parse_invoke_legacy() {
    let xml = r#"<invoke name="get_weather"><parameter name="city" string="true">北京</parameter></invoke>"#;
    let (calls, _) = parse_tool_calls_with(&xml, &cfg(&["get_weather"]), &mut CallIds::new()).unwrap();
    assert_eq!(calls.len(), 1);
    assert_eq!(calls[0].function.as_ref().unwrap().name, "get_weather");
}

#[test]
fn contains_start_tag_detects_open_tag() {
    let xml = tool("get_weather", "{}");
    assert!(contains_start_tag_with(&xml, &cfg(&["get_weather"])));
}

#[test]
fn contains_start_tag_ignores_unknown() {
    let xml = tool("unknown", "{}");
    assert!(!contains_start_tag_with(&xml, &cfg(&["get_weather"])));
}

#[test]
fn contains_start_tag_empty_config() {
    let xml = tool("get_weather", "{}");
    assert!(!contains_start_tag_with(&xml, &cfg(&[])));
}

#[test]
fn repair_backslashes_passes_valid_escapes() {
    assert_eq!(repair_invalid_backslashes(r#"hello\nworld"#), r#"hello\nworld"#);
}

#[test]
fn repair_backslashes_fixes_invalid_escapes() {
    assert_eq!(repair_invalid_backslashes(r#"C:\Users\name"#).len(), 14);
}

#[test]
fn repair_unquoted_keys_basic() {
    assert_eq!(
        repair_unquoted_keys(r#"{name: "get_weather"}"#),
        r#"{"name": "get_weather"}"#
    );
}

#[test]
fn partial_tag_detection_open() {
    assert!(is_partial_xml_tool_tag("<get_we", &["get_weather".into()], false));
    assert!(is_partial_xml_tool_tag("<get_weather", &["get_weather".into()], false));
    assert!(is_partial_xml_tool_tag("<", &["get_weather".into()], false));
    assert!(!is_partial_xml_tool_tag("<unknown", &["get_weather".into()], false));
}

#[test]
fn partial_tag_detection_close() {
    assert!(is_partial_xml_tool_tag("</get_we", &["get_weather".into()], true));
    assert!(is_partial_xml_tool_tag("</get_weather", &["get_weather".into()], true));
    assert!(!is_partial_xml_tool_tag("<get_we", &["get_weather".into()], true));
}

#[test]
fn partial_tag_tail_length() {
    let text = "hello <get_we";
    let len = get_partial_xml_tool_tag_tail_length(text, &["get_weather".into()], false);
    assert_eq!(len, 7);
}

#[test]
fn partial_tag_tail_length_no_partial() {
    let text = "hello world";
    let len = get_partial_xml_tool_tag_tail_length(text, &["get_weather".into()], false);
    assert_eq!(len, 0);
}
