//! Details of reading tool calls: mending, the fallback format, identifiers, tool names.

use ds_free_api::call_ids::CallIds;
use ds_free_api::config::ToolCallTagConfig;
use ds_free_api::repair::{repair_invalid_backslashes, repair_json, repair_unquoted_keys};
use ds_free_api::tags::{
    find_first_xml_tool_tag, floor_char_boundary, get_partial_xml_tool_tag_tail_length,
    is_partial_xml_tool_tag,
};
use ds_free_api::tool_parser::{
    can_parse_tool_calls, is_inside_code_fence, parse_tool_call_body, parse_tool_calls_with,
    try_parse_tool_calls_with, TagConfig,
};
use ds_free_api::types::{
    ChatCompletionsRequest, CustomTool, FunctionDefinition, Tool, ToolCall,
};

fn names(list: &[&str]) -> Vec<String> {
    list.iter().map(|s| s.to_string()).collect()
}

fn tag_config(list: &[&str]) -> TagConfig {
    TagConfig { tool_names: names(list) }
}

fn parse(xml: &str, list: &[&str]) -> Option<(Vec<ToolCall>, String)> {
    let config = tag_config(list);
    assert!(can_parse_tool_calls(xml, &config));
    parse_tool_calls_with(xml, &config, &mut CallIds::new())
}

fn arguments(call: &ToolCall) -> &str {
    call.function.as_ref().unwrap().arguments.as_str()
}

fn name(call: &ToolCall) -> &str {
    call.function.as_ref().unwrap().name.as_str()
}

#[test]
fn identifiers_count_up_in_hexadecimal() {
    let mut ids = CallIds::new();
    assert_eq!(ids.next_call_id(), "call_0000000000000001");
    let mut late = CallIds { next: 0xabcdef };
    assert_eq!(late.next_call_id(), "call_0000000000abcdef");
    assert_eq!(late.next_call_id(), "call_0000000000abcdf0");
    let mut last = CallIds { next: u64::MAX };
    assert_eq!(last.next_call_id(), "call_ffffffffffffffff");
    assert_eq!(last.next_call_id(), "call_0000000000000000");
}

#[test]
fn calls_are_numbered_in_order() {
    let (calls, _) = parse("<a>{}</a><b>{}</b><a>{}</a>", &["a", "b"]).unwrap();
    let ids: Vec<&str> = calls.iter().map(|c| c.id.as_str()).collect();
    assert_eq!(
        ids,
        ["call_0000000000000001", "call_0000000000000002", "call_0000000000000003"]
    );
    assert_eq!(calls.iter().map(|c| c.index).collect::<Vec<u32>>(), [0, 1, 2]);
    assert!(calls.iter().all(|c| c.ty == "function" && c.custom.is_none()));
}

#[test]
fn an_unclosed_element_reaches_to_the_end() {
    let (calls, rest) = parse("Let me see. <a>{\"x\":1}", &["a"]).unwrap();
    assert_eq!(arguments(&calls[0]), "{\"x\":1}");
    assert_eq!(rest, "Let me see. ");
}

#[test]
fn an_element_without_an_object_gives_no_call() {
    assert!(parse("<a>[1, 2]</a>", &["a"]).is_none());
    assert!(parse("<a>no json</a>", &["a"]).is_none());
    let (calls, rest) = parse("<a>[1]</a>, <a>{\"x\": 2}</a>", &["a"]).unwrap();
    assert_eq!(calls.len(), 1);
    assert_eq!(arguments(&calls[0]), "{\"x\":2}");
    assert_eq!(rest, ", ");
}

#[test]
fn without_tool_names_nothing_is_read() {
    assert!(parse("<a>{}</a><invoke name=\"a\"></invoke>", &[]).is_none());
}

#[test]
fn members_keep_their_order() {
    let (calls, _) = parse("<a>{\"z\": 1, \"b\": [true, null]}</a>", &["a"]).unwrap();
    assert_eq!(arguments(&calls[0]), "{\"z\":1,\"b\":[true,null]}");
}

#[test]
fn code_fences_hide_tags() {
    let xml = "```\n<a>{}</a>\n```\n<a>{\"x\":1}</a>";
    let (calls, rest) = parse(xml, &["a"]).unwrap();
    assert_eq!(calls.len(), 1);
    assert_eq!(arguments(&calls[0]), "{\"x\":1}");
    assert_eq!(rest, "```\n<a>{}</a>\n```\n");
    assert!(is_inside_code_fence("````x", 4));
    assert!(!is_inside_code_fence("``````x", 6));
    assert!(!is_inside_code_fence("``x", 2));
}

#[test]
fn an_invocation_is_read_in_any_case() {
    let xml = "Before <INVOKE name=\"Search\"><PARAMETER name=\"q\">two words</parameter><parameter name=\"n\"> 3 </parameter></INVOKE> after";
    let (calls, rest) = parse(xml, &["a"]).unwrap();
    assert_eq!(calls.len(), 1);
    assert_eq!(name(&calls[0]), "Search");
    assert_eq!(arguments(&calls[0]), "{\"n\":3,\"q\":\"two words\"}");
    assert_eq!(calls[0].id, "call_0000000000000001");
    assert_eq!(rest, "Before  after");
}

#[test]
fn parameters_stand_in_the_order_of_their_names() {
    let xml = "<invoke name=\"t\"><parameter name=\"b\">1</parameter><parameter name=\"a\">\"x\"</parameter><parameter name=\"b\">{\"k\": 2}</parameter></invoke>";
    let (calls, _) = parse(xml, &["a"]).unwrap();
    assert_eq!(arguments(&calls[0]), "{\"a\":\"x\",\"b\":{\"k\":2}}");
}

#[test]
fn an_invocation_needs_a_name_and_an_end() {
    assert!(parse("<invoke name=\"t\">", &["a"]).is_none());
    assert!(parse("<invoke nam></invoke>", &["a"]).is_none());
    assert!(parse("<invoke name=\"t\"><parameter name=\"a\">1</invoke>", &["a"]).is_none());
    let (calls, rest) = parse("<invoke name=\"t\"></invoke>x<invoke name=\"u\"></invoke>", &["a"]).unwrap();
    assert_eq!(calls.len(), 2);
    assert_eq!(arguments(&calls[1]), "{}");
    assert_eq!(calls[1].index, 1);
    assert_eq!(rest, "x");
}

#[test]
fn identifiers_of_a_broken_run_stay_taken() {
    let config = tag_config(&["a"]);
    let mut ids = CallIds::new();
    let xml = "<invoke name=\"t\"></invoke><invoke name=\"u\">";
    assert!(parse_tool_calls_with(xml, &config, &mut ids).is_none());
    assert_eq!(ids.next, 2);
}

#[test]
fn texts_whose_lower_case_shifts_are_told_apart() {
    let config = tag_config(&["a"]);
    let mut ids = CallIds::new();
    let shifted = "\u{130}<invoke name=\"t\">\u{4f60}</invoke>";
    assert!(!can_parse_tool_calls(shifted, &config));
    assert!(try_parse_tool_calls_with(shifted, &config, &mut ids).is_none());
    assert_eq!(ids.next, 1);
    let with_element = "\u{130}<a>{}</a><invoke name=\"t\">\u{4f60}</invoke>";
    let found = try_parse_tool_calls_with(with_element, &config, &mut ids);
    assert_eq!(found.unwrap().unwrap().0.len(), 1);
    assert!(try_parse_tool_calls_with("nothing", &config, &mut ids).unwrap().is_none());
}

#[test]
fn bodies_are_read_or_refused() {
    let mut ids = CallIds::new();
    let call = parse_tool_call_body("t", " \u{3000}\n", &mut ids).unwrap();
    assert_eq!(arguments(&call), "{}");
    assert_eq!(ids.next, 2);
    assert!(parse_tool_call_body("t", "\"text\"", &mut ids).is_none());
    assert_eq!(ids.next, 2);
    let mended = parse_tool_call_body("t", "{a: \"C:\\Windows\", b_1: 2}", &mut ids).unwrap();
    assert_eq!(arguments(&mended), "{\"a\":\"C:\\\\Windows\",\"b_1\":2}");
}

#[test]
fn escapes_are_mended_once() {
    let mended = repair_invalid_backslashes("a\\qb\\\\c\\");
    assert_eq!(mended, "a\\\\qb\\\\c\\");
    assert_eq!(repair_invalid_backslashes(&mended), mended);
    assert_eq!(repair_invalid_backslashes("\\n\\t\\u0041\\\"\\/"), "\\n\\t\\u0041\\\"\\/");
}

#[test]
fn keys_are_quoted_where_a_colon_follows() {
    assert_eq!(repair_unquoted_keys("{a:1, b2 :2, _c:3}"), "{\"a\":1, b2 :2, \"_c\":3}");
    assert_eq!(repair_unquoted_keys("{\"a\":1,}"), "{\"a\":1,}");
    assert_eq!(repair_unquoted_keys("{键:1}"), "{\"键\":1}");
    assert_eq!(repair_unquoted_keys("{"), "{");
    assert_eq!(repair_unquoted_keys("{1a:2}"), "{1a:2}");
    assert_eq!(repair_unquoted_keys("{\u{3000}\n k:2}"), "{\u{3000}\n \"k\":2}");
}

#[test]
fn mended_json_is_json() {
    assert_eq!(repair_json("{\"a\": \"\\d\"}").unwrap(), "{\"a\": \"\\\\d\"}");
    assert_eq!(repair_json("{a: 1}").unwrap(), "{\"a\": 1}");
    assert!(repair_json("{a 1}").is_none());
}

#[test]
fn tags_are_found_with_white_space() {
    let tool_names = names(&["get_weather", "x.y:z-1"]);
    let text = "a < b > <\tget_weather\n>{}</ get_weather>";
    let open = find_first_xml_tool_tag(text, &tool_names, false, 0).unwrap();
    assert_eq!((open.index, open.end_index), (8, 23));
    assert_eq!(open.name, "get_weather");
    assert_eq!(open.raw, "<\tget_weather\n>");
    assert!(!open.closing);
    let close = find_first_xml_tool_tag(text, &tool_names, true, open.end_index).unwrap();
    assert_eq!(close.raw, "</ get_weather>");
    assert!(close.closing);
    assert!(find_first_xml_tool_tag("<x.y:z-1>", &tool_names, false, 0).is_some());
    assert!(find_first_xml_tool_tag("<get_weather x>", &tool_names, false, 0).is_none());
    assert!(find_first_xml_tool_tag("<get_weather>", &tool_names, false, 1).is_none());
}

#[test]
fn unfinished_tags_have_little_white_space() {
    let tool_names = names(&["get_weather"]);
    assert!(is_partial_xml_tool_tag("<        get", &tool_names, false));
    assert!(!is_partial_xml_tool_tag("<         get", &tool_names, false));
    assert!(is_partial_xml_tool_tag("<get_weather  ", &tool_names, false));
    assert!(!is_partial_xml_tool_tag("<get_weather>", &tool_names, false));
    assert_eq!(get_partial_xml_tool_tag_tail_length("a < b", &tool_names, false), 0);
    assert_eq!(get_partial_xml_tool_tag_tail_length("a < ", &tool_names, false), 2);
    assert_eq!(get_partial_xml_tool_tag_tail_length("你好<", &tool_names, false), 1);
    assert_eq!(get_partial_xml_tool_tag_tail_length("<get", &[], false), 0);
}

#[test]
fn boundaries_are_found_below() {
    assert_eq!(floor_char_boundary("你好", 4), 3);
    assert_eq!(floor_char_boundary("你好", 3), 3);
    assert_eq!(floor_char_boundary("你好", 2), 0);
    assert_eq!(floor_char_boundary("你好", 9), 6);
}

fn function_tool(name: &str) -> Tool {
    Tool {
        ty: "function".to_string(),
        function: Some(FunctionDefinition {
            name: name.to_string(),
            description: None,
            parameters: serde_json::Value::Null,
        }),
        custom: None,
    }
}

#[test]
fn tool_names_come_from_request_and_configuration() {
    let custom = Tool {
        ty: "custom".to_string(),
        function: None,
        custom: Some(CustomTool { name: "c".to_string(), description: None, format: None }),
    };
    let request = ChatCompletionsRequest {
        model: String::new(),
        messages: vec![],
        tools: Some(vec![function_tool("a"), custom, function_tool("b"), function_tool("a")]),
        tool_choice: None,
        parallel_tool_calls: None,
        response_format: None,
    };
    let config = TagConfig::from_request(&request, &names(&["x", "b", "x"]));
    assert_eq!(config.tool_names, ["a", "b", "a", "x"]);
    assert_eq!(config.clone().tool_names, config.tool_names);
    let extra = ToolCallTagConfig { extra_tool_names: names(&["p", "q"]) };
    assert_eq!(TagConfig::from_config(&extra).tool_names, ["p", "q"]);
    assert!(TagConfig::default().tool_names.is_empty());
}

#[test]
fn quoted_keys_are_kept() {
    for text in ["{\"a\": 1, \"b\": {\"c\": [1, 2]}}", "a, b", "{a, b}", "", ","] {
        assert_eq!(repair_unquoted_keys(text), text);
    }
}

#[test]
fn plain_text_holds_no_call() {
    let config = tag_config(&["a"]);
    let mut ids = CallIds::new();
    assert!(parse_tool_calls_with("a < b and </a>", &config, &mut ids).is_none());
    assert_eq!(ids.next, 1);
    let both = "<invoke name=\"t\"></invoke><a>{}</a>";
    let (calls, rest) = parse(both, &["a"]).unwrap();
    assert_eq!((calls.len(), name(&calls[0])), (1, "a"));
    assert_eq!(rest, "<invoke name=\"t\"></invoke>");
}

#[test]
fn parameters_are_quoted_as_json() {
    let value = "q\" b\\ \u{8}\u{c}\n\r\t\u{1}\u{1f} / é\u{7f}";
    let xml = format!(
        "<invoke name=\"t\"><parameter name=\"k\\\u{b}\">{value}</parameter></invoke>"
    );
    let (calls, _) = parse(&xml, &["a"]).unwrap();
    assert_eq!(
        arguments(&calls[0]),
        "{\"k\\\\\\u000b\":\"q\\\" b\\\\ \\b\\f\\n\\r\\t\\u0001\\u001f / é\u{7f}\"}"
    );
}

#[test]
fn keys_are_quoted_once() {
    for t in ["{a: 1, b_2 :3, \"c\": {d:4}}", "{ é: [x, y:1]}", "{", ",k", "{a:{b:1},:}", "{1a:2}"] {
        let once = repair_unquoted_keys(t);
        assert_eq!(repair_unquoted_keys(&once), once);
    }
    assert_eq!(repair_unquoted_keys("{a: 1,b_2:3}"), "{\"a\": 1,\"b_2\":3}");
}

#[test]
fn ascii_texts_can_always_be_read() {
    for t in ["", "<", "<INVOKE ", "<invoke name=\"t\"></Invoke>", "<invoke name=\"t\"><PARAMETER "] {
        assert!(can_parse_tool_calls(t, &tag_config(&["a"])));
    }
    let xml = "A<INVOKE NAME=\"x\" name=\"t\"><Parameter name=\"k\">V</parameter></INVOKE>B";
    let (calls, rest) = parse(xml, &["a"]).unwrap();
    assert_eq!((name(&calls[0]), arguments(&calls[0])), ("t", "{\"k\":\"V\"}"));
    assert_eq!(rest, "AB");
}
