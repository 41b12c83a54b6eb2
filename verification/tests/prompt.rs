//! Prompts and the descriptions of tools in them.

use ds_free_api::prompt::{
    build, build_with, format_assistant, format_content, format_message, format_part, format_response_text,
    instruction_wording, jitter_index, merge_messages, pick_index, role_tag,
    INSTRUCTION_VARIANTS,
};
use ds_free_api::tool_parser::{parse_tool_calls_with, TagConfig};
use ds_free_api::tools::{
    example_payload, extract, render_custom_schema, render_function_schema, ToolContext,
};
use ds_free_api::types::{
    AllowedTools, AllowedToolsChoice, ChatCompletionsRequest, ContentPart, CustomTool,
    CustomToolChoice, CustomToolFormat, FileContent, FunctionCall, FunctionDefinition, Grammar,
    ImageUrl, InputAudio, Message, MessageContent, NamedToolChoice, ResponseFormat, Tool,
    ToolCall, ToolChoice, ToolName,
};
use serde_json::Value;

fn json(text: &str) -> Value {
    serde_json::from_str(text).unwrap()
}

fn message(role: &str, content: &str) -> Message {
    Message {
        role: role.to_string(),
        content: Some(MessageContent::Text(content.to_string())),
        name: None,
        tool_call_id: None,
        tool_calls: None,
        function_call: None,
        refusal: None,
        audio: None,
    }
}

fn request(messages: Vec<Message>) -> ChatCompletionsRequest {
    ChatCompletionsRequest {
        model: "m".to_string(),
        messages,
        tools: None,
        tool_choice: None,
        parallel_tool_calls: None,
        response_format: None,
    }
}

fn nothing() -> ToolContext {
    ToolContext { defs_text: None, instruction_text: None }
}

fn function_tool(name: &str, description: &str, schema: &str) -> Tool {
    Tool {
        ty: "function".to_string(),
        function: Some(FunctionDefinition {
            name: name.to_string(),
            description: Some(description.to_string()),
            parameters: json(schema),
        }),
        custom: None,
    }
}

fn call(name: &str, arguments: &str) -> ToolCall {
    ToolCall {
        id: "call_1".to_string(),
        ty: "function".to_string(),
        function: Some(FunctionCall { name: name.to_string(), arguments: arguments.to_string() }),
        custom: None,
        index: 0,
    }
}

fn part(ty: &str, text: Option<&str>) -> ContentPart {
    ContentPart {
        ty: ty.to_string(),
        text: text.map(|s| s.to_string()),
        refusal: Some("no".to_string()),
        image_url: None,
        input_audio: None,
        file: None,
    }
}

#[test]
fn tools_make_a_section() {
    let mut req = request(vec![]);
    req.tools = Some(vec![
        function_tool(
            "get_weather",
            "获取指定城市的天气信息",
            "{\"type\":\"object\",\"properties\":{\"city\":{\"type\":\"string\"}},\"required\":[\"city\"]}",
        ),
        function_tool(
            "calc",
            "计算数学表达式",
            "{\"type\":\"object\",\"properties\":{\"expression\":{\"type\":\"string\"}},\"required\":[\"expression\"]}",
        ),
    ]);
    let ctx = extract(&req).unwrap();
    let want = "### Tool get_weather\nDescription: 获取指定城市的天气信息\nValid call format for get_weather:\n<get_weather>\n{\"city\": \"Beijing\"}\n</get_weather>\nParameters JSON Schema: {\"type\":\"object\",\"properties\":{\"city\":{\"type\":\"string\"}},\"required\":[\"city\"]}\n\n### Tool calc\nDescription: 计算数学表达式\nValid call format for calc:\n<calc>\n{\"expression\": \"1+1\"}\n</calc>\nParameters JSON Schema: {\"type\":\"object\",\"properties\":{\"expression\":{\"type\":\"string\"}},\"required\":[\"expression\"]}";
    assert_eq!(ctx.defs_text.as_deref(), Some(want));
    assert!(ctx.instruction_text.is_none());
    let prompt = build_with(&req, &ctx, "W");
    assert_eq!(
        prompt,
        format!("<｜System｜>## Tools\n\n{want}\n\nW\n<｜Assistant｜>\n")
    );
}

#[test]
fn a_conversation_in_marks() {
    let mut answer = message("assistant", "看看");
    answer.tool_calls = Some(vec![call("get_weather", "{\"city\": \"北京\"}"), call("t", "bad")]);
    answer.function_call =
        Some(FunctionCall { name: "f".to_string(), arguments: "[1, 2]".to_string() });
    answer.refusal = Some("r".to_string());
    let mut named = message("user", "hi");
    named.name = Some("Ann".to_string());
    let mut silent = message("tool", "");
    silent.content = None;
    let req = request(vec![
        message("system", "be kind"),
        named,
        answer,
        message("tool", "晴"),
        silent,
        message("tool", "雨"),
        message("function", "done"),
    ]);
    let prompt = build_with(&req, &nothing(), "W");
    assert_eq!(
        prompt,
        "<｜System｜>be kind<｜end▁of▁sentence｜><｜User｜>(name: Ann)\nhi<｜Assistant｜>看看\n<get_weather>\n{\"city\":\"北京\"}\n</get_weather>\n<t>\nnull\n</t>\n<f>\n[1,2]\n</f>\n(refusal: r)<｜tool▁outputs▁begin｜><｜tool▁output▁begin｜>晴<｜tool▁output▁end｜><｜tool▁output▁begin｜>雨<｜tool▁output▁end｜><｜tool▁outputs▁end｜><｜Function｜>done"
    );
}

#[test]
fn sections_end_the_system_message() {
    let ctx = ToolContext {
        defs_text: Some("D".to_string()),
        instruction_text: Some("I".to_string()),
    };
    let mut req = request(vec![message("system", "one\ntwo"), message("user", "u")]);
    req.response_format = Some(ResponseFormat { ty: "json_object".to_string(), json_schema: None });
    let format = format_response_text(req.response_format.as_ref().unwrap());
    assert_eq!(
        build_with(&req, &ctx, "W"),
        format!("<｜System｜>one\ntwo\n\n## Tools\n\nD\n\nW\n\n## 调用指令\nI\n\n## 输出格式\n{format}<｜end▁of▁sentence｜><｜User｜>u<｜Assistant｜>\n")
    );
    let req = request(vec![message("system", "one\n"), message("assistant", "a")]);
    let ctx = ToolContext { defs_text: None, instruction_text: Some("I".to_string()) };
    assert_eq!(
        build_with(&req, &ctx, "W"),
        "<｜System｜>one\n\n## 调用指令\nI\n<｜Assistant｜>a"
    );
}

#[test]
fn every_prompt_has_an_assistant_mark() {
    assert_eq!(build_with(&request(vec![]), &nothing(), "W"), "<｜Assistant｜>\n");
    let ctx = ToolContext { defs_text: Some("D".to_string()), instruction_text: None };
    let built = build(&request(vec![]), &ctx);
    let wordings: Vec<String> = (0..INSTRUCTION_VARIANTS)
        .map(|k| build_with(&request(vec![]), &ctx, instruction_wording(k)))
        .collect();
    assert!(wordings.contains(&built));
    assert!(built.ends_with("<｜Assistant｜>\n"));
}

#[test]
fn wordings_are_picked_by_the_clock() {
    assert_eq!(pick_index(123_456_789, 4), 1);
    assert_eq!(pick_index(123_456_789, 1), 0);
    assert_eq!(pick_index(123_456_789, 0), 0);
    for _ in 0..100 {
        assert!(jitter_index(4) < 4);
        assert_eq!(jitter_index(1), 0);
    }
    for k in 0..INSTRUCTION_VARIANTS {
        let w = instruction_wording(k);
        assert!(w.contains("<tool_name>{{...}}</tool_name>"));
        assert!(w.contains("<invoke") && w.contains("<tool_call>"));
    }
}

#[test]
fn neighbours_of_one_role_are_merged() {
    let mut first = message("assistant", "a");
    first.tool_calls = Some(vec![call("x", "{}")]);
    first.name = Some("old".to_string());
    first.refusal = Some("kept".to_string());
    let mut second = message("assistant", "b");
    second.tool_calls = Some(vec![call("y", "{}")]);
    second.name = Some("new".to_string());
    let mut parts = message("assistant", "");
    parts.content = Some(MessageContent::Parts(vec![part("text", Some("p"))]));
    let merged = merge_messages(&vec![
        first,
        second,
        parts,
        message("tool", "1"),
        message("tool", "2"),
        message("user", "u"),
    ]);
    assert_eq!(merged.len(), 4);
    assert_eq!(format_content(merged[0].content.as_ref().unwrap()), "a\nb\np");
    assert_eq!(merged[0].tool_calls.as_ref().unwrap().len(), 2);
    assert_eq!(merged[0].name.as_deref(), Some("new"));
    assert_eq!(merged[0].refusal.as_deref(), Some("kept"));
    let roles: Vec<&str> = merged.iter().map(|m| m.role.as_str()).collect();
    assert_eq!(roles, ["assistant", "tool", "tool", "user"]);
}

#[test]
fn parts_are_merged_as_parts() {
    let with_parts = |t: &str| {
        let mut m = message("user", "");
        m.content = Some(MessageContent::Parts(vec![part("text", Some(t))]));
        m
    };
    let mut empty = message("user", "");
    empty.content = None;
    let merged = merge_messages(&vec![empty, with_parts("a"), with_parts("b")]);
    assert_eq!(merged.len(), 1);
    match merged[0].content.as_ref().unwrap() {
        MessageContent::Parts(p) => assert_eq!(p.len(), 2),
        MessageContent::Text(_) => panic!(),
    }
}

#[test]
fn parts_as_text() {
    assert_eq!(format_part(&part("text", Some("t"))), "t");
    assert_eq!(format_part(&part("text", None)), "");
    assert_eq!(format_part(&part("refusal", None)), "no");
    assert_eq!(format_part(&part("image_url", None)), "[图片]");
    let image = |url: &str, detail: Option<&str>| {
        let mut p = part("image_url", None);
        p.image_url =
            Some(ImageUrl { url: url.to_string(), detail: detail.map(|d| d.to_string()) });
        format_part(&p)
    };
    assert_eq!(image("http://a/b", None), "[请访问这个链接: http://a/b]");
    assert_eq!(image("https://a", Some("low")), "[请访问这个链接: https://a]");
    assert_eq!(image("data:x", Some("low")), "[图片: detail=low]");
    assert_eq!(image("data:x", None), "[图片: detail=auto]");
    assert_eq!(format_part(&part("input_audio", None)), "[音频: format=unknown]");
    let mut audio = part("input_audio", None);
    audio.input_audio = Some(InputAudio { data: String::new(), format: "wav".to_string() });
    assert_eq!(format_part(&audio), "[音频: format=wav]");
    assert_eq!(format_part(&part("file", Some(""))), "[文件: filename=unknown]");
    let mut file = part("file", Some("notes"));
    file.file = Some(FileContent {
        file_data: None,
        file_id: None,
        filename: Some("n.txt".to_string()),
    });
    assert_eq!(format_part(&file), "[文件: notes (filename=n.txt)]");
    assert_eq!(format_part(&part("video", None)), "[未支持的内容类型: video]");
}

#[test]
fn roles_as_marks() {
    assert_eq!(role_tag("user"), "<｜User｜>");
    assert_eq!(role_tag("Zed"), "<｜Zed｜>");
    assert_eq!(role_tag("你"), "<｜你｜>");
    assert_eq!(role_tag(""), "<｜｜>");
    assert_eq!(
        format_message(&message("tool", "x")),
        "<｜tool▁outputs▁begin｜><｜tool▁output▁begin｜>x<｜tool▁output▁end｜><｜tool▁outputs▁end｜>"
    );
}

#[test]
fn output_formats() {
    let format = |ty: &str, schema: Option<Value>| {
        format_response_text(&ResponseFormat { ty: ty.to_string(), json_schema: schema })
    };
    assert_eq!(format("text", None), "");
    assert_eq!(format("json_schema", None), "以 JSON 的形式输出。");
    assert_eq!(
        format("json_schema", Some(json("{\"b\": 1, \"a\": 2}"))),
        "以 JSON 的形式输出，输出的 JSON 需遵守以下的格式：\n\n~~~json\n{\"b\":1,\"a\":2}\n~~~"
    );
    assert_eq!(format("yaml", None), "请以 yaml 格式输出。");
}

#[test]
fn shown_calls_are_read_back() {
    let mut m = message("assistant", "");
    m.content = None;
    m.tool_calls = Some(vec![call("get_weather", "{ \"city\" : \"<北京>\" }")]);
    let shown = format_message(&m);
    let text = shown.strip_prefix("<｜Assistant｜>").unwrap();
    let config = TagConfig { tool_names: vec!["get_weather".to_string()] };
    let mut ids = ds_free_api::call_ids::CallIds::new();
    let (calls, rest) = parse_tool_calls_with(text, &config, &mut ids).unwrap();
    assert_eq!(calls.len(), 1);
    assert_eq!(rest, "");
    let f = calls[0].function.as_ref().unwrap();
    assert_eq!((f.name.as_str(), f.arguments.as_str()), ("get_weather", "{\"city\":\"<北京>\"}"));
}

fn one_tool() -> Option<Vec<Tool>> {
    Some(vec![function_tool("t", "d", "{}")])
}

fn error_of(choice: ToolChoice, tools: Option<Vec<Tool>>) -> String {
    let mut req = request(vec![]);
    req.tools = tools;
    req.tool_choice = Some(choice);
    extract(&req).unwrap_err()
}

fn mode(m: &str) -> ToolChoice {
    ToolChoice::Mode(m.to_string())
}

fn named(name: &str) -> ToolChoice {
    ToolChoice::Named(NamedToolChoice {
        ty: "function".to_string(),
        function: ToolName { name: name.to_string() },
    })
}

fn allowed(m: &str, tools: Option<Vec<Value>>) -> ToolChoice {
    ToolChoice::AllowedTools(AllowedToolsChoice {
        ty: "allowed_tools".to_string(),
        allowed_tools: AllowedTools { mode: m.to_string(), tools },
    })
}

#[test]
fn tool_choices_are_validated() {
    assert_eq!(error_of(mode("maybe"), one_tool()), "tool_choice 无效模式: maybe");
    let missing = "tool_choice 为 'auto' 或 'required' 时必须提供 tools";
    assert_eq!(error_of(mode("auto"), None), missing);
    assert_eq!(error_of(mode("required"), Some(vec![])), missing);
    assert_eq!(error_of(named("t"), None), "tool_choice 指定了具体工具时必须提供 tools");
    assert_eq!(
        error_of(allowed("auto", None), None),
        "tool_choice 指定了 allowed_tools 时必须提供 tools"
    );
    assert_eq!(
        error_of(allowed("none", None), one_tool()),
        "allowed_tools.mode 必须是 'auto' 或 'required'，收到: none"
    );
}

#[test]
fn tools_are_validated() {
    let bad = |ty: &str| {
        let mut tool = function_tool("t", "", "{}");
        tool.ty = ty.to_string();
        tool.function = None;
        let mut req = request(vec![]);
        req.tools = Some(vec![function_tool("ok", "", "{}"), tool]);
        extract(&req).unwrap_err()
    };
    assert_eq!(bad("function"), "tools[1] 类型为 'function' 时必须提供 function 定义");
    assert_eq!(bad("custom"), "tools[1] 类型为 'custom' 时必须提供 custom 定义");
    assert_eq!(bad("web"), "tools[1] 不支持的类型: web");
    let nameless = function_tool("\u{3000} ", "", "{}");
    let mut req = request(vec![]);
    req.tools = Some(vec![nameless]);
    assert_eq!(extract(&req).unwrap_err(), "tools 中 function 缺少必填字段 'name'");
}

fn instructions(choice: Option<ToolChoice>, parallel: Option<bool>) -> Option<String> {
    let mut req = request(vec![]);
    req.tools = one_tool();
    req.tool_choice = choice;
    req.parallel_tool_calls = parallel;
    extract(&req).unwrap().instruction_text
}

#[test]
fn choices_become_instructions() {
    assert!(instructions(None, None).is_none());
    assert!(instructions(None, Some(true)).is_none());
    let required = "注意：你必须调用一个或多个工具。";
    let single = "注意：一次只能调用一个工具。";
    assert_eq!(
        instructions(Some(mode("required")), Some(false)).unwrap(),
        format!("{required}\n{single}")
    );
    assert_eq!(instructions(Some(named("t")), None).unwrap(), "注意：你必须调用 't' 工具。");
    let custom = ToolChoice::Custom(CustomToolChoice {
        ty: "custom".to_string(),
        custom: ToolName { name: "c".to_string() },
    });
    assert_eq!(instructions(Some(custom), None).unwrap(), "注意：你必须调用 'c' 自定义工具。");
    let list = vec![
        json("{\"function\":{\"name\":\"a\"}}"),
        json("{\"function\":{\"name\":7}}"),
        json("{\"custom\":{\"name\":\"z\"}}"),
        json("\"text\""),
        json("{\"function\":{\"name\":\"b\"}}"),
    ];
    assert_eq!(
        instructions(Some(allowed("required", Some(list))), None).unwrap(),
        format!("注意：你只能从以下允许的工具中选择：a, b。\n{required}")
    );
    assert!(instructions(Some(allowed("auto", Some(vec![]))), None).is_none());
}

#[test]
fn no_tools_no_context() {
    let mut req = request(vec![]);
    let ctx = extract(&req).unwrap();
    assert!(ctx.defs_text.is_none() && ctx.instruction_text.is_none());
    req.tools = one_tool();
    req.tool_choice = Some(mode("none"));
    req.parallel_tool_calls = Some(false);
    let ctx = extract(&req).unwrap();
    assert!(ctx.defs_text.is_none() && ctx.instruction_text.is_none());
    req.tools = Some(vec![]);
    req.tool_choice = Some(named("t"));
    let ctx = extract(&req).unwrap();
    assert!(ctx.defs_text.is_none());
    assert!(ctx.instruction_text.is_some());
}

#[test]
fn tools_are_described() {
    let f = FunctionDefinition {
        name: "t".to_string(),
        description: Some("  ".to_string()),
        parameters: Value::Null,
    };
    assert_eq!(
        render_function_schema(&f).unwrap(),
        "### Tool t\nDescription: (无描述)\nValid call format for t:\n<t>\n{\"key\": \"value\"}\n</t>\nParameters JSON Schema: null"
    );
    let custom = |format: Option<CustomToolFormat>, description: Option<&str>| {
        render_custom_schema(&CustomTool {
            name: "c".to_string(),
            description: description.map(|d| d.to_string()),
            format,
        })
    };
    let tail = "Valid call format for c:\n<c>\n(自定义格式内容)\n</c>";
    assert_eq!(
        custom(None, Some(" d ")),
        format!("### Tool c (custom, format: 无约束)\nDescription: d\n{tail}")
    );
    assert_eq!(
        custom(Some(CustomToolFormat::Text), None),
        format!("### Tool c (custom, format: text)\nDescription: (无描述)\n{tail}")
    );
    let grammar = Grammar { definition: "x".to_string(), syntax: "lark".to_string() };
    assert_eq!(
        custom(Some(CustomToolFormat::Grammar { grammar }), None),
        format!("### Tool c (custom, format: grammar(syntax: lark))\nDescription: (无描述)\n{tail}")
    );
}

#[test]
fn examples_of_arguments() {
    for (name, example) in [
        ("Read", "{\"file_path\": \"/path/to/file\"}"),
        ("read_file", "{\"file_path\": \"/path/to/file\"}"),
        ("Bash", "{\"command\": \"ls -la\"}"),
        ("execute_command", "{\"command\": \"ls -la\"}"),
        ("exec_command", "{\"command\": \"ls -la\"}"),
        ("Write", "{\"file_path\": \"/path/to/file\", \"content\": \"hello\"}"),
        ("write_to_file", "{\"file_path\": \"/path/to/file\", \"content\": \"hello\"}"),
        (
            "Edit",
            "{\"file_path\": \"/path/to/file\", \"old_string\": \"foo\", \"new_string\": \"bar\"}",
        ),
        ("Glob", "{\"pattern\": \"**/*.rs\", \"path\": \".\"}"),
        ("search_files", "{\"query\": \"TODO\", \"path\": \".\"}"),
        ("get_weather", "{\"city\": \"Beijing\"}"),
        ("get_time", "{\"timezone\": \"Asia/Shanghai\"}"),
        ("list_files", "{\"path\": \".\"}"),
        ("calc", "{\"expression\": \"1+1\"}"),
        ("other", "{\"key\": \"value\"}"),
    ] {
        assert_eq!(example_payload(name), example);
    }
}

#[test]
fn no_thinking_block_is_added() {
    let mut answer = message("assistant", "a <thin");
    answer.tool_calls = Some(vec![call("thinker", "{\"k\": \"k>\"}")]);
    answer.refusal = Some("think>".to_string());
    let mut named = message("user", "<think");
    named.name = Some("think>".to_string());
    let req = request(vec![
        message("system", "<"),
        message("system", "think>"),
        named,
        message("user", ">"),
        answer,
        message("tool", "<think"),
        message("tool", ">"),
    ]);
    let ctx = ToolContext {
        defs_text: Some("<think".to_string()),
        instruction_text: Some("think>".to_string()),
    };
    for k in 0..INSTRUCTION_VARIANTS {
        assert!(!build_with(&req, &ctx, instruction_wording(k)).contains("<think>"));
    }
    let said = build_with(&request(vec![message("user", "<think>")]), &nothing(), "W");
    assert!(said.contains("<think>"));
}

#[test]
fn the_assistant_mark_ends_prompts_without_an_answer() {
    let asked = request(vec![
        message("system", "s"),
        message("developer", "d"),
        message("user", "u"),
        message("tool", "t"),
        message("function", "f"),
    ]);
    assert!(build_with(&asked, &nothing(), "W").ends_with("<｜Assistant｜>\n"));
    let answered = request(vec![message("user", "u"), message("assistant", "a")]);
    assert!(build_with(&answered, &nothing(), "W").ends_with("<｜Assistant｜>a"));
    let asked_on =
        request(vec![message("assistant", "a"), message("assistant", "b"), message("user", "u")]);
    let prompt = build_with(&asked_on, &nothing(), "W");
    assert!(prompt.ends_with("u"));
    assert_eq!(prompt.matches("<｜Assistant｜>").count(), 1);
}

#[test]
fn a_replayed_message_is_read_back() {
    let mut answer = message("assistant", "看看");
    answer.tool_calls = Some(vec![call("a", "{\"x\": 1}"), call("b", "{}")]);
    let prompt = build_with(&request(vec![answer]), &nothing(), "W");
    let body = prompt.strip_prefix("<｜Assistant｜>").unwrap();
    let config = TagConfig { tool_names: vec!["a".to_string(), "b".to_string()] };
    let (calls, rest) =
        parse_tool_calls_with(body, &config, &mut ds_free_api::call_ids::CallIds::new()).unwrap();
    assert_eq!(rest, "看看\n\n");
    let read: Vec<(&str, &str)> = calls
        .iter()
        .map(|c| c.function.as_ref().unwrap())
        .map(|f| (f.name.as_str(), f.arguments.as_str()))
        .collect();
    assert_eq!(read, [("a", "{\"x\":1}"), ("b", "{}")]);
}

#[test]
fn a_lone_replayed_call_is_read_back() {
    for arguments in ["{\"n\": -3, \"e\": [18446744073709551615, true], \"s\": \"1.5e3 \\u00e9\"}", "{ }"] {
        let mut answer = message("assistant", "");
        answer.content = None;
        answer.tool_calls = Some(vec![call("a.b-c", arguments)]);
        let body = format_assistant(&answer);
        let compact = serde_json::to_string(&json(arguments)).unwrap();
        assert_eq!(body, format!("<a.b-c>\n{compact}\n</a.b-c>"));
        let config = TagConfig { tool_names: vec!["a.b-c".to_string()] };
        let (calls, rest) =
            parse_tool_calls_with(&body, &config, &mut ds_free_api::call_ids::CallIds::new())
                .unwrap();
        assert_eq!(calls.len(), 1);
        assert_eq!(calls[0].function.as_ref().unwrap().name, "a.b-c");
        assert_eq!(calls[0].function.as_ref().unwrap().arguments, compact);
        assert_eq!(rest, "");
    }
}
