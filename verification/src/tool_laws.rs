//! What holds of what a request says of its tools.

use serde_json::Value;
use vstd::prelude::*;

use crate::json;
use crate::prompt;
use crate::text;
use crate::tools;
use crate::tools::{ChoiceSpec, ContextView};
use crate::types;
use crate::types::{
    ChatCompletionsRequest, CustomTool, CustomToolFormat, FunctionDefinition, Tool, ToolChoice,
};

verus! {

// ---------------------------------------------------------------------------
// The choice
// ---------------------------------------------------------------------------

/// Whether a request lists a tool.
pub open spec fn lists_tools(req: ChatCompletionsRequest) -> bool {
    match req.tools {
        Some(t) => t@.len() > 0,
        None => false,
    }
}

/// Whether a request rules tools out: it says so, or says nothing and lists none.
pub open spec fn rules_tools_out(req: ChatCompletionsRequest) -> bool {
    match req.tool_choice {
        Some(ToolChoice::Mode(m)) => m@ == "none"@,
        Some(_) => false,
        None => !lists_tools(req),
    }
}

/// Whether the choice of a request can be followed: a mode that is known, with tools to
/// choose from, or a tool of a list of tools.
pub open spec fn choice_is_sound(req: ChatCompletionsRequest) -> bool {
    match req.tool_choice {
        None => true,
        Some(ToolChoice::Mode(m)) => m@ == "none"@ || (m@ == "auto"@ || m@ == "required"@)
            && lists_tools(req),
        Some(ToolChoice::AllowedTools(a)) => req.tools is Some && (a.allowed_tools.mode@ == "auto"@
            || a.allowed_tools.mode@ == "required"@),
        Some(ToolChoice::Named(_)) => req.tools is Some,
        Some(ToolChoice::Custom(_)) => req.tools is Some,
    }
}

/// Whether a tool can be described: a function with a name, or a custom tool.
pub open spec fn tool_is_sound(tool: Tool) -> bool {
    if tool.ty@ == "function"@ {
        match tool.function {
            Some(f) => text::trimmed(f.name@).len() > 0,
            None => false,
        }
    } else {
        tool.ty@ == "custom"@ && tool.custom is Some
    }
}

/// The modes are different.
proof fn lemma_modes()
    ensures
        "none"@ != "auto"@,
        "none"@ != "required"@,
        "auto"@ != "required"@,
        "function"@ != "custom"@,
{
    reveal_strlit("none");
    reveal_strlit("auto");
    reveal_strlit("required");
    reveal_strlit("function");
    reveal_strlit("custom");
    assert("none"@[0] != "auto"@[0]);
    assert("none"@[0] != "required"@[0]);
    assert("auto"@[0] != "required"@[0]);
    assert("function"@[0] != "custom"@[0]);
}

/// A list of tools can be described exactly if each of them can.
proof fn lemma_tools_are_described(list: Seq<Tool>)
    ensures
        tools::tool_texts(list) is Ok == forall|i: int|
            0 <= i < list.len() ==> tool_is_sound(#[trigger] list[i]),
    decreases list.len(),
{
    lemma_modes();
    if list.len() > 0 {
        let less = list.drop_last();
        lemma_tools_are_described(less);
        if tools::tool_texts(list) is Ok {
            assert forall|i: int| 0 <= i < list.len() implies tool_is_sound(#[trigger] list[i]) by {
                if i < less.len() {
                    assert(less[i] == list[i]);
                }
            }
        }
        if forall|i: int| 0 <= i < list.len() ==> tool_is_sound(#[trigger] list[i]) {
            assert forall|i: int| 0 <= i < less.len() implies tool_is_sound(#[trigger] less[i]) by {
                assert(less[i] == list[i]);
            }
            assert(tool_is_sound(list[list.len() - 1]));
        }
    }
}

/// A request is accepted exactly if its choice can be followed and, unless it rules tools
/// out, each of its tools can be described.
pub proof fn law_sound_requests_are_accepted(req: ChatCompletionsRequest)
    ensures
        tools::context_of(req) is Ok == (choice_is_sound(req) && (rules_tools_out(req) || match req.tools {
            Some(t) => forall|i: int| 0 <= i < t@.len() ==> tool_is_sound(#[trigger] t@[i]),
            None => true,
        })),
{
    lemma_modes();
    if let Some(t) = req.tools {
        lemma_tools_are_described(t@);
    }
}

/// A tool that cannot be described is told by its place in the list, the first such tool
/// before all others.
pub proof fn law_first_bad_tool_is_told(list: Seq<Tool>, i: int)
    requires
        0 <= i < list.len(),
        forall|j: int| 0 <= j < i ==> tool_is_sound(#[trigger] list[j]),
        !tool_is_sound(list[i]),
    ensures
        tools::tool_texts(list) == Err::<Seq<Seq<char>>, Seq<char>>(
            if list[i].ty@ == "function"@ {
                match list[i].function {
                    Some(_) => "tools 中 function 缺少必填字段 'name'"@,
                    None => "tools["@ + text::decimal(i as nat)
                        + "] 类型为 'function' 时必须提供 function 定义"@,
                }
            } else if list[i].ty@ == "custom"@ {
                "tools["@ + text::decimal(i as nat) + "] 类型为 'custom' 时必须提供 custom 定义"@
            } else {
                "tools["@ + text::decimal(i as nat) + "] 不支持的类型: "@ + list[i].ty@
            },
        ),
    decreases list.len(),
{
    lemma_modes();
    let less = list.drop_last();
    if i < less.len() {
        assert(less[i] == list[i]);
        assert forall|j: int| 0 <= j < i implies tool_is_sound(#[trigger] less[j]) by {
            assert(less[j] == list[j]);
        }
        law_first_bad_tool_is_told(less, i);
    } else {
        lemma_tools_are_described(less);
        assert forall|j: int| 0 <= j < less.len() implies tool_is_sound(#[trigger] less[j]) by {
            assert(less[j] == list[j]);
        }
    }
}

/// A choice that cannot be followed is told for what it is.
pub proof fn law_bad_choices_are_told(req: ChatCompletionsRequest)
    requires
        !choice_is_sound(req),
    ensures
        tools::context_of(req) == Err::<ContextView, Seq<char>>(
            match req.tool_choice->0 {
                ToolChoice::Mode(m) => if m@ == "auto"@ || m@ == "required"@ {
                    "tool_choice 为 'auto' 或 'required' 时必须提供 tools"@
                } else {
                    "tool_choice 无效模式: "@ + m@
                },
                ToolChoice::AllowedTools(a) => if req.tools is None {
                    "tool_choice 指定了 allowed_tools 时必须提供 tools"@
                } else {
                    "allowed_tools.mode 必须是 'auto' 或 'required'，收到: "@ + a.allowed_tools.mode@
                },
                _ => "tool_choice 指定了具体工具时必须提供 tools"@,
            },
        ),
{
    lemma_modes();
}

// ---------------------------------------------------------------------------
// Instructions
// ---------------------------------------------------------------------------

/// A text with one more line.
pub open spec fn with_line(t: Option<Seq<char>>, line: Seq<char>) -> Option<Seq<char>> {
    match t {
        Some(t) => Some(t + "\n"@ + line),
        None => Some(line),
    }
}

/// The instruction that a request would have if it let calls be made in parallel.
pub open spec fn parallel(req: ChatCompletionsRequest) -> ChatCompletionsRequest {
    ChatCompletionsRequest { parallel_tool_calls: None, ..req }
}

/// Lines that are put together with one more are the text of them, a line break and the
/// line.
proof fn lemma_one_more_line(lines: Seq<Seq<char>>, line: Seq<char>)
    ensures
        text::joined(lines + seq![line], "\n"@) == if lines.len() == 0 {
            line
        } else {
            text::joined(lines, "\n"@) + "\n"@ + line
        },
{
    assert(lines + seq![line] =~= lines.push(line));
    text::lemma_joined_push(lines, "\n"@, line);
}

/// A request that does not rule tools out and allows one call at a time says so to the
/// model, in the last line of its instruction, whatever its choice. It says nothing else
/// than it would say if calls could be made in parallel.
pub proof fn law_single_calls_are_told(req: ChatCompletionsRequest)
    requires
        tools::context_of(req) is Ok,
        !rules_tools_out(req),
        req.parallel_tool_calls == Some(false),
    ensures
        tools::context_of(parallel(req)) is Ok,
        tools::context_of(req)->Ok_0.instruction == with_line(
            tools::context_of(parallel(req))->Ok_0.instruction,
            "注意：一次只能调用一个工具。"@,
        ),
        "注意：一次只能调用一个工具。"@.is_suffix_of(
            tools::context_of(req)->Ok_0.instruction->0,
        ),
        tools::context_of(req)->Ok_0.defs == tools::context_of(parallel(req))->Ok_0.defs,
{
    lemma_modes();
    let line = "注意：一次只能调用一个工具。"@;
    let lines = tools::choice_lines(tools::effective_choice(req));
    assert(lines + Seq::<Seq<char>>::empty() =~= lines);
    lemma_one_more_line(lines, line);
    let t = tools::context_of(req)->Ok_0.instruction->0;
    assert(t.subrange(t.len() - line.len(), t.len() as int) =~= line);
}

/// A request that lets calls be made in parallel, or says nothing of it, is not restricted
/// to one call at a time.
pub proof fn law_parallel_calls_are_the_default(req: ChatCompletionsRequest)
    requires
        req.parallel_tool_calls != Some(false),
    ensures
        tools::context_of(req) == tools::context_of(parallel(req)),
{
}

/// What a request that lets calls be made in parallel instructs the model to do: nothing
/// where the model may choose, to call a tool where it must, and which tool where it is
/// named.
pub proof fn law_choices_are_told(req: ChatCompletionsRequest)
    requires
        tools::context_of(req) is Ok,
        !rules_tools_out(req),
        req.parallel_tool_calls != Some(false),
    ensures
        match req.tool_choice {
            None => tools::context_of(req)->Ok_0.instruction is None,
            Some(ToolChoice::Mode(m)) => tools::context_of(req)->Ok_0.instruction == if m@
                == "required"@ {
                Some("注意：你必须调用一个或多个工具。"@)
            } else {
                None
            },
            Some(ToolChoice::Named(n)) => tools::context_of(req)->Ok_0.instruction == Some(
                "注意：你必须调用 '"@ + n.function.name@ + "' 工具。"@,
            ),
            Some(ToolChoice::Custom(c)) => tools::context_of(req)->Ok_0.instruction == Some(
                "注意：你必须调用 '"@ + c.custom.name@ + "' 自定义工具。"@,
            ),
            Some(ToolChoice::AllowedTools(_)) => true,
        },
{
    lemma_modes();
    let lines = tools::choice_lines(tools::effective_choice(req));
    assert(lines + Seq::<Seq<char>>::empty() =~= lines);
}

/// The name of an allowed tool, where its entry gives one.
pub open spec fn names_tool(v: Value, name: Seq<char>) -> bool {
    match json::json_member(json::json_text(v), "function"@) {
        Some(f) => match json::json_member(f, "name"@) {
            Some(n) => json::json_unquote(n) == Some(name),
            None => false,
        },
        None => false,
    }
}

/// A list of allowed tools names each of its tools that has a name, in order.
pub proof fn law_allowed_tools_are_listed(list: Seq<Value>, v: Value, name: Seq<char>)
    ensures
        tools::allowed_names(Seq::empty()).len() == 0,
        names_tool(v, name) ==> tools::allowed_names(list.push(v)) == tools::allowed_names(
            list,
        ).push(name),
        (forall|n: Seq<char>| !names_tool(v, n)) ==> tools::allowed_names(list.push(v))
            == tools::allowed_names(list),
{
    assert(list.push(v).drop_last() =~= list);
    if forall|n: Seq<char>| !names_tool(v, n) {
        if let Some(n) = tools::allowed_name(v) {
            assert(names_tool(v, n));
        }
    }
}

/// A request that allows some of its tools tells their names to the model, and that it must
/// call one of them where it must.
pub proof fn law_allowed_tools_are_told(req: ChatCompletionsRequest)
    requires
        tools::context_of(req) is Ok,
        req.parallel_tool_calls != Some(false),
        match req.tool_choice {
            Some(ToolChoice::AllowedTools(_)) => true,
            _ => false,
        },
    ensures
        ({
            let allowed = match req.tool_choice {
                Some(ToolChoice::AllowedTools(a)) => a.allowed_tools,
                _ => arbitrary(),
            };
            let names = match allowed.tools {
                Some(list) => tools::allowed_names(list@),
                None => Seq::empty(),
            };
            let listed = if names.len() == 0 {
                None
            } else {
                Some("注意：你只能从以下允许的工具中选择："@ + text::joined(names, ", "@) + "。"@)
            };
            tools::context_of(req)->Ok_0.instruction == if allowed.mode@ == "required"@ {
                with_line(listed, "注意：你必须调用一个或多个工具。"@)
            } else {
                listed
            }
        }),
{
    lemma_modes();
    let choice = tools::effective_choice(req);
    let lines = tools::choice_lines(choice);
    assert(lines + Seq::<Seq<char>>::empty() =~= lines);
    if let ChoiceSpec::AllowedTools { mode, tools: list } = choice {
        let first = tools::allowed_list(list);
        if mode == "required"@ {
            lemma_one_more_line(first, "注意：你必须调用一个或多个工具。"@);
        } else {
            assert(first + Seq::<Seq<char>>::empty() =~= first);
        }
    }
}

// ---------------------------------------------------------------------------
// Descriptions
// ---------------------------------------------------------------------------

/// What a request says of tools that it lists and does not rule out: the description of each
/// of them, in order.
pub proof fn law_listed_tools_are_described(req: ChatCompletionsRequest)
    requires
        tools::context_of(req) is Ok,
    ensures
        tools::context_of(req)->Ok_0.defs is Some == (lists_tools(req) && !rules_tools_out(req)),
        tools::context_of(req)->Ok_0.defs is Some ==> tools::context_of(req)->Ok_0.defs->0
            == text::joined(tools::tool_texts(req.tools->0@)->Ok_0, "\n\n"@),
        rules_tools_out(req) ==> tools::context_of(req)->Ok_0.instruction is None,
{
    lemma_modes();
}

/// One more tool adds its description behind those of the others.
pub proof fn law_one_more_tool(list: Seq<Tool>, tool: Tool)
    requires
        tools::tool_texts(list) is Ok,
        tool_is_sound(tool),
    ensures
        tools::tool_texts(Seq::empty()) == Ok::<Seq<Seq<char>>, Seq<char>>(Seq::empty()),
        tools::tool_texts(list.push(tool)) is Ok,
        tools::tool_texts(list.push(tool))->Ok_0 == tools::tool_texts(list)->Ok_0.push(
            if tool.ty@ == "function"@ {
                tools::function_text(tool.function->0)
            } else {
                tools::custom_text(tool.custom->0)
            },
        ),
{
    lemma_modes();
    assert(list.push(tool).drop_last() =~= list);
}

/// The description of a tool in a text: without one, or with white space alone, it is said
/// that there is none.
pub open spec fn says(description: Option<String>) -> Seq<char> {
    match description {
        Some(d) => if text::trimmed(d@).len() > 0 {
            text::trimmed(d@)
        } else {
            "(无描述)"@
        },
        None => "(无描述)"@,
    }
}

proof fn lemma_description(description: Option<String>)
    ensures
        tools::description_line(types::opt_text(description)) == "Description: "@ + says(
            description,
        ) + "\n"@,
{
    reveal_strlit("Description: (无描述)\n");
    reveal_strlit("Description: ");
    reveal_strlit("(无描述)");
    reveal_strlit("\n");
    assert("Description: (无描述)\n"@ =~= "Description: "@ + "(无描述)"@ + "\n"@);
}

/// A function is described by its name, its description, an example call in the form in
/// which calls are read, and the schema of its parameters.
pub proof fn law_function_is_described(f: FunctionDefinition)
    ensures
        tools::function_text(f) == "### Tool "@ + f.name@ + "\nDescription: "@ + says(
            f.description,
        ) + "\nValid call format for "@ + f.name@ + ":\n"@ + prompt::call_text(
            f.name@,
            tools::example_for(f.name@),
        ) + "\nParameters JSON Schema: "@ + json::json_text(f.parameters),
{
    lemma_description(f.description);
    lemma_glue();
    assert(tools::function_text(f) =~= "### Tool "@ + f.name@ + "\nDescription: "@ + says(
        f.description,
    ) + "\nValid call format for "@ + f.name@ + ":\n"@ + prompt::call_text(
        f.name@,
        tools::example_for(f.name@),
    ) + "\nParameters JSON Schema: "@ + json::json_text(f.parameters));
}

/// How the fixed texts fit together.
proof fn lemma_glue()
    ensures
        "\nDescription: "@ == "\n"@ + "Description: "@,
        ")\nDescription: "@ == ")\n"@ + "Description: "@,
        "\nValid call format for "@ == "\n"@ + "Valid call format for "@,
        ":\n<"@ == ":\n"@ + "<"@,
{
    reveal_strlit("\n");
    reveal_strlit(")\n");
    reveal_strlit("Description: ");
    reveal_strlit("\nDescription: ");
    reveal_strlit(")\nDescription: ");
    reveal_strlit("Valid call format for ");
    reveal_strlit("\nValid call format for ");
    reveal_strlit(":\n<");
    reveal_strlit(":\n");
    reveal_strlit("<");
    assert("\nDescription: "@ =~= "\n"@ + "Description: "@);
    assert(")\nDescription: "@ =~= ")\n"@ + "Description: "@);
    assert("\nValid call format for "@ =~= "\n"@ + "Valid call format for "@);
    assert(":\n<"@ =~= ":\n"@ + "<"@);
}

/// A custom tool is described by its name, the format of its input, its description and an
/// example call.
pub proof fn law_custom_tool_is_described(c: CustomTool)
    ensures
        tools::custom_text(c) == "### Tool "@ + c.name@ + " (custom, format: "@ + (match c.format {
            Some(CustomToolFormat::Text) => "text"@,
            Some(CustomToolFormat::Grammar { grammar }) => "grammar(syntax: "@ + grammar.syntax@
                + ")"@,
            None => "无约束"@,
        }) + ")\nDescription: "@ + says(c.description) + "\nValid call format for "@ + c.name@
            + ":\n"@ + prompt::call_text(c.name@, "(自定义格式内容)"@),
{
    lemma_description(c.description);
    lemma_glue();
    let format = match c.format {
        Some(CustomToolFormat::Text) => "text"@,
        Some(CustomToolFormat::Grammar { grammar }) => "grammar(syntax: "@ + grammar.syntax@
            + ")"@,
        None => "无约束"@,
    };
    assert(tools::custom_text(c) =~= "### Tool "@ + c.name@ + " (custom, format: "@ + format
        + ")\nDescription: "@ + says(c.description) + "\nValid call format for "@ + c.name@
        + ":\n"@ + prompt::call_text(c.name@, "(自定义格式内容)"@));
}

/// The example of every function is an object in braces.
pub proof fn law_examples_are_objects(name: Seq<char>)
    ensures
        json::is_object_text(tools::example_for(name)),
{
    reveal_strlit("{\"file_path\": \"/path/to/file\"}");
    reveal_strlit("{\"command\": \"ls -la\"}");
    reveal_strlit("{\"file_path\": \"/path/to/file\", \"content\": \"hello\"}");
    reveal_strlit(
        "{\"file_path\": \"/path/to/file\", \"old_string\": \"foo\", \"new_string\": \"bar\"}",
    );
    reveal_strlit("{\"pattern\": \"**/*.rs\", \"path\": \".\"}");
    reveal_strlit("{\"query\": \"TODO\", \"path\": \".\"}");
    reveal_strlit("{\"city\": \"Beijing\"}");
    reveal_strlit("{\"timezone\": \"Asia/Shanghai\"}");
    reveal_strlit("{\"path\": \".\"}");
    reveal_strlit("{\"expression\": \"1+1\"}");
    reveal_strlit("{\"key\": \"value\"}");
}

/// Whether the text of an object shows a key.
pub open spec fn shows_key(object: Seq<char>, key: Seq<char>) -> bool {
    prompt::mentions(object, seq!['"'] + key + seq!['"', ':'])
}

/// A key that stands at a place is shown.
proof fn lemma_shows_key(object: Seq<char>, key: Seq<char>, at: int)
    requires
        0 <= at,
        at + key.len() + 3 <= object.len(),
        object[at] == '"',
        object.subrange(at + 1, at + 1 + key.len()) =~= key,
        object[at + 1 + key.len()] == '"',
        object[at + 2 + key.len()] == ':',
    ensures
        shows_key(object, key),
{
    let part = seq!['"'] + key + seq!['"', ':'];
    assert forall|i: int| 0 <= i < part.len() implies #[trigger] part[i] == object[at + i] by {
        if 1 <= i <= key.len() {
            assert(object.subrange(at + 1, at + 1 + key.len())[i - 1] == object[at + i]);
        }
    }
    assert(object.subrange(at, at + part.len()) =~= part);
}

/// The example of a well-known tool shows the arguments that the tool takes. Other tools are
/// shown with an argument that stands for any.
pub proof fn law_examples_show_arguments(name: Seq<char>)
    ensures
        name == "Read"@ || name == "read_file"@ || name == "Write"@ || name == "write_to_file"@
            || name == "Edit"@ ==> shows_key(tools::example_for(name), "file_path"@),
        name == "Write"@ || name == "write_to_file"@ ==> shows_key(
            tools::example_for(name),
            "content"@,
        ),
        name == "Edit"@ ==> shows_key(tools::example_for(name), "old_string"@) && shows_key(
            tools::example_for(name),
            "new_string"@,
        ),
        name == "Bash"@ || name == "execute_command"@ || name == "exec_command"@ ==> shows_key(
            tools::example_for(name),
            "command"@,
        ),
        name == "Glob"@ ==> shows_key(tools::example_for(name), "pattern"@),
        name == "search_files"@ ==> shows_key(tools::example_for(name), "query"@),
        name == "Glob"@ || name == "search_files"@ || name == "list_files"@ ==> shows_key(
            tools::example_for(name),
            "path"@,
        ),
        name == "get_weather"@ ==> shows_key(tools::example_for(name), "city"@),
        name == "get_time"@ ==> shows_key(tools::example_for(name), "timezone"@),
        name == "calc"@ ==> shows_key(tools::example_for(name), "expression"@),
        name != "Read"@ && name != "read_file"@ && name != "Bash"@ && name != "execute_command"@
            && name != "exec_command"@ && name != "Write"@ && name != "write_to_file"@ && name
            != "Edit"@ && name != "Glob"@ && name != "search_files"@ && name != "get_weather"@
            && name != "get_time"@ && name != "list_files"@ && name != "calc"@ ==> shows_key(
            tools::example_for(name),
            "key"@,
        ),
{
    reveal_strlit("{\"file_path\": \"/path/to/file\"}");
    reveal_strlit("{\"command\": \"ls -la\"}");
    reveal_strlit("{\"file_path\": \"/path/to/file\", \"content\": \"hello\"}");
    reveal_strlit(
        "{\"file_path\": \"/path/to/file\", \"old_string\": \"foo\", \"new_string\": \"bar\"}",
    );
    reveal_strlit("{\"pattern\": \"**/*.rs\", \"path\": \".\"}");
    reveal_strlit("{\"query\": \"TODO\", \"path\": \".\"}");
    reveal_strlit("{\"city\": \"Beijing\"}");
    reveal_strlit("{\"timezone\": \"Asia/Shanghai\"}");
    reveal_strlit("{\"path\": \".\"}");
    reveal_strlit("{\"expression\": \"1+1\"}");
    reveal_strlit("Read");
    reveal_strlit("read_file");
    reveal_strlit("Bash");
    reveal_strlit("execute_command");
    reveal_strlit("exec_command");
    reveal_strlit("Write");
    reveal_strlit("write_to_file");
    reveal_strlit("Edit");
    reveal_strlit("Glob");
    reveal_strlit("search_files");
    reveal_strlit("get_weather");
    reveal_strlit("get_time");
    reveal_strlit("list_files");
    reveal_strlit("calc");
    reveal_strlit("file_path");
    reveal_strlit("command");
    reveal_strlit("content");
    reveal_strlit("old_string");
    reveal_strlit("new_string");
    reveal_strlit("pattern");
    reveal_strlit("path");
    reveal_strlit("query");
    reveal_strlit("city");
    reveal_strlit("timezone");
    reveal_strlit("expression");
    reveal_strlit("key");
    reveal_strlit("{\"key\": \"value\"}");
    assert("Read"@.len() == 4 && "Read"@[0] == 'R');
    assert("read_file"@.len() == 9 && "read_file"@[0] == 'r');
    assert("Bash"@.len() == 4 && "Bash"@[0] == 'B');
    assert("execute_command"@.len() == 15 && "execute_command"@[0] == 'e');
    assert("exec_command"@.len() == 12 && "exec_command"@[0] == 'e');
    assert("Write"@.len() == 5 && "Write"@[0] == 'W');
    assert("write_to_file"@.len() == 13 && "write_to_file"@[0] == 'w');
    assert("Edit"@.len() == 4 && "Edit"@[0] == 'E');
    assert("Glob"@.len() == 4 && "Glob"@[0] == 'G');
    assert("search_files"@.len() == 12 && "search_files"@[0] == 's');
    assert("get_weather"@.len() == 11 && "get_weather"@[0] == 'g');
    assert("get_time"@.len() == 8 && "get_time"@[0] == 'g');
    assert("list_files"@.len() == 10 && "list_files"@[0] == 'l');
    assert("calc"@.len() == 4 && "calc"@[0] == 'c');
    let e = tools::example_for(name);
    if name == "Read"@ || name == "read_file"@ {
        assert(e == "{\"file_path\": \"/path/to/file\"}"@);
        lemma_shows_key(e, "file_path"@, 1);
    }
    if name == "Bash"@ || name == "execute_command"@ || name == "exec_command"@ {
        assert(e == "{\"command\": \"ls -la\"}"@);
        lemma_shows_key(e, "command"@, 1);
    }
    if name == "Write"@ || name == "write_to_file"@ {
        assert(e == "{\"file_path\": \"/path/to/file\", \"content\": \"hello\"}"@);
        lemma_shows_key(e, "file_path"@, 1);
        lemma_shows_key(e, "content"@, 31);
    }
    if name == "Edit"@ {
        assert(e
            == "{\"file_path\": \"/path/to/file\", \"old_string\": \"foo\", \"new_string\": \"bar\"}"@);
        lemma_shows_key(e, "file_path"@, 1);
        lemma_shows_key(e, "old_string"@, 31);
        lemma_shows_key(e, "new_string"@, 52);
    }
    if name == "Glob"@ {
        assert(e == "{\"pattern\": \"**/*.rs\", \"path\": \".\"}"@);
        lemma_shows_key(e, "pattern"@, 1);
        lemma_shows_key(e, "path"@, 23);
    }
    if name == "search_files"@ {
        assert(e == "{\"query\": \"TODO\", \"path\": \".\"}"@);
        lemma_shows_key(e, "query"@, 1);
        lemma_shows_key(e, "path"@, 18);
    }
    if name == "get_weather"@ {
        assert(e == "{\"city\": \"Beijing\"}"@);
        lemma_shows_key(e, "city"@, 1);
    }
    if name == "get_time"@ {
        assert(e == "{\"timezone\": \"Asia/Shanghai\"}"@);
        lemma_shows_key(e, "timezone"@, 1);
    }
    if name == "list_files"@ {
        assert(e == "{\"path\": \".\"}"@);
        lemma_shows_key(e, "path"@, 1);
    }
    if name == "calc"@ {
        assert(e == "{\"expression\": \"1+1\"}"@);
        lemma_shows_key(e, "expression"@, 1);
    }
    if e == "{\"key\": \"value\"}"@ {
        lemma_shows_key(e, "key"@, 1);
    }
}

} // verus!
