//! The tools of a request: validation of the tool choice, and the text that describes the
//! tools to the model.

use serde_json::Value;
use vstd::prelude::*;

use crate::json;
use crate::json::{json_as_str, json_get, json_to_string};
use crate::text;
use crate::text::{cat2, cat3, decimal_text, join, str_eq};
use crate::types;
use crate::types::{
    AllowedTools, ChatCompletionsRequest, CustomTool, CustomToolFormat, FunctionDefinition, Tool,
    ToolChoice,
};

verus! {

// ---------------------------------------------------------------------------
// The choice of a tool
// ---------------------------------------------------------------------------

/// What a tool choice says.
pub enum ChoiceSpec {
    Mode(Seq<char>),
    AllowedTools { mode: Seq<char>, tools: Option<Seq<Value>> },
    Named(Seq<char>),
    Custom(Seq<char>),
}

/// What a tool choice says.
pub open spec fn choice_spec(c: ToolChoice) -> ChoiceSpec {
    match c {
        ToolChoice::Mode(m) => ChoiceSpec::Mode(m@),
        ToolChoice::AllowedTools(a) => ChoiceSpec::AllowedTools {
            mode: a.allowed_tools.mode@,
            tools: match a.allowed_tools.tools {
                Some(t) => Some(t@),
                None => None,
            },
        },
        ToolChoice::Named(n) => ChoiceSpec::Named(n.function.name@),
        ToolChoice::Custom(c) => ChoiceSpec::Custom(c.custom.name@),
    }
}

/// The tools of a request.
pub open spec fn tools_of(req: ChatCompletionsRequest) -> Option<Seq<Tool>> {
    match req.tools {
        Some(t) => Some(t@),
        None => None,
    }
}

/// Whether a request offers tools.
pub open spec fn offers_tools(req: ChatCompletionsRequest) -> bool {
    tools_of(req) is Some && tools_of(req)->0.len() > 0
}

/// The choice that holds for a request: without one, the model may call the tools that are
/// offered.
pub open spec fn effective_choice(req: ChatCompletionsRequest) -> ChoiceSpec {
    match req.tool_choice {
        Some(c) => choice_spec(c),
        None => if offers_tools(req) {
            ChoiceSpec::Mode("auto"@)
        } else {
            ChoiceSpec::Mode("none"@)
        },
    }
}

/// Whether a request offers tools.
fn has_tools(req: &ChatCompletionsRequest) -> (r: bool)
    ensures
        r == offers_tools(*req),
{
    match &req.tools {
        Some(t) => t.len() > 0,
        None => false,
    }
}

/// What is wrong with a tool choice, given the tools of the request.
pub open spec fn choice_error(c: ChoiceSpec, tools: Option<Seq<Tool>>) -> Option<Seq<char>> {
    match c {
        ChoiceSpec::Mode(m) => if m != "none"@ && m != "auto"@ && m != "required"@ {
            Some("tool_choice 无效模式: "@ + m)
        } else if m != "none"@ && (tools is None || tools->0.len() == 0) {
            Some("tool_choice 为 'auto' 或 'required' 时必须提供 tools"@)
        } else {
            None
        },
        ChoiceSpec::AllowedTools { mode, tools: _ } => if tools is None {
            Some("tool_choice 指定了 allowed_tools 时必须提供 tools"@)
        } else if mode != "auto"@ && mode != "required"@ {
            Some("allowed_tools.mode 必须是 'auto' 或 'required'，收到: "@ + mode)
        } else {
            None
        },
        _ => if tools is None {
            Some("tool_choice 指定了具体工具时必须提供 tools"@)
        } else {
            None
        },
    }
}

/// Checks a tool choice against the tools of the request.
pub fn validate_tool_choice(tc: &ToolChoice, tools: &Option<Vec<Tool>>) -> (r: Result<(), String>)
    ensures
        match r {
            Ok(_) => choice_error(
                choice_spec(*tc),
                match *tools {
                    Some(t) => Some(t@),
                    None => None,
                },
            ) is None,
            Err(e) => choice_error(
                choice_spec(*tc),
                match *tools {
                    Some(t) => Some(t@),
                    None => None,
                },
            ) == Some(e@),
        },
{
    match tc {
        ToolChoice::Mode(mode) => {
            let none = str_eq(mode.as_str(), "none");
            if !none && !str_eq(mode.as_str(), "auto") && !str_eq(mode.as_str(), "required") {
                return Err(cat2("tool_choice 无效模式: ", mode.as_str()));
            }
            let missing = match tools {
                Some(t) => t.len() == 0,
                None => true,
            };
            if !none && missing {
                return Err("tool_choice 为 'auto' 或 'required' 时必须提供 tools".to_owned());
            }
            Ok(())
        },
        ToolChoice::AllowedTools(choice) => {
            if tools.is_none() {
                return Err("tool_choice 指定了 allowed_tools 时必须提供 tools".to_owned());
            }
            let mode = choice.allowed_tools.mode.as_str();
            if !str_eq(mode, "auto") && !str_eq(mode, "required") {
                return Err(cat2("allowed_tools.mode 必须是 'auto' 或 'required'，收到: ", mode));
            }
            Ok(())
        },
        _ => {
            if tools.is_none() {
                return Err("tool_choice 指定了具体工具时必须提供 tools".to_owned());
            }
            Ok(())
        },
    }
}

// ---------------------------------------------------------------------------
// Instructions
// ---------------------------------------------------------------------------

/// The name in an entry of a list of allowed tools, where it has one.
pub open spec fn allowed_name(v: Value) -> Option<Seq<char>> {
    match json::json_member(json::json_text(v), "function"@) {
        Some(f) => match json::json_member(f, "name"@) {
            Some(n) => json::json_unquote(n),
            None => None,
        },
        None => None,
    }
}

/// The names in a list of allowed tools, in order.
pub open spec fn allowed_names(tools: Seq<Value>) -> Seq<Seq<char>>
    decreases tools.len(),
{
    if tools.len() == 0 {
        Seq::empty()
    } else {
        let before = allowed_names(tools.drop_last());
        match allowed_name(tools.last()) {
            Some(n) => before.push(n),
            None => before,
        }
    }
}

/// The instruction that restricts the choice to the allowed tools, where any is named.
pub open spec fn allowed_list(tools: Option<Seq<Value>>) -> Seq<Seq<char>> {
    match tools {
        Some(list) => if allowed_names(list).len() > 0 {
            seq![
                "注意：你只能从以下允许的工具中选择："@ + text::joined(allowed_names(list), ", "@)
                    + "。"@,
            ]
        } else {
            Seq::empty()
        },
        None => Seq::empty(),
    }
}

/// The instruction to call a tool, where the mode asks for it.
pub open spec fn required_line(mode: Seq<char>) -> Seq<Seq<char>> {
    if mode == "required"@ {
        seq!["注意：你必须调用一个或多个工具。"@]
    } else {
        Seq::empty()
    }
}

/// The instructions for a tool choice.
pub open spec fn choice_lines(c: ChoiceSpec) -> Seq<Seq<char>> {
    match c {
        ChoiceSpec::Mode(mode) => required_line(mode),
        ChoiceSpec::AllowedTools { mode, tools } => allowed_list(tools) + required_line(mode),
        ChoiceSpec::Named(name) => seq!["注意：你必须调用 '"@ + name + "' 工具。"@],
        ChoiceSpec::Custom(name) => seq!["注意：你必须调用 '"@ + name + "' 自定义工具。"@],
    }
}

/// The instructions for a request.
pub open spec fn instruction_lines(req: ChatCompletionsRequest) -> Seq<Seq<char>> {
    choice_lines(effective_choice(req)) + if req.parallel_tool_calls == Some(false) {
        seq!["注意：一次只能调用一个工具。"@]
    } else {
        Seq::empty()
    }
}

/// The name in an entry of a list of allowed tools, where it has one.
fn name_of_allowed(v: &Value) -> (r: Option<String>)
    ensures
        types::opt_text(r) == allowed_name(*v),
{
    match json_get(v, "function") {
        Some(f) => match json_get(f, "name") {
            Some(n) => match json_as_str(n) {
                Some(s) => Some(s.to_owned()),
                None => None,
            },
            None => None,
        },
        None => None,
    }
}

/// Adds the instructions for a list of allowed tools.
pub fn build_allowed_tools_instruction(allowed_tools: &AllowedTools, lines: &mut Vec<String>)
    ensures
        text::texts(final(lines)@) == text::texts(old(lines)@) + allowed_list(
            match allowed_tools.tools {
                Some(t) => Some(t@),
                None => None,
            },
        ) + required_line(allowed_tools.mode@),
{
    let ghost start = text::texts(lines@);
    if let Some(list) = &allowed_tools.tools {
        let mut names: Vec<String> = Vec::new();
        let mut i: usize = 0;
        assert(list@.take(0) =~= Seq::<Value>::empty());
        assert(text::texts(names@) =~= Seq::<Seq<char>>::empty());
        while i < list.len()
            invariant
                i <= list@.len(),
                text::texts(names@) == allowed_names(list@.take(i as int)),
            decreases list@.len() - i,
        {
            let ghost before = names@;
            assert(list@.take(i + 1).drop_last() =~= list@.take(i as int));
            if let Some(name) = name_of_allowed(&list[i]) {
                let ghost view = name@;
                names.push(name);
                assert(text::texts(names@) =~= text::texts(before).push(view));
            }
            i += 1;
        }
        assert(list@.take(i as int) =~= list@);
        assert(names@.len() == text::texts(names@).len());
        if names.len() > 0 {
            let line = cat3(
                "注意：你只能从以下允许的工具中选择：",
                join(&names, ", ").as_str(),
                "。",
            );
            let ghost view = line@;
            let ghost before = lines@;
            lines.push(line);
            assert(text::texts(lines@) =~= text::texts(before) + seq![view]);
        }
    }
    let ghost middle = lines@;
    assert(text::texts(middle) =~= start + allowed_list(
        match allowed_tools.tools {
            Some(t) => Some(t@),
            None => None,
        },
    ));
    if str_eq(allowed_tools.mode.as_str(), "required") {
        lines.push("注意：你必须调用一个或多个工具。".to_owned());
        assert(text::texts(lines@) =~= text::texts(middle) + required_line(allowed_tools.mode@));
    } else {
        assert(text::texts(lines@) =~= text::texts(middle) + required_line(allowed_tools.mode@));
    }
}

// ---------------------------------------------------------------------------
// Descriptions
// ---------------------------------------------------------------------------

/// The arguments that are shown in the example call of a tool.
pub open spec fn example_for(name: Seq<char>) -> Seq<char> {
    if name == "Read"@ || name == "read_file"@ {
        "{\"file_path\": \"/path/to/file\"}"@
    } else if name == "Bash"@ || name == "execute_command"@ || name == "exec_command"@ {
        "{\"command\": \"ls -la\"}"@
    } else if name == "Write"@ || name == "write_to_file"@ {
        "{\"file_path\": \"/path/to/file\", \"content\": \"hello\"}"@
    } else if name == "Edit"@ {
        "{\"file_path\": \"/path/to/file\", \"old_string\": \"foo\", \"new_string\": \"bar\"}"@
    } else if name == "Glob"@ {
        "{\"pattern\": \"**/*.rs\", \"path\": \".\"}"@
    } else if name == "search_files"@ {
        "{\"query\": \"TODO\", \"path\": \".\"}"@
    } else if name == "get_weather"@ {
        "{\"city\": \"Beijing\"}"@
    } else if name == "get_time"@ {
        "{\"timezone\": \"Asia/Shanghai\"}"@
    } else if name == "list_files"@ {
        "{\"path\": \".\"}"@
    } else if name == "calc"@ {
        "{\"expression\": \"1+1\"}"@
    } else {
        "{\"key\": \"value\"}"@
    }
}

/// The arguments that are shown in the example call of a tool.
pub fn example_payload(name: &str) -> (r: String)
    ensures
        r@ == example_for(name@),
{
    if str_eq(name, "Read") || str_eq(name, "read_file") {
        "{\"file_path\": \"/path/to/file\"}".to_owned()
    } else if str_eq(name, "Bash") || str_eq(name, "execute_command") || str_eq(
        name,
        "exec_command",
    ) {
        "{\"command\": \"ls -la\"}".to_owned()
    } else if str_eq(name, "Write") || str_eq(name, "write_to_file") {
        "{\"file_path\": \"/path/to/file\", \"content\": \"hello\"}".to_owned()
    } else if str_eq(name, "Edit") {
        "{\"file_path\": \"/path/to/file\", \"old_string\": \"foo\", \"new_string\": \"bar\"}".to_owned()
    } else if str_eq(name, "Glob") {
        "{\"pattern\": \"**/*.rs\", \"path\": \".\"}".to_owned()
    } else if str_eq(name, "search_files") {
        "{\"query\": \"TODO\", \"path\": \".\"}".to_owned()
    } else if str_eq(name, "get_weather") {
        "{\"city\": \"Beijing\"}".to_owned()
    } else if str_eq(name, "get_time") {
        "{\"timezone\": \"Asia/Shanghai\"}".to_owned()
    } else if str_eq(name, "list_files") {
        "{\"path\": \".\"}".to_owned()
    } else if str_eq(name, "calc") {
        "{\"expression\": \"1+1\"}".to_owned()
    } else {
        "{\"key\": \"value\"}".to_owned()
    }
}

/// The line with the description of a tool.
pub open spec fn description_line(description: Option<Seq<char>>) -> Seq<char> {
    let d = match description {
        Some(d) => text::trimmed(d),
        None => Seq::empty(),
    };
    if d.len() == 0 {
        "Description: (无描述)\n"@
    } else {
        "Description: "@ + d + "\n"@
    }
}

/// The example call of a tool.
pub open spec fn call_format(name: Seq<char>, payload: Seq<char>) -> Seq<char> {
    "Valid call format for "@ + name + ":\n<"@ + name + ">\n"@ + payload + "\n</"@ + name + ">"@
}

/// The description of a function tool.
pub open spec fn function_text(f: FunctionDefinition) -> Seq<char> {
    "### Tool "@ + f.name@ + "\n"@ + description_line(types::opt_text(f.description)) + call_format(
        f.name@,
        example_for(f.name@),
    ) + "\nParameters JSON Schema: "@ + json::json_text(f.parameters)
}

/// The way in which the input of a custom tool is constrained.
pub open spec fn format_name(format: Option<CustomToolFormat>) -> Seq<char> {
    match format {
        Some(CustomToolFormat::Text) => "text"@,
        Some(CustomToolFormat::Grammar { grammar }) => "grammar(syntax: "@ + grammar.syntax@ + ")"@,
        None => "无约束"@,
    }
}

/// The description of a custom tool.
pub open spec fn custom_text(c: CustomTool) -> Seq<char> {
    "### Tool "@ + c.name@ + " (custom, format: "@ + format_name(c.format) + ")\n"@
        + description_line(types::opt_text(c.description)) + call_format(
        c.name@,
        "(自定义格式内容)"@,
    )
}

/// The line with the description of a tool.
fn render_description(description: &Option<String>) -> (r: String)
    ensures
        r@ == description_line(types::opt_text(*description)),
{
    match description {
        Some(d) => {
            let d = d.as_str().trim();
            if d.is_empty() {
                "Description: (无描述)\n".to_owned()
            } else {
                cat3("Description: ", d, "\n")
            }
        },
        None => "Description: (无描述)\n".to_owned(),
    }
}

/// The example call of a tool.
fn render_call_format(name: &str, payload: &str) -> (r: String)
    ensures
        r@ == call_format(name@, payload@),
{
    let mut out = cat3("Valid call format for ", name, ":\n<");
    out.append(name);
    out.append(">\n");
    out.append(payload);
    out.append("\n</");
    out.append(name);
    out.append(">");
    out
}

/// The description of a function tool. A name that is empty but for white space is refused.
pub fn render_function_schema(func: &FunctionDefinition) -> (r: Result<String, String>)
    ensures
        match r {
            Ok(t) => text::trimmed(func.name@).len() > 0 && t@ == function_text(*func),
            Err(e) => text::trimmed(func.name@).len() == 0 && e@
                == "tools 中 function 缺少必填字段 'name'"@,
        },
{
    let name = func.name.as_str();
    if name.trim().is_empty() {
        return Err("tools 中 function 缺少必填字段 'name'".to_owned());
    }
    let schema = match json_to_string(&func.parameters) {
        Ok(s) => s,
        Err(_) => "{}".to_owned(),
    };
    let mut block = cat3("### Tool ", name, "\n");
    block.append(render_description(&func.description).as_str());
    block.append(render_call_format(name, example_payload(name).as_str()).as_str());
    block.append("\nParameters JSON Schema: ");
    block.append(schema.as_str());
    Ok(block)
}

/// The description of a custom tool.
pub fn render_custom_schema(custom: &CustomTool) -> (r: String)
    ensures
        r@ == custom_text(*custom),
{
    let method = match &custom.format {
        Some(CustomToolFormat::Text) => "text".to_owned(),
        Some(CustomToolFormat::Grammar { grammar }) => cat3(
            "grammar(syntax: ",
            grammar.syntax.as_str(),
            ")",
        ),
        None => "无约束".to_owned(),
    };
    let mut block = cat3("### Tool ", custom.name.as_str(), " (custom, format: ");
    block.append(method.as_str());
    block.append(")\n");
    block.append(render_description(&custom.description).as_str());
    block.append(render_call_format(custom.name.as_str(), "(自定义格式内容)").as_str());
    block
}

/// The description of the `i`-th tool of a list, or what is wrong with it.
pub open spec fn tool_text(i: nat, tool: Tool) -> Result<Seq<char>, Seq<char>> {
    if tool.ty@ == "function"@ {
        match tool.function {
            Some(f) => if text::trimmed(f.name@).len() == 0 {
                Err("tools 中 function 缺少必填字段 'name'"@)
            } else {
                Ok(function_text(f))
            },
            None => Err(
                "tools["@ + text::decimal(i) + "] 类型为 'function' 时必须提供 function 定义"@,
            ),
        }
    } else if tool.ty@ == "custom"@ {
        match tool.custom {
            Some(c) => Ok(custom_text(c)),
            None => Err("tools["@ + text::decimal(i) + "] 类型为 'custom' 时必须提供 custom 定义"@),
        }
    } else {
        Err("tools["@ + text::decimal(i) + "] 不支持的类型: "@ + tool.ty@)
    }
}

/// The descriptions of a list of tools, or what is wrong with the first one that cannot be
/// described.
pub open spec fn tool_texts(tools: Seq<Tool>) -> Result<Seq<Seq<char>>, Seq<char>>
    decreases tools.len(),
{
    if tools.len() == 0 {
        Ok(Seq::empty())
    } else {
        match tool_texts(tools.drop_last()) {
            Ok(blocks) => match tool_text((tools.len() - 1) as nat, tools.last()) {
                Ok(t) => Ok(blocks.push(t)),
                Err(e) => Err(e),
            },
            Err(e) => Err(e),
        }
    }
}

/// Every tool of an accepted list is described, each in its place.
pub proof fn law_every_tool_is_described(tools: Seq<Tool>)
    requires
        tool_texts(tools) is Ok,
    ensures
        tool_texts(tools)->Ok_0.len() == tools.len(),
        forall|i: int|
            0 <= i < tools.len() ==> tool_text(i as nat, #[trigger] tools[i]) == Ok::<
                Seq<char>,
                Seq<char>,
            >(tool_texts(tools)->Ok_0[i]),
    decreases tools.len(),
{
    if tools.len() > 0 {
        let less = tools.drop_last();
        law_every_tool_is_described(less);
        assert forall|i: int| 0 <= i < tools.len() implies tool_text(i as nat, #[trigger] tools[i])
            == Ok::<Seq<char>, Seq<char>>(tool_texts(tools)->Ok_0[i]) by {
            if i < less.len() {
                assert(less[i] == tools[i]);
            }
        }
    }
}

/// What is wrong with a tool stays wrong when more tools follow.
proof fn lemma_error_stays(tools: Seq<Tool>, n: int)
    requires
        0 <= n <= tools.len(),
        tool_texts(tools.take(n)) is Err,
    ensures
        tool_texts(tools) == tool_texts(tools.take(n)),
    decreases tools.len(),
{
    if n == tools.len() {
        assert(tools.take(n) =~= tools);
    } else {
        let less = tools.drop_last();
        assert(less.take(n) =~= tools.take(n));
        lemma_error_stays(less, n);
    }
}

/// The description of a tool, or what is wrong with it.
fn render_tool(i: usize, tool: &Tool) -> (r: Result<String, String>)
    ensures
        match r {
            Ok(t) => tool_text(i as nat, *tool) == Ok::<Seq<char>, Seq<char>>(t@),
            Err(e) => tool_text(i as nat, *tool) == Err::<Seq<char>, Seq<char>>(e@),
        },
{
    let ty = tool.ty.as_str();
    if str_eq(ty, "function") {
        match &tool.function {
            Some(f) => render_function_schema(f),
            None => Err(
                cat3(
                    "tools[",
                    decimal_text(i).as_str(),
                    "] 类型为 'function' 时必须提供 function 定义",
                ),
            ),
        }
    } else if str_eq(ty, "custom") {
        match &tool.custom {
            Some(c) => Ok(render_custom_schema(c)),
            None => Err(
                cat3(
                    "tools[",
                    decimal_text(i).as_str(),
                    "] 类型为 'custom' 时必须提供 custom 定义",
                ),
            ),
        }
    } else {
        let mut e = cat3("tools[", decimal_text(i).as_str(), "] 不支持的类型: ");
        e.append(ty);
        Err(e)
    }
}

/// The descriptions of a list of tools, with an empty line between neighbours.
pub fn render_tool_schemas(tools: &Vec<Tool>) -> (r: Result<String, String>)
    ensures
        match r {
            Ok(t) => tool_texts(tools@) is Ok && t@ == text::joined(
                tool_texts(tools@)->Ok_0,
                "\n\n"@,
            ),
            Err(e) => tool_texts(tools@) == Err::<Seq<Seq<char>>, Seq<char>>(e@),
        },
{
    let mut blocks: Vec<String> = Vec::new();
    let mut i: usize = 0;
    assert(tools@.take(0) =~= Seq::<Tool>::empty());
    assert(text::texts(blocks@) =~= Seq::<Seq<char>>::empty());
    while i < tools.len()
        invariant
            i <= tools@.len(),
            tool_texts(tools@.take(i as int)) == Ok::<Seq<Seq<char>>, Seq<char>>(
                text::texts(blocks@),
            ),
        decreases tools@.len() - i,
    {
        let ghost before = blocks@;
        assert(tools@.take(i + 1).drop_last() =~= tools@.take(i as int));
        match render_tool(i, &tools[i]) {
            Ok(block) => {
                let ghost view = block@;
                blocks.push(block);
                assert(text::texts(blocks@) =~= text::texts(before).push(view));
            },
            Err(e) => {
                proof {
                    lemma_error_stays(tools@, i + 1);
                }
                return Err(e);
            },
        }
        i += 1;
    }
    assert(tools@.take(i as int) =~= tools@);
    Ok(join(&blocks, "\n\n"))
}

// ---------------------------------------------------------------------------
// The tools of a request
// ---------------------------------------------------------------------------

/// What a request says to the model of its tools.
#[derive(Debug)]
pub struct ToolContext {
    /// The descriptions of the tools.
    pub defs_text: Option<String>,
    /// The instructions on which tools to call.
    pub instruction_text: Option<String>,
}

/// What a request says to the model of its tools.
#[verifier::ext_equal]
pub struct ContextView {
    pub defs: Option<Seq<char>>,
    pub instruction: Option<Seq<char>>,
}

impl View for ToolContext {
    type V = ContextView;

    open spec fn view(&self) -> ContextView {
        ContextView {
            defs: types::opt_text(self.defs_text),
            instruction: types::opt_text(self.instruction_text),
        }
    }
}

/// What a request says to the model of its tools, or what is wrong with it.
pub open spec fn context_of(req: ChatCompletionsRequest) -> Result<ContextView, Seq<char>> {
    let choice = effective_choice(req);
    let lines = instruction_lines(req);
    let instruction = if lines.len() == 0 {
        None
    } else {
        Some(text::joined(lines, "\n"@))
    };
    match choice_error(choice, tools_of(req)) {
        Some(e) => Err(e),
        None => if choice == ChoiceSpec::Mode("none"@) {
            Ok(ContextView { defs: None, instruction: None })
        } else if offers_tools(req) {
            match tool_texts(tools_of(req)->0) {
                Ok(blocks) => Ok(
                    ContextView { defs: Some(text::joined(blocks, "\n\n"@)), instruction },
                ),
                Err(e) => Err(e),
            }
        } else {
            Ok(ContextView { defs: None, instruction })
        },
    }
}

/// A request that rules tools out says nothing of them, whatever tools it lists.
pub proof fn law_no_tools_no_context(req: ChatCompletionsRequest)
    requires
        effective_choice(req) == ChoiceSpec::Mode("none"@),
    ensures
        context_of(req) == Ok::<ContextView, Seq<char>>(
            ContextView { defs: None, instruction: None },
        ),
{
}

/// The instructions for the choice of a request and for parallel calls.
fn render_instructions(choice: &ToolChoice, parallel: Option<bool>) -> (r: Vec<String>)
    ensures
        text::texts(r@) == choice_lines(choice_spec(*choice)) + if parallel == Some(false) {
            seq!["注意：一次只能调用一个工具。"@]
        } else {
            Seq::empty()
        },
{
    let mut lines: Vec<String> = Vec::new();
    assert(text::texts(lines@) =~= Seq::<Seq<char>>::empty());
    match choice {
        ToolChoice::Mode(mode) => {
            if str_eq(mode.as_str(), "required") {
                lines.push("注意：你必须调用一个或多个工具。".to_owned());
            }
        },
        ToolChoice::AllowedTools(choice) => {
            build_allowed_tools_instruction(&choice.allowed_tools, &mut lines);
        },
        ToolChoice::Named(named) => {
            lines.push(
                cat3("注意：你必须调用 '", named.function.name.as_str(), "' 工具。"),
            );
        },
        ToolChoice::Custom(custom) => {
            lines.push(
                cat3("注意：你必须调用 '", custom.custom.name.as_str(), "' 自定义工具。"),
            );
        },
    }
    assert(text::texts(lines@) =~= choice_lines(choice_spec(*choice)));
    let ghost before = lines@;
    let single = match parallel {
        Some(p) => !p,
        None => false,
    };
    if single {
        lines.push("注意：一次只能调用一个工具。".to_owned());
    }
    assert(text::texts(lines@) =~= text::texts(before) + if parallel == Some(false) {
        seq!["注意：一次只能调用一个工具。"@]
    } else {
        Seq::empty()
    });
    lines
}

/// Whether a tool choice rules tools out.
fn is_none_mode(choice: &ToolChoice) -> (r: bool)
    ensures
        r == (choice_spec(*choice) == ChoiceSpec::Mode("none"@)),
{
    match choice {
        ToolChoice::Mode(mode) => str_eq(mode.as_str(), "none"),
        _ => false,
    }
}

/// What a request says to the model of its tools. Nothing is said where the tool choice
/// rules tools out.
pub fn extract(req: &ChatCompletionsRequest) -> (r: Result<ToolContext, String>)
    ensures
        match r {
            Ok(c) => context_of(*req) == Ok::<ContextView, Seq<char>>(c@),
            Err(e) => context_of(*req) == Err::<ContextView, Seq<char>>(e@),
        },
{
    let default_choice = if has_tools(req) {
        ToolChoice::Mode("auto".to_owned())
    } else {
        ToolChoice::Mode("none".to_owned())
    };
    let choice = match &req.tool_choice {
        Some(c) => c,
        None => &default_choice,
    };
    if let Err(e) = validate_tool_choice(choice, &req.tools) {
        return Err(e);
    }
    if is_none_mode(choice) {
        return Ok(ToolContext { defs_text: None, instruction_text: None });
    }
    let lines = render_instructions(choice, req.parallel_tool_calls);
    let defs_text = match &req.tools {
        Some(tools) => {
            if tools.len() > 0 {
                match render_tool_schemas(tools) {
                    Ok(t) => Some(t),
                    Err(e) => {
                        return Err(e);
                    },
                }
            } else {
                None
            }
        },
        None => None,
    };
    assert(lines@.len() == text::texts(lines@).len());
    let instruction_text = if lines.len() == 0 {
        None
    } else {
        Some(join(&lines, "\n"))
    };
    Ok(ToolContext { defs_text, instruction_text })
}

} // verus!
