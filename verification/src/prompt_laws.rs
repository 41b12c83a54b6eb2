//! What holds of prompts as a whole.

use vstd::prelude::*;

use crate::json;
use crate::prompt;
use crate::text;
use crate::tools::ContextView;
use crate::types;
use crate::types::{
    ChatCompletionsRequest, ContentPart, ContentView, FunctionCall, MessageView, ResponseFormat,
    ToolCall,
};

verus! {

// ---------------------------------------------------------------------------
// No thinking block is added
// ---------------------------------------------------------------------------

/// Whether a text does not hold the start of a thinking block.
pub open spec fn is_free(s: Seq<char>) -> bool {
    !prompt::mentions(s, "<think>"@)
}

/// Whether a character can be followed, in `<think>`, by another.
pub open spec fn goes_on(c: char) -> bool {
    c == '<' || c == 't' || c == 'h' || c == 'i' || c == 'n' || c == 'k'
}

/// Whether a character can follow, in `<think>`, another.
pub open spec fn follows(c: char) -> bool {
    c == 't' || c == 'h' || c == 'i' || c == 'n' || c == 'k' || c == '>'
}

/// A part of a free text is free.
proof fn lemma_free_part(s: Seq<char>, from: int, to: int)
    requires
        is_free(s),
        0 <= from <= to <= s.len(),
    ensures
        is_free(s.subrange(from, to)),
{
    let part = s.subrange(from, to);
    let p = "<think>"@;
    if prompt::mentions(part, p) {
        let i = choose|i: int|
            0 <= i && i + p.len() <= part.len() && #[trigger] part.subrange(i, i + p.len()) == p;
        assert(s.subrange(from + i, from + i + p.len()) =~= p) by {
            assert(part.subrange(i, i + p.len()) =~= s.subrange(from + i, from + i + p.len()));
        }
    }
}

/// Two free texts put together are free, if the last character of the first or the first
/// character of the second cannot stand at such a place in `<think>`.
proof fn lemma_free_pair(a: Seq<char>, b: Seq<char>)
    requires
        is_free(a),
        is_free(b),
        a.len() == 0 || b.len() == 0 || !goes_on(a.last()) || !follows(b[0]),
    ensures
        is_free(a + b),
{
    reveal_strlit("<think>");
    let p = "<think>"@;
    let s = a + b;
    if prompt::mentions(s, p) {
        let i = choose|i: int|
            0 <= i && i + p.len() <= s.len() && #[trigger] s.subrange(i, i + p.len()) == p;
        let n = a.len() as int;
        if i + 7 <= n {
            assert(a.subrange(i, i + p.len()) =~= s.subrange(i, i + p.len()));
        } else if i >= n {
            assert(b.subrange(i - n, i - n + p.len()) =~= s.subrange(i, i + p.len()));
        } else {
            assert(p[n - 1 - i] == s[n - 1]);
            assert(p[n - i] == s[n]);
            assert(s[n - 1] == a.last());
            assert(s[n] == b[0]);
        }
    }
}

/// Three free texts put together are free, if the edges of the outer ones cannot stand
/// inside `<think>`.
proof fn lemma_free_between(a: Seq<char>, b: Seq<char>, c: Seq<char>)
    requires
        is_free(a),
        is_free(b),
        is_free(c),
        a.len() > 0 && !goes_on(a.last()),
        c.len() > 0 && !follows(c[0]),
    ensures
        is_free(a + b + c),
{
    lemma_free_pair(a, b);
    lemma_free_pair(a + b, c);
}

/// Whether no `<th` stands in a text from `i` on.
spec fn no_start_from(s: Seq<char>, i: int) -> bool
    decreases s.len() - i,
{
    i < 0 || i + 2 >= s.len() || (!(s[i] == '<' && s[i + 1] == 't' && s[i + 2] == 'h')
        && no_start_from(s, i + 1))
}

proof fn lemma_no_start(s: Seq<char>, i: int, j: int)
    requires
        0 <= i <= j,
        j + 2 < s.len(),
        no_start_from(s, i),
    ensures
        !(s[j] == '<' && s[j + 1] == 't' && s[j + 2] == 'h'),
    decreases j - i,
{
    if i < j {
        lemma_no_start(s, i + 1, j);
    }
}

/// A text without `<th` is free.
proof fn lemma_no_start_is_free(s: Seq<char>)
    requires
        no_start_from(s, 0),
    ensures
        is_free(s),
{
    reveal_strlit("<think>");
    let p = "<think>"@;
    if prompt::mentions(s, p) {
        let i = choose|i: int|
            0 <= i && i + p.len() <= s.len() && #[trigger] s.subrange(i, i + p.len()) == p;
        let t = s.subrange(i, i + p.len());
        assert(t[0] == s[i] && t[1] == s[i + 1] && t[2] == s[i + 2]);
        lemma_no_start(s, 0, i);
    }
}

/// A short text is free.
proof fn lemma_short_is_free(s: Seq<char>)
    requires
        s.len() < 7,
    ensures
        is_free(s),
{
    reveal_strlit("<think>");
}

/// The fixed texts of messages are free.
#[verifier::rlimit(60)]
proof fn lemma_marks_are_free()
    ensures
        is_free("<｜"@),
        is_free("｜>"@),
        is_free("<｜tool▁output▁begin｜>"@),
        is_free("<｜tool▁output▁end｜>"@),
        is_free("<｜tool▁outputs▁begin｜>"@),
        is_free("<｜tool▁outputs▁end｜>"@),
        is_free("<｜end▁of▁sentence｜>"@),
        is_free("<｜System｜>"@),
        is_free("<｜Assistant｜>\n"@),
        is_free("\n"@),
        is_free("\n\n"@),
        is_free("(name: "@),
        is_free(")"@),
        is_free("(refusal: "@),
        is_free("null"@),
{
    assert(is_free("<｜"@)) by {
        reveal_strlit("<｜");
        lemma_short_is_free("<｜"@);
    }
    assert(is_free("｜>"@)) by {
        reveal_strlit("｜>");
        lemma_short_is_free("｜>"@);
    }
    assert(is_free("<｜tool▁output▁begin｜>"@)) by {
        reveal_strlit("<｜tool▁output▁begin｜>");
        reveal_with_fuel(no_start_from, 22);
        lemma_no_start_is_free("<｜tool▁output▁begin｜>"@);
    }
    assert(is_free("<｜tool▁output▁end｜>"@)) by {
        reveal_strlit("<｜tool▁output▁end｜>");
        reveal_with_fuel(no_start_from, 20);
        lemma_no_start_is_free("<｜tool▁output▁end｜>"@);
    }
    assert(is_free("<｜tool▁outputs▁begin｜>"@)) by {
        reveal_strlit("<｜tool▁outputs▁begin｜>");
        reveal_with_fuel(no_start_from, 23);
        lemma_no_start_is_free("<｜tool▁outputs▁begin｜>"@);
    }
    assert(is_free("<｜tool▁outputs▁end｜>"@)) by {
        reveal_strlit("<｜tool▁outputs▁end｜>");
        reveal_with_fuel(no_start_from, 21);
        lemma_no_start_is_free("<｜tool▁outputs▁end｜>"@);
    }
    assert(is_free("<｜end▁of▁sentence｜>"@)) by {
        reveal_strlit("<｜end▁of▁sentence｜>");
        reveal_with_fuel(no_start_from, 20);
        lemma_no_start_is_free("<｜end▁of▁sentence｜>"@);
    }
    assert(is_free("<｜System｜>"@)) by {
        reveal_strlit("<｜System｜>");
        reveal_with_fuel(no_start_from, 11);
        lemma_no_start_is_free("<｜System｜>"@);
    }
    assert(is_free("<｜Assistant｜>\n"@)) by {
        reveal_strlit("<｜Assistant｜>\n");
        reveal_with_fuel(no_start_from, 15);
        lemma_no_start_is_free("<｜Assistant｜>\n"@);
    }
    assert(is_free("\n"@)) by {
        reveal_strlit("\n");
        lemma_short_is_free("\n"@);
    }
    assert(is_free("\n\n"@)) by {
        reveal_strlit("\n\n");
        lemma_short_is_free("\n\n"@);
    }
    assert(is_free("(name: "@)) by {
        reveal_strlit("(name: ");
        reveal_with_fuel(no_start_from, 8);
        lemma_no_start_is_free("(name: "@);
    }
    assert(is_free(")"@)) by {
        reveal_strlit(")");
        lemma_short_is_free(")"@);
    }
    assert(is_free("(refusal: "@)) by {
        reveal_strlit("(refusal: ");
        reveal_with_fuel(no_start_from, 11);
        lemma_no_start_is_free("(refusal: "@);
    }
    assert(is_free("null"@)) by {
        reveal_strlit("null");
        lemma_short_is_free("null"@);
    }
}

/// The fixed texts of parts of messages are free.
#[verifier::rlimit(60)]
proof fn lemma_parts_are_free()
    ensures
        is_free("[请访问这个链接: "@),
        is_free("]"@),
        is_free("[图片: detail="@),
        is_free("auto"@),
        is_free("[图片]"@),
        is_free("[音频: format="@),
        is_free("unknown"@),
        is_free("[文件: filename="@),
        is_free("[文件: "@),
        is_free(" (filename="@),
        is_free(")]"@),
        is_free("[未支持的内容类型: "@),
{
    assert(is_free("[请访问这个链接: "@)) by {
        reveal_strlit("[请访问这个链接: ");
        reveal_with_fuel(no_start_from, 11);
        lemma_no_start_is_free("[请访问这个链接: "@);
    }
    assert(is_free("]"@)) by {
        reveal_strlit("]");
        lemma_short_is_free("]"@);
    }
    assert(is_free("[图片: detail="@)) by {
        reveal_strlit("[图片: detail=");
        reveal_with_fuel(no_start_from, 13);
        lemma_no_start_is_free("[图片: detail="@);
    }
    assert(is_free("auto"@)) by {
        reveal_strlit("auto");
        lemma_short_is_free("auto"@);
    }
    assert(is_free("[图片]"@)) by {
        reveal_strlit("[图片]");
        lemma_short_is_free("[图片]"@);
    }
    assert(is_free("[音频: format="@)) by {
        reveal_strlit("[音频: format=");
        reveal_with_fuel(no_start_from, 13);
        lemma_no_start_is_free("[音频: format="@);
    }
    assert(is_free("unknown"@)) by {
        reveal_strlit("unknown");
        reveal_with_fuel(no_start_from, 8);
        lemma_no_start_is_free("unknown"@);
    }
    assert(is_free("[文件: filename="@)) by {
        reveal_strlit("[文件: filename=");
        reveal_with_fuel(no_start_from, 15);
        lemma_no_start_is_free("[文件: filename="@);
    }
    assert(is_free("[文件: "@)) by {
        reveal_strlit("[文件: ");
        lemma_short_is_free("[文件: "@);
    }
    assert(is_free(" (filename="@)) by {
        reveal_strlit(" (filename=");
        reveal_with_fuel(no_start_from, 12);
        lemma_no_start_is_free(" (filename="@);
    }
    assert(is_free(")]"@)) by {
        reveal_strlit(")]");
        lemma_short_is_free(")]"@);
    }
    assert(is_free("[未支持的内容类型: "@)) by {
        reveal_strlit("[未支持的内容类型: ");
        reveal_with_fuel(no_start_from, 12);
        lemma_no_start_is_free("[未支持的内容类型: "@);
    }
}

/// The fixed texts of sections are free.
#[verifier::rlimit(60)]
proof fn lemma_sections_are_free()
    ensures
        is_free("## Tools\n\n"@),
        is_free("## 调用指令\n"@),
        is_free("## 输出格式\n"@),
        is_free("请直接输出合法的 JSON 对象，不要包含任何 markdown 代码块标记或其他解释性文字。"@),
        is_free("以 JSON 的形式输出。"@),
        is_free("以 JSON 的形式输出，输出的 JSON 需遵守以下的格式：\n\n~~~json\n"@),
        is_free("\n~~~"@),
        is_free("请以 "@),
        is_free(" 格式输出。"@),
{
    assert(is_free("## Tools\n\n"@)) by {
        reveal_strlit("## Tools\n\n");
        reveal_with_fuel(no_start_from, 11);
        lemma_no_start_is_free("## Tools\n\n"@);
    }
    assert(is_free("## 调用指令\n"@)) by {
        reveal_strlit("## 调用指令\n");
        reveal_with_fuel(no_start_from, 9);
        lemma_no_start_is_free("## 调用指令\n"@);
    }
    assert(is_free("## 输出格式\n"@)) by {
        reveal_strlit("## 输出格式\n");
        reveal_with_fuel(no_start_from, 9);
        lemma_no_start_is_free("## 输出格式\n"@);
    }
    assert(is_free("请直接输出合法的 JSON 对象，不要包含任何 markdown 代码块标记或其他解释性文字。"@)) by {
        reveal_strlit("请直接输出合法的 JSON 对象，不要包含任何 markdown 代码块标记或其他解释性文字。");
        reveal_with_fuel(no_start_from, 48);
        lemma_no_start_is_free("请直接输出合法的 JSON 对象，不要包含任何 markdown 代码块标记或其他解释性文字。"@);
    }
    assert(is_free("以 JSON 的形式输出。"@)) by {
        reveal_strlit("以 JSON 的形式输出。");
        reveal_with_fuel(no_start_from, 14);
        lemma_no_start_is_free("以 JSON 的形式输出。"@);
    }
    assert(is_free("以 JSON 的形式输出，输出的 JSON 需遵守以下的格式：\n\n~~~json\n"@)) by {
        reveal_strlit("以 JSON 的形式输出，输出的 JSON 需遵守以下的格式：\n\n~~~json\n");
        reveal_with_fuel(no_start_from, 42);
        lemma_no_start_is_free("以 JSON 的形式输出，输出的 JSON 需遵守以下的格式：\n\n~~~json\n"@);
    }
    assert(is_free("\n~~~"@)) by {
        reveal_strlit("\n~~~");
        lemma_short_is_free("\n~~~"@);
    }
    assert(is_free("请以 "@)) by {
        reveal_strlit("请以 ");
        lemma_short_is_free("请以 "@);
    }
    assert(is_free(" 格式输出。"@)) by {
        reveal_strlit(" 格式输出。");
        lemma_short_is_free(" 格式输出。"@);
    }
}

/// Every wording of the instruction on tool calls is free.
#[verifier::rlimit(100)]
pub proof fn law_wordings_are_free(k: int)
    ensures
        is_free(prompt::instruction_variant(k)),
{
    let w = prompt::instruction_variant(k);
    if k == 0 {
        reveal_strlit(
            "使用工具时，请直接输出对应工具的 XML 标签（如 `<tool_name>{{...}}</tool_name>`）。不要使用 `<invoke name=\"...\">...</invoke>` 或 `<tool_call>...</tool_call>` 等包装格式。",
        );
        reveal_with_fuel(no_start_from, 50);
        assert(no_start_from(w, 90));
        assert(no_start_from(w, 45));
        assert(no_start_from(w, 0));
    } else if k == 1 {
        reveal_strlit(
            "调用工具请输出形如 `<tool_name>{{...}}</tool_name>` 的 XML 标签，禁止使用 `<invoke>` 或 `<tool_call>` 包装。",
        );
        reveal_with_fuel(no_start_from, 50);
        assert(no_start_from(w, 45));
        assert(no_start_from(w, 0));
    } else if k == 2 {
        reveal_strlit(
            "工具调用格式：直接输出 `<tool_name>{{...}}</tool_name>`，不要包裹在 `<invoke>`/`<tool_call>` 中。",
        );
        reveal_with_fuel(no_start_from, 50);
        assert(no_start_from(w, 45));
        assert(no_start_from(w, 0));
    } else {
        reveal_strlit(
            "如需调用工具，请以 `<tool_name>{{...}}</tool_name>` 格式输出，避免使用 `<invoke>` 或 `<tool_call>` 标签。",
        );
        reveal_with_fuel(no_start_from, 50);
        assert(no_start_from(w, 45));
        assert(no_start_from(w, 0));
    }
    lemma_no_start_is_free(w);
}

/// Free texts put together with a separator are free.
proof fn lemma_joined_is_free(parts: Seq<Seq<char>>, sep: Seq<char>)
    requires
        forall|i: int| 0 <= i < parts.len() ==> is_free(#[trigger] parts[i]),
        is_free(sep),
        sep.len() > 0,
        !follows(sep[0]),
        !goes_on(sep.last()),
    ensures
        is_free(text::joined(parts, sep)),
    decreases parts.len(),
{
    if parts.len() == 0 {
        lemma_short_is_free(text::joined(parts, sep));
    } else if parts.len() > 1 {
        let rest = parts.drop_first();
        assert forall|i: int| 0 <= i < rest.len() implies is_free(#[trigger] rest[i]) by {
            assert(rest[i] == parts[i + 1]);
        }
        lemma_joined_is_free(rest, sep);
        lemma_free_pair(parts[0], sep);
        lemma_free_pair(parts[0] + sep, text::joined(rest, sep));
    }
}

/// Whether a text is free and starts with a mark.
spec fn is_marked(s: Seq<char>) -> bool {
    is_free(s) && s.len() > 0 && s[0] == '<'
}

/// Texts that are free and start with marks are free when they are put together.
proof fn lemma_marked_are_free(parts: Seq<Seq<char>>)
    requires
        forall|i: int| 0 <= i < parts.len() ==> is_marked(#[trigger] parts[i]),
    ensures
        is_free(text::joined(parts, ""@)),
        parts.len() > 0 ==> is_marked(text::joined(parts, ""@)),
    decreases parts.len(),
{
    reveal_strlit("");
    if parts.len() == 0 {
        lemma_short_is_free(text::joined(parts, ""@));
    } else if parts.len() == 1 {
        assert(is_marked(parts[0]));
    } else {
        let rest = parts.drop_first();
        assert forall|i: int| 0 <= i < rest.len() implies is_marked(#[trigger] rest[i]) by {
            assert(rest[i] == parts[i + 1]);
        }
        lemma_marked_are_free(rest);
        assert(is_marked(parts[0]));
        assert(parts[0] + ""@ =~= parts[0]);
        lemma_free_pair(parts[0], text::joined(rest, ""@));
        assert(text::joined(parts, ""@)[0] == parts[0][0]);
    }
}

/// Whether a text that may be missing is free.
pub open spec fn opt_is_free(s: Option<Seq<char>>) -> bool {
    match s {
        Some(t) => is_free(t),
        None => true,
    }
}

/// Whether the texts of a part of a message are free.
pub open spec fn part_is_free(p: ContentPart) -> bool {
    &&& is_free(p.ty@)
    &&& opt_is_free(types::opt_text(p.text))
    &&& opt_is_free(types::opt_text(p.refusal))
    &&& match p.image_url {
        Some(img) => is_free(img.url@) && opt_is_free(types::opt_text(img.detail)),
        None => true,
    }
    &&& match p.input_audio {
        Some(a) => is_free(a.format@),
        None => true,
    }
    &&& match p.file {
        Some(f) => opt_is_free(types::opt_text(f.filename)),
        None => true,
    }
}

/// Whether the texts of the content of a message are free.
pub open spec fn content_is_free(c: ContentView) -> bool {
    match c {
        ContentView::Text(t) => is_free(t),
        ContentView::Parts(parts) => forall|i: int|
            0 <= i < parts.len() ==> part_is_free(#[trigger] parts[i]),
    }
}

/// Whether a recorded call is free: the name is not `think` and has no brackets, and the
/// arguments, as they are shown, are free.
pub open spec fn call_is_free(f: FunctionCall) -> bool {
    &&& f.name@ != "think"@
    &&& forall|i: int|
        0 <= i < f.name@.len() ==> #[trigger] f.name@[i] != '<' && f.name@[i] != '>'
    &&& is_free(prompt::shown_arguments(f.arguments@))
}

/// Whether the recorded calls of a list are free.
pub open spec fn calls_are_free(calls: Seq<ToolCall>) -> bool {
    forall|i: int|
        0 <= i < calls.len() ==> match (#[trigger] calls[i]).function {
            Some(f) => call_is_free(f),
            None => true,
        }
}

/// Whether the texts of a message are free.
pub open spec fn message_is_free(m: MessageView) -> bool {
    &&& is_free(m.role)
    &&& match m.content {
        Some(c) => content_is_free(c),
        None => true,
    }
    &&& opt_is_free(m.name)
    &&& opt_is_free(m.refusal)
    &&& match m.tool_calls {
        Some(calls) => calls_are_free(calls),
        None => true,
    }
    &&& match m.function_call {
        Some(f) => call_is_free(f),
        None => true,
    }
}

/// Whether what a request says of its output format is free.
pub open spec fn format_is_free(rf: ResponseFormat) -> bool {
    is_free(rf.ty@) && match rf.json_schema {
        Some(schema) => is_free(json::json_text(schema)),
        None => true,
    }
}

#[verifier::rlimit(60)]
proof fn lemma_part_text_is_free(p: ContentPart)
    requires
        part_is_free(p),
    ensures
        is_free(prompt::part_text(p)),
{
    lemma_parts_are_free();
    lemma_short_is_free(Seq::empty());
    reveal_strlit("]");
    reveal_strlit(")]");
    reveal_strlit(" (filename=");
    if p.ty@ == "image_url"@ {
        if let Some(img) = p.image_url {
            reveal_strlit("[请访问这个链接: ");
            reveal_strlit("[图片: detail=");
            lemma_free_between("[请访问这个链接: "@, img.url@, "]"@);
            let detail = match img.detail {
                Some(d) => d@,
                None => "auto"@,
            };
            lemma_free_between("[图片: detail="@, detail, "]"@);
        }
    } else if p.ty@ == "input_audio"@ {
        reveal_strlit("[音频: format=");
        let format = match p.input_audio {
            Some(a) => a.format@,
            None => "unknown"@,
        };
        lemma_free_between("[音频: format="@, format, "]"@);
    } else if p.ty@ == "file"@ {
        reveal_strlit("[文件: filename=");
        reveal_strlit("[文件: ");
        let filename = match p.file {
            Some(f) => match f.filename {
                Some(n) => n@,
                None => "unknown"@,
            },
            None => "unknown"@,
        };
        let t = prompt::or_empty(p.text);
        lemma_free_between("[文件: filename="@, filename, "]"@);
        lemma_free_between("[文件: "@, t, " (filename="@);
        lemma_free_between("[文件: "@ + t + " (filename="@, filename, ")]"@);
    } else {
        reveal_strlit("[未支持的内容类型: ");
        lemma_free_between("[未支持的内容类型: "@, p.ty@, "]"@);
    }
}

proof fn lemma_line_break()
    ensures
        is_free("\n"@),
        "\n"@.len() == 1,
        "\n"@[0] == '\n',
        "\n"@.last() == '\n',
        is_free("\n\n"@),
        "\n\n"@.len() == 2,
        "\n\n"@[0] == '\n',
        "\n\n"@.last() == '\n',
{
    lemma_marks_are_free();
    reveal_strlit("\n");
    reveal_strlit("\n\n");
}

proof fn lemma_content_text_is_free(c: ContentView)
    requires
        content_is_free(c),
    ensures
        is_free(prompt::content_text(c)),
{
    if let ContentView::Parts(parts) = c {
        let lines = parts.map_values(|p: ContentPart| prompt::part_text(p));
        assert forall|i: int| 0 <= i < lines.len() implies is_free(#[trigger] lines[i]) by {
            assert(part_is_free(parts[i]));
            lemma_part_text_is_free(parts[i]);
        }
        lemma_line_break();
        lemma_joined_is_free(lines, "\n"@);
    }
}

proof fn lemma_merged_pair_is_free(a: MessageView, b: MessageView)
    requires
        message_is_free(a),
        message_is_free(b),
    ensures
        message_is_free(prompt::merged_pair(a, b)),
{
    let m = prompt::merged_pair(a, b);
    lemma_line_break();
    if let (Some(x), Some(y)) = (a.content, b.content) {
        lemma_content_text_is_free(x);
        lemma_content_text_is_free(y);
        lemma_free_pair(prompt::content_text(x), "\n"@);
        lemma_free_pair(prompt::content_text(x) + "\n"@, prompt::content_text(y));
        if let (ContentView::Parts(p), ContentView::Parts(q)) = (x, y) {
            assert forall|i: int| 0 <= i < (p + q).len() implies part_is_free(
                #[trigger] (p + q)[i],
            ) by {
                if i < p.len() {
                    assert((p + q)[i] == p[i]);
                } else {
                    assert((p + q)[i] == q[i - p.len()]);
                }
            }
        }
    }
    if let (Some(x), Some(y)) = (a.tool_calls, b.tool_calls) {
        assert forall|i: int| 0 <= i < (x + y).len() implies match (#[trigger] (x
            + y)[i]).function {
            Some(f) => call_is_free(f),
            None => true,
        } by {
            if i < x.len() {
                assert((x + y)[i] == x[i]);
            } else {
                assert((x + y)[i] == y[i - x.len()]);
            }
        }
    }
}

/// Whether all messages of a list are free.
pub open spec fn messages_are_free(messages: Seq<MessageView>) -> bool {
    forall|i: int| 0 <= i < messages.len() ==> message_is_free(#[trigger] messages[i])
}

proof fn lemma_merged_are_free(messages: Seq<MessageView>)
    requires
        messages_are_free(messages),
    ensures
        messages_are_free(prompt::merged(messages)),
    decreases messages.len(),
{
    if messages.len() > 0 {
        let less = messages.drop_last();
        assert forall|i: int| 0 <= i < less.len() implies message_is_free(#[trigger] less[i]) by {
            assert(less[i] == messages[i]);
        }
        lemma_merged_are_free(less);
        let before = prompt::merged(less);
        let m = messages.last();
        assert(message_is_free(messages[messages.len() - 1]));
        let all = prompt::merged(messages);
        assert forall|i: int| 0 <= i < all.len() implies message_is_free(#[trigger] all[i]) by {
            if before.len() > 0 && before.last().role == m.role && m.role != "tool"@ {
                if i < before.len() - 1 {
                    assert(all[i] == before[i]);
                } else {
                    assert(message_is_free(before[before.len() - 1]));
                    lemma_merged_pair_is_free(before.last(), m);
                }
            } else if i < before.len() {
                assert(all[i] == before[i]);
            }
        }
    }
}

#[verifier::rlimit(60)]
proof fn lemma_shown_call_is_free(f: FunctionCall)
    requires
        call_is_free(f),
    ensures
        is_free(prompt::shown_call(f)),
{
    let name = f.name@;
    let args = prompt::shown_arguments(f.arguments@);
    reveal_strlit("<");
    reveal_strlit(">\n");
    reveal_strlit("\n</");
    reveal_strlit(">");
    reveal_strlit("think");
    reveal_strlit("<think>");
    let p = "<think>"@;
    let head = "<"@ + name + ">\n"@;
    if prompt::mentions(head, p) {
        let i = choose|i: int|
            0 <= i && i + p.len() <= head.len() && #[trigger] head.subrange(i, i + p.len()) == p;
        let t = head.subrange(i, i + p.len());
        assert(t[0] == head[i] && t[6] == head[i + 6]);
        if i > 0 && i <= name.len() {
            assert(head[i] == name[i - 1]);
        }
        assert(i == 0);
        if 6 <= name.len() {
            assert(head[6] == name[5]);
        }
        assert(name.len() == 5);
        assert(name =~= "think"@) by {
            assert forall|k: int| 0 <= k < 5 implies name[k] == "think"@[k] by {
                assert(head[k + 1] == name[k]);
                assert(t[k + 1] == head[k + 1]);
            }
        }
    }
    lemma_free_pair(head, args);
    lemma_short_is_free("\n</"@);
    lemma_free_pair(head + args, "\n</"@);
    let close = name + ">"@;
    if prompt::mentions(close, p) {
        let i = choose|i: int|
            0 <= i && i + p.len() <= close.len() && #[trigger] close.subrange(i, i + p.len()) == p;
        assert(close.subrange(i, i + p.len())[0] == close[i]);
        assert(close[i] == name[i]);
    }
    let all = head + args + "\n</"@;
    lemma_free_pair(all, close);
    assert(prompt::call_text(name, args) =~= all + close);
}

proof fn lemma_shown_calls_are_free(calls: Seq<ToolCall>)
    requires
        calls_are_free(calls),
    ensures
        forall|i: int|
            0 <= i < prompt::shown_calls(calls).len() ==> is_free(
                #[trigger] prompt::shown_calls(calls)[i],
            ),
    decreases calls.len(),
{
    if calls.len() > 0 {
        let less = calls.drop_last();
        assert forall|i: int| 0 <= i < less.len() implies match (#[trigger] less[i]).function {
            Some(f) => call_is_free(f),
            None => true,
        } by {
            assert(less[i] == calls[i]);
        }
        lemma_shown_calls_are_free(less);
        assert(calls[calls.len() - 1] == calls.last());
        let before = prompt::shown_calls(less);
        if let Some(f) = calls.last().function {
            lemma_shown_call_is_free(f);
            assert(prompt::shown_calls(calls) == before.push(prompt::shown_call(f)));
        } else {
            assert(prompt::shown_calls(calls) == before);
        }
    }
}

proof fn lemma_bodies_are_free(m: MessageView)
    requires
        message_is_free(m),
    ensures
        is_free(prompt::generic_body(m)),
        is_free(prompt::assistant_body(m)),
        match m.content {
            Some(c) => is_free(prompt::content_text(c)),
            None => true,
        },
{
    lemma_line_break();
    lemma_marks_are_free();
    reveal_strlit("(name: ");
    reveal_strlit("(refusal: ");
    reveal_strlit(")");
    if let Some(c) = m.content {
        lemma_content_text_is_free(c);
    }
    if let Some(n) = m.name {
        lemma_free_between("(name: "@, n, ")"@);
    }
    if let Some(t) = m.refusal {
        lemma_free_between("(refusal: "@, t, ")"@);
    }
    if let Some(calls) = m.tool_calls {
        lemma_shown_calls_are_free(calls);
    }
    if let Some(f) = m.function_call {
        lemma_shown_call_is_free(f);
    }
    lemma_joined_is_free(prompt::name_line(m) + prompt::content_line(m), "\n"@);
    let lines = prompt::content_line(m) + (match m.tool_calls {
        Some(calls) => prompt::shown_calls(calls),
        None => Seq::empty(),
    }) + (match m.function_call {
        Some(f) => seq![prompt::shown_call(f)],
        None => Seq::empty(),
    }) + (match m.refusal {
        Some(t) => seq!["(refusal: "@ + t + ")"@],
        None => Seq::empty(),
    });
    lemma_joined_is_free(lines, "\n"@);
}

proof fn lemma_role_mark_is_free(role: Seq<char>)
    requires
        is_free(role),
    ensures
        is_marked(prompt::role_mark(role)),
        prompt::role_mark(role).last() == '>',
{
    lemma_marks_are_free();
    reveal_strlit("<｜");
    reveal_strlit("｜>");
    reveal_strlit("<think>");
    let p = "<think>"@;
    let c = prompt::capitalized(role);
    if prompt::mentions(c, p) {
        let i = choose|i: int|
            0 <= i && i + p.len() <= c.len() && #[trigger] c.subrange(i, i + p.len()) == p;
        if c != role {
            assert(c.subrange(i, i + p.len())[0] == c[i]);
            assert(i > 0);
        }
        assert(role.subrange(i, i + p.len()) =~= c.subrange(i, i + p.len()));
    }
    lemma_free_between("<｜"@, c, "｜>"@);
}

proof fn lemma_tool_output_is_free(content: Seq<char>)
    requires
        is_free(content),
    ensures
        is_marked(prompt::tool_output(content)),
{
    lemma_marks_are_free();
    reveal_strlit("<｜tool▁output▁begin｜>");
    reveal_strlit("<｜tool▁output▁end｜>");
    lemma_free_between("<｜tool▁output▁begin｜>"@, content, "<｜tool▁output▁end｜>"@);
}

proof fn lemma_outputs_are_free(inner: Seq<char>)
    requires
        is_free(inner),
    ensures
        is_marked("<｜tool▁outputs▁begin｜>"@ + inner + "<｜tool▁outputs▁end｜>"@),
{
    lemma_marks_are_free();
    reveal_strlit("<｜tool▁outputs▁begin｜>");
    reveal_strlit("<｜tool▁outputs▁end｜>");
    lemma_free_between("<｜tool▁outputs▁begin｜>"@, inner, "<｜tool▁outputs▁end｜>"@);
}

proof fn lemma_message_is_marked(m: MessageView)
    requires
        message_is_free(m),
    ensures
        is_marked(prompt::message_text(m)),
{
    lemma_bodies_are_free(m);
    lemma_role_mark_is_free(m.role);
    lemma_free_pair(prompt::role_mark(m.role), prompt::assistant_body(m));
    lemma_free_pair(prompt::role_mark(m.role), prompt::generic_body(m));
    let content = match m.content {
        Some(c) => prompt::content_text(c),
        None => Seq::empty(),
    };
    lemma_short_is_free(Seq::empty());
    lemma_tool_output_is_free(content);
    lemma_outputs_are_free(prompt::tool_output(content));
    lemma_marks_are_free();
    reveal_strlit("<｜end▁of▁sentence｜>");
    lemma_free_pair("<｜end▁of▁sentence｜>"@, prompt::role_mark(m.role));
    lemma_free_pair(
        "<｜end▁of▁sentence｜>"@ + prompt::role_mark(m.role),
        prompt::generic_body(m),
    );
}

proof fn lemma_outputs_of_are_free(group: Seq<MessageView>)
    requires
        messages_are_free(group),
    ensures
        is_free(prompt::outputs_of(group)),
    decreases group.len(),
{
    if group.len() == 0 {
        lemma_short_is_free(prompt::outputs_of(group));
    } else {
        let less = group.drop_last();
        assert forall|i: int| 0 <= i < less.len() implies message_is_free(#[trigger] less[i]) by {
            assert(less[i] == group[i]);
        }
        lemma_outputs_of_are_free(less);
        assert(message_is_free(group[group.len() - 1]));
        if let Some(c) = group.last().content {
            lemma_content_text_is_free(c);
            lemma_tool_output_is_free(prompt::content_text(c));
            lemma_free_pair(
                prompt::outputs_of(less),
                prompt::tool_output(prompt::content_text(c)),
            );
        }
    }
}

proof fn lemma_parts_are_marked(messages: Seq<MessageView>, i: int)
    requires
        messages_are_free(messages),
        0 <= i,
    ensures
        forall|k: int|
            0 <= k < prompt::parts_from(messages, i).len() ==> is_marked(
                #[trigger] prompt::parts_from(messages, i)[k],
            ),
    decreases messages.len() - i,
{
    if i < messages.len() {
        if messages[i].role == "tool"@ {
            let j = prompt::tool_run_end(messages, i);
            prompt::lemma_tool_run_end(messages, i);
            let group = messages.subrange(i, j);
            assert forall|k: int| 0 <= k < group.len() implies message_is_free(
                #[trigger] group[k],
            ) by {
                assert(group[k] == messages[i + k]);
            }
            lemma_outputs_of_are_free(group);
            lemma_outputs_are_free(prompt::outputs_of(group));
            lemma_parts_are_marked(messages, j);
            assert(prompt::parts_from(messages, i) == seq![
                "<｜tool▁outputs▁begin｜>"@ + prompt::outputs_of(group)
                    + "<｜tool▁outputs▁end｜>"@,
            ] + prompt::parts_from(messages, j));
        } else {
            lemma_message_is_marked(messages[i]);
            lemma_parts_are_marked(messages, i + 1);
            assert(prompt::parts_from(messages, i) == seq![prompt::message_text(messages[i])]
                + prompt::parts_from(messages, i + 1));
        }
    }
}

proof fn lemma_response_text_is_free(rf: ResponseFormat)
    requires
        format_is_free(rf),
    ensures
        is_free(prompt::response_text(rf)),
{
    lemma_sections_are_free();
    lemma_short_is_free(Seq::empty());
    reveal_strlit("以 JSON 的形式输出，输出的 JSON 需遵守以下的格式：\n\n~~~json\n");
    reveal_strlit("\n~~~");
    reveal_strlit("请以 ");
    reveal_strlit(" 格式输出。");
    if let Some(schema) = rf.json_schema {
        lemma_free_between(
            "以 JSON 的形式输出，输出的 JSON 需遵守以下的格式：\n\n~~~json\n"@,
            json::json_text(schema),
            "\n~~~"@,
        );
    }
    lemma_free_between("请以 "@, rf.ty@, " 格式输出。"@);
}

proof fn lemma_all_sections_are_free(
    ctx: ContextView,
    format_text: Seq<char>,
    wording: Seq<char>,
)
    requires
        opt_is_free(ctx.defs),
        opt_is_free(ctx.instruction),
        is_free(format_text),
        is_free(wording),
    ensures
        forall|k: int|
            0 <= k < prompt::sections(ctx, format_text, wording).len() ==> is_free(
                #[trigger] prompt::sections(ctx, format_text, wording)[k],
            ),
{
    lemma_sections_are_free();
    lemma_line_break();
    reveal_strlit("## Tools\n\n");
    reveal_strlit("## 调用指令\n");
    reveal_strlit("## 输出格式\n");
    if let Some(t) = ctx.defs {
        lemma_free_between("## Tools\n\n"@, t, "\n\n"@);
        lemma_free_pair("## Tools\n\n"@ + t + "\n\n"@, wording);
    }
    if let Some(t) = ctx.instruction {
        lemma_free_pair("## 调用指令\n"@, t);
    }
    lemma_free_pair("## 输出格式\n"@, format_text);
}

proof fn lemma_with_sections_is_marked(parts: Seq<Seq<char>>, sections: Seq<Seq<char>>)
    requires
        forall|k: int| 0 <= k < parts.len() ==> is_marked(#[trigger] parts[k]),
        forall|k: int| 0 <= k < sections.len() ==> is_free(#[trigger] sections[k]),
    ensures
        forall|k: int|
            0 <= k < prompt::with_sections(parts, sections).len() ==> is_marked(
                #[trigger] prompt::with_sections(parts, sections)[k],
            ),
{
    if sections.len() > 0 {
        lemma_line_break();
        lemma_marks_are_free();
        let body = text::joined(sections, "\n\n"@);
        lemma_joined_is_free(sections, "\n\n"@);
        lemma_free_pair("\n\n"@, body);
        let addition = "\n\n"@ + body;
        let mark = "<｜System｜>"@;
        reveal_strlit("<｜System｜>");
        prompt::lemma_first_marked(parts, mark, 0);
        match prompt::first_marked(parts, mark, 0) {
            Some(k) => {
                let part = parts[k];
                assert(is_marked(part));
                assert(part.subrange(0, mark.len() as int) =~= mark);
                assert(part.len() >= mark.len());
                let short = part.drop_last();
                lemma_free_part(part, 0, part.len() - 1);
                assert(short =~= part.subrange(0, part.len() - 1));
                lemma_free_pair(short, addition);
                lemma_free_pair(short + addition, "\n"@);
                lemma_free_pair(part, addition);
                let whole = prompt::with_tail(part, addition);
                assert(whole[0] == part[0]);
                assert(is_marked(whole));
            },
            None => {
                let rest = text::trimmed_start(addition);
                prompt::lemma_trimmed_start_is_suffix(addition);
                lemma_free_part(addition, addition.len() - rest.len(), addition.len() as int);
                lemma_free_between(mark, rest, "\n"@);
            },
        }
    }
}

/// The builder adds no thinking block: `<think>` stands in a prompt only where it stands in
/// one of the texts from which the prompt is built. These are the texts of the messages,
/// with the arguments of recorded calls as they are shown, the descriptions of the tools and
/// the instructions, the wording and the output format. No recorded call is named `think` or
/// has a bracket in its name.
pub proof fn law_no_thinking_is_added(
    req: ChatCompletionsRequest,
    ctx: ContextView,
    wording: Seq<char>,
)
    requires
        messages_are_free(types::message_views(req.messages@)),
        opt_is_free(ctx.defs),
        opt_is_free(ctx.instruction),
        is_free(wording),
        match req.response_format {
            Some(rf) => format_is_free(rf),
            None => true,
        },
    ensures
        is_free(text::joined(prompt::prompt_parts(req, ctx, wording), ""@)),
{
    let messages = prompt::merged(types::message_views(req.messages@));
    let format_text = prompt::format_text_of(req);
    lemma_merged_are_free(types::message_views(req.messages@));
    lemma_parts_are_marked(messages, 0);
    lemma_short_is_free(Seq::empty());
    if let Some(rf) = req.response_format {
        lemma_response_text_is_free(rf);
    }
    lemma_all_sections_are_free(ctx, format_text, wording);
    let parts = prompt::parts_from(messages, 0);
    let sections = prompt::sections(ctx, format_text, wording);
    lemma_with_sections_is_marked(parts, sections);
    lemma_marks_are_free();
    reveal_strlit("<｜Assistant｜>\n");
    lemma_marked_are_free(prompt::prompt_parts(req, ctx, wording));
}

// ---------------------------------------------------------------------------
// The mark of the assistant
// ---------------------------------------------------------------------------

/// Whether a role is one of those that requests have.
pub open spec fn is_known_role(role: Seq<char>) -> bool {
    role == "system"@ || role == "developer"@ || role == "user"@ || role == "assistant"@ || role
        == "tool"@ || role == "function"@
}

/// Whether a message of a list has a role.
pub open spec fn has_role(messages: Seq<MessageView>, role: Seq<char>) -> bool {
    exists|i: int| 0 <= i < messages.len() && (#[trigger] messages[i]).role == role
}

/// Whether a text starts with the mark of the assistant.
pub open spec fn is_assistant(s: Seq<char>) -> bool {
    "<｜Assistant｜>"@.is_prefix_of(s)
}

/// Merging messages keeps their roles.
proof fn lemma_merging_keeps_roles(messages: Seq<MessageView>, role: Seq<char>)
    ensures
        has_role(prompt::merged(messages), role) == has_role(messages, role),
        (forall|i: int| 0 <= i < messages.len() ==> is_known_role((#[trigger] messages[i]).role))
            ==> (forall|i: int|
            0 <= i < prompt::merged(messages).len() ==> is_known_role(
                (#[trigger] prompt::merged(messages)[i]).role,
            )),
    decreases messages.len(),
{
    if messages.len() > 0 {
        let less = messages.drop_last();
        let m = messages.last();
        let before = prompt::merged(less);
        let all = prompt::merged(messages);
        lemma_merging_keeps_roles(less, role);
        assert(messages[messages.len() - 1] == m);
        let joins = before.len() > 0 && before.last().role == m.role && m.role != "tool"@;
        assert forall|i: int| 0 <= i < before.len() implies (#[trigger] before[i]).role
            == all[i].role by {}
        assert(all.len() > 0 && all.last().role == m.role);
        if has_role(all, role) {
            let i = choose|i: int| 0 <= i < all.len() && (#[trigger] all[i]).role == role;
            if i < before.len() {
                assert(before[i].role == role);
                let j = choose|j: int| 0 <= j < less.len() && (#[trigger] less[j]).role == role;
                assert(messages[j] == less[j]);
            } else {
                assert(messages[messages.len() - 1].role == role);
            }
        }
        if has_role(messages, role) {
            let j = choose|j: int|
                0 <= j < messages.len() && (#[trigger] messages[j]).role == role;
            if j < less.len() {
                assert(less[j].role == role);
                let i = choose|i: int|
                    0 <= i < before.len() && (#[trigger] before[i]).role == role;
                assert(all[i].role == role);
            } else {
                assert(all[all.len() - 1].role == role);
            }
        }
        if forall|i: int| 0 <= i < messages.len() ==> is_known_role((#[trigger] messages[i]).role) {
            assert forall|i: int| 0 <= i < less.len() implies is_known_role(
                (#[trigger] less[i]).role,
            ) by {
                assert(less[i] == messages[i]);
            }
            assert forall|i: int| 0 <= i < all.len() implies is_known_role(
                (#[trigger] all[i]).role,
            ) by {
                if i < before.len() {
                    assert(before[i].role == all[i].role);
                }
            }
        }
    }
}

/// Whether a text starts with a bracket, a bar and a character that tells the roles apart.
spec fn starts_with_role(s: Seq<char>, assistant: bool) -> bool {
    s.len() > 2 && s[0] == '<' && (is_assistant(s) <==> assistant) && (!assistant ==> s[2] != 'A')
}

#[verifier::rlimit(60)]
proof fn lemma_message_start(m: MessageView)
    requires
        is_known_role(m.role),
    ensures
        starts_with_role(prompt::message_text(m), m.role == "assistant"@),
{
    reveal_strlit("system");
    reveal_strlit("developer");
    reveal_strlit("user");
    reveal_strlit("assistant");
    reveal_strlit("tool");
    reveal_strlit("function");
    reveal_strlit("<｜");
    reveal_strlit("｜>");
    reveal_strlit("<｜end▁of▁sentence｜>");
    reveal_strlit("<｜tool▁outputs▁begin｜>");
    reveal_strlit("<｜Assistant｜>");
    let s = prompt::message_text(m);
    let mark = "<｜Assistant｜>"@;
    if m.role == "assistant"@ {
        assert(prompt::role_mark(m.role) =~= mark);
        assert(s.subrange(0, mark.len() as int) =~= mark);
    } else {
        assert(s.len() > 2 && s[0] == '<' && s[2] != 'A');
        if mark.is_prefix_of(s) {
            assert(s.subrange(0, mark.len() as int)[2] == s[2]);
        }
    }
}

proof fn lemma_outputs_start(inner: Seq<char>)
    ensures
        starts_with_role("<｜tool▁outputs▁begin｜>"@ + inner + "<｜tool▁outputs▁end｜>"@, false),
{
    reveal_strlit("<｜tool▁outputs▁begin｜>");
    reveal_strlit("<｜Assistant｜>");
    let s = "<｜tool▁outputs▁begin｜>"@ + inner + "<｜tool▁outputs▁end｜>"@;
    let mark = "<｜Assistant｜>"@;
    assert(s[2] == 't');
    if mark.is_prefix_of(s) {
        assert(s.subrange(0, mark.len() as int)[2] == s[2]);
    }
}

/// Whether a text of a list starts with the mark of the assistant.
spec fn has_assistant(parts: Seq<Seq<char>>) -> bool {
    exists|k: int| 0 <= k < parts.len() && is_assistant(#[trigger] parts[k])
}

/// Whether every text of a list starts with a mark.
spec fn all_start(parts: Seq<Seq<char>>) -> bool {
    forall|k: int|
        0 <= k < parts.len() ==> starts_with_role(#[trigger] parts[k], is_assistant(parts[k]))
}

/// Whether a message from `i` on has a role.
spec fn has_role_from(messages: Seq<MessageView>, role: Seq<char>, i: int) -> bool {
    exists|k: int| i <= k < messages.len() && (#[trigger] messages[k]).role == role
}

/// The messages of a run of tool results have no other role.
proof fn lemma_run_is_of_tools(messages: Seq<MessageView>, i: int, k: int)
    requires
        0 <= i <= k < prompt::tool_run_end(messages, i),
    ensures
        k < messages.len(),
        messages[k].role == "tool"@,
    decreases k - i,
{
    if i < messages.len() && messages[i].role == "tool"@ && i < k {
        lemma_run_is_of_tools(messages, i + 1, k);
    }
}

proof fn lemma_parts_start(messages: Seq<MessageView>, i: int)
    requires
        forall|k: int| 0 <= k < messages.len() ==> is_known_role((#[trigger] messages[k]).role),
        0 <= i,
    ensures
        all_start(prompt::parts_from(messages, i)),
        has_assistant(prompt::parts_from(messages, i)) == has_role_from(
            messages,
            "assistant"@,
            i,
        ),
    decreases messages.len() - i,
{
    let parts = prompt::parts_from(messages, i);
    if i < messages.len() {
        let (one, j): (Seq<char>, int) = if messages[i].role == "tool"@ {
            let j = prompt::tool_run_end(messages, i);
            (
                "<｜tool▁outputs▁begin｜>"@ + prompt::outputs_of(messages.subrange(i, j))
                    + "<｜tool▁outputs▁end｜>"@,
                j,
            )
        } else {
            (prompt::message_text(messages[i]), i + 1)
        };
        let assistant = messages[i].role == "assistant"@;
        reveal_strlit("tool");
        reveal_strlit("assistant");
        assert("tool"@ != "assistant"@) by {
            assert("tool"@.len() != "assistant"@.len());
        }
        if messages[i].role == "tool"@ {
            prompt::lemma_tool_run_end(messages, i);
            lemma_outputs_start(prompt::outputs_of(messages.subrange(i, j)));
        } else {
            lemma_message_start(messages[i]);
        }
        assert(starts_with_role(one, assistant));
        lemma_parts_start(messages, j);
        let rest = prompt::parts_from(messages, j);
        assert(parts =~= seq![one] + rest);
        assert forall|k: int| 0 <= k < parts.len() implies starts_with_role(
            #[trigger] parts[k],
            is_assistant(parts[k]),
        ) by {
            if k > 0 {
                assert(parts[k] == rest[k - 1]);
            }
        }
        if has_assistant(parts) {
            let k = choose|k: int| 0 <= k < parts.len() && is_assistant(#[trigger] parts[k]);
            if k == 0 {
                assert(messages[i].role == "assistant"@);
            } else {
                assert(is_assistant(rest[k - 1]));
                let n = choose|n: int|
                    j <= n < messages.len() && (#[trigger] messages[n]).role == "assistant"@;
                assert(messages[n].role == "assistant"@);
            }
        }
        if has_role_from(messages, "assistant"@, i) {
            let n = choose|n: int|
                i <= n < messages.len() && (#[trigger] messages[n]).role == "assistant"@;
            if n < j {
                if messages[i].role == "tool"@ {
                    lemma_run_is_of_tools(messages, i, n);
                }
                assert(is_assistant(parts[0]));
            } else {
                assert(messages[n].role == "assistant"@);
                let k = choose|k: int| 0 <= k < rest.len() && is_assistant(#[trigger] rest[k]);
                assert(parts[k + 1] == rest[k]);
            }
        }
    }
}

/// Sections do not change which texts start with the mark of the assistant.
#[verifier::rlimit(60)]
proof fn lemma_sections_keep_marks(parts: Seq<Seq<char>>, sections: Seq<Seq<char>>)
    requires
        all_start(parts),
    ensures
        has_assistant(prompt::with_sections(parts, sections)) == has_assistant(parts),
{
    let all = prompt::with_sections(parts, sections);
    if sections.len() > 0 {
        let addition = "\n\n"@ + text::joined(sections, "\n\n"@);
        let mark = "<｜System｜>"@;
        let own = "<｜Assistant｜>"@;
        reveal_strlit("<｜System｜>");
        reveal_strlit("<｜Assistant｜>");
        prompt::lemma_first_marked(parts, mark, 0);
        match prompt::first_marked(parts, mark, 0) {
            Some(n) => {
                let part = parts[n];
                assert(part.subrange(0, mark.len() as int) =~= mark);
                assert(part[2] == mark[2]);
                let whole = prompt::with_tail(part, addition);
                assert(whole[2] == part[2]);
                assert(!is_assistant(part)) by {
                    if own.is_prefix_of(part) {
                        assert(part.subrange(0, own.len() as int)[2] == part[2]);
                    }
                }
                assert(!is_assistant(whole)) by {
                    if own.is_prefix_of(whole) {
                        assert(whole.subrange(0, own.len() as int)[2] == whole[2]);
                    }
                }
                assert forall|k: int| 0 <= k < parts.len() implies is_assistant(
                    #[trigger] all[k],
                ) == is_assistant(parts[k]) by {}
                if has_assistant(parts) {
                    let k = choose|k: int|
                        0 <= k < parts.len() && is_assistant(#[trigger] parts[k]);
                    assert(is_assistant(all[k]));
                }
                if has_assistant(all) {
                    let k = choose|k: int| 0 <= k < all.len() && is_assistant(#[trigger] all[k]);
                    assert(is_assistant(parts[k]));
                }
            },
            None => {
                let first = mark + text::trimmed_start(addition) + "\n"@;
                assert(first[2] == mark[2]);
                assert(!is_assistant(first)) by {
                    if own.is_prefix_of(first) {
                        assert(first.subrange(0, own.len() as int)[2] == first[2]);
                    }
                }
                assert(all =~= seq![first] + parts);
                if has_assistant(parts) {
                    let k = choose|k: int|
                        0 <= k < parts.len() && is_assistant(#[trigger] parts[k]);
                    assert(all[k + 1] == parts[k]);
                }
                if has_assistant(all) {
                    let k = choose|k: int| 0 <= k < all.len() && is_assistant(#[trigger] all[k]);
                    assert(all[k] == if k == 0 {
                        first
                    } else {
                        parts[k - 1]
                    });
                }
            },
        }
    }
}

/// The last of some texts ends what they make together.
proof fn lemma_last_ends(parts: Seq<Seq<char>>)
    requires
        parts.len() > 0,
    ensures
        parts.last().is_suffix_of(text::joined(parts, ""@)),
    decreases parts.len(),
{
    reveal_strlit("");
    if parts.len() == 1 {
        assert(parts[0].subrange(0, parts[0].len() as int) =~= parts[0]);
    } else {
        let rest = parts.drop_first();
        lemma_last_ends(rest);
        assert(rest.last() == parts.last());
        let tail = text::joined(rest, ""@);
        let all = text::joined(parts, ""@);
        let n = parts.last().len() as int;
        assert(all =~= parts[0] + tail);
        assert(all.subrange(all.len() - n, all.len() as int) =~= tail.subrange(
            tail.len() - n,
            tail.len() as int,
        ));
    }
}

/// The mark of the assistant is put at the end of a prompt exactly where no message is of
/// the assistant: the prompt then ends with it, and else nothing is put behind the texts.
pub proof fn law_assistant_mark_is_put_last(
    req: ChatCompletionsRequest,
    ctx: ContextView,
    wording: Seq<char>,
)
    requires
        forall|i: int|
            0 <= i < req.messages@.len() ==> is_known_role(
                (#[trigger] types::message_views(req.messages@)[i]).role,
            ),
    ensures
        ({
            let messages = types::message_views(req.messages@);
            let plain = prompt::with_sections(
                prompt::parts_from(prompt::merged(messages), 0),
                prompt::sections(ctx, prompt::format_text_of(req), wording),
            );
            let parts = prompt::prompt_parts(req, ctx, wording);
            if has_role(messages, "assistant"@) {
                parts == plain
            } else {
                parts == plain.push("<｜Assistant｜>\n"@) && "<｜Assistant｜>\n"@.is_suffix_of(
                    text::joined(parts, ""@),
                )
            }
        }),
{
    let messages = types::message_views(req.messages@);
    let merged = prompt::merged(messages);
    let parts = prompt::parts_from(merged, 0);
    let sections = prompt::sections(ctx, prompt::format_text_of(req), wording);
    let plain = prompt::with_sections(parts, sections);
    lemma_merging_keeps_roles(messages, "assistant"@);
    lemma_parts_start(merged, 0);
    lemma_sections_keep_marks(parts, sections);
    prompt::lemma_first_marked(plain, "<｜Assistant｜>"@, 0);
    assert(has_role_from(merged, "assistant"@, 0) == has_role(merged, "assistant"@)) by {
        if has_role(merged, "assistant"@) {
            let i = choose|i: int|
                0 <= i < merged.len() && (#[trigger] merged[i]).role == "assistant"@;
            assert(merged[i].role == "assistant"@);
        }
        if has_role_from(merged, "assistant"@, 0) {
            let i = choose|i: int|
                0 <= i < merged.len() && (#[trigger] merged[i]).role == "assistant"@;
            assert(merged[i].role == "assistant"@);
        }
    }
    if has_assistant(plain) {
        let k = choose|k: int| 0 <= k < plain.len() && is_assistant(#[trigger] plain[k]);
        assert("<｜Assistant｜>"@.is_prefix_of(plain[k]));
    } else {
        if let Some(k) = prompt::first_marked(plain, "<｜Assistant｜>"@, 0) {
            assert(is_assistant(plain[k]));
        }
        lemma_last_ends(prompt::prompt_parts(req, ctx, wording));
    }
}

} // verus!
