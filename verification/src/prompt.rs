//! The prompt: the messages of a request as one text with role marks.
//!
//! The marks are `<｜System｜>`, `<｜User｜>`, `<｜Assistant｜>` and
//! `<｜tool▁outputs▁begin｜>`. What is said of tools and of the output format stands at the
//! end of the system message. Recorded tool calls are shown in the form in which the model
//! is to write them.

use std::time::SystemTime;
use vstd::prelude::*;

use crate::clock;
use crate::clock::now_nanos;
use crate::json;
use crate::json::{json_from_str, json_null, json_to_string};
use crate::replay;
use crate::text;
use crate::text::{cat2, cat3, from_chars, join, starts_with, str_eq, to_chars};
use crate::tool_parser;
use crate::tools::{ContextView, ToolContext};
use crate::types;
use crate::types::{
    clone_audio, clone_calls, clone_content, clone_function_call, clone_opt, extend_calls,
    extend_parts, ChatCompletionsRequest, ContentPart, ContentView, FunctionCall, Message,
    MessageContent, MessageView, ResponseFormat, ToolCall,
};

verus! {

// ---------------------------------------------------------------------------
// The wording of the instruction on tool calls
// ---------------------------------------------------------------------------

/// The index that a number of nanoseconds picks out of so many.
pub open spec fn picked(nanos: u64, bound: usize) -> usize {
    if bound <= 1 {
        0
    } else {
        (nanos as int % bound as int) as usize
    }
}

/// The index that a number of nanoseconds picks out of so many.
pub fn pick_index(nanos: u64, bound: usize) -> (r: usize)
    ensures
        r == picked(nanos, bound),
        bound > 0 ==> r < bound,
{
    if bound <= 1 {
        return 0;
    }
    (nanos % bound as u64) as usize
}

/// An index below `bound` that changes from request to request with the clock.
pub fn jitter_index(bound: usize) -> (r: usize)
    ensures
        bound <= 1 ==> r == 0,
        bound > 0 ==> r < bound,
        exists|t: SystemTime|
            r == picked(clock::nanos_of(#[trigger] clock::clock_reading(t)), bound),
{
    let nanos: u64 = now_nanos();
    pick_index(nanos, bound)
}

/// The wording that a point in time picks.
pub open spec fn wording_at(t: SystemTime) -> Seq<char> {
    instruction_variant(
        picked(clock::nanos_of(clock::clock_reading(t)), INSTRUCTION_VARIANTS) as int,
    )
}

/// How many wordings the instruction on tool calls has.
pub const INSTRUCTION_VARIANTS: usize = 4;

/// The wordings of the instruction on tool calls.
pub open spec fn instruction_variant(k: int) -> Seq<char> {
    if k == 0 {
        "使用工具时，请直接输出对应工具的 XML 标签（如 `<tool_name>{{...}}</tool_name>`）。不要使用 `<invoke name=\"...\">...</invoke>` 或 `<tool_call>...</tool_call>` 等包装格式。"@
    } else if k == 1 {
        "调用工具请输出形如 `<tool_name>{{...}}</tool_name>` 的 XML 标签，禁止使用 `<invoke>` 或 `<tool_call>` 包装。"@
    } else if k == 2 {
        "工具调用格式：直接输出 `<tool_name>{{...}}</tool_name>`，不要包裹在 `<invoke>`/`<tool_call>` 中。"@
    } else {
        "如需调用工具，请以 `<tool_name>{{...}}</tool_name>` 格式输出，避免使用 `<invoke>` 或 `<tool_call>` 标签。"@
    }
}

/// The `k`-th wording of the instruction on tool calls.
pub fn instruction_wording(k: usize) -> (r: &'static str)
    requires
        k < INSTRUCTION_VARIANTS,
    ensures
        r@ == instruction_variant(k as int),
{
    if k == 0 {
        "使用工具时，请直接输出对应工具的 XML 标签（如 `<tool_name>{{...}}</tool_name>`）。不要使用 `<invoke name=\"...\">...</invoke>` 或 `<tool_call>...</tool_call>` 等包装格式。"
    } else if k == 1 {
        "调用工具请输出形如 `<tool_name>{{...}}</tool_name>` 的 XML 标签，禁止使用 `<invoke>` 或 `<tool_call>` 包装。"
    } else if k == 2 {
        "工具调用格式：直接输出 `<tool_name>{{...}}</tool_name>`，不要包裹在 `<invoke>`/`<tool_call>` 中。"
    } else {
        "如需调用工具，请以 `<tool_name>{{...}}</tool_name>` 格式输出，避免使用 `<invoke>` 或 `<tool_call>` 标签。"
    }
}

/// The wording of the instruction on tool calls that the clock picks.
pub fn tool_instruction_text() -> (r: &'static str)
    ensures
        exists|t: SystemTime| r@ == #[trigger] wording_at(t),
{
    let k: usize = jitter_index(INSTRUCTION_VARIANTS);
    let r = instruction_wording(k);
    proof {
        let t = choose|t: SystemTime|
            k == picked(
                clock::nanos_of(#[trigger] clock::clock_reading(t)),
                INSTRUCTION_VARIANTS,
            );
        assert(r@ == wording_at(t));
    }
    r
}

/// Whether a text holds another.
pub open spec fn mentions(s: Seq<char>, p: Seq<char>) -> bool {
    exists|i: int| 0 <= i && i + p.len() <= s.len() && #[trigger] s.subrange(i, i + p.len()) == p
}

/// Every wording shows the form of a call and names both forms that are ruled out.
pub proof fn law_every_wording_rules_wrappers_out(k: int)
    requires
        0 <= k < INSTRUCTION_VARIANTS,
    ensures
        mentions(instruction_variant(k), "<tool_name>{{...}}</tool_name>"@),
        mentions(instruction_variant(k), "<invoke"@),
        mentions(instruction_variant(k), "<tool_call>"@),
{
    reveal_strlit("<tool_name>{{...}}</tool_name>");
    reveal_strlit("<invoke");
    reveal_strlit("<tool_call>");
    reveal_strlit(
        "使用工具时，请直接输出对应工具的 XML 标签（如 `<tool_name>{{...}}</tool_name>`）。不要使用 `<invoke name=\"...\">...</invoke>` 或 `<tool_call>...</tool_call>` 等包装格式。",
    );
    reveal_strlit(
        "调用工具请输出形如 `<tool_name>{{...}}</tool_name>` 的 XML 标签，禁止使用 `<invoke>` 或 `<tool_call>` 包装。",
    );
    reveal_strlit(
        "工具调用格式：直接输出 `<tool_name>{{...}}</tool_name>`，不要包裹在 `<invoke>`/`<tool_call>` 中。",
    );
    reveal_strlit(
        "如需调用工具，请以 `<tool_name>{{...}}</tool_name>` 格式输出，避免使用 `<invoke>` 或 `<tool_call>` 标签。",
    );
    let s = instruction_variant(k);
    let (a, b, c): (int, int, int) = if k == 0 {
        (27, 66, 102)
    } else if k == 1 {
        (11, 58, 71)
    } else if k == 2 {
        (13, 52, 63)
    } else {
        (11, 54, 67)
    };
    assert(s.subrange(a, a + 30) =~= "<tool_name>{{...}}</tool_name>"@);
    assert(s.subrange(b, b + 7) =~= "<invoke"@);
    assert(s.subrange(c, c + 11) =~= "<tool_call>"@);
}

// ---------------------------------------------------------------------------
// Content
// ---------------------------------------------------------------------------

/// A text or nothing, as a text.
pub open spec fn or_empty(s: Option<String>) -> Seq<char> {
    match s {
        Some(t) => t@,
        None => Seq::empty(),
    }
}

/// A part of a message as text.
pub open spec fn part_text(p: ContentPart) -> Seq<char> {
    if p.ty@ == "text"@ {
        or_empty(p.text)
    } else if p.ty@ == "refusal"@ {
        or_empty(p.refusal)
    } else if p.ty@ == "image_url"@ {
        match p.image_url {
            Some(img) => if "http://"@.is_prefix_of(img.url@) || "https://"@.is_prefix_of(
                img.url@,
            ) {
                "[请访问这个链接: "@ + img.url@ + "]"@
            } else {
                "[图片: detail="@ + (match img.detail {
                    Some(d) => d@,
                    None => "auto"@,
                }) + "]"@
            },
            None => "[图片]"@,
        }
    } else if p.ty@ == "input_audio"@ {
        "[音频: format="@ + (match p.input_audio {
            Some(a) => a.format@,
            None => "unknown"@,
        }) + "]"@
    } else if p.ty@ == "file"@ {
        let filename = match p.file {
            Some(f) => match f.filename {
                Some(n) => n@,
                None => "unknown"@,
            },
            None => "unknown"@,
        };
        if or_empty(p.text).len() == 0 {
            "[文件: filename="@ + filename + "]"@
        } else {
            "[文件: "@ + or_empty(p.text) + " (filename="@ + filename + ")]"@
        }
    } else {
        "[未支持的内容类型: "@ + p.ty@ + "]"@
    }
}

/// The content of a message as text.
pub open spec fn content_text(c: ContentView) -> Seq<char> {
    match c {
        ContentView::Text(t) => t,
        ContentView::Parts(parts) => text::joined(
            parts.map_values(|p: ContentPart| part_text(p)),
            "\n"@,
        ),
    }
}

/// A text or nothing, as a text.
fn text_or_empty(s: &Option<String>) -> (r: String)
    ensures
        r@ == or_empty(*s),
{
    match s {
        Some(t) => t.clone(),
        None => {
            let r = String::new();
            assert(r@ =~= Seq::<char>::empty());
            r
        },
    }
}

/// A part of a message as text.
pub fn format_part(part: &ContentPart) -> (r: String)
    ensures
        r@ == part_text(*part),
{
    let ty = part.ty.as_str();
    if str_eq(ty, "text") {
        text_or_empty(&part.text)
    } else if str_eq(ty, "refusal") {
        text_or_empty(&part.refusal)
    } else if str_eq(ty, "image_url") {
        match &part.image_url {
            Some(img) => {
                let url = img.url.as_str();
                if starts_with(url, "http://") || starts_with(url, "https://") {
                    cat3("[请访问这个链接: ", url, "]")
                } else {
                    let detail = match &img.detail {
                        Some(d) => d.as_str(),
                        None => "auto",
                    };
                    cat3("[图片: detail=", detail, "]")
                }
            },
            None => "[图片]".to_owned(),
        }
    } else if str_eq(ty, "input_audio") {
        let fmt = match &part.input_audio {
            Some(a) => a.format.as_str(),
            None => "unknown",
        };
        cat3("[音频: format=", fmt, "]")
    } else if str_eq(ty, "file") {
        let filename = match &part.file {
            Some(f) => match &f.filename {
                Some(n) => n.as_str(),
                None => "unknown",
            },
            None => "unknown",
        };
        let desc = text_or_empty(&part.text);
        if desc.as_str().is_empty() {
            cat3("[文件: filename=", filename, "]")
        } else {
            let mut out = cat3("[文件: ", desc.as_str(), " (filename=");
            out.append(filename);
            out.append(")]");
            out
        }
    } else {
        cat3("[未支持的内容类型: ", ty, "]")
    }
}

/// The content of a message as text.
pub fn format_content(content: &MessageContent) -> (r: String)
    ensures
        r@ == content_text(content@),
{
    match content {
        MessageContent::Text(t) => t.clone(),
        MessageContent::Parts(parts) => {
            let mut lines: Vec<String> = Vec::new();
            let ghost want = parts@.map_values(|p: ContentPart| part_text(p));
            let mut i: usize = 0;
            assert(text::texts(lines@) =~= want.take(0));
            while i < parts.len()
                invariant
                    i <= parts@.len(),
                    want == parts@.map_values(|p: ContentPart| part_text(p)),
                    text::texts(lines@) == want.take(i as int),
                decreases parts@.len() - i,
            {
                let ghost before = lines@;
                let line = format_part(&parts[i]);
                let ghost view = line@;
                lines.push(line);
                assert(text::texts(lines@) =~= text::texts(before).push(view));
                assert(want.take(i + 1) =~= want.take(i as int).push(want[i as int]));
                i += 1;
            }
            assert(want.take(i as int) =~= want);
            join(&lines, "\n")
        },
    }
}

// ---------------------------------------------------------------------------
// Neighbouring messages of one role
// ---------------------------------------------------------------------------

/// The content of two messages put together.
pub open spec fn merged_content(a: Option<ContentView>, b: Option<ContentView>) -> Option<
    ContentView,
> {
    match (a, b) {
        (_, None) => a,
        (None, Some(_)) => b,
        (Some(x), Some(y)) => Some(
            match (x, y) {
                (ContentView::Text(s), ContentView::Text(t)) => ContentView::Text(s + "\n"@ + t),
                (ContentView::Parts(p), ContentView::Parts(q)) => ContentView::Parts(p + q),
                _ => ContentView::Text(content_text(x) + "\n"@ + content_text(y)),
            },
        ),
    }
}

/// Two messages put together: content and tool calls of both, and of the other fields those
/// of the later one, where it has them.
pub open spec fn merged_pair(a: MessageView, b: MessageView) -> MessageView {
    MessageView {
        role: a.role,
        content: merged_content(a.content, b.content),
        name: if b.name is Some {
            b.name
        } else {
            a.name
        },
        tool_call_id: if b.tool_call_id is Some {
            b.tool_call_id
        } else {
            a.tool_call_id
        },
        tool_calls: match (a.tool_calls, b.tool_calls) {
            (Some(x), Some(y)) => Some(x + y),
            (None, Some(_)) => b.tool_calls,
            _ => a.tool_calls,
        },
        function_call: if b.function_call is Some {
            b.function_call
        } else {
            a.function_call
        },
        refusal: if b.refusal is Some {
            b.refusal
        } else {
            a.refusal
        },
        audio: if b.audio is Some {
            b.audio
        } else {
            a.audio
        },
    }
}

/// The messages, neighbours of one role put together. Tool results stay apart.
pub open spec fn merged(messages: Seq<MessageView>) -> Seq<MessageView>
    decreases messages.len(),
{
    if messages.len() == 0 {
        Seq::empty()
    } else {
        let before = merged(messages.drop_last());
        let m = messages.last();
        if before.len() > 0 && before.last().role == m.role && m.role != "tool"@ {
            before.drop_last().push(merged_pair(before.last(), m))
        } else {
            before.push(m)
        }
    }
}

/// Where two neighbouring messages are left with one role, the role is that of tool results.
pub proof fn law_merged_roles_alternate(messages: Seq<MessageView>)
    ensures
        forall|i: int|
            0 <= i < merged(messages).len() - 1 ==> (#[trigger] merged(messages)[i]).role != merged(
                messages,
            )[i + 1].role || merged(messages)[i].role == "tool"@,
        messages.len() > 0 ==> merged(messages).len() > 0 && merged(messages).last().role
            == messages.last().role,
    decreases messages.len(),
{
    if messages.len() > 0 {
        let before = merged(messages.drop_last());
        let all = merged(messages);
        law_merged_roles_alternate(messages.drop_last());
        assert forall|i: int| 0 <= i < all.len() - 1 implies (#[trigger] all[i]).role != all[i
            + 1].role || all[i].role == "tool"@ by {
            if i + 1 < before.len() {
                assert(before[i].role == all[i].role);
                assert(before[i + 1].role == all[i + 1].role);
            }
        }
    }
}

/// Adds the content of a later message.
fn merge_content(last: Option<MessageContent>, new: &Option<MessageContent>) -> (r: Option<
    MessageContent,
>)
    ensures
        (match r {
            Some(c) => Some(c@),
            None => None,
        }) == merged_content(
            match last {
                Some(c) => Some(c@),
                None => None,
            },
            match *new {
                Some(c) => Some(c@),
                None => None,
            },
        ),
{
    match (last, new) {
        (Some(MessageContent::Text(a)), Some(MessageContent::Text(b))) => {
            let mut a = a;
            a.append("\n");
            a.append(b.as_str());
            Some(MessageContent::Text(a))
        },
        (Some(MessageContent::Parts(a)), Some(MessageContent::Parts(b))) => {
            let mut a = a;
            extend_parts(&mut a, b);
            Some(MessageContent::Parts(a))
        },
        (Some(a), Some(b)) => {
            let new_text = format_content(b);
            let last_text = format_content(&a);
            Some(MessageContent::Text(cat3(last_text.as_str(), "\n", new_text.as_str())))
        },
        (Some(a), None) => Some(a),
        (None, _) => clone_content(new),
    }
}

/// Adds a later message to a message.
fn merge_into(last: Message, msg: &Message) -> (r: Message)
    ensures
        r@ == merged_pair(last@, msg@),
{
    let tool_calls = match (last.tool_calls, &msg.tool_calls) {
        (Some(a), Some(b)) => {
            let mut a = a;
            extend_calls(&mut a, b);
            Some(a)
        },
        (None, _) => clone_calls(&msg.tool_calls),
        (a, None) => a,
    };
    Message {
        role: last.role,
        content: merge_content(last.content, &msg.content),
        name: if msg.name.is_some() {
            clone_opt(&msg.name)
        } else {
            last.name
        },
        tool_call_id: if msg.tool_call_id.is_some() {
            clone_opt(&msg.tool_call_id)
        } else {
            last.tool_call_id
        },
        tool_calls,
        function_call: if msg.function_call.is_some() {
            clone_function_call(&msg.function_call)
        } else {
            last.function_call
        },
        refusal: if msg.refusal.is_some() {
            clone_opt(&msg.refusal)
        } else {
            last.refusal
        },
        audio: if msg.audio.is_some() {
            clone_audio(&msg.audio)
        } else {
            last.audio
        },
    }
}

/// Puts neighbouring messages of one role together.
pub fn merge_messages(messages: &Vec<Message>) -> (r: Vec<Message>)
    ensures
        types::message_views(r@) == merged(types::message_views(messages@)),
{
    let mut out: Vec<Message> = Vec::new();
    let ghost all = types::message_views(messages@);
    let mut i: usize = 0;
    assert(all.take(0) =~= Seq::<MessageView>::empty());
    assert(types::message_views(out@) =~= Seq::<MessageView>::empty());
    while i < messages.len()
        invariant
            i <= messages@.len(),
            all == types::message_views(messages@),
            types::message_views(out@) == merged(all.take(i as int)),
        decreases messages@.len() - i,
    {
        let ghost before = out@;
        let msg = &messages[i];
        assert(all.take(i + 1).drop_last() =~= all.take(i as int));
        assert(all.take(i + 1).last() == msg@);
        let n: usize = out.len();
        assert(n == types::message_views(before).len());
        let same = n > 0 && str_eq(out[n - 1].role.as_str(), msg.role.as_str()) && !str_eq(
            msg.role.as_str(),
            "tool",
        );
        if same {
            let last = out.pop().unwrap();
            let pair = merge_into(last, msg);
            let ghost view = pair@;
            out.push(pair);
            assert(types::message_views(out@) =~= types::message_views(before).drop_last().push(
                view,
            ));
        } else {
            let copy = msg.clone();
            let ghost view = copy@;
            out.push(copy);
            assert(types::message_views(out@) =~= types::message_views(before).push(view));
        }
        i += 1;
    }
    assert(all.take(i as int) =~= all);
    out
}

// ---------------------------------------------------------------------------
// Messages
// ---------------------------------------------------------------------------

/// A role with its first letter in upper case.
pub open spec fn capitalized(role: Seq<char>) -> Seq<char> {
    if role.len() > 0 && 'a' <= role[0] <= 'z' {
        role.update(0, (role[0] as u8 - 0x20) as char)
    } else {
        role
    }
}

/// The mark of a role.
pub open spec fn role_mark(role: Seq<char>) -> Seq<char> {
    "<｜"@ + capitalized(role) + "｜>"@
}

/// The mark of a role.
pub fn role_tag(role: &str) -> (r: String)
    ensures
        r@ == role_mark(role@),
{
    let chars = to_chars(role);
    let mut out = "<｜".to_owned();
    let n: usize = chars.len();
    if n > 0 && 'a' <= chars[0] && chars[0] <= 'z' {
        let upper: char = (chars[0] as u8 - 0x20) as char;
        out.push(upper);
        let tail = from_chars(&chars, 1, n);
        out.append(tail.as_str());
        assert(out@ =~= "<｜"@ + capitalized(role@));
    } else {
        out.append(role);
    }
    out.append("｜>");
    out
}

/// The arguments of a recorded call, as compact JSON.
pub open spec fn shown_arguments(arguments: Seq<char>) -> Seq<char> {
    match json::json_parse(arguments) {
        Some(t) => t,
        None => "null"@,
    }
}

/// A call in the form in which the model is to write it.
pub open spec fn call_text(name: Seq<char>, arguments: Seq<char>) -> Seq<char> {
    "<"@ + name + ">\n"@ + arguments + "\n</"@ + name + ">"@
}

/// A recorded call as the model is shown it.
pub open spec fn shown_call(f: FunctionCall) -> Seq<char> {
    call_text(f.name@, shown_arguments(f.arguments@))
}

/// The recorded function calls of a list, in order.
pub open spec fn shown_calls(calls: Seq<ToolCall>) -> Seq<Seq<char>>
    decreases calls.len(),
{
    if calls.len() == 0 {
        Seq::empty()
    } else {
        let before = shown_calls(calls.drop_last());
        match calls.last().function {
            Some(f) => before.push(shown_call(f)),
            None => before,
        }
    }
}

/// The content of a message as a line.
pub open spec fn content_line(m: MessageView) -> Seq<Seq<char>> {
    match m.content {
        Some(c) => seq![content_text(c)],
        None => Seq::empty(),
    }
}

/// The name in a message as a line.
pub open spec fn name_line(m: MessageView) -> Seq<Seq<char>> {
    match m.name {
        Some(n) => seq!["(name: "@ + n + ")"@],
        None => Seq::empty(),
    }
}

/// The body of a message of any role but the assistant's and that of tool results.
pub open spec fn generic_body(m: MessageView) -> Seq<char> {
    text::joined(name_line(m) + content_line(m), "\n"@)
}

/// The body of a message of the assistant.
pub open spec fn assistant_body(m: MessageView) -> Seq<char> {
    text::joined(
        content_line(m) + (match m.tool_calls {
            Some(calls) => shown_calls(calls),
            None => Seq::empty(),
        }) + (match m.function_call {
            Some(f) => seq![shown_call(f)],
            None => Seq::empty(),
        }) + (match m.refusal {
            Some(t) => seq!["(refusal: "@ + t + ")"@],
            None => Seq::empty(),
        }),
        "\n"@,
    )
}

/// The result of a tool in its marks.
pub open spec fn tool_output(content: Seq<char>) -> Seq<char> {
    "<｜tool▁output▁begin｜>"@ + content + "<｜tool▁output▁end｜>"@
}

/// The body of a single message with the result of a tool.
pub open spec fn tool_body(m: MessageView) -> Seq<char> {
    "<｜tool▁outputs▁begin｜>"@ + tool_output(
        match m.content {
            Some(c) => content_text(c),
            None => Seq::empty(),
        },
    ) + "<｜tool▁outputs▁end｜>"@
}

/// A message as text.
pub open spec fn message_text(m: MessageView) -> Seq<char> {
    if m.role == "assistant"@ {
        role_mark(m.role) + assistant_body(m)
    } else if m.role == "tool"@ {
        tool_body(m)
    } else if m.role == "user"@ {
        "<｜end▁of▁sentence｜>"@ + role_mark(m.role) + generic_body(m)
    } else {
        role_mark(m.role) + generic_body(m)
    }
}

/// Adds the name and the content of a message as lines.
fn push_name_and_content(msg: &Message, lines: &mut Vec<String>, with_name: bool)
    ensures
        text::texts(final(lines)@) == text::texts(old(lines)@) + (if with_name {
            name_line(msg@)
        } else {
            Seq::empty()
        }) + content_line(msg@),
{
    let ghost start = lines@;
    if with_name {
        if let Some(name) = &msg.name {
            lines.push(cat3("(name: ", name.as_str(), ")"));
        }
    }
    assert(text::texts(lines@) =~= text::texts(start) + (if with_name {
        name_line(msg@)
    } else {
        Seq::empty()
    }));
    let ghost middle = lines@;
    if let Some(content) = &msg.content {
        lines.push(format_content(content));
    }
    assert(text::texts(lines@) =~= text::texts(middle) + content_line(msg@));
}

/// The body of a message of any role but the assistant's and that of tool results.
pub fn format_generic(msg: &Message) -> (r: String)
    ensures
        r@ == generic_body(msg@),
{
    let mut lines: Vec<String> = Vec::new();
    assert(text::texts(lines@) =~= Seq::<Seq<char>>::empty());
    push_name_and_content(msg, &mut lines, true);
    assert(text::texts(lines@) =~= name_line(msg@) + content_line(msg@));
    join(&lines, "\n")
}

/// The body of a message of a function.
pub fn format_function(msg: &Message) -> (r: String)
    ensures
        r@ == generic_body(msg@),
{
    format_generic(msg)
}

/// A recorded call as the model is shown it.
fn format_call(f: &FunctionCall) -> (r: String)
    ensures
        r@ == shown_call(*f),
        json::is_read_again(f.arguments@),
{
    let args = match json_from_str(f.arguments.as_str()) {
        Ok(v) => v,
        Err(_) => json_null(),
    };
    let args_str = match json_to_string(&args) {
        Ok(s) => s,
        Err(_) => "null".to_owned(),
    };
    let mut out = cat3("<", f.name.as_str(), ">\n");
    out.append(args_str.as_str());
    out.append("\n</");
    out.append(f.name.as_str());
    out.append(">");
    out
}

/// The body of a message of the assistant. What it shows of the calls is what is read from
/// an answer: parsing the body gives the calls back.
pub fn format_assistant(msg: &Message) -> (r: String)
    ensures
        r@ == assistant_body(msg@),
        forall|names: Seq<Seq<u8>>|
            replay::can_be_read_back(msg@, names) ==> #[trigger] tool_parser::parsed(r@, names)
                == Some(replay::read_back(msg@)),
{
    let mut lines: Vec<String> = Vec::new();
    assert(text::texts(lines@) =~= Seq::<Seq<char>>::empty());
    push_name_and_content(msg, &mut lines, false);
    let ghost head = text::texts(lines@);
    assert(head =~= content_line(msg@));
    if let Some(calls) = &msg.tool_calls {
        let mut i: usize = 0;
        assert(calls@.take(0) =~= Seq::<ToolCall>::empty());
        assert(text::texts(lines@) =~= head + shown_calls(calls@.take(0)));
        while i < calls.len()
            invariant
                i <= calls@.len(),
                text::texts(lines@) == head + shown_calls(calls@.take(i as int)),
                replay::are_read_again(calls@.take(i as int)),
            decreases calls@.len() - i,
        {
            let ghost before = lines@;
            assert(calls@.take(i + 1).drop_last() =~= calls@.take(i as int));
            if let Some(f) = &calls[i].function {
                lines.push(format_call(f));
                assert(text::texts(lines@) =~= text::texts(before).push(shown_call(*f)));
                assert(text::texts(lines@) =~= head + shown_calls(calls@.take(i as int)).push(
                    shown_call(*f),
                ));
            }
            i += 1;
        }
        assert(calls@.take(i as int) =~= calls@);
    }
    let ghost with_calls = text::texts(lines@);
    assert(with_calls =~= head + (match msg@.tool_calls {
        Some(calls) => shown_calls(calls),
        None => Seq::empty(),
    }));
    if let Some(fc) = &msg.function_call {
        lines.push(format_call(fc));
    }
    let ghost with_function = text::texts(lines@);
    assert(with_function =~= with_calls + (match msg@.function_call {
        Some(f) => seq![shown_call(f)],
        None => Seq::empty(),
    }));
    if let Some(refusal) = &msg.refusal {
        lines.push(cat3("(refusal: ", refusal.as_str(), ")"));
    }
    assert(text::texts(lines@) =~= with_function + (match msg@.refusal {
        Some(t) => seq!["(refusal: "@ + t + ")"@],
        None => Seq::empty(),
    }));
    proof {
        assert forall|names: Seq<Seq<u8>>|
            replay::can_be_read_back(msg@, names) implies #[trigger] tool_parser::parsed(
            assistant_body(msg@),
            names,
        ) == Some(replay::read_back(msg@)) by {
            replay::law_replayed_calls_are_read_back(msg@, names);
        }
    }
    join(&lines, "\n")
}

/// The body of a single message with the result of a tool.
pub fn format_tool(msg: &Message) -> (r: String)
    ensures
        r@ == tool_body(msg@),
{
    let content = match &msg.content {
        Some(c) => format_content(c),
        None => {
            let empty = String::new();
            assert(empty@ =~= Seq::<char>::empty());
            empty
        },
    };
    let output = cat3("<｜tool▁output▁begin｜>", content.as_str(), "<｜tool▁output▁end｜>");
    cat3("<｜tool▁outputs▁begin｜>", output.as_str(), "<｜tool▁outputs▁end｜>")
}

/// A message as text.
pub fn format_message(msg: &Message) -> (r: String)
    ensures
        r@ == message_text(msg@),
{
    let role = msg.role.as_str();
    if str_eq(role, "assistant") {
        cat2(role_tag(role).as_str(), format_assistant(msg).as_str())
    } else if str_eq(role, "tool") {
        format_tool(msg)
    } else if str_eq(role, "user") {
        cat3("<｜end▁of▁sentence｜>", role_tag(role).as_str(), format_generic(msg).as_str())
    } else if str_eq(role, "function") {
        cat2(role_tag(role).as_str(), format_function(msg).as_str())
    } else {
        cat2(role_tag(role).as_str(), format_generic(msg).as_str())
    }
}

// ---------------------------------------------------------------------------
// The output format
// ---------------------------------------------------------------------------

/// What a request says to the model of the output format.
pub open spec fn response_text(rf: ResponseFormat) -> Seq<char> {
    if rf.ty@ == "json_object"@ {
        "请直接输出合法的 JSON 对象，不要包含任何 markdown 代码块标记或其他解释性文字。"@
    } else if rf.ty@ == "json_schema"@ {
        match rf.json_schema {
            Some(schema) => if json::json_text(schema).len() == 0 {
                "以 JSON 的形式输出。"@
            } else {
                "以 JSON 的形式输出，输出的 JSON 需遵守以下的格式：\n\n~~~json\n"@
                    + json::json_text(schema) + "\n~~~"@
            },
            None => "以 JSON 的形式输出。"@,
        }
    } else if rf.ty@ == "text"@ {
        Seq::empty()
    } else {
        "请以 "@ + rf.ty@ + " 格式输出。"@
    }
}

/// What a request says to the model of the output format.
pub fn format_response_text(rf: &ResponseFormat) -> (r: String)
    ensures
        r@ == response_text(*rf),
{
    let ty = rf.ty.as_str();
    if str_eq(ty, "json_object") {
        "请直接输出合法的 JSON 对象，不要包含任何 markdown 代码块标记或其他解释性文字。".to_owned()
    } else if str_eq(ty, "json_schema") {
        match &rf.json_schema {
            Some(schema) => {
                let schema_text = match json_to_string(schema) {
                    Ok(s) => s,
                    Err(_) => String::new(),
                };
                if schema_text.as_str().is_empty() {
                    "以 JSON 的形式输出。".to_owned()
                } else {
                    cat3(
                        "以 JSON 的形式输出，输出的 JSON 需遵守以下的格式：\n\n~~~json\n",
                        schema_text.as_str(),
                        "\n~~~",
                    )
                }
            },
            None => "以 JSON 的形式输出。".to_owned(),
        }
    } else if str_eq(ty, "text") {
        let r = String::new();
        assert(r@ =~= Seq::<char>::empty());
        r
    } else {
        cat3("请以 ", ty, " 格式输出。")
    }
}

// ---------------------------------------------------------------------------
// The prompt
// ---------------------------------------------------------------------------

/// The tool results of a list of messages, in order.
pub open spec fn outputs_of(group: Seq<MessageView>) -> Seq<char>
    decreases group.len(),
{
    if group.len() == 0 {
        Seq::empty()
    } else {
        let before = outputs_of(group.drop_last());
        match group.last().content {
            Some(c) => before + tool_output(content_text(c)),
            None => before,
        }
    }
}

/// Where the run of tool results that goes on at `i` ends.
pub open spec fn tool_run_end(messages: Seq<MessageView>, i: int) -> int
    decreases messages.len() - i,
{
    if 0 <= i < messages.len() && messages[i].role == "tool"@ {
        tool_run_end(messages, i + 1)
    } else {
        i
    }
}

/// A run of tool results goes on to its end.
pub proof fn lemma_tool_run_end(messages: Seq<MessageView>, i: int)
    requires
        0 <= i <= messages.len(),
    ensures
        i <= tool_run_end(messages, i) <= messages.len(),
        i < messages.len() && messages[i].role == "tool"@ ==> i < tool_run_end(messages, i),
    decreases messages.len() - i,
{
    if i < messages.len() && messages[i].role == "tool"@ {
        lemma_tool_run_end(messages, i + 1);
    }
}

/// The messages from `i` on as texts. A run of tool results makes one text.
pub open spec fn parts_from(messages: Seq<MessageView>, i: int) -> Seq<Seq<char>>
    decreases messages.len() - i,
{
    if i < 0 || i >= messages.len() {
        Seq::empty()
    } else if messages[i].role == "tool"@ {
        let j = tool_run_end(messages, i);
        proof {
            lemma_tool_run_end(messages, i);
        }
        seq![
            "<｜tool▁outputs▁begin｜>"@ + outputs_of(messages.subrange(i, j))
                + "<｜tool▁outputs▁end｜>"@,
        ] + parts_from(messages, j)
    } else {
        seq![message_text(messages[i])] + parts_from(messages, i + 1)
    }
}

/// What a request says of its output format.
pub open spec fn format_text_of(req: ChatCompletionsRequest) -> Seq<char> {
    match req.response_format {
        Some(rf) => response_text(rf),
        None => Seq::empty(),
    }
}

/// What stands at the end of the system message: the tools, the instructions on which tools
/// to call and the output format, as far as there is anything to say.
pub open spec fn sections(
    ctx: ContextView,
    format_text: Seq<char>,
    wording: Seq<char>,
) -> Seq<Seq<char>> {
    (match ctx.defs {
        Some(t) => seq!["## Tools\n\n"@ + t + "\n\n"@ + wording],
        None => Seq::empty(),
    }) + (match ctx.instruction {
        Some(t) => seq!["## 调用指令\n"@ + t],
        None => Seq::empty(),
    }) + (if format_text.len() == 0 {
        Seq::empty()
    } else {
        seq!["## 输出格式\n"@ + format_text]
    })
}

/// The first text of a list that starts with a mark.
pub open spec fn first_marked(parts: Seq<Seq<char>>, mark: Seq<char>, i: int) -> Option<int>
    decreases parts.len() - i,
{
    if i < 0 || i >= parts.len() {
        None
    } else if mark.is_prefix_of(parts[i]) {
        Some(i)
    } else {
        first_marked(parts, mark, i + 1)
    }
}

/// A text with an addition at its end, before a final line break.
pub open spec fn with_tail(part: Seq<char>, addition: Seq<char>) -> Seq<char> {
    if part.len() > 0 && part.last() == '\n' {
        part.drop_last() + addition + "\n"@
    } else {
        part + addition
    }
}

/// The texts with an addition at the end of the system message, which is put first where
/// there was none.
pub open spec fn with_system_tail(parts: Seq<Seq<char>>, addition: Seq<char>) -> Seq<Seq<char>> {
    match first_marked(parts, "<｜System｜>"@, 0) {
        Some(k) => parts.update(k, with_tail(parts[k], addition)),
        None => seq!["<｜System｜>"@ + text::trimmed_start(addition) + "\n"@] + parts,
    }
}

/// The texts with the sections.
pub open spec fn with_sections(
    parts: Seq<Seq<char>>,
    sections: Seq<Seq<char>>,
) -> Seq<Seq<char>> {
    if sections.len() == 0 {
        parts
    } else {
        with_system_tail(parts, "\n\n"@ + text::joined(sections, "\n\n"@))
    }
}

/// The texts with a mark of the assistant, which is put last where there was none.
pub open spec fn with_assistant(parts: Seq<Seq<char>>) -> Seq<Seq<char>> {
    if first_marked(parts, "<｜Assistant｜>"@, 0) is Some {
        parts
    } else {
        parts.push("<｜Assistant｜>\n"@)
    }
}

/// The texts that make the prompt of a request.
pub open spec fn prompt_parts(
    req: ChatCompletionsRequest,
    ctx: ContextView,
    wording: Seq<char>,
) -> Seq<Seq<char>> {
    with_assistant(
        with_sections(
            parts_from(merged(types::message_views(req.messages@)), 0),
            sections(ctx, format_text_of(req), wording),
        ),
    )
}

/// The first marked text has the mark.
pub proof fn lemma_first_marked(parts: Seq<Seq<char>>, mark: Seq<char>, i: int)
    requires
        0 <= i,
    ensures
        match first_marked(parts, mark, i) {
            Some(k) => i <= k < parts.len() && mark.is_prefix_of(parts[k]),
            None => forall|j: int| i <= j < parts.len() ==> !mark.is_prefix_of(
                #[trigger] parts[j],
            ),
        },
    decreases parts.len() - i,
{
    if i < parts.len() && !mark.is_prefix_of(parts[i]) {
        lemma_first_marked(parts, mark, i + 1);
    }
}

/// Every prompt holds a text of the assistant, where a history can be split off.
pub proof fn law_prompt_holds_an_assistant_mark(
    req: ChatCompletionsRequest,
    ctx: ContextView,
    wording: Seq<char>,
)
    ensures
        exists|k: int|
            0 <= k < prompt_parts(req, ctx, wording).len() && "<｜Assistant｜>"@.is_prefix_of(
                #[trigger] prompt_parts(req, ctx, wording)[k],
            ),
{
    let parts = with_sections(
        parts_from(merged(types::message_views(req.messages@)), 0),
        sections(ctx, format_text_of(req), wording),
    );
    let all = prompt_parts(req, ctx, wording);
    lemma_first_marked(parts, "<｜Assistant｜>"@, 0);
    match first_marked(parts, "<｜Assistant｜>"@, 0) {
        Some(k) => {
            assert("<｜Assistant｜>"@.is_prefix_of(all[k]));
        },
        None => {
            reveal_strlit("<｜Assistant｜>");
            reveal_strlit("<｜Assistant｜>\n");
            let k = all.len() - 1;
            assert(all[k] == "<｜Assistant｜>\n"@);
            assert("<｜Assistant｜>"@.is_prefix_of(all[k])) by {
                assert("<｜Assistant｜>\n"@.subrange(0, 13) =~= "<｜Assistant｜>"@);
            }
        },
    }
}

/// What is said of tools and of the output format stands in a system message, as its last
/// lines.
pub proof fn law_sections_end_the_system_message(
    parts: Seq<Seq<char>>,
    sections: Seq<Seq<char>>,
)
    requires
        sections.len() > 0,
    ensures
        ({
            let added = text::trimmed_start("\n\n"@ + text::joined(sections, "\n\n"@));
            exists|k: int|
                {
                    &&& 0 <= k < with_sections(parts, sections).len()
                    &&& "<｜System｜>"@.is_prefix_of(#[trigger] with_sections(parts, sections)[k])
                    &&& {
                        ||| added.is_suffix_of(with_sections(parts, sections)[k])
                        ||| (added + "\n"@).is_suffix_of(with_sections(parts, sections)[k])
                    }
                }
        }),
{
    let mark = "<｜System｜>"@;
    let addition = "\n\n"@ + text::joined(sections, "\n\n"@);
    let added = text::trimmed_start(addition);
    let all = with_sections(parts, sections);
    lemma_trimmed_start_is_suffix(addition);
    lemma_first_marked(parts, mark, 0);
    reveal_strlit("<｜System｜>");
    reveal_strlit("\n");
    match first_marked(parts, mark, 0) {
        Some(k) => {
            let part = parts[k];
            assert(all[k] == with_tail(part, addition));
            assert(mark.last() == '>');
            if part.len() > 0 && part.last() == '\n' {
                assert(part.len() > mark.len()) by {
                    if part.len() == mark.len() {
                        assert(part.subrange(0, mark.len() as int) =~= part);
                    }
                }
                assert(part.drop_last().subrange(0, mark.len() as int) =~= part.subrange(
                    0,
                    mark.len() as int,
                ));
                assert(all[k].subrange(0, mark.len() as int) =~= mark);
                assert((added + "\n"@).is_suffix_of(all[k])) by {
                    let n = all[k].len() as int;
                    assert(all[k].subrange(n - (added.len() + 1), n) =~= added + "\n"@);
                }
            } else {
                assert(all[k].subrange(0, mark.len() as int) =~= mark) by {
                    assert(part.subrange(0, mark.len() as int) =~= mark);
                }
                assert(added.is_suffix_of(all[k])) by {
                    let n = all[k].len() as int;
                    assert(all[k].subrange(n - added.len(), n) =~= added);
                }
            }
            assert(mark.is_prefix_of(all[k]));
        },
        None => {
            assert(all[0] == mark + added + "\n"@);
            assert(all[0].subrange(0, mark.len() as int) =~= mark);
            assert(mark.is_prefix_of(all[0]));
            assert((added + "\n"@).is_suffix_of(all[0])) by {
                let n = all[0].len() as int;
                assert(all[0].subrange(n - (added.len() + 1), n) =~= added + "\n"@);
            }
        },
    }
}

/// What is left without leading white space is the end of a text.
pub proof fn lemma_trimmed_start_is_suffix(s: Seq<char>)
    ensures
        text::trimmed_start(s).len() <= s.len(),
        text::trimmed_start(s) == s.subrange(s.len() - text::trimmed_start(s).len(), s.len() as int),
    decreases s.len(),
{
    if s.len() > 0 && text::is_white_space(s[0]) {
        let rest = s.drop_first();
        lemma_trimmed_start_is_suffix(rest);
        let t = text::trimmed_start(rest);
        assert(rest.subrange(rest.len() - t.len(), rest.len() as int) =~= s.subrange(
            s.len() - t.len(),
            s.len() as int,
        ));
    } else {
        assert(s.subrange(0, s.len() as int) =~= s);
    }
}

/// The messages as texts.
fn build_parts(messages: &Vec<Message>) -> (r: Vec<String>)
    ensures
        text::texts(r@) == parts_from(types::message_views(messages@), 0),
{
    let ghost all = types::message_views(messages@);
    let mut parts: Vec<String> = Vec::new();
    let mut i: usize = 0;
    assert(text::texts(parts@) + parts_from(all, 0) =~= parts_from(all, 0));
    while i < messages.len()
        invariant
            i <= messages@.len(),
            all == types::message_views(messages@),
            text::texts(parts@) + parts_from(all, i as int) == parts_from(all, 0),
        decreases messages@.len() - i,
    {
        let ghost before = parts@;
        let ghost start = i as int;
        assert(all[start] == messages@[start]@);
        if str_eq(messages[i].role.as_str(), "tool") {
            let mut inner = String::new();
            assert(all.subrange(start, start) =~= Seq::<MessageView>::empty());
            assert(inner@ =~= Seq::<char>::empty());
            while i < messages.len() && str_eq(messages[i].role.as_str(), "tool")
                invariant
                    start <= i <= messages@.len(),
                    0 <= start,
                    all == types::message_views(messages@),
                    inner@ == outputs_of(all.subrange(start, i as int)),
                    tool_run_end(all, start) == tool_run_end(all, i as int),
                decreases messages@.len() - i,
            {
                assert(all[i as int] == messages@[i as int]@);
                assert(all.subrange(start, i + 1).drop_last() =~= all.subrange(start, i as int));
                assert(all.subrange(start, i + 1).last() == messages@[i as int]@);
                if let Some(c) = &messages[i].content {
                    let output = cat3(
                        "<｜tool▁output▁begin｜>",
                        format_content(c).as_str(),
                        "<｜tool▁output▁end｜>",
                    );
                    inner.append(output.as_str());
                }
                i += 1;
            }
            proof {
                if i < messages@.len() {
                    assert(all[i as int] == messages@[i as int]@);
                }
                lemma_tool_run_end(all, start);
            }
            parts.push(
                cat3("<｜tool▁outputs▁begin｜>", inner.as_str(), "<｜tool▁outputs▁end｜>"),
            );
        } else {
            parts.push(format_message(&messages[i]));
            i += 1;
        }
        proof {
            let one = parts@.last()@;
            assert(text::texts(parts@) =~= text::texts(before).push(one));
            assert(parts_from(all, start) =~= seq![one] + parts_from(all, i as int));
            assert(text::texts(before) + (seq![one] + parts_from(all, i as int)) =~= text::texts(
                parts@,
            ) + parts_from(all, i as int));
        }
    }
    assert(text::texts(parts@) + parts_from(all, i as int) =~= text::texts(parts@));
    parts
}

/// The sections of a request.
fn build_sections(tool_ctx: &ToolContext, format_text: &str, wording: &str) -> (r: Vec<String>)
    ensures
        text::texts(r@) == sections(tool_ctx@, format_text@, wording@),
{
    let mut out: Vec<String> = Vec::new();
    assert(text::texts(out@) =~= Seq::<Seq<char>>::empty());
    if let Some(t) = &tool_ctx.defs_text {
        let mut section = cat3("## Tools\n\n", t.as_str(), "\n\n");
        section.append(wording);
        out.push(section);
    }
    let ghost one = text::texts(out@);
    assert(one =~= (match tool_ctx@.defs {
        Some(t) => seq!["## Tools\n\n"@ + t + "\n\n"@ + wording@],
        None => Seq::empty(),
    }));
    if let Some(t) = &tool_ctx.instruction_text {
        out.push(cat2("## 调用指令\n", t.as_str()));
    }
    let ghost two = text::texts(out@);
    assert(two =~= one + (match tool_ctx@.instruction {
        Some(t) => seq!["## 调用指令\n"@ + t],
        None => Seq::empty(),
    }));
    if !format_text.is_empty() {
        out.push(cat2("## 输出格式\n", format_text));
    }
    assert(text::texts(out@) =~= two + (if format_text@.len() == 0 {
        Seq::empty()
    } else {
        seq!["## 输出格式\n"@ + format_text@]
    }));
    out
}

/// The first text of a list that starts with a mark.
fn find_marked(parts: &Vec<String>, mark: &str) -> (r: Option<usize>)
    ensures
        match r {
            Some(k) => first_marked(text::texts(parts@), mark@, 0) == Some(k as int) && k
                < parts@.len(),
            None => first_marked(text::texts(parts@), mark@, 0) is None,
        },
{
    let ghost all = text::texts(parts@);
    let mut i: usize = 0;
    while i < parts.len()
        invariant
            i <= parts@.len(),
            all == text::texts(parts@),
            first_marked(all, mark@, 0) == first_marked(all, mark@, i as int),
        decreases parts@.len() - i,
    {
        assert(all[i as int] == parts@[i as int]@);
        if starts_with(parts[i].as_str(), mark) {
            return Some(i);
        }
        i += 1;
    }
    None
}

/// A text with an addition at its end, before a final line break.
fn append_tail(part: &str, addition: &str) -> (r: String)
    ensures
        r@ == with_tail(part@, addition@),
{
    let chars = to_chars(part);
    let n: usize = chars.len();
    if n > 0 && chars[n - 1] == '\n' {
        let head = from_chars(&chars, 0, n - 1);
        assert(head@ =~= part@.drop_last());
        cat3(head.as_str(), addition, "\n")
    } else {
        cat2(part, addition)
    }
}

/// The prompt of a request, with a given wording of the instruction on tool calls.
pub fn build_with(req: &ChatCompletionsRequest, tool_ctx: &ToolContext, wording: &str) -> (r:
    String)
    ensures
        r@ == text::joined(prompt_parts(*req, tool_ctx@, wording@), ""@),
{
    let messages = merge_messages(&req.messages);
    let mut parts = build_parts(&messages);
    let format_text = match &req.response_format {
        Some(rf) => format_response_text(rf),
        None => {
            let empty = String::new();
            assert(empty@ =~= Seq::<char>::empty());
            empty
        },
    };
    let added = build_sections(tool_ctx, format_text.as_str(), wording);
    let ghost plain = text::texts(parts@);
    assert(added@.len() == text::texts(added@).len());
    if added.len() > 0 {
        let injection = cat2("\n\n", join(&added, "\n\n").as_str());
        match find_marked(&parts, "<｜System｜>") {
            Some(k) => {
                let whole = append_tail(parts[k].as_str(), injection.as_str());
                let ghost view = whole@;
                parts.set(k, whole);
                assert(text::texts(parts@) =~= plain.update(k as int, view));
            },
            None => {
                let system = cat3("<｜System｜>", injection.as_str().trim_start(), "\n");
                let ghost view = system@;
                parts.insert(0, system);
                assert(text::texts(parts@) =~= seq![view] + plain);
            },
        }
    }
    let ghost full = text::texts(parts@);
    if find_marked(&parts, "<｜Assistant｜>").is_none() {
        parts.push("<｜Assistant｜>\n".to_owned());
        assert(text::texts(parts@) =~= full.push("<｜Assistant｜>\n"@));
    }
    join(&parts, "")
}

/// The prompt of a request.
pub fn build(req: &ChatCompletionsRequest, tool_ctx: &ToolContext) -> (r: String)
    ensures
        exists|t: SystemTime|
            r@ == text::joined(prompt_parts(*req, tool_ctx@, #[trigger] wording_at(t)), ""@),
{
    let wording = tool_instruction_text();
    build_with(req, tool_ctx, wording)
}

} // verus!
