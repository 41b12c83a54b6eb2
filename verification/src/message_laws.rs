//! What holds of messages as text, and of a prompt that is made of them.

use vstd::prelude::*;

use crate::json;
use crate::prompt;
use crate::text;
use crate::tools::ContextView;
use crate::types;
use crate::types::{
    ChatCompletionsRequest, ContentPart, ContentView, FunctionCall, Message, MessageContent,
    MessageView, ResponseFormat, ToolCall,
};

verus! {

// ---------------------------------------------------------------------------
// Content
// ---------------------------------------------------------------------------

/// A message is looked at with all that it holds.
pub proof fn law_messages_are_seen_whole(m: Message)
    ensures
        m@.role == m.role@,
        m@.content is Some == m.content is Some,
        m.content is Some ==> match m.content->0 {
            MessageContent::Text(t) => m@.content == Some(ContentView::Text(t@)),
            MessageContent::Parts(p) => m@.content == Some(ContentView::Parts(p@)),
        },
        m@.name is Some == m.name is Some,
        m.name is Some ==> m@.name->0 == m.name->0@,
        m@.tool_calls is Some == m.tool_calls is Some,
        m.tool_calls is Some ==> m@.tool_calls->0 == m.tool_calls->0@,
        m@.function_call == m.function_call,
        m@.refusal is Some == m.refusal is Some,
        m.refusal is Some ==> m@.refusal->0 == m.refusal->0@,
{
}

/// Content that is a text is that text.
pub proof fn law_text_is_content(t: Seq<char>)
    ensures
        prompt::content_text(ContentView::Text(t)) == t,
{
}

/// Parts follow one another: one more part adds a line break and the text of the part, and a
/// part alone is its text. So every part is there, in order.
pub proof fn law_parts_follow_one_another(parts: Seq<ContentPart>, x: ContentPart)
    ensures
        prompt::content_text(ContentView::Parts(seq![x])) == prompt::part_text(x),
        parts.len() > 0 ==> prompt::content_text(ContentView::Parts(parts.push(x)))
            == prompt::content_text(ContentView::Parts(parts)) + "\n"@ + prompt::part_text(x),
        prompt::content_text(ContentView::Parts(Seq::empty())).len() == 0,
{
    let f = |p: ContentPart| prompt::part_text(p);
    let lines = parts.map_values(f);
    assert(parts.push(x).map_values(f) =~= lines.push(prompt::part_text(x)));
    text::lemma_joined_push(lines, "\n"@, prompt::part_text(x));
    assert(seq![x].map_values(f) =~= seq![prompt::part_text(x)]);
}

/// The text of every part stands in the content.
pub proof fn law_every_part_is_mentioned(parts: Seq<ContentPart>, i: int)
    requires
        0 <= i < parts.len(),
    ensures
        prompt::mentions(
            prompt::content_text(ContentView::Parts(parts)),
            prompt::part_text(parts[i]),
        ),
    decreases parts.len(),
{
    let less = parts.drop_last();
    let x = parts.last();
    let t = prompt::part_text(parts[i]);
    law_parts_follow_one_another(less, x);
    assert(less.push(x) =~= parts);
    let whole = prompt::content_text(ContentView::Parts(parts));
    if i == less.len() {
        if less.len() == 0 {
            assert(parts =~= seq![x]);
        }
        let at = whole.len() - t.len();
        assert(whole.subrange(at, at + t.len()) =~= t);
    } else {
        assert(less[i] == parts[i]);
        law_every_part_is_mentioned(less, i);
        let before = prompt::content_text(ContentView::Parts(less));
        let at = choose|at: int|
            0 <= at && at + t.len() <= before.len() && #[trigger] before.subrange(at, at + t.len())
                == t;
        assert(whole.subrange(at, at + t.len()) =~= before.subrange(at, at + t.len()));
    }
}

/// A part of a text or of a refusal is that text.
pub proof fn law_text_parts_are_kept(p: ContentPart)
    ensures
        p.ty@ == "text"@ && p.text is Some ==> prompt::part_text(p) == p.text->0@,
        p.ty@ == "text"@ && p.text is None ==> prompt::part_text(p).len() == 0,
        p.ty@ == "refusal"@ && p.refusal is Some ==> prompt::part_text(p) == p.refusal->0@,
        p.ty@ == "refusal"@ && p.refusal is None ==> prompt::part_text(p).len() == 0,
{
    lemma_part_types();
}

/// The types of parts are different.
proof fn lemma_part_types()
    ensures
        "text"@ != "refusal"@,
        "text"@ != "image_url"@,
        "text"@ != "input_audio"@,
        "text"@ != "file"@,
        "refusal"@ != "image_url"@,
        "refusal"@ != "input_audio"@,
        "refusal"@ != "file"@,
        "image_url"@ != "input_audio"@,
        "image_url"@ != "file"@,
        "input_audio"@ != "file"@,
{
    reveal_strlit("text");
    reveal_strlit("refusal");
    reveal_strlit("image_url");
    reveal_strlit("input_audio");
    reveal_strlit("file");
    assert("text"@[0] == 't');
    assert("refusal"@[0] == 'r');
    assert("image_url"@[1] == 'm');
    assert("image_url"@[0] == 'i');
    assert("input_audio"@[1] == 'n');
    assert("input_audio"@[0] == 'i');
    assert("file"@[0] == 'f');
}

/// A picture on the web is shown as its address; of another one its detail is shown, and
/// nothing of what stands in its address.
pub proof fn law_pictures_are_shown(p: ContentPart)
    requires
        p.ty@ == "image_url"@,
    ensures
        match p.image_url {
            Some(img) => {
                let on_the_web = "http://"@.is_prefix_of(img.url@) || "https://"@.is_prefix_of(
                    img.url@,
                );
                &&& on_the_web ==> prompt::part_text(p) == "[请访问这个链接: "@ + img.url@ + "]"@
                &&& !on_the_web && img.detail is Some ==> prompt::part_text(p) == "[图片: detail="@
                    + img.detail->0@ + "]"@
                &&& !on_the_web && img.detail is None ==> prompt::part_text(p) == "[图片: detail="@
                    + "auto"@ + "]"@
            },
            None => prompt::part_text(p) == "[图片]"@,
        },
{
    lemma_part_types();
}

/// A recording is shown as its format, a file as its name and what is said of it, and a part
/// of another type as its type.
pub proof fn law_other_parts_are_shown(p: ContentPart)
    ensures
        p.ty@ == "input_audio"@ && p.input_audio is Some ==> prompt::part_text(p)
            == "[音频: format="@ + p.input_audio->0.format@ + "]"@,
        p.ty@ == "input_audio"@ && p.input_audio is None ==> prompt::part_text(p)
            == "[音频: format="@ + "unknown"@ + "]"@,
        p.ty@ == "file"@ ==> {
            let name = if p.file is Some && p.file->0.filename is Some {
                p.file->0.filename->0@
            } else {
                "unknown"@
            };
            prompt::part_text(p) == if p.text is Some && p.text->0@.len() > 0 {
                "[文件: "@ + p.text->0@ + " (filename="@ + name + ")]"@
            } else {
                "[文件: filename="@ + name + "]"@
            }
        },
        p.ty@ != "text"@ && p.ty@ != "refusal"@ && p.ty@ != "image_url"@ && p.ty@ != "input_audio"@
            && p.ty@ != "file"@ ==> prompt::part_text(p) == "[未支持的内容类型: "@ + p.ty@ + "]"@,
{
    lemma_part_types();
}

// ---------------------------------------------------------------------------
// Neighbours of one role
// ---------------------------------------------------------------------------

/// One more message joins the last one where it has the role of that one and is no tool
/// result, and else follows it unchanged. All messages before it stay as they are.
pub proof fn law_one_more_message(messages: Seq<MessageView>, m: MessageView)
    ensures
        prompt::merged(Seq::empty()).len() == 0,
        ({
            let before = prompt::merged(messages);
            let after = prompt::merged(messages.push(m));
            if before.len() > 0 && before.last().role == m.role && m.role != "tool"@ {
                &&& after.len() == before.len()
                &&& after.drop_last() == before.drop_last()
                &&& after.last() == prompt::merged_pair(before.last(), m)
            } else {
                after == before.push(m)
            }
        }),
{
    assert(messages.push(m).drop_last() =~= messages);
    let before = prompt::merged(messages);
    let after = prompt::merged(messages.push(m));
    if before.len() > 0 && before.last().role == m.role && m.role != "tool"@ {
        assert(after.drop_last() =~= before.drop_last());
    }
}

/// Parts put behind parts are the text of both, with a line break between them.
proof fn lemma_parts_join(p: Seq<ContentPart>, q: Seq<ContentPart>)
    requires
        p.len() > 0,
        q.len() > 0,
    ensures
        prompt::content_text(ContentView::Parts(p + q)) == prompt::content_text(
            ContentView::Parts(p),
        ) + "\n"@ + prompt::content_text(ContentView::Parts(q)),
    decreases q.len(),
{
    let less = q.drop_last();
    let x = q.last();
    assert(less.push(x) =~= q);
    law_parts_follow_one_another(less, x);
    assert((p + less).push(x) =~= p + q);
    law_parts_follow_one_another(p + less, x);
    if less.len() > 0 {
        lemma_parts_join(p, less);
        let a = prompt::content_text(ContentView::Parts(p));
        let b = prompt::content_text(ContentView::Parts(less));
        assert((a + "\n"@ + b) + "\n"@ + prompt::part_text(x) =~= a + "\n"@ + (b + "\n"@
            + prompt::part_text(x)));
    } else {
        assert(p + less =~= p);
        assert(q =~= seq![x]);
    }
}

/// Whether content has anything to show.
pub open spec fn has_parts(c: ContentView) -> bool {
    match c {
        ContentView::Text(_) => true,
        ContentView::Parts(p) => p.len() > 0,
    }
}

/// Two messages that are put together keep what both say: the text of the one, a line break
/// and the text of the other, whatever it is made of; and the tool calls of both, in order.
pub proof fn law_joined_messages_keep_all(a: MessageView, b: MessageView)
    ensures
        ({
            let m = prompt::merged_pair(a, b);
            &&& m.role == a.role
            &&& a.content is None ==> m.content == b.content
            &&& b.content is None ==> m.content == a.content
            &&& a.content is Some && b.content is Some && has_parts(a.content->0) && has_parts(
                b.content->0,
            ) ==> m.content is Some && prompt::content_text(m.content->0) == prompt::content_text(
                a.content->0,
            ) + "\n"@ + prompt::content_text(b.content->0)
            &&& a.tool_calls is None ==> m.tool_calls == b.tool_calls
            &&& b.tool_calls is None ==> m.tool_calls == a.tool_calls
            &&& a.tool_calls is Some && b.tool_calls is Some ==> m.tool_calls == Some(
                a.tool_calls->0 + b.tool_calls->0,
            )
        }),
{
    if let (Some(ContentView::Parts(p)), Some(ContentView::Parts(q))) = (a.content, b.content) {
        if p.len() > 0 && q.len() > 0 {
            lemma_parts_join(p, q);
        }
    }
}

/// Of what a message has once, the later of two messages counts where it has it.
pub proof fn law_later_message_counts(a: MessageView, b: MessageView)
    ensures
        ({
            let m = prompt::merged_pair(a, b);
            &&& b.name is Some ==> m.name == b.name
            &&& b.name is None ==> m.name == a.name
            &&& b.tool_call_id is Some ==> m.tool_call_id == b.tool_call_id
            &&& b.tool_call_id is None ==> m.tool_call_id == a.tool_call_id
            &&& b.function_call is Some ==> m.function_call == b.function_call
            &&& b.function_call is None ==> m.function_call == a.function_call
            &&& b.refusal is Some ==> m.refusal == b.refusal
            &&& b.refusal is None ==> m.refusal == a.refusal
            &&& b.audio is Some ==> m.audio == b.audio
            &&& b.audio is None ==> m.audio == a.audio
        }),
{
}

// ---------------------------------------------------------------------------
// Messages
// ---------------------------------------------------------------------------

/// The mark of a role is the role with a capital letter.
pub proof fn law_roles_are_marked(role: Seq<char>)
    ensures
        role == "user"@ ==> prompt::role_mark(role) == "<｜User｜>"@,
        role == "assistant"@ ==> prompt::role_mark(role) == "<｜Assistant｜>"@,
        role == "system"@ ==> prompt::role_mark(role) == "<｜System｜>"@,
        role == "developer"@ ==> prompt::role_mark(role) == "<｜Developer｜>"@,
        role == "function"@ ==> prompt::role_mark(role) == "<｜Function｜>"@,
        role.len() == 0 || role[0] < 'a' || role[0] > 'z' ==> prompt::role_mark(role) == "<｜"@
            + role + "｜>"@,
        role.len() > 0 && 'a' <= role[0] <= 'z' ==> prompt::role_mark(role).len() == role.len() + 4
            && prompt::role_mark(role).subrange(3, 2 + role.len() as int) == role.subrange(
            1,
            role.len() as int,
        ) && prompt::role_mark(role)[2] as int == role[0] as int - 32,
{
    reveal_strlit("<｜");
    reveal_strlit("｜>");
    reveal_strlit("user");
    reveal_strlit("assistant");
    reveal_strlit("system");
    reveal_strlit("developer");
    reveal_strlit("function");
    reveal_strlit("<｜User｜>");
    reveal_strlit("<｜Assistant｜>");
    reveal_strlit("<｜System｜>");
    reveal_strlit("<｜Developer｜>");
    reveal_strlit("<｜Function｜>");
    let m = prompt::role_mark(role);
    if role == "user"@ {
        assert(m =~= "<｜User｜>"@);
    } else if role == "assistant"@ {
        assert(m =~= "<｜Assistant｜>"@);
    } else if role == "system"@ {
        assert(m =~= "<｜System｜>"@);
    } else if role == "developer"@ {
        assert(m =~= "<｜Developer｜>"@);
    } else if role == "function"@ {
        assert(m =~= "<｜Function｜>"@);
    }
    if role.len() > 0 && 'a' <= role[0] <= 'z' {
        assert(m.subrange(3, 2 + role.len() as int) =~= role.subrange(1, role.len() as int));
        assert(m[2] == prompt::capitalized(role)[0]);
    }
}

/// A message of any role but the assistant's and that of tool results is its mark, its name
/// where it has one, and its content. Before a message of the user the last one is ended.
pub proof fn law_messages_are_shown(m: MessageView)
    requires
        m.role != "assistant"@,
        m.role != "tool"@,
    ensures
        ({
            let mark = if m.role == "user"@ {
                "<｜end▁of▁sentence｜>"@ + prompt::role_mark(m.role)
            } else {
                prompt::role_mark(m.role)
            };
            let body = match (m.name, m.content) {
                (Some(n), Some(c)) => "(name: "@ + n + ")"@ + "\n"@ + prompt::content_text(c),
                (Some(n), None) => "(name: "@ + n + ")"@,
                (None, Some(c)) => prompt::content_text(c),
                (None, None) => Seq::empty(),
            };
            prompt::message_text(m) == mark + body
        }),
{
    let lines = prompt::name_line(m) + prompt::content_line(m);
    match (m.name, m.content) {
        (Some(n), Some(c)) => {
            assert(lines =~= seq!["(name: "@ + n + ")"@].push(prompt::content_text(c)));
            text::lemma_joined_push(
                seq!["(name: "@ + n + ")"@],
                "\n"@,
                prompt::content_text(c),
            );
        },
        (Some(n), None) => {
            assert(lines =~= seq!["(name: "@ + n + ")"@]);
        },
        (None, Some(c)) => {
            assert(lines =~= seq![prompt::content_text(c)]);
        },
        (None, None) => {
            assert(lines =~= Seq::<Seq<char>>::empty());
        },
    }
}

/// A message of the assistant is its mark and its body.
pub proof fn law_answers_are_shown(m: MessageView)
    requires
        m.role == "assistant"@,
    ensures
        prompt::message_text(m) == "<｜Assistant｜>"@ + prompt::assistant_body(m),
{
    law_roles_are_marked(m.role);
}

/// A message of the assistant with nothing but its content.
pub open spec fn content_alone(m: MessageView) -> MessageView {
    MessageView { tool_calls: None, function_call: None, refusal: None, ..m }
}

/// Whether a message of the assistant has anything to show.
pub open spec fn shows_anything(m: MessageView) -> bool {
    ||| m.content is Some
    ||| m.tool_calls is Some && exists|i: int|
        0 <= i < m.tool_calls->0.len() && (#[trigger] m.tool_calls->0[i]).function is Some
    ||| m.function_call is Some
    ||| m.refusal is Some
}

/// A text with one more line, where there is a text.
pub open spec fn add_line(any: bool, t: Seq<char>, line: Seq<char>) -> Seq<char> {
    if any {
        t + "\n"@ + line
    } else {
        line
    }
}

/// The lines of a message of the assistant.
spec fn lines_of(m: MessageView) -> Seq<Seq<char>> {
    prompt::content_line(m) + (match m.tool_calls {
        Some(calls) => prompt::shown_calls(calls),
        None => Seq::empty(),
    }) + (match m.function_call {
        Some(f) => seq![prompt::shown_call(f)],
        None => Seq::empty(),
    }) + (match m.refusal {
        Some(t) => seq!["(refusal: "@ + t + ")"@],
        None => Seq::empty(),
    })
}

proof fn lemma_shown_calls_are_some(calls: Seq<ToolCall>)
    ensures
        (prompt::shown_calls(calls).len() > 0) == (exists|i: int|
            0 <= i < calls.len() && (#[trigger] calls[i]).function is Some),
    decreases calls.len(),
{
    if calls.len() > 0 {
        let less = calls.drop_last();
        lemma_shown_calls_are_some(less);
        if exists|i: int| 0 <= i < calls.len() && (#[trigger] calls[i]).function is Some {
            let i = choose|i: int|
                0 <= i < calls.len() && (#[trigger] calls[i]).function is Some;
            if i < less.len() {
                assert(less[i].function is Some);
            }
        }
        if prompt::shown_calls(calls).len() > 0 {
            if calls.last().function is Some {
                assert(calls[calls.len() - 1].function is Some);
            } else {
                let i = choose|i: int|
                    0 <= i < less.len() && (#[trigger] less[i]).function is Some;
                assert(calls[i].function is Some);
            }
        }
    }
}

proof fn lemma_shows_anything(m: MessageView)
    ensures
        shows_anything(m) == (lines_of(m).len() > 0),
        prompt::assistant_body(m) == text::joined(lines_of(m), "\n"@),
{
    if let Some(calls) = m.tool_calls {
        lemma_shown_calls_are_some(calls);
    }
}

/// The body of a message of the assistant begins with its content.
pub proof fn law_answer_begins_with_its_content(m: MessageView)
    ensures
        m.content is Some ==> prompt::assistant_body(content_alone(m)) == prompt::content_text(
            m.content->0,
        ),
        m.content is None ==> prompt::assistant_body(content_alone(m)).len() == 0,
{
    let a = content_alone(m);
    if let Some(c) = m.content {
        assert(lines_of(a) =~= seq![prompt::content_text(c)]);
    } else {
        assert(lines_of(a) =~= Seq::<Seq<char>>::empty());
    }
}

/// One more tool call of the assistant is one more line of its body, in the form in which a
/// call is written. A call of no function is not shown.
pub proof fn law_answer_shows_its_calls(m: MessageView, calls: Seq<ToolCall>, call: ToolCall)
    requires
        m.tool_calls == Some(calls),
        m.function_call is None,
        m.refusal is None,
    ensures
        ({
            let more = MessageView { tool_calls: Some(calls.push(call)), ..m };
            match call.function {
                Some(f) => prompt::assistant_body(more) == add_line(
                    shows_anything(m),
                    prompt::assistant_body(m),
                    "<"@ + f.name@ + ">\n"@ + prompt::shown_arguments(f.arguments@) + "\n</"@
                        + f.name@ + ">"@,
                ),
                None => prompt::assistant_body(more) == prompt::assistant_body(m),
            }
        }),
        prompt::assistant_body(MessageView { tool_calls: Some(Seq::empty()), ..m })
            == prompt::assistant_body(content_alone(m)),
{
    let more = MessageView { tool_calls: Some(calls.push(call)), ..m };
    let none = MessageView { tool_calls: Some(Seq::empty()), ..m };
    assert(calls.push(call).drop_last() =~= calls);
    lemma_shows_anything(m);
    lemma_shows_anything(more);
    match call.function {
        Some(f) => {
            assert(lines_of(more) =~= lines_of(m).push(prompt::shown_call(f)));
            text::lemma_joined_push(lines_of(m), "\n"@, prompt::shown_call(f));
        },
        None => {
            assert(lines_of(more) =~= lines_of(m));
        },
    }
    assert(lines_of(none) =~= lines_of(content_alone(m)));
}

/// A function call of the assistant is one more line of its body, behind the tool calls.
pub proof fn law_answer_shows_its_function_call(m: MessageView, f: FunctionCall)
    requires
        m.function_call is None,
        m.refusal is None,
    ensures
        prompt::assistant_body(MessageView { function_call: Some(f), ..m }) == add_line(
            shows_anything(m),
            prompt::assistant_body(m),
            "<"@ + f.name@ + ">\n"@ + prompt::shown_arguments(f.arguments@) + "\n</"@ + f.name@
                + ">"@,
        ),
{
    let more = MessageView { function_call: Some(f), ..m };
    lemma_shows_anything(m);
    lemma_shows_anything(more);
    assert(lines_of(more) =~= lines_of(m).push(prompt::shown_call(f)));
    text::lemma_joined_push(lines_of(m), "\n"@, prompt::shown_call(f));
}

/// A refusal of the assistant is the last line of its body.
pub proof fn law_answer_shows_its_refusal(m: MessageView, t: Seq<char>)
    requires
        m.refusal is None,
    ensures
        prompt::assistant_body(MessageView { refusal: Some(t), ..m }) == add_line(
            shows_anything(m),
            prompt::assistant_body(m),
            "(refusal: "@ + t + ")"@,
        ),
{
    let more = MessageView { refusal: Some(t), ..m };
    lemma_shows_anything(m);
    lemma_shows_anything(more);
    assert(lines_of(more) =~= lines_of(m).push("(refusal: "@ + t + ")"@));
    text::lemma_joined_push(lines_of(m), "\n"@, "(refusal: "@ + t + ")"@);
}

/// The arguments of a call are shown as compact JSON, and as `null` where they are not JSON.
pub proof fn law_arguments_are_shown(arguments: Seq<char>)
    ensures
        match json::json_parse(arguments) {
            Some(t) => prompt::shown_arguments(arguments) == t,
            None => prompt::shown_arguments(arguments) == "null"@,
        },
{
}

/// The result of a tool stands in its marks.
pub proof fn law_tool_results_are_marked(m: MessageView, c: ContentView)
    ensures
        prompt::tool_output(prompt::content_text(c)) == "<｜tool▁output▁begin｜>"@
            + prompt::content_text(c) + "<｜tool▁output▁end｜>"@,
        m.role == "tool"@ && m.content == Some(c) ==> prompt::message_text(m)
            == "<｜tool▁outputs▁begin｜>"@ + ("<｜tool▁output▁begin｜>"@ + prompt::content_text(c)
            + "<｜tool▁output▁end｜>"@) + "<｜tool▁outputs▁end｜>"@,
        m.role == "tool"@ && m.content is None ==> prompt::message_text(m)
            == "<｜tool▁outputs▁begin｜>"@ + ("<｜tool▁output▁begin｜>"@ + "<｜tool▁output▁end｜>"@)
            + "<｜tool▁outputs▁end｜>"@,
{
    assert("<｜tool▁output▁begin｜>"@ + Seq::<char>::empty() + "<｜tool▁output▁end｜>"@
        =~= "<｜tool▁output▁begin｜>"@ + "<｜tool▁output▁end｜>"@);
    reveal_strlit("tool");
    reveal_strlit("assistant");
    assert("tool"@.len() != "assistant"@.len());
}

// ---------------------------------------------------------------------------
// The texts of a prompt
// ---------------------------------------------------------------------------

/// The texts from a place on do not depend on what stands before.
proof fn lemma_run_end_shifts(x: Seq<MessageView>, m: MessageView, i: int)
    requires
        0 <= i <= x.len(),
        m.role != "tool"@ || prompt::tool_run_end(x, i) < x.len(),
    ensures
        prompt::tool_run_end(x.push(m), i) == prompt::tool_run_end(x, i),
    decreases x.len() - i,
{
    let all = x.push(m);
    if i < x.len() {
        assert(all[i] == x[i]);
        if x[i].role == "tool"@ {
            lemma_run_end_shifts(x, m, i + 1);
        }
    } else {
        assert(all[i] == m);
    }
}

/// A run of tool results that reaches to the end goes on with one more.
proof fn lemma_run_goes_on(x: Seq<MessageView>, m: MessageView, i: int)
    requires
        0 <= i <= x.len(),
        m.role == "tool"@,
        prompt::tool_run_end(x, i) == x.len(),
    ensures
        prompt::tool_run_end(x.push(m), i) == x.len() + 1,
    decreases x.len() - i,
{
    let all = x.push(m);
    if i < x.len() {
        assert(all[i] == x[i]);
        assert(x[i].role == "tool"@);
        lemma_run_goes_on(x, m, i + 1);
    } else {
        assert(all[i] == m);
        assert(prompt::tool_run_end(all, i + 1) == i + 1);
    }
}

/// One more message that is no tool result is one more text.
pub proof fn law_one_more_text(messages: Seq<MessageView>, m: MessageView)
    requires
        m.role != "tool"@,
    ensures
        prompt::parts_from(Seq::empty(), 0).len() == 0,
        prompt::parts_from(messages.push(m), 0) == prompt::parts_from(messages, 0).push(
            prompt::message_text(m),
        ),
{
    lemma_one_more_text(messages, m, 0);
}

proof fn lemma_one_more_text(messages: Seq<MessageView>, m: MessageView, i: int)
    requires
        m.role != "tool"@,
        0 <= i <= messages.len(),
    ensures
        prompt::parts_from(messages.push(m), i) == prompt::parts_from(messages, i).push(
            prompt::message_text(m),
        ),
    decreases messages.len() - i,
{
    let all = messages.push(m);
    if i == messages.len() {
        assert(all[i] == m);
        assert(prompt::parts_from(all, i + 1) =~= Seq::<Seq<char>>::empty());
        assert(prompt::parts_from(messages, i) =~= Seq::<Seq<char>>::empty());
        assert(prompt::parts_from(all, i) =~= seq![prompt::message_text(m)]);
        assert(prompt::parts_from(messages, i).push(prompt::message_text(m)) =~= seq![
            prompt::message_text(m),
        ]);
    } else {
        assert(all[i] == messages[i]);
        if messages[i].role == "tool"@ {
            let j = prompt::tool_run_end(messages, i);
            prompt::lemma_tool_run_end(messages, i);
            prompt::lemma_tool_run_end(all, i);
            lemma_run_end_shifts(messages, m, i);
            assert(all.subrange(i, j) =~= messages.subrange(i, j));
            lemma_one_more_text(messages, m, j);
        } else {
            lemma_one_more_text(messages, m, i + 1);
        }
        assert(prompt::parts_from(all, i) =~= prompt::parts_from(messages, i).push(
            prompt::message_text(m),
        ));
    }
}

/// What a tool result adds to a run: its content in its marks, nothing where it has none.
pub open spec fn result_text(m: MessageView) -> Seq<char> {
    match m.content {
        Some(c) => "<｜tool▁output▁begin｜>"@ + prompt::content_text(c) + "<｜tool▁output▁end｜>"@,
        None => Seq::empty(),
    }
}

/// A tool result behind another message is one more text, in the marks of tool results. Behind
/// another tool result it joins the text of that one, behind what stands there.
pub proof fn law_one_more_result(messages: Seq<MessageView>, m: MessageView)
    requires
        m.role == "tool"@,
    ensures
        ({
            let before = prompt::parts_from(messages, 0);
            let after = prompt::parts_from(messages.push(m), 0);
            let end = "<｜tool▁outputs▁end｜>"@;
            if messages.len() > 0 && messages.last().role == "tool"@ {
                &&& before.len() > 0
                &&& after.len() == before.len()
                &&& after.drop_last() == before.drop_last()
                &&& end.is_suffix_of(before.last())
                &&& after.last() == before.last().take(before.last().len() - end.len())
                    + result_text(m) + end
            } else {
                after == before.push("<｜tool▁outputs▁begin｜>"@ + result_text(m) + end)
            }
        }),
{
    lemma_one_more_result(messages, m, 0);
}

#[verifier::spinoff_prover]
#[verifier::rlimit(40)]
proof fn lemma_one_more_result(messages: Seq<MessageView>, m: MessageView, i: int)
    requires
        m.role == "tool"@,
        0 <= i <= messages.len(),
    ensures
        ({
            let before = prompt::parts_from(messages, i);
            let after = prompt::parts_from(messages.push(m), i);
            let end = "<｜tool▁outputs▁end｜>"@;
            if messages.len() > i && messages.last().role == "tool"@ {
                &&& before.len() > 0
                &&& after.len() == before.len()
                &&& after.drop_last() == before.drop_last()
                &&& end.is_suffix_of(before.last())
                &&& after.last() == before.last().take(before.last().len() - end.len())
                    + result_text(m) + end
            } else {
                after == before.push("<｜tool▁outputs▁begin｜>"@ + result_text(m) + end)
            }
        }),
    decreases messages.len() - i,
{
    let all = messages.push(m);
    let begin = "<｜tool▁outputs▁begin｜>"@;
    let end = "<｜tool▁outputs▁end｜>"@;
    let n = messages.len() as int;
    let before = prompt::parts_from(messages, i);
    let after = prompt::parts_from(all, i);
    if i == n {
        assert(all[i] == m);
        lemma_run_goes_on(messages, m, i);
        let group = all.subrange(i, n + 1);
        assert(group =~= seq![m]);
        assert(group.drop_last() =~= Seq::<MessageView>::empty());
        assert(prompt::outputs_of(group.drop_last()) =~= Seq::<char>::empty());
        assert(group.last() == m);
        assert(prompt::outputs_of(group) =~= result_text(m));
        assert(prompt::parts_from(all, n + 1) =~= Seq::<Seq<char>>::empty());
        assert(before =~= Seq::<Seq<char>>::empty());
        assert(after =~= seq![begin + result_text(m) + end]);
        assert(before.push(begin + result_text(m) + end) =~= after);
    } else if messages[i].role == "tool"@ {
        assert(all[i] == messages[i]);
        let j = prompt::tool_run_end(messages, i);
        prompt::lemma_tool_run_end(messages, i);
        if j == n {
            lemma_run_goes_on(messages, m, i);
            lemma_run_is_of_tools(messages, i, n - 1);
            let group = messages.subrange(i, n);
            let more = all.subrange(i, n + 1);
            assert(more.drop_last() =~= group);
            assert(more.last() == m);
            let inner = prompt::outputs_of(group);
            assert(prompt::outputs_of(more) =~= inner + result_text(m));
            assert(prompt::parts_from(all, n + 1) =~= Seq::<Seq<char>>::empty());
            assert(prompt::parts_from(messages, n) =~= Seq::<Seq<char>>::empty());
            let old_text = begin + inner + end;
            assert(before =~= seq![old_text]);
            assert(after =~= seq![begin + (inner + result_text(m)) + end]);
            assert(old_text.subrange(old_text.len() - end.len(), old_text.len() as int) =~= end);
            assert(old_text.take(old_text.len() - end.len()) =~= begin + inner);
            assert(after.last() =~= (begin + inner) + result_text(m) + end);
            assert(after.drop_last() =~= before.drop_last());
        } else {
            lemma_run_end_shifts(messages, m, i);
            assert(all.subrange(i, j) =~= messages.subrange(i, j));
            lemma_one_more_result(messages, m, j);
            let one = begin + prompt::outputs_of(messages.subrange(i, j)) + end;
            lemma_front(
                one,
                prompt::parts_from(messages, j),
                prompt::parts_from(all, j),
                before,
                after,
            );
        }
    } else {
        assert(all[i] == messages[i]);
        lemma_one_more_result(messages, m, i + 1);
        let one = prompt::message_text(messages[i]);
        lemma_front(
            one,
            prompt::parts_from(messages, i + 1),
            prompt::parts_from(all, i + 1),
            before,
            after,
        );
        if i + 1 == n {
            assert(prompt::parts_from(messages, n) =~= Seq::<Seq<char>>::empty());
            assert(messages.last() == messages[i]);
        }
    }
}

/// A text in front of two lists leaves their ends as they are.
proof fn lemma_front(
    one: Seq<char>,
    x: Seq<Seq<char>>,
    y: Seq<Seq<char>>,
    before: Seq<Seq<char>>,
    after: Seq<Seq<char>>,
)
    requires
        before == seq![one] + x,
        after == seq![one] + y,
    ensures
        after.len() == y.len() + 1,
        before.len() == x.len() + 1,
        x.len() > 0 ==> before.last() == x.last() && before.drop_last() == seq![one]
            + x.drop_last(),
        y.len() > 0 ==> after.last() == y.last() && after.drop_last() == seq![one] + y.drop_last(),
        forall|t: Seq<char>| y == #[trigger] x.push(t) ==> after == before.push(t),
{
    if x.len() > 0 {
        assert(before.drop_last() =~= seq![one] + x.drop_last());
    }
    if y.len() > 0 {
        assert(after.drop_last() =~= seq![one] + y.drop_last());
    }
    assert forall|t: Seq<char>| y == #[trigger] x.push(t) implies after == before.push(t) by {
        assert(after =~= before.push(t));
    }
}

/// The messages of a run of tool results have no other role.
proof fn lemma_run_is_of_tools(messages: Seq<MessageView>, i: int, k: int)
    requires
        0 <= i <= k < prompt::tool_run_end(messages, i),
    ensures
        k < messages.len(),
        messages[k].role == "tool"@,
    decreases k - i,
{
    if i < messages.len() && messages[i].role == "tool"@ && i < k {
        lemma_run_is_of_tools(messages, i + 1, k);
    }
}

// ---------------------------------------------------------------------------
// What is said of tools and of the output format
// ---------------------------------------------------------------------------

/// What is said of the output format: nothing for plain text, that it is JSON, the schema
/// where there is one, and else the name of the format.
pub proof fn law_output_format_is_told(rf: ResponseFormat)
    ensures
        rf.ty@ == "text"@ ==> prompt::response_text(rf).len() == 0,
        rf.ty@ == "json_object"@ ==> prompt::response_text(rf)
            == "请直接输出合法的 JSON 对象，不要包含任何 markdown 代码块标记或其他解释性文字。"@,
        rf.ty@ == "json_schema"@ && rf.json_schema is None ==> prompt::response_text(rf)
            == "以 JSON 的形式输出。"@,
        rf.ty@ == "json_schema"@ && rf.json_schema is Some && json::json_text(
            rf.json_schema->0,
        ).len() > 0 ==> prompt::response_text(rf)
            == "以 JSON 的形式输出，输出的 JSON 需遵守以下的格式：\n\n~~~json\n"@ + json::json_text(
            rf.json_schema->0,
        ) + "\n~~~"@,
        rf.ty@ != "text"@ && rf.ty@ != "json_object"@ && rf.ty@ != "json_schema"@
            ==> prompt::response_text(rf) == "请以 "@ + rf.ty@ + " 格式输出。"@,
{
    reveal_strlit("text");
    reveal_strlit("json_object");
    reveal_strlit("json_schema");
    assert("text"@.len() == 4 && "json_object"@[5] == 'o' && "json_schema"@[5] == 's');
}

/// What is said of tools and of the output format stands in sections, each with its title:
/// the tools with the wording of the instruction, which tools to call, and the output format,
/// in this order, as far as there is anything to say.
pub proof fn law_sections_are_said(ctx: ContextView, format_text: Seq<char>, wording: Seq<char>)
    ensures
        ({
            let s = prompt::sections(ctx, format_text, wording);
            let a: int = if ctx.defs is Some {
                1
            } else {
                0
            };
            let b: int = if ctx.instruction is Some {
                1
            } else {
                0
            };
            let c: int = if format_text.len() > 0 {
                1
            } else {
                0
            };
            &&& s.len() == a + b + c
            &&& ctx.defs is Some ==> s[0] == "## Tools\n\n"@ + ctx.defs->0 + "\n\n"@ + wording
            &&& ctx.instruction is Some ==> s[a] == "## 调用指令\n"@ + ctx.instruction->0
            &&& format_text.len() > 0 ==> s[a + b] == "## 输出格式\n"@ + format_text
        }),
{
}

/// Of the output format it is said what the request says of it.
pub proof fn law_format_of_the_request(req: ChatCompletionsRequest)
    ensures
        match req.response_format {
            Some(rf) => prompt::format_text_of(req) == prompt::response_text(rf),
            None => prompt::format_text_of(req).len() == 0,
        },
{
}

/// A text with more behind it, and with its final line break, where it has one, behind that.
pub open spec fn continued(s: Seq<char>, more: Seq<char>) -> Seq<char> {
    if s.len() > 0 && s.last() == '\n' {
        s.drop_last() + more + "\n"@
    } else {
        s + more
    }
}

/// The sections are put behind the text of the first system message, and before all texts
/// where there is none. All other texts are kept, in order, and without sections nothing is
/// changed.
pub proof fn law_sections_leave_the_rest(parts: Seq<Seq<char>>, sections: Seq<Seq<char>>)
    ensures
        sections.len() == 0 ==> prompt::with_sections(parts, sections) == parts,
        sections.len() > 0 && (exists|k: int|
            0 <= k < parts.len() && "<｜System｜>"@.is_prefix_of(#[trigger] parts[k])) ==> {
            let all = prompt::with_sections(parts, sections);
            exists|k: int|
                {
                    &&& 0 <= k < parts.len()
                    &&& "<｜System｜>"@.is_prefix_of(#[trigger] parts[k])
                    &&& forall|j: int|
                        0 <= j < k ==> !"<｜System｜>"@.is_prefix_of(#[trigger] parts[j])
                    &&& all.len() == parts.len()
                    &&& forall|j: int|
                        0 <= j < parts.len() && j != k ==> #[trigger] all[j] == parts[j]
                    &&& all[k] == continued(
                        parts[k],
                        "\n\n"@ + text::joined(sections, "\n\n"@),
                    )
                }
        },
        sections.len() > 0 && !(exists|k: int|
            0 <= k < parts.len() && "<｜System｜>"@.is_prefix_of(#[trigger] parts[k])) ==> {
            let all = prompt::with_sections(parts, sections);
            all.len() == parts.len() + 1 && all.skip(1) == parts && all[0] == "<｜System｜>"@
                + text::trimmed_start("\n\n"@ + text::joined(sections, "\n\n"@)) + "\n"@
        },
{
    let mark = "<｜System｜>"@;
    let all = prompt::with_sections(parts, sections);
    prompt::lemma_first_marked(parts, mark, 0);
    if sections.len() > 0 {
        match prompt::first_marked(parts, mark, 0) {
            Some(k) => {
                lemma_first_is_first(parts, mark, 0);
                let added = "\n\n"@ + text::joined(sections, "\n\n"@);
                let t = prompt::with_tail(parts[k], added);
                assert(all[k] == t);
                assert(mark.is_prefix_of(parts[k]));
            },
            None => {
                assert(all.skip(1) =~= parts);
            },
        }
    }
}

proof fn lemma_first_is_first(parts: Seq<Seq<char>>, mark: Seq<char>, i: int)
    requires
        0 <= i,
    ensures
        match prompt::first_marked(parts, mark, i) {
            Some(k) => forall|j: int| i <= j < k ==> !mark.is_prefix_of(#[trigger] parts[j]),
            None => true,
        },
    decreases parts.len() - i,
{
    if i < parts.len() && !mark.is_prefix_of(parts[i]) {
        lemma_first_is_first(parts, mark, i + 1);
    }
}

/// A prompt is the texts of its messages, with the sections, and the mark of the assistant
/// where no text has it.
pub proof fn law_prompt_is_made_of_its_messages(
    req: ChatCompletionsRequest,
    ctx: ContextView,
    wording: Seq<char>,
)
    ensures
        ({
            let texts = prompt::with_sections(
                prompt::parts_from(prompt::merged(types::message_views(req.messages@)), 0),
                prompt::sections(ctx, prompt::format_text_of(req), wording),
            );
            let parts = prompt::prompt_parts(req, ctx, wording);
            if exists|k: int|
                0 <= k < texts.len() && "<｜Assistant｜>"@.is_prefix_of(#[trigger] texts[k]) {
                parts == texts
            } else {
                parts == texts.push("<｜Assistant｜>\n"@)
            }
        }),
{
    let texts = prompt::with_sections(
        prompt::parts_from(prompt::merged(types::message_views(req.messages@)), 0),
        prompt::sections(ctx, prompt::format_text_of(req), wording),
    );
    prompt::lemma_first_marked(texts, "<｜Assistant｜>"@, 0);
}

/// Every number of nanoseconds picks a wording, and every wording is picked by one.
pub proof fn law_every_wording_is_picked(nanos: u64, bound: usize, k: usize)
    requires
        0 < bound,
    ensures
        prompt::picked(nanos, bound) < bound,
        k < bound ==> prompt::picked(k as u64, bound) == k,
        nanos < bound ==> prompt::picked(nanos, bound) == nanos,
        nanos + bound <= u64::MAX ==> prompt::picked((nanos + bound) as u64, bound)
            == prompt::picked(nanos, bound),
{
    if bound > 1 {
        vstd::arithmetic::div_mod::lemma_mod_bound(nanos as int, bound as int);
        vstd::arithmetic::div_mod::lemma_mod_add_multiples_vanish(nanos as int, bound as int);
        if k < bound {
            vstd::arithmetic::div_mod::lemma_small_mod(k as nat, bound as nat);
        }
        if nanos < bound {
            vstd::arithmetic::div_mod::lemma_small_mod(nanos as nat, bound as nat);
        }
    }
}

/// The four wordings are different.
pub proof fn law_wordings_differ(j: int, k: int)
    requires
        0 <= j < k < prompt::INSTRUCTION_VARIANTS,
    ensures
        prompt::INSTRUCTION_VARIANTS == 4,
        prompt::instruction_variant(j) != prompt::instruction_variant(k),
{
    reveal_strlit(
        "使用工具时，请直接输出对应工具的 XML 标签（如 `<tool_name>{{...}}</tool_name>`）。不要使用 `<invoke name=\"...\">...</invoke>` 或 `<tool_call>...</tool_call>` 等包装格式。",
    );
    reveal_strlit(
        "调用工具请输出形如 `<tool_name>{{...}}</tool_name>` 的 XML 标签，禁止使用 `<invoke>` 或 `<tool_call>` 包装。",
    );
    reveal_strlit(
        "工具调用格式：直接输出 `<tool_name>{{...}}</tool_name>`，不要包裹在 `<invoke>`/`<tool_call>` 中。",
    );
    reveal_strlit(
        "如需调用工具，请以 `<tool_name>{{...}}</tool_name>` 格式输出，避免使用 `<invoke>` 或 `<tool_call>` 标签。",
    );
    assert(prompt::instruction_variant(j)[0] != prompt::instruction_variant(k)[0]);
}

} // verus!
