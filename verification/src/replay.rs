//! Recorded calls and the calls that are read from an answer have one form.

use vstd::prelude::*;
use vstd::utf8::*;

use crate::calls::CallModel;
use crate::json;
use crate::parser_laws;
use crate::prompt;
use crate::stream_laws;
use crate::stream_laws::Item;
use crate::tag_laws;
use crate::tags;
use crate::text;
use crate::tool_parser;
use crate::tool_parser::Scan;
use crate::types::{FunctionCall, MessageView, ToolCall};

verus! {

/// A line break on both sides is trimmed away.
proof fn lemma_trimmed_lines(s: Seq<char>)
    requires
        s.len() > 0,
        !text::is_white_space(s[0]),
        !text::is_white_space(s.last()),
    ensures
        text::trimmed("\n"@ + s + "\n"@) == s,
{
    reveal_strlit("\n");
    let t = "\n"@ + s + "\n"@;
    assert(t[0] == '\n');
    assert(t.drop_first() =~= s + "\n"@);
    assert(t.drop_first()[0] == s[0]);
    assert(text::trimmed_start(t) == text::trimmed_start(t.drop_first()));
    assert(text::trimmed_start(t) == s + "\n"@);
    let u = s + "\n"@;
    assert(u.last() == '\n');
    assert(u.drop_last() =~= s);
    assert(text::trimmed_end(u) == text::trimmed_end(u.drop_last()));
}

/// The bytes of a shown call: a tag, a body and a tag.
proof fn lemma_call_bytes(name: Seq<char>, arguments: Seq<char>)
    ensures
        encode_utf8(prompt::call_text(name, arguments)) == tag_laws::plain_tag(
            encode_utf8(name),
            false,
        ) + encode_utf8("\n"@ + arguments + "\n"@) + tag_laws::plain_tag(encode_utf8(name), true),
{
    reveal_strlit("<");
    reveal_strlit(">\n");
    reveal_strlit("\n</");
    reveal_strlit(">");
    reveal_strlit("\n");
    is_ascii_chars_encode_utf8("<"@);
    is_ascii_chars_encode_utf8(">\n"@);
    is_ascii_chars_encode_utf8("\n</"@);
    is_ascii_chars_encode_utf8(">"@);
    is_ascii_chars_encode_utf8("\n"@);
    text::lemma_encode_concat("<"@, name);
    text::lemma_encode_concat("<"@ + name, ">\n"@);
    text::lemma_encode_concat("<"@ + name + ">\n"@, arguments);
    text::lemma_encode_concat("<"@ + name + ">\n"@ + arguments, "\n</"@);
    text::lemma_encode_concat("<"@ + name + ">\n"@ + arguments + "\n</"@, name);
    text::lemma_encode_concat("<"@ + name + ">\n"@ + arguments + "\n</"@ + name, ">"@);
    text::lemma_encode_concat("\n"@, arguments);
    text::lemma_encode_concat("\n"@ + arguments, "\n"@);
    let n = encode_utf8(name);
    let a = encode_utf8(arguments);
    assert(encode_utf8("<"@) =~= seq![0x3cu8]);
    assert(encode_utf8(">\n"@) =~= seq![0x3eu8, 0x0au8]);
    assert(encode_utf8("\n</"@) =~= seq![0x0au8, 0x3cu8, 0x2fu8]);
    assert(encode_utf8(">"@) =~= seq![0x3eu8]);
    assert(encode_utf8("\n"@) =~= seq![0x0au8]);
    assert(encode_utf8(prompt::call_text(name, arguments)) =~= tag_laws::plain_tag(n, false) + (
    seq![0x0au8] + a + seq![0x0au8]) + tag_laws::plain_tag(n, true));
}

/// The bytes between the tags of a shown call.
pub open spec fn inner_of(arguments: Seq<char>) -> Seq<u8> {
    encode_utf8("\n"@ + arguments + "\n"@)
}

/// Whether the arguments of a shown call do not hold its closing tag: the first closing tag
/// is the one behind them.
pub open spec fn holds_no_closing_tag(name: Seq<char>, arguments: Seq<char>) -> bool {
    tags::find_tag(
        inner_of(arguments) + tag_laws::plain_tag(encode_utf8(name), true),
        seq![encode_utf8(name)],
        true,
        0,
    ) == Some(inner_of(arguments).len() as int)
}

/// A call that is shown to the model as one that it made is read back as that call, and as
/// nothing else, when the model writes it again: its name is the same, and its arguments
/// are the object that the shown arguments denote. The arguments must not hold the closing
/// tag of the call.
pub proof fn law_shown_call_is_read_back(
    name: Seq<char>,
    arguments: Seq<char>,
    names: Seq<Seq<u8>>,
)
    requires
        tag_laws::is_tool_name(encode_utf8(name)),
        names.contains(encode_utf8(name)),
        arguments.len() > 0,
        !text::is_white_space(arguments[0]),
        !text::is_white_space(arguments.last()),
        tool_parser::object_of(arguments) is Some,
        holds_no_closing_tag(name, arguments),
    ensures
        tool_parser::parsed(prompt::call_text(name, arguments), names) == Some(
            Scan {
                calls: seq![
                    CallModel { name, arguments: tool_parser::object_of(arguments)->0 },
                ],
                rest: Seq::empty(),
            },
        ),
{
    let n = encode_utf8(name);
    let inner = "\n"@ + arguments + "\n"@;
    let body = inner_of(arguments);
    let open = tag_laws::plain_tag(n, false);
    let close = tag_laws::plain_tag(n, true);
    let s = encode_utf8(prompt::call_text(name, arguments));
    let end = open.len() as int;
    let at = (open + body).len() as int;
    lemma_call_bytes(name, arguments);
    tag_laws::law_plain_tag(Seq::empty(), n, false, body + close, names);
    assert(Seq::<u8>::empty() + open + (body + close) =~= s);
    tag_laws::law_plain_tag(open + body, n, true, Seq::empty(), seq![n]);
    assert((open + body) + close + Seq::<u8>::empty() =~= s);
    assert(tags::find_tag(s, names, false, 0) == Some(0int));
    assert(tags::tag_end(s, 0) + 1 == end);
    assert(tool_parser::fences(s, 0, 0) == 0);
    assert(open + (body + close) =~= s);
    parser_laws::lemma_first_tag_behind(open, body + close, seq![n], true);
    assert(tags::find_tag(s, seq![n], true, end) == Some(at));
    assert(s.subrange(end, at) =~= body);
    encode_utf8_decode_utf8(inner);
    encode_utf8_decode_utf8(name);
    lemma_trimmed_lines(arguments);
    let model = CallModel { name, arguments: tool_parser::object_of(arguments)->0 };
    assert(tool_parser::calls_of(n, body) == seq![model]);
    let tail = tool_parser::scan_calls(s, names, s.len() as int);
    assert(tags::find_tag(s, names, false, s.len() as int) is None);
    assert(tail.calls.len() == 0);
    assert(tail.rest =~= Seq::<u8>::empty());
    assert(tags::tag_end(s, at) + 1 == s.len());
    let scan = tool_parser::scan_calls(s, names, 0);
    assert(scan.calls == tool_parser::calls_of(n, s.subrange(end, at)) + tail.calls);
    assert(scan.calls =~= seq![model]);
    assert(scan.rest =~= Seq::<u8>::empty());
}

/// Arguments without a `<` hold no closing tag.
pub proof fn law_plain_arguments_hold_no_tag(name: Seq<char>, arguments: Seq<char>)
    requires
        tag_laws::is_tool_name(encode_utf8(name)),
        stream_laws::is_plain(encode_utf8(arguments)),
    ensures
        holds_no_closing_tag(name, arguments),
{
    let n = encode_utf8(name);
    let a = encode_utf8(arguments);
    let body = inner_of(arguments);
    let close = tag_laws::plain_tag(n, true);
    reveal_strlit("\n");
    is_ascii_chars_encode_utf8("\n"@);
    assert(encode_utf8("\n"@) =~= seq![0x0au8]);
    text::lemma_encode_concat("\n"@, arguments);
    text::lemma_encode_concat("\n"@ + arguments, "\n"@);
    assert(body =~= seq![0x0au8] + a + seq![0x0au8]);
    tag_laws::law_plain_tag(body, n, true, Seq::empty(), seq![n]);
    let s = body + close;
    assert(body + close + Seq::<u8>::empty() =~= s);
    assert(seq![n].contains(n)) by {
        assert(seq![n][0] == n);
    }
    assert forall|j: int| 0 <= j < body.len() implies !tags::tag_at(s, seq![n], true, j) by {
        assert(s[j] == body[j]);
        if 0 < j < body.len() - 1 {
            assert(body[j] == a[j - 1]);
        }
    }
    tags::lemma_find_tag_is(s, seq![n], true, 0, body.len() as int);
}

/// Whether a recorded call can be read back: it calls a tool, its compact arguments are an
/// object with whole numbers, and they do not hold the closing tag.
pub open spec fn is_replayable(f: FunctionCall, names: Seq<Seq<u8>>) -> bool {
    let compact = prompt::shown_arguments(f.arguments@);
    &&& names.contains(encode_utf8(f.name@))
    &&& tag_laws::is_tool_name(encode_utf8(f.name@))
    &&& json::is_object_text(compact)
    &&& json::numbers_are_whole(compact, 0, false)
    &&& holds_no_closing_tag(f.name@, compact)
}

/// The compact arguments of a call that can be read back denote themselves.
proof fn lemma_replayable_arguments(f: FunctionCall, names: Seq<Seq<u8>>)
    requires
        is_replayable(f, names),
        json::is_read_again(f.arguments@),
    ensures
        ({
            let compact = prompt::shown_arguments(f.arguments@);
            &&& tool_parser::object_of(compact) == Some(compact)
            &&& compact.len() > 0
            &&& !text::is_white_space(compact[0])
            &&& !text::is_white_space(compact.last())
        }),
{
    reveal_strlit("null");
}

/// Whether all calls of a list can be read back.
pub open spec fn are_replayable(calls: Seq<ToolCall>, names: Seq<Seq<u8>>) -> bool {
    forall|k: int|
        0 <= k < calls.len() ==> match (#[trigger] calls[k]).function {
            Some(f) => is_replayable(f, names),
            None => false,
        }
}

/// Whether the compact arguments of all calls of a list are read again as they are.
pub open spec fn are_read_again(calls: Seq<ToolCall>) -> bool {
    forall|k: int|
        0 <= k < calls.len() ==> match (#[trigger] calls[k]).function {
            Some(f) => json::is_read_again(f.arguments@),
            None => true,
        }
}

/// The calls of a list with their compact arguments.
pub open spec fn models_of(calls: Seq<ToolCall>) -> Seq<CallModel> {
    Seq::new(
        calls.len(),
        |k: int|
            CallModel {
                name: calls[k].function->0.name@,
                arguments: prompt::shown_arguments(calls[k].function->0.arguments@),
            },
    )
}

/// A number of line breaks.
pub open spec fn line_breaks(n: nat) -> Seq<u8> {
    Seq::new(n, |i: int| 0x0au8)
}

/// The elements of shown calls, one on each line, behind a text.
spec fn items_of(first: Seq<u8>, calls: Seq<ToolCall>) -> Seq<Item> {
    Seq::new(
        calls.len(),
        |k: int|
            Item {
                before: if k == 0 {
                    first
                } else {
                    seq![0x0au8]
                },
                name: encode_utf8(calls[k].function->0.name@),
                inner: inner_of(
                    prompt::shown_arguments(calls[k].function->0.arguments@),
                ),
                arguments: prompt::shown_arguments(calls[k].function->0.arguments@),
            },
    )
}

/// The shown calls of a list of function calls.
spec fn lines_of(calls: Seq<ToolCall>) -> Seq<Seq<char>> {
    Seq::new(calls.len(), |k: int| prompt::shown_call(calls[k].function->0))
}

/// Every call of a list of function calls is shown.
proof fn lemma_all_are_shown(calls: Seq<ToolCall>)
    requires
        forall|k: int| 0 <= k < calls.len() ==> (#[trigger] calls[k]).function is Some,
    ensures
        prompt::shown_calls(calls) == lines_of(calls),
    decreases calls.len(),
{
    let all = lines_of(calls);
    if calls.len() == 0 {
        assert(prompt::shown_calls(calls) =~= all);
    } else {
        let less = calls.drop_last();
        assert forall|k: int| 0 <= k < less.len() implies (#[trigger] less[k]).function is Some by {
            assert(less[k] == calls[k]);
        }
        lemma_all_are_shown(less);
        assert(calls[calls.len() - 1] == calls.last());
        assert(prompt::shown_calls(calls) =~= all);
    }
}

/// The bytes of shown calls on lines are those of their elements.
proof fn lemma_lines_are_items(first: Seq<u8>, calls: Seq<ToolCall>)
    requires
        calls.len() > 0,
    ensures
        first + encode_utf8(text::joined(lines_of(calls), "\n"@)) == stream_laws::text_of(
            items_of(first, calls),
            Seq::empty(),
        ),
        stream_laws::plain_of(items_of(first, calls), Seq::empty()) == first + line_breaks(
            (calls.len() - 1) as nat,
        ),
    decreases calls.len(),
{
    let lines = lines_of(calls);
    let items = items_of(first, calls);
    let f = calls[0].function->0;
    let less = calls.drop_first();
    let none = Seq::<u8>::empty();
    let one = encode_utf8(lines[0]);
    lemma_call_bytes(f.name@, prompt::shown_arguments(f.arguments@));
    assert(one =~= stream_laws::element(items[0].name, items[0].inner));
    if calls.len() == 1 {
        assert(items.drop_first() =~= Seq::<Item>::empty());
        assert(stream_laws::text_of(items.drop_first(), none) =~= none);
        assert(stream_laws::plain_of(items.drop_first(), none) =~= none);
        assert(first + one + none =~= first + one);
        assert(first + none =~= first + line_breaks(0));
    } else {
        let more = lines_of(less);
        assert(lines.drop_first() =~= more);
        assert(items.drop_first() =~= items_of(seq![0x0au8], less));
        lemma_lines_are_items(seq![0x0au8], less);
        let tail = text::joined(more, "\n"@);
        text::lemma_encode_concat(lines[0], "\n"@);
        text::lemma_encode_concat(lines[0] + "\n"@, tail);
        reveal_strlit("\n");
        is_ascii_chars_encode_utf8("\n"@);
        assert(encode_utf8("\n"@) =~= seq![0x0au8]);
        assert(first + (one + seq![0x0au8] + encode_utf8(tail)) =~= first + one + (seq![0x0au8]
            + encode_utf8(tail)));
        assert(first + (seq![0x0au8] + line_breaks((less.len() - 1) as nat)) =~= first
            + line_breaks((calls.len() - 1) as nat));
    }
}

/// The bytes of the text before the calls of a message.
pub open spec fn lead_of(m: MessageView) -> Seq<u8> {
    match m.content {
        Some(c) => encode_utf8(prompt::content_text(c) + "\n"@),
        None => Seq::empty(),
    }
}

/// The body of a message with calls is its text and the elements of the calls.
proof fn lemma_body_is_items(m: MessageView, calls: Seq<ToolCall>)
    requires
        m.function_call is None,
        m.refusal is None,
        m.tool_calls == Some(calls),
        calls.len() > 0,
        forall|k: int| 0 <= k < calls.len() ==> (#[trigger] calls[k]).function is Some,
    ensures
        encode_utf8(prompt::assistant_body(m)) == stream_laws::text_of(
            items_of(lead_of(m), calls),
            Seq::empty(),
        ),
{
    let lines = lines_of(calls);
    lemma_all_are_shown(calls);
    lemma_lines_are_items(lead_of(m), calls);
    let shown = text::joined(lines, "\n"@);
    let none = Seq::<Seq<char>>::empty();
    let all = prompt::content_line(m) + prompt::shown_calls(calls) + none + none;
    match m.content {
        Some(c) => {
            let t = prompt::content_text(c);
            assert(all =~= seq![t] + lines);
            assert(all.drop_first() =~= lines);
            text::lemma_encode_concat(t + "\n"@, shown);
        },
        None => {
            assert(all =~= lines);
            assert(Seq::<u8>::empty() + encode_utf8(shown) =~= encode_utf8(shown));
        },
    }
}

/// Whether the calls of a message can be read back from its body: it has calls and nothing
/// behind them, each call can be read back, the text before them holds no `<`, and no call
/// stands in a code fence. A call alone never does.
pub open spec fn can_be_read_back(m: MessageView, names: Seq<Seq<u8>>) -> bool {
    let bytes = encode_utf8(prompt::assistant_body(m));
    &&& m.function_call is None
    &&& m.refusal is None
    &&& m.tool_calls is Some
    &&& m.tool_calls->0.len() > 0
    &&& are_replayable(m.tool_calls->0, names)
    &&& stream_laws::is_plain(lead_of(m))
    &&& m.content is None && m.tool_calls->0.len() == 1 || forall|i: int| #[trigger]
        tags::tag_at(bytes, names, false, i) ==> !tool_parser::inside_fence(bytes, i)
}

/// What is read back from the body of a message: its calls with their compact arguments, and
/// its text with the line breaks between the calls.
pub open spec fn read_back(m: MessageView) -> Scan {
    Scan {
        calls: models_of(m.tool_calls->0),
        rest: lead_of(m) + line_breaks((m.tool_calls->0.len() - 1) as nat),
    }
}

/// What a message of the assistant shows of its calls is read back as these calls, in order
/// and with their compact arguments, and its text stays as text. That the compact arguments
/// are read again as they are is what parsing them grants.
pub proof fn law_replayed_calls_are_read_back(m: MessageView, names: Seq<Seq<u8>>)
    requires
        can_be_read_back(m, names),
        are_read_again(m.tool_calls->0),
    ensures
        tool_parser::parsed(prompt::assistant_body(m), names) == Some(read_back(m)),
{
    let calls = m.tool_calls->0;
    assert forall|k: int| 0 <= k < calls.len() implies (#[trigger] calls[k]).function is Some by {}
    if m.content is None && calls.len() == 1 {
        lemma_one_is_read_back(m, names);
    } else {
        lemma_all_are_read_back(m, names);
    }
}

proof fn lemma_one_is_read_back(m: MessageView, names: Seq<Seq<u8>>)
    requires
        can_be_read_back(m, names),
        are_read_again(m.tool_calls->0),
        m.content is None,
        m.tool_calls->0.len() == 1,
    ensures
        tool_parser::parsed(prompt::assistant_body(m), names) == Some(read_back(m)),
{
    let calls = m.tool_calls->0;
    assert(calls[0].function is Some);
    let f = calls[0].function->0;
    let compact = prompt::shown_arguments(f.arguments@);
    assert(is_replayable(f, names));
    lemma_all_are_shown(calls);
    let none = Seq::<Seq<char>>::empty();
    let lines = prompt::content_line(m) + prompt::shown_calls(calls) + none + none;
    assert(lines =~= seq![prompt::shown_call(f)]);
    assert(prompt::assistant_body(m) == prompt::call_text(f.name@, compact));
    lemma_replayable_arguments(f, names);
    law_shown_call_is_read_back(f.name@, compact, names);
    assert(models_of(calls) =~= seq![CallModel { name: f.name@, arguments: compact }]);
    assert(read_back(m).rest =~= Seq::<u8>::empty());
}

proof fn lemma_all_are_read_back(m: MessageView, names: Seq<Seq<u8>>)
    requires
        can_be_read_back(m, names),
        are_read_again(m.tool_calls->0),
        m.content is Some || m.tool_calls->0.len() > 1,
    ensures
        tool_parser::parsed(prompt::assistant_body(m), names) == Some(read_back(m)),
{
    let calls = m.tool_calls->0;
    let items = items_of(lead_of(m), calls);
    assert forall|k: int| 0 <= k < calls.len() implies (#[trigger] calls[k]).function is Some by {}
    assert forall|k: int| 0 <= k < items.len() implies stream_laws::is_good_element(
        names,
        (#[trigger] items[k]).name,
        items[k].inner,
        items[k].arguments,
    ) && stream_laws::is_plain(items[k].before) by {
        assert(calls[k].function is Some);
        let f = calls[k].function->0;
        let compact = prompt::shown_arguments(f.arguments@);
        assert(is_replayable(f, names));
        lemma_replayable_arguments(f, names);
        lemma_trimmed_lines(compact);
        encode_utf8_decode_utf8("\n"@ + compact + "\n"@);
    }
    lemma_body_is_items(m, calls);
    lemma_lines_are_items(lead_of(m), calls);
    parser_laws::law_elements_are_read(prompt::assistant_body(m), items, Seq::empty(), names);
    assert forall|k: int| 0 <= k < calls.len() implies stream_laws::calls_of_items(items)[k]
        == #[trigger] models_of(calls)[k] by {
        encode_utf8_decode_utf8(calls[k].function->0.name@);
    }
    assert(stream_laws::calls_of_items(items) =~= models_of(calls));
}

} // verus!
