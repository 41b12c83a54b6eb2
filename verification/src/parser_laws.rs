//! What holds of the calls that are read from whole texts.

use vstd::prelude::*;
use vstd::utf8::*;

use crate::calls::CallModel;
use crate::invoke;
use crate::json;
use crate::repair;
use crate::stream;
use crate::stream_laws;
use crate::stream_laws::Item;
use crate::tag_laws;
use crate::tags;
use crate::text;
use crate::tool_parser;
use crate::tool_parser::Scan;
use crate::types::{ChatCompletionsRequest, Tool};

verus! {

/// Tags inside code fences are text: where every opening tag stands in a code fence, no
/// call is read and the text stays whole.
pub proof fn law_fenced_tags_are_text(s: Seq<u8>, names: Seq<Seq<u8>>)
    requires
        forall|i: int| #[trigger]
            tags::tag_at(s, names, false, i) ==> tool_parser::inside_fence(s, i),
    ensures
        tool_parser::scan_calls(s, names, 0).calls.len() == 0,
        tool_parser::scan_calls(s, names, 0).rest == s,
{
    lemma_fenced_tags_are_text(s, names, 0);
    assert(s.subrange(0, s.len() as int) =~= s);
}

proof fn lemma_fenced_tags_are_text(s: Seq<u8>, names: Seq<Seq<u8>>, cursor: int)
    requires
        0 <= cursor <= s.len(),
        forall|i: int| #[trigger]
            tags::tag_at(s, names, false, i) ==> tool_parser::inside_fence(s, i),
    ensures
        tool_parser::scan_calls(s, names, cursor).calls.len() == 0,
        tool_parser::scan_calls(s, names, cursor).rest == s.subrange(cursor, s.len() as int),
    decreases s.len() - cursor,
{
    tags::lemma_find_tag(s, names, false, cursor);
    if tags::find_tag(s, names, false, cursor) is Some {
        tool_parser::lemma_element_end(s, names, cursor);
        let open = tags::find_tag(s, names, false, cursor)->0;
        let end = tags::tag_end(s, open) + 1;
        lemma_fenced_tags_are_text(s, names, end);
        assert(s.subrange(cursor, end) + s.subrange(end, s.len() as int) =~= s.subrange(
            cursor,
            s.len() as int,
        ));
    }
}

/// A text without an opening tag of a tool and without an invocation holds no call.
pub proof fn law_plain_text_holds_no_call(xml: Seq<char>, names: Seq<Seq<u8>>)
    requires
        tags::find_tag(encode_utf8(xml), names, false, 0) is None,
        text::find_from(encode_utf8(text::lowercase(xml)), encode_utf8("<invoke "@), 0) is None,
    ensures
        tool_parser::is_readable(xml, names),
        tool_parser::parsed(xml, names) is None,
        tool_parser::ids_used(xml, names) == 0,
{
    let t = encode_utf8(xml);
    encode_utf8_valid_utf8(xml);
    is_char_boundary_start_end_of_seq(t);
    assert(invoke::can_cut(t, 0, t.len() as int));
}

/// The parameters of an ASCII invocation can be read.
proof fn lemma_ascii_parameters(
    b: Seq<u8>,
    low: Seq<u8>,
    pos: int,
    members: Seq<(Seq<char>, Seq<char>)>,
)
    requires
        forall|k: int| 0 <= k < b.len() ==> #[trigger] b[k] < 0x80,
        forall|k: int| 0 <= k < low.len() ==> #[trigger] low[k] < 0x80,
        low.len() == b.len(),
        0 <= pos <= b.len(),
    ensures
        !(invoke::read_parameters(b, low, pos, members) is Misaligned),
    decreases b.len() - pos,
{
    text::lemma_ascii_is_cut_anywhere(low, pos);
    text::lemma_find_from(low, encode_utf8("<parameter "@), pos);
    if let Some(at) = text::find_from(low, encode_utf8("<parameter "@), pos) {
        text::lemma_ascii_is_cut_anywhere(b, at);
        if let Some(p) = invoke::parameter_at(b, at) {
            invoke::lemma_parameter_end(b, at);
            lemma_ascii_parameters(b, low, p.end, invoke::with_member(members, p.key, p.value));
        }
    }
}

/// The invocations in an ASCII text can be read.
proof fn lemma_ascii_invokes(t: Seq<u8>, low: Seq<u8>, cursor: int)
    requires
        forall|k: int| 0 <= k < t.len() ==> #[trigger] t[k] < 0x80,
        low.len() == t.len(),
        0 <= cursor <= t.len(),
    ensures
        !(invoke::read_invokes(t, low, cursor) is Misaligned),
    decreases t.len() - cursor,
{
    text::lemma_ascii_is_cut_anywhere(t, cursor);
    text::lemma_ascii_is_cut_anywhere(t, t.len() as int);
    text::lemma_find_from(low, encode_utf8("<invoke "@), cursor);
    if let Some(at) = text::find_from(low, encode_utf8("<invoke "@), cursor) {
        text::lemma_ascii_is_cut_anywhere(t, at);
        if let Some(m) = invoke::invoke_at(t, low, at) {
            invoke::lemma_invoke_end(t, low, cursor);
            text::lemma_find_from(low, encode_utf8("</invoke>"@), at);
            text::lemma_ascii_is_cut_anywhere(t, m.end);
            let b = t.subrange(at, m.end);
            assert forall|k: int| 0 <= k < b.len() implies #[trigger] b[k] < 0x80 by {
                assert(b[k] == t[at + k]);
            }
            text::lemma_ascii_text(b);
            lemma_ascii_parameters(
                b,
                encode_utf8(text::lowercase(decode_utf8(b))),
                0,
                Seq::empty(),
            );
            lemma_ascii_invokes(t, low, m.end);
        }
    }
}

/// Every ASCII text can be parsed.
pub proof fn law_ascii_text_is_readable(xml: Seq<char>, names: Seq<Seq<u8>>)
    requires
        is_ascii_chars(xml),
    ensures
        tool_parser::is_readable(xml, names),
{
    let t = encode_utf8(xml);
    is_ascii_chars_encode_utf8(xml);
    assert forall|k: int| 0 <= k < t.len() implies #[trigger] t[k] < 0x80 by {
        assert('\0' <= xml[k] <= '\u{7f}');
        assert(t[k] == xml[k] as u8);
    }
    text::lemma_ascii_text(t);
    encode_utf8_decode_utf8(xml);
    lemma_ascii_invokes(t, encode_utf8(text::lowercase(xml)), 0);
}

/// Elements are preferred: the fallback format is not looked at where an element of a tool
/// gives a call.
pub proof fn law_elements_come_first(xml: Seq<char>, names: Seq<Seq<u8>>)
    requires
        names.len() > 0,
        tool_parser::scan_calls(encode_utf8(xml), names, 0).calls.len() > 0,
    ensures
        tool_parser::is_readable(xml, names),
        tool_parser::parsed(xml, names) == Some(
            tool_parser::scan_calls(encode_utf8(xml), names, 0),
        ),
{
}

/// A parsed text holds at least one call, and takes one identifier for each.
pub proof fn law_calls_take_identifiers(xml: Seq<char>, names: Seq<Seq<u8>>)
    requires
        tool_parser::parsed(xml, names) is Some,
    ensures
        tool_parser::parsed(xml, names)->0.calls.len() > 0,
        tool_parser::ids_used(xml, names) == tool_parser::parsed(xml, names)->0.calls.len(),
{
}

/// The first tag behind a text is the first tag of what follows.
pub proof fn lemma_first_tag_behind(x: Seq<u8>, y: Seq<u8>, names: Seq<Seq<u8>>, closing: bool)
    ensures
        match tags::find_tag(y, names, closing, 0) {
            Some(at) => tags::find_tag(x + y, names, closing, x.len() as int) == Some(
                x.len() + at,
            ) && 0 <= at < y.len() && tags::tag_end(x + y, x.len() + at) == x.len()
                + tags::tag_end(y, at) && tags::tag_name(x + y, x.len() + at) == tags::tag_name(
                y,
                at,
            ),
            None => tags::find_tag(x + y, names, closing, x.len() as int) is None,
        },
{
    let n = x.len() as int;
    let t = x + y;
    tags::lemma_find_tag(y, names, closing, 0);
    tags::lemma_find_tag(t, names, closing, n);
    if let Some(at) = tags::find_tag(y, names, closing, 0) {
        tag_laws::law_tag_shifts(x, y, names, closing, at);
    }
    if let Some(j) = tags::find_tag(t, names, closing, n) {
        tag_laws::law_tag_shifts(x, y, names, closing, j - n);
    }
}

#[verifier::spinoff_prover]
#[verifier::rlimit(40)]
proof fn lemma_stream_and_text_agree(x: Seq<u8>, y: Seq<u8>, names: Seq<Seq<u8>>)
    requires
        forall|i: int| #[trigger]
            tags::tag_at(x + y, names, false, i) ==> !tool_parser::inside_fence(x + y, i),
        stream::read_text(y, names).repair is None,
    ensures
        tool_parser::scan_calls(x + y, names, x.len() as int) == (Scan {
            calls: stream::read_text(y, names).calls,
            rest: stream::read_text(y, names).shown,
        }),
    decreases y.len(),
{
    let t = x + y;
    let n = x.len() as int;
    lemma_first_tag_behind(x, y, names, false);
    match tags::find_tag(y, names, false, 0) {
        None => {
            assert(t.subrange(n, t.len() as int) =~= y);
        },
        Some(at) => {
            let end = tags::tag_end(y, at) + 1;
            let name = tags::tag_name(y, at);
            stream::lemma_element_parts(y, names, name);
            tool_parser::lemma_element_end(t, names, n);
            tags::lemma_find_tag(t, names, false, n);
            let body = y.subrange(end, y.len() as int);
            let opened = x + y.subrange(0, end);
            assert(opened + body =~= t);
            stream::lemma_element_parts(body, names, name);
            lemma_first_tag_behind(opened, body, seq![name], true);
            assert(t.subrange(n, n + at) =~= y.subrange(0, at));
            let inner = stream::open_body(body, name);
            let rest = stream::behind_body(body, name);
            let read = stream::read_element(body, names, name, y.subrange(at, end));
            assert(stream::read_text(y, names) == stream::preceded(
                y.subrange(0, at),
                Seq::empty(),
                read,
            ));
            match tags::find_tag(body, seq![name], true, 0) {
                None => {
                    assert(t.subrange(n + end, t.len() as int) =~= inner);
                    tags::lemma_find_tag(rest, names, false, 0);
                    assert(stream::read_text(rest, names).shown =~= Seq::<u8>::empty());
                    assert(read.shown =~= Seq::<u8>::empty());
                    assert(read.calls =~= tool_parser::calls_of(name, inner));
                    assert(stream::read_text(y, names).shown =~= y.subrange(0, at));
                    assert(stream::read_text(y, names).calls =~= read.calls);
                },
                Some(close) => {
                    let close_end = tags::tag_end(body, close) + 1;
                    let closed = opened + body.subrange(0, close_end);
                    assert(closed + rest =~= t);
                    assert(t.subrange(n + end, n + end + close) =~= inner);
                    lemma_stream_and_text_agree(closed, rest, names);
                    let tail = stream::read_text(rest, names);
                    assert(read.shown =~= tail.shown);
                    assert(read.calls =~= tool_parser::calls_of(name, inner) + tail.calls);
                    assert(stream::read_text(y, names).calls =~= read.calls);
                },
            }
        },
    }
}

/// A text and a stream of its pieces are read alike: where no opening tag stands in a code
/// fence and no element is to be mended, what is read from the whole text are the calls and
/// the text that a stream comes to when it finishes.
pub proof fn law_stream_and_text_agree(s: Seq<u8>, names: Seq<Seq<u8>>)
    requires
        forall|i: int| #[trigger]
            tags::tag_at(s, names, false, i) ==> !tool_parser::inside_fence(s, i),
        stream::read_text(s, names).repair is None,
    ensures
        tool_parser::scan_calls(s, names, 0) == (Scan {
            calls: stream::read_text(s, names).calls,
            rest: stream::read_text(s, names).shown,
        }),
{
    assert(Seq::<u8>::empty() + s =~= s);
    lemma_stream_and_text_agree(Seq::empty(), s, names);
}

/// Any number of elements with plain text around them are read as their calls, in order,
/// and the text around them is kept.
pub proof fn law_elements_are_read(
    xml: Seq<char>,
    items: Seq<Item>,
    behind: Seq<u8>,
    names: Seq<Seq<u8>>,
)
    requires
        encode_utf8(xml) == stream_laws::text_of(items, behind),
        stream_laws::are_good(items, names),
        stream_laws::is_plain(behind),
        items.len() > 0,
        forall|i: int| #[trigger]
            tags::tag_at(encode_utf8(xml), names, false, i) ==> !tool_parser::inside_fence(
                encode_utf8(xml),
                i,
            ),
    ensures
        tool_parser::parsed(xml, names) == Some(
            Scan {
                calls: stream_laws::calls_of_items(items),
                rest: stream_laws::plain_of(items, behind),
            },
        ),
{
    stream_laws::lemma_read_items(items, behind, names);
    law_stream_and_text_agree(encode_utf8(xml), names);
    assert(stream_laws::is_good_element(
        names,
        items[0].name,
        items[0].inner,
        items[0].arguments,
    ));
    assert(names.len() > 0);
}

// ---------------------------------------------------------------------------
// Bodies
// ---------------------------------------------------------------------------

/// An empty body stands for no arguments.
pub proof fn law_empty_body_is_no_arguments(body: Seq<char>)
    requires
        text::trimmed(body).len() == 0,
    ensures
        tool_parser::body_arguments(body) == Some("{}"@),
{
}

/// A body that denotes an object gives the compact text of that object, with white space
/// around it or not.
pub proof fn law_object_is_taken(body: Seq<char>, compact: Seq<char>)
    requires
        text::trimmed(body).len() > 0,
        json::json_parse(text::trimmed(body)) == Some(compact),
        compact.len() > 1,
        compact[0] == '{',
        compact.last() == '}',
    ensures
        tool_parser::body_arguments(body) == Some(compact),
{
}

/// Arguments are always an object, whatever the body.
pub proof fn law_arguments_are_an_object(body: Seq<char>)
    requires
        tool_parser::body_arguments(body) is Some,
    ensures
        tool_parser::body_arguments(body)->0.len() > 1,
        tool_parser::body_arguments(body)->0[0] == '{',
        tool_parser::body_arguments(body)->0.last() == '}',
{
    reveal_strlit("{}");
}

/// Whether a text denotes an object.
pub open spec fn denotes_object(t: Seq<char>) -> bool {
    match json::json_parse(t) {
        Some(v) => v.len() > 1 && v[0] == '{' && v.last() == '}',
        None => false,
    }
}

/// A body that denotes no object is mended. If it becomes JSON with mended escapes it is read
/// so, and else with mended keys too. What then denotes an object gives that object, and what
/// does not gives no call.
pub proof fn law_other_bodies_are_mended(body: Seq<char>)
    requires
        text::trimmed(body).len() > 0,
        !denotes_object(text::trimmed(body)),
    ensures
        ({
            let escapes = repair::mended_escapes(text::trimmed(body));
            let keys = repair::mended_keys(escapes);
            if json::json_parse(escapes) is Some {
                tool_parser::body_arguments(body) == if denotes_object(escapes) {
                    json::json_parse(escapes)
                } else {
                    None
                }
            } else {
                tool_parser::body_arguments(body) == if denotes_object(keys) {
                    json::json_parse(keys)
                } else {
                    None
                }
            }
        }),
{
}

// ---------------------------------------------------------------------------
// Elements that are no calls
// ---------------------------------------------------------------------------

/// An element whose body gives no arguments gives no call. It is taken out of the text, and
/// the text around it is kept.
#[verifier::spinoff_prover]
pub proof fn law_unreadable_element_gives_no_call(
    before: Seq<u8>,
    name: Seq<u8>,
    inner: Seq<u8>,
    behind: Seq<u8>,
    names: Seq<Seq<u8>>,
)
    requires
        names.contains(name),
        tag_laws::is_tool_name(name),
        stream_laws::is_plain(before),
        stream_laws::is_plain(behind),
        tags::find_tag(inner + tag_laws::plain_tag(name, true), seq![name], true, 0) == Some(
            inner.len() as int,
        ),
        tool_parser::body_arguments(decode_utf8(inner)) is None,
        !tool_parser::inside_fence(
            before + stream_laws::element(name, inner) + behind,
            before.len() as int,
        ),
    ensures
        tool_parser::scan_calls(before + stream_laws::element(name, inner) + behind, names, 0)
            == (Scan { calls: Seq::empty(), rest: before + behind }),
{
    let s = before + stream_laws::element(name, inner) + behind;
    let at = before.len() as int;
    let end = at + tag_laws::plain_tag(name, false).len();
    let c = end + inner.len();
    let stop = c + tag_laws::plain_tag(name, true).len();
    lemma_element_opens(before, name, inner, behind, names);
    lemma_element_closes(before, name, inner, behind);
    tags::lemma_find_tag(s, names, false, stop);
    if let Some(j) = tags::find_tag(s, names, false, stop) {
        assert(s[j] == behind[j - stop]);
    }
    assert(s.subrange(stop, s.len() as int) =~= behind);
    let rest = tool_parser::scan_calls(s, names, stop);
    assert(rest.calls =~= Seq::empty());
    assert(rest.rest == behind);
    assert(tool_parser::calls_of(name, inner) + rest.calls =~= Seq::empty());
    assert(tool_parser::scan_calls(s, names, 0) == (Scan {
        calls: tool_parser::calls_of(name, inner) + rest.calls,
        rest: before + rest.rest,
    }));
}

/// The opening tag of an element is the first one behind plain text.
#[verifier::spinoff_prover]
proof fn lemma_element_opens(
    before: Seq<u8>,
    name: Seq<u8>,
    inner: Seq<u8>,
    behind: Seq<u8>,
    names: Seq<Seq<u8>>,
)
    requires
        names.contains(name),
        tag_laws::is_tool_name(name),
        stream_laws::is_plain(before),
    ensures
        ({
            let s = before + stream_laws::element(name, inner) + behind;
            let at = before.len() as int;
            &&& tags::find_tag(s, names, false, 0) == Some(at)
            &&& tags::tag_end(s, at) + 1 == at + tag_laws::plain_tag(name, false).len()
            &&& tags::tag_name(s, at) == name
            &&& s.subrange(0, at) == before
        }),
{
    let open = tag_laws::plain_tag(name, false);
    let tail = inner + tag_laws::plain_tag(name, true);
    let s = before + stream_laws::element(name, inner) + behind;
    let at = before.len() as int;
    tag_laws::law_plain_tag(before, name, false, tail + behind, names);
    assert(before + open + (tail + behind) =~= s);
    assert forall|j: int| 0 <= j < at implies !tags::tag_at(s, names, false, j) by {
        assert(s[j] == before[j]);
    }
    tags::lemma_find_tag_is(s, names, false, 0, at);
    assert(s.subrange(0, at) =~= before);
}

/// The closing tag of an element is the first one behind its opening tag.
#[verifier::spinoff_prover]
proof fn lemma_element_closes(before: Seq<u8>, name: Seq<u8>, inner: Seq<u8>, behind: Seq<u8>)
    requires
        tag_laws::is_tool_name(name),
        tags::find_tag(inner + tag_laws::plain_tag(name, true), seq![name], true, 0) == Some(
            inner.len() as int,
        ),
    ensures
        ({
            let s = before + stream_laws::element(name, inner) + behind;
            let end = before.len() + tag_laws::plain_tag(name, false).len();
            let c = end + inner.len();
            &&& tags::find_tag(s, seq![name], true, end as int) == Some(c as int)
            &&& tags::tag_end(s, c as int) + 1 == c + tag_laws::plain_tag(name, true).len()
            &&& s.subrange(end as int, c as int) == inner
        }),
{
    let open = tag_laws::plain_tag(name, false);
    let close = tag_laws::plain_tag(name, true);
    let tail = inner + close;
    let s = before + stream_laws::element(name, inner) + behind;
    let head = before + open;
    tag_laws::law_first_tag_stays_first(tail, behind, seq![name], true);
    lemma_first_tag_behind(head, tail + behind, seq![name], true);
    assert(head + (tail + behind) =~= s);
    tag_laws::law_plain_tag(head + inner, name, true, behind, seq![name]);
    assert(head + inner + close + behind =~= s);
    assert(s.subrange(head.len() as int, (head + inner).len() as int) =~= inner);
}

/// An element without a closing tag reaches to the end of the text.
#[verifier::spinoff_prover]
pub proof fn law_unclosed_element_reaches_to_the_end(
    before: Seq<u8>,
    name: Seq<u8>,
    inner: Seq<u8>,
    arguments: Seq<char>,
    names: Seq<Seq<u8>>,
)
    requires
        names.contains(name),
        tag_laws::is_tool_name(name),
        stream_laws::is_plain(before),
        stream_laws::is_plain(inner),
        tool_parser::body_arguments(decode_utf8(inner)) == Some(arguments),
        !tool_parser::inside_fence(
            before + tag_laws::plain_tag(name, false) + inner,
            before.len() as int,
        ),
    ensures
        tool_parser::scan_calls(before + tag_laws::plain_tag(name, false) + inner, names, 0) == (
        Scan { calls: seq![CallModel { name: decode_utf8(name), arguments }], rest: before }),
{
    let open = tag_laws::plain_tag(name, false);
    let s = before + open + inner;
    let at = before.len() as int;
    let end = at + open.len();
    tag_laws::law_plain_tag(before, name, false, inner, names);
    assert forall|j: int| 0 <= j < at implies !tags::tag_at(s, names, false, j) by {
        assert(s[j] == before[j]);
    }
    tags::lemma_find_tag_is(s, names, false, 0, at);
    tags::lemma_find_tag(s, seq![name], true, end);
    if let Some(j) = tags::find_tag(s, seq![name], true, end) {
        assert(s[j] == inner[j - end]);
    }
    assert(s.subrange(end, s.len() as int) =~= inner);
    assert(s.subrange(0, at) =~= before);
}

/// Without tool names nothing is looked for.
pub proof fn law_no_names_no_calls(xml: Seq<char>)
    ensures
        tool_parser::parsed(xml, Seq::empty()) is None,
        tool_parser::is_readable(xml, Seq::empty()),
        tool_parser::ids_used(xml, Seq::empty()) == 0,
{
}

// ---------------------------------------------------------------------------
// Code fences
// ---------------------------------------------------------------------------

/// Whether no byte of a text is a backtick.
pub open spec fn has_no_backtick(s: Seq<u8>) -> bool {
    forall|i: int| 0 <= i < s.len() ==> #[trigger] s[i] != 0x60
}

proof fn lemma_no_fence(s: Seq<u8>, i: int, end: int)
    requires
        0 <= i,
        end <= s.len(),
        forall|k: int| i <= k < end ==> #[trigger] s[k] != 0x60,
    ensures
        tool_parser::fences(s, i, end) == 0,
    decreases end - i,
{
    if i + 3 <= end {
        lemma_no_fence(s, i + 1, end);
    }
}

proof fn lemma_fences_skip(s: Seq<u8>, i: int, j: int, end: int)
    requires
        0 <= i <= j <= end <= s.len(),
        forall|k: int| i <= k < j ==> #[trigger] s[k] != 0x60,
    ensures
        tool_parser::fences(s, i, end) == tool_parser::fences(s, j, end),
    decreases j - i,
{
    if i < j {
        lemma_fences_skip(s, i + 1, j, end);
        if i + 3 > end {
            assert(tool_parser::fences(s, j, end) == 0);
        }
    }
}

/// Three backticks open a code fence, and the next three close it.
#[verifier::spinoff_prover]
pub proof fn law_backticks_open_and_close(a: Seq<u8>, b: Seq<u8>, c: Seq<u8>, at: int)
    requires
        has_no_backtick(a),
        has_no_backtick(b),
        has_no_backtick(c),
    ensures
        ({
            let fence = seq![0x60u8, 0x60u8, 0x60u8];
            let s = a + fence + b + fence + c;
            let x = a.len() as int;
            let y = x + 3 + b.len();
            &&& 0 <= at <= x ==> !tool_parser::inside_fence(s, at)
            &&& x + 3 <= at <= y ==> tool_parser::inside_fence(s, at)
            &&& y + 3 <= at <= s.len() ==> !tool_parser::inside_fence(s, at)
        }),
{
    let fence = seq![0x60u8, 0x60u8, 0x60u8];
    let s = a + fence + b + fence + c;
    let x = a.len() as int;
    let y = x + 3 + b.len();
    assert forall|k: int| 0 <= k < x implies #[trigger] s[k] != 0x60 by {
        assert(s[k] == a[k]);
    }
    assert forall|k: int| x + 3 <= k < y implies #[trigger] s[k] != 0x60 by {
        assert(s[k] == b[k - x - 3]);
    }
    assert forall|k: int| y + 3 <= k < s.len() implies #[trigger] s[k] != 0x60 by {
        assert(s[k] == c[k - y - 3]);
    }
    assert(s[x] == 0x60 && s[x + 1] == 0x60 && s[x + 2] == 0x60);
    assert(s[y] == 0x60 && s[y + 1] == 0x60 && s[y + 2] == 0x60);
    if 0 <= at <= x {
        lemma_no_fence(s, 0, at);
    }
    if x + 3 <= at <= y {
        lemma_fences_skip(s, 0, x, at);
        lemma_no_fence(s, x + 3, at);
    }
    if y + 3 <= at <= s.len() {
        lemma_fences_skip(s, 0, x, at);
        lemma_fences_skip(s, x + 3, y, at);
        lemma_no_fence(s, y + 3, at);
    }
}

// ---------------------------------------------------------------------------
// The names that are looked for
// ---------------------------------------------------------------------------

/// The names of a request are those of its tools that are functions, in order.
pub proof fn law_functions_are_named(list: Seq<Tool>, tool: Tool)
    ensures
        tool_parser::function_names(Seq::empty()).len() == 0,
        tool.function is Some ==> tool_parser::function_names(list.push(tool))
            == tool_parser::function_names(list).push(tool.function->0.name@),
        tool.function is None ==> tool_parser::function_names(list.push(tool))
            == tool_parser::function_names(list),
{
    assert(list.push(tool).drop_last() =~= list);
}

/// A request names the functions of its tools, and nothing where it has none.
pub proof fn law_requests_name_their_functions(req: ChatCompletionsRequest)
    ensures
        match req.tools {
            Some(t) => tool_parser::request_names(req) == tool_parser::function_names(t@),
            None => tool_parser::request_names(req).len() == 0,
        },
{
}

} // verus!
