//! Tool calls in the text of an answer: `<tool_name>{json}</tool_name>`, with
//! `<invoke name="...">` as a fallback.

use vstd::prelude::*;
use vstd::utf8::*;

use crate::call_ids;
use crate::call_ids::CallIds;
use crate::calls;
use crate::calls::{make_tool_call, CallModel};
use crate::config::ToolCallTagConfig;
use crate::invoke;
use crate::invoke::{run_invokes, InvokeOutcome, InvokeRun};
use crate::json;
use crate::json::{json_empty_object, json_from_str, json_is_object};
use crate::repair;
use crate::repair::repair_json;
use crate::tags;
use crate::tags::find_first_xml_tool_tag;
use crate::text;
use crate::text::{slice, str_eq};
use crate::types;
use crate::types::{ChatCompletionsRequest, Tool, ToolCall};

verus! {

// ---------------------------------------------------------------------------
// The tool names to look for
// ---------------------------------------------------------------------------

/// The tool names that are recognised as tags.
#[derive(Debug)]
pub struct TagConfig {
    /// The names: those of the request's tools, then the additional ones.
    pub tool_names: Vec<String>,
}

impl Clone for TagConfig {
    fn clone(&self) -> (r: Self)
        ensures
            r.tool_names@ == self.tool_names@,
    {
        TagConfig { tool_names: copy_names(self.tool_names.as_slice()) }
    }
}

impl Default for TagConfig {
    fn default() -> (r: Self)
        ensures
            r.tool_names@.len() == 0,
    {
        TagConfig { tool_names: Vec::new() }
    }
}

/// A copy of a list of names.
fn copy_names(names: &[String]) -> (r: Vec<String>)
    ensures
        r@ == names@,
{
    let mut copy: Vec<String> = Vec::new();
    let mut i: usize = 0;
    while i < names.len()
        invariant
            i <= names@.len(),
            copy@ == names@.take(i as int),
        decreases names@.len() - i,
    {
        copy.push(names[i].clone());
        assert(names@.take(i + 1) =~= names@.take(i as int).push(names@[i as int]));
        i += 1;
    }
    assert(names@.take(i as int) =~= names@);
    copy
}

/// The names of the function tools of a list, in order.
pub open spec fn function_names(tools: Seq<Tool>) -> Seq<Seq<char>>
    decreases tools.len(),
{
    if tools.len() == 0 {
        Seq::empty()
    } else {
        let before = function_names(tools.drop_last());
        match tools.last().function {
            Some(f) => before.push(f.name@),
            None => before,
        }
    }
}

/// The names of the function tools of a request, in order.
pub open spec fn request_names(req: ChatCompletionsRequest) -> Seq<Seq<char>> {
    match req.tools {
        Some(tools) => function_names(tools@),
        None => Seq::empty(),
    }
}

/// The names and, behind them, those of `extra` that are not there yet.
pub open spec fn with_extra(names: Seq<Seq<char>>, extra: Seq<Seq<char>>) -> Seq<Seq<char>>
    decreases extra.len(),
{
    if extra.len() == 0 {
        names
    } else {
        let before = with_extra(names, extra.drop_last());
        if before.contains(extra.last()) {
            before
        } else {
            before.push(extra.last())
        }
    }
}

/// The names of the request stay first and in order, every additional name is there, and
/// whatever stands behind the names of the request is an additional name that occurs once.
pub proof fn law_extra_names_follow(names: Seq<Seq<char>>, extra: Seq<Seq<char>>)
    ensures
        names.is_prefix_of(with_extra(names, extra)),
        forall|k: int|
            0 <= k < extra.len() ==> with_extra(names, extra).contains(#[trigger] extra[k]),
        forall|i: int, j: int|
            #![trigger with_extra(names, extra)[i], with_extra(names, extra)[j]]
            names.len() <= i < with_extra(names, extra).len() && 0 <= j < i ==> with_extra(
                names,
                extra,
            )[i] != with_extra(names, extra)[j],
        forall|i: int|
            names.len() <= i < with_extra(names, extra).len() ==> extra.contains(
                #[trigger] with_extra(names, extra)[i],
            ),
    decreases extra.len(),
{
    if extra.len() > 0 {
        let less = extra.drop_last();
        law_extra_names_follow(names, less);
        let before = with_extra(names, less);
        let all = with_extra(names, extra);
        assert forall|k: int| 0 <= k < extra.len() implies all.contains(#[trigger] extra[k]) by {
            if k < less.len() {
                assert(extra[k] == less[k]);
                let i = choose|i: int| 0 <= i < before.len() && before[i] == less[k];
                assert(all[i] == before[i]);
            } else if !before.contains(extra.last()) {
                assert(all[before.len() as int] == extra[k]);
            }
        }
        assert forall|i: int| names.len() <= i < all.len() implies extra.contains(
            #[trigger] all[i],
        ) by {
            if i < before.len() {
                assert(all[i] == before[i]);
                let k = choose|k: int| 0 <= k < less.len() && less[k] == before[i];
                assert(extra[k] == less[k]);
            } else {
                assert(extra[extra.len() - 1] == all[i]);
            }
        }
    }
}

impl TagConfig {
    /// The additional names of a configuration alone.
    pub fn from_config(cfg: &ToolCallTagConfig) -> (r: Self)
        ensures
            r.tool_names@ == cfg.extra_tool_names@,
    {
        TagConfig { tool_names: copy_names(cfg.extra_tool_names.as_slice()) }
    }

    /// The names of the request's function tools and, behind them, the additional names
    /// that are not among them.
    pub fn from_request(req: &ChatCompletionsRequest, extra: &[String]) -> (r: Self)
        ensures
            text::texts(r.tool_names@) == with_extra(request_names(*req), text::texts(extra@)),
    {
        let mut names: Vec<String> = Vec::new();
        if let Some(tools) = &req.tools {
            let mut i: usize = 0;
            assert(tools@.take(0) =~= Seq::<Tool>::empty());
            assert(text::texts(names@) =~= Seq::<Seq<char>>::empty());
            while i < tools.len()
                invariant
                    i <= tools@.len(),
                    text::texts(names@) == function_names(tools@.take(i as int)),
                decreases tools@.len() - i,
            {
                let ghost before = names@;
                assert(tools@.take(i + 1).drop_last() =~= tools@.take(i as int));
                if let Some(f) = &tools[i].function {
                    names.push(f.name.clone());
                    assert(text::texts(names@) =~= text::texts(before).push(f.name@));
                }
                i += 1;
            }
            assert(tools@.take(i as int) =~= tools@);
        }
        assert(text::texts(names@) =~= request_names(*req));
        let ghost base = text::texts(names@);
        let ghost more = text::texts(extra@);
        let mut i: usize = 0;
        assert(more.take(0) =~= Seq::<Seq<char>>::empty());
        while i < extra.len()
            invariant
                i <= extra@.len(),
                more == text::texts(extra@),
                text::texts(names@) == with_extra(base, more.take(i as int)),
            decreases extra@.len() - i,
        {
            let ghost before = names@;
            assert(more.take(i + 1).drop_last() =~= more.take(i as int));
            assert(more.take(i + 1).last() == extra@[i as int]@);
            if !holds_name(&names, extra[i].as_str()) {
                names.push(extra[i].clone());
                assert(text::texts(names@) =~= text::texts(before).push(extra@[i as int]@));
            }
            i += 1;
        }
        assert(more.take(i as int) =~= more);
        TagConfig { tool_names: names }
    }
}

/// Whether a list holds a name.
fn holds_name(names: &Vec<String>, name: &str) -> (r: bool)
    ensures
        r == text::texts(names@).contains(name@),
{
    let mut i: usize = 0;
    while i < names.len()
        invariant
            i <= names@.len(),
            forall|k: int| 0 <= k < i ==> #[trigger] text::texts(names@)[k] != name@,
        decreases names@.len() - i,
    {
        if str_eq(names[i].as_str(), name) {
            assert(text::texts(names@)[i as int] == name@);
            return true;
        }
        i += 1;
    }
    false
}

/// Whether a text holds an opening tag of one of the tools.
pub fn contains_start_tag_with(s: &str, cfg: &TagConfig) -> (r: bool)
    ensures
        r == (tags::find_tag(
            encode_utf8(s@),
            tags::name_list(cfg.tool_names@),
            false,
            0,
        ) is Some),
{
    find_first_xml_tool_tag(s, cfg.tool_names.as_slice(), false, 0).is_some()
}

// ---------------------------------------------------------------------------
// One call
// ---------------------------------------------------------------------------

/// The compact text of the object that a text denotes, if it denotes an object.
pub open spec fn object_of(t: Seq<char>) -> Option<Seq<char>> {
    match json::json_parse(t) {
        Some(v) => if json::is_object_text(v) {
            Some(v)
        } else {
            None
        },
        None => None,
    }
}

/// The arguments that the body of a call denotes: no body stands for no arguments, and a
/// body that is not an object may become one once it is mended.
pub open spec fn body_arguments(body: Seq<char>) -> Option<Seq<char>> {
    let t = text::trimmed(body);
    if t.len() == 0 {
        Some("{}"@)
    } else {
        match object_of(t) {
            Some(v) => Some(v),
            None => match repair::mended_json(t) {
                Some(m) => object_of(m),
                None => None,
            },
        }
    }
}

/// The call of a tool with the body of its element, with index 0.
pub fn parse_tool_call_body(tool_name: &str, body: &str, ids: &mut CallIds) -> (r: Option<ToolCall>)
    ensures
        match r {
            Some(c) => body_arguments(body@) is Some && c@ == calls::made_call(
                CallModel { name: tool_name@, arguments: body_arguments(body@)->0 },
                old(ids).next,
                0,
            ) && final(ids).next == call_ids::number_after(old(ids).next, 1),
            None => body_arguments(body@) is None && final(ids).next == old(ids).next,
        },
{
    let trimmed = body.trim();
    if trimmed.is_empty() {
        return Some(make_tool_call(tool_name, &json_empty_object(), ids));
    }
    if let Ok(value) = json_from_str(trimmed) {
        if json_is_object(&value) {
            return Some(make_tool_call(tool_name, &value, ids));
        }
    }
    if let Some(repaired) = repair_json(trimmed) {
        if let Ok(value) = json_from_str(repaired.as_str()) {
            if json_is_object(&value) {
                return Some(make_tool_call(tool_name, &value, ids));
            }
        }
    }
    None
}

// ---------------------------------------------------------------------------
// Code fences
// ---------------------------------------------------------------------------

/// How many code fences of three backticks stand between `i` and `end`.
pub open spec fn fences(s: Seq<u8>, i: int, end: int) -> nat
    decreases end - i,
{
    if i + 3 > end {
        0
    } else if s[i] == 0x60 && s[i + 1] == 0x60 && s[i + 2] == 0x60 {
        1 + fences(s, i + 3, end)
    } else {
        fences(s, i + 1, end)
    }
}

/// Whether a code fence is open at a position.
pub open spec fn inside_fence(s: Seq<u8>, at: int) -> bool {
    fences(s, 0, at) % 2 == 1
}

/// Whether a code fence is open at a byte offset.
pub fn is_inside_code_fence(xml: &str, tag_pos: usize) -> (r: bool)
    requires
        is_char_boundary(encode_utf8(xml@), tag_pos as int),
        tag_pos <= encode_utf8(xml@).len(),
    ensures
        r == inside_fence(encode_utf8(xml@), tag_pos as int),
{
    let bytes = xml.as_bytes();
    let ghost s = encode_utf8(xml@);
    let mut open = false;
    let mut i: usize = 0;
    while i < tag_pos && tag_pos - i >= 3
        invariant
            i <= tag_pos <= s.len(),
            bytes@ == s,
            inside_fence(s, tag_pos as int) == ((fences(s, i as int, tag_pos as int) + if open {
                1nat
            } else {
                0nat
            }) % 2 == 1),
        decreases tag_pos - i,
    {
        if bytes[i] == 0x60 && bytes[i + 1] == 0x60 && bytes[i + 2] == 0x60 {
            open = !open;
            i += 3;
        } else {
            i += 1;
        }
    }
    open
}

// ---------------------------------------------------------------------------
// All calls of a text
// ---------------------------------------------------------------------------

/// The calls found in a text, and the text without them.
pub struct Scan {
    pub calls: Seq<CallModel>,
    pub rest: Seq<u8>,
}

/// The call of an element, if its body denotes arguments.
pub open spec fn calls_of(name: Seq<u8>, body: Seq<u8>) -> Seq<CallModel> {
    match body_arguments(decode_utf8(body)) {
        Some(arguments) => seq![CallModel { name: decode_utf8(name), arguments }],
        None => Seq::empty(),
    }
}

/// The calls in `s` from `cursor` on. A tag inside a code fence is text. An element without
/// a closing tag reaches to the end of the text.
pub open spec fn scan_calls(s: Seq<u8>, names: Seq<Seq<u8>>, cursor: int) -> Scan
    decreases s.len() - cursor,
{
    match tags::find_tag(s, names, false, cursor) {
        None => Scan { calls: Seq::empty(), rest: s.subrange(cursor, s.len() as int) },
        Some(open) => {
            let end = tags::tag_end(s, open) + 1;
            proof {
                lemma_element_end(s, names, cursor);
            }
            if inside_fence(s, open) {
                let tail = scan_calls(s, names, end);
                Scan { calls: tail.calls, rest: s.subrange(cursor, end) + tail.rest }
            } else {
                let name = tags::tag_name(s, open);
                match tags::find_tag(s, seq![name], true, end) {
                    None => Scan {
                        calls: calls_of(name, s.subrange(end, s.len() as int)),
                        rest: s.subrange(cursor, open),
                    },
                    Some(close) => {
                        let tail = scan_calls(s, names, tags::tag_end(s, close) + 1);
                        Scan {
                            calls: calls_of(name, s.subrange(end, close)) + tail.calls,
                            rest: s.subrange(cursor, open) + tail.rest,
                        }
                    },
                }
            }
        },
    }
}

/// The tags of an element stand behind the place where the element was looked for.
pub proof fn lemma_element_end(s: Seq<u8>, names: Seq<Seq<u8>>, cursor: int)
    requires
        tags::find_tag(s, names, false, cursor) is Some,
    ensures
        ({
            let open = tags::find_tag(s, names, false, cursor)->0;
            let end = tags::tag_end(s, open) + 1;
            &&& cursor <= open < end <= s.len()
            &&& match tags::find_tag(s, seq![tags::tag_name(s, open)], true, end) {
                Some(close) => end <= close < tags::tag_end(s, close) + 1 <= s.len(),
                None => true,
            }
        }),
{
    let open = tags::find_tag(s, names, false, cursor)->0;
    let end = tags::tag_end(s, open) + 1;
    let name = tags::tag_name(s, open);
    tags::lemma_find_tag(s, names, false, cursor);
    tags::lemma_byte_from(s, 0x3e, open + 1);
    tags::lemma_find_tag(s, seq![name], true, end);
    if let Some(close) = tags::find_tag(s, seq![name], true, end) {
        tags::lemma_byte_from(s, 0x3e, close + 1);
    }
}

/// What stands in a text that parses: the calls, and the text without them.
pub open spec fn parsed(xml: Seq<char>, names: Seq<Seq<u8>>) -> Option<Scan> {
    let scan = scan_calls(encode_utf8(xml), names, 0);
    if names.len() == 0 {
        None
    } else if scan.calls.len() > 0 {
        Some(scan)
    } else {
        match invoke::invokes_of(xml) {
            InvokeRun::Done(calls, rest) => if calls.len() > 0 {
                Some(Scan { calls, rest })
            } else {
                None
            },
            _ => None,
        }
    }
}

/// How many identifiers parsing takes.
pub open spec fn ids_used(xml: Seq<char>, names: Seq<Seq<u8>>) -> int {
    let scan = scan_calls(encode_utf8(xml), names, 0);
    if names.len() == 0 {
        0
    } else if scan.calls.len() > 0 {
        scan.calls.len() as int
    } else {
        invoke::ids_taken(invoke::invokes_of(xml))
    }
}

/// Whether a text can be parsed: the fallback format is needed only in texts whose
/// lower-case form has fitting offsets.
pub open spec fn is_readable(xml: Seq<char>, names: Seq<Seq<u8>>) -> bool {
    names.len() == 0 || scan_calls(encode_utf8(xml), names, 0).calls.len() > 0 || !(
    invoke::invokes_of(xml) is Misaligned)
}

/// Finds the elements of the tools in a text.
#[verifier::rlimit(40)]
fn scan_tool_calls(xml: &str, cfg: &TagConfig, ids: &mut CallIds) -> (r: (Vec<ToolCall>, String))
    ensures
        ({
            let scan = scan_calls(encode_utf8(xml@), tags::name_list(cfg.tool_names@), 0);
            &&& types::call_views(r.0@) == calls::numbered(scan.calls, old(ids).next)
            &&& encode_utf8(r.1@) == scan.rest
            &&& final(ids).next == call_ids::number_after(
                old(ids).next,
                scan.calls.len() as int,
            )
        }),
{
    let ghost s = encode_utf8(xml@);
    let ghost names = tags::name_list(cfg.tool_names@);
    let ghost first = ids.next;
    let ghost whole = scan_calls(s, names, 0);
    let total: usize = xml.as_bytes().len();
    let mut found: Vec<ToolCall> = Vec::new();
    let mut remaining = String::new();
    let mut cursor: usize = 0;
    let ghost mut models: Seq<CallModel> = Seq::empty();
    proof {
        encode_utf8_valid_utf8(xml@);
        is_char_boundary_start_end_of_seq(s);
        call_ids::lemma_number_after(first, 0, 0);
        assert(models + whole.calls =~= whole.calls);
        assert(encode_utf8(remaining@) + whole.rest =~= whole.rest);
        assert(types::call_views(found@) =~= calls::numbered(models, first));
    }
    loop
        invariant
            s == encode_utf8(xml@),
            names == tags::name_list(cfg.tool_names@),
            total == s.len(),
            valid_utf8(s),
            is_char_boundary(s, s.len() as int),
            is_char_boundary(s, cursor as int),
            cursor <= total,
            first == old(ids).next,
            whole == scan_calls(s, names, 0),
            whole.calls == models + scan_calls(s, names, cursor as int).calls,
            whole.rest == encode_utf8(remaining@) + scan_calls(s, names, cursor as int).rest,
            ids.next == call_ids::number_after(first, models.len() as int),
            found@.len() == models.len(),
            types::call_views(found@) == calls::numbered(models, first),
        decreases s.len() - cursor,
    {
        let ghost here = scan_calls(s, names, cursor as int);
        let ghost before = encode_utf8(remaining@);
        let open = match find_first_xml_tool_tag(xml, cfg.tool_names.as_slice(), false, cursor) {
            Some(m) => m,
            None => {
                let tail = slice(xml, cursor, total);
                proof {
                    text::lemma_encode_concat(remaining@, tail@);
                    assert(models + here.calls =~= models);
                }
                remaining.append(tail);
                return (found, remaining);
            },
        };
        proof {
            lemma_element_end(s, names, cursor as int);
        }
        if is_inside_code_fence(xml, open.index) {
            let kept = slice(xml, cursor, open.end_index);
            proof {
                text::lemma_encode_concat(remaining@, kept@);
                let tail = scan_calls(s, names, open.end_index as int);
                assert(before + (encode_utf8(kept@) + tail.rest) =~= (before + encode_utf8(kept@))
                    + tail.rest);
            }
            remaining.append(kept);
            cursor = open.end_index;
            continue;
        }
        let head = slice(xml, cursor, open.index);
        proof {
            text::lemma_encode_concat(remaining@, head@);
        }
        remaining.append(head);
        let mut single: Vec<String> = Vec::new();
        single.push(open.name.clone());
        assert(tags::name_list(single@) =~= seq![tags::tag_name(s, open.index as int)]);
        let close = find_first_xml_tool_tag(xml, single.as_slice(), true, open.end_index);
        let stop: usize = match &close {
            Some(m) => m.index,
            None => total,
        };
        let body = slice(xml, open.end_index, stop);
        proof {
            encode_utf8_decode_utf8(body@);
            encode_utf8_decode_utf8(open.name@);
        }
        let ghost one = calls_of(encode_utf8(open.name@), encode_utf8(body@));
        let index: u32 = found.len() as u32;
        if let Some(call) = parse_tool_call_body(open.name.as_str(), body, ids) {
            let call = ToolCall { index, ..call };
            proof {
                let model = one[0];
                assert(calls::numbered(models.push(model), first) =~= calls::numbered(
                    models,
                    first,
                ).push(call@));
                assert(types::call_views(found@.push(call)) =~= types::call_views(found@).push(
                    call@,
                ));
                call_ids::lemma_number_after(first, models.len() as int, 1);
                assert(models + one =~= models.push(model));
            }
            found.push(call);
        } else {
            proof {
                assert(models + one =~= models);
            }
        }
        match close {
            None => {
                proof {
                    assert(here.rest == encode_utf8(head@));
                    assert(here.calls == one);
                }
                return (found, remaining);
            },
            Some(m) => {
                proof {
                    let tail = scan_calls(s, names, m.end_index as int);
                    assert(here.calls == one + tail.calls);
                    assert(models + (one + tail.calls) =~= (models + one) + tail.calls);
                    assert(before + (encode_utf8(head@) + tail.rest) =~= (before + encode_utf8(
                        head@,
                    )) + tail.rest);
                    models = models + one;
                }
                cursor = m.end_index;
            },
        }
    }
}

/// All tool calls of a text, and the text without them; `None` if there is no call. The
/// `<invoke>` format is tried where no element of a tool gives a call.
pub fn parse_tool_calls_with(xml: &str, cfg: &TagConfig, ids: &mut CallIds) -> (r: Option<
    (Vec<ToolCall>, String),
>)
    requires
        is_readable(xml@, tags::name_list(cfg.tool_names@)),
    ensures
        match r {
            Some((found, rest)) => match parsed(xml@, tags::name_list(cfg.tool_names@)) {
                Some(p) => types::call_views(found@) == calls::numbered(p.calls, old(ids).next)
                    && encode_utf8(rest@) == p.rest && found@.len() > 0,
                None => false,
            },
            None => parsed(xml@, tags::name_list(cfg.tool_names@)) is None,
        },
        final(ids).next == call_ids::number_after(
            old(ids).next,
            ids_used(xml@, tags::name_list(cfg.tool_names@)),
        ),
{
    proof {
        call_ids::lemma_number_after(ids.next, 0, 0);
    }
    if cfg.tool_names.len() == 0 {
        return None;
    }
    let ghost names = tags::name_list(cfg.tool_names@);
    let (found, remaining) = scan_tool_calls(xml, cfg, ids);
    assert(found@.len() == types::call_views(found@).len());
    assert(found@.len() == scan_calls(encode_utf8(xml@), names, 0).calls.len());
    if found.len() == 0 {
        match run_invokes(xml, ids) {
            InvokeOutcome::Done(calls, rest) => {
                assert(calls@.len() == types::call_views(calls@).len());
                if calls.len() == 0 {
                    return None;
                }
                return Some((calls, rest));
            },
            _ => {
                return None;
            },
        }
    }
    Some((found, remaining))
}

/// Whether [`parse_tool_calls_with`] can parse a text.
pub fn can_parse_tool_calls(xml: &str, cfg: &TagConfig) -> (r: bool)
    ensures
        r == is_readable(xml@, tags::name_list(cfg.tool_names@)),
{
    if cfg.tool_names.len() == 0 {
        return true;
    }
    let mut scratch = CallIds::new();
    let (found, _remaining) = scan_tool_calls(xml, cfg, &mut scratch);
    assert(found@.len() == types::call_views(found@).len());
    if found.len() > 0 {
        return true;
    }
    match run_invokes(xml, &mut scratch) {
        InvokeOutcome::Misaligned => false,
        _ => true,
    }
}

/// [`parse_tool_calls_with`] on any text: `None`, with no identifier taken, where the text
/// cannot be parsed.
pub fn try_parse_tool_calls_with(xml: &str, cfg: &TagConfig, ids: &mut CallIds) -> (r: Option<
    Option<(Vec<ToolCall>, String)>,
>)
    ensures
        r is Some == is_readable(xml@, tags::name_list(cfg.tool_names@)),
        match r {
            Some(Some((found, rest))) => match parsed(xml@, tags::name_list(cfg.tool_names@)) {
                Some(p) => types::call_views(found@) == calls::numbered(p.calls, old(ids).next)
                    && encode_utf8(rest@) == p.rest && found@.len() > 0,
                None => false,
            },
            Some(None) => parsed(xml@, tags::name_list(cfg.tool_names@)) is None,
            None => true,
        },
        final(ids).next == if r is Some {
            call_ids::number_after(
                old(ids).next,
                ids_used(xml@, tags::name_list(cfg.tool_names@)),
            )
        } else {
            old(ids).next
        },
{
    if can_parse_tool_calls(xml, cfg) {
        Some(parse_tool_calls_with(xml, cfg, ids))
    } else {
        None
    }
}

} // verus!
