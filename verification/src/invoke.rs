//! The fallback format of tool calls, `<invoke name="...">` with `<parameter>` elements.
//!
//! Elements are looked for in the lower-case text, so that their case does not matter, and
//! cut out of the text itself at the same byte offsets. Lower-casing can shift offsets: a
//! few characters have a lower-case form of another length. Where an offset then does not
//! fall between two characters of the text, the text cannot be cut there, and the run over
//! the text ends as [`InvokeRun::Misaligned`].

use serde_json::Value;
use vstd::prelude::*;
use vstd::utf8::*;

use crate::call_ids;
use crate::call_ids::CallIds;
use crate::calls;
use crate::calls::{new_call, CallModel};
use crate::json;
use crate::json::{json_from_str, json_map_to_string, json_string};
use crate::text;
use crate::text::{find_bytes, slice, str_eq, str_less};
use crate::types;
use crate::types::ToolCall;

verus! {

// ---------------------------------------------------------------------------
// Members in the order of their keys
// ---------------------------------------------------------------------------

/// The members with one more, in the order of the keys. A member with the same key is
/// replaced.
pub open spec fn with_member(
    members: Seq<(Seq<char>, Seq<char>)>,
    key: Seq<char>,
    value: Seq<char>,
) -> Seq<(Seq<char>, Seq<char>)>
    decreases members.len(),
{
    if members.len() == 0 {
        seq![(key, value)]
    } else if members[0].0 == key {
        seq![(key, value)] + members.skip(1)
    } else if text::text_less(key, members[0].0) {
        seq![(key, value)] + members
    } else {
        seq![members[0]] + with_member(members.skip(1), key, value)
    }
}

/// A key that is behind `low` and whose insertion keeps the rest behind it.
proof fn lemma_with_member_bound(
    members: Seq<(Seq<char>, Seq<char>)>,
    key: Seq<char>,
    value: Seq<char>,
    low: Seq<char>,
)
    requires
        text::text_less(low, key),
        forall|i: int| 0 <= i < members.len() ==> text::text_less(low, #[trigger] members[i].0),
    ensures
        forall|i: int|
            0 <= i < with_member(members, key, value).len() ==> text::text_less(
                low,
                #[trigger] with_member(members, key, value)[i].0,
            ),
    decreases members.len(),
{
    let all = with_member(members, key, value);
    if members.len() > 0 && members[0].0 != key && !text::text_less(key, members[0].0) {
        let rest = members.skip(1);
        assert forall|i: int| 0 <= i < rest.len() implies text::text_less(
            low,
            #[trigger] rest[i].0,
        ) by {
            assert(rest[i] == members[i + 1]);
        }
        lemma_with_member_bound(rest, key, value, low);
        assert forall|i: int| 0 <= i < all.len() implies text::text_less(
            low,
            #[trigger] all[i].0,
        ) by {
            if i > 0 {
                assert(all[i] == with_member(rest, key, value)[i - 1]);
            }
        }
    } else {
        assert forall|i: int| 0 <= i < all.len() implies text::text_less(
            low,
            #[trigger] all[i].0,
        ) by {
            if i > 0 {
                if members.len() > 0 && members[0].0 == key {
                    assert(all[i] == members[i]);
                } else {
                    assert(all[i] == members[i - 1]);
                }
            }
        }
    }
}

/// Inserting keeps the keys in strictly ascending order.
pub proof fn lemma_with_member_ascends(
    members: Seq<(Seq<char>, Seq<char>)>,
    key: Seq<char>,
    value: Seq<char>,
)
    requires
        json::keys_ascend(members),
    ensures
        json::keys_ascend(with_member(members, key, value)),
    decreases members.len(),
{
    let all = with_member(members, key, value);
    if members.len() > 0 {
        let rest = members.skip(1);
        let first = members[0].0;
        assert forall|i: int, j: int|
            #![trigger rest[i], rest[j]]
            0 <= i < j < rest.len() implies text::text_less(rest[i].0, rest[j].0) by {
            assert(rest[i] == members[i + 1] && rest[j] == members[j + 1]);
        }
        assert forall|i: int| 0 <= i < rest.len() implies text::text_less(
            first,
            #[trigger] rest[i].0,
        ) by {
            assert(rest[i] == members[i + 1]);
            assert(members[0] == members[0]);
        }
        if first == key {
            assert forall|i: int, j: int|
                #![trigger all[i], all[j]]
                0 <= i < j < all.len() implies text::text_less(all[i].0, all[j].0) by {
                assert(all[j] == rest[j - 1]);
                if i > 0 {
                    assert(all[i] == rest[i - 1]);
                }
            }
        } else if text::text_less(key, first) {
            assert forall|i: int, j: int|
                #![trigger all[i], all[j]]
                0 <= i < j < all.len() implies text::text_less(all[i].0, all[j].0) by {
                assert(all[j] == members[j - 1]);
                if i > 0 {
                    assert(all[i] == members[i - 1]);
                } else if j > 1 {
                    assert(all[j] == rest[j - 2]);
                    text::lemma_bytes_less_transitive(
                        encode_utf8(key),
                        encode_utf8(first),
                        encode_utf8(all[j].0),
                    );
                }
            }
        } else {
            text::lemma_bytes_less_total(encode_utf8(first), encode_utf8(key));
            if encode_utf8(first) == encode_utf8(key) {
                text::lemma_encode_injective(first, key);
            }
            lemma_with_member_ascends(rest, key, value);
            lemma_with_member_bound(rest, key, value, first);
            let more = with_member(rest, key, value);
            assert forall|i: int, j: int|
                #![trigger all[i], all[j]]
                0 <= i < j < all.len() implies text::text_less(all[i].0, all[j].0) by {
                assert(all[j] == more[j - 1]);
                if i > 0 {
                    assert(all[i] == more[i - 1]);
                }
            }
        }
    }
}

/// Puts a member into a list that is kept in the order of the keys.
fn put_member(entries: &mut Vec<(String, Value)>, key: String, value: Value)
    ensures
        json::member_texts(final(entries)@) == with_member(
            json::member_texts(old(entries)@),
            key@,
            json::json_text(value),
        ),
{
    let ghost m = json::member_texts(entries@);
    let ghost v = json::json_text(value);
    let mut i: usize = 0;
    assert(m.take(0) + with_member(m.skip(0), key@, v) =~= with_member(m, key@, v)) by {
        assert(m.skip(0) =~= m);
    }
    while i < entries.len()
        invariant
            i <= entries@.len(),
            m == json::member_texts(entries@),
            m == json::member_texts(old(entries)@),
            v == json::json_text(value),
            with_member(m, key@, v) == m.take(i as int) + with_member(m.skip(i as int), key@, v),
        decreases entries@.len() - i,
    {
        let ghost rest = m.skip(i as int);
        assert(rest[0] == m[i as int]);
        assert(rest.skip(1) =~= m.skip(i + 1));
        if str_eq(entries[i].0.as_str(), key.as_str()) {
            entries.set(i, (key, value));
            assert(json::member_texts(entries@) =~= m.take(i as int) + (seq![(key@, v)] + rest.skip(
                1,
            )));
            return ;
        }
        if str_less(key.as_str(), entries[i].0.as_str()) {
            entries.insert(i, (key, value));
            assert(json::member_texts(entries@) =~= m.take(i as int) + (seq![(key@, v)] + rest));
            return ;
        }
        assert(m.take(i as int) + (seq![rest[0]] + with_member(rest.skip(1), key@, v)) =~= m.take(
            i + 1,
        ) + with_member(m.skip(i + 1), key@, v));
        i += 1;
    }
    entries.push((key, value));
    assert(json::member_texts(entries@) =~= m.take(i as int) + seq![(key@, v)]);
}

// ---------------------------------------------------------------------------
// Cutting
// ---------------------------------------------------------------------------

/// Whether a text can be cut out between two byte offsets.
pub open spec fn can_cut(s: Seq<u8>, from: int, to: int) -> bool {
    0 <= from <= to && is_char_boundary(s, from) && is_char_boundary(s, to)
}

/// Whether a text can be cut out between two byte offsets.
fn cuts(s: &str, from: usize, to: usize) -> (r: bool)
    ensures
        r == can_cut(encode_utf8(s@), from as int, to as int),
{
    from <= to && s.is_char_boundary(from) && s.is_char_boundary(to)
}

/// The encoding of ASCII text is made of its characters.
proof fn lemma_ascii_bytes(p: Seq<char>)
    requires
        is_ascii_chars(p),
    ensures
        encode_utf8(p).len() == p.len(),
        forall|i: int| 0 <= i < p.len() ==> #[trigger] encode_utf8(p)[i] < 0x80,
{
    is_ascii_chars_encode_utf8(p);
    assert forall|i: int| 0 <= i < p.len() implies #[trigger] encode_utf8(p)[i] < 0x80 by {
        let c = p[i];
        assert('\0' <= c <= '\u{7f}');
        assert(encode_utf8(p)[i] == c as u8);
    }
}

/// Both ends of an ASCII pattern found in a text are character boundaries.
proof fn lemma_found_ascii(h: Seq<u8>, p: Seq<char>, from: int)
    requires
        valid_utf8(h),
        is_ascii_chars(p),
        p.len() > 0,
        0 <= from,
        text::find_from(h, encode_utf8(p), from) is Some,
    ensures
        from <= text::find_from(h, encode_utf8(p), from)->0,
        text::find_from(h, encode_utf8(p), from)->0 + p.len() <= h.len(),
        is_char_boundary(h, text::find_from(h, encode_utf8(p), from)->0),
        is_char_boundary(h, text::find_from(h, encode_utf8(p), from)->0 + p.len()),
{
    let b = encode_utf8(p);
    let i = text::find_from(h, b, from)->0;
    text::lemma_find_from(h, b, from);
    lemma_ascii_bytes(p);
    let cut = h.subrange(i, i + b.len());
    assert(cut[0] == h[i]);
    assert(cut[b.len() - 1] == h[i + b.len() - 1]);
    assert(b[0] < 0x80);
    assert(b[b.len() - 1] < 0x80);
    text::lemma_ascii_boundaries(h, i);
    text::lemma_ascii_boundaries(h, i + b.len() - 1);
}

// ---------------------------------------------------------------------------
// Parameters
// ---------------------------------------------------------------------------

/// The compact text of a parameter's value: what it denotes where it is JSON, and else the
/// text itself as a JSON string.
pub open spec fn parameter_text(value: Seq<char>) -> Seq<char> {
    match json::json_parse(text::trimmed(value)) {
        Some(t) => t,
        None => json::json_quote(value),
    }
}

/// A parameter element.
pub struct ParameterModel {
    /// Its name.
    pub key: Seq<char>,
    /// The compact text of its value.
    pub value: Seq<char>,
    /// Where the element ends.
    pub end: int,
}

/// The parameter element of `b` that starts at `at`, `None` where a part of it is missing.
pub open spec fn parameter_at(b: Seq<u8>, at: int) -> Option<ParameterModel> {
    match text::find_from(b, encode_utf8("name=\""@), at) {
        None => None,
        Some(n) => match text::find_from(b, encode_utf8("\""@), n + 6) {
            None => None,
            Some(q) => match text::find_from(b, encode_utf8(">"@), at) {
                None => None,
                Some(g) => match text::find_from(b, encode_utf8("</parameter>"@), g + 1) {
                    None => None,
                    Some(c) => Some(
                        ParameterModel {
                            key: decode_utf8(b.subrange(n + 6, q)),
                            value: parameter_text(decode_utf8(b.subrange(g + 1, c))),
                            end: c + 12,
                        },
                    ),
                },
            },
        },
    }
}

/// What reading the parameters of an invocation comes to.
pub enum ParameterRun {
    /// An offset of the lower-case text does not fit the text.
    Misaligned,
    /// A part of a parameter element is missing.
    Broken,
    /// The parameters, in the order of their names, as names and compact texts.
    Read(Seq<(Seq<char>, Seq<char>)>),
}

/// A parameter element ends behind its start.
pub proof fn lemma_parameter_end(b: Seq<u8>, at: int)
    requires
        0 <= at,
        parameter_at(b, at) is Some,
    ensures
        at < parameter_at(b, at)->0.end <= b.len(),
{
    reveal_strlit("name=\"");
    reveal_strlit("\"");
    reveal_strlit(">");
    reveal_strlit("</parameter>");
    let g = text::find_from(b, encode_utf8(">"@), at)->0;
    text::lemma_find_from(b, encode_utf8(">"@), at);
    text::lemma_find_from(b, encode_utf8("</parameter>"@), g + 1);
    lemma_ascii_bytes("</parameter>"@);
}

/// Reads the parameters of the invocation `b`, whose lower-case text is `low`, from `pos`
/// on; `members` are the parameters read before.
pub open spec fn read_parameters(
    b: Seq<u8>,
    low: Seq<u8>,
    pos: int,
    members: Seq<(Seq<char>, Seq<char>)>,
) -> ParameterRun
    decreases b.len() - pos,
{
    if pos < 0 || !is_char_boundary(low, pos) {
        ParameterRun::Misaligned
    } else {
        match text::find_from(low, encode_utf8("<parameter "@), pos) {
            None => ParameterRun::Read(members),
            Some(at) => if !is_char_boundary(b, at) {
                ParameterRun::Misaligned
            } else {
                match parameter_at(b, at) {
                    None => ParameterRun::Broken,
                    Some(p) => {
                        proof {
                            text::lemma_find_from(low, encode_utf8("<parameter "@), pos);
                            lemma_parameter_end(b, at);
                        }
                        read_parameters(b, low, p.end, with_member(members, p.key, p.value))
                    },
                }
            },
        }
    }
}

/// The parameters of an invocation.
pub open spec fn parameters_of(b: Seq<u8>) -> ParameterRun {
    read_parameters(b, encode_utf8(text::lowercase(decode_utf8(b))), 0, Seq::empty())
}

/// The value of a parameter.
fn parameter_value(value: &str) -> (r: Value)
    ensures
        json::json_text(r) == parameter_text(value@),
{
    match json_from_str(value.trim()) {
        Ok(v) => v,
        Err(_) => json_string(value),
    }
}

/// The parameter element that starts at `at`: its name, its value and where it ends.
fn read_parameter(body: &str, at: usize) -> (r: Option<(String, Value, usize)>)
    requires
        is_char_boundary(encode_utf8(body@), at as int),
    ensures
        match r {
            Some(p) => parameter_at(encode_utf8(body@), at as int) == Some(
                ParameterModel { key: p.0@, value: json::json_text(p.1), end: p.2 as int },
            ),
            None => parameter_at(encode_utf8(body@), at as int) is None,
        },
{
    let bytes = body.as_bytes();
    let total: usize = bytes.len();
    let ghost b = encode_utf8(body@);
    proof {
        encode_utf8_valid_utf8(body@);
        reveal_strlit("name=\"");
        reveal_strlit("\"");
        reveal_strlit(">");
        reveal_strlit("</parameter>");
    }
    assert(b.len() == total);
    let n: usize = match find_bytes(bytes, "name=\"".as_bytes(), at) {
        Some(i) => i,
        None => {
            return None;
        },
    };
    proof {
        lemma_found_ascii(b, "name=\""@, at as int);
    }
    let q: usize = match find_bytes(bytes, "\"".as_bytes(), n + 6) {
        Some(i) => i,
        None => {
            return None;
        },
    };
    proof {
        lemma_found_ascii(b, "\""@, n + 6);
    }
    let g: usize = match find_bytes(bytes, ">".as_bytes(), at) {
        Some(i) => i,
        None => {
            return None;
        },
    };
    proof {
        lemma_found_ascii(b, ">"@, at as int);
    }
    let c: usize = match find_bytes(bytes, "</parameter>".as_bytes(), g + 1) {
        Some(i) => i,
        None => {
            return None;
        },
    };
    proof {
        lemma_found_ascii(b, "</parameter>"@, g + 1);
    }
    let key = slice(body, n + 6, q).to_owned();
    let value = parameter_value(slice(body, g + 1, c));
    Some((key, value, c + 12))
}

/// What reading the parameters of an invocation comes to.
enum ParameterOutcome {
    Misaligned,
    Broken,
    Read(Vec<(String, Value)>),
}

impl ParameterOutcome {
    /// Whether the outcome is that of a run.
    spec fn is_run(&self, run: ParameterRun) -> bool {
        match self {
            ParameterOutcome::Misaligned => run is Misaligned,
            ParameterOutcome::Broken => run is Broken,
            ParameterOutcome::Read(e) => run == ParameterRun::Read(json::member_texts(e@))
                && json::keys_ascend(json::member_texts(e@)),
        }
    }
}

/// Reads the parameters of an invocation.
fn parse_parameters(body: &str) -> (r: ParameterOutcome)
    ensures
        r.is_run(parameters_of(encode_utf8(body@))),
{
    let ghost b = encode_utf8(body@);
    let low_text = body.to_lowercase();
    let low = low_text.as_str();
    let ghost l = encode_utf8(low@);
    proof {
        encode_utf8_decode_utf8(body@);
        encode_utf8_valid_utf8(body@);
        encode_utf8_valid_utf8(low@);
        is_char_boundary_start_end_of_seq(l);
    }
    let mut entries: Vec<(String, Value)> = Vec::new();
    let mut pos: usize = 0;
    assert(json::member_texts(entries@) =~= Seq::<(Seq<char>, Seq<char>)>::empty());
    loop
        invariant
            b == encode_utf8(body@),
            l == encode_utf8(low@),
            valid_utf8(b),
            valid_utf8(l),
            json::keys_ascend(json::member_texts(entries@)),
            pos <= b.len() + 12,
            parameters_of(b) == read_parameters(b, l, pos as int, json::member_texts(entries@)),
        decreases b.len() + 12 - pos,
    {
        if !low.is_char_boundary(pos) {
            return ParameterOutcome::Misaligned;
        }
        let at: usize = match find_bytes(low.as_bytes(), "<parameter ".as_bytes(), pos) {
            Some(i) => i,
            None => {
                return ParameterOutcome::Read(entries);
            },
        };
        if !body.is_char_boundary(at) {
            return ParameterOutcome::Misaligned;
        }
        match read_parameter(body, at) {
            None => {
                return ParameterOutcome::Broken;
            },
            Some((key, value, end)) => {
                proof {
                    text::lemma_find_from(l, encode_utf8("<parameter "@), pos as int);
                    lemma_parameter_end(b, at as int);
                    lemma_with_member_ascends(
                        json::member_texts(entries@),
                        key@,
                        json::json_text(value),
                    );
                }
                put_member(&mut entries, key, value);
                pos = end;
            },
        }
    }
}

// ---------------------------------------------------------------------------
// Invocations
// ---------------------------------------------------------------------------

/// The head and the extent of an invocation.
pub struct InvokeModel {
    /// The tool name.
    pub name: Seq<char>,
    /// Where the invocation ends.
    pub end: int,
}

/// The invocation of the text `t`, with lower-case text `low`, that starts at `at`, `None`
/// where its name or its end is missing.
pub open spec fn invoke_at(t: Seq<u8>, low: Seq<u8>, at: int) -> Option<InvokeModel> {
    match text::find_from(t, encode_utf8("name=\""@), at) {
        None => None,
        Some(n) => match text::find_from(t, encode_utf8("\""@), n + 6) {
            None => None,
            Some(q) => match text::find_from(low, encode_utf8("</invoke>"@), at) {
                None => None,
                Some(c) => Some(
                    InvokeModel { name: decode_utf8(t.subrange(n + 6, q)), end: c + 9 },
                ),
            },
        },
    }
}

/// What the search for invocations in a text comes to.
pub enum InvokeRun {
    /// An offset of the lower-case text does not fit the text.
    Misaligned,
    /// An invocation is incomplete; so many complete ones stood before it.
    Broken(int),
    /// The calls, and the text without them.
    Done(Seq<CallModel>, Seq<u8>),
}

/// The search for invocations in `t`, with lower-case text `low`, from `cursor` on.
pub open spec fn read_invokes(t: Seq<u8>, low: Seq<u8>, cursor: int) -> InvokeRun
    decreases low.len() - cursor,
{
    if cursor < 0 {
        InvokeRun::Misaligned
    } else {
        match text::find_from(low, encode_utf8("<invoke "@), cursor) {
            None => if can_cut(t, cursor, t.len() as int) {
                InvokeRun::Done(Seq::empty(), t.subrange(cursor, t.len() as int))
            } else {
                InvokeRun::Misaligned
            },
            Some(at) => if !can_cut(t, cursor, at) {
                InvokeRun::Misaligned
            } else {
                match invoke_at(t, low, at) {
                    None => InvokeRun::Broken(0),
                    Some(m) => if !can_cut(t, at, m.end) {
                        InvokeRun::Misaligned
                    } else {
                        match parameters_of(t.subrange(at, m.end)) {
                            ParameterRun::Misaligned => InvokeRun::Misaligned,
                            ParameterRun::Broken => InvokeRun::Broken(0),
                            ParameterRun::Read(members) => {
                                proof {
                                    lemma_invoke_end(t, low, cursor);
                                }
                                before_run(
                                    CallModel {
                                        name: m.name,
                                        arguments: json::object_text(members),
                                    },
                                    t.subrange(cursor, at),
                                    read_invokes(t, low, m.end),
                                )
                            },
                        }
                    },
                }
            },
        }
    }
}

/// The run that first finds a call behind some text and then goes on as `rest`.
pub open spec fn before_run(call: CallModel, head: Seq<u8>, rest: InvokeRun) -> InvokeRun {
    match rest {
        InvokeRun::Misaligned => InvokeRun::Misaligned,
        InvokeRun::Broken(n) => InvokeRun::Broken(n + 1),
        InvokeRun::Done(calls, remaining) => InvokeRun::Done(seq![call] + calls, head + remaining),
    }
}

/// An invocation ends behind the place where it was looked for.
pub proof fn lemma_invoke_end(t: Seq<u8>, low: Seq<u8>, cursor: int)
    requires
        0 <= cursor,
        text::find_from(low, encode_utf8("<invoke "@), cursor) is Some,
        invoke_at(t, low, text::find_from(low, encode_utf8("<invoke "@), cursor)->0) is Some,
    ensures
        cursor <= text::find_from(low, encode_utf8("<invoke "@), cursor)->0,
        cursor < invoke_at(
            t,
            low,
            text::find_from(low, encode_utf8("<invoke "@), cursor)->0,
        )->0.end <= low.len(),
{
    reveal_strlit("</invoke>");
    let at = text::find_from(low, encode_utf8("<invoke "@), cursor)->0;
    text::lemma_find_from(low, encode_utf8("<invoke "@), cursor);
    text::lemma_find_from(low, encode_utf8("</invoke>"@), at);
    lemma_ascii_bytes("</invoke>"@);
}

/// The search for invocations in a text.
pub open spec fn invokes_of(t: Seq<char>) -> InvokeRun {
    read_invokes(encode_utf8(t), encode_utf8(text::lowercase(t)), 0)
}

/// What the search for invocations in a text comes to.
pub enum InvokeOutcome {
    Misaligned,
    Broken,
    Done(Vec<ToolCall>, String),
}

impl InvokeOutcome {
    /// Whether the outcome is that of a run, with identifiers numbered on from `first`.
    pub open spec fn is_run(&self, run: InvokeRun, first: u64) -> bool {
        match self {
            InvokeOutcome::Misaligned => run is Misaligned,
            InvokeOutcome::Broken => run is Broken,
            InvokeOutcome::Done(c, rest) => run is Done && types::call_views(c@)
                == calls::numbered(run->Done_0, first) && encode_utf8(rest@) == run->Done_1,
        }
    }
}

/// How many identifiers a run takes.
pub open spec fn ids_taken(run: InvokeRun) -> int {
    match run {
        InvokeRun::Misaligned => 0,
        InvokeRun::Broken(n) => n,
        InvokeRun::Done(calls, _) => calls.len() as int,
    }
}

/// The run that goes on as `rest` after the calls and the text found so far.
spec fn after_calls(found: Seq<CallModel>, head: Seq<u8>, rest: InvokeRun) -> InvokeRun {
    match rest {
        InvokeRun::Misaligned => InvokeRun::Misaligned,
        InvokeRun::Broken(n) => InvokeRun::Broken(found.len() + n),
        InvokeRun::Done(calls, remaining) => InvokeRun::Done(found + calls, head + remaining),
    }
}

/// Finds the invocations in a text.
#[verifier::rlimit(40)]
pub(crate) fn run_invokes(xml: &str, ids: &mut CallIds) -> (r: InvokeOutcome)
    ensures
        r.is_run(invokes_of(xml@), old(ids).next),
        !(r is Misaligned) ==> final(ids).next == call_ids::number_after(
            old(ids).next,
            ids_taken(invokes_of(xml@)),
        ),
{
    let ghost t = encode_utf8(xml@);
    let ghost first = ids.next;
    let low_text = xml.to_lowercase();
    let low = low_text.as_str();
    let ghost l = encode_utf8(low@);
    let bytes = xml.as_bytes();
    let total: usize = bytes.len();
    let low_total: usize = low.as_bytes().len();
    proof {
        encode_utf8_valid_utf8(xml@);
        encode_utf8_valid_utf8(low@);
        reveal_strlit("name=\"");
        reveal_strlit("\"");
        reveal_strlit("</invoke>");
        call_ids::lemma_number_after(first, 0, 0);
    }
    let mut found: Vec<ToolCall> = Vec::new();
    let mut remaining = String::new();
    let mut cursor: usize = 0;
    let ghost mut models: Seq<CallModel> = Seq::empty();
    proof {
        let run = read_invokes(t, l, 0);
        if run is Done {
            assert(models + run->Done_0 =~= run->Done_0);
            assert(encode_utf8(remaining@) + run->Done_1 =~= run->Done_1);
        }
        assert(types::call_views(found@) =~= calls::numbered(models, first));
    }
    loop
        invariant
            t == encode_utf8(xml@),
            l == encode_utf8(low@),
            low@ == text::lowercase(xml@),
            bytes@ == t,
            total == t.len(),
            low_total == l.len(),
            valid_utf8(t),
            valid_utf8(l),
            is_ascii_chars("name=\""@),
            "name=\""@.len() == 6,
            is_ascii_chars("\""@),
            "\""@.len() == 1,
            is_ascii_chars("</invoke>"@),
            "</invoke>"@.len() == 9,
            cursor <= l.len(),
            first == old(ids).next,
            ids.next == call_ids::number_after(first, models.len() as int),
            types::call_views(found@) == calls::numbered(models, first),
            found@.len() == models.len(),
            invokes_of(xml@) == after_calls(
                models,
                encode_utf8(remaining@),
                read_invokes(t, l, cursor as int),
            ),
        decreases l.len() - cursor,
    {
        let at: usize = match find_bytes(low.as_bytes(), "<invoke ".as_bytes(), cursor) {
            Some(i) => i,
            None => {
                if !cuts(xml, cursor, total) {
                    return InvokeOutcome::Misaligned;
                }
                let tail = slice(xml, cursor, total);
                proof {
                    text::lemma_encode_concat(remaining@, tail@);
                    assert(models + Seq::<CallModel>::empty() =~= models);
                }
                remaining.append(tail);
                return InvokeOutcome::Done(found, remaining);
            },
        };
        if !cuts(xml, cursor, at) {
            return InvokeOutcome::Misaligned;
        }
        let head = slice(xml, cursor, at);
        proof {
            text::lemma_encode_concat(remaining@, head@);
            call_ids::lemma_number_after(first, models.len() as int, 0);
        }
        let n: usize = match find_bytes(bytes, "name=\"".as_bytes(), at) {
            Some(i) => i,
            None => {
                return InvokeOutcome::Broken;
            },
        };
        proof {
            lemma_found_ascii(t, "name=\""@, at as int);
        }
        let q: usize = match find_bytes(bytes, "\"".as_bytes(), n + 6) {
            Some(i) => i,
            None => {
                return InvokeOutcome::Broken;
            },
        };
        proof {
            lemma_found_ascii(t, "\""@, n + 6);
        }
        let name = slice(xml, n + 6, q);
        let c: usize = match find_bytes(low.as_bytes(), "</invoke>".as_bytes(), at) {
            Some(i) => i,
            None => {
                return InvokeOutcome::Broken;
            },
        };
        proof {
            lemma_found_ascii(l, "</invoke>"@, at as int);
            lemma_invoke_end(t, l, cursor as int);
        }
        let end: usize = c + 9;
        if !cuts(xml, at, end) {
            return InvokeOutcome::Misaligned;
        }
        match parse_parameters(slice(xml, at, end)) {
            ParameterOutcome::Misaligned => {
                return InvokeOutcome::Misaligned;
            },
            ParameterOutcome::Broken => {
                return InvokeOutcome::Broken;
            },
            ParameterOutcome::Read(entries) => {
                let ghost members = json::member_texts(entries@);
                let arguments = match json_map_to_string(entries) {
                    Ok(a) => a,
                    Err(_) => "{}".to_owned(),
                };
                let ghost model = CallModel { name: name@, arguments: json::object_text(members) };
                let index: u32 = found.len() as u32;
                let call = new_call(name, arguments, index, ids);
                proof {
                    let before = encode_utf8(remaining@);
                    let cut = encode_utf8(head@);
                    let rest = read_invokes(t, l, end as int);
                    assert(read_invokes(t, l, cursor as int) == before_run(model, cut, rest));
                    if rest is Done {
                        assert(models + (seq![model] + rest->Done_0) =~= models.push(model)
                            + rest->Done_0);
                        assert(before + (cut + rest->Done_1) =~= (before + cut) + rest->Done_1);
                    }
                    assert(calls::numbered(models.push(model), first) =~= calls::numbered(
                        models,
                        first,
                    ).push(call@));
                    assert(types::call_views(found@.push(call)) =~= types::call_views(found@).push(
                        call@,
                    ));
                    call_ids::lemma_number_after(first, models.len() as int, 1);
                    models = models.push(model);
                }
                found.push(call);
                remaining.append(head);
                cursor = end;
            },
        }
    }
}

} // verus!
