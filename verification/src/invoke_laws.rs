//! What holds of calls in the fallback format, `<invoke name="...">`.

use vstd::prelude::*;
use vstd::utf8::*;

use crate::calls::CallModel;
use crate::invoke;
use crate::invoke::{InvokeRun, ParameterRun};
use crate::json;
use crate::tags;
use crate::text;
use crate::tool_parser;

verus! {

// ---------------------------------------------------------------------------
// Texts of invocations
// ---------------------------------------------------------------------------

/// A parameter of an invocation, and the text before it.
pub struct Parameter {
    pub gap: Seq<char>,
    pub key: Seq<char>,
    pub value: Seq<char>,
}

/// An invocation: the text before it, its name, its parameters, and the text behind the
/// last one.
pub struct Invocation {
    pub before: Seq<char>,
    pub name: Seq<char>,
    pub parameters: Seq<Parameter>,
    pub gap: Seq<char>,
}

/// Whether a text does not hold a character.
pub open spec fn lacks(s: Seq<char>, c: char) -> bool {
    forall|i: int| 0 <= i < s.len() ==> #[trigger] s[i] != c
}

/// The text of parameters.
pub open spec fn parameters_text(parameters: Seq<Parameter>) -> Seq<char>
    decreases parameters.len(),
{
    if parameters.len() == 0 {
        Seq::empty()
    } else {
        let p = parameters[0];
        p.gap + ("<parameter name=\""@ + p.key + "\">"@ + p.value + "</parameter>"@)
            + parameters_text(parameters.drop_first())
    }
}

/// The text of an invocation.
pub open spec fn invocation_text(item: Invocation) -> Seq<char> {
    "<invoke name=\""@ + item.name + "\">"@ + parameters_text(item.parameters) + item.gap
        + "</invoke>"@
}

/// The text of a list of invocations, and of the text before, between and behind them.
pub open spec fn text_of(items: Seq<Invocation>, behind: Seq<char>) -> Seq<char>
    decreases items.len(),
{
    if items.len() == 0 {
        behind
    } else {
        items[0].before + invocation_text(items[0]) + text_of(items.drop_first(), behind)
    }
}

/// The text before, between and behind a list of invocations.
pub open spec fn plain_of(items: Seq<Invocation>, behind: Seq<char>) -> Seq<char>
    decreases items.len(),
{
    if items.len() == 0 {
        behind
    } else {
        items[0].before + plain_of(items.drop_first(), behind)
    }
}

/// Whether a parameter is well formed: no markup in its value or before it, and no markup
/// and no quotation mark in its name.
pub open spec fn is_good_parameter(p: Parameter) -> bool {
    lacks(p.gap, '<') && lacks(p.value, '<') && lacks(p.key, '<') && lacks(p.key, '>') && lacks(
        p.key,
        '"',
    )
}

/// Whether an invocation is well formed: no markup outside of its parameters, and no
/// quotation mark in its name.
pub open spec fn is_good(item: Invocation) -> bool {
    &&& lacks(item.before, '<')
    &&& lacks(item.name, '<')
    &&& lacks(item.name, '"')
    &&& lacks(item.gap, '<')
    &&& forall|i: int|
        0 <= i < item.parameters.len() ==> is_good_parameter(#[trigger] item.parameters[i])
}

/// An ASCII byte in lower case.
pub open spec fn lower_byte(b: u8) -> u8 {
    if 0x41 <= b <= 0x5a {
        (b + 32) as u8
    } else {
        b
    }
}

/// Whether every ASCII byte of a text has its place in a lower-case form of it, and no
/// other byte becomes ASCII.
pub open spec fn is_lower_of(low: Seq<u8>, t: Seq<u8>) -> bool {
    &&& low.len() == t.len()
    &&& forall|k: int|
        0 <= k < t.len() ==> (#[trigger] low[k]) == lower_byte(t[k]) || t[k] >= 0x80 && low[k]
            >= 0x80
}

/// Whether lower-casing a text keeps the places of its ASCII characters.
pub open spec fn keeps_places(s: Seq<char>) -> bool {
    is_lower_of(encode_utf8(text::lowercase(s)), encode_utf8(s))
}

/// Lower-casing an ASCII text keeps every character in its place.
pub proof fn law_ascii_keeps_places(s: Seq<char>)
    requires
        is_ascii_chars(s),
    ensures
        keeps_places(s),
{
    let low = text::lowercase(s);
    is_ascii_chars_encode_utf8(s);
    assert forall|k: int| 0 <= k < low.len() implies '\0' <= #[trigger] low[k] <= '\u{7f}' by {
        assert('\0' <= s[k] <= '\u{7f}');
        assert(low[k] == text::ascii_lower(s[k]));
    }
    assert(is_ascii_chars(low));
    is_ascii_chars_encode_utf8(low);
    assert forall|k: int| 0 <= k < s.len() implies #[trigger] encode_utf8(low)[k] == lower_byte(
        encode_utf8(s)[k],
    ) by {
        assert(low[k] == text::ascii_lower(s[k]));
        assert(encode_utf8(low)[k] == low[k] as u8);
        assert(encode_utf8(s)[k] == s[k] as u8);
        assert('\0' <= s[k] <= '\u{7f}');
    }
}

/// The compact text of a parameter's value: that of the value which it denotes where it is
/// JSON, and else that of the text as a JSON string.
pub open spec fn is_value_of(text: Seq<char>, value: Seq<char>) -> bool {
    match json::json_parse(text::trimmed(value)) {
        Some(t) => text == t,
        None => text == json::json_quote(value),
    }
}

/// Whether members are the parameters of an invocation: each key stands once, in the order
/// of the keys, and of several parameters with one key the last one counts.
pub open spec fn holds_parameters(
    members: Seq<(Seq<char>, Seq<char>)>,
    parameters: Seq<Parameter>,
) -> bool {
    &&& json::keys_ascend(members)
    &&& forall|m: int|
        0 <= m < members.len() ==> #[trigger] stems_from(members[m], parameters)
    &&& forall|i: int|
        0 <= i < parameters.len() ==> #[trigger] has_key(members, parameters[i].key)
}

/// Whether a member is one of the parameters, and no later one with its key follows.
pub open spec fn stems_from(member: (Seq<char>, Seq<char>), parameters: Seq<Parameter>) -> bool {
    exists|i: int| is_last_of(member, parameters, i)
}

/// Whether a key stands in a list of members.
pub open spec fn has_key(members: Seq<(Seq<char>, Seq<char>)>, key: Seq<char>) -> bool {
    exists|m: int| 0 <= m < members.len() && (#[trigger] members[m]).0 == key
}

/// Whether a member is a parameter that no later one with its key follows.
pub open spec fn is_last_of(
    member: (Seq<char>, Seq<char>),
    parameters: Seq<Parameter>,
    i: int,
) -> bool {
    &&& 0 <= i < parameters.len()
    &&& parameters[i].key == member.0
    &&& is_value_of(member.1, parameters[i].value)
    &&& forall|j: int| i < j < parameters.len() ==> (#[trigger] parameters[j]).key != member.0
}

// ---------------------------------------------------------------------------
// Bytes
// ---------------------------------------------------------------------------

/// The encoding of a text without an ASCII character does not hold its byte.
proof fn lemma_lacks_byte(s: Seq<char>, c: char)
    requires
        lacks(s, c),
        c <= '\u{7f}',
    ensures
        forall|i: int| 0 <= i < encode_utf8(s).len() ==> #[trigger] encode_utf8(s)[i] != c as u8,
{
    let b = encode_utf8(s);
    encode_utf8_valid_utf8(s);
    encode_utf8_decode_utf8(s);
    assert forall|i: int| 0 <= i < b.len() implies #[trigger] b[i] != c as u8 by {
        if b[i] == c as u8 {
            text::lemma_ascii_boundaries(b, i);
            valid_utf8_split(b, i);
            decode_utf8_split(b, i);
            let tail = b.subrange(i, b.len() as int);
            assert(tail[0] == b[i]);
            text::lemma_ascii_boundaries(tail, 0);
            decode_utf8_split(tail, 1);
            let one = seq![c];
            assert(is_ascii_chars(one));
            is_ascii_chars_encode_utf8(one);
            assert(tail.subrange(0, 1) =~= encode_utf8(one));
            encode_utf8_decode_utf8(one);
            let at = decode_utf8(b.subrange(0, i)).len() as int;
            assert(s[at] == c);
        }
    }
}

/// The bytes of the fixed texts.
proof fn lemma_literals()
    ensures
        encode_utf8("<invoke name=\""@) == seq![
            0x3cu8,
            0x69u8,
            0x6eu8,
            0x76u8,
            0x6fu8,
            0x6bu8,
            0x65u8,
            0x20u8,
            0x6eu8,
            0x61u8,
            0x6du8,
            0x65u8,
            0x3du8,
            0x22u8,
        ],
        encode_utf8("<invoke "@) == encode_utf8("<invoke name=\""@).take(8),
        encode_utf8("name=\""@) == encode_utf8("<invoke name=\""@).skip(8),
        encode_utf8("\""@) == seq![0x22u8],
        encode_utf8(">"@) == seq![0x3eu8],
        encode_utf8("\">"@) == seq![0x22u8, 0x3eu8],
        encode_utf8("</invoke>"@) == seq![
            0x3cu8,
            0x2fu8,
            0x69u8,
            0x6eu8,
            0x76u8,
            0x6fu8,
            0x6bu8,
            0x65u8,
            0x3eu8,
        ],
        encode_utf8("<parameter name=\""@) == seq![
            0x3cu8,
            0x70u8,
            0x61u8,
            0x72u8,
            0x61u8,
            0x6du8,
            0x65u8,
            0x74u8,
            0x65u8,
            0x72u8,
            0x20u8,
            0x6eu8,
            0x61u8,
            0x6du8,
            0x65u8,
            0x3du8,
            0x22u8,
        ],
        encode_utf8("<parameter "@) == encode_utf8("<parameter name=\""@).take(11),
        encode_utf8("</parameter>"@) == seq![
            0x3cu8,
            0x2fu8,
            0x70u8,
            0x61u8,
            0x72u8,
            0x61u8,
            0x6du8,
            0x65u8,
            0x74u8,
            0x65u8,
            0x72u8,
            0x3eu8,
        ],
{
    reveal_strlit("<invoke name=\"");
    reveal_strlit("<invoke ");
    reveal_strlit("name=\"");
    reveal_strlit("\"");
    reveal_strlit(">");
    reveal_strlit("\">");
    reveal_strlit("</invoke>");
    reveal_strlit("<parameter name=\"");
    reveal_strlit("<parameter ");
    reveal_strlit("</parameter>");
    is_ascii_chars_encode_utf8("<invoke name=\""@);
    is_ascii_chars_encode_utf8("<invoke "@);
    is_ascii_chars_encode_utf8("name=\""@);
    is_ascii_chars_encode_utf8("\""@);
    is_ascii_chars_encode_utf8(">"@);
    is_ascii_chars_encode_utf8("\">"@);
    is_ascii_chars_encode_utf8("</invoke>"@);
    is_ascii_chars_encode_utf8("<parameter name=\""@);
    is_ascii_chars_encode_utf8("<parameter "@);
    is_ascii_chars_encode_utf8("</parameter>"@);
}

/// Where a pattern is found.
proof fn lemma_found(h: Seq<u8>, p: Seq<u8>, from: int, at: int)
    requires
        0 <= from <= at,
        at + p.len() <= h.len(),
        h.subrange(at, at + p.len()) == p,
        p.len() > 0,
        forall|j: int|
            from <= j < at ==> #[trigger] h[j] != p[0] || p.len() > 2 && (h[j + 1] != p[1] || h[j
                + 2] != p[2]),
    ensures
        text::find_from(h, p, from) == Some(at),
{
    text::lemma_find_from(h, p, from);
    assert(text::occurs_at(h, p, at));
    assert forall|j: int| from <= j < at implies !text::occurs_at(h, p, j) by {
        if text::occurs_at(h, p, j) {
            let cut = h.subrange(j, j + p.len());
            assert(cut[0] == h[j]);
            if p.len() > 2 {
                assert(cut[1] == h[j + 1] && cut[2] == h[j + 2]);
            }
        }
    }
}

/// Where no pattern is found.
proof fn lemma_not_found(h: Seq<u8>, p: Seq<u8>, from: int)
    requires
        0 <= from,
        p.len() > 2,
        forall|j: int|
            from <= j && j + 2 < h.len() ==> #[trigger] h[j] != p[0] || h[j + 1] != p[1] || h[j + 2]
                != p[2],
    ensures
        text::find_from(h, p, from) is None,
{
    text::lemma_find_from(h, p, from);
    if let Some(j) = text::find_from(h, p, from) {
        let cut = h.subrange(j, j + p.len());
        assert(cut[0] == h[j]);
        assert(cut[1] == h[j + 1] && cut[2] == h[j + 2]);
    }
}

/// The encoding of the text of a parameter.
spec fn parameter_bytes(p: Parameter) -> Seq<u8> {
    encode_utf8("<parameter name=\""@) + encode_utf8(p.key) + encode_utf8("\">"@) + encode_utf8(
        p.value,
    ) + encode_utf8("</parameter>"@)
}

/// The encoding of the text of parameters.
spec fn parameters_bytes(parameters: Seq<Parameter>) -> Seq<u8>
    decreases parameters.len(),
{
    if parameters.len() == 0 {
        Seq::empty()
    } else {
        encode_utf8(parameters[0].gap) + parameter_bytes(parameters[0]) + parameters_bytes(
            parameters.drop_first(),
        )
    }
}

proof fn lemma_parameters_bytes(parameters: Seq<Parameter>)
    ensures
        encode_utf8(parameters_text(parameters)) == parameters_bytes(parameters),
    decreases parameters.len(),
{
    if parameters.len() == 0 {
        assert(encode_utf8(parameters_text(parameters)) =~= Seq::<u8>::empty());
    } else {
        let p = parameters[0];
        let rest = parameters.drop_first();
        lemma_parameters_bytes(rest);
        let a = "<parameter name=\""@;
        let b = "\">"@;
        let c = "</parameter>"@;
        text::lemma_encode_concat(a, p.key);
        text::lemma_encode_concat(a + p.key, b);
        text::lemma_encode_concat(a + p.key + b, p.value);
        text::lemma_encode_concat(a + p.key + b + p.value, c);
        text::lemma_encode_concat(p.gap, a + p.key + b + p.value + c);
        text::lemma_encode_concat(
            p.gap + (a + p.key + b + p.value + c),
            parameters_text(rest),
        );
    }
}

/// The encoding of the text of an invocation.
spec fn invocation_bytes(item: Invocation) -> Seq<u8> {
    encode_utf8("<invoke name=\""@) + encode_utf8(item.name) + encode_utf8("\">"@)
        + parameters_bytes(item.parameters) + encode_utf8(item.gap) + encode_utf8("</invoke>"@)
}

proof fn lemma_invocation_bytes(item: Invocation)
    ensures
        encode_utf8(invocation_text(item)) == invocation_bytes(item),
{
    let a = "<invoke name=\""@;
    let b = "\">"@;
    let c = parameters_text(item.parameters);
    lemma_parameters_bytes(item.parameters);
    text::lemma_encode_concat(a, item.name);
    text::lemma_encode_concat(a + item.name, b);
    text::lemma_encode_concat(a + item.name + b, c);
    text::lemma_encode_concat(a + item.name + b + c, item.gap);
    text::lemma_encode_concat(a + item.name + b + c + item.gap, "</invoke>"@);
}

/// A byte other than `<` does not become `<` in lower case, and `<` stays.
proof fn lemma_lower_marks(low: Seq<u8>, t: Seq<u8>, k: int)
    requires
        is_lower_of(low, t),
        0 <= k < t.len(),
    ensures
        (low[k] == 0x3c) == (t[k] == 0x3c),
        t[k] < 0x80 ==> low[k] < 0x80,
        t[k] < 0x41 || 0x61 <= t[k] < 0x80 ==> low[k] == t[k],
{
}

// ---------------------------------------------------------------------------
// Parameters
// ---------------------------------------------------------------------------

/// A parameter is read where it stands.
#[verifier::spinoff_prover]
proof fn lemma_parameter_at(x: Seq<u8>, p: Parameter, y: Seq<u8>)
    requires
        is_good_parameter(p),
    ensures
        ({
            let b = x + parameter_bytes(p) + y;
            let at = x.len() as int;
            &&& invoke::parameter_at(b, at) is Some
            &&& invoke::parameter_at(b, at)->0.key == p.key
            &&& is_value_of(invoke::parameter_at(b, at)->0.value, p.value)
            &&& invoke::parameter_at(b, at)->0.end == at + parameter_bytes(p).len()
        }),
{
    lemma_literals();
    let b = x + parameter_bytes(p) + y;
    let at = x.len() as int;
    let key = encode_utf8(p.key);
    let value = encode_utf8(p.value);
    let n = at + 11;
    let q = at + 17 + key.len();
    let g = q + 1;
    let c = g + 1 + value.len();
    let open = encode_utf8("<parameter name=\""@);
    lemma_lacks_byte(p.key, '"');
    lemma_lacks_byte(p.key, '>');
    lemma_lacks_byte(p.value, '<');
    assert forall|k: int| 0 <= k < 17 implies b[at + k] == open[k] by {}
    assert forall|k: int| 0 <= k < key.len() implies b[at + 17 + k] == #[trigger] key[k] by {}
    assert forall|k: int| 0 <= k < value.len() implies b[g + 1 + k] == #[trigger] value[k] by {}
    assert(b[q] == 0x22 && b[g] == 0x3e);
    assert(b.subrange(n, n + 6) =~= encode_utf8("name=\""@));
    assert forall|j: int| at <= j < n implies #[trigger] b[j] != 0x6e by {
        assert(b[j] == open[j - at]);
    }
    lemma_found(b, encode_utf8("name=\""@), at, n);
    assert(b.subrange(q, q + 1) =~= encode_utf8("\""@));
    assert forall|j: int| n + 6 <= j < q implies #[trigger] b[j] != 0x22 by {
        assert(b[j] == key[j - at - 17]);
    }
    lemma_found(b, encode_utf8("\""@), n + 6, q);
    assert(b.subrange(g, g + 1) =~= encode_utf8(">"@));
    assert forall|j: int| at <= j < g implies #[trigger] b[j] != 0x3e by {
        if j < at + 17 {
            assert(b[j] == open[j - at]);
        } else if j < q {
            assert(b[j] == key[j - at - 17]);
        }
    }
    lemma_found(b, encode_utf8(">"@), at, g);
    assert(b.subrange(c, c + 12) =~= encode_utf8("</parameter>"@));
    assert forall|j: int| g + 1 <= j < c implies #[trigger] b[j] != 0x3c by {
        assert(b[j] == value[j - g - 1]);
    }
    lemma_found(b, encode_utf8("</parameter>"@), g + 1, c);
    assert(b.subrange(n + 6, q) =~= key);
    assert(b.subrange(g + 1, c) =~= value);
    encode_utf8_decode_utf8(p.key);
    encode_utf8_decode_utf8(p.value);
}

/// What a member list holds once a member was put in.
proof fn lemma_with_member_entries(
    members: Seq<(Seq<char>, Seq<char>)>,
    key: Seq<char>,
    value: Seq<char>,
)
    requires
        json::keys_ascend(members),
    ensures
        ({
            let all = invoke::with_member(members, key, value);
            &&& forall|m: int|
                0 <= m < all.len() ==> #[trigger] all[m] == (key, value) || all[m].0 != key
                    && members.contains(all[m])
            &&& all.contains((key, value))
            &&& forall|m: int|
                0 <= m < members.len() && (#[trigger] members[m]).0 != key ==> all.contains(
                    members[m],
                )
        }),
    decreases members.len(),
{
    let all = invoke::with_member(members, key, value);
    if members.len() == 0 {
        assert(all[0] == (key, value));
    } else {
        let rest = members.skip(1);
        assert forall|i: int, j: int|
            #![trigger rest[i], rest[j]]
            0 <= i < j < rest.len() implies text::text_less(rest[i].0, rest[j].0) by {
            assert(rest[i] == members[i + 1] && rest[j] == members[j + 1]);
        }
        assert forall|j: int| 0 < j < members.len() implies text::text_less(
            members[0].0,
            #[trigger] members[j].0,
        ) by {}
        if members[0].0 == key {
            assert(all[0] == (key, value));
            assert forall|m: int| 0 <= m < all.len() implies #[trigger] all[m] == (key, value)
                || all[m].0 != key && members.contains(all[m]) by {
                if m > 0 {
                    assert(all[m] == members[m]);
                    text::lemma_bytes_less_total(encode_utf8(members[0].0), encode_utf8(members[m].0));
                }
            }
            assert forall|m: int|
                0 <= m < members.len() && (#[trigger] members[m]).0 != key implies all.contains(
                members[m],
            ) by {
                assert(all[m] == members[m]);
            }
        } else if text::text_less(key, members[0].0) {
            assert(all[0] == (key, value));
            assert forall|m: int| 0 <= m < all.len() implies #[trigger] all[m] == (key, value)
                || all[m].0 != key && members.contains(all[m]) by {
                if m > 0 {
                    assert(all[m] == members[m - 1]);
                    if m > 1 {
                        text::lemma_bytes_less_transitive(
                            encode_utf8(key),
                            encode_utf8(members[0].0),
                            encode_utf8(members[m - 1].0),
                        );
                    }
                    text::lemma_bytes_less_total(encode_utf8(key), encode_utf8(members[m - 1].0));
                }
            }
            assert forall|m: int|
                0 <= m < members.len() && (#[trigger] members[m]).0 != key implies all.contains(
                members[m],
            ) by {
                assert(all[m + 1] == members[m]);
            }
        } else {
            lemma_with_member_entries(rest, key, value);
            let more = invoke::with_member(rest, key, value);
            assert forall|m: int| 0 <= m < all.len() implies #[trigger] all[m] == (key, value)
                || all[m].0 != key && members.contains(all[m]) by {
                if m == 0 {
                    assert(all[0] == members[0]);
                } else {
                    assert(all[m] == more[m - 1]);
                    if all[m] != (key, value) {
                        let i = choose|i: int| 0 <= i < rest.len() && rest[i] == more[m - 1];
                        assert(members[i + 1] == rest[i]);
                    }
                }
            }
            let at = choose|i: int| 0 <= i < more.len() && more[i] == (key, value);
            assert(all[at + 1] == more[at]);
            assert forall|m: int|
                0 <= m < members.len() && (#[trigger] members[m]).0 != key implies all.contains(
                members[m],
            ) by {
                if m == 0 {
                    assert(all[0] == members[0]);
                } else {
                    assert(rest[m - 1] == members[m]);
                    let i = choose|i: int| 0 <= i < more.len() && more[i] == rest[m - 1];
                    assert(all[i + 1] == more[i]);
                }
            }
        }
    }
}

/// One more parameter makes one more member.
proof fn lemma_holds_more(
    members: Seq<(Seq<char>, Seq<char>)>,
    parameters: Seq<Parameter>,
    p: Parameter,
    value: Seq<char>,
)
    requires
        holds_parameters(members, parameters),
        is_value_of(value, p.value),
    ensures
        holds_parameters(invoke::with_member(members, p.key, value), parameters.push(p)),
{
    let all = invoke::with_member(members, p.key, value);
    let more = parameters.push(p);
    lemma_with_member_entries(members, p.key, value);
    invoke::lemma_with_member_ascends(members, p.key, value);
    assert forall|m: int| 0 <= m < all.len() implies #[trigger] stems_from(all[m], more) by {
        if all[m] == (p.key, value) {
            assert(is_last_of(all[m], more, parameters.len() as int));
        } else {
            let k = choose|k: int| 0 <= k < members.len() && members[k] == all[m];
            assert(stems_from(members[k], parameters));
            let i = choose|i: int| is_last_of(members[k], parameters, i);
            assert(more[i] == parameters[i]);
            assert forall|j: int| i < j < more.len() implies (#[trigger] more[j]).key
                != all[m].0 by {
                if j < parameters.len() {
                    assert(more[j] == parameters[j]);
                }
            }
            assert(is_last_of(all[m], more, i));
        }
    }
    assert forall|i: int| 0 <= i < more.len() implies #[trigger] has_key(all, more[i].key) by {
        if more[i].key == p.key {
            let m = choose|m: int| 0 <= m < all.len() && all[m] == (p.key, value);
            assert(all[m].0 == more[i].key);
        } else {
            assert(more[i] == parameters[i]);
            assert(has_key(members, parameters[i].key));
            let k = choose|k: int|
                0 <= k < members.len() && (#[trigger] members[k]).0 == parameters[i].key;
            assert(all.contains(members[k]));
            let m = choose|m: int| 0 <= m < all.len() && all[m] == members[k];
            assert(all[m].0 == more[i].key);
        }
    }
}

/// Behind the last parameter no other is found.
#[verifier::spinoff_prover]
proof fn lemma_no_parameter(x: Seq<u8>, gap: Seq<u8>, low: Seq<u8>)
    requires
        forall|i: int| 0 <= i < gap.len() ==> #[trigger] gap[i] != 0x3c,
        is_lower_of(low, x + gap + encode_utf8("</invoke>"@)),
    ensures
        text::find_from(low, encode_utf8("<parameter "@), x.len() as int) is None,
{
    lemma_literals();
    let close = encode_utf8("</invoke>"@);
    let b = x + gap + close;
    let pos = x.len() as int;
    let c = pos + gap.len();
    assert forall|j: int| pos <= j && j + 2 < low.len() implies #[trigger] low[j] != 0x3c || low[j
        + 1] != 0x70 || low[j + 2] != 0x61 by {
        lemma_lower_marks(low, b, j);
        if j < c {
            assert(b[j] == gap[j - pos]);
        } else if j == c {
            lemma_lower_marks(low, b, j + 1);
            assert(b[j + 1] == close[1]);
        } else {
            assert(b[j] == close[j - c]);
        }
    }
    lemma_not_found(low, encode_utf8("<parameter "@), pos);
}

/// The next parameter is found behind the text before it.
#[verifier::spinoff_prover]
proof fn lemma_next_parameter(x: Seq<u8>, p: Parameter, y: Seq<u8>, low: Seq<u8>)
    requires
        is_good_parameter(p),
        is_lower_of(low, x + encode_utf8(p.gap) + parameter_bytes(p) + y),
        valid_utf8(x + encode_utf8(p.gap) + parameter_bytes(p) + y),
    ensures
        ({
            let at = (x + encode_utf8(p.gap)).len() as int;
            &&& text::find_from(low, encode_utf8("<parameter "@), x.len() as int) == Some(at)
            &&& is_char_boundary(x + encode_utf8(p.gap) + parameter_bytes(p) + y, at)
        }),
{
    lemma_literals();
    let g = encode_utf8(p.gap);
    let one = parameter_bytes(p);
    let b = x + g + one + y;
    let pos = x.len() as int;
    let at = pos + g.len();
    let pattern = encode_utf8("<parameter "@);
    let open = encode_utf8("<parameter name=\""@);
    lemma_lacks_byte(p.gap, '<');
    assert forall|k: int| 0 <= k < 11 implies #[trigger] low[at + k] == open[k] by {
        assert(one[k] == open[k]);
        assert(b[at + k] == one[k]);
        lemma_lower_marks(low, b, at + k);
    }
    assert(low.subrange(at, at + 11) =~= pattern);
    assert forall|j: int| pos <= j < at implies #[trigger] low[j] != 0x3c by {
        lemma_lower_marks(low, b, j);
        assert(b[j] == g[j - pos]);
    }
    lemma_found(low, pattern, pos, at);
    assert(one[0] == open[0]);
    assert(b[at] == one[0]);
    text::lemma_ascii_boundaries(b, at);
}

/// A place behind a `>` is a character boundary in lower case too.
proof fn lemma_behind_mark(x: Seq<u8>, y: Seq<u8>, low: Seq<u8>)
    requires
        x.len() == 0 || x.last() == 0x3e,
        is_lower_of(low, x + y),
        valid_utf8(low),
    ensures
        is_char_boundary(low, x.len() as int),
{
    let b = x + y;
    let pos = x.len() as int;
    if pos == 0 {
        is_char_boundary_start_end_of_seq(low);
    } else {
        assert(b[pos - 1] == x.last());
        lemma_lower_marks(low, b, pos - 1);
        text::lemma_ascii_boundaries(low, pos - 1);
    }
}

/// Reading on from the parameters that were read comes to all parameters.
#[verifier::spinoff_prover]
#[verifier::rlimit(40)]
proof fn lemma_read_parameters(
    x: Seq<u8>,
    parameters: Seq<Parameter>,
    gap: Seq<u8>,
    low: Seq<u8>,
    done: Seq<Parameter>,
    members: Seq<(Seq<char>, Seq<char>)>,
)
    requires
        x.len() == 0 || x.last() == 0x3e,
        forall|i: int| 0 <= i < parameters.len() ==> is_good_parameter(#[trigger] parameters[i]),
        forall|i: int| 0 <= i < gap.len() ==> #[trigger] gap[i] != 0x3c,
        is_lower_of(low, x + parameters_bytes(parameters) + gap + encode_utf8("</invoke>"@)),
        valid_utf8(low),
        valid_utf8(x + parameters_bytes(parameters) + gap + encode_utf8("</invoke>"@)),
        holds_parameters(members, done),
    ensures
        ({
            let b = x + parameters_bytes(parameters) + gap + encode_utf8("</invoke>"@);
            let run = invoke::read_parameters(b, low, x.len() as int, members);
            run is Read && holds_parameters(run->Read_0, done + parameters)
        }),
    decreases parameters.len(),
{
    lemma_literals();
    let close = encode_utf8("</invoke>"@);
    let b = x + parameters_bytes(parameters) + gap + close;
    assert(b =~= x + (parameters_bytes(parameters) + gap + close));
    lemma_behind_mark(x, parameters_bytes(parameters) + gap + close, low);
    if parameters.len() == 0 {
        assert(b =~= x + gap + close);
        lemma_no_parameter(x, gap, low);
        assert(done + parameters =~= done);
    } else {
        let p = parameters[0];
        let rest = parameters.drop_first();
        let g = encode_utf8(p.gap);
        let one = parameter_bytes(p);
        let tail = parameters_bytes(rest) + gap + close;
        let head = x + g;
        let at = head.len() as int;
        assert(is_good_parameter(p));
        assert(b =~= head + one + tail);
        lemma_next_parameter(x, p, tail, low);
        lemma_parameter_at(head, p, tail);
        let found = invoke::parameter_at(b, at)->0;
        lemma_holds_more(members, done, p, found.value);
        let next = head + one;
        assert(next + parameters_bytes(rest) + gap + close =~= b);
        assert(one.last() == 0x3e);
        assert(next.last() == one.last());
        assert forall|i: int| 0 <= i < rest.len() implies is_good_parameter(#[trigger] rest[i]) by {
            assert(rest[i] == parameters[i + 1]);
        }
        let more = invoke::with_member(members, found.key, found.value);
        lemma_read_parameters(next, rest, gap, low, done.push(p), more);
        assert(done.push(p) + rest =~= done + parameters);
        assert(found.end == next.len());
        assert(invoke::read_parameters(b, low, x.len() as int, members)
            == invoke::read_parameters(b, low, next.len() as int, more));
    }
}

// ---------------------------------------------------------------------------
// Invocations
// ---------------------------------------------------------------------------

/// Whether no closing tag of an invocation starts in a text, whatever follows.
spec fn closes_nothing(x: Seq<u8>) -> bool {
    forall|j: int|
        0 <= j < x.len() && #[trigger] x[j] == 0x3c ==> j + 2 < x.len() && (x[j + 1] != 0x2f || x[j
            + 2] != 0x69 && x[j + 2] != 0x49)
}

proof fn lemma_closes_nothing_pair(x: Seq<u8>, y: Seq<u8>)
    requires
        closes_nothing(x),
        closes_nothing(y),
    ensures
        closes_nothing(x + y),
{
    let s = x + y;
    assert forall|j: int| 0 <= j < s.len() && #[trigger] s[j] == 0x3c implies j + 2 < s.len() && (
    s[j + 1] != 0x2f || s[j + 2] != 0x69 && s[j + 2] != 0x49) by {
        if j < x.len() {
            assert(x[j] == 0x3c);
        } else {
            assert(y[j - x.len()] == 0x3c);
            assert(s[j + 1] == y[j + 1 - x.len()]);
            assert(s[j + 2] == y[j + 2 - x.len()]);
        }
    }
}

proof fn lemma_parameters_close_nothing(parameters: Seq<Parameter>)
    requires
        forall|i: int| 0 <= i < parameters.len() ==> is_good_parameter(#[trigger] parameters[i]),
    ensures
        closes_nothing(parameters_bytes(parameters)),
    decreases parameters.len(),
{
    if parameters.len() > 0 {
        let p = parameters[0];
        let rest = parameters.drop_first();
        assert(is_good_parameter(p));
        assert forall|i: int| 0 <= i < rest.len() implies is_good_parameter(#[trigger] rest[i]) by {
            assert(rest[i] == parameters[i + 1]);
        }
        lemma_parameters_close_nothing(rest);
        lemma_literals();
        lemma_lacks_byte(p.gap, '<');
        lemma_lacks_byte(p.key, '<');
        lemma_lacks_byte(p.value, '<');
        let a = encode_utf8("<parameter name=\""@);
        let b = encode_utf8("\">"@);
        let c = encode_utf8("</parameter>"@);
        assert(closes_nothing(a));
        assert(closes_nothing(b));
        assert(closes_nothing(c));
        assert(closes_nothing(encode_utf8(p.gap)));
        assert(closes_nothing(encode_utf8(p.key)));
        assert(closes_nothing(encode_utf8(p.value)));
        lemma_closes_nothing_pair(a, encode_utf8(p.key));
        lemma_closes_nothing_pair(a + encode_utf8(p.key), b);
        lemma_closes_nothing_pair(a + encode_utf8(p.key) + b, encode_utf8(p.value));
        lemma_closes_nothing_pair(a + encode_utf8(p.key) + b + encode_utf8(p.value), c);
        lemma_closes_nothing_pair(encode_utf8(p.gap), parameter_bytes(p));
        lemma_closes_nothing_pair(
            encode_utf8(p.gap) + parameter_bytes(p),
            parameters_bytes(rest),
        );
    }
}

/// What stands before the closing tag of an invocation.
spec fn inner_bytes(item: Invocation) -> Seq<u8> {
    encode_utf8("<invoke name=\""@) + encode_utf8(item.name) + encode_utf8("\">"@)
        + parameters_bytes(item.parameters) + encode_utf8(item.gap)
}

proof fn lemma_inner_closes_nothing(item: Invocation)
    requires
        is_good(item),
    ensures
        closes_nothing(inner_bytes(item)),
{
    lemma_literals();
    lemma_lacks_byte(item.name, '<');
    lemma_lacks_byte(item.gap, '<');
    lemma_parameters_close_nothing(item.parameters);
    let a = encode_utf8("<invoke name=\""@);
    let n = encode_utf8(item.name);
    let b = encode_utf8("\">"@);
    let ps = parameters_bytes(item.parameters);
    assert(closes_nothing(a));
    assert(closes_nothing(n));
    assert(closes_nothing(b));
    assert(closes_nothing(encode_utf8(item.gap)));
    lemma_closes_nothing_pair(a, n);
    lemma_closes_nothing_pair(a + n, b);
    lemma_closes_nothing_pair(a + n + b, ps);
    lemma_closes_nothing_pair(a + n + b + ps, encode_utf8(item.gap));
}

/// What starts like an invocation and is closed once is read where it stands.
#[verifier::spinoff_prover]
proof fn lemma_invoke_with(x: Seq<u8>, called: Seq<char>, more: Seq<u8>, y: Seq<u8>, low: Seq<u8>)
    requires
        lacks(called, '"'),
        closes_nothing(
            encode_utf8("<invoke name=\""@) + encode_utf8(called) + encode_utf8("\">"@) + more,
        ),
        is_lower_of(
            low,
            x + (encode_utf8("<invoke name=\""@) + encode_utf8(called) + encode_utf8("\">"@) + more)
                + encode_utf8("</invoke>"@) + y,
        ),
    ensures
        ({
            let inner = encode_utf8("<invoke name=\""@) + encode_utf8(called) + encode_utf8("\">"@)
                + more;
            let t = x + inner + encode_utf8("</invoke>"@) + y;
            let at = x.len() as int;
            &&& invoke::invoke_at(t, low, at) is Some
            &&& invoke::invoke_at(t, low, at)->0.name == called
            &&& invoke::invoke_at(t, low, at)->0.end == at + inner.len() + 9
        }),
{
    lemma_literals();
    let name = encode_utf8(called);
    let open = encode_utf8("<invoke name=\""@);
    let close = encode_utf8("</invoke>"@);
    let inner = open + name + encode_utf8("\">"@) + more;
    let t = x + inner + close + y;
    let at = x.len() as int;
    let n = at + 8;
    let q = at + 14 + name.len();
    let c = at + inner.len();
    lemma_lacks_byte(called, '"');
    assert forall|k: int| 0 <= k < inner.len() implies t[at + k] == #[trigger] inner[k] by {}
    assert forall|k: int| 0 <= k < 14 implies t[at + k] == open[k] by {
        assert(inner[k] == open[k]);
    }
    assert forall|k: int| 0 <= k < name.len() implies t[at + 14 + k] == #[trigger] name[k] by {
        assert(inner[14 + k] == name[k]);
    }
    assert(inner[14 + name.len() as int] == 0x22);
    assert(t[q] == 0x22);
    assert(t.subrange(n, n + 6) =~= encode_utf8("name=\""@));
    assert forall|j: int| at <= j < n implies #[trigger] t[j] != 0x6e || t[j + 1] != 0x61 by {
        assert(t[j] == open[j - at]);
        assert(t[j + 1] == open[j + 1 - at]);
    }
    lemma_found(t, encode_utf8("name=\""@), at, n);
    assert(t.subrange(q, q + 1) =~= encode_utf8("\""@));
    assert forall|j: int| n + 6 <= j < q implies #[trigger] t[j] != 0x22 by {
        assert(t[j] == name[j - at - 14]);
    }
    lemma_found(t, encode_utf8("\""@), n + 6, q);
    assert forall|k: int| 0 <= k < 9 implies #[trigger] low[c + k] == close[k] by {
        assert(t[c + k] == close[k]);
        lemma_lower_marks(low, t, c + k);
    }
    assert(low.subrange(c, c + 9) =~= close);
    assert forall|j: int| at <= j < c implies #[trigger] low[j] != 0x3c || low[j + 1] != 0x2f
        || low[j + 2] != 0x69 by {
        lemma_lower_marks(low, t, j);
        if low[j] == 0x3c {
            let k = j - at;
            assert(t[at + k] == inner[k]);
            assert(inner[k] == 0x3c);
            assert(t[at + (k + 1)] == inner[k + 1]);
            assert(t[at + (k + 2)] == inner[k + 2]);
            assert(low[j + 1] == lower_byte(t[j + 1]) || t[j + 1] >= 0x80 && low[j + 1] >= 0x80);
            assert(low[j + 2] == lower_byte(t[j + 2]) || t[j + 2] >= 0x80 && low[j + 2] >= 0x80);
        }
    }
    lemma_found(low, close, at, c);
    assert(t.subrange(n + 6, q) =~= name);
    encode_utf8_decode_utf8(called);
}

/// An invocation is read where it stands.
#[verifier::spinoff_prover]
proof fn lemma_invoke_at(x: Seq<u8>, item: Invocation, y: Seq<u8>, low: Seq<u8>)
    requires
        is_good(item),
        is_lower_of(low, x + invocation_bytes(item) + y),
    ensures
        ({
            let t = x + invocation_bytes(item) + y;
            let at = x.len() as int;
            &&& invoke::invoke_at(t, low, at) is Some
            &&& invoke::invoke_at(t, low, at)->0.name == item.name
            &&& invoke::invoke_at(t, low, at)->0.end == at + invocation_bytes(item).len()
        }),
{
    lemma_literals();
    lemma_inner_closes_nothing(item);
    let more = parameters_bytes(item.parameters) + encode_utf8(item.gap);
    let inner = encode_utf8("<invoke name=\""@) + encode_utf8(item.name) + encode_utf8("\">"@)
        + more;
    assert(inner =~= inner_bytes(item));
    assert(invocation_bytes(item) =~= inner + encode_utf8("</invoke>"@));
    assert(x + invocation_bytes(item) + y =~= x + inner + encode_utf8("</invoke>"@) + y);
    lemma_invoke_with(x, item.name, more, y, low);
}

/// The parameters of an invocation are read.
proof fn lemma_parameters_of(item: Invocation)
    requires
        is_good(item),
        keeps_places(invocation_text(item)),
    ensures
        invoke::parameters_of(invocation_bytes(item)) is Read,
        holds_parameters(
            invoke::parameters_of(invocation_bytes(item))->Read_0,
            item.parameters,
        ),
{
    let s = invocation_text(item);
    let b = invocation_bytes(item);
    let low = encode_utf8(text::lowercase(s));
    lemma_literals();
    lemma_invocation_bytes(item);
    encode_utf8_valid_utf8(s);
    encode_utf8_decode_utf8(s);
    encode_utf8_valid_utf8(text::lowercase(s));
    lemma_lacks_byte(item.gap, '<');
    lemma_lacks_byte(item.name, '<');
    let a = encode_utf8("<invoke name=\""@);
    let n = encode_utf8(item.name);
    let head = a + n + encode_utf8("\">"@);
    let none = Seq::<(Seq<char>, Seq<char>)>::empty();
    let pattern = encode_utf8("<parameter "@);
    is_char_boundary_start_end_of_seq(low);
    lemma_read_parameters(
        head,
        item.parameters,
        encode_utf8(item.gap),
        low,
        Seq::empty(),
        none,
    );
    assert(Seq::<Parameter>::empty() + item.parameters =~= item.parameters);
    // The first parameter is not looked for behind the opening tag but from the start.
    assert forall|j: int| 0 <= j < head.len() implies !text::occurs_at(low, pattern, j) by {
        if text::occurs_at(low, pattern, j) {
            let cut = low.subrange(j, j + pattern.len());
            assert(cut[0] == low[j] && cut[1] == low[j + 1]);
            lemma_lower_marks(low, b, j);
            assert(b[j] == head[j]);
            if j == 0 {
                lemma_lower_marks(low, b, 1);
                assert(b[1] == a[1]);
            } else if j < 14 {
                assert(b[j] == a[j]);
            } else if j < 14 + n.len() {
                assert(b[j] == n[j - 14]);
            }
        }
    }
    lemma_find_skips(low, pattern, 0, head.len() as int);
    assert(b[head.len() - 1] == 0x3e);
    lemma_lower_marks(low, b, head.len() - 1);
    text::lemma_ascii_boundaries(low, head.len() - 1);
}

/// Places where nothing is found can be skipped.
proof fn lemma_find_skips(h: Seq<u8>, p: Seq<u8>, from: int, to: int)
    requires
        0 <= from <= to,
        forall|j: int| from <= j < to ==> !text::occurs_at(h, p, j),
    ensures
        text::find_from(h, p, from) == text::find_from(h, p, to),
    decreases to - from,
{
    if from < to {
        lemma_find_skips(h, p, from + 1, to);
        if from + p.len() > h.len() {
            text::lemma_find_from(h, p, to);
        }
    }
}

/// The encoding of the text of a list of invocations.
spec fn bytes_of(items: Seq<Invocation>, behind: Seq<char>) -> Seq<u8>
    decreases items.len(),
{
    if items.len() == 0 {
        encode_utf8(behind)
    } else {
        encode_utf8(items[0].before) + invocation_bytes(items[0]) + bytes_of(
            items.drop_first(),
            behind,
        )
    }
}

proof fn lemma_bytes_of(items: Seq<Invocation>, behind: Seq<char>)
    ensures
        encode_utf8(text_of(items, behind)) == bytes_of(items, behind),
    decreases items.len(),
{
    if items.len() > 0 {
        let rest = items.drop_first();
        lemma_bytes_of(rest, behind);
        lemma_invocation_bytes(items[0]);
        text::lemma_encode_concat(items[0].before, invocation_text(items[0]));
        text::lemma_encode_concat(
            items[0].before + invocation_text(items[0]),
            text_of(rest, behind),
        );
    }
}

/// Whether a call is that of an invocation: it has its name, and its arguments are an
/// object with its parameters.
pub open spec fn is_call_of(call: CallModel, item: Invocation) -> bool {
    &&& call.name == item.name
    &&& exists|members: Seq<(Seq<char>, Seq<char>)>|
        call.arguments == #[trigger] json::object_text(members) && holds_parameters(
            members,
            item.parameters,
        )
}

/// Whether calls are those of invocations, in order.
pub open spec fn are_calls_of(calls: Seq<CallModel>, items: Seq<Invocation>) -> bool {
    &&& calls.len() == items.len()
    &&& forall|i: int| 0 <= i < items.len() ==> is_call_of(#[trigger] calls[i], items[i])
}

/// Behind the last invocation no other is found.
#[verifier::spinoff_prover]
proof fn lemma_no_invocation(x: Seq<u8>, behind: Seq<char>, low: Seq<u8>)
    requires
        lacks(behind, '<'),
        is_lower_of(low, x + encode_utf8(behind)),
    ensures
        text::find_from(low, encode_utf8("<invoke "@), x.len() as int) is None,
{
    lemma_literals();
    let t = x + encode_utf8(behind);
    let cursor = x.len() as int;
    lemma_lacks_byte(behind, '<');
    assert forall|j: int| cursor <= j && j + 2 < low.len() implies #[trigger] low[j] != 0x3c by {
        lemma_lower_marks(low, t, j);
        assert(t[j] == encode_utf8(behind)[j - cursor]);
    }
    lemma_not_found(low, encode_utf8("<invoke "@), cursor);
}

/// The next invocation is found behind the text before it, with its name and its end.
#[verifier::spinoff_prover]
proof fn lemma_next_invocation(x: Seq<u8>, item: Invocation, y: Seq<u8>, low: Seq<u8>)
    requires
        is_good(item),
        is_lower_of(low, x + encode_utf8(item.before) + invocation_bytes(item) + y),
        valid_utf8(x + encode_utf8(item.before) + invocation_bytes(item) + y),
    ensures
        ({
            let head = x + encode_utf8(item.before);
            let t = head + invocation_bytes(item) + y;
            let at = head.len() as int;
            let end = at + invocation_bytes(item).len();
            &&& text::find_from(low, encode_utf8("<invoke "@), x.len() as int) == Some(at)
            &&& invoke::invoke_at(t, low, at) is Some
            &&& invoke::invoke_at(t, low, at)->0.name == item.name
            &&& invoke::invoke_at(t, low, at)->0.end == end
            &&& is_char_boundary(t, at)
            &&& is_char_boundary(t, end)
            &&& t.subrange(at, end) == invocation_bytes(item)
            &&& t.subrange(x.len() as int, at) == encode_utf8(item.before)
            &&& (head + invocation_bytes(item)).last() == 0x3e
        }),
{
    lemma_literals();
    let before = encode_utf8(item.before);
    let one = invocation_bytes(item);
    let head = x + before;
    let t = head + one + y;
    let cursor = x.len() as int;
    let at = head.len() as int;
    let end = at + one.len();
    let open = encode_utf8("<invoke name=\""@);
    let pattern = encode_utf8("<invoke "@);
    lemma_lacks_byte(item.before, '<');
    assert forall|k: int| 0 <= k < 8 implies #[trigger] low[at + k] == open[k] by {
        assert(one[k] == open[k]);
        assert(t[at + k] == one[k]);
        lemma_lower_marks(low, t, at + k);
    }
    assert(low.subrange(at, at + 8) =~= pattern);
    assert forall|j: int| cursor <= j < at implies #[trigger] low[j] != 0x3c by {
        lemma_lower_marks(low, t, j);
        assert(t[j] == before[j - cursor]);
    }
    lemma_found(low, pattern, cursor, at);
    assert(one[0] == open[0]);
    assert(t[at] == one[0]);
    text::lemma_ascii_boundaries(t, at);
    lemma_invoke_at(head, item, y, low);
    assert(one.last() == 0x3e);
    assert(t[end - 1] == one.last());
    text::lemma_ascii_boundaries(t, end - 1);
    assert(t.subrange(at, end) =~= one);
    assert(t.subrange(cursor, at) =~= before);
}

#[verifier::spinoff_prover]
#[verifier::rlimit(40)]
proof fn lemma_read_invokes(
    x: Seq<u8>,
    items: Seq<Invocation>,
    behind: Seq<char>,
    low: Seq<u8>,
)
    requires
        x.len() == 0 || x.last() == 0x3e,
        forall|i: int|
            0 <= i < items.len() ==> is_good(#[trigger] items[i]) && keeps_places(
                invocation_text(items[i]),
            ),
        lacks(behind, '<'),
        valid_utf8(x + bytes_of(items, behind)),
        is_lower_of(low, x + bytes_of(items, behind)),
    ensures
        ({
            let run = invoke::read_invokes(x + bytes_of(items, behind), low, x.len() as int);
            &&& run is Done
            &&& are_calls_of(run->Done_0, items)
            &&& run->Done_1 == encode_utf8(plain_of(items, behind))
        }),
    decreases items.len(),
{
    let t = x + bytes_of(items, behind);
    let cursor = x.len() as int;
    lemma_behind_mark_alone(x, bytes_of(items, behind));
    is_char_boundary_start_end_of_seq(t);
    if items.len() == 0 {
        lemma_no_invocation(x, behind, low);
        assert(t.subrange(cursor, t.len() as int) =~= encode_utf8(behind));
    } else {
        let item = items[0];
        let rest = items.drop_first();
        let before = encode_utf8(item.before);
        let one = invocation_bytes(item);
        let tail = bytes_of(rest, behind);
        let head = x + before;
        let at = head.len() as int;
        let next = head + one;
        let end = next.len() as int;
        assert(is_good(item) && keeps_places(invocation_text(item)));
        assert(t =~= head + one + tail);
        assert(next + tail =~= t);
        lemma_next_invocation(x, item, tail, low);
        lemma_parameters_of(item);
        assert forall|i: int| 0 <= i < rest.len() implies is_good(#[trigger] rest[i])
            && keeps_places(invocation_text(rest[i])) by {
            assert(rest[i] == items[i + 1]);
        }
        lemma_read_invokes(next, rest, behind, low);
        invoke::lemma_invoke_end(t, low, cursor);
        let more = invoke::read_invokes(t, low, end);
        let run = invoke::read_invokes(t, low, cursor);
        let members = invoke::parameters_of(one)->Read_0;
        let call = CallModel { name: item.name, arguments: json::object_text(members) };
        assert(run == invoke::before_run(call, before, more));
        assert(is_call_of(call, item));
        assert forall|i: int| 0 <= i < items.len() implies is_call_of(
            #[trigger] run->Done_0[i],
            items[i],
        ) by {
            if i > 0 {
                assert(run->Done_0[i] == more->Done_0[i - 1]);
                assert(rest[i - 1] == items[i]);
            }
        }
        text::lemma_encode_concat(item.before, plain_of(rest, behind));
    }
}

/// A place behind a `>` is a character boundary.
proof fn lemma_behind_mark_alone(x: Seq<u8>, y: Seq<u8>)
    requires
        x.len() == 0 || x.last() == 0x3e,
        valid_utf8(x + y),
    ensures
        is_char_boundary(x + y, x.len() as int),
{
    let t = x + y;
    if x.len() == 0 {
        is_char_boundary_start_end_of_seq(t);
    } else {
        assert(t[x.len() - 1] == x.last());
        text::lemma_ascii_boundaries(t, x.len() - 1);
    }
}

/// Any number of invocations are read as their calls: one call for each invocation, in
/// order, with its own name and its own parameters. The text around them is kept. The text
/// has no element of a tool, and lower-casing keeps the places of its ASCII characters.
pub proof fn law_invocations_give_their_calls(
    items: Seq<Invocation>,
    behind: Seq<char>,
    names: Seq<Seq<u8>>,
)
    requires
        items.len() > 0,
        forall|i: int|
            0 <= i < items.len() ==> is_good(#[trigger] items[i]) && keeps_places(
                invocation_text(items[i]),
            ),
        lacks(behind, '<'),
        keeps_places(text_of(items, behind)),
        names.len() > 0,
        tags::find_tag(encode_utf8(text_of(items, behind)), names, false, 0) is None,
    ensures
        tool_parser::is_readable(text_of(items, behind), names),
        match tool_parser::parsed(text_of(items, behind), names) {
            Some(scan) => are_calls_of(scan.calls, items) && scan.rest == encode_utf8(
                plain_of(items, behind),
            ),
            None => false,
        },
        tool_parser::ids_used(text_of(items, behind), names) == items.len(),
{
    let xml = text_of(items, behind);
    let t = encode_utf8(xml);
    lemma_bytes_of(items, behind);
    encode_utf8_valid_utf8(xml);
    assert(Seq::<u8>::empty() + t =~= t);
    lemma_read_invokes(Seq::empty(), items, behind, encode_utf8(text::lowercase(xml)));
}

/// An invocation that is not closed is found, and is incomplete.
#[verifier::spinoff_prover]
proof fn lemma_unclosed(x: Seq<u8>, b: Seq<u8>, tail: Seq<u8>, low: Seq<u8>)
    requires
        forall|j: int| 0 <= j < b.len() ==> #[trigger] b[j] != 0x3c,
        forall|j: int| 0 <= j < tail.len() ==> #[trigger] tail[j] != 0x3c,
        is_lower_of(low, x + b + encode_utf8("<invoke name=\""@) + tail),
    ensures
        ({
            let t = x + b + encode_utf8("<invoke name=\""@) + tail;
            let at = (x + b).len() as int;
            &&& text::find_from(low, encode_utf8("<invoke "@), x.len() as int) == Some(at)
            &&& invoke::invoke_at(t, low, at) is None
            &&& at < t.len()
            &&& t[at] == 0x3c
        }),
{
    lemma_literals();
    let open = encode_utf8("<invoke name=\""@);
    let t = x + b + open + tail;
    let from = x.len() as int;
    let at = from + b.len();
    assert forall|k: int| 0 <= k < 8 implies #[trigger] low[at + k] == open[k] by {
        assert(t[at + k] == open[k]);
        lemma_lower_marks(low, t, at + k);
    }
    assert(low.subrange(at, at + 8) =~= encode_utf8("<invoke "@));
    assert forall|j: int| from <= j < at implies #[trigger] low[j] != 0x3c by {
        lemma_lower_marks(low, t, j);
        assert(t[j] == b[j - from]);
    }
    lemma_found(low, encode_utf8("<invoke "@), from, at);
    assert forall|j: int| at <= j && j + 2 < low.len() implies #[trigger] low[j] != 0x3c || low[j
        + 1] != 0x2f || low[j + 2] != 0x69 by {
        lemma_lower_marks(low, t, j);
        if j == at {
            lemma_lower_marks(low, t, j + 1);
            assert(t[j + 1] == open[1]);
        } else if j < at + 14 {
            assert(t[j] == open[j - at]);
        } else {
            assert(t[j] == tail[j - at - 14]);
        }
    }
    lemma_not_found(low, encode_utf8("</invoke>"@), at);
}

/// An invocation that is not closed breaks the reading off.
#[verifier::spinoff_prover]
#[verifier::rlimit(40)]
proof fn lemma_read_unclosed(
    x: Seq<u8>,
    items: Seq<Invocation>,
    before: Seq<char>,
    rest: Seq<char>,
    low: Seq<u8>,
)
    requires
        x.len() == 0 || x.last() == 0x3e,
        forall|i: int|
            0 <= i < items.len() ==> is_good(#[trigger] items[i]) && keeps_places(
                invocation_text(items[i]),
            ),
        lacks(before, '<'),
        lacks(rest, '<'),
        valid_utf8(x + bytes_of(items, before + ("<invoke name=\""@ + rest))),
        is_lower_of(low, x + bytes_of(items, before + ("<invoke name=\""@ + rest))),
    ensures
        invoke::read_invokes(
            x + bytes_of(items, before + ("<invoke name=\""@ + rest)),
            low,
            x.len() as int,
        ) == InvokeRun::Broken(items.len() as int),
    decreases items.len(),
{
    let behind = before + ("<invoke name=\""@ + rest);
    let t = x + bytes_of(items, behind);
    let cursor = x.len() as int;
    lemma_behind_mark_alone(x, bytes_of(items, behind));
    if items.len() == 0 {
        let b = encode_utf8(before);
        let tail = encode_utf8(rest);
        text::lemma_encode_concat("<invoke name=\""@, rest);
        text::lemma_encode_concat(before, "<invoke name=\""@ + rest);
        assert(t =~= x + b + encode_utf8("<invoke name=\""@) + tail);
        assert(forall|j: int| 0 <= j < b.len() ==> #[trigger] b[j] != 0x3c) by {
            lemma_lacks_byte(before, '<');
        }
        assert(forall|j: int| 0 <= j < tail.len() ==> #[trigger] tail[j] != 0x3c) by {
            lemma_lacks_byte(rest, '<');
        }
        lemma_unclosed(x, b, tail, low);
        text::lemma_ascii_boundaries(t, (x + b).len() as int);
    } else {
        let item = items[0];
        let others = items.drop_first();
        let first = encode_utf8(item.before);
        let one = invocation_bytes(item);
        let tail = bytes_of(others, behind);
        let head = x + first;
        let next = head + one;
        assert(is_good(item) && keeps_places(invocation_text(item)));
        assert(t =~= head + one + tail);
        assert(next + tail =~= t);
        lemma_next_invocation(x, item, tail, low);
        lemma_parameters_of(item);
        assert forall|i: int| 0 <= i < others.len() implies is_good(#[trigger] others[i])
            && keeps_places(invocation_text(others[i])) by {
            assert(others[i] == items[i + 1]);
        }
        lemma_read_unclosed(next, others, before, rest, low);
        invoke::lemma_invoke_end(t, low, cursor);
        let members = invoke::parameters_of(one)->Read_0;
        let call = CallModel { name: item.name, arguments: json::object_text(members) };
        assert(invoke::read_invokes(t, low, cursor) == invoke::before_run(
            call,
            first,
            invoke::read_invokes(t, low, next.len() as int),
        ));
    }
}

/// Where an invocation is not closed there is no call, not even of the complete invocations
/// before it. These have taken their identifiers.
pub proof fn law_unclosed_invocation_gives_no_call(
    items: Seq<Invocation>,
    before: Seq<char>,
    rest: Seq<char>,
    names: Seq<Seq<u8>>,
)
    requires
        forall|i: int|
            0 <= i < items.len() ==> is_good(#[trigger] items[i]) && keeps_places(
                invocation_text(items[i]),
            ),
        lacks(before, '<'),
        lacks(rest, '<'),
        keeps_places(text_of(items, before + ("<invoke name=\""@ + rest))),
        names.len() > 0,
        tags::find_tag(
            encode_utf8(text_of(items, before + ("<invoke name=\""@ + rest))),
            names,
            false,
            0,
        ) is None,
    ensures
        ({
            let xml = text_of(items, before + ("<invoke name=\""@ + rest));
            &&& tool_parser::parsed(xml, names) is None
            &&& tool_parser::is_readable(xml, names)
            &&& tool_parser::ids_used(xml, names) == items.len()
        }),
{
    let behind = before + ("<invoke name=\""@ + rest);
    let xml = text_of(items, behind);
    let t = encode_utf8(xml);
    lemma_bytes_of(items, behind);
    encode_utf8_valid_utf8(xml);
    assert(Seq::<u8>::empty() + t =~= t);
    lemma_read_unclosed(Seq::empty(), items, before, rest, encode_utf8(text::lowercase(xml)));
    assert(tool_parser::scan_calls(t, names, 0).calls.len() == 0);
}

/// The text of an invocation with a parameter that is not closed.
pub open spec fn broken_text(name: Seq<char>, rest: Seq<char>) -> Seq<char> {
    "<invoke name=\""@ + name + "\">"@ + "<parameter name=\""@ + rest + "</invoke>"@
}

/// The encoding of what stands before the closing tag of such an invocation.
spec fn broken_inner(name: Seq<char>, rest: Seq<char>) -> Seq<u8> {
    encode_utf8("<invoke name=\""@) + encode_utf8(name) + encode_utf8("\">"@) + (encode_utf8(
        "<parameter name=\""@,
    ) + encode_utf8(rest))
}

proof fn lemma_broken_bytes(name: Seq<char>, rest: Seq<char>)
    requires
        lacks(name, '<'),
        lacks(rest, '<'),
    ensures
        encode_utf8(broken_text(name, rest)) == broken_inner(name, rest) + encode_utf8(
            "</invoke>"@,
        ),
        closes_nothing(broken_inner(name, rest)),
{
    lemma_literals();
    let a = "<invoke name=\""@;
    let b = "\">"@;
    let c = "<parameter name=\""@;
    text::lemma_encode_concat(a, name);
    text::lemma_encode_concat(a + name, b);
    text::lemma_encode_concat(a + name + b, c);
    text::lemma_encode_concat(a + name + b + c, rest);
    text::lemma_encode_concat(a + name + b + c + rest, "</invoke>"@);
    assert(encode_utf8(a + name + b + c + rest) =~= broken_inner(name, rest));
    lemma_lacks_byte(name, '<');
    lemma_lacks_byte(rest, '<');
    assert(closes_nothing(encode_utf8(a)));
    assert(closes_nothing(encode_utf8(name)));
    assert(closes_nothing(encode_utf8(b)));
    assert(closes_nothing(encode_utf8(c)));
    assert(closes_nothing(encode_utf8(rest)));
    lemma_closes_nothing_pair(encode_utf8(a), encode_utf8(name));
    lemma_closes_nothing_pair(encode_utf8(a) + encode_utf8(name), encode_utf8(b));
    lemma_closes_nothing_pair(encode_utf8(c), encode_utf8(rest));
    lemma_closes_nothing_pair(
        encode_utf8(a) + encode_utf8(name) + encode_utf8(b),
        encode_utf8(c) + encode_utf8(rest),
    );
}

/// A parameter that is not closed cannot be read.
#[verifier::spinoff_prover]
proof fn lemma_broken_parameters(name: Seq<char>, rest: Seq<char>)
    requires
        lacks(name, '<'),
        lacks(rest, '<'),
        keeps_places(broken_text(name, rest)),
    ensures
        invoke::parameters_of(encode_utf8(broken_text(name, rest))) is Broken,
{
    lemma_literals();
    lemma_broken_bytes(name, rest);
    let s = broken_text(name, rest);
    let t = encode_utf8(s);
    let low = encode_utf8(text::lowercase(s));
    let a = encode_utf8("<invoke name=\""@);
    let n = encode_utf8(name);
    let head = a + n + encode_utf8("\">"@);
    let c = encode_utf8("<parameter name=\""@);
    let r = encode_utf8(rest);
    let close = encode_utf8("</invoke>"@);
    let h = head.len() as int;
    let end = h + c.len() + r.len();
    encode_utf8_valid_utf8(s);
    encode_utf8_decode_utf8(s);
    encode_utf8_valid_utf8(text::lowercase(s));
    is_char_boundary_start_end_of_seq(low);
    lemma_lacks_byte(name, '<');
    lemma_lacks_byte(rest, '<');
    assert(t =~= head + c + r + close);
    assert forall|j: int| 0 <= j && j + 2 < t.len() && #[trigger] t[j] == 0x3c implies j == 0 || j
        == h || j == end by {
        if j < 14 {
            assert(t[j] == a[j]);
        } else if j < 14 + n.len() {
            assert(t[j] == n[j - 14]);
        } else if j < h {
        } else if j < h + c.len() {
            assert(t[j] == c[j - h]);
        } else if j < end {
            assert(t[j] == r[j - h - c.len()]);
        } else {
            assert(t[j] == close[j - end]);
        }
    }
    assert(t[0] == a[0] && t[1] == a[1]);
    assert(t[h] == c[0] && t[h + 1] == c[1] && t[h + 2] == c[2]);
    assert(t[end + 1] == close[1] && t[end + 2] == close[2]);
    let pattern = encode_utf8("<parameter "@);
    assert forall|k: int| 0 <= k < 11 implies #[trigger] low[h + k] == c[k] by {
        assert(t[h + k] == c[k]);
        lemma_lower_marks(low, t, h + k);
    }
    assert(low.subrange(h, h + 11) =~= pattern);
    assert forall|j: int| 0 <= j < h implies #[trigger] low[j] != 0x3c || low[j + 1] != 0x70 by {
        lemma_lower_marks(low, t, j);
        lemma_lower_marks(low, t, j + 1);
    }
    lemma_found(low, pattern, 0, h);
    text::lemma_ascii_boundaries(t, h);
    let mark = encode_utf8("</parameter>"@);
    if let Some(g) = text::find_from(t, encode_utf8(">"@), h) {
        text::lemma_find_from(t, encode_utf8(">"@), h);
        assert forall|j: int| g + 1 <= j && j + 2 < t.len() implies #[trigger] t[j] != 0x3c || t[j
            + 1] != 0x2f || t[j + 2] != 0x70 by {}
        lemma_not_found(t, mark, g + 1);
    }
    assert(invoke::parameter_at(t, h) is None);
}

/// An invocation with a parameter that is not closed gives no call.
#[verifier::spinoff_prover]
pub proof fn law_unclosed_parameter_gives_no_call(
    before: Seq<char>,
    name: Seq<char>,
    rest: Seq<char>,
    names: Seq<Seq<u8>>,
)
    requires
        lacks(before, '<'),
        lacks(name, '<'),
        lacks(name, '"'),
        lacks(rest, '<'),
        keeps_places(broken_text(name, rest)),
        keeps_places(before + broken_text(name, rest)),
        tags::find_tag(encode_utf8(before + broken_text(name, rest)), names, false, 0) is None,
    ensures
        tool_parser::parsed(before + broken_text(name, rest), names) is None,
        tool_parser::is_readable(before + broken_text(name, rest), names),
        tool_parser::ids_used(before + broken_text(name, rest), names) == 0,
{
    let xml = before + broken_text(name, rest);
    let t = encode_utf8(xml);
    let low = encode_utf8(text::lowercase(xml));
    let b = encode_utf8(before);
    let one = encode_utf8(broken_text(name, rest));
    let inner = broken_inner(name, rest);
    let close = encode_utf8("</invoke>"@);
    let open = encode_utf8("<invoke name=\""@);
    let at = b.len() as int;
    let end = t.len() as int;
    let none = Seq::<u8>::empty();
    lemma_literals();
    lemma_broken_bytes(name, rest);
    lemma_broken_parameters(name, rest);
    text::lemma_encode_concat(before, broken_text(name, rest));
    assert(t =~= b + inner + close + none);
    lemma_invoke_with(
        b,
        name,
        encode_utf8("<parameter name=\""@) + encode_utf8(rest),
        none,
        low,
    );
    assert forall|k: int| 0 <= k < 8 implies #[trigger] low[at + k] == open[k] by {
        assert(inner[k] == open[k]);
        assert(t[at + k] == inner[k]);
        lemma_lower_marks(low, t, at + k);
    }
    assert(low.subrange(at, at + 8) =~= encode_utf8("<invoke "@));
    lemma_lacks_byte(before, '<');
    assert forall|j: int| 0 <= j < at implies #[trigger] low[j] != 0x3c by {
        lemma_lower_marks(low, t, j);
        assert(t[j] == b[j]);
    }
    lemma_found(low, encode_utf8("<invoke "@), 0, at);
    encode_utf8_valid_utf8(xml);
    assert(inner[0] == open[0]);
    assert(t[at] == inner[0]);
    text::lemma_ascii_boundaries(t, at);
    is_char_boundary_start_end_of_seq(t);
    assert(t.subrange(at, end) =~= one);
    assert(invoke::invokes_of(xml) == InvokeRun::Broken(0));
    assert(tool_parser::scan_calls(t, names, 0).calls.len() == 0);
}

} // verus!
