//! JSON values, which the `serde_json` crate parses, inspects and prints.
//!
//! A value is modelled by its compact text, the text that `serde_json::to_string` gives
//! for it.

use std::collections::BTreeMap;

use serde_json::{Error, Map as JsonMap, Value};
use vstd::prelude::*;

use crate::call_ids;
use crate::text;

verus! {

/// A JSON value of `serde_json`.
#[verifier::external_type_specification]
#[verifier::external_body]
pub struct ExJsonValue(serde_json::Value);

/// An error of `serde_json`.
#[verifier::external_type_specification]
#[verifier::external_body]
pub struct ExJsonError(serde_json::Error);

/// The compact text of a value.
pub uninterp spec fn json_text(v: serde_json::Value) -> Seq<char>;

/// What `serde_json::from_str` makes of a text: the compact text of the value that it
/// denotes, `None` where it is not JSON.
pub uninterp spec fn json_parse(t: Seq<char>) -> Option<Seq<char>>;

/// A character in a JSON string: quotation mark, backslash and control characters are
/// escaped.
pub open spec fn json_escaped(c: char) -> Seq<char> {
    if c == '"' {
        "\\\""@
    } else if c == '\\' {
        "\\\\"@
    } else if c as int == 8 {
        "\\b"@
    } else if c == '\t' {
        "\\t"@
    } else if c == '\n' {
        "\\n"@
    } else if c as int == 12 {
        "\\f"@
    } else if c == '\r' {
        "\\r"@
    } else if (c as int) < 32 {
        "\\u00"@ + seq![
            call_ids::hex_digit(c as int / 16),
            call_ids::hex_digit(c as int % 16),
        ]
    } else {
        seq![c]
    }
}

/// The characters of a text, escaped.
pub open spec fn json_escapes(s: Seq<char>) -> Seq<char>
    decreases s.len(),
{
    if s.len() == 0 {
        Seq::empty()
    } else {
        json_escapes(s.drop_last()) + json_escaped(s.last())
    }
}

/// The compact text of a JSON string with the given characters: the characters, escaped, in
/// quotation marks.
pub open spec fn json_quote(s: Seq<char>) -> Seq<char> {
    "\""@ + json_escapes(s) + "\""@
}

/// What `Value::get` finds under a key in the value with the compact text `t`.
pub uninterp spec fn json_member(t: Seq<char>, key: Seq<char>) -> Option<Seq<char>>;

/// The characters of the JSON string with the compact text `t`, `None` where `t` is the
/// text of another kind of value.
pub uninterp spec fn json_unquote(t: Seq<char>) -> Option<Seq<char>>;

/// Whether a compact text is the text of an object.
pub open spec fn is_object_text(t: Seq<char>) -> bool {
    t.len() > 1 && t[0] == '{' && t.last() == '}'
}

/// Whether the numbers in a compact text from `i` on are whole, `quoted` telling whether a
/// string is open there: outside of strings there is no point and no exponent.
pub open spec fn numbers_are_whole(t: Seq<char>, i: int, quoted: bool) -> bool
    decreases t.len() + 1 - i,
{
    if i < 0 || i >= t.len() {
        true
    } else if quoted {
        if t[i] == '\\' {
            numbers_are_whole(t, i + 2, true)
        } else {
            numbers_are_whole(t, i + 1, t[i] != '"')
        }
    } else {
        &&& t[i] != '.'
        &&& !(t[i] == 'e' && i > 0 && '0' <= t[i - 1] <= '9')
        &&& numbers_are_whole(t, i + 1, t[i] == '"')
    }
}

/// Whether the compact text of the value that a text denotes denotes that value, if its
/// numbers are whole.
pub open spec fn is_read_again(t: Seq<char>) -> bool {
    match json_parse(t) {
        Some(compact) => numbers_are_whole(compact, 0, false) ==> json_parse(compact) == Some(
            compact,
        ),
        None => true,
    }
}

/// `serde_json::from_str` into a `Value` succeeds exactly on the texts that denote a JSON
/// value, and the value is a function of the text. What `serde_json::to_string` prints of
/// the value is read again as a value that is printed alike. That is said only of values
/// with whole numbers: other numbers are read with a rounding error that can change the
/// text.
#[verifier::external_body]
pub(crate) fn json_from_str(t: &str) -> (r: Result<Value, Error>)
    ensures
        match r {
            Ok(v) => json_parse(t@) == Some(json_text(v)),
            Err(_) => json_parse(t@) is None,
        },
        match r {
            Ok(v) => numbers_are_whole(json_text(v), 0, false) ==> json_parse(json_text(v))
                == Some(json_text(v)),
            Err(_) => true,
        },
{
    serde_json::from_str(t)
}

/// `serde_json::to_string` prints any `Value`, whose map keys are strings, without error.
#[verifier::external_body]
pub(crate) fn json_to_string(v: &Value) -> (r: Result<String, Error>)
    ensures
        r is Ok,
        r->Ok_0@ == json_text(*v),
{
    serde_json::to_string(v)
}

/// `Value::is_object`. The compact text of an object, and of no other value, stands in
/// braces.
#[verifier::external_body]
pub(crate) fn json_is_object(v: &Value) -> (r: bool)
    ensures
        r == is_object_text(json_text(*v)),
{
    v.is_object()
}

/// `Value::Object` of an empty `serde_json::Map`, whose compact text is a pair of braces.
#[verifier::external_body]
pub(crate) fn json_empty_object() -> (r: Value)
    ensures
        json_text(r) == "{}"@,
{
    Value::Object(JsonMap::new())
}

/// `Value::Null`, whose compact text is `null`.
#[verifier::external_body]
pub(crate) fn json_null() -> (r: Value)
    ensures
        json_text(r) == "null"@,
{
    Value::Null
}

/// `Value::String`: its compact text is the quoted string, and it holds the string.
#[verifier::external_body]
pub(crate) fn json_string(s: &str) -> (r: Value)
    ensures
        json_text(r) == json_quote(s@),
        json_unquote(json_text(r)) == Some(s@),
{
    Value::String(s.to_owned())
}

/// `Value::get` with a string key: the member of that name, where the value is an object
/// that has one.
#[verifier::external_body]
pub(crate) fn json_get<'a>(v: &'a Value, key: &str) -> (r: Option<&'a Value>)
    ensures
        match r {
            Some(m) => json_member(json_text(*v), key@) == Some(json_text(*m)),
            None => json_member(json_text(*v), key@) is None,
        },
        r is Some ==> is_object_text(json_text(*v)),
{
    v.get(key)
}

/// `Value::as_str`: the characters of a JSON string, `None` for any other value.
#[verifier::external_body]
pub(crate) fn json_as_str<'a>(v: &'a Value) -> (r: Option<&'a str>)
    ensures
        match r {
            Some(s) => json_unquote(json_text(*v)) == Some(s@) && json_text(*v) == json_quote(s@),
            None => json_unquote(json_text(*v)) is None,
        },
{
    v.as_str()
}

/// The keys and the compact texts of the values of a list of members.
pub open spec fn member_texts(entries: Seq<(String, Value)>) -> Seq<(Seq<char>, Seq<char>)> {
    entries.map_values(|e: (String, Value)| (e.0@, json_text(e.1)))
}

/// The compact text of an object with the given members in the given order.
pub open spec fn object_text(members: Seq<(Seq<char>, Seq<char>)>) -> Seq<char> {
    "{"@ + text::joined(
        members.map_values(|m: (Seq<char>, Seq<char>)| json_quote(m.0) + ":"@ + m.1),
        ","@,
    ) + "}"@
}

/// Whether the keys of a list of members are in strictly ascending order.
pub open spec fn keys_ascend(members: Seq<(Seq<char>, Seq<char>)>) -> bool {
    forall|i: int, j: int|
        #![trigger members[i], members[j]]
        0 <= i < j < members.len() ==> text::text_less(members[i].0, members[j].0)
}

/// `serde_json::to_string` of a `BTreeMap` prints the members in the order of their keys.
#[verifier::external_body]
pub(crate) fn json_map_to_string(entries: Vec<(String, Value)>) -> (r: Result<String, Error>)
    requires
        keys_ascend(member_texts(entries@)),
    ensures
        r is Ok,
        r->Ok_0@ == object_text(member_texts(entries@)),
{
    let map: BTreeMap<String, Value> = entries.into_iter().collect();
    serde_json::to_string(&map)
}

// ---------------------------------------------------------------------------
// Escapes
// ---------------------------------------------------------------------------

/// What a backslash and a letter stand for in a JSON string.
pub open spec fn short_escape(c: char) -> Option<int> {
    if c == '"' || c == '\\' || c == '/' {
        Some(c as int)
    } else if c == 'b' {
        Some(8)
    } else if c == 't' {
        Some(9)
    } else if c == 'n' {
        Some(10)
    } else if c == 'f' {
        Some(12)
    } else if c == 'r' {
        Some(13)
    } else {
        None
    }
}

/// A character stands for itself in a JSON string, or its escape stands for it. Only a
/// quotation mark, a backslash and a control character are escaped.
pub proof fn law_escapes_stand_for_their_characters(c: char)
    ensures
        ({
            let e = json_escaped(c);
            let plain = c != '"' && c != '\\' && c as int >= 32;
            &&& plain ==> e == seq![c]
            &&& !plain ==> e.len() > 1 && e[0] == '\\' && if e[1] == 'u' {
                &&& e.len() == 6
                &&& c as int == 4096 * call_ids::digit_value(e[2]) + 256 * call_ids::digit_value(
                    e[3],
                ) + 16 * call_ids::digit_value(e[4]) + call_ids::digit_value(e[5])
            } else {
                &&& e.len() == 2
                &&& short_escape(e[1]) == Some(c as int)
            }
        }),
{
    reveal_strlit("\\\"");
    reveal_strlit("\\\\");
    reveal_strlit("\\b");
    reveal_strlit("\\t");
    reveal_strlit("\\n");
    reveal_strlit("\\f");
    reveal_strlit("\\r");
    reveal_strlit("\\u00");
}

/// Texts are escaped character by character, and stand in quotation marks.
pub proof fn law_texts_are_escaped(s: Seq<char>, c: char)
    ensures
        json_quote(Seq::empty()) == seq!['"', '"'],
        json_quote(s).len() >= 2,
        json_quote(s.push(c)) == json_quote(s).drop_last() + json_escaped(c) + seq!['"'],
{
    reveal_strlit("\"");
    assert(s.push(c).drop_last() =~= s);
    assert(json_quote(Seq::empty()) =~= seq!['"', '"']);
    assert(json_quote(s.push(c)) =~= json_quote(s).drop_last() + json_escaped(c) + seq!['"']);
}

/// The text of an object grows by its members: each is its key in quotation marks, a colon
/// and its value, and a comma stands between two.
pub proof fn law_members_are_listed(
    members: Seq<(Seq<char>, Seq<char>)>,
    key: Seq<char>,
    value: Seq<char>,
)
    ensures
        object_text(Seq::empty()) == seq!['{', '}'],
        members.len() == 0 ==> object_text(members.push((key, value))) == seq!['{'] + json_quote(
            key,
        ) + seq![':'] + value + seq!['}'],
        members.len() > 0 ==> object_text(members.push((key, value))) == object_text(
            members,
        ).drop_last() + seq![','] + json_quote(key) + seq![':'] + value + seq!['}'],
{
    reveal_strlit("{");
    reveal_strlit("}");
    reveal_strlit(",");
    reveal_strlit(":");
    let f = |m: (Seq<char>, Seq<char>)| json_quote(m.0) + ":"@ + m.1;
    let last = json_quote(key) + ":"@ + value;
    let parts = members.map_values(f);
    assert(members.push((key, value)).map_values(f) =~= parts.push(last));
    text::lemma_joined_push(parts, ","@, last);
    let none = Seq::<(Seq<char>, Seq<char>)>::empty();
    assert(none.map_values(f) =~= Seq::<Seq<char>>::empty());
    assert(object_text(none) =~= seq!['{', '}']);
    let more = object_text(members.push((key, value)));
    if members.len() == 0 {
        assert(more =~= seq!['{'] + json_quote(key) + seq![':'] + value + seq!['}']);
    } else {
        assert(more =~= object_text(members).drop_last() + seq![','] + json_quote(key) + seq![':']
            + value + seq!['}']);
    }
}

} // verus!
