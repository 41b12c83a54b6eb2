//! Recognising per-tool XML tags, `<tool_name>` and `</tool_name>`, in text that may
//! still be growing.
//!
//! A tag is `<`, white space, for a closing tag `/` and white space again, a tool
//! name, white space, and `>`. All of these are ASCII, so the scanner works on bytes.

use vstd::prelude::*;
use vstd::slice::slice_subrange;
use vstd::utf8::*;

use crate::text;
use crate::text::{bytes_eq, matches_at, slice};

verus! {

/// How much white space a tag that is still being received may hold in one place.
pub const PARTIAL_TAG_WHITESPACE_LIMIT: usize = 8;

// ---------------------------------------------------------------------------
// Bytes of a tag
// ---------------------------------------------------------------------------

/// The white space allowed inside a tag.
pub open spec fn is_space(b: u8) -> bool {
    b == 0x20 || b == 0x0a || b == 0x0d || b == 0x09 || b == 0x0c
}

/// An ASCII letter.
pub open spec fn is_letter(b: u8) -> bool {
    0x41 <= b <= 0x5a || 0x61 <= b <= 0x7a
}

/// A byte that a tool name can start with: a letter or `_`.
pub open spec fn is_name_start(b: u8) -> bool {
    is_letter(b) || b == 0x5f
}

/// A byte that a tool name can go on with: a letter, a digit, `_`, `.`, `:` or `-`.
pub open spec fn is_name_byte(b: u8) -> bool {
    is_letter(b) || 0x30 <= b <= 0x39 || b == 0x5f || b == 0x2e || b == 0x3a || b == 0x2d
}

/// Whether a byte is white space inside a tag.
pub fn is_whitespace_byte(b: u8) -> (r: bool)
    ensures
        r == is_space(b),
{
    b == 0x20 || b == 0x0a || b == 0x0d || b == 0x09 || b == 0x0c
}

/// Whether a tool name can start with a byte.
pub fn is_tool_name_start_byte(b: u8) -> (r: bool)
    ensures
        r == is_name_start(b),
{
    (0x41 <= b && b <= 0x5a) || (0x61 <= b && b <= 0x7a) || b == 0x5f
}

/// Whether a tool name can hold a byte after its first.
pub fn is_tool_name_char_byte(b: u8) -> (r: bool)
    ensures
        r == is_name_byte(b),
{
    (0x41 <= b && b <= 0x5a) || (0x61 <= b && b <= 0x7a) || (0x30 <= b && b <= 0x39) || b == 0x5f
        || b == 0x2e || b == 0x3a || b == 0x2d
}

/// The end of the white space that starts at `i`, not beyond `end`.
pub open spec fn space_end(s: Seq<u8>, i: int, end: int) -> int
    decreases end - i,
{
    if i < end && is_space(s[i]) {
        space_end(s, i + 1, end)
    } else {
        i
    }
}

/// The end of the name bytes that start at `i`, not beyond `end`.
pub open spec fn name_end(s: Seq<u8>, i: int, end: int) -> int
    decreases end - i,
{
    if i < end && is_name_byte(s[i]) {
        name_end(s, i + 1, end)
    } else {
        i
    }
}

/// The first position at or after `i` that holds `b`, or the length where none does.
pub open spec fn byte_from(s: Seq<u8>, b: u8, i: int) -> int
    decreases s.len() - i,
{
    if i >= s.len() || s[i] == b {
        i
    } else {
        byte_from(s, b, i + 1)
    }
}

/// What [`space_end`] finds.
pub proof fn lemma_space_end(s: Seq<u8>, i: int, end: int)
    requires
        i <= end,
    ensures
        i <= space_end(s, i, end) <= end,
        forall|k: int| i <= k < space_end(s, i, end) ==> is_space(#[trigger] s[k]),
        space_end(s, i, end) < end ==> !is_space(s[space_end(s, i, end)]),
    decreases end - i,
{
    if i < end && is_space(s[i]) {
        lemma_space_end(s, i + 1, end);
    }
}

/// What [`name_end`] finds.
pub proof fn lemma_name_end(s: Seq<u8>, i: int, end: int)
    requires
        i <= end,
    ensures
        i <= name_end(s, i, end) <= end,
        forall|k: int| i <= k < name_end(s, i, end) ==> is_name_byte(#[trigger] s[k]),
        name_end(s, i, end) < end ==> !is_name_byte(s[name_end(s, i, end)]),
    decreases end - i,
{
    if i < end && is_name_byte(s[i]) {
        lemma_name_end(s, i + 1, end);
    }
}

/// What [`byte_from`] finds.
pub proof fn lemma_byte_from(s: Seq<u8>, b: u8, i: int)
    requires
        0 <= i <= s.len(),
    ensures
        i <= byte_from(s, b, i) <= s.len(),
        forall|k: int| i <= k < byte_from(s, b, i) ==> #[trigger] s[k] != b,
        byte_from(s, b, i) < s.len() ==> s[byte_from(s, b, i)] == b,
    decreases s.len() - i,
{
    if i < s.len() && s[i] != b {
        lemma_byte_from(s, b, i + 1);
    }
}

/// The end of the white space that starts at `cursor`, not beyond `end`.
pub fn skip_whitespace(bytes: &[u8], cursor: usize, end: usize) -> (r: usize)
    requires
        end <= bytes@.len(),
    ensures
        r == space_end(bytes@, cursor as int, end as int),
        cursor <= end ==> cursor <= r <= end,
{
    let mut c: usize = cursor;
    while c < end && is_whitespace_byte(bytes[c])
        invariant
            end <= bytes@.len(),
            cursor <= c,
            cursor <= end ==> c <= end,
            space_end(bytes@, cursor as int, end as int) == space_end(
                bytes@,
                c as int,
                end as int,
            ),
        decreases end - c,
    {
        c += 1;
    }
    c
}

/// The end of the name bytes that start at `cursor`, not beyond `end`.
fn skip_name(bytes: &[u8], cursor: usize, end: usize) -> (r: usize)
    requires
        cursor <= end <= bytes@.len(),
    ensures
        r == name_end(bytes@, cursor as int, end as int),
        cursor <= r <= end,
{
    let mut c: usize = cursor;
    while c < end && is_tool_name_char_byte(bytes[c])
        invariant
            cursor <= c <= end <= bytes@.len(),
            name_end(bytes@, cursor as int, end as int) == name_end(bytes@, c as int, end as int),
        decreases end - c,
    {
        c += 1;
    }
    c
}

/// The first position at or after `from` that holds `b`, or the length where none does.
fn find_byte(bytes: &[u8], b: u8, from: usize) -> (r: usize)
    requires
        from <= bytes@.len(),
    ensures
        r == byte_from(bytes@, b, from as int),
        from <= r <= bytes@.len(),
{
    let mut c: usize = from;
    while c < bytes.len() && bytes[c] != b
        invariant
            from <= c <= bytes@.len(),
            byte_from(bytes@, b, from as int) == byte_from(bytes@, b, c as int),
        decreases bytes@.len() - c,
    {
        c += 1;
    }
    c
}

// ---------------------------------------------------------------------------
// Tool names
// ---------------------------------------------------------------------------

/// The encodings of a list of tool names.
pub open spec fn name_list(names: Seq<String>) -> Seq<Seq<u8>> {
    names.map_values(|n: String| encode_utf8(n@))
}

/// Whether some tool name has the given encoding.
fn has_name(names: &[String], name: &[u8]) -> (r: bool)
    ensures
        r == name_list(names@).contains(name@),
{
    let mut i: usize = 0;
    while i < names.len()
        invariant
            i <= names@.len(),
            forall|k: int| 0 <= k < i ==> #[trigger] name_list(names@)[k] != name@,
        decreases names@.len() - i,
    {
        if bytes_eq(names[i].as_str().as_bytes(), name) {
            assert(name_list(names@)[i as int] == name@);
            return true;
        }
        i += 1;
    }
    false
}

/// Whether `typed` is the start of some name.
pub open spec fn starts_some_name(names: Seq<Seq<u8>>, typed: Seq<u8>) -> bool {
    exists|k: int| 0 <= k < names.len() && typed.is_prefix_of(#[trigger] names[k])
}

/// Whether some tool name starts with the given bytes.
fn has_name_starting_with(names: &[String], typed: &[u8]) -> (r: bool)
    ensures
        r == starts_some_name(name_list(names@), typed@),
{
    let mut i: usize = 0;
    while i < names.len()
        invariant
            i <= names@.len(),
            forall|k: int|
                0 <= k < i ==> !typed@.is_prefix_of(#[trigger] name_list(names@)[k]),
        decreases names@.len() - i,
    {
        let ghost n = name_list(names@)[i as int];
        assert(text::occurs_at(n, typed@, 0) == typed@.is_prefix_of(n));
        if matches_at(names[i].as_str().as_bytes(), typed, 0) {
            return true;
        }
        i += 1;
    }
    false
}

/// The length of the longest name, 0 for an empty list.
pub open spec fn longest_name(names: Seq<Seq<u8>>) -> nat
    decreases names.len(),
{
    if names.len() == 0 {
        0
    } else {
        let rest = longest_name(names.drop_last());
        if names.last().len() > rest {
            names.last().len()
        } else {
            rest
        }
    }
}

/// No name is longer than [`longest_name`].
pub proof fn lemma_longest_name(names: Seq<Seq<u8>>, k: int)
    requires
        0 <= k < names.len(),
    ensures
        names[k].len() <= longest_name(names),
    decreases names.len(),
{
    if k < names.len() - 1 {
        lemma_longest_name(names.drop_last(), k);
    }
}

/// The length of the longest tool name in bytes.
fn longest_name_length(names: &[String]) -> (r: usize)
    ensures
        r == longest_name(name_list(names@)),
{
    let mut max: usize = 0;
    let mut i: usize = 0;
    assert(name_list(names@).take(0) =~= Seq::<Seq<u8>>::empty());
    while i < names.len()
        invariant
            i <= names@.len(),
            max == longest_name(name_list(names@).take(i as int)),
        decreases names@.len() - i,
    {
        proof {
            let all = name_list(names@);
            assert(all.take(i + 1).drop_last() =~= all.take(i as int));
            assert(all.take(i + 1).last() == all[i as int]);
        }
        let n: usize = names[i].as_str().as_bytes().len();
        if n > max {
            max = n;
        }
        i += 1;
    }
    assert(name_list(names@).take(i as int) =~= name_list(names@));
    max
}

// ---------------------------------------------------------------------------
// Complete tags
// ---------------------------------------------------------------------------

/// What stands between the `<` and the `>` of a tag.
pub struct TagParts {
    /// Whether the tag is a closing tag.
    pub closing: bool,
    /// Where the name starts.
    pub from: int,
    /// Where the name ends.
    pub to: int,
}

/// The parts of the tag between the `<` at `start` and the `>` at `end`, or `None` where
/// what stands there does not have the form of a tag.
pub open spec fn tag_parts(s: Seq<u8>, start: int, end: int) -> Option<TagParts> {
    let a = space_end(s, start + 1, end);
    let closing = s[a] == 0x2f;
    let from = if closing {
        space_end(s, a + 1, end)
    } else {
        a
    };
    if from >= end || !is_name_start(s[from]) {
        None
    } else {
        let to = name_end(s, from + 1, end);
        if space_end(s, to, end) != end {
            None
        } else {
            Some(TagParts { closing, from, to })
        }
    }
}

/// The position of the `>` that ends a tag starting at `start`.
pub open spec fn tag_end(s: Seq<u8>, start: int) -> int {
    byte_from(s, 0x3e, start + 1)
}

/// The name in the tag that starts at `start`.
pub open spec fn tag_name(s: Seq<u8>, start: int) -> Seq<u8> {
    match tag_parts(s, start, tag_end(s, start)) {
        Some(p) => s.subrange(p.from, p.to),
        None => Seq::empty(),
    }
}

/// Whether an opening (or, with `closing`, a closing) tag of one of `names` starts at
/// `start`.
pub open spec fn tag_at(s: Seq<u8>, names: Seq<Seq<u8>>, closing: bool, start: int) -> bool {
    &&& 0 <= start < s.len()
    &&& s[start] == 0x3c
    &&& tag_end(s, start) < s.len()
    &&& match tag_parts(s, start, tag_end(s, start)) {
        Some(p) => p.closing == closing && names.contains(s.subrange(p.from, p.to)),
        None => false,
    }
}

/// The first position at or after `from` where a tag of one of `names` starts.
pub open spec fn find_tag(s: Seq<u8>, names: Seq<Seq<u8>>, closing: bool, from: int) -> Option<int>
    decreases s.len() - from,
{
    if from >= s.len() {
        None
    } else if tag_at(s, names, closing, from) {
        Some(from)
    } else {
        find_tag(s, names, closing, from + 1)
    }
}

/// What the position found says: a tag starts there and none starts before.
pub proof fn lemma_find_tag(s: Seq<u8>, names: Seq<Seq<u8>>, closing: bool, from: int)
    ensures
        match find_tag(s, names, closing, from) {
            Some(i) => from <= i < s.len() && tag_at(s, names, closing, i) && forall|j: int|
                from <= j < i ==> !tag_at(s, names, closing, j),
            None => forall|j: int| from <= j ==> !tag_at(s, names, closing, j),
        },
    decreases s.len() - from,
{
    if from < s.len() && !tag_at(s, names, closing, from) {
        lemma_find_tag(s, names, closing, from + 1);
    }
}

/// The position of the first tag is known once a tag is found with none before it.
pub proof fn lemma_find_tag_is(
    s: Seq<u8>,
    names: Seq<Seq<u8>>,
    closing: bool,
    from: int,
    at: int,
)
    requires
        from <= at,
        tag_at(s, names, closing, at),
        forall|j: int| from <= j < at ==> !tag_at(s, names, closing, j),
    ensures
        find_tag(s, names, closing, from) == Some(at),
{
    lemma_find_tag(s, names, closing, from);
}

/// Positions without a tag can be skipped.
proof fn lemma_find_tag_skip(
    s: Seq<u8>,
    names: Seq<Seq<u8>>,
    closing: bool,
    from: int,
    to: int,
)
    requires
        from <= to <= s.len(),
        forall|j: int| from <= j < to ==> !tag_at(s, names, closing, j),
    ensures
        find_tag(s, names, closing, from) == find_tag(s, names, closing, to),
    decreases to - from,
{
    if from < to {
        lemma_find_tag_skip(s, names, closing, from + 1, to);
    }
}

/// Where the parts of a tag stand.
pub proof fn lemma_tag_parts(s: Seq<u8>, start: int, end: int)
    requires
        0 <= start < end < s.len(),
        s[end] == 0x3e,
        tag_parts(s, start, end) is Some,
    ensures
        start < tag_parts(s, start, end)->0.from < tag_parts(s, start, end)->0.to <= end,
        forall|k: int|
            tag_parts(s, start, end)->0.from <= k < tag_parts(s, start, end)->0.to
                ==> is_name_byte(#[trigger] s[k]),
        forall|k: int| start < k < end ==> #[trigger] s[k] != 0x3c && s[k] != 0x3e && s[k] < 0x80,
{
    let a = space_end(s, start + 1, end);
    lemma_space_end(s, start + 1, end);
    let closing = s[a] == 0x2f;
    if closing {
        lemma_space_end(s, a + 1, end);
    }
    let from = if closing {
        space_end(s, a + 1, end)
    } else {
        a
    };
    lemma_name_end(s, from + 1, end);
    let to = name_end(s, from + 1, end);
    lemma_space_end(s, to, end);
    assert forall|k: int| start < k < end implies #[trigger] s[k] != 0x3c && s[k] != 0x3e && s[k]
        < 0x80 by {
        if k < a {
            assert(is_space(s[k]));
        } else if k < from {
            if k > a {
                assert(is_space(s[k]));
            }
        } else if k == from {
        } else if k < to {
            assert(is_name_byte(s[k]));
        } else {
            assert(is_space(s[k]));
        }
    }
}

/// A tag found in a text.
#[derive(Debug)]
pub struct XmlToolTagMatch {
    /// The byte offset of the `<`.
    pub index: usize,
    /// The byte offset behind the `>`.
    pub end_index: usize,
    /// The tool name.
    pub name: String,
    /// The whole tag.
    pub raw: String,
    /// Whether the tag is a closing tag.
    pub closing: bool,
}

impl XmlToolTagMatch {
    /// Whether the match describes the tag that starts at `start` in `s`.
    pub open spec fn describes(&self, s: Seq<u8>, start: int) -> bool {
        &&& self.index == start
        &&& self.end_index == tag_end(s, start) + 1
        &&& self.end_index <= s.len()
        &&& encode_utf8(self.name@) == tag_name(s, start)
        &&& encode_utf8(self.raw@) == s.subrange(start, tag_end(s, start) + 1)
        &&& is_char_boundary(s, self.index as int)
        &&& is_char_boundary(s, self.end_index as int)
    }
}

/// The tag of one of `tool_names` that stands between the `<` at `index` and the first
/// `>` behind it, at `tag_end_at`.
fn parse_complete_xml_tool_tag(
    text: &str,
    index: usize,
    tag_end_at: usize,
    tool_names: &[String],
) -> (r: Option<XmlToolTagMatch>)
    requires
        index < tag_end_at < encode_utf8(text@).len(),
        encode_utf8(text@)[index as int] == 0x3c,
        tag_end_at == tag_end(encode_utf8(text@), index as int),
        encode_utf8(text@)[tag_end_at as int] == 0x3e,
    ensures
        match r {
            Some(m) => m.describes(encode_utf8(text@), index as int) && tag_at(
                encode_utf8(text@),
                name_list(tool_names@),
                m.closing,
                index as int,
            ),
            None => forall|closing: bool|
                !#[trigger] tag_at(
                    encode_utf8(text@),
                    name_list(tool_names@),
                    closing,
                    index as int,
                ),
        },
{
    let bytes = text.as_bytes();
    let ghost s = encode_utf8(text@);
    let mut cursor: usize = skip_whitespace(bytes, index + 1, tag_end_at);
    let closing = bytes[cursor] == 0x2f;
    if closing {
        cursor = skip_whitespace(bytes, cursor + 1, tag_end_at);
    }
    if cursor >= tag_end_at || !is_tool_name_start_byte(bytes[cursor]) {
        return None;
    }
    let name_start: usize = cursor;
    cursor = skip_name(bytes, cursor + 1, tag_end_at);
    let name_stop: usize = cursor;
    if !has_name(tool_names, slice_subrange(bytes, name_start, name_stop)) {
        return None;
    }
    cursor = skip_whitespace(bytes, cursor, tag_end_at);
    if cursor != tag_end_at {
        return None;
    }
    proof {
        assert(tag_parts(s, index as int, tag_end_at as int) == Some(
            TagParts { closing, from: name_start as int, to: name_stop as int },
        ));
        lemma_tag_parts(s, index as int, tag_end_at as int);
        encode_utf8_valid_utf8(text@);
        text::lemma_ascii_boundaries(s, index as int);
        text::lemma_ascii_boundaries(s, tag_end_at as int);
        text::lemma_ascii_boundaries(s, name_start as int);
        text::lemma_ascii_boundaries(s, name_stop - 1);
    }
    Some(
        XmlToolTagMatch {
            index,
            end_index: tag_end_at + 1,
            name: slice(text, name_start, name_stop).to_owned(),
            raw: slice(text, index, tag_end_at + 1).to_owned(),
            closing,
        },
    )
}

/// The first complete tag of one of `tool_names` at or after the byte offset
/// `from_index`: a closing tag if `closing` is set, an opening tag otherwise.
pub fn find_first_xml_tool_tag(
    text: &str,
    tool_names: &[String],
    closing: bool,
    from_index: usize,
) -> (r: Option<XmlToolTagMatch>)
    ensures
        match r {
            Some(m) => find_tag(
                encode_utf8(text@),
                name_list(tool_names@),
                closing,
                from_index as int,
            ) == Some(m.index as int) && m.describes(encode_utf8(text@), m.index as int)
                && m.closing == closing,
            None => find_tag(
                encode_utf8(text@),
                name_list(tool_names@),
                closing,
                from_index as int,
            ) is None,
        },
{
    let bytes = text.as_bytes();
    let ghost s = encode_utf8(text@);
    let ghost names = name_list(tool_names@);
    let mut search_from: usize = from_index;
    while search_from < bytes.len()
        invariant
            s == encode_utf8(text@),
            names == name_list(tool_names@),
            bytes@ == s,
            find_tag(s, names, closing, from_index as int) == find_tag(
                s,
                names,
                closing,
                search_from as int,
            ),
        decreases s.len() - search_from,
    {
        let index: usize = find_byte(bytes, 0x3c, search_from);
        proof {
            lemma_byte_from(s, 0x3c, search_from as int);
            lemma_find_tag_skip(s, names, closing, search_from as int, index as int);
        }
        if index == bytes.len() {
            return None;
        }
        let end: usize = find_byte(bytes, 0x3e, index + 1);
        proof {
            lemma_byte_from(s, 0x3e, index + 1);
        }
        if end == bytes.len() {
            proof {
                assert forall|j: int| index <= j implies !tag_at(s, names, closing, j) by {
                    if index < j < s.len() {
                        lemma_byte_from(s, 0x3e, j + 1);
                    }
                }
                lemma_find_tag(s, names, closing, index as int);
            }
            return None;
        }
        if let Some(parsed) = parse_complete_xml_tool_tag(text, index, end, tool_names) {
            if parsed.closing == closing {
                return Some(parsed);
            }
            assert(!tag_at(s, names, closing, index as int));
        }
        let inner: usize = find_byte(bytes, 0x3c, index + 1);
        proof {
            lemma_byte_from(s, 0x3c, index + 1);
        }
        if inner < end {
            search_from = index + 1;
        } else {
            proof {
                assert forall|j: int| index <= j < end + 1 implies !tag_at(s, names, closing, j) by {
                    if j == end {
                    } else if index < j {
                        assert(s[j] != 0x3c);
                    }
                }
                lemma_find_tag_skip(s, names, closing, index as int, end + 1);
            }
            search_from = end + 1;
        }
    }
    None
}

// ---------------------------------------------------------------------------
// Tags that are still being received
// ---------------------------------------------------------------------------

/// The end of the white space that starts at `i`, after at most `n` bytes.
pub open spec fn limited_space_end(s: Seq<u8>, i: int, n: nat) -> int
    decreases n,
{
    if n > 0 && i < s.len() && is_space(s[i]) {
        limited_space_end(s, i + 1, (n - 1) as nat)
    } else {
        i
    }
}

/// White space of at most `n` bytes is skipped whole.
proof fn lemma_limited_space_end(s: Seq<u8>, i: int, k: int, n: nat)
    requires
        0 <= i <= k <= s.len(),
        k - i <= n,
        forall|j: int| i <= j < k ==> is_space(#[trigger] s[j]),
        k < s.len() ==> !is_space(s[k]),
    ensures
        limited_space_end(s, i, n) == k,
    decreases n,
{
    if i < k {
        lemma_limited_space_end(s, i + 1, k, (n - 1) as nat);
    }
}

/// The end of the name bytes is known once a byte that is none of them is.
proof fn lemma_name_end_is(s: Seq<u8>, i: int, k: int, end: int)
    requires
        i <= k <= end,
        forall|j: int| i <= j < k ==> is_name_byte(#[trigger] s[j]),
        k < end ==> !is_name_byte(s[k]),
    ensures
        name_end(s, i, end) == k,
    decreases k - i,
{
    if i < k {
        lemma_name_end_is(s, i + 1, k, end);
    }
}

/// Whether `v`, from its `<` on, can still become a tag of one of `names` with
/// moderate white space.
pub open spec fn is_partial_tag(v: Seq<u8>, names: Seq<Seq<u8>>, closing: bool) -> bool {
    let limit = PARTIAL_TAG_WHITESPACE_LIMIT as nat;
    let a = limited_space_end(v, 1, limit);
    let slash = a < v.len() && v[a] == 0x2f;
    let from = if slash {
        limited_space_end(v, a + 1, limit)
    } else {
        a
    };
    &&& v.len() > 0
    &&& v[0] == 0x3c
    &&& (a == v.len() || (slash == closing && (slash && from == v.len() || (from < v.len()
        && is_name_start(v[from]) && {
        let to = name_end(v, from + 1, v.len() as int);
        starts_some_name(names, v.subrange(from, to)) && limited_space_end(v, to, limit) == v.len()
    }))))
}

/// How far back from the end of the text the start of an unfinished tag is looked for.
pub open spec fn partial_window(s: Seq<u8>, names: Seq<Seq<u8>>) -> int {
    let limit = 2 + longest_name(names) + 2 * PARTIAL_TAG_WHITESPACE_LIMIT;
    if s.len() < limit {
        s.len() as int
    } else {
        limit
    }
}

/// The last position in `lo..hi` where an unfinished tag starts.
pub open spec fn last_partial(
    s: Seq<u8>,
    names: Seq<Seq<u8>>,
    closing: bool,
    lo: int,
    hi: int,
) -> Option<int>
    decreases hi - lo,
{
    if hi <= lo {
        None
    } else if is_partial_tag(s.subrange(hi - 1, s.len() as int), names, closing) {
        Some(hi - 1)
    } else {
        last_partial(s, names, closing, lo, hi - 1)
    }
}

/// The length of the unfinished tag at the end of the text, 0 where there is none.
pub open spec fn partial_tail(s: Seq<u8>, names: Seq<Seq<u8>>, closing: bool) -> int {
    if names.len() == 0 {
        0
    } else {
        match last_partial(s, names, closing, s.len() - partial_window(s, names), s.len() as int) {
            Some(p) => s.len() - p,
            None => 0,
        }
    }
}

/// What [`last_partial`] finds.
pub proof fn lemma_last_partial(
    s: Seq<u8>,
    names: Seq<Seq<u8>>,
    closing: bool,
    lo: int,
    hi: int,
)
    ensures
        match last_partial(s, names, closing, lo, hi) {
            Some(p) => lo <= p < hi && is_partial_tag(
                s.subrange(p, s.len() as int),
                names,
                closing,
            ) && forall|j: int|
                p < j < hi ==> !is_partial_tag(
                    #[trigger] s.subrange(j, s.len() as int),
                    names,
                    closing,
                ),
            None => forall|j: int|
                lo <= j < hi ==> !is_partial_tag(
                    #[trigger] s.subrange(j, s.len() as int),
                    names,
                    closing,
                ),
        },
    decreases hi - lo,
{
    if lo < hi && !is_partial_tag(s.subrange(hi - 1, s.len() as int), names, closing) {
        lemma_last_partial(s, names, closing, lo, hi - 1);
    }
}

/// Whether no white space in the tag that starts at `start` is longer than
/// [`PARTIAL_TAG_WHITESPACE_LIMIT`].
pub open spec fn has_moderate_space(s: Seq<u8>, start: int) -> bool {
    let end = tag_end(s, start);
    let a = space_end(s, start + 1, end);
    match tag_parts(s, start, end) {
        Some(p) => {
            &&& a - (start + 1) <= PARTIAL_TAG_WHITESPACE_LIMIT
            &&& p.closing ==> p.from - (a + 1) <= PARTIAL_TAG_WHITESPACE_LIMIT
            &&& end - p.to <= PARTIAL_TAG_WHITESPACE_LIMIT
        },
        None => false,
    }
}

/// A tag that is cut by the end of the text received so far is recognised as unfinished:
/// whatever `more` follows, if a tag with moderate white space then starts at `at` and
/// ends behind the cut, what was received of it is an unfinished tag.
pub proof fn law_cut_tag_is_partial(
    s: Seq<u8>,
    more: Seq<u8>,
    names: Seq<Seq<u8>>,
    closing: bool,
    at: int,
)
    requires
        0 <= at < s.len() <= tag_end(s + more, at),
        tag_at(s + more, names, closing, at),
        has_moderate_space(s + more, at),
    ensures
        is_partial_tag(s.subrange(at, s.len() as int), names, closing),
{
    let t = s + more;
    let n = s.len() as int;
    let end = tag_end(t, at);
    let limit = PARTIAL_TAG_WHITESPACE_LIMIT as nat;
    lemma_byte_from(t, 0x3e, at + 1);
    lemma_tag_parts(t, at, end);
    let p = tag_parts(t, at, end)->0;
    let a = space_end(t, at + 1, end);
    lemma_space_end(t, at + 1, end);
    if p.closing {
        lemma_space_end(t, a + 1, end);
    }
    lemma_name_end(t, p.from + 1, end);
    lemma_space_end(t, p.to, end);
    let v = s.subrange(at, n);
    assert forall|k: int| 0 <= k < v.len() implies v[k] == t[at + k] by {}
    if n <= a {
        assert forall|j: int| 1 <= j < v.len() implies is_space(#[trigger] v[j]) by {
            assert(is_space(t[at + j]));
        }
        lemma_limited_space_end(v, 1, v.len() as int, limit);
    } else {
        assert forall|j: int| 1 <= j < a - at implies is_space(#[trigger] v[j]) by {
            assert(is_space(t[at + j]));
        }
        lemma_limited_space_end(v, 1, a - at, limit);
        if p.closing && n <= p.from {
            assert forall|j: int| a - at + 1 <= j < v.len() implies is_space(#[trigger] v[j]) by {
                assert(is_space(t[at + j]));
            }
            lemma_limited_space_end(v, a - at + 1, v.len() as int, limit);
        } else {
            if p.closing {
                assert forall|j: int| a - at + 1 <= j < p.from - at implies is_space(
                    #[trigger] v[j],
                ) by {
                    assert(is_space(t[at + j]));
                }
                lemma_limited_space_end(v, a - at + 1, p.from - at, limit);
            }
            let to = if n <= p.to {
                n
            } else {
                p.to
            };
            assert forall|j: int| p.from - at + 1 <= j < to - at implies is_name_byte(
                #[trigger] v[j],
            ) by {
                assert(is_name_byte(t[at + j]));
            }
            lemma_name_end_is(v, p.from - at + 1, to - at, v.len() as int);
            let name = t.subrange(p.from, p.to);
            let k = choose|k: int| 0 <= k < names.len() && names[k] == name;
            let typed = v.subrange(p.from - at, to - at);
            assert(typed =~= name.subrange(0, typed.len() as int));
            assert(typed.is_prefix_of(names[k]));
            assert forall|j: int| to - at <= j < v.len() implies is_space(#[trigger] v[j]) by {
                assert(is_space(t[at + j]));
            }
            lemma_limited_space_end(v, to - at, v.len() as int, limit);
        }
    }
}

/// No part of a tag that is still being received is let go: whatever `more` follows the
/// text `s`, a tag with moderate white space that starts in `s` and ends behind it starts
/// in the part that [`partial_tail`] holds back. (A closing tag with so much white space
/// that the window does not reach its `<` is left out.)
pub proof fn law_partial_tail_holds_cut_tag(
    s: Seq<u8>,
    more: Seq<u8>,
    names: Seq<Seq<u8>>,
    closing: bool,
    at: int,
)
    requires
        0 <= at < s.len() <= tag_end(s + more, at),
        tag_at(s + more, names, closing, at),
        has_moderate_space(s + more, at),
        closing ==> s.len() - at <= partial_window(s, names),
    ensures
        partial_tail(s, names, closing) == s.len() - at,
{
    let t = s + more;
    let n = s.len() as int;
    let end = tag_end(t, at);
    law_cut_tag_is_partial(s, more, names, closing, at);
    lemma_byte_from(t, 0x3e, at + 1);
    lemma_tag_parts(t, at, end);
    let p = tag_parts(t, at, end)->0;
    let name = t.subrange(p.from, p.to);
    let k = choose|k: int| 0 <= k < names.len() && names[k] == name;
    lemma_longest_name(names, k);
    let lo = s.len() - partial_window(s, names);
    lemma_last_partial(s, names, closing, lo, n);
    assert(lo <= at);
    assert forall|j: int| at < j < n implies !is_partial_tag(
        #[trigger] s.subrange(j, n),
        names,
        closing,
    ) by {
        assert(s.subrange(j, n)[0] == t[j]);
    }
}

/// The end of the white space that starts at `cursor`, after at most
/// [`PARTIAL_TAG_WHITESPACE_LIMIT`] bytes.
pub fn skip_limited_whitespace(bytes: &[u8], cursor: usize) -> (r: usize)
    requires
        cursor <= bytes@.len(),
    ensures
        r == limited_space_end(bytes@, cursor as int, PARTIAL_TAG_WHITESPACE_LIMIT as nat),
        cursor <= r <= bytes@.len(),
{
    let mut c: usize = cursor;
    let mut count: usize = 0;
    while c < bytes.len() && count < PARTIAL_TAG_WHITESPACE_LIMIT && is_whitespace_byte(bytes[c])
        invariant
            cursor <= c <= bytes@.len(),
            count <= PARTIAL_TAG_WHITESPACE_LIMIT,
            limited_space_end(bytes@, cursor as int, PARTIAL_TAG_WHITESPACE_LIMIT as nat)
                == limited_space_end(
                bytes@,
                c as int,
                (PARTIAL_TAG_WHITESPACE_LIMIT - count) as nat,
            ),
        decreases bytes@.len() - c,
    {
        c += 1;
        count += 1;
    }
    c
}

/// Whether `value` is the start of a tag of one of `tool_names`, a closing tag if
/// `closing` is set and an opening tag otherwise.
pub fn is_partial_xml_tool_tag(value: &str, tool_names: &[String], closing: bool) -> (r: bool)
    ensures
        r == is_partial_tag(encode_utf8(value@), name_list(tool_names@), closing),
{
    let bytes = value.as_bytes();
    if bytes.len() == 0 || bytes[0] != 0x3c {
        return false;
    }
    let mut cursor: usize = skip_limited_whitespace(bytes, 1);
    if cursor == bytes.len() {
        return true;
    }
    if bytes[cursor] == 0x2f {
        if !closing {
            return false;
        }
        cursor = skip_limited_whitespace(bytes, cursor + 1);
        if cursor == bytes.len() {
            return true;
        }
    } else if closing {
        return false;
    }
    if !is_tool_name_start_byte(bytes[cursor]) {
        return false;
    }
    let name_start: usize = cursor;
    cursor = skip_name(bytes, cursor + 1, bytes.len());
    if !has_name_starting_with(tool_names, slice_subrange(bytes, name_start, cursor)) {
        return false;
    }
    skip_limited_whitespace(bytes, cursor) == bytes.len()
}

/// The length in bytes of the unfinished tag at the end of `text`, 0 where there is none.
pub fn get_partial_xml_tool_tag_tail_length(
    text: &str,
    tool_names: &[String],
    closing: bool,
) -> (r: usize)
    ensures
        r == partial_tail(encode_utf8(text@), name_list(tool_names@), closing),
        r <= encode_utf8(text@).len(),
        is_char_boundary(encode_utf8(text@), encode_utf8(text@).len() - r),
{
    let bytes = text.as_bytes();
    let ghost s = encode_utf8(text@);
    let ghost names = name_list(tool_names@);
    proof {
        encode_utf8_valid_utf8(text@);
        is_char_boundary_start_end_of_seq(s);
    }
    if tool_names.len() == 0 {
        return 0;
    }
    let longest: usize = longest_name_length(tool_names);
    let extra: usize = 2 + 2 * PARTIAL_TAG_WHITESPACE_LIMIT;
    let lo: usize = if bytes.len() <= extra || bytes.len() - extra <= longest {
        0
    } else {
        bytes.len() - extra - longest
    };
    assert(lo == s.len() - partial_window(s, names));
    let mut p: usize = bytes.len();
    while p > lo
        invariant
            bytes@ == s,
            s == encode_utf8(text@),
            valid_utf8(s),
            is_char_boundary(s, s.len() as int),
            names == name_list(tool_names@),
            names.len() > 0,
            lo <= p <= s.len(),
            lo == s.len() - partial_window(s, names),
            last_partial(s, names, closing, lo as int, s.len() as int) == last_partial(
                s,
                names,
                closing,
                lo as int,
                p as int,
            ),
        decreases p,
    {
        let at: usize = p - 1;
        let ghost v = s.subrange(at as int, s.len() as int);
        assert(v[0] == s[at as int]);
        if bytes[at] == 0x3c {
            proof {
                text::lemma_ascii_boundaries(s, at as int);
            }
            if is_partial_xml_tool_tag(slice(text, at, bytes.len()), tool_names, closing) {
                return bytes.len() - at;
            }
        }
        p = at;
    }
    0
}

/// The last character boundary of `s` that is not behind the byte offset `max`.
pub fn floor_char_boundary(s: &str, max: usize) -> (r: usize)
    ensures
        is_char_boundary(encode_utf8(s@), r as int),
        max >= encode_utf8(s@).len() ==> r == encode_utf8(s@).len(),
        max < encode_utf8(s@).len() ==> r <= max && forall|j: int|
            r < j <= max ==> !is_char_boundary(encode_utf8(s@), j),
{
    let ghost b = encode_utf8(s@);
    proof {
        encode_utf8_valid_utf8(s@);
        is_char_boundary_start_end_of_seq(b);
    }
    let n: usize = s.as_bytes().len();
    if max >= n {
        return n;
    }
    let mut i: usize = max;
    while !s.is_char_boundary(i)
        invariant
            b == encode_utf8(s@),
            is_char_boundary(b, 0),
            i <= max,
            forall|j: int| i < j <= max ==> !is_char_boundary(b, j),
        decreases i,
    {
        i -= 1;
    }
    i
}

} // verus!
