//! What holds of tags in texts that grow, and of tags without white space.

use vstd::prelude::*;
use vstd::utf8::*;

use crate::tags;
use crate::tags::{TagParts, XmlToolTagMatch};

verus! {

proof fn lemma_space_end_agrees(s: Seq<u8>, t: Seq<u8>, i: int, end: int)
    requires
        forall|k: int| i <= k < end ==> s[k] == t[k],
    ensures
        tags::space_end(s, i, end) == tags::space_end(t, i, end),
    decreases end - i,
{
    if i < end {
        assert(s[i] == t[i]);
        lemma_space_end_agrees(s, t, i + 1, end);
    }
}

proof fn lemma_name_end_agrees(s: Seq<u8>, t: Seq<u8>, i: int, end: int)
    requires
        forall|k: int| i <= k < end ==> s[k] == t[k],
    ensures
        tags::name_end(s, i, end) == tags::name_end(t, i, end),
    decreases end - i,
{
    if i < end {
        assert(s[i] == t[i]);
        lemma_name_end_agrees(s, t, i + 1, end);
    }
}

/// The parts of a tag depend on the bytes of the tag alone.
proof fn lemma_tag_parts_agree(s: Seq<u8>, t: Seq<u8>, start: int, end: int)
    requires
        start < end,
        forall|k: int| start < k <= end ==> s[k] == t[k],
    ensures
        tags::tag_parts(s, start, end) == tags::tag_parts(t, start, end),
{
    let a = tags::space_end(s, start + 1, end);
    lemma_space_end_agrees(s, t, start + 1, end);
    tags::lemma_space_end(s, start + 1, end);
    assert(s[a] == t[a]);
    lemma_space_end_agrees(s, t, a + 1, end);
    let from = if s[a] == 0x2f {
        tags::space_end(s, a + 1, end)
    } else {
        a
    };
    if s[a] == 0x2f && a + 1 <= end {
        tags::lemma_space_end(s, a + 1, end);
    }
    if from < end {
        assert(s[from] == t[from]);
        lemma_name_end_agrees(s, t, from + 1, end);
        tags::lemma_name_end(s, from + 1, end);
        lemma_space_end_agrees(s, t, tags::name_end(s, from + 1, end), end);
    }
}

/// Text that follows a complete tag does not change it: where a tag of `s + more` ends in
/// `s`, the same tag stands in `s`.
pub proof fn law_tag_needs_no_more(
    s: Seq<u8>,
    more: Seq<u8>,
    names: Seq<Seq<u8>>,
    closing: bool,
    at: int,
)
    requires
        0 <= at < s.len(),
        tags::tag_end(s + more, at) < s.len() || tags::tag_end(s, at) < s.len(),
    ensures
        tags::tag_end(s, at) == tags::tag_end(s + more, at),
        tags::tag_name(s, at) == tags::tag_name(s + more, at),
        tags::tag_at(s, names, closing, at) == tags::tag_at(s + more, names, closing, at),
{
    let t = s + more;
    tags::lemma_byte_from(s, 0x3e, at + 1);
    tags::lemma_byte_from(t, 0x3e, at + 1);
    let x = tags::tag_end(s, at);
    let y = tags::tag_end(t, at);
    if x < y {
        assert(s[x] == t[x]);
    }
    if y < x {
        assert(s[y] == t[y]);
    }
    lemma_tag_parts_agree(s, t, at, x);
    if let Some(p) = tags::tag_parts(s, at, x) {
        tags::lemma_tag_parts(s, at, x);
        assert(s.subrange(p.from, p.to) =~= t.subrange(p.from, p.to));
    }
}

/// Whether a name can stand in a tag.
pub open spec fn is_tool_name(name: Seq<u8>) -> bool {
    &&& name.len() > 0
    &&& tags::is_name_start(name[0])
    &&& forall|k: int| 0 <= k < name.len() ==> tags::is_name_byte(#[trigger] name[k])
}

/// A tag without white space.
pub open spec fn plain_tag(name: Seq<u8>, closing: bool) -> Seq<u8> {
    if closing {
        seq![0x3cu8, 0x2fu8] + name + seq![0x3eu8]
    } else {
        seq![0x3cu8] + name + seq![0x3eu8]
    }
}

/// A tag without white space is found as what it is, wherever it stands.
pub proof fn law_plain_tag(
    before: Seq<u8>,
    name: Seq<u8>,
    closing: bool,
    after: Seq<u8>,
    names: Seq<Seq<u8>>,
)
    requires
        is_tool_name(name),
    ensures
        ({
            let tag = plain_tag(name, closing);
            let s = before + tag + after;
            let at = before.len() as int;
            &&& tags::tag_end(s, at) == at + tag.len() - 1
            &&& tags::tag_name(s, at) == name
            &&& tags::has_moderate_space(s, at)
            &&& names.contains(name) ==> tags::tag_at(s, names, closing, at)
        }),
{
    let tag = plain_tag(name, closing);
    let s = before + tag + after;
    let at = before.len() as int;
    let end = at + tag.len() - 1;
    let from: int = if closing {
        at + 2
    } else {
        at + 1
    };
    assert(s[at] == 0x3c);
    assert(s[end] == 0x3e);
    assert forall|k: int| from <= k < end implies s[k] == name[k - from] by {}
    assert forall|k: int| from <= k < end implies tags::is_name_byte(#[trigger] s[k]) by {
        assert(tags::is_name_byte(name[k - from]));
    }
    assert(s[from] == name[0]);
    if closing {
        assert(s[at + 1] == 0x2f);
    }
    tags::lemma_byte_from(s, 0x3e, at + 1);
    let e = tags::tag_end(s, at);
    if e < end {
        if e >= from {
            assert(tags::is_name_byte(s[e]));
        }
    }
    tags::lemma_space_end(s, at + 1, end);
    if closing {
        tags::lemma_space_end(s, at + 2, end);
        assert(tags::space_end(s, at + 1, end) == at + 1);
        assert(tags::space_end(s, at + 2, end) == at + 2);
    } else {
        assert(tags::space_end(s, at + 1, end) == at + 1);
    }
    tags::lemma_name_end(s, from + 1, end);
    assert(tags::name_end(s, from + 1, end) == end);
    assert(tags::space_end(s, end, end) == end);
    assert(tags::tag_parts(s, at, end) == Some(TagParts { closing, from, to: end }));
    assert(s.subrange(from, end) =~= name);
}

/// The first tag of a text stays the first when more text follows.
pub proof fn law_first_tag_stays_first(
    s: Seq<u8>,
    more: Seq<u8>,
    names: Seq<Seq<u8>>,
    closing: bool,
)
    requires
        tags::find_tag(s, names, closing, 0) is Some,
    ensures
        ({
            let at = tags::find_tag(s, names, closing, 0)->0;
            &&& tags::find_tag(s + more, names, closing, 0) == Some(at)
            &&& tags::tag_end(s + more, at) == tags::tag_end(s, at)
            &&& tags::tag_name(s + more, at) == tags::tag_name(s, at)
            &&& 0 <= at < tags::tag_end(s, at) < s.len()
        }),
{
    let t = s + more;
    tags::lemma_find_tag(s, names, closing, 0);
    let at = tags::find_tag(s, names, closing, 0)->0;
    tags::lemma_byte_from(s, 0x3e, at + 1);
    law_tag_needs_no_more(s, more, names, closing, at);
    assert forall|j: int| 0 <= j < at implies !tags::tag_at(t, names, closing, j) by {
        if tags::tag_at(t, names, closing, j) {
            let e = tags::tag_end(t, j);
            tags::lemma_byte_from(t, 0x3e, j + 1);
            tags::lemma_tag_parts(t, j, e);
            if e > at {
                assert(t[at] == s[at]);
            }
            law_tag_needs_no_more(s, more, names, closing, j);
        }
    }
    tags::lemma_find_tag_is(t, names, closing, 0, at);
}

proof fn lemma_space_end_shifts(x: Seq<u8>, y: Seq<u8>, i: int, end: int)
    requires
        0 <= i,
        end <= y.len(),
    ensures
        tags::space_end(x + y, x.len() + i, x.len() + end) == x.len() + tags::space_end(y, i, end),
    decreases end - i,
{
    if i < end {
        assert((x + y)[x.len() + i] == y[i]);
        lemma_space_end_shifts(x, y, i + 1, end);
    }
}

proof fn lemma_name_end_shifts(x: Seq<u8>, y: Seq<u8>, i: int, end: int)
    requires
        0 <= i,
        end <= y.len(),
    ensures
        tags::name_end(x + y, x.len() + i, x.len() + end) == x.len() + tags::name_end(y, i, end),
    decreases end - i,
{
    if i < end {
        assert((x + y)[x.len() + i] == y[i]);
        lemma_name_end_shifts(x, y, i + 1, end);
    }
}

proof fn lemma_byte_from_shifts(x: Seq<u8>, y: Seq<u8>, b: u8, i: int)
    requires
        0 <= i,
    ensures
        tags::byte_from(x + y, b, x.len() + i) == x.len() + tags::byte_from(y, b, i),
    decreases y.len() - i,
{
    if i < y.len() {
        assert((x + y)[x.len() + i] == y[i]);
        lemma_byte_from_shifts(x, y, b, i + 1);
    }
}

/// Text that stands before a tag does not change it, but for its place.
pub proof fn law_tag_shifts(
    x: Seq<u8>,
    y: Seq<u8>,
    names: Seq<Seq<u8>>,
    closing: bool,
    at: int,
)
    requires
        0 <= at < y.len(),
    ensures
        tags::tag_end(x + y, x.len() + at) == x.len() + tags::tag_end(y, at),
        tags::tag_at(x + y, names, closing, x.len() + at) == tags::tag_at(y, names, closing, at),
        tags::tag_at(y, names, closing, at) ==> tags::tag_name(x + y, x.len() + at)
            == tags::tag_name(y, at) && tags::has_moderate_space(x + y, x.len() + at)
            == tags::has_moderate_space(y, at),
{
    let n = x.len() as int;
    let t = x + y;
    lemma_byte_from_shifts(x, y, 0x3e, at + 1);
    tags::lemma_byte_from(y, 0x3e, at + 1);
    let end = tags::tag_end(y, at);
    assert(t[n + at] == y[at]);
    if end < y.len() {
        lemma_space_end_shifts(x, y, at + 1, end);
        tags::lemma_space_end(y, at + 1, end);
        let a = tags::space_end(y, at + 1, end);
        assert(t[n + a] == y[a]);
        lemma_space_end_shifts(x, y, a + 1, end);
        let from = if y[a] == 0x2f {
            tags::space_end(y, a + 1, end)
        } else {
            a
        };
        if y[a] == 0x2f && a + 1 <= end {
            tags::lemma_space_end(y, a + 1, end);
        }
        if from < end {
            assert(t[n + from] == y[from]);
            lemma_name_end_shifts(x, y, from + 1, end);
            tags::lemma_name_end(y, from + 1, end);
            let to = tags::name_end(y, from + 1, end);
            lemma_space_end_shifts(x, y, to, end);
            assert(t.subrange(n + from, n + to) =~= y.subrange(from, to));
        }
    }
}

/// Where no tag starts in `x`, the first tag of `x + y` is that of `y`.
pub proof fn law_first_tag_shifts(
    x: Seq<u8>,
    y: Seq<u8>,
    names: Seq<Seq<u8>>,
    closing: bool,
)
    requires
        match tags::find_tag(x + y, names, closing, 0) {
            Some(at) => x.len() <= at,
            None => true,
        },
    ensures
        match tags::find_tag(y, names, closing, 0) {
            Some(at) => tags::find_tag(x + y, names, closing, 0) == Some(x.len() + at) && 0 <= at
                < y.len(),
            None => tags::find_tag(x + y, names, closing, 0) is None,
        },
{
    let n = x.len() as int;
    let t = x + y;
    tags::lemma_find_tag(t, names, closing, 0);
    tags::lemma_find_tag(y, names, closing, 0);
    match tags::find_tag(y, names, closing, 0) {
        Some(at) => {
            law_tag_shifts(x, y, names, closing, at);
            if let Some(j) = tags::find_tag(t, names, closing, 0) {
                law_tag_shifts(x, y, names, closing, j - n);
            }
        },
        None => {
            if let Some(j) = tags::find_tag(t, names, closing, 0) {
                law_tag_shifts(x, y, names, closing, j - n);
            }
        },
    }
}

// ---------------------------------------------------------------------------
// The form of a tag
// ---------------------------------------------------------------------------

/// Whether a text is white space of a tag: blanks, tabs, line breaks and form feeds.
pub open spec fn is_tag_space(s: Seq<u8>) -> bool {
    forall|i: int|
        0 <= i < s.len() ==> #[trigger] s[i] == 0x20 || s[i] == 0x09 || s[i] == 0x0a || s[i] == 0x0d
            || s[i] == 0x0c
}

/// Whether a text is the name of a tool: letters, digits and `_`, `.`, `:` and `-`, the first
/// of which is a letter or `_`.
pub open spec fn is_name(s: Seq<u8>) -> bool {
    &&& s.len() > 0
    &&& 0x41 <= s[0] <= 0x5a || 0x61 <= s[0] <= 0x7a || s[0] == 0x5f
    &&& forall|i: int|
        0 <= i < s.len() ==> 0x41 <= #[trigger] s[i] <= 0x5a || 0x61 <= s[i] <= 0x7a || 0x30 <= s[i]
            <= 0x39 || s[i] == 0x5f || s[i] == 0x2e || s[i] == 0x3a || s[i] == 0x2d
}

/// The names that can stand in a tag.
pub proof fn law_tool_names(name: Seq<u8>)
    ensures
        is_tool_name(name) == is_name(name),
{
    if is_name(name) {
        assert forall|k: int| 0 <= k < name.len() implies tags::is_name_byte(#[trigger] name[k]) by {
        }
    }
    if is_tool_name(name) {
        assert forall|i: int| 0 <= i < name.len() implies 0x41 <= #[trigger] name[i] <= 0x5a || 0x61
            <= name[i] <= 0x7a || 0x30 <= name[i] <= 0x39 || name[i] == 0x5f || name[i] == 0x2e
            || name[i] == 0x3a || name[i] == 0x2d by {
            assert(tags::is_name_byte(name[i]));
        }
    }
}

/// A tag with white space in its three places; the second place is there in a closing tag
/// only.
pub open spec fn spaced_tag(
    w: Seq<u8>,
    x: Seq<u8>,
    name: Seq<u8>,
    y: Seq<u8>,
    closing: bool,
) -> Seq<u8> {
    if closing {
        seq![0x3cu8] + w + seq![0x2fu8] + x + name + y + seq![0x3eu8]
    } else {
        seq![0x3cu8] + w + name + y + seq![0x3eu8]
    }
}

/// A tag is found wherever it stands, with any white space in its places. White space of up
/// to eight bytes in each place is moderate.
#[verifier::spinoff_prover]
#[verifier::rlimit(40)]
pub proof fn law_spaced_tag(
    before: Seq<u8>,
    w: Seq<u8>,
    x: Seq<u8>,
    name: Seq<u8>,
    y: Seq<u8>,
    closing: bool,
    after: Seq<u8>,
    names: Seq<Seq<u8>>,
)
    requires
        is_tag_space(w),
        is_tag_space(x),
        is_tag_space(y),
        is_name(name),
        names.contains(name),
        closing || x.len() == 0,
    ensures
        ({
            let tag = spaced_tag(w, x, name, y, closing);
            let s = before + tag + after;
            let at = before.len() as int;
            &&& tags::tag_at(s, names, closing, at)
            &&& tags::tag_name(s, at) == name
            &&& tags::tag_end(s, at) == at + tag.len() - 1
            &&& w.len() <= 8 && x.len() <= 8 && y.len() <= 8 ==> tags::has_moderate_space(s, at)
        }),
{
    let tag = spaced_tag(w, x, name, y, closing);
    let s = before + tag + after;
    let at = before.len() as int;
    let a = at + 1 + w.len();
    let from: int = if closing {
        a + 1 + x.len()
    } else {
        a
    };
    let to = from + name.len();
    let end = to + y.len();
    law_tool_names(name);
    assert(s[at] == 0x3c);
    assert(s[end] == 0x3e);
    assert forall|k: int| at + 1 <= k < a implies #[trigger] s[k] == w[k - at - 1] by {}
    assert forall|k: int| from <= k < to implies #[trigger] s[k] == name[k - from] by {}
    assert forall|k: int| to <= k < end implies #[trigger] s[k] == y[k - to] by {}
    if closing {
        assert(s[a] == 0x2f);
        assert forall|k: int| a + 1 <= k < from implies #[trigger] s[k] == x[k - a - 1] by {}
    }
    assert(s[from] == name[0]);
    assert forall|k: int| at + 1 <= k < end implies #[trigger] s[k] != 0x3e by {
        if k < a {
            assert(s[k] == w[k - at - 1]);
        } else if k < from {
            if k > a {
                assert(s[k] == x[k - a - 1]);
            }
        } else if k < to {
            assert(s[k] == name[k - from]);
        } else {
            assert(s[k] == y[k - to]);
        }
    }
    tags::lemma_byte_from(s, 0x3e, at + 1);
    assert(tags::tag_end(s, at) == end);
    lemma_space_run(s, at + 1, a, end);
    if closing {
        lemma_space_run(s, a + 1, from, end);
    }
    lemma_name_run(s, from + 1, to, end);
    lemma_space_run(s, to, end, end);
    assert(tags::tag_parts(s, at, end) == Some(TagParts { closing, from, to }));
    assert(s.subrange(from, to) =~= name);
}

/// White space ends where other bytes begin.
proof fn lemma_space_run(s: Seq<u8>, i: int, k: int, end: int)
    requires
        0 <= i <= k <= end,
        forall|j: int| i <= j < k ==> tags::is_space(#[trigger] s[j]),
        k < end ==> !tags::is_space(s[k]),
    ensures
        tags::space_end(s, i, end) == k,
    decreases k - i,
{
    if i < k {
        lemma_space_run(s, i + 1, k, end);
    }
}

/// A name ends where other bytes begin.
proof fn lemma_name_run(s: Seq<u8>, i: int, k: int, end: int)
    requires
        0 <= i <= k <= end,
        forall|j: int| i <= j < k ==> tags::is_name_byte(#[trigger] s[j]),
        k < end ==> !tags::is_name_byte(s[k]),
    ensures
        tags::name_end(s, i, end) == k,
    decreases k - i,
{
    if i < k {
        lemma_name_run(s, i + 1, k, end);
    }
}

/// Whether a text is a tag of one of some names.
pub open spec fn has_form(
    tag: Seq<u8>,
    names: Seq<Seq<u8>>,
    closing: bool,
    w: Seq<u8>,
    x: Seq<u8>,
    name: Seq<u8>,
    y: Seq<u8>,
) -> bool {
    &&& is_tag_space(w)
    &&& is_tag_space(x)
    &&& is_tag_space(y)
    &&& is_name(name)
    &&& names.contains(name)
    &&& tag == spaced_tag(w, x, name, y, closing)
}

/// Nothing else is a tag: what is found is the text of a tag of one of the names, and is
/// opening or closing as was asked for.
#[verifier::spinoff_prover]
#[verifier::rlimit(40)]
pub proof fn law_tag_has_its_form(s: Seq<u8>, names: Seq<Seq<u8>>, closing: bool, at: int)
    requires
        tags::tag_at(s, names, closing, at),
    ensures
        0 <= at < tags::tag_end(s, at) < s.len(),
        exists|w: Seq<u8>, x: Seq<u8>, y: Seq<u8>|
            #[trigger] has_form(
                s.subrange(at, tags::tag_end(s, at) + 1),
                names,
                closing,
                w,
                x,
                tags::tag_name(s, at),
                y,
            ),
{
    let end = tags::tag_end(s, at);
    tags::lemma_byte_from(s, 0x3e, at + 1);
    tags::lemma_tag_parts(s, at, end);
    let a = tags::space_end(s, at + 1, end);
    tags::lemma_space_end(s, at + 1, end);
    let p = tags::tag_parts(s, at, end)->0;
    if closing {
        tags::lemma_space_end(s, a + 1, end);
    }
    tags::lemma_name_end(s, p.from + 1, end);
    tags::lemma_space_end(s, p.to, end);
    let w = s.subrange(at + 1, a);
    let x = if closing {
        s.subrange(a + 1, p.from)
    } else {
        Seq::empty()
    };
    let y = s.subrange(p.to, end);
    let name = s.subrange(p.from, p.to);
    let tag = s.subrange(at, end + 1);
    assert forall|i: int| 0 <= i < w.len() implies #[trigger] w[i] == 0x20 || w[i] == 0x09 || w[i]
        == 0x0a || w[i] == 0x0d || w[i] == 0x0c by {
        assert(tags::is_space(s[at + 1 + i]));
    }
    if closing {
        assert forall|i: int| 0 <= i < x.len() implies #[trigger] x[i] == 0x20 || x[i] == 0x09
            || x[i] == 0x0a || x[i] == 0x0d || x[i] == 0x0c by {
            assert(tags::is_space(s[a + 1 + i]));
        }
    }
    assert forall|i: int| 0 <= i < y.len() implies #[trigger] y[i] == 0x20 || y[i] == 0x09 || y[i]
        == 0x0a || y[i] == 0x0d || y[i] == 0x0c by {
        assert(tags::is_space(s[p.to + i]));
    }
    assert forall|k: int| 0 <= k < name.len() implies tags::is_name_byte(#[trigger] name[k]) by {
        assert(name[k] == s[p.from + k]);
    }
    assert(name[0] == s[p.from]);
    law_tool_names(name);
    assert(tag =~= spaced_tag(w, x, name, y, closing));
    assert(tags::tag_name(s, at) == name);
    assert(has_form(
        s.subrange(at, tags::tag_end(s, at) + 1),
        names,
        closing,
        w,
        x,
        tags::tag_name(s, at),
        y,
    ));
}

/// Whether a text is the start of an opening tag of one of some names: a `<`, white space of
/// up to eight bytes, and then nothing, or the start of a name and white space of up to eight
/// bytes.
pub open spec fn starts_opening_tag(
    v: Seq<u8>,
    names: Seq<Seq<u8>>,
    w: Seq<u8>,
    typed: Seq<u8>,
    y: Seq<u8>,
) -> bool {
    &&& is_tag_space(w) && w.len() <= 8
    &&& is_tag_space(y) && y.len() <= 8
    &&& v == seq![0x3cu8] + w + typed + y
    &&& typed.len() == 0 ==> y.len() == 0
    &&& typed.len() > 0 ==> is_name(typed) && exists|k: int|
        0 <= k < names.len() && typed.is_prefix_of(#[trigger] names[k])
}

proof fn lemma_limited_run(s: Seq<u8>, i: int, n: nat)
    requires
        0 <= i <= s.len(),
    ensures
        i <= tags::limited_space_end(s, i, n) <= s.len(),
        tags::limited_space_end(s, i, n) <= i + n,
        forall|k: int|
            i <= k < tags::limited_space_end(s, i, n) ==> tags::is_space(#[trigger] s[k]),
    decreases n,
{
    if n > 0 && i < s.len() && tags::is_space(s[i]) {
        lemma_limited_run(s, i + 1, (n - 1) as nat);
    }
}

/// No more is held back than the start of an opening tag.
#[verifier::spinoff_prover]
#[verifier::rlimit(40)]
pub proof fn law_only_starts_of_tags_are_partial(v: Seq<u8>, names: Seq<Seq<u8>>)
    requires
        tags::is_partial_tag(v, names, false),
    ensures
        exists|w: Seq<u8>, typed: Seq<u8>, y: Seq<u8>|
            #[trigger] starts_opening_tag(v, names, w, typed, y),
{
    let a = tags::limited_space_end(v, 1, 8);
    lemma_limited_run(v, 1, 8);
    let w = v.subrange(1, a);
    assert forall|i: int| 0 <= i < w.len() implies #[trigger] w[i] == 0x20 || w[i] == 0x09 || w[i]
        == 0x0a || w[i] == 0x0d || w[i] == 0x0c by {
        assert(tags::is_space(v[1 + i]));
    }
    let none = Seq::<u8>::empty();
    if a == v.len() {
        assert(v =~= seq![0x3cu8] + w + none + none);
        assert(starts_opening_tag(v, names, w, none, none));
    } else {
        let to = tags::name_end(v, a + 1, v.len() as int);
        tags::lemma_name_end(v, a + 1, v.len() as int);
        lemma_limited_run(v, to, 8);
        let typed = v.subrange(a, to);
        let y = v.subrange(to, v.len() as int);
        assert forall|i: int| 0 <= i < y.len() implies #[trigger] y[i] == 0x20 || y[i] == 0x09
            || y[i] == 0x0a || y[i] == 0x0d || y[i] == 0x0c by {
            assert(tags::is_space(v[to + i]));
        }
        assert forall|k: int| 0 <= k < typed.len() implies tags::is_name_byte(
            #[trigger] typed[k],
        ) by {
            if k > 0 {
                assert(tags::is_name_byte(v[a + k]));
            }
        }
        law_tool_names(typed);
        assert(v =~= seq![0x3cu8] + w + typed + y);
        assert(starts_opening_tag(v, names, w, typed, y));
    }
}

/// What is told of a tag that was found: where it starts and ends, its text from the `<` to
/// the first `>`, and its name, which is one of those that were looked for and stands in the
/// text.
pub proof fn law_found_tag_is_described(
    m: XmlToolTagMatch,
    s: Seq<u8>,
    names: Seq<Seq<u8>>,
    closing: bool,
    start: int,
)
    requires
        tags::tag_at(s, names, closing, start),
        m.describes(s, start),
    ensures
        ({
            let raw = encode_utf8(m.raw@);
            let name = encode_utf8(m.name@);
            &&& m.index == start
            &&& m.index < m.end_index <= s.len()
            &&& raw == s.subrange(m.index as int, m.end_index as int)
            &&& raw[0] == 0x3c
            &&& raw.last() == 0x3e
            &&& forall|j: int| 0 <= j < raw.len() - 1 ==> #[trigger] raw[j] != 0x3e
            &&& names.contains(name)
            &&& exists|k: int|
                0 < k && k + name.len() < raw.len() && #[trigger] raw.subrange(k, k + name.len())
                    == name
        }),
{
    let end = tags::tag_end(s, start);
    tags::lemma_byte_from(s, 0x3e, start + 1);
    let raw = encode_utf8(m.raw@);
    let name = encode_utf8(m.name@);
    let p = tags::tag_parts(s, start, end)->0;
    assert forall|j: int| 0 <= j < raw.len() - 1 implies #[trigger] raw[j] != 0x3e by {
        assert(raw[j] == s[start + j]);
    }
    let k = p.from - start;
    tags::lemma_tag_parts(s, start, end);
    assert(raw.subrange(k, k + name.len()) =~= name);
}

} // verus!
