//! Mending the JSON that language models write: invalid escapes and keys without
//! quotes.

use vstd::prelude::*;

use crate::json;
use crate::json::json_from_str;
use crate::text;
use crate::text::to_chars;

verus! {

// ---------------------------------------------------------------------------
// Escapes
// ---------------------------------------------------------------------------

/// The characters that can follow a backslash in a JSON string.
pub open spec fn is_escape(c: char) -> bool {
    c == '"' || c == '\\' || c == '/' || c == 'b' || c == 'f' || c == 'n' || c == 'r' || c == 't'
        || c == 'u'
}

/// The text with the backslash of each invalid escape doubled. A backslash at the very end
/// stays as it is.
pub open spec fn mended_escapes(s: Seq<char>) -> Seq<char>
    decreases s.len(),
{
    if s.len() == 0 {
        Seq::empty()
    } else if s[0] != '\\' {
        seq![s[0]] + mended_escapes(s.skip(1))
    } else if s.len() == 1 {
        seq!['\\']
    } else if is_escape(s[1]) {
        seq!['\\', s[1]] + mended_escapes(s.skip(2))
    } else {
        seq!['\\', '\\', s[1]] + mended_escapes(s.skip(2))
    }
}

/// Whether every backslash that something follows starts a valid escape.
pub open spec fn escapes_are_valid(s: Seq<char>) -> bool
    decreases s.len(),
{
    if s.len() == 0 {
        true
    } else if s[0] != '\\' {
        escapes_are_valid(s.skip(1))
    } else if s.len() == 1 {
        true
    } else {
        is_escape(s[1]) && escapes_are_valid(s.skip(2))
    }
}

/// A text whose escapes are valid is not changed.
pub proof fn law_valid_escapes_are_kept(s: Seq<char>)
    requires
        escapes_are_valid(s),
    ensures
        mended_escapes(s) == s,
    decreases s.len(),
{
    if s.len() > 0 && s[0] != '\\' {
        law_valid_escapes_are_kept(s.skip(1));
        assert(s =~= seq![s[0]] + s.skip(1));
    } else if s.len() == 1 {
        assert(s =~= seq!['\\']);
    } else if s.len() > 1 {
        law_valid_escapes_are_kept(s.skip(2));
        assert(s =~= seq!['\\', s[1]] + s.skip(2));
    }
}

/// After mending, all escapes are valid.
pub proof fn law_mended_escapes_are_valid(s: Seq<char>)
    ensures
        escapes_are_valid(mended_escapes(s)),
    decreases s.len(),
{
    let m = mended_escapes(s);
    if s.len() == 0 {
    } else if s[0] != '\\' {
        law_mended_escapes_are_valid(s.skip(1));
        assert(m.skip(1) =~= mended_escapes(s.skip(1)));
    } else if s.len() == 1 {
    } else {
        law_mended_escapes_are_valid(s.skip(2));
        let rest = mended_escapes(s.skip(2));
        if is_escape(s[1]) {
            assert(m.skip(2) =~= rest);
        } else {
            assert(m.skip(2) =~= seq![s[1]] + rest);
            assert((seq![s[1]] + rest).skip(1) =~= rest);
            assert(escapes_are_valid(seq![s[1]] + rest));
        }
    }
}

/// Mending twice is mending once.
pub proof fn law_mending_escapes_is_idempotent(s: Seq<char>)
    ensures
        mended_escapes(mended_escapes(s)) == mended_escapes(s),
{
    law_mended_escapes_are_valid(s);
    law_valid_escapes_are_kept(mended_escapes(s));
}

/// Doubles the backslash of each invalid escape.
pub fn repair_invalid_backslashes(s: &str) -> (r: String)
    ensures
        r@ == mended_escapes(s@),
{
    let chars = to_chars(s);
    let n: usize = chars.len();
    let mut out = String::new();
    let mut i: usize = 0;
    assert(s@.skip(0) =~= s@);
    while i < n
        invariant
            chars@ == s@,
            n == chars@.len(),
            i <= n,
            mended_escapes(s@) == out@ + mended_escapes(s@.skip(i as int)),
        decreases n - i,
    {
        let c = chars[i];
        let ghost before = out@;
        let ghost rest = s@.skip(i as int);
        assert(rest.skip(1) =~= s@.skip(i + 1));
        if c != '\\' {
            out.push(c);
            assert(before + (seq![c] + mended_escapes(rest.skip(1))) =~= out@ + mended_escapes(
                rest.skip(1),
            ));
            i += 1;
        } else if i + 1 == n {
            out.push('\\');
            assert(before + seq!['\\'] =~= out@ + mended_escapes(rest.skip(1)));
            i += 1;
        } else {
            let next = chars[i + 1];
            assert(rest.skip(2) =~= s@.skip(i + 2));
            out.push('\\');
            if !(next == '"' || next == '\\' || next == '/' || next == 'b' || next == 'f' || next
                == 'n' || next == 'r' || next == 't' || next == 'u') {
                out.push('\\');
            }
            out.push(next);
            proof {
                let tail = mended_escapes(rest.skip(2));
                if is_escape(next) {
                    assert(before + (seq!['\\', next] + tail) =~= out@ + tail);
                } else {
                    assert(before + (seq!['\\', '\\', next] + tail) =~= out@ + tail);
                }
            }
            i += 2;
        }
    }
    assert(out@ + mended_escapes(s@.skip(n as int)) =~= out@);
    out
}

// ---------------------------------------------------------------------------
// Keys
// ---------------------------------------------------------------------------

/// A character that a key without quotes can start with.
pub open spec fn is_key_start(c: char) -> bool {
    text::is_alphabetic(c) || c == '_'
}

/// A character that a key without quotes can hold.
pub open spec fn is_key_char(c: char) -> bool {
    text::is_alphanumeric(c) || c == '_'
}

/// The end of the white space that starts at `i`.
pub open spec fn white_end(s: Seq<char>, i: int) -> int
    decreases s.len() - i,
{
    if 0 <= i < s.len() && text::is_white_space(s[i]) {
        white_end(s, i + 1)
    } else {
        i
    }
}

/// The end of the key characters that start at `i`.
pub open spec fn key_end(s: Seq<char>, i: int) -> int
    decreases s.len() - i,
{
    if 0 <= i < s.len() && is_key_char(s[i]) {
        key_end(s, i + 1)
    } else {
        i
    }
}

/// The white space that starts at `i` and what ends it.
proof fn lemma_white_run(s: Seq<char>, i: int)
    requires
        0 <= i <= s.len(),
    ensures
        i <= white_end(s, i) <= s.len(),
        forall|k: int| i <= k < white_end(s, i) ==> text::is_white_space(#[trigger] s[k]),
        white_end(s, i) < s.len() ==> !text::is_white_space(s[white_end(s, i)]),
    decreases s.len() - i,
{
    if i < s.len() && text::is_white_space(s[i]) {
        lemma_white_run(s, i + 1);
    }
}

/// The key characters that start at `i` and what ends them.
proof fn lemma_key_run(s: Seq<char>, i: int)
    requires
        0 <= i <= s.len(),
    ensures
        i <= key_end(s, i) <= s.len(),
        forall|k: int| i <= k < key_end(s, i) ==> is_key_char(#[trigger] s[k]),
        key_end(s, i) < s.len() ==> !is_key_char(s[key_end(s, i)]),
    decreases s.len() - i,
{
    if i < s.len() && is_key_char(s[i]) {
        lemma_key_run(s, i + 1);
    }
}

/// Whether a key can follow at `i`: a brace or a comma that is not the last character.
pub open spec fn opens_member(s: Seq<char>, i: int) -> bool {
    (s[i] == '{' || s[i] == ',') && i + 1 < s.len()
}

/// Where the scan goes on behind the brace or comma at `i`: behind the white space and the
/// word that follow.
pub open spec fn member_end(s: Seq<char>, i: int) -> int {
    let j = white_end(s, i + 1);
    if j < s.len() && is_key_start(s[j]) {
        key_end(s, j)
    } else {
        j
    }
}

/// The scan goes forward.
pub proof fn lemma_member_end(s: Seq<char>, i: int)
    requires
        0 <= i,
        opens_member(s, i),
    ensures
        i < white_end(s, i + 1) <= member_end(s, i) <= s.len(),
{
    lemma_white_run(s, i + 1);
    lemma_key_run(s, white_end(s, i + 1));
}

/// What the brace or comma at `i`, the white space and the word behind it become: the word
/// gets quotes where a colon follows it.
pub open spec fn mended_member(s: Seq<char>, i: int) -> Seq<char> {
    let j = white_end(s, i + 1);
    let k = member_end(s, i);
    if j < s.len() && is_key_start(s[j]) && k < s.len() && s[k] == ':' {
        s.subrange(i, j) + "\""@ + s.subrange(j, k) + "\""@
    } else {
        s.subrange(i, k)
    }
}

/// The text from `i` on with quotes around the words that stand between a brace or comma
/// and a colon.
pub open spec fn mended_keys_from(s: Seq<char>, i: int) -> Seq<char>
    decreases s.len() - i,
{
    if i >= s.len() || i < 0 {
        Seq::empty()
    } else if opens_member(s, i) {
        proof {
            lemma_member_end(s, i);
        }
        mended_member(s, i) + mended_keys_from(s, member_end(s, i))
    } else {
        seq![s[i]] + mended_keys_from(s, i + 1)
    }
}

/// The text with quotes around the words that stand between a brace or comma and a colon.
pub open spec fn mended_keys(s: Seq<char>) -> Seq<char> {
    mended_keys_from(s, 0)
}

/// Whether the word behind the brace or comma at `i` gets quotes.
pub open spec fn needs_quotes(s: Seq<char>, i: int) -> bool {
    let j = white_end(s, i + 1);
    let k = member_end(s, i);
    opens_member(s, i) && j < s.len() && is_key_start(s[j]) && k < s.len() && s[k] == ':'
}

/// A text in which no word stands between a brace or comma and a colon is kept as it is.
pub proof fn law_quoted_keys_are_kept(s: Seq<char>)
    requires
        forall|i: int| 0 <= i < s.len() ==> !#[trigger] needs_quotes(s, i),
    ensures
        mended_keys(s) == s,
{
    lemma_quoted_keys_are_kept(s, 0);
    assert(s.subrange(0, s.len() as int) =~= s);
}

proof fn lemma_quoted_keys_are_kept(s: Seq<char>, i: int)
    requires
        0 <= i <= s.len(),
        forall|i: int| 0 <= i < s.len() ==> !#[trigger] needs_quotes(s, i),
    ensures
        mended_keys_from(s, i) == s.subrange(i, s.len() as int),
    decreases s.len() - i,
{
    if i < s.len() {
        assert(!needs_quotes(s, i));
        if opens_member(s, i) {
            lemma_member_end(s, i);
            let k = member_end(s, i);
            lemma_quoted_keys_are_kept(s, k);
            assert(s.subrange(i, k) + s.subrange(k, s.len() as int) =~= s.subrange(
                i,
                s.len() as int,
            ));
        } else {
            lemma_quoted_keys_are_kept(s, i + 1);
            assert(seq![s[i]] + s.subrange(i + 1, s.len() as int) =~= s.subrange(
                i,
                s.len() as int,
            ));
        }
    }
}

/// Where white space ends.
proof fn lemma_white_end_is(s: Seq<char>, i: int, end: int)
    requires
        0 <= i <= end <= s.len(),
        forall|k: int| i <= k < end ==> text::is_white_space(#[trigger] s[k]),
        end < s.len() ==> !text::is_white_space(s[end]),
    ensures
        white_end(s, i) == end,
    decreases end - i,
{
    if i < end {
        lemma_white_end_is(s, i + 1, end);
    }
}

/// Where key characters end.
proof fn lemma_key_end_is(s: Seq<char>, i: int, end: int)
    requires
        0 <= i <= end <= s.len(),
        forall|k: int| i <= k < end ==> is_key_char(#[trigger] s[k]),
        end < s.len() ==> !is_key_char(s[end]),
    ensures
        key_end(s, i) == end,
    decreases end - i,
{
    if i < end {
        lemma_key_end_is(s, i + 1, end);
    }
}

/// Text before a brace or comma does not matter.
proof fn lemma_needs_quotes_shifts(p: Seq<char>, y: Seq<char>, q: int)
    requires
        0 <= q < y.len(),
    ensures
        needs_quotes(p + y, p.len() + q) == needs_quotes(y, q),
{
    let n = p.len() as int;
    let t = p + y;
    assert(t[n + q] == y[q]);
    if opens_member(y, q) {
        lemma_white_run(y, q + 1);
        let j = white_end(y, q + 1);
        assert forall|k: int| n + q + 1 <= k < n + j implies text::is_white_space(
            #[trigger] t[k],
        ) by {
            assert(t[k] == y[k - n]);
        }
        lemma_white_end_is(t, n + q + 1, n + j);
        if j < y.len() {
            assert(t[n + j] == y[j]);
            lemma_key_run(y, j);
            let k = key_end(y, j);
            assert forall|m: int| n + j <= m < n + k implies is_key_char(#[trigger] t[m]) by {
                assert(t[m] == y[m - n]);
            }
            lemma_key_end_is(t, n + j, n + k);
        }
    }
}

/// Mending keeps the first character.
proof fn lemma_mending_keeps_start(s: Seq<char>, i: int)
    requires
        0 <= i < s.len(),
    ensures
        mended_keys_from(s, i).len() > 0,
        mended_keys_from(s, i)[0] == s[i],
{
    if opens_member(s, i) {
        lemma_member_end(s, i);
        let j = white_end(s, i + 1);
        assert(s.subrange(i, j)[0] == s[i]);
        assert(s.subrange(i, member_end(s, i))[0] == s[i]);
        assert(mended_member(s, i)[0] == s[i]);
    }
}

/// The words of a mended member need no quotes.
proof fn lemma_member_is_mended(s: Seq<char>, i: int, q: int)
    requires
        0 <= i < s.len(),
        opens_member(s, i),
        0 <= q < mended_member(s, i).len(),
    ensures
        !needs_quotes(mended_member(s, i) + mended_keys_from(s, member_end(s, i)), q),
{
    reveal_strlit("\"");
    let j = white_end(s, i + 1);
    let k = member_end(s, i);
    let head = mended_member(s, i);
    let rest = mended_keys_from(s, k);
    let y = head + rest;
    lemma_member_end(s, i);
    lemma_white_run(s, i + 1);
    let word = j < s.len() && is_key_start(s[j]);
    if word {
        lemma_key_run(s, j);
    }
    let lead = s.subrange(i, j);
    assert forall|m: int| 1 <= m < j - i implies text::is_white_space(#[trigger] y[m]) by {
        assert(y[m] == lead[m]);
        assert(text::is_white_space(s[i + m]));
    }
    if needs_quotes(s, i) {
        assert(head =~= lead + seq!['"'] + s.subrange(j, k) + seq!['"']);
        assert(y[j - i] == '"');
        if q == 0 {
            lemma_white_end_is(y, 1, j - i);
        } else if j - i < q < head.len() - 1 {
            assert(y[q] == s[q - 1 + i]);
            assert(is_key_char(s[q - 1 + i]));
        } else if q < j - i {
            assert(text::is_white_space(y[q]));
        }
    } else {
        assert(head == s.subrange(i, k));
        if q == 0 {
            if k < s.len() {
                lemma_mending_keeps_start(s, k);
                assert(y[k - i] == s[k]);
            }
            if word {
                assert(y[j - i] == s[j]);
                lemma_white_end_is(y, 1, j - i);
                assert forall|m: int| j - i <= m < k - i implies is_key_char(#[trigger] y[m]) by {
                    assert(y[m] == s[i + m]);
                }
                lemma_key_end_is(y, j - i, k - i);
            } else {
                lemma_white_end_is(y, 1, j - i);
            }
        } else if q < j - i {
            assert(text::is_white_space(y[q]));
        } else {
            assert(y[q] == s[i + q]);
            assert(is_key_char(s[i + q]));
        }
    }
}

/// After mending, no word stands without quotes between a brace or comma and a colon.
pub proof fn law_mended_keys_are_quoted(s: Seq<char>, q: int)
    requires
        0 <= q < mended_keys(s).len(),
    ensures
        !needs_quotes(mended_keys(s), q),
{
    lemma_mended_keys_are_quoted(s, 0, q);
}

proof fn lemma_mended_keys_are_quoted(s: Seq<char>, i: int, q: int)
    requires
        0 <= i <= s.len(),
        0 <= q < mended_keys_from(s, i).len(),
    ensures
        !needs_quotes(mended_keys_from(s, i), q),
    decreases s.len() - i,
{
    let y = mended_keys_from(s, i);
    if opens_member(s, i) {
        lemma_member_end(s, i);
        let head = mended_member(s, i);
        let rest = mended_keys_from(s, member_end(s, i));
        if q < head.len() {
            lemma_member_is_mended(s, i, q);
        } else {
            lemma_mended_keys_are_quoted(s, member_end(s, i), q - head.len());
            lemma_needs_quotes_shifts(head, rest, q - head.len());
        }
    } else if q > 0 {
        let rest = mended_keys_from(s, i + 1);
        lemma_mended_keys_are_quoted(s, i + 1, q - 1);
        lemma_needs_quotes_shifts(seq![s[i]], rest, q - 1);
    } else if i + 1 >= s.len() {
        assert(mended_keys_from(s, i + 1).len() == 0);
    }
}

/// Putting quotes around keys twice is doing so once.
pub proof fn law_mending_keys_is_idempotent(s: Seq<char>)
    ensures
        mended_keys(mended_keys(s)) == mended_keys(s),
{
    let m = mended_keys(s);
    assert forall|q: int| 0 <= q < m.len() implies !#[trigger] needs_quotes(m, q) by {
        law_mended_keys_are_quoted(s, q);
    }
    law_quoted_keys_are_kept(m);
}

/// Puts quotes around keys that have none.
pub fn repair_unquoted_keys(s: &str) -> (r: String)
    ensures
        r@ == mended_keys(s@),
{
    let chars = to_chars(s);
    let len: usize = chars.len();
    let mut out = String::new();
    let mut i: usize = 0;
    while i < len
        invariant
            chars@ == s@,
            len == chars@.len(),
            i <= len,
            mended_keys(s@) == out@ + mended_keys_from(s@, i as int),
        decreases len - i,
    {
        let ghost before = out@;
        let ghost at = i as int;
        if (chars[i] == '{' || chars[i] == ',') && i + 1 < len {
            out.push(chars[i]);
            i += 1;
            while i < len && chars[i].is_whitespace()
                invariant
                    chars@ == s@,
                    len == chars@.len(),
                    at + 1 <= i <= len,
                    0 <= at,
                    white_end(s@, at + 1) == white_end(s@, i as int),
                    out@ == before + s@.subrange(at, i as int),
                decreases len - i,
            {
                out.push(chars[i]);
                assert(s@.subrange(at, i + 1) =~= s@.subrange(at, i as int).push(s@[i as int]));
                i += 1;
            }
            let ghost j = i as int;
            assert(j == white_end(s@, at + 1));
            if i < len && (chars[i].is_alphabetic() || chars[i] == '_') {
                let key_start: usize = i;
                while i < len && (chars[i].is_alphanumeric() || chars[i] == '_')
                    invariant
                        chars@ == s@,
                        len == chars@.len(),
                        key_start <= i <= len,
                        key_end(s@, key_start as int) == key_end(s@, i as int),
                    decreases len - i,
                {
                    i += 1;
                }
                let quoted = i < len && chars[i] == ':';
                if quoted {
                    out.push('"');
                }
                let ghost mid = out@;
                let mut m: usize = key_start;
                while m < i
                    invariant
                        chars@ == s@,
                        key_start <= m <= i <= chars@.len(),
                        out@ == mid + s@.subrange(key_start as int, m as int),
                    decreases i - m,
                {
                    out.push(chars[m]);
                    assert(s@.subrange(key_start as int, m + 1) =~= s@.subrange(
                        key_start as int,
                        m as int,
                    ).push(s@[m as int]));
                    m += 1;
                }
                if quoted {
                    out.push('"');
                }
                proof {
                    reveal_strlit("\"");
                    assert(i == member_end(s@, at));
                    assert("\""@ =~= seq!['"']);
                    if quoted {
                        assert(mended_member(s@, at) == s@.subrange(at, j) + "\""@ + s@.subrange(
                            j,
                            i as int,
                        ) + "\""@);
                        assert(out@ =~= before + mended_member(s@, at));
                    } else {
                        assert(s@.subrange(at, j) + s@.subrange(j, i as int) =~= s@.subrange(
                            at,
                            i as int,
                        ));
                        assert(out@ =~= before + mended_member(s@, at));
                    }
                }
            } else {
                assert(out@ =~= before + mended_member(s@, at));
            }
            assert(before + (mended_member(s@, at) + mended_keys_from(s@, i as int)) =~= out@
                + mended_keys_from(s@, i as int));
        } else {
            out.push(chars[i]);
            assert(before + (seq![s@[at]] + mended_keys_from(s@, at + 1)) =~= out@
                + mended_keys_from(s@, at + 1));
            i += 1;
        }
    }
    assert(out@ + mended_keys_from(s@, len as int) =~= out@);
    out
}

// ---------------------------------------------------------------------------
// Both
// ---------------------------------------------------------------------------

/// The mended text: with mended escapes if that makes it JSON, with mended keys as well if
/// that does, `None` otherwise.
pub open spec fn mended_json(s: Seq<char>) -> Option<Seq<char>> {
    let escapes = mended_escapes(s);
    let keys = mended_keys(escapes);
    if json::json_parse(escapes) is Some {
        Some(escapes)
    } else if json::json_parse(keys) is Some {
        Some(keys)
    } else {
        None
    }
}

/// Mends a text until `serde_json` accepts it: first its escapes, then its keys too.
pub fn repair_json(s: &str) -> (r: Option<String>)
    ensures
        match r {
            Some(t) => mended_json(s@) == Some(t@),
            None => mended_json(s@) is None,
        },
{
    let escapes = repair_invalid_backslashes(s);
    if json_from_str(escapes.as_str()).is_ok() {
        return Some(escapes);
    }
    let keys = repair_unquoted_keys(escapes.as_str());
    if json_from_str(keys.as_str()).is_ok() {
        return Some(keys);
    }
    None
}

// ---------------------------------------------------------------------------
// What mending does
// ---------------------------------------------------------------------------

/// Whether a text does not end within an escape.
pub open spec fn ends_outside_escapes(s: Seq<char>) -> bool
    decreases s.len(),
{
    if s.len() == 0 {
        true
    } else if s[0] != '\\' {
        ends_outside_escapes(s.skip(1))
    } else {
        s.len() > 1 && ends_outside_escapes(s.skip(2))
    }
}

/// What follows a whole escape is mended on its own.
pub proof fn law_escapes_are_mended_one_by_one(a: Seq<char>, b: Seq<char>)
    requires
        ends_outside_escapes(a),
    ensures
        mended_escapes(a + b) == mended_escapes(a) + mended_escapes(b),
    decreases a.len(),
{
    if a.len() == 0 {
        assert(a + b =~= b);
        assert(mended_escapes(a) + mended_escapes(b) =~= mended_escapes(b));
    } else if a[0] != '\\' {
        law_escapes_are_mended_one_by_one(a.skip(1), b);
        assert((a + b).skip(1) =~= a.skip(1) + b);
        assert(mended_escapes(a + b) =~= mended_escapes(a) + mended_escapes(b));
    } else {
        law_escapes_are_mended_one_by_one(a.skip(2), b);
        assert((a + b).skip(2) =~= a.skip(2) + b);
        assert((a + b)[1] == a[1]);
        assert(mended_escapes(a + b) =~= mended_escapes(a) + mended_escapes(b));
    }
}

/// A character that is no backslash is kept. A backslash is kept before a character that can
/// be escaped in JSON, and at the very end, and is doubled before any other character, which
/// is kept too.
pub proof fn law_only_invalid_escapes_change(c: char)
    ensures
        c != '\\' ==> mended_escapes(seq![c]) == seq![c],
        mended_escapes(seq!['\\']) == seq!['\\'],
        c == '"' || c == '\\' || c == '/' || c == 'b' || c == 'f' || c == 'n' || c == 'r' || c
            == 't' || c == 'u' ==> mended_escapes(seq!['\\', c]) == seq!['\\', c],
        c != '"' && c != '\\' && c != '/' && c != 'b' && c != 'f' && c != 'n' && c != 'r' && c
            != 't' && c != 'u' ==> mended_escapes(seq!['\\', c]) == seq!['\\', '\\', c],
{
    let one = seq![c];
    let two = seq!['\\', c];
    assert(one.skip(1) =~= Seq::<char>::empty());
    assert(two.skip(2) =~= Seq::<char>::empty());
    assert(mended_escapes(Seq::empty()) =~= Seq::<char>::empty());
    assert(two[0] == '\\' && two[1] == c);
    if c != '\\' {
        assert(mended_escapes(one) =~= seq![c]);
    }
    if is_escape(c) {
        assert(mended_escapes(two) =~= seq!['\\', c]);
    } else {
        assert(mended_escapes(two) =~= seq!['\\', '\\', c]);
    }
}

/// White space goes on in a longer text only where it reaches to the end.
proof fn lemma_white_end_splits(a: Seq<char>, y: Seq<char>, i: int)
    requires
        0 <= i <= a.len(),
        y.len() > 0,
        !text::is_white_space(y[0]),
    ensures
        white_end(a + y, i) == white_end(a, i),
{
    let s = a + y;
    lemma_white_run(a, i);
    let j = white_end(a, i);
    assert forall|k: int| i <= k < j implies text::is_white_space(#[trigger] s[k]) by {
        assert(s[k] == a[k]);
    }
    if j < a.len() {
        assert(s[j] == a[j]);
    } else {
        assert(s[j] == y[0]);
    }
    lemma_white_end_is(s, i, j);
}

proof fn lemma_key_end_splits(a: Seq<char>, y: Seq<char>, i: int)
    requires
        0 <= i <= a.len(),
        y.len() > 0,
        !is_key_char(y[0]),
    ensures
        key_end(a + y, i) == key_end(a, i),
{
    let s = a + y;
    lemma_key_run(a, i);
    let j = key_end(a, i);
    assert forall|k: int| i <= k < j implies is_key_char(#[trigger] s[k]) by {
        assert(s[k] == a[k]);
    }
    if j < a.len() {
        assert(s[j] == a[j]);
    } else {
        assert(s[j] == y[0]);
    }
    lemma_key_end_is(s, i, j);
}

/// What follows from a brace or comma on is mended on its own.
pub proof fn law_members_are_mended_one_by_one(a: Seq<char>, y: Seq<char>)
    requires
        y.len() > 0,
        y[0] == '{' || y[0] == ',',
    ensures
        mended_keys(a + y) == mended_keys(a) + mended_keys(y),
{
    lemma_members_are_mended_one_by_one(a, y, 0);
}

#[verifier::spinoff_prover]
proof fn lemma_members_are_mended_one_by_one(a: Seq<char>, y: Seq<char>, i: int)
    requires
        y.len() > 0,
        y[0] == '{' || y[0] == ',',
        0 <= i <= a.len(),
    ensures
        mended_keys_from(a + y, i) == mended_keys_from(a, i) + mended_keys(y),
    decreases a.len() - i,
{
    let s = a + y;
    if i == a.len() {
        lemma_tail_is_mended_alone(a, y, 0);
        assert(mended_keys_from(a, i) + mended_keys(y) =~= mended_keys(y));
    } else {
        assert(s[i] == a[i]);
        if a[i] == '{' || a[i] == ',' {
            lemma_white_end_splits(a, y, i + 1);
            let j = white_end(a, i + 1);
            lemma_white_run(a, i + 1);
            if j < a.len() {
                assert(s[j] == a[j]);
            } else {
                assert(s[j] == y[0]);
            }
            lemma_key_end_splits(a, y, j);
            lemma_key_run(a, j);
            let k = member_end(s, i);
            assert(opens_member(s, i));
            if i + 1 < a.len() {
                assert(member_end(a, i) == k);
                if k < a.len() {
                    assert(s[k] == a[k]);
                } else {
                    assert(s[k] == y[0]);
                }
                assert(s.subrange(i, j) =~= a.subrange(i, j));
                assert(s.subrange(j, k) =~= a.subrange(j, k));
                assert(s.subrange(i, k) =~= a.subrange(i, k));
                lemma_member_end(a, i);
                lemma_members_are_mended_one_by_one(a, y, k);
                assert(mended_member(s, i) == mended_member(a, i));
                assert(mended_member(a, i) + (mended_keys_from(a, k) + mended_keys(y)) =~= (
                mended_member(a, i) + mended_keys_from(a, k)) + mended_keys(y));
            } else {
                assert(k == i + 1);
                assert(s[k] == y[0]);
                lemma_members_are_mended_one_by_one(a, y, k);
                assert(s.subrange(i, k) =~= seq![a[i]]);
                assert(mended_keys_from(a, i + 1) =~= Seq::<char>::empty());
                assert(seq![a[i]] + (mended_keys_from(a, k) + mended_keys(y)) =~= (seq![a[i]]
                    + mended_keys_from(a, k)) + mended_keys(y));
            }
        } else {
            lemma_members_are_mended_one_by_one(a, y, i + 1);
            assert(seq![a[i]] + (mended_keys_from(a, i + 1) + mended_keys(y)) =~= (seq![a[i]]
                + mended_keys_from(a, i + 1)) + mended_keys(y));
        }
    }
}

/// The end of a text is mended like a text of its own.
proof fn lemma_tail_is_mended_alone(a: Seq<char>, y: Seq<char>, i: int)
    requires
        0 <= i <= y.len(),
    ensures
        mended_keys_from(a + y, a.len() + i) == mended_keys_from(y, i),
    decreases y.len() - i,
{
    let s = a + y;
    let n = a.len() as int;
    if i < y.len() {
        assert(s[n + i] == y[i]);
        if opens_member(y, i) {
            lemma_white_run(y, i + 1);
            let j = white_end(y, i + 1);
            assert forall|k: int| n + i + 1 <= k < n + j implies text::is_white_space(
                #[trigger] s[k],
            ) by {
                assert(s[k] == y[k - n]);
            }
            if j < y.len() {
                assert(s[n + j] == y[j]);
            }
            lemma_white_end_is(s, n + i + 1, n + j);
            lemma_key_run(y, j);
            let k = key_end(y, j);
            assert forall|m: int| n + j <= m < n + k implies is_key_char(#[trigger] s[m]) by {
                assert(s[m] == y[m - n]);
            }
            if k < y.len() {
                assert(s[n + k] == y[k]);
            }
            lemma_key_end_is(s, n + j, n + k);
            let e = member_end(y, i);
            lemma_member_end(y, i);
            assert(member_end(s, n + i) == n + e);
            assert(s.subrange(n + i, n + j) =~= y.subrange(i, j));
            assert(s.subrange(n + j, n + e) =~= y.subrange(j, e));
            assert(s.subrange(n + i, n + e) =~= y.subrange(i, e));
            if e < y.len() {
                assert(s[n + e] == y[e]);
            }
            lemma_tail_is_mended_alone(a, y, e);
        } else {
            lemma_tail_is_mended_alone(a, y, i + 1);
        }
    }
}

/// Whether a text is white space.
pub open spec fn is_blank(s: Seq<char>) -> bool {
    forall|i: int| 0 <= i < s.len() ==> text::is_white_space(#[trigger] s[i])
}

/// Whether a text is a word that can be a key: letters, digits and underscores, the first of
/// which is no digit.
pub open spec fn is_word(s: Seq<char>) -> bool {
    &&& s.len() > 0
    &&& text::is_alphabetic(s[0]) || s[0] == '_'
    &&& forall|i: int|
        0 <= i < s.len() ==> text::is_alphanumeric(#[trigger] s[i]) || s[i] == '_'
}

/// A word between a brace or comma and a colon gets quotation marks, and the white space
/// before it is kept. The rest is mended on its own.
#[verifier::spinoff_prover]
pub proof fn law_key_gets_quotes(
    opener: char,
    blank: Seq<char>,
    word: Seq<char>,
    rest: Seq<char>,
)
    requires
        opener == '{' || opener == ',',
        is_blank(blank),
        is_word(word),
        !text::is_white_space(word[0]),
    ensures
        mended_keys(seq![opener] + blank + word + seq![':'] + rest) == seq![opener] + blank
            + seq!['"'] + word + seq!['"', ':'] + mended_keys(rest),
{
    let head = seq![opener] + blank + word;
    let s = head + seq![':'] + rest;
    let j = 1 + blank.len() as int;
    let k = j + word.len();
    assert forall|m: int| 1 <= m < j implies text::is_white_space(#[trigger] s[m]) by {
        assert(s[m] == blank[m - 1]);
    }
    assert forall|m: int| j <= m < k implies is_key_char(#[trigger] s[m]) by {
        assert(s[m] == word[m - j]);
    }
    assert(s[j] == word[0]);
    assert(s[k] == ':');
    lemma_white_end_is(s, 1, j);
    lemma_key_end_is(s, j, k);
    assert(member_end(s, 0) == k);
    reveal_strlit("\"");
    assert(s.subrange(0, j) =~= seq![opener] + blank);
    assert(s.subrange(j, k) =~= word);
    assert(mended_member(s, 0) =~= seq![opener] + blank + seq!['"'] + word + seq!['"']);
    assert(mended_keys_from(s, k) == seq![':'] + mended_keys_from(s, k + 1));
    lemma_tail_is_mended_alone(head + seq![':'], rest, 0);
    assert(mended_keys(s) == mended_member(s, 0) + mended_keys_from(s, k));
    assert(mended_keys(s) =~= seq![opener] + blank + seq!['"'] + word + seq!['"', ':']
        + mended_keys(rest));
}

/// A character that is no brace and no comma is kept, and the rest is mended on its own.
pub proof fn law_other_characters_are_kept(c: char, rest: Seq<char>)
    requires
        c != '{',
        c != ',',
    ensures
        mended_keys(seq![c] + rest) == seq![c] + mended_keys(rest),
        mended_keys(Seq::empty()).len() == 0,
{
    let s = seq![c] + rest;
    assert(s[0] == c);
    lemma_tail_is_mended_alone(seq![c], rest, 0);
    assert(mended_keys(s) == seq![c] + mended_keys_from(s, 1));
}

/// The text without its quotation marks.
pub open spec fn without_quotes(s: Seq<char>) -> Seq<char>
    decreases s.len(),
{
    if s.len() == 0 {
        Seq::empty()
    } else if s.last() == '"' {
        without_quotes(s.drop_last())
    } else {
        without_quotes(s.drop_last()).push(s.last())
    }
}

proof fn lemma_without_quotes_concat(a: Seq<char>, b: Seq<char>)
    ensures
        without_quotes(a + b) == without_quotes(a) + without_quotes(b),
    decreases b.len(),
{
    if b.len() == 0 {
        assert(a + b =~= a);
        assert(without_quotes(a) + without_quotes(b) =~= without_quotes(a));
    } else {
        assert((a + b).drop_last() =~= a + b.drop_last());
        lemma_without_quotes_concat(a, b.drop_last());
        assert(without_quotes(a + b) =~= without_quotes(a) + without_quotes(b));
    }
}

/// Mending keys adds quotation marks and changes nothing else.
pub proof fn law_only_quotes_are_added(s: Seq<char>)
    ensures
        without_quotes(mended_keys(s)) == without_quotes(s),
{
    lemma_only_quotes_are_added(s, 0);
    assert(s.skip(0) =~= s);
}

proof fn lemma_only_quotes_are_added(s: Seq<char>, i: int)
    requires
        0 <= i <= s.len(),
    ensures
        without_quotes(mended_keys_from(s, i)) == without_quotes(s.skip(i)),
    decreases s.len() - i,
{
    if i < s.len() {
        if opens_member(s, i) {
            lemma_member_end(s, i);
            let j = white_end(s, i + 1);
            let k = member_end(s, i);
            lemma_only_quotes_are_added(s, k);
            let rest = mended_keys_from(s, k);
            let head = mended_member(s, i);
            lemma_without_quotes_concat(head, rest);
            lemma_without_quotes_concat(s.subrange(i, k), s.skip(k));
            assert(s.subrange(i, k) + s.skip(k) =~= s.skip(i));
            if needs_quotes(s, i) {
                reveal_strlit("\"");
                let q = "\""@;
                let x = s.subrange(i, j);
                let y = s.subrange(j, k);
                assert(q.drop_last() =~= Seq::<char>::empty());
                assert(without_quotes(q.drop_last()) =~= Seq::<char>::empty());
                assert(without_quotes(q) =~= Seq::<char>::empty());
                lemma_without_quotes_concat(x, q);
                lemma_without_quotes_concat(x + q, y);
                lemma_without_quotes_concat(x + q + y, q);
                lemma_without_quotes_concat(x, y);
                assert(x + y =~= s.subrange(i, k));
                assert(without_quotes(head) =~= without_quotes(x) + without_quotes(y));
            }
        } else {
            lemma_only_quotes_are_added(s, i + 1);
            let one = seq![s[i]];
            lemma_without_quotes_concat(one, mended_keys_from(s, i + 1));
            lemma_without_quotes_concat(one, s.skip(i + 1));
            assert(one + s.skip(i + 1) =~= s.skip(i));
        }
    } else {
        assert(s.skip(i) =~= Seq::<char>::empty());
        assert(mended_keys_from(s, i) =~= Seq::<char>::empty());
    }
}

/// A text is mended no further than needed: what is JSON once its escapes are mended is not
/// given quotation marks, and what does not become JSON is not mended at all. What is mended
/// is JSON.
pub proof fn law_mended_text_is_json(s: Seq<char>)
    ensures
        match mended_json(s) {
            Some(t) => json::json_parse(t) is Some && (t == mended_escapes(s) || json::json_parse(
                mended_escapes(s),
            ) is None && t == mended_keys(mended_escapes(s))),
            None => json::json_parse(mended_escapes(s)) is None && json::json_parse(
                mended_keys(mended_escapes(s)),
            ) is None,
        },
{
}

/// A word that no colon follows directly gets no quotation marks. The rest is mended on its
/// own.
#[verifier::spinoff_prover]
pub proof fn law_other_words_are_kept(
    opener: char,
    blank: Seq<char>,
    word: Seq<char>,
    rest: Seq<char>,
)
    requires
        opener == '{' || opener == ',',
        is_blank(blank),
        is_word(word),
        !text::is_white_space(word[0]),
        rest.len() == 0 || rest[0] != ':' && rest[0] != '_' && !text::is_alphanumeric(rest[0]),
    ensures
        mended_keys(seq![opener] + blank + word + rest) == seq![opener] + blank + word
            + mended_keys(rest),
{
    let head = seq![opener] + blank + word;
    let s = head + rest;
    let j = 1 + blank.len() as int;
    let k = j + word.len();
    assert forall|m: int| 1 <= m < j implies text::is_white_space(#[trigger] s[m]) by {
        assert(s[m] == blank[m - 1]);
    }
    assert forall|m: int| j <= m < k implies is_key_char(#[trigger] s[m]) by {
        assert(s[m] == word[m - j]);
    }
    assert(s[j] == word[0]);
    if rest.len() > 0 {
        assert(s[k] == rest[0]);
    }
    lemma_white_end_is(s, 1, j);
    lemma_key_end_is(s, j, k);
    assert(member_end(s, 0) == k);
    assert(s.subrange(0, k) =~= head);
    lemma_tail_is_mended_alone(head, rest, 0);
    assert(mended_keys(s) == mended_member(s, 0) + mended_keys_from(s, k));
}

/// What follows a brace or comma and is no word is kept, with the white space before it. The
/// rest is mended on its own.
#[verifier::spinoff_prover]
pub proof fn law_no_word_no_quotes(opener: char, blank: Seq<char>, rest: Seq<char>)
    requires
        opener == '{' || opener == ',',
        is_blank(blank),
        rest.len() == 0 || rest[0] != '_' && !text::is_alphabetic(rest[0])
            && !text::is_white_space(rest[0]),
    ensures
        mended_keys(seq![opener] + blank + rest) == seq![opener] + blank + mended_keys(rest),
{
    let head = seq![opener] + blank;
    let s = head + rest;
    let j = 1 + blank.len() as int;
    assert forall|m: int| 1 <= m < j implies text::is_white_space(#[trigger] s[m]) by {
        assert(s[m] == blank[m - 1]);
    }
    if rest.len() > 0 {
        assert(s[j] == rest[0]);
    }
    lemma_tail_is_mended_alone(head, rest, 0);
    if s.len() > 1 {
        lemma_white_end_is(s, 1, j);
        assert(member_end(s, 0) == j);
        assert(s.subrange(0, j) =~= head);
        assert(mended_keys(s) == mended_member(s, 0) + mended_keys_from(s, j));
    } else {
        assert(mended_keys_from(s, 1) =~= Seq::<char>::empty());
        assert(mended_keys(s) =~= seq![opener]);
        assert(head + mended_keys(rest) =~= seq![opener]);
    }
}

} // verus!
