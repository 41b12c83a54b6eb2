//! Text helpers: slicing at byte offsets, comparison, joining, trimming and
//! substring search.
//!
//! A string is modelled by its characters (`s@`) or, where byte offsets matter,
//! by its UTF-8 encoding (`encode_utf8(s@)`).

use vstd::prelude::*;
use vstd::utf8::*;

verus! {

// ---------------------------------------------------------------------------
// Facts about UTF-8
// ---------------------------------------------------------------------------

/// Encoding distributes over concatenation.
pub proof fn lemma_encode_concat(a: Seq<char>, b: Seq<char>)
    ensures
        encode_utf8(a + b) == encode_utf8(a) + encode_utf8(b),
    decreases a.len(),
{
    if a.len() == 0 {
        assert(a + b =~= b);
        assert(encode_utf8(a) =~= Seq::<u8>::empty());
        assert(encode_utf8(a) + encode_utf8(b) =~= encode_utf8(b));
    } else {
        assert((a + b).drop_first() =~= a.drop_first() + b);
        assert((a + b)[0] == a[0]);
        lemma_encode_concat(a.drop_first(), b);
        assert(encode_utf8(a + b) =~= encode_utf8(a) + encode_utf8(b));
    }
}

/// Different texts have different encodings.
pub proof fn lemma_encode_injective(a: Seq<char>, b: Seq<char>)
    requires
        encode_utf8(a) == encode_utf8(b),
    ensures
        a == b,
{
    encode_utf8_decode_utf8(a);
    encode_utf8_decode_utf8(b);
}

/// Only the empty text has an empty encoding.
pub proof fn lemma_encode_empty(a: Seq<char>)
    ensures
        (encode_utf8(a).len() == 0) == (a.len() == 0),
{
    if a.len() > 0 {
        encode_utf8_first_scalar(a);
    }
}

/// An ASCII byte is a character of its own: both of its sides are character boundaries.
pub proof fn lemma_ascii_boundaries(b: Seq<u8>, i: int)
    requires
        valid_utf8(b),
        0 <= i < b.len(),
        b[i] < 0x80,
    ensures
        is_char_boundary(b, i),
        is_char_boundary(b, i + 1),
{
    is_char_boundary_iff_not_is_continuation_byte(b, i);
    is_char_boundary_start_end_of_seq(b);
    valid_utf8_split(b, i);
    let suffix = b.subrange(i, b.len() as int);
    assert(suffix[0] == b[i]);
    assert(valid_first_scalar(suffix));
    assert(length_of_first_scalar(suffix) == 1);
    let rest = pop_first_scalar(suffix);
    assert(valid_utf8(rest));
    if i + 1 < b.len() {
        assert(rest[0] == b[i + 1]);
        assert(valid_first_scalar(rest));
        is_char_boundary_iff_not_is_continuation_byte(b, i + 1);
    }
}

/// A boundary of a text is a boundary of any suffix that reaches back that far.
pub proof fn lemma_boundary_in_suffix(b: Seq<u8>, from: int, to: int)
    requires
        valid_utf8(b),
        is_char_boundary(b, from),
        is_char_boundary(b, to),
        0 <= from <= to,
    ensures
        to <= b.len(),
        valid_utf8(b.subrange(from, b.len() as int)),
        is_char_boundary(b.subrange(from, b.len() as int), to - from),
{
    valid_utf8_split(b, from);
    let suffix = b.subrange(from, b.len() as int);
    is_char_boundary_start_end_of_seq(suffix);
    if to < b.len() {
        is_char_boundary_iff_not_is_continuation_byte(b, to);
        is_char_boundary_iff_not_is_continuation_byte(suffix, to - from);
        assert(suffix[to - from] == b[to]);
    }
}

/// A text starts with another exactly if its encoding starts with the other's encoding.
pub proof fn lemma_encode_prefix(p: Seq<char>, s: Seq<char>)
    ensures
        encode_utf8(p).is_prefix_of(encode_utf8(s)) == p.is_prefix_of(s),
    decreases p.len(),
{
    if p.is_prefix_of(s) {
        let rest = s.subrange(p.len() as int, s.len() as int);
        assert(s =~= p + rest);
        lemma_encode_concat(p, rest);
    }
    if encode_utf8(p).is_prefix_of(encode_utf8(s)) {
        if p.len() > 0 {
            let bp = encode_utf8(p);
            let bs = encode_utf8(s);
            lemma_encode_empty(p);
            lemma_encode_empty(s);
            encode_utf8_first_scalar(p);
            encode_utf8_first_scalar(s);
            assert forall|i: int| 0 <= i < bp.len() implies bp[i] == bs[i] by {
                assert(bp[i] == bs.subrange(0, bp.len() as int)[i]);
            }
            assert(decode_first_scalar(bp) == decode_first_scalar(bs));
            char_u32_cast(p[0], p[0] as u32);
            char_u32_cast(s[0], s[0] as u32);
            assert(p[0] == s[0]);
            let n = encode_scalar(p[0] as u32).len() as int;
            assert(encode_utf8(p.drop_first()) =~= bp.subrange(n, bp.len() as int));
            assert(encode_utf8(s.drop_first()) =~= bs.subrange(n, bs.len() as int));
            assert(encode_utf8(p.drop_first()).is_prefix_of(encode_utf8(s.drop_first())));
            lemma_encode_prefix(p.drop_first(), s.drop_first());
            assert forall|i: int| 0 <= i < p.len() implies p[i] == s[i] by {
                if i > 0 {
                    assert(p.drop_first()[i - 1] == s.drop_first().subrange(
                        0,
                        p.len() - 1,
                    )[i - 1]);
                }
            }
            assert(p =~= s.subrange(0, p.len() as int));
        } else {
            assert(p =~= s.subrange(0, 0));
        }
    }
}

// ---------------------------------------------------------------------------
// Characters
// ---------------------------------------------------------------------------

/// The characters with the Unicode property `White_Space`.
pub open spec fn is_white_space(c: char) -> bool {
    ||| '\u{9}' <= c <= '\u{d}'
    ||| c == '\u{20}'
    ||| c == '\u{85}'
    ||| c == '\u{a0}'
    ||| c == '\u{1680}'
    ||| '\u{2000}' <= c <= '\u{200a}'
    ||| c == '\u{2028}'
    ||| c == '\u{2029}'
    ||| c == '\u{202f}'
    ||| c == '\u{205f}'
    ||| c == '\u{3000}'
}

/// `char::is_whitespace` tells whether a character has the property `White_Space`,
/// which Unicode's `PropList.txt` gives to the characters of [`is_white_space`].
pub assume_specification[ char::is_whitespace ](c: char) -> (r: bool)
    ensures
        r == is_white_space(c),
;

/// An ASCII letter.
pub open spec fn is_ascii_letter(c: char) -> bool {
    'a' <= c <= 'z' || 'A' <= c <= 'Z'
}

/// What `char::is_alphabetic` answers for a character that is not ASCII: the Unicode
/// property `Alphabetic`.
pub uninterp spec fn unicode_alphabetic(c: char) -> bool;

/// What `char::is_alphanumeric` answers for a character that is not ASCII: the Unicode
/// property `Alphabetic`, or a numeric general category.
pub uninterp spec fn unicode_alphanumeric(c: char) -> bool;

/// Whether a character is alphabetic.
pub open spec fn is_alphabetic(c: char) -> bool {
    if c <= '\u{7f}' {
        is_ascii_letter(c)
    } else {
        unicode_alphabetic(c)
    }
}

/// Whether a character is alphabetic or numeric.
pub open spec fn is_alphanumeric(c: char) -> bool {
    if c <= '\u{7f}' {
        is_ascii_letter(c) || '0' <= c <= '9'
    } else {
        unicode_alphanumeric(c)
    }
}

/// `char::is_alphabetic` is a fixed property of the character. Among the ASCII
/// characters exactly the letters have it. Which others have it is left to the
/// Unicode tables of the standard library.
pub assume_specification[ char::is_alphabetic ](c: char) -> (r: bool)
    ensures
        r == if c <= '\u{7f}' {
            is_ascii_letter(c)
        } else {
            unicode_alphabetic(c)
        },
;

/// `char::is_alphanumeric` is a fixed property of the character, which every
/// alphabetic character has. Among the ASCII characters exactly the letters and the
/// digits have it. Which others have it is left to the Unicode tables of the
/// standard library.
pub assume_specification[ char::is_alphanumeric ](c: char) -> (r: bool)
    ensures
        r == if c <= '\u{7f}' {
            is_ascii_letter(c) || '0' <= c <= '9'
        } else {
            unicode_alphanumeric(c)
        },
        is_alphabetic(c) ==> r,
;

// ---------------------------------------------------------------------------
// Building strings
// ---------------------------------------------------------------------------

/// `String::push` appends the character.
pub assume_specification[ String::push ](s: &mut String, c: char)
    ensures
        final(s)@ == old(s)@.push(c),
;

/// An ASCII character in lower case: a letter from `A` to `Z` becomes the letter from `a` to
/// `z`, and any other character stays.
pub open spec fn ascii_lower(c: char) -> char {
    if 'A' <= c <= 'Z' {
        (c as u32 + 32) as char
    } else {
        c
    }
}

/// What `str::to_lowercase` returns for a text that is not ASCII. The mapping comes from
/// Unicode's tables and its special-casing rules; a character can become several, so byte
/// offsets can shift.
pub uninterp spec fn unicode_lowercase(s: Seq<char>) -> Seq<char>;

/// A text in lower case.
pub open spec fn lowercase(s: Seq<char>) -> Seq<char> {
    if is_ascii_chars(s) {
        s.map_values(|c: char| ascii_lower(c))
    } else {
        unicode_lowercase(s)
    }
}

/// `str::to_lowercase` is a function of the text alone. In an ASCII text it makes each
/// letter from `A` to `Z` the letter from `a` to `z` and leaves every other character.
pub assume_specification[ str::to_lowercase ](s: &str) -> (r: String)
    ensures
        r@ == if is_ascii_chars(s@) {
            s@.map_values(|c: char| ascii_lower(c))
        } else {
            unicode_lowercase(s@)
        },
;

/// ASCII bytes are the encoding of an ASCII text, whose lower-case form is as long.
pub proof fn lemma_ascii_text(b: Seq<u8>)
    requires
        forall|k: int| 0 <= k < b.len() ==> #[trigger] b[k] < 0x80,
    ensures
        valid_utf8(b),
        encode_utf8(decode_utf8(b)) == b,
        is_ascii_chars(decode_utf8(b)),
        encode_utf8(lowercase(decode_utf8(b))).len() == b.len(),
        forall|k: int|
            0 <= k < b.len() ==> #[trigger] encode_utf8(lowercase(decode_utf8(b)))[k] < 0x80,
{
    let t = Seq::new(b.len(), |k: int| b[k] as char);
    assert forall|k: int| 0 <= k < t.len() implies '\0' <= #[trigger] t[k] <= '\u{7f}' by {
        assert(b[k] < 0x80);
    }
    assert(is_ascii_chars(t));
    is_ascii_chars_encode_utf8(t);
    assert(encode_utf8(t) =~= b) by {
        assert forall|k: int| 0 <= k < b.len() implies encode_utf8(t)[k] == b[k] by {
            assert(encode_utf8(t)[k] == t[k] as u8);
        }
    }
    encode_utf8_valid_utf8(t);
    encode_utf8_decode_utf8(t);
    let low = lowercase(t);
    assert forall|k: int| 0 <= k < low.len() implies '\0' <= #[trigger] low[k] <= '\u{7f}' by {
        assert('\0' <= t[k] <= '\u{7f}');
        assert(low[k] == ascii_lower(t[k]));
    }
    assert(is_ascii_chars(low));
    is_ascii_chars_encode_utf8(low);
    assert forall|k: int| 0 <= k < b.len() implies #[trigger] encode_utf8(low)[k] < 0x80 by {
        assert(low[k] <= '\u{7f}');
        assert(encode_utf8(low)[k] == low[k] as u8);
    }
}

/// Every place in ASCII bytes is a character boundary.
pub proof fn lemma_ascii_is_cut_anywhere(b: Seq<u8>, i: int)
    requires
        forall|k: int| 0 <= k < b.len() ==> #[trigger] b[k] < 0x80,
        0 <= i <= b.len(),
    ensures
        is_char_boundary(b, i),
{
    lemma_ascii_text(b);
    if i < b.len() {
        lemma_ascii_boundaries(b, i);
    } else {
        is_char_boundary_start_end_of_seq(b);
    }
}

/// The text without its leading white space.
pub open spec fn trimmed_start(s: Seq<char>) -> Seq<char>
    decreases s.len(),
{
    if s.len() > 0 && is_white_space(s[0]) {
        trimmed_start(s.drop_first())
    } else {
        s
    }
}

/// The text without its trailing white space.
pub open spec fn trimmed_end(s: Seq<char>) -> Seq<char>
    decreases s.len(),
{
    if s.len() > 0 && is_white_space(s.last()) {
        trimmed_end(s.drop_last())
    } else {
        s
    }
}

/// The text without its leading and trailing white space.
pub open spec fn trimmed(s: Seq<char>) -> Seq<char> {
    trimmed_end(trimmed_start(s))
}

/// `str::trim` removes the leading and the trailing white space.
pub assume_specification[ str::trim ](s: &str) -> (r: &str)
    ensures
        r@ == trimmed(s@),
;

/// `str::trim_start` removes the leading white space.
pub assume_specification[ str::trim_start ](s: &str) -> (r: &str)
    ensures
        r@ == trimmed_start(s@),
;

/// The concatenation of two texts.
pub fn cat2(a: &str, b: &str) -> (r: String)
    ensures
        r@ == a@ + b@,
{
    let mut out = a.to_owned();
    out.append(b);
    out
}

/// The concatenation of three texts.
pub fn cat3(a: &str, b: &str, c: &str) -> (r: String)
    ensures
        r@ == a@ + b@ + c@,
{
    let mut out = a.to_owned();
    out.append(b);
    out.append(c);
    out
}

/// The texts of a list of strings.
pub open spec fn texts(v: Seq<String>) -> Seq<Seq<char>> {
    v.map_values(|s: String| s@)
}

/// The texts of a list, one after the other, with `sep` between neighbours.
pub open spec fn joined(parts: Seq<Seq<char>>, sep: Seq<char>) -> Seq<char>
    decreases parts.len(),
{
    if parts.len() == 0 {
        Seq::empty()
    } else if parts.len() == 1 {
        parts[0]
    } else {
        parts[0] + sep + joined(parts.drop_first(), sep)
    }
}

/// Adding a last element to a non-empty list adds the separator and the element.
pub proof fn lemma_joined_push(parts: Seq<Seq<char>>, sep: Seq<char>, last: Seq<char>)
    ensures
        joined(parts.push(last), sep) == if parts.len() == 0 {
            last
        } else {
            joined(parts, sep) + sep + last
        },
    decreases parts.len(),
{
    let more = parts.push(last);
    if parts.len() > 0 {
        assert(more.drop_first() =~= parts.drop_first().push(last));
        lemma_joined_push(parts.drop_first(), sep, last);
        assert(more[0] == parts[0]);
        assert(joined(more, sep) == more[0] + sep + joined(more.drop_first(), sep));
        if parts.len() == 1 {
            assert(parts.drop_first().len() == 0);
        }
        assert(joined(more, sep) =~= joined(parts, sep) + sep + last);
    }
}

/// Joins a list of strings with `sep` between neighbours.
pub fn join(parts: &Vec<String>, sep: &str) -> (r: String)
    ensures
        r@ == joined(texts(parts@), sep@),
{
    let mut out = String::new();
    let mut i: usize = 0;
    assert(texts(parts@).take(0) =~= Seq::<Seq<char>>::empty());
    while i < parts.len()
        invariant
            i <= parts.len(),
            out@ == joined(texts(parts@).take(i as int), sep@),
        decreases parts.len() - i,
    {
        proof {
            let all = texts(parts@);
            assert(all.take(i + 1) =~= all.take(i as int).push(all[i as int]));
            lemma_joined_push(all.take(i as int), sep@, all[i as int]);
        }
        if i > 0 {
            out.append(sep);
        }
        out.append(parts[i].as_str());
        i += 1;
    }
    assert(texts(parts@).take(i as int) =~= texts(parts@));
    out
}

// ---------------------------------------------------------------------------
// Comparing and slicing
// ---------------------------------------------------------------------------

/// Whether two byte slices are equal.
pub fn bytes_eq(a: &[u8], b: &[u8]) -> (r: bool)
    ensures
        r == (a@ == b@),
{
    if a.len() != b.len() {
        return false;
    }
    let mut i: usize = 0;
    while i < a.len()
        invariant
            i <= a.len(),
            a@.len() == b@.len(),
            forall|j: int| 0 <= j < i ==> a@[j] == b@[j],
        decreases a.len() - i,
    {
        if a[i] != b[i] {
            return false;
        }
        i += 1;
    }
    assert(a@ =~= b@);
    true
}

/// Whether two texts are equal.
pub fn str_eq(a: &str, b: &str) -> (r: bool)
    ensures
        r == (a@ == b@),
{
    let same = bytes_eq(a.as_bytes(), b.as_bytes());
    proof {
        if same {
            lemma_encode_injective(a@, b@);
        }
    }
    same
}

/// Whether `p` occurs in `h` at position `i`.
pub open spec fn occurs_at(h: Seq<u8>, p: Seq<u8>, i: int) -> bool {
    0 <= i && i + p.len() <= h.len() && h.subrange(i, i + p.len()) == p
}

/// Whether `p` occurs in `h` at position `i`.
pub fn matches_at(h: &[u8], p: &[u8], i: usize) -> (r: bool)
    ensures
        r == occurs_at(h@, p@, i as int),
{
    if i > h.len() || h.len() - i < p.len() {
        return false;
    }
    let mut j: usize = 0;
    while j < p.len()
        invariant
            j <= p.len(),
            i + p.len() <= h.len(),
            forall|k: int| 0 <= k < j ==> h@[i + k] == p@[k],
        decreases p.len() - j,
    {
        if h[i + j] != p[j] {
            assert(h@.subrange(i as int, i + p@.len())[j as int] != p@[j as int]);
            return false;
        }
        j += 1;
    }
    assert(h@.subrange(i as int, i + p@.len()) =~= p@);
    true
}

/// Whether the text `s` starts with `prefix`.
pub fn starts_with(s: &str, prefix: &str) -> (r: bool)
    ensures
        r == prefix@.is_prefix_of(s@),
{
    let r = matches_at(s.as_bytes(), prefix.as_bytes(), 0);
    proof {
        lemma_encode_prefix(prefix@, s@);
        let b = encode_utf8(s@);
        let p = encode_utf8(prefix@);
        assert(occurs_at(b, p, 0) == p.is_prefix_of(b));
    }
    r
}

/// The part of `s` between two byte offsets.
pub fn slice(s: &str, from: usize, to: usize) -> (r: &str)
    requires
        from <= to,
        is_char_boundary(encode_utf8(s@), from as int),
        is_char_boundary(encode_utf8(s@), to as int),
    ensures
        to <= encode_utf8(s@).len(),
        encode_utf8(r@) == encode_utf8(s@).subrange(from as int, to as int),
        r@ == decode_utf8(encode_utf8(s@).subrange(from as int, to as int)),
{
    proof {
        encode_utf8_valid_utf8(s@);
        lemma_boundary_in_suffix(encode_utf8(s@), from as int, to as int);
    }
    let tail = s.split_at(from).1;
    let r = tail.split_at(to - from).0;
    proof {
        assert(encode_utf8(r@) =~= encode_utf8(s@).subrange(from as int, to as int));
        encode_utf8_decode_utf8(r@);
    }
    r
}

/// Whether one byte sequence comes before another in lexicographic order.
pub open spec fn bytes_less(a: Seq<u8>, b: Seq<u8>) -> bool
    decreases a.len(),
{
    if b.len() == 0 {
        false
    } else if a.len() == 0 {
        true
    } else if a[0] != b[0] {
        a[0] < b[0]
    } else {
        bytes_less(a.drop_first(), b.drop_first())
    }
}

/// Whether one text comes before another in the order of strings, which is that of
/// their encodings.
pub open spec fn text_less(a: Seq<char>, b: Seq<char>) -> bool {
    bytes_less(encode_utf8(a), encode_utf8(b))
}

/// The order is transitive.
pub proof fn lemma_bytes_less_transitive(a: Seq<u8>, b: Seq<u8>, c: Seq<u8>)
    requires
        bytes_less(a, b),
        bytes_less(b, c),
    ensures
        bytes_less(a, c),
    decreases a.len(),
{
    if a.len() > 0 && a[0] == b[0] && b[0] == c[0] {
        lemma_bytes_less_transitive(a.drop_first(), b.drop_first(), c.drop_first());
    }
}

/// Of two different sequences one comes before the other.
pub proof fn lemma_bytes_less_total(a: Seq<u8>, b: Seq<u8>)
    ensures
        a == b || bytes_less(a, b) || bytes_less(b, a),
        !(bytes_less(a, b) && bytes_less(b, a)),
        a == b ==> !bytes_less(a, b),
    decreases a.len(),
{
    if a.len() > 0 && b.len() > 0 {
        lemma_bytes_less_total(a.drop_first(), b.drop_first());
        if a[0] == b[0] && a.drop_first() == b.drop_first() {
            assert(a =~= seq![a[0]] + a.drop_first());
            assert(b =~= seq![b[0]] + b.drop_first());
        }
    } else if a.len() == 0 && b.len() == 0 {
        assert(a =~= b);
    }
}

/// Whether one text comes before another in the order of strings.
pub fn str_less(a: &str, b: &str) -> (r: bool)
    ensures
        r == text_less(a@, b@),
{
    let x = a.as_bytes();
    let y = b.as_bytes();
    let mut i: usize = 0;
    assert(x@.skip(0) =~= x@);
    assert(y@.skip(0) =~= y@);
    while i < x.len() && i < y.len() && x[i] == y[i]
        invariant
            i <= x@.len(),
            i <= y@.len(),
            bytes_less(x@, y@) == bytes_less(x@.skip(i as int), y@.skip(i as int)),
        decreases x@.len() - i,
    {
        assert(x@.skip(i as int).drop_first() =~= x@.skip(i + 1));
        assert(y@.skip(i as int).drop_first() =~= y@.skip(i + 1));
        i += 1;
    }
    if i == y.len() {
        false
    } else if i == x.len() {
        true
    } else {
        x[i] < y[i]
    }
}

/// The characters of a text.
pub fn to_chars(s: &str) -> (r: Vec<char>)
    ensures
        r@ == s@,
{
    let mut out: Vec<char> = Vec::new();
    for c in it: s.chars()
        invariant
            it.seq() == s@,
            out@ == s@.take(it.index() as int),
    {
        out.push(c);
        assert(out@ =~= s@.take(it.index() + 1));
    }
    assert(s@.take(s@.len() as int) =~= s@);
    out
}

// ---------------------------------------------------------------------------
// Searching
// ---------------------------------------------------------------------------

/// The text of a part of a list of characters.
pub fn from_chars(chars: &Vec<char>, from: usize, to: usize) -> (r: String)
    requires
        from <= to <= chars@.len(),
    ensures
        r@ == chars@.subrange(from as int, to as int),
{
    let mut out = String::new();
    let mut i: usize = from;
    assert(chars@.subrange(from as int, from as int) =~= Seq::<char>::empty());
    while i < to
        invariant
            from <= i <= to <= chars@.len(),
            out@ == chars@.subrange(from as int, i as int),
        decreases to - i,
    {
        out.push(chars[i]);
        assert(chars@.subrange(from as int, i + 1) =~= chars@.subrange(
            from as int,
            i as int,
        ).push(chars@[i as int]));
        i += 1;
    }
    out
}

/// The decimal digits of a number.
pub open spec fn decimal(n: nat) -> Seq<char>
    decreases n,
{
    let digit = (('0' as int) + (n % 10) as int) as char;
    if n < 10 {
        seq![digit]
    } else {
        decimal(n / 10).push(digit)
    }
}

/// The decimal digits of a number.
pub fn decimal_text(n: usize) -> (r: String)
    ensures
        r@ == decimal(n as nat),
    decreases n,
{
    let d: u8 = (n % 10) as u8;
    let digit: char = (0x30u8 + d) as char;
    assert(digit == (('0' as int) + (n as nat % 10) as int) as char);
    if n < 10 {
        let mut out = String::new();
        out.push(digit);
        assert(out@ =~= seq![digit]);
        out
    } else {
        let mut out = decimal_text(n / 10);
        out.push(digit);
        out
    }
}

/// The first position at or after `from` where `p` occurs in `h`.
pub open spec fn find_from(h: Seq<u8>, p: Seq<u8>, from: int) -> Option<int>
    decreases h.len() + 1 - from,
{
    if from < 0 || from + p.len() > h.len() {
        None
    } else if occurs_at(h, p, from) {
        Some(from)
    } else {
        find_from(h, p, from + 1)
    }
}

/// What the position found says of `h`: the pattern occurs there and nowhere before.
pub proof fn lemma_find_from(h: Seq<u8>, p: Seq<u8>, from: int)
    requires
        0 <= from,
    ensures
        match find_from(h, p, from) {
            Some(i) => from <= i && occurs_at(h, p, i) && forall|j: int|
                from <= j < i ==> !occurs_at(h, p, j),
            None => forall|j: int| from <= j ==> !occurs_at(h, p, j),
        },
    decreases h.len() + 1 - from,
{
    if from + p.len() <= h.len() && !occurs_at(h, p, from) {
        lemma_find_from(h, p, from + 1);
    }
}

/// The first position at or after `from` where `p` occurs in `h`.
pub fn find_bytes(h: &[u8], p: &[u8], from: usize) -> (r: Option<usize>)
    ensures
        match r {
            Some(i) => find_from(h@, p@, from as int) == Some(i as int),
            None => find_from(h@, p@, from as int) is None,
        },
{
    let mut i: usize = from;
    while i <= h.len() && h.len() - i >= p.len()
        invariant
            from <= i,
            find_from(h@, p@, from as int) == find_from(h@, p@, i as int),
        decreases h.len() + 1 - i,
    {
        if matches_at(h, p, i) {
            return Some(i);
        }
        assert(i < usize::MAX) by {
            if p@.len() == 0 {
                assert(h@.subrange(i as int, i as int) =~= p@);
            }
        }
        i += 1;
    }
    None
}

/// Whether `p` occurs anywhere in `h`.
pub open spec fn contains_bytes(h: Seq<u8>, p: Seq<u8>) -> bool {
    exists|i: int| occurs_at(h, p, i)
}

/// Whether `p` occurs anywhere in `h`.
pub fn has_bytes(h: &[u8], p: &[u8]) -> (r: bool)
    ensures
        r == contains_bytes(h@, p@),
{
    proof {
        lemma_find_from(h@, p@, 0);
    }
    find_bytes(h, p, 0).is_some()
}

// ---------------------------------------------------------------------------
// What the helpers do
// ---------------------------------------------------------------------------

/// Texts are joined one after the other: nothing joins to nothing, one text to itself, and one
/// more adds the separator and the text.
pub proof fn law_texts_are_joined(parts: Seq<Seq<char>>, sep: Seq<char>, last: Seq<char>)
    ensures
        joined(Seq::empty(), sep).len() == 0,
        joined(seq![last], sep) == last,
        parts.len() > 0 ==> joined(parts.push(last), sep) == joined(parts, sep) + sep + last,
{
    lemma_joined_push(parts, sep, last);
}

/// The number that decimal digits stand for.
pub open spec fn decimal_value(s: Seq<char>) -> int
    decreases s.len(),
{
    if s.len() == 0 {
        0
    } else {
        10 * decimal_value(s.drop_last()) + (s.last() as int - '0' as int)
    }
}

/// A number is written in decimal digits that stand for it, without a leading zero.
pub proof fn law_numbers_are_written(n: nat)
    ensures
        decimal_value(decimal(n)) == n,
        decimal(n).len() > 0,
        forall|i: int| 0 <= i < decimal(n).len() ==> '0' <= #[trigger] decimal(n)[i] <= '9',
        n > 0 ==> decimal(n)[0] != '0',
    decreases n,
{
    let digit = (('0' as int) + (n % 10) as int) as char;
    if n < 10 {
        let s = seq![digit];
        assert(s.drop_last() =~= Seq::<char>::empty());
        assert(decimal_value(s.drop_last()) == 0);
        assert(s.last() == digit);
    } else {
        law_numbers_are_written(n / 10);
        let a = decimal(n / 10);
        assert(a.push(digit).drop_last() =~= a);
        assert forall|i: int| 0 <= i < decimal(n).len() implies '0' <= #[trigger] decimal(n)[i]
            <= '9' by {
            if i < a.len() {
                assert(decimal(n)[i] == a[i]);
            }
        }
        assert(decimal(n)[0] == a[0]);
    }
}

/// Texts are ordered by their first different byte, and the start of a text comes before it.
pub proof fn law_order_of_bytes(common: Seq<u8>, a: Seq<u8>, b: Seq<u8>)
    ensures
        a.len() > 0 && b.len() > 0 && a[0] < b[0] ==> bytes_less(common + a, common + b),
        b.len() > 0 ==> bytes_less(common, common + b),
        !bytes_less(common, common),
    decreases common.len(),
{
    if common.len() == 0 {
        assert(common + a =~= a);
        assert(common + b =~= b);
    } else {
        law_order_of_bytes(common.drop_first(), a, b);
        assert((common + a).drop_first() =~= common.drop_first() + a);
        assert((common + b).drop_first() =~= common.drop_first() + b);
    }
}

/// Trimming takes white space away at both ends, all of it and nothing else.
pub proof fn law_trimming(s: Seq<char>) -> (ends: (Seq<char>, Seq<char>))
    ensures
        s == ends.0 + trimmed(s) + ends.1,
        forall|i: int| 0 <= i < ends.0.len() ==> is_white_space(#[trigger] ends.0[i]),
        forall|i: int| 0 <= i < ends.1.len() ==> is_white_space(#[trigger] ends.1[i]),
        trimmed(s).len() > 0 ==> !is_white_space(trimmed(s)[0]) && !is_white_space(
            trimmed(s).last(),
        ),
        trimmed_start(s) == trimmed(s) + ends.1,
    decreases s.len(),
{
    if s.len() > 0 && is_white_space(s[0]) {
        let ends = law_trimming(s.drop_first());
        let first = seq![s[0]] + ends.0;
        assert(s =~= seq![s[0]] + s.drop_first());
        assert(seq![s[0]] + (ends.0 + trimmed(s) + ends.1) =~= first + trimmed(s) + ends.1);
        (first, ends.1)
    } else {
        let none = Seq::<char>::empty();
        let end = lemma_trimmed_end(s);
        assert(s =~= none + trimmed(s) + end);
        if trimmed(s).len() > 0 {
            assert(trimmed(s)[0] == s[0]);
        }
        (none, end)
    }
}

/// What trimming takes away at the end is white space.
proof fn lemma_trimmed_end(s: Seq<char>) -> (end: Seq<char>)
    ensures
        s == trimmed_end(s) + end,
        forall|i: int| 0 <= i < end.len() ==> is_white_space(#[trigger] end[i]),
        trimmed_end(s).len() > 0 ==> !is_white_space(trimmed_end(s).last()),
    decreases s.len(),
{
    if s.len() > 0 && is_white_space(s.last()) {
        let end = lemma_trimmed_end(s.drop_last());
        let more = end.push(s.last());
        assert(s =~= s.drop_last().push(s.last()));
        assert((trimmed_end(s) + end).push(s.last()) =~= trimmed_end(s) + more);
        more
    } else {
        let none = Seq::<char>::empty();
        assert(s =~= trimmed_end(s) + none);
        none
    }
}

} // verus!
