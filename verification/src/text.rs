//! Facts about UTF-8 text that the rest of the crate reasons with: how a character
//! sequence maps to bytes, where character boundaries fall, and what counts as whitespace.
//!
//! Offsets everywhere in this crate are byte offsets into the UTF-8 encoding of the source,
//! while whitespace is a property of characters; the lemmas here connect the two views.

use vstd::prelude::*;
use vstd::string::*;
use vstd::utf8::*;

verus! {

broadcast use vstd::utf8::group_utf8_lib;

/// The characters with the Unicode `White_Space` property, which is what
/// `char::is_whitespace` tests for.
pub open spec fn is_white_space(c: char) -> bool {
    ||| ('\u{9}' <= c && c <= '\u{d}')
    ||| c == ' '
    ||| c == '\u{85}'
    ||| c == '\u{a0}'
    ||| c == '\u{1680}'
    ||| ('\u{2000}' <= c && c <= '\u{200a}')
    ||| c == '\u{2028}'
    ||| c == '\u{2029}'
    ||| c == '\u{202f}'
    ||| c == '\u{205f}'
    ||| c == '\u{3000}'
}

/// The number of whitespace characters `cs` starts with.
pub open spec fn leading_ws(cs: Seq<char>) -> nat
    decreases cs.len(),
{
    if cs.len() > 0 && is_white_space(cs[0]) {
        1 + leading_ws(cs.drop_first())
    } else {
        0
    }
}

/// The number of whitespace characters `cs` ends with.
pub open spec fn trailing_ws(cs: Seq<char>) -> nat
    decreases cs.len(),
{
    if cs.len() > 0 && is_white_space(cs.last()) {
        1 + trailing_ws(cs.drop_last())
    } else {
        0
    }
}

/// `cs` without its leading whitespace.
pub open spec fn trim_start_chars(cs: Seq<char>) -> Seq<char> {
    cs.skip(leading_ws(cs) as int)
}

/// `cs` without its trailing whitespace.
pub open spec fn trim_end_chars(cs: Seq<char>) -> Seq<char> {
    cs.take(cs.len() - trailing_ws(cs))
}

/// `cs` does not end with a whitespace character.
pub open spec fn no_trailing_ws(cs: Seq<char>) -> bool {
    cs.len() > 0 ==> !is_white_space(cs.last())
}

/// The number of bytes `cs` occupies in UTF-8.
pub open spec fn blen(cs: Seq<char>) -> nat {
    encode_utf8(cs).len()
}

/// The characters a byte string decodes to.
pub open spec fn chars_of(bytes: Seq<u8>) -> Seq<char> {
    decode_utf8(bytes)
}

/// `start..end` is a range of `bytes` that begins and ends on character boundaries.
pub open spec fn is_char_range(bytes: Seq<u8>, start: int, end: int) -> bool {
    &&& 0 <= start <= end <= bytes.len()
    &&& is_char_boundary(bytes, start)
    &&& is_char_boundary(bytes, end)
}

pub proof fn lemma_leading_ws_bound(cs: Seq<char>)
    ensures
        leading_ws(cs) <= cs.len(),
        forall|i: int| 0 <= i < leading_ws(cs) ==> is_white_space(#[trigger] cs[i]),
        leading_ws(cs) < cs.len() ==> !is_white_space(cs[leading_ws(cs) as int]),
    decreases cs.len(),
{
    if cs.len() > 0 && is_white_space(cs[0]) {
        lemma_leading_ws_bound(cs.drop_first());
        assert forall|i: int| 0 <= i < leading_ws(cs) implies is_white_space(#[trigger] cs[i]) by {
            if i > 0 {
                assert(cs[i] == cs.drop_first()[i - 1]);
            }
        }
    }
}

pub proof fn lemma_trailing_ws_bound(cs: Seq<char>)
    ensures
        trailing_ws(cs) <= cs.len(),
        forall|i: int| cs.len() - trailing_ws(cs) <= i < cs.len() ==> is_white_space(#[trigger] cs[i]),
        trailing_ws(cs) < cs.len() ==> !is_white_space(cs[cs.len() - trailing_ws(cs) - 1]),
    decreases cs.len(),
{
    if cs.len() > 0 && is_white_space(cs.last()) {
        lemma_trailing_ws_bound(cs.drop_last());
        assert forall|i: int| cs.len() - trailing_ws(cs) <= i < cs.len() implies is_white_space(#[trigger] cs[i]) by {
            if i < cs.len() - 1 {
                assert(cs[i] == cs.drop_last()[i]);
            }
        }
    }
}

/// Trimmed text does not end with whitespace.
pub proof fn lemma_trimmed_ends_clean(cs: Seq<char>)
    ensures
        no_trailing_ws(trim_end_chars(trim_start_chars(cs))),
{
    let x = trim_start_chars(cs);
    lemma_trailing_ws_bound(x);
    let y = trim_end_chars(x);
    if y.len() > 0 {
        assert(y.last() == x[x.len() - trailing_ws(x) - 1]);
    }
}

/// UTF-8 encoding distributes over concatenation.
pub proof fn lemma_encode_concat(a: Seq<char>, b: Seq<char>)
    ensures
        encode_utf8(a + b) == encode_utf8(a) + encode_utf8(b),
    decreases a.len(),
{
    if a.len() == 0 {
        assert(a + b =~= b);
        assert(encode_utf8(a) + encode_utf8(b) =~= encode_utf8(b));
    } else {
        lemma_encode_concat(a.drop_first(), b);
        assert((a + b).drop_first() =~= a.drop_first() + b);
        assert((a + b)[0] == a[0]);
        assert(encode_utf8(a + b) =~= encode_scalar(a[0] as u32) + encode_utf8(a.drop_first() + b));
    }
}

/// The encoding of a prefix of characters is the byte prefix of the same length.
pub proof fn lemma_encode_take_skip(cs: Seq<char>, k: int)
    requires
        0 <= k <= cs.len(),
    ensures
        encode_utf8(cs) == encode_utf8(cs.take(k)) + encode_utf8(cs.skip(k)),
        encode_utf8(cs.take(k)) == encode_utf8(cs).subrange(0, blen(cs.take(k)) as int),
        encode_utf8(cs.skip(k)) == encode_utf8(cs).subrange(blen(cs.take(k)) as int, blen(cs) as int),
        blen(cs) == blen(cs.take(k)) + blen(cs.skip(k)),
{
    assert(cs =~= cs.take(k) + cs.skip(k));
    lemma_encode_concat(cs.take(k), cs.skip(k));
    assert(encode_utf8(cs.take(k)) =~= encode_utf8(cs).subrange(0, blen(cs.take(k)) as int));
    assert(encode_utf8(cs.skip(k)) =~= encode_utf8(cs).subrange(blen(cs.take(k)) as int, blen(cs) as int));
}

/// The byte offset at which a character prefix ends is a character boundary.
pub proof fn lemma_boundary_after_prefix(a: Seq<char>, b: Seq<char>)
    ensures
        is_char_boundary(encode_utf8(a + b), blen(a) as int),
    decreases a.len(),
{
    let bytes = encode_utf8(a + b);
    if a.len() == 0 {
    } else {
        lemma_encode_concat(a, b);
        encode_utf8_first_scalar(a + b);
        assert((a + b).drop_first() =~= a.drop_first() + b);
        assert((a + b)[0] == a[0]);
        assert(pop_first_scalar(bytes) =~= encode_utf8(a.drop_first() + b));
        lemma_boundary_after_prefix(a.drop_first(), b);
        assert(encode_utf8(a) =~= encode_scalar(a[0] as u32) + encode_utf8(a.drop_first()));
    }
}

/// Every character index of `cs` corresponds to a byte boundary of its encoding.
pub proof fn lemma_boundary_at_char_index(cs: Seq<char>, k: int)
    requires
        0 <= k <= cs.len(),
    ensures
        is_char_boundary(encode_utf8(cs), blen(cs.take(k)) as int),
{
    assert(cs =~= cs.take(k) + cs.skip(k));
    lemma_boundary_after_prefix(cs.take(k), cs.skip(k));
}

/// Decoding after encoding gives the characters back, and encoding is valid UTF-8.
pub proof fn lemma_roundtrip(cs: Seq<char>)
    ensures
        chars_of(encode_utf8(cs)) == cs,
        valid_utf8(encode_utf8(cs)),
{
}

/// A boundary of the whole sequence that falls inside `0..end` is a boundary of the prefix.
pub proof fn lemma_boundary_in_prefix(bytes: Seq<u8>, start: int, end: int)
    requires
        valid_utf8(bytes),
        is_char_range(bytes, start, end),
    ensures
        valid_utf8(bytes.subrange(0, end)),
        is_char_boundary(bytes.subrange(0, end), start),
{
    valid_utf8_split(bytes, end);
    let prefix = bytes.subrange(0, end);
    if start == end {
        is_char_boundary_start_end_of_seq(prefix);
    } else {
        is_char_boundary_iff_not_is_continuation_byte(bytes, start);
        is_char_boundary_iff_not_is_continuation_byte(prefix, start);
        assert(prefix[start] == bytes[start]);
    }
}

/// A character range of valid UTF-8 is valid UTF-8 on its own.
pub proof fn lemma_char_range_valid(bytes: Seq<u8>, start: int, end: int)
    requires
        valid_utf8(bytes),
        is_char_range(bytes, start, end),
    ensures
        valid_utf8(bytes.subrange(start, end)),
{
    lemma_boundary_in_prefix(bytes, start, end);
    let prefix = bytes.subrange(0, end);
    valid_utf8_split(prefix, start);
    assert(prefix.subrange(start, prefix.len() as int) =~= bytes.subrange(start, end));
}

/// A boundary measured inside a character range is a boundary of the whole sequence.
pub proof fn lemma_boundary_from_range(bytes: Seq<u8>, start: int, end: int, k: int)
    requires
        valid_utf8(bytes),
        is_char_range(bytes, start, end),
        0 <= k <= end - start,
        is_char_boundary(bytes.subrange(start, end), k),
    ensures
        is_char_boundary(bytes, start + k),
{
    let sub = bytes.subrange(start, end);
    if k == 0 || k == end - start {
    } else {
        lemma_char_range_valid(bytes, start, end);
        is_char_boundary_iff_not_is_continuation_byte(sub, k);
        is_char_boundary_iff_not_is_continuation_byte(bytes, start + k);
        assert(sub[k] == bytes[start + k]);
    }
}

/// A boundary of the whole sequence inside a character range is a boundary of the range.
pub proof fn lemma_boundary_to_range(bytes: Seq<u8>, start: int, end: int, p: int)
    requires
        valid_utf8(bytes),
        is_char_range(bytes, start, end),
        start <= p <= end,
        is_char_boundary(bytes, p),
    ensures
        is_char_boundary(bytes.subrange(start, end), p - start),
{
    let sub = bytes.subrange(start, end);
    lemma_char_range_valid(bytes, start, end);
    if p == end {
        is_char_boundary_start_end_of_seq(sub);
    } else if p == start {
    } else {
        is_char_boundary_iff_not_is_continuation_byte(sub, p - start);
        is_char_boundary_iff_not_is_continuation_byte(bytes, p);
        assert(sub[p - start] == bytes[p]);
    }
}

/// The characters `i..j` of `cs` occupy the bytes `blen(cs.take(i))..blen(cs.take(j))`.
pub proof fn lemma_encode_subrange(cs: Seq<char>, i: int, j: int)
    requires
        0 <= i <= j <= cs.len(),
    ensures
        blen(cs.take(i)) <= blen(cs.take(j)) <= blen(cs),
        blen(cs.take(j)) == blen(cs.take(i)) + blen(cs.subrange(i, j)),
        encode_utf8(cs).subrange(blen(cs.take(i)) as int, blen(cs.take(j)) as int) == encode_utf8(
            cs.subrange(i, j),
        ),
{
    assert(cs.take(j) =~= cs.take(i) + cs.subrange(i, j));
    lemma_encode_concat(cs.take(i), cs.subrange(i, j));
    lemma_encode_take_skip(cs, j);
    assert(encode_utf8(cs).subrange(blen(cs.take(i)) as int, blen(cs.take(j)) as int) =~= encode_utf8(
        cs.subrange(i, j),
    ));
}

proof fn lemma_valid_prefix_boundary(x: Seq<u8>, p: Seq<u8>)
    requires
        valid_utf8(x),
        valid_utf8(p),
        p.len() <= x.len(),
        x.subrange(0, p.len() as int) == p,
    ensures
        is_char_boundary(x, p.len() as int),
    decreases p.len(),
{
    if p.len() == 0 {
    } else {
        assert(x[0] == x.subrange(0, p.len() as int)[0]);
        let l = length_of_first_scalar(p);
        assert(length_of_first_scalar(x) == l);
        assert(x[1] == p[1] || l < 2);
        assert(x[2] == p[2] || l < 3);
        assert(x[3] == p[3] || l < 4);
        let px = pop_first_scalar(x);
        let pp = pop_first_scalar(p);
        assert(px.subrange(0, pp.len() as int) =~= pp);
        lemma_valid_prefix_boundary(px, pp);
    }
}

/// A nonempty valid UTF-8 pattern that occurs in valid UTF-8 text starts and ends on
/// character boundaries of that text.
pub proof fn lemma_occurrence_boundaries(h: Seq<u8>, p: Seq<u8>, s: int)
    requires
        valid_utf8(h),
        valid_utf8(p),
        p.len() > 0,
        0 <= s,
        s + p.len() <= h.len(),
        h.subrange(s, s + p.len()) == p,
    ensures
        is_char_boundary(h, s),
        is_char_boundary(h, s + p.len()),
{
    assert(h[s] == h.subrange(s, s + p.len())[0]);
    is_char_boundary_iff_not_is_continuation_byte(h, s);
    valid_utf8_split(h, s);
    let x = h.subrange(s, h.len() as int);
    assert(x.subrange(0, p.len() as int) =~= p);
    lemma_valid_prefix_boundary(x, p);
    if s + p.len() == h.len() {
        is_char_boundary_start_end_of_seq(h);
    } else {
        is_char_boundary_iff_not_is_continuation_byte(x, p.len() as int);
        is_char_boundary_iff_not_is_continuation_byte(h, s + p.len());
        assert(x[p.len() as int] == h[s + p.len()]);
    }
}

/// Slices `s` at the byte range `start..end`, which must lie on character boundaries.
pub fn slice_str(s: &str, start: usize, end: usize) -> (res: &str)
    requires
        is_char_range(s.spec_bytes(), start as int, end as int),
    ensures
        res.spec_bytes() == s.spec_bytes().subrange(start as int, end as int),
        res@ == chars_of(res.spec_bytes()),
{
    proof {
        lemma_roundtrip(s@);
        lemma_boundary_in_prefix(s.spec_bytes(), start as int, end as int);
    }
    let (head, _) = s.split_at(end);
    proof {
        assert(head.spec_bytes() =~= s.spec_bytes().subrange(0, end as int));
    }
    let (_, mid) = head.split_at(start);
    proof {
        assert(mid.spec_bytes() =~= s.spec_bytes().subrange(start as int, end as int));
        lemma_roundtrip(mid@);
    }
    mid
}

/// The string with every leading whitespace character removed, as a subslice of the input:
/// what `str::trim_start` returns.
pub(crate) fn str_trim_start(s: &str) -> (res: &str)
    ensures
        res@ == trim_start_chars(s@),
{
    let n = s.unicode_len();
    let mut i: usize = 0;
    while i < n && char_is_whitespace(s.get_char(i))
        invariant
            n == s@.len(),
            i <= n,
            forall|j: int| 0 <= j < i ==> is_white_space(#[trigger] s@[j]),
        decreases n - i,
    {
        i += 1;
    }
    proof {
        lemma_leading_ws_bound(s@);
        let lead = leading_ws(s@) as int;
        if lead < i {
            assert(is_white_space(s@[lead]));
        }
        if i < lead {
            assert(is_white_space(s@[i as int]));
        }
        assert(s@.subrange(i as int, n as int) =~= s@.skip(lead));
    }
    s.substring_char(i, n)
}

/// The string with every trailing whitespace character removed, as a subslice of the input:
/// what `str::trim_end` returns.
pub(crate) fn str_trim_end(s: &str) -> (res: &str)
    ensures
        res@ == trim_end_chars(s@),
{
    let n = s.unicode_len();
    let mut i: usize = n;
    while i > 0 && char_is_whitespace(s.get_char(i - 1))
        invariant
            n == s@.len(),
            i <= n,
            forall|j: int| i <= j < n ==> is_white_space(#[trigger] s@[j]),
        decreases i,
    {
        i -= 1;
    }
    proof {
        lemma_trailing_ws_bound(s@);
        let keep = s@.len() - trailing_ws(s@);
        if keep > i {
            assert(is_white_space(s@[keep - 1]));
        }
        if i > keep {
            assert(is_white_space(s@[i - 1]));
        }
        assert(s@.subrange(0, i as int) =~= s@.take(keep));
    }
    s.substring_char(0, i)
}

/// The last character of the string, if it has one: what `chars().next_back()` returns.
pub(crate) fn str_last_char(s: &str) -> (res: Option<char>)
    ensures
        res == (if s@.len() > 0 { Some(s@.last()) } else { None::<char> }),
{
    let n = s.unicode_len();
    if n > 0 {
        Some(s.get_char(n - 1))
    } else {
        None
    }
}

/// Whether the character has the Unicode `White_Space` property: what
/// `char::is_whitespace` returns.
pub(crate) fn char_is_whitespace(c: char) -> (res: bool)
    ensures
        res == is_white_space(c),
{
    ('\u{9}' <= c && c <= '\u{d}') || c == ' ' || c == '\u{85}' || c == '\u{a0}' || c == '\u{1680}'
        || ('\u{2000}' <= c && c <= '\u{200a}') || c == '\u{2028}' || c == '\u{2029}' || c == '\u{202f}'
        || c == '\u{205f}' || c == '\u{3000}'
}

} // verus!
