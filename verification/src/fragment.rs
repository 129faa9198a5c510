//! A slice of the source text that knows its own absolute byte span.

use crate::span::{Span, Spanned};
use crate::text::{
    blen, chars_of, is_char_range, leading_ws, lemma_boundary_at_char_index, lemma_boundary_from_range,
    lemma_boundary_to_range, lemma_char_range_valid, lemma_encode_subrange, lemma_encode_take_skip,
    lemma_leading_ws_bound, lemma_roundtrip, lemma_trailing_ws_bound, slice_str, str_trim_end,
    str_trim_start, trailing_ws, trim_end_chars, trim_start_chars,
};
use vstd::prelude::*;
use vstd::string::*;
use vstd::utf8::*;
use vstd::std_specs::vec::into_iter_elts;

verus! {

broadcast use {crate::span::group_span, vstd::utf8::group_utf8_lib};

/// The first byte at or after `from` that is `\n` or `\r`, or the end of `bytes`.
pub open spec fn line_end(bytes: Seq<u8>, from: int) -> int
    decreases bytes.len() - from,
{
    if from < 0 || from >= bytes.len() {
        bytes.len() as int
    } else if bytes[from] == 10u8 || bytes[from] == 13u8 {
        from
    } else {
        line_end(bytes, from + 1)
    }
}

/// The length of the line terminator at `at`: two bytes for `\r\n`, one for a lone `\n`
/// or `\r`, none at the end of the text.
pub open spec fn terminator_len(bytes: Seq<u8>, at: int) -> int {
    if at >= bytes.len() {
        0
    } else if bytes[at] == 13u8 && at + 1 < bytes.len() && bytes[at + 1] == 10u8 {
        2
    } else {
        1
    }
}

pub proof fn lemma_line_end(bytes: Seq<u8>, from: int)
    requires
        0 <= from <= bytes.len(),
    ensures
        from <= line_end(bytes, from) <= bytes.len(),
        forall|i: int| from <= i < line_end(bytes, from) ==> #[trigger] bytes[i] != 10u8 && bytes[i] != 13u8,
        line_end(bytes, from) < bytes.len() ==> (bytes[line_end(bytes, from)] == 10u8 || bytes[line_end(
            bytes,
            from,
        )] == 13u8),
    decreases bytes.len() - from,
{
    if from < bytes.len() && !(bytes[from] == 10u8 || bytes[from] == 13u8) {
        lemma_line_end(bytes, from + 1);
    }
}

/// The spans of the lines of `bytes` from `from` on, terminators excluded.
pub open spec fn line_spans_from(bytes: Seq<u8>, from: int) -> Seq<Span>
    decreases bytes.len() - from,
{
    if from < 0 || from >= bytes.len() {
        Seq::empty()
    } else {
        let end = line_end(bytes, from);
        proof {
            lemma_line_end(bytes, from);
        }
        seq![Span::at(from, end - from)] + line_spans_from(bytes, end + terminator_len(bytes, end))
    }
}

/// The lines of `bytes`: split on `\n`, `\r\n` and a lone `\r`, terminators excluded; an
/// empty text has no lines, and text after the last terminator is a final line.
pub open spec fn line_spans(bytes: Seq<u8>) -> Seq<Span> {
    line_spans_from(bytes, 0)
}

/// `span` is one line of `bytes`: it lies within the text, holds no `\n` or `\r`, and is
/// followed by one of them or by the end of the text.
pub open spec fn is_line_of(bytes: Seq<u8>, span: Span) -> bool {
    let start = span.start_spec() as int;
    let end = start + span.len_spec();
    &&& end <= bytes.len()
    &&& forall|k: int| start <= k < end ==> #[trigger] bytes[k] != 10u8 && bytes[k] != 13u8
    &&& end < bytes.len() ==> (bytes[end] == 10u8 || bytes[end] == 13u8)
}

/// Where the line after `span` begins: past the terminator that ends `span`.
pub open spec fn after_line(bytes: Seq<u8>, span: Span) -> int {
    let end = span.start_spec() + span.len_spec();
    end + terminator_len(bytes, end)
}

proof fn lemma_lines_from(bytes: Seq<u8>, from: int)
    requires
        0 <= from <= bytes.len(),
        bytes.len() <= usize::MAX,
        valid_utf8(bytes) ==> is_char_boundary(bytes, from),
    ensures
        valid_utf8(bytes) ==> forall|i: int| 0 <= i < line_spans_from(bytes, from).len() ==> (#[trigger] line_spans_from(bytes, from)[i]).fits(bytes),
        (line_spans_from(bytes, from).len() == 0) == (from == bytes.len()),
        line_spans_from(bytes, from).len() > 0 ==> line_spans_from(bytes, from)[0].start_spec() == from,
        forall|i: int| 0 <= i < line_spans_from(bytes, from).len() ==> is_line_of(bytes, #[trigger] line_spans_from(bytes, from)[i]),
        forall|i: int| 0 <= i < line_spans_from(bytes, from).len() - 1 ==> (#[trigger] line_spans_from(bytes, from)[i + 1]).start_spec()
            == after_line(bytes, line_spans_from(bytes, from)[i]),
        line_spans_from(bytes, from).len() > 0 ==> after_line(bytes, line_spans_from(bytes, from).last()) == bytes.len(),
    decreases bytes.len() - from,
{
    if from < bytes.len() {
        let end = line_end(bytes, from);
        lemma_line_end(bytes, from);
        let next = end + terminator_len(bytes, end);
        let first = Span::at(from, end - from);
        Span::lemma_at(from, end - from);
        if valid_utf8(bytes) {
            lemma_boundary_at_terminator(bytes, end);
        }
        lemma_lines_from(bytes, next);
        let rest = line_spans_from(bytes, next);
        let ls = line_spans_from(bytes, from);
        assert(ls == seq![first] + rest);
        assert(ls[0] == first);
        assert forall|i: int| 0 < i < ls.len() implies #[trigger] ls[i] == rest[i - 1] by {}
        assert forall|i: int| 0 <= i < ls.len() implies is_line_of(bytes, #[trigger] ls[i]) by {
            if i > 0 {
                assert(ls[i] == rest[i - 1]);
            }
        }
        if valid_utf8(bytes) {
            assert forall|i: int| 0 <= i < ls.len() implies (#[trigger] ls[i]).fits(bytes) by {
                if i > 0 {
                    assert(ls[i] == rest[i - 1]);
                }
            }
        }
        assert forall|i: int| 0 <= i < ls.len() - 1 implies (#[trigger] ls[i + 1]).start_spec() == after_line(bytes, ls[i]) by {
            assert(ls[i + 1] == rest[i]);
            if i > 0 {
                assert(ls[i] == rest[i - 1]);
                assert(rest[(i - 1) + 1].start_spec() == after_line(bytes, rest[i - 1]));
            } else {
                assert(rest[0].start_spec() == next);
            }
        }
        if rest.len() > 0 {
            assert(ls.last() == rest.last());
        }
    }
}

/// The lines of a text cover all of it, in order: a text has lines exactly when it is not
/// empty; the first line starts at byte 0; each line lies within the text, starts and ends
/// on character boundaries, holds no `\n` or `\r`, and ends at one of them or at the end of
/// the text; each next line starts right after the terminator (`\r\n`, `\n` or a lone
/// `\r`) that ends the line before; and the last line, with its terminator if it has one,
/// reaches the end of the text.
pub proof fn law_lines_cover_source(bytes: Seq<u8>)
    requires
        bytes.len() <= usize::MAX,
        valid_utf8(bytes),
    ensures
        forall|i: int| 0 <= i < line_spans(bytes).len() ==> (#[trigger] line_spans(bytes)[i]).fits(bytes),
        (line_spans(bytes).len() == 0) == (bytes.len() == 0),
        line_spans(bytes).len() > 0 ==> line_spans(bytes)[0].start_spec() == 0,
        forall|i: int| 0 <= i < line_spans(bytes).len() ==> is_line_of(bytes, #[trigger] line_spans(bytes)[i]),
        forall|i: int| 0 <= i < line_spans(bytes).len() - 1 ==> (#[trigger] line_spans(bytes)[i + 1]).start_spec()
            == after_line(bytes, line_spans(bytes)[i]),
        line_spans(bytes).len() > 0 ==> after_line(bytes, line_spans(bytes).last()) == bytes.len(),
{
    is_char_boundary_start_end_of_seq(bytes);
    lemma_lines_from(bytes, 0);
}

/// `inner` lies inside `outer`.
pub open spec fn within(inner: Span, outer: Span) -> bool {
    &&& outer.start_spec() <= inner.start_spec()
    &&& inner.start_spec() + inner.len_spec() <= outer.start_spec() + outer.len_spec()
}

/// The span `span` with leading and trailing whitespace characters removed.
pub open spec fn trim_span(src: Seq<u8>, span: Span) -> Span {
    let cs = chars_of(span.bytes_in(src));
    let lead = leading_ws(cs);
    Span::at(
        span.start_spec() + blen(cs.take(lead as int)),
        blen(trim_end_chars(trim_start_chars(cs))) as int,
    )
}

/// Trimming a span of valid text keeps it inside the span.
pub proof fn lemma_trim_span_within(src: Seq<u8>, span: Span)
    requires
        span.start_spec() + span.len_spec() <= src.len(),
        src.len() <= usize::MAX,
        valid_utf8(span.bytes_in(src)),
    ensures
        within(trim_span(src, span), span),
{
    let b = span.bytes_in(src);
    let cs = chars_of(b);
    decode_utf8_encode_utf8(b);
    let lead = leading_ws(cs) as int;
    lemma_leading_ws_bound(cs);
    let rest = cs.skip(lead);
    lemma_trailing_ws_bound(rest);
    let kept_end = lead + (rest.len() - trailing_ws(rest));
    assert(trim_end_chars(trim_start_chars(cs)) =~= cs.subrange(lead, kept_end));
    lemma_encode_subrange(cs, lead, kept_end);
    let a = blen(cs.take(lead)) as int;
    let l = blen(trim_end_chars(trim_start_chars(cs))) as int;
    Span::lemma_at(span.start_spec() + a, l);
}

/// The number of whitespace bytes `span` starts with.
pub open spec fn indent_of(src: Seq<u8>, span: Span) -> int {
    let cs = chars_of(span.bytes_in(src));
    blen(cs.take(leading_ws(cs) as int)) as int
}

/// `span` holds only whitespace, or nothing at all.
pub open spec fn is_blank_span(src: Seq<u8>, span: Span) -> bool {
    let cs = chars_of(span.bytes_in(src));
    leading_ws(cs) == cs.len()
}

/// The source text is valid UTF-8 whose length fits a `usize`, and `span` is a range of it
/// that starts and ends on character boundaries.
pub open spec fn span_in(src: Seq<u8>, span: Span) -> bool {
    &&& src.len() <= usize::MAX
    &&& valid_utf8(src)
    &&& span.fits(src)
}

pub proof fn lemma_boundary_after_ascii(bytes: Seq<u8>, i: int)
    requires
        valid_utf8(bytes),
        0 <= i < bytes.len(),
        is_char_boundary(bytes, i),
        bytes[i] < 0x80u8,
    ensures
        is_char_boundary(bytes, i + 1),
{
    valid_utf8_split(bytes, i);
    let suffix = bytes.subrange(i, bytes.len() as int);
    assert(suffix[0] == bytes[i]);
    reveal_with_fuel(is_char_boundary, 2);
    assert(is_char_boundary(suffix, 1));
    if i + 1 == bytes.len() {
        is_char_boundary_start_end_of_seq(bytes);
    } else {
        is_char_boundary_iff_not_is_continuation_byte(suffix, 1);
        is_char_boundary_iff_not_is_continuation_byte(bytes, i + 1);
        assert(suffix[1] == bytes[i + 1]);
    }
}

proof fn lemma_boundary_at_terminator(bytes: Seq<u8>, i: int)
    requires
        valid_utf8(bytes),
        0 <= i <= bytes.len(),
        i < bytes.len() ==> (bytes[i] == 10u8 || bytes[i] == 13u8),
    ensures
        is_char_boundary(bytes, i),
        is_char_boundary(bytes, i + terminator_len(bytes, i)),
{
    if i == bytes.len() {
        is_char_boundary_start_end_of_seq(bytes);
    } else {
        is_char_boundary_iff_not_is_continuation_byte(bytes, i);
        lemma_boundary_after_ascii(bytes, i);
        if terminator_len(bytes, i) == 2 {
            lemma_boundary_after_ascii(bytes, i + 1);
        }
    }
}

/// A slice of the source text that knows its absolute byte span.
///
/// The `start..start + len` range is always a valid `char`-boundary range of `source`;
/// this is guaranteed by construction, because the only entry point is [`Fragment::lines`]
/// and every other method derives its range from the current one.
#[derive(Debug, Clone, Copy)]
pub struct Fragment<'a> {
    /// The whole source text, not just this fragment's slice of it, so that the
    /// fragment can always check its own span against the text it claims to cover.
    source: &'a str,
    start: usize,
    len: usize,
}

impl<'a> Fragment<'a> {
    /// The bytes of the whole source this fragment points into.
    pub closed spec fn source_bytes(self) -> Seq<u8> {
        self.source.spec_bytes()
    }

    /// Where this fragment sits in the source.
    pub closed spec fn span_model(self) -> Span {
        Span::at(self.start as int, self.len as int)
    }

    /// The fragment's range is a character range of its source.
    #[verifier::type_invariant]
    pub open spec fn wf(self) -> bool {
        span_in(self.source_bytes(), self.span_model())
    }

    /// The bytes this fragment covers.
    pub open spec fn text_bytes(self) -> Seq<u8> {
        self.span_model().bytes_in(self.source_bytes())
    }

    /// The characters this fragment covers.
    pub open spec fn text_chars(self) -> Seq<char> {
        chars_of(self.text_bytes())
    }

    proof fn lemma_model(self)
        requires
            self.wf(),
        ensures
            self.span_model().start_spec() == self.start,
            self.span_model().len_spec() == self.len,
            self.source_bytes() == encode_utf8(self.source@),
            self.text_bytes() == self.source_bytes().subrange(self.start as int, self.start + self.len),
            valid_utf8(self.text_bytes()),
            encode_utf8(self.text_chars()) == self.text_bytes(),
    {
        lemma_roundtrip(self.source@);
        lemma_char_range_valid(self.source_bytes(), self.start as int, self.start + self.len);
    }

    /// The fragment's text is valid UTF-8, one byte per byte of its span, and it has no
    /// characters exactly when it has no bytes.
    pub proof fn lemma_text(self)
        requires
            self.wf(),
        ensures
            self.text_bytes().len() == self.span_model().len_spec(),
            valid_utf8(self.text_bytes()),
            encode_utf8(self.text_chars()) == self.text_bytes(),
            self.text_chars().len() == 0 <==> self.span_model().len_spec() == 0,
            self.source_bytes().len() <= usize::MAX,
            valid_utf8(self.source_bytes()),
    {
        self.lemma_model();
        if self.text_chars().len() == 0 {
            assert(self.text_chars() =~= Seq::<char>::empty());
        }
    }

    /// Splits `source` into lines on `\n`, `\r\n` and a lone `\r`, excluding the terminator.
    ///
    /// An empty source yields no fragments; a source with no trailing newline yields a final
    /// fragment for the unterminated text.
    pub fn lines_vec(source: &'a str) -> (res: Vec<Fragment<'a>>)
        ensures
            res@.len() == line_spans(source.spec_bytes()).len(),
            forall|i: int|
                0 <= i < res@.len() ==> (#[trigger] res@[i]).span_model() == line_spans(
                    source.spec_bytes(),
                )[i] && res@[i].source_bytes() == source.spec_bytes(),
    {
        let bytes = source.as_bytes();
        let n = bytes.len();
        let ghost b = source.spec_bytes();
        proof {
            lemma_roundtrip(source@);
            is_char_boundary_start_end_of_seq(b);
        }
        let mut out: Vec<Fragment<'a>> = Vec::new();
        let mut offset: usize = 0;
        while offset < n
            invariant
                n == b.len(),
                bytes@ == b,
                b == source.spec_bytes(),
                valid_utf8(b),
                offset <= n,
                is_char_boundary(b, offset as int),
                line_spans(b) == out@.map_values(|f: Fragment<'a>| f.span_model()) + line_spans_from(
                    b,
                    offset as int,
                ),
                forall|i: int| 0 <= i < out@.len() ==> (#[trigger] out@[i]).source_bytes() == b,
            decreases n - offset,
        {
            let mut end = offset;
            while end < n && bytes[end] != 10u8 && bytes[end] != 13u8
                invariant
                    n == b.len(),
                    bytes@ == b,
                    offset <= end <= n,
                    line_end(b, offset as int) == line_end(b, end as int),
                decreases n - end,
            {
                end += 1;
            }
            let terminator: usize = if end < n {
                if bytes[end] == 13u8 && end + 1 < n && bytes[end + 1] == 10u8 {
                    2
                } else {
                    1
                }
            } else {
                0
            };
            proof {
                lemma_line_end(b, offset as int);
                lemma_boundary_at_terminator(b, end as int);
            }
            let line = Fragment { source, start: offset, len: end - offset };
            let ghost before = out@;
            out.push(line);
            proof {
                assert(out@.map_values(|f: Fragment<'a>| f.span_model()) =~= before.map_values(
                    |f: Fragment<'a>| f.span_model(),
                ).push(line.span_model()));
                assert(line_spans_from(b, offset as int) == seq![Span::at(offset as int, end - offset)]
                    + line_spans_from(b, end + terminator));
            }
            offset = end + terminator;
        }
        proof {
            let spans = out@.map_values(|f: Fragment<'a>| f.span_model());
            assert(line_spans(b) =~= spans);
            assert forall|i: int| 0 <= i < out@.len() implies (#[trigger] out@[i]).span_model()
                == line_spans(b)[i] by {
                assert(spans[i] == out@[i].span_model());
            }
        }
        out
    }

    /// Splits `source` into lines; see [`Fragment::lines_vec`], of which this is the
    /// iterator.
    pub fn lines(source: &'a str) -> (res: std::vec::IntoIter<Fragment<'a>>)
        ensures
            into_iter_elts(res).len() == line_spans(source.spec_bytes()).len(),
            forall|i: int|
                0 <= i < into_iter_elts(res).len() ==> (#[trigger] into_iter_elts(res)[i]).span_model()
                    == line_spans(source.spec_bytes())[i] && into_iter_elts(res)[i].source_bytes()
                    == source.spec_bytes(),
    {
        let lines = Self::lines_vec(source);
        let ghost elements = lines@;
        let res = lines.into_iter();
        proof {
            assert(into_iter_elts(res) == elements);
        }
        res
    }

    /// The text this fragment covers.
    pub fn text(self) -> (res: &'a str)
        ensures
            res.spec_bytes() == self.text_bytes(),
            res@ == self.text_chars(),
    {
        proof {
            use_type_invariant(self);
            self.lemma_model();
        }
        slice_str(self.source, self.start, self.start + self.len)
    }

    /// Where this fragment sits in the source.
    pub fn span(self) -> (res: Span)
        ensures
            res == self.span_model(),
    {
        proof {
            use_type_invariant(self);
        }
        Span::new(self.start, self.len)
    }

    /// Whether the fragment is empty or contains only whitespace.
    pub fn is_blank(self) -> (res: bool)
        ensures
            res == is_blank_span(self.source_bytes(), self.span_model()),
    {
        let text = self.text();
        let trimmed = str_trim_end(str_trim_start(text));
        proof {
            let cs = text@;
            lemma_leading_ws_bound(cs);
            let rest = trim_start_chars(cs);
            lemma_trailing_ws_bound(rest);
            if rest.len() > 0 {
                assert(rest[0] == cs[leading_ws(cs) as int]);
            }
        }
        trimmed.is_empty()
    }

    /// The number of leading whitespace **bytes**, which is what a span is measured in.
    pub fn indent(self) -> (res: usize)
        ensures
            res == indent_of(self.source_bytes(), self.span_model()),
    {
        let text = self.text();
        let rest = str_trim_start(text);
        proof {
            use_type_invariant(self);
            self.lemma_model();
            lemma_leading_ws_bound(text@);
            lemma_encode_take_skip(text@, leading_ws(text@) as int);
        }
        text.len() - rest.len()
    }

    /// The fragment with leading and trailing whitespace removed, span included.
    ///
    /// Offsets come from the lengths of the trimmed strings, so non-ASCII whitespace
    /// shortens the span by its byte length rather than by a character count.
    pub fn trim(self) -> (res: Self)
        ensures
            res.span_model() == trim_span(self.source_bytes(), self.span_model()),
            res.source_bytes() == self.source_bytes(),
            res.text_chars() == trim_end_chars(trim_start_chars(self.text_chars())),
            within(res.span_model(), self.span_model()),
    {
        proof {
            use_type_invariant(self);
            self.lemma_model();
        }
        let text = self.text();
        let without_leading = str_trim_start(text);
        let trimmed = str_trim_end(without_leading);
        let ghost cs = text@;
        let ghost lead = leading_ws(cs) as int;
        let ghost rest = cs.skip(lead);
        let ghost kept_end = lead + (rest.len() - trailing_ws(rest));
        proof {
            lemma_leading_ws_bound(cs);
            lemma_trailing_ws_bound(rest);
            lemma_encode_take_skip(cs, lead);
            lemma_encode_subrange(cs, lead, kept_end);
            assert(trimmed@ =~= cs.subrange(lead, kept_end));
            lemma_boundary_at_char_index(cs, lead);
            lemma_boundary_at_char_index(cs, kept_end);
            lemma_boundary_from_range(self.source_bytes(), self.start as int, self.start + self.len, blen(cs.take(lead)) as int);
            lemma_boundary_from_range(self.source_bytes(), self.start as int, self.start + self.len, blen(cs.take(kept_end)) as int);
        }
        let leading = text.len() - without_leading.len();
        let res = Self { source: self.source, start: self.start + leading, len: trimmed.len() };
        proof {
            let a = blen(cs.take(lead)) as int;
            let c = blen(cs.take(kept_end)) as int;
            let sub = cs.subrange(lead, kept_end);
            assert(res.text_bytes() =~= self.text_bytes().subrange(a, c));
            lemma_roundtrip(sub);
            assert(trim_end_chars(trim_start_chars(cs)) =~= sub);
        }
        res
    }

    /// The sub-fragment covering `range`.
    ///
    /// `range` is relative to [`Fragment::text`]. Returns `None` when it is not a valid
    /// sub-slice: reversed, out of range, or not on `char` boundaries.
    pub fn subrange(self, range: std::ops::Range<usize>) -> (res: Option<Self>)
        ensures
            res is Some <==> is_char_range(self.text_bytes(), range.start as int, range.end as int),
            res matches Some(f) ==> f.span_model() == Span::at(
                self.span_model().start_spec() + range.start,
                range.end - range.start,
            ) && f.source_bytes() == self.source_bytes(),
    {
        proof {
            use_type_invariant(self);
            self.lemma_model();
        }
        let text = self.text();
        let start = range.start;
        let end = range.end;
        if start > end || end > text.len() {
            return None;
        }
        if !text.is_char_boundary(start) || !text.is_char_boundary(end) {
            return None;
        }
        proof {
            lemma_boundary_from_range(self.source_bytes(), self.start as int, self.start + self.len, start as int);
            lemma_boundary_from_range(self.source_bytes(), self.start as int, self.start + self.len, end as int);
        }
        Some(Self { source: self.source, start: self.start + start, len: end - start })
    }

    /// The fragment's text as an owned value that remembers where it came from.
    pub fn to_spanned(self) -> (res: Spanned<String>)
        ensures
            res.span == Some(self.span_model()),
            res.inner@ == self.text_chars(),
    {
        let span = self.span();
        Spanned::from_source(span, String::from_str(self.text()))
    }
}

} // verus!
