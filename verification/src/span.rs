//! Byte ranges into the source text, and values tagged with where they came from.

use crate::text::{chars_of, is_char_range, slice_str};
use vstd::prelude::*;
use vstd::string::*;
use vstd::utf8::*;

verus! {

/// A byte range into the source text a value was parsed from.
///
/// A span is a start offset plus a **length**, never a start and an end: a length
/// cannot be negative, so `start <= end` holds by construction and a reversed range
/// is not expressible. Offsets are byte offsets into the UTF-8 source.
#[derive(Debug, Clone, Copy, PartialEq, Eq, Structural, PartialOrd, Ord, Hash)]
pub struct Span {
    start: usize,
    len: usize,
}

impl Span {
    /// The byte offset the span begins at.
    pub closed spec fn start_spec(self) -> usize {
        self.start
    }

    /// The number of bytes the span covers.
    pub closed spec fn len_spec(self) -> usize {
        self.len
    }

    /// The span of `len` bytes from `start`, for offsets that fit in a `usize`.
    pub closed spec fn at(start: int, len: int) -> Span {
        Span { start: start as usize, len: len as usize }
    }

    /// One past the last byte, saturating at `usize::MAX`.
    pub open spec fn end_spec(self) -> usize {
        if self.start_spec() + self.len_spec() > usize::MAX {
            usize::MAX
        } else {
            (self.start_spec() + self.len_spec()) as usize
        }
    }

    /// The span covers exactly the byte range `start..end` of `bytes`, and both ends fall
    /// on character boundaries.
    pub open spec fn fits(self, bytes: Seq<u8>) -> bool {
        &&& self.start_spec() + self.len_spec() <= bytes.len()
        &&& is_char_range(bytes, self.start_spec() as int, self.start_spec() + self.len_spec())
    }

    /// The bytes of `bytes` the span points at.
    pub open spec fn bytes_in(self, bytes: Seq<u8>) -> Seq<u8> {
        bytes.subrange(self.start_spec() as int, self.start_spec() + self.len_spec())
    }

    /// [`Span::at`] gives back the offsets it was made from.
    pub broadcast proof fn lemma_at(start: int, len: int)
        requires
            0 <= start <= usize::MAX,
            0 <= len <= usize::MAX,
        ensures
            #[trigger] Span::at(start, len).start_spec() == start,
            Span::at(start, len).len_spec() == len,
    {
    }

    /// A span is determined by its start and its length.
    pub broadcast proof fn lemma_at_self(span: Span)
        ensures
            #[trigger] Span::at(span.start_spec() as int, span.len_spec() as int) == span,
    {
    }

    /// A span of `len` bytes beginning at byte offset `start`.
    pub fn new(start: usize, len: usize) -> (res: Self)
        ensures
            res.start_spec() == start,
            res.len_spec() == len,
            res == Span::at(start as int, len as int),
    {
        Self { start, len }
    }

    /// The byte offset the span begins at.
    #[verifier::when_used_as_spec(start_spec)]
    pub fn start(self) -> (res: usize)
        ensures
            res == self.start_spec(),
    {
        self.start
    }

    /// The byte offset one past the last byte of the span.
    ///
    /// Saturating; a `Span` produced by this crate never comes close to overflowing,
    /// because `start + len` is bounded by the length of the source text.
    #[verifier::when_used_as_spec(end_spec)]
    pub fn end(self) -> (res: usize)
        ensures
            res == self.end_spec(),
    {
        self.start.saturating_add(self.len)
    }

    /// The number of bytes the span covers.
    #[verifier::when_used_as_spec(len_spec)]
    pub fn len(self) -> (res: usize)
        ensures
            res == self.len_spec(),
    {
        self.len
    }

    /// Whether the span covers no bytes at all.
    pub fn is_empty(self) -> (res: bool)
        ensures
            res == (self.len_spec() == 0),
    {
        self.len == 0
    }

    /// The text this span points at, or `None` when it does not fit `source`
    /// or does not land on `char` boundaries.
    pub fn slice(self, source: &str) -> (res: Option<&str>)
        ensures
            res.is_some() <==> self.fits(source.spec_bytes()),
            res matches Some(text) ==> text.spec_bytes() == self.bytes_in(source.spec_bytes()),
            res matches Some(text) ==> text@ == chars_of(self.bytes_in(source.spec_bytes())),
    {
        let bytes = source.as_bytes();
        let n = bytes.len();
        let end = self.end();
        if self.len > usize::MAX - self.start {
            // `end` saturated; the source is shorter than `usize::MAX` bytes.
            return None;
        }
        if end > n {
            return None;
        }
        if !source.is_char_boundary(self.start) || !source.is_char_boundary(end) {
            return None;
        }
        Some(slice_str(source, self.start, end))
    }
}

pub broadcast group group_span {
    Span::lemma_at,
    Span::lemma_at_self,
}

impl Default for Span {
    /// The empty span at offset zero.
    fn default() -> (res: Self)
        ensures
            res.start_spec() == 0,
            res.len_spec() == 0,
    {
        Self { start: 0, len: 0 }
    }
}

impl From<Span> for std::ops::Range<usize> {
    fn from(span: Span) -> (res: Self) {
        span.start()..span.end()
    }
}

impl vstd::std_specs::convert::FromSpecImpl<Span> for std::ops::Range<usize> {
    open spec fn obeys_from_spec() -> bool {
        true
    }

    open spec fn from_spec(span: Span) -> Self {
        span.start_spec()..span.end_spec()
    }
}

/// A value together with where in the source it came from, if it came from source at all.
///
/// A value that was not parsed has `span: None` rather than a fabricated `0..0`, so a
/// diagnostic builder is forced to decide what to do with it instead of pointing a caret
/// at the first character of the file.
///
/// `PartialEq` is derived, so the span participates in equality.
#[derive(Debug, Clone, PartialEq, Eq)]
pub struct Spanned<T> {
    /// The value itself.
    pub inner: T,
    /// Where `inner` was read from, or `None` when it was not read from source.
    pub span: Option<Span>,
}

impl<T: View> View for Spanned<T> {
    type V = Spanned<T::V>;

    open spec fn view(&self) -> Spanned<T::V> {
        Spanned { inner: self.inner@, span: self.span }
    }
}

impl<T> Spanned<T> {
    /// A value read from source text at `span`.
    pub fn from_source(span: Span, value: T) -> (res: Self)
        ensures
            res.inner == value,
            res.span == Some(span),
    {
        Self { inner: value, span: Some(span) }
    }

    /// A value the caller constructed rather than parsed; it has no place in the source.
    pub fn synthetic(value: T) -> (res: Self)
        ensures
            res.inner == value,
            res.span.is_none(),
    {
        Self { inner: value, span: None }
    }

    /// Applies `f` to the value, keeping the span it came from.
    pub fn map<U>(self, f: impl FnOnce(T) -> U) -> (res: Spanned<U>)
        requires
            call_requires(f, (self.inner,)),
        ensures
            call_ensures(f, (self.inner,), res.inner),
            res.span == self.span,
    {
        Spanned { inner: f(self.inner), span: self.span }
    }

    /// Discards the span and returns the value.
    pub fn into_inner(self) -> (res: T)
        ensures
            res == self.inner,
    {
        self.inner
    }

    /// Borrows the value without its span.
    pub fn as_ref(&self) -> (res: &T)
        ensures
            *res == self.inner,
    {
        &self.inner
    }

    /// The value rendered with its `Display` impl; the span is not shown.
    pub fn to_string(&self) -> (res: String) where T: std::fmt::Display
        ensures
            to_string_from_display_ensures::<T>(&self.inner, res),
    {
        self.inner.to_string()
    }
}

impl Spanned<String> {
    /// Borrows the value as a string slice.
    pub fn as_str(&self) -> (res: &str)
        ensures
            res@ == self.inner@,
    {
        self.inner.as_str()
    }

}

/// Convenience for callers building configuration programmatically; the produced
/// value is synthetic and carries no span.
impl<'a> From<&'a str> for Spanned<String> {
    fn from(value: &'a str) -> (res: Self)
        ensures
            res.inner@ == value@,
            res.span is None,
    {
        Spanned::synthetic(String::from_str(value))
    }
}

impl<'a> vstd::std_specs::convert::FromSpecImpl<&'a str> for Spanned<String> {
    open spec fn obeys_from_spec() -> bool {
        false
    }

    open spec fn from_spec(value: &'a str) -> Self {
        arbitrary()
    }
}

/// Convenience for callers building configuration programmatically; the produced
/// value is synthetic and carries no span.
impl From<String> for Spanned<String> {
    fn from(value: String) -> (res: Self) {
        Spanned::synthetic(value)
    }
}

impl vstd::std_specs::convert::FromSpecImpl<String> for Spanned<String> {
    open spec fn obeys_from_spec() -> bool {
        true
    }

    open spec fn from_spec(value: String) -> Self {
        Spanned { inner: value, span: None }
    }
}

} // verus!
