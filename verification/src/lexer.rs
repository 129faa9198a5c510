//! What one source line says, decided without looking at any other line.

use crate::fragment::{Fragment, indent_of, lemma_boundary_after_ascii, lemma_trim_span_within, trim_span, within};
use crate::matcher::{leftmost_first, lemma_leftmost_first, search};
use crate::options::{all_valid_utf8, clone_strings, CompiledOptions, OptionsModel};
use crate::problem::{KindModel, ProblemKind};
use crate::span::Span;
use crate::text::{
    chars_of, is_char_range, is_white_space, lemma_boundary_from_range, lemma_boundary_to_range,
    lemma_boundary_in_prefix, lemma_char_range_valid, lemma_occurrence_boundaries, lemma_roundtrip, slice_str,
    char_is_whitespace, lemma_trimmed_ends_clean, no_trailing_ws, str_last_char, str_trim_start,
    trim_start_chars,
};
use vstd::prelude::*;
use vstd::string::*;
use vstd::utf8::*;

verus! {

broadcast use {crate::span::group_span, vstd::utf8::group_utf8_lib};

/// What one source line says.
///
/// A line is classified on its own; the only thing the lexer knows about the rest of the
/// document is `indent_baseline` (see [`classify`]), which is why a malformed line is a
/// value rather than an error: nothing about it invalidates the lines around it.
#[derive(Debug, Clone)]
pub enum Line<'a> {
    /// Empty, whitespace-only, or a full-line comment.
    Blank,
    /// A section header; the fragment is the name with the brackets excluded and **not**
    /// trimmed, because `configparser` does not trim it either (`[ s ]` names the section
    /// `" s "`).
    SectionHeader(Fragment<'a>),
    /// An assignment, both halves trimmed and with any inline comment already removed.
    Option {
        /// The option name as written, left of the delimiter.
        key: Fragment<'a>,
        /// The value as written, right of the delimiter; empty for `key =`.
        value: Fragment<'a>,
    },
    /// A line indented further than the option it continues, comment-stripped and trimmed.
    Continuation(Fragment<'a>),
    /// A line the parser records as a problem and then skips.
    Malformed {
        /// What is wrong with the line.
        kind: ProblemKind,
        /// The bytes to point the diagnostic at.
        span: Span,
    },
}

/// A classified line, with each fragment taken by its span.
pub enum LineModel {
    Blank,
    SectionHeader(Span),
    Assignment { key: Span, value: Span },
    Continuation(Span),
    Malformed { kind: KindModel, span: Span },
}

impl<'a> Line<'a> {
    /// What the line says, each fragment taken by its span.
    pub open spec fn model(self) -> LineModel {
        match self {
            Line::Blank => LineModel::Blank,
            Line::SectionHeader(name) => LineModel::SectionHeader(name.span_model()),
            Line::Option { key, value } => LineModel::Assignment {
                key: key.span_model(),
                value: value.span_model(),
            },
            Line::Continuation(text) => LineModel::Continuation(text.span_model()),
            Line::Malformed { kind, span } => LineModel::Malformed { kind: kind@, span },
        }
    }

    /// Every fragment the line carries points into `src`.
    pub open spec fn points_into(self, src: Seq<u8>) -> bool {
        match self {
            Line::SectionHeader(name) => name.source_bytes() == src,
            Line::Option { key, value } => key.source_bytes() == src && value.source_bytes() == src,
            Line::Continuation(text) => text.source_bytes() == src,
            _ => true,
        }
    }
}

/// Every span a classified line carries is a character range of `src`; a value, and the
/// text a continuation adds, does not end with whitespace, and a continuation adds some;
/// and a malformed line is never reported as a duplicate.
pub open spec fn model_fits(m: LineModel, src: Seq<u8>) -> bool {
    match m {
        LineModel::Blank => true,
        LineModel::SectionHeader(name) => name.fits(src),
        LineModel::Assignment { key, value } => {
            &&& key.fits(src)
            &&& value.fits(src)
            &&& no_trailing_ws(chars_of(value.bytes_in(src)))
        },
        LineModel::Continuation(text) => {
            &&& text.fits(src)
            &&& chars_of(text.bytes_in(src)).len() > 0
            &&& no_trailing_ws(chars_of(text.bytes_in(src)))
        },
        LineModel::Malformed { kind, span } => {
            &&& span.fits(src)
            &&& !(kind is DuplicateOption)
            &&& !(kind is DuplicateSection)
        },
    }
}

/// Every span a classified line carries lies inside `outer`.
pub open spec fn model_within(m: LineModel, outer: Span) -> bool {
    match m {
        LineModel::Blank => true,
        LineModel::SectionHeader(name) => within(name, outer),
        LineModel::Assignment { key, value } => within(key, outer) && within(value, outer),
        LineModel::Continuation(text) => within(text, outer),
        LineModel::Malformed { span, .. } => within(span, outer),
    }
}

/// The byte at `at` starts the text, or follows a whitespace character; an offset inside a
/// character follows nothing.
pub open spec fn preceded_by_ws(text: Seq<u8>, at: int) -> bool {
    ||| at == 0
    ||| {
        &&& is_char_boundary(text, at)
        &&& chars_of(text.subrange(0, at)).len() > 0
        &&& is_white_space(chars_of(text.subrange(0, at)).last())
    }
}

/// Where the first inline comment starts, walking the leftmost-first matches from `from`
/// on, each search resuming where the previous match ended.
pub open spec fn inline_comment_from(text: Seq<u8>, patterns: Seq<Seq<u8>>, from: int) -> Option<int>
    decreases text.len() + 1 - from,
{
    if from < 0 || from > text.len() {
        None
    } else {
        match leftmost_first(patterns, text, from) {
            None => None,
            Some((s, k)) => {
                proof {
                    lemma_leftmost_first(patterns, text, from);
                }
                if preceded_by_ws(text, s) {
                    Some(s)
                } else if patterns[k].len() > 0 {
                    inline_comment_from(text, patterns, s + patterns[k].len())
                } else {
                    None
                }
            },
        }
    }
}

proof fn lemma_inline_comment_from(text: Seq<u8>, patterns: Seq<Seq<u8>>, from: int)
    ensures
        inline_comment_from(text, patterns, from) matches Some(at) ==> 0 <= from <= at <= text.len(),
    decreases text.len() + 1 - from,
{
    if from < 0 || from > text.len() {
    } else {
        lemma_leftmost_first(patterns, text, from);
        match leftmost_first(patterns, text, from) {
            None => {},
            Some((s, k)) => {
                if !preceded_by_ws(text, s) && patterns[k].len() > 0 {
                    lemma_inline_comment_from(text, patterns, s + patterns[k].len());
                }
            },
        }
    }
}

/// The byte offset into `text` at which a comment begins, if one does: at 0 when the text
/// after its leading whitespace starts with a full-line prefix, else at the first inline
/// prefix that starts the text or follows whitespace.
pub open spec fn comment_start_spec(text: Seq<u8>, o: OptionsModel) -> Option<int> {
    let rest = encode_utf8(trim_start_chars(chars_of(text)));
    if leftmost_first(o.comment_prefixes, rest, 0) matches Some((s, _)) && s == 0 {
        Some(0)
    } else {
        inline_comment_from(text, o.inline_comment_prefixes, 0)
    }
}

/// An inline comment prefix that starts the text, or follows a character for which
/// `char::is_whitespace` holds (a tab, a space, a no-break space, ...), starts a comment: if
/// the first place any inline prefix occurs in a line's text is such a place, the comment
/// begins there or earlier.
pub proof fn law_inline_comment_after_whitespace(text: Seq<u8>, o: OptionsModel, at: int)
    requires
        leftmost_first(o.inline_comment_prefixes, text, 0) matches Some((first, _)) && first == at,
        at == 0 || {
            &&& is_char_boundary(text, at)
            &&& chars_of(text.subrange(0, at)).len() > 0
            &&& is_white_space(chars_of(text.subrange(0, at)).last())
        },
    ensures
        comment_start_spec(text, o) matches Some(c) && 0 <= c <= at,
{
    lemma_leftmost_first(o.inline_comment_prefixes, text, 0);
    assert(preceded_by_ws(text, at));
    assert(inline_comment_from(text, o.inline_comment_prefixes, 0) == Some(at));
}

proof fn lemma_inline_comment_from_follows_ws(text: Seq<u8>, patterns: Seq<Seq<u8>>, from: int)
    ensures
        inline_comment_from(text, patterns, from) matches Some(at) ==> preceded_by_ws(text, at),
    decreases text.len() + 1 - from,
{
    if from < 0 || from > text.len() {
    } else {
        lemma_leftmost_first(patterns, text, from);
        match leftmost_first(patterns, text, from) {
            None => {},
            Some((s, k)) => {
                if !preceded_by_ws(text, s) && patterns[k].len() > 0 {
                    lemma_inline_comment_from_follows_ws(text, patterns, s + patterns[k].len());
                }
            },
        }
    }
}

/// What is left of a line once its comment is cut off and the rest trimmed lies inside the
/// line, and ends where the comment starts or earlier. So when the first inline comment
/// prefix in a line starts it or follows a character for which `char::is_whitespace` holds
/// (a tab as much as a space), nothing from that prefix on is part of the line's content.
pub proof fn law_content_stops_before_comment(src: Seq<u8>, line: Span, o: OptionsModel, at: int)
    requires
        line.start_spec() + line.len_spec() <= src.len(),
        src.len() <= usize::MAX,
        valid_utf8(line.bytes_in(src)),
    ensures
        within(content_of(src, line, o), line),
        comment_start_spec(line.bytes_in(src), o) matches Some(c) ==> content_of(src, line, o).start_spec()
            + content_of(src, line, o).len_spec() <= line.start_spec() + c,
        ({
            let text = line.bytes_in(src);
            &&& leftmost_first(o.inline_comment_prefixes, text, 0) matches Some((first, _)) && first == at
            &&& (at == 0 || {
                &&& is_char_boundary(text, at)
                &&& chars_of(text.subrange(0, at)).len() > 0
                &&& is_white_space(chars_of(text.subrange(0, at)).last())
            })
        }) ==> content_of(src, line, o).start_spec() + content_of(src, line, o).len_spec() <= line.start_spec() + at,
{
    let text = line.bytes_in(src);
    let end = match comment_start_spec(text, o) {
        Some(c) => c,
        None => text.len() as int,
    };
    lemma_inline_comment_from(text, o.inline_comment_prefixes, 0);
    lemma_inline_comment_from_follows_ws(text, o.inline_comment_prefixes, 0);
    assert(0 <= end <= text.len());
    if end < text.len() && end > 0 {
        assert(is_char_boundary(text, end));
    }
    if end == 0 {
        is_char_boundary_start_end_of_seq(text);
    }
    if end == text.len() {
        is_char_boundary_start_end_of_seq(text);
    }
    lemma_boundary_in_prefix(text, end, end);
    let part = Span::at(line.start_spec() as int, end);
    assert(part.bytes_in(src) =~= text.subrange(0, end));
    lemma_trim_span_within(src, part);
    let ok = {
        &&& leftmost_first(o.inline_comment_prefixes, text, 0) matches Some((first, _)) && first == at
        &&& (at == 0 || {
            &&& is_char_boundary(text, at)
            &&& chars_of(text.subrange(0, at)).len() > 0
            &&& is_white_space(chars_of(text.subrange(0, at)).last())
        })
    };
    if ok {
        law_inline_comment_after_whitespace(text, o, at);
    }
}

/// The index of the last `]` in `bytes`, if there is one.
pub open spec fn last_close_bracket(bytes: Seq<u8>) -> Option<int>
    decreases bytes.len(),
{
    if bytes.len() == 0 {
        None
    } else if bytes.last() == 0x5Du8 {
        Some(bytes.len() - 1)
    } else {
        last_close_bracket(bytes.drop_last())
    }
}

/// A header line's meaning, for content that starts with `[`.
pub open spec fn section_header_spec(src: Seq<u8>, content: Span, o: OptionsModel) -> LineModel {
    let text = content.bytes_in(src);
    match last_close_bracket(text) {
        None => LineModel::Malformed { kind: KindModel::SectionNotClosed, span: content },
        Some(close) => {
            let name = Span::at(content.start_spec() + 1, close - 1);
            if close == 1 {
                LineModel::Malformed { kind: KindModel::EmptySectionName, span: content }
            } else if !o.allow_brackets_in_section_name && name.bytes_in(src).contains(0x5Du8) {
                LineModel::Malformed { kind: KindModel::InvalidSectionName, span: name }
            } else {
                LineModel::SectionHeader(name)
            }
        },
    }
}

/// An assignment line's meaning: split at the leftmost-first delimiter, both halves
/// trimmed, the value starting where the delimiter match ends.
pub open spec fn assignment_spec(src: Seq<u8>, content: Span, o: OptionsModel) -> LineModel {
    let text = content.bytes_in(src);
    match leftmost_first(o.delimiters, text, 0) {
        None => LineModel::Malformed {
            kind: KindModel::MissingAssignmentDelimiter { delimiters: o.delimiter_names },
            span: content,
        },
        Some((s, k)) => {
            let e = s + o.delimiters[k].len();
            let key = trim_span(src, Span::at(content.start_spec() as int, s));
            let value = trim_span(src, Span::at(content.start_spec() + e, text.len() - e));
            if key.len_spec() == 0 {
                LineModel::Malformed { kind: KindModel::EmptyOptionName, span: key }
            } else {
                LineModel::Assignment { key, value }
            }
        },
    }
}

/// What a line says before any comment on it, trimmed.
pub open spec fn content_of(src: Seq<u8>, line: Span, o: OptionsModel) -> Span {
    let text = line.bytes_in(src);
    let content_end = match comment_start_spec(text, o) {
        Some(at) => at,
        None => text.len() as int,
    };
    trim_span(src, Span::at(line.start_spec() as int, content_end))
}

/// A line is blank exactly when nothing is left of it once any comment is cut off and the
/// rest trimmed.
pub proof fn law_blank_iff_no_content(src: Seq<u8>, line: Span, indent_baseline: Option<usize>, o: OptionsModel)
    ensures
        (classify_spec(src, line, indent_baseline, o) is Blank) <==> content_of(src, line, o).len_spec() == 0,
{
}

/// What the line at `line` of `src` says, given the indent of the option open for
/// continuation, if any.
///
/// The phases run in this order: the indent is read from the raw line; a comment start is
/// located; the content before it is trimmed; empty content is blank; a line indented past
/// the baseline continues the open option, before the section-header check; content
/// starting with `[` is a header closed by its **last** `]`; anything else is split at the
/// leftmost delimiter, the caller's list order breaking a tie.
pub open spec fn classify_spec(src: Seq<u8>, line: Span, indent_baseline: Option<usize>, o: OptionsModel) -> LineModel {
    let indent = indent_of(src, line);
    let content = content_of(src, line, o);
    if content.len_spec() == 0 {
        LineModel::Blank
    } else if indent_baseline matches Some(baseline) && indent > baseline {
        LineModel::Continuation(content)
    } else if content.bytes_in(src)[0] == 0x5Bu8 {
        section_header_spec(src, content, o)
    } else {
        assignment_spec(src, content, o)
    }
}

/// Classifies one source line.
///
/// `indent_baseline` is `Some` only while an option is open for continuation, and holds
/// that option's own line indent; a line indented further than it continues that option.
/// Never panics, and every fragment it returns is a character range of the line's source.
pub fn classify<'a>(line: Fragment<'a>, indent_baseline: Option<usize>, options: &CompiledOptions) -> (res: Line<'a>)
    ensures
        res.model() == classify_spec(line.source_bytes(), line.span_model(), indent_baseline, options.model()),
        res.points_into(line.source_bytes()),
        model_fits(res.model(), line.source_bytes()),
        model_within(res.model(), line.span_model()),
{
    proof {
        use_type_invariant(line);
    }
    let indent = line.indent();
    let text = line.text();
    let content_end = match comment_start(text, options) {
        Some(at) => at,
        None => text.len(),
    };
    let content = match line.subrange(0..content_end) {
        Some(content) => {
            proof {
                lemma_trimmed_ends_clean(content.text_chars());
            }
            content.trim()
        },
        None => return Line::Blank,
    };
    let content_text = content.text();
    proof {
        use_type_invariant(content);
        content.lemma_text();
    }
    if content_text.is_empty() {
        return Line::Blank;
    }
    let continues = match indent_baseline {
        Some(baseline) => indent > baseline,
        None => false,
    };
    if continues {
        return Line::Continuation(content);
    }
    proof {
        use_type_invariant(content);
    }
    if content_text.as_bytes()[0] == 0x5Bu8 {
        return section_header(content, options);
    }
    assignment(content, options)
}

/// The byte offset into `text` at which a comment begins, if one does.
///
/// A full-line prefix counts only where the line's text begins, and an inline prefix counts
/// only at the start of the line or after a whitespace `char` — which is what keeps the `#`
/// in `url = http://x.com#anchor` part of the value.
fn comment_start(text: &str, options: &CompiledOptions) -> (res: Option<usize>)
    ensures
        res == (match comment_start_spec(text.spec_bytes(), options.model()) {
            Some(at) => Some(at as usize),
            None => None::<usize>,
        }),
        res matches Some(at) ==> at <= text.spec_bytes().len() && is_char_boundary(text.spec_bytes(), at as int),
        comment_start_spec(text.spec_bytes(), options.model()) matches Some(at) ==> 0 <= at <= text.spec_bytes().len(),
{
    proof {
        lemma_roundtrip(text@);
        lemma_inline_comment_from(text.spec_bytes(), options.model().inline_comment_prefixes, 0);
    }
    if starts_with_pattern(options.comment_prefixes(), str_trim_start(text)) {
        return Some(0);
    }
    let matcher = options.inline_comment_prefixes();
    let haystack = text.as_bytes();
    let ghost patterns = options.model().inline_comment_prefixes;
    let ghost t = text.spec_bytes();
    let mut from: usize = 0;
    loop
        invariant
            haystack@ == t,
            t == text.spec_bytes(),
            patterns == options.model().inline_comment_prefixes,
            crate::matcher::matcher_patterns(*matcher) == patterns,
            crate::matcher::matcher_is_leftmost_first(*matcher),
            crate::matcher::no_empty_pattern(patterns),
            from <= t.len(),
            inline_comment_from(t, patterns, 0) == inline_comment_from(t, patterns, from as int),
            !(leftmost_first(options.model().comment_prefixes, encode_utf8(trim_start_chars(chars_of(t))), 0) matches Some((s, _)) && s == 0),
        decreases t.len() - from,
    {
        match search(matcher, haystack, from) {
            None => return None,
            Some((start, end, _)) => {
                if preceded_by_whitespace(text, start) {
                    return Some(start);
                }
                from = end;
            },
        }
    }
}

/// Whether `text` begins with one of `matcher`'s patterns.
///
/// Exactly what `str::starts_with` over the whole pattern list would answer: the matcher is
/// built leftmost-first, so its leftmost match starts at 0 whenever any pattern does.
fn starts_with_pattern(matcher: &aho_corasick::AhoCorasick, text: &str) -> (res: bool)
    requires
        crate::matcher::matcher_is_leftmost_first(*matcher),
        crate::matcher::no_empty_pattern(crate::matcher::matcher_patterns(*matcher)),
    ensures
        res == (leftmost_first(crate::matcher::matcher_patterns(*matcher), text.spec_bytes(), 0) matches Some((s, _)) && s == 0),
{
    match search(matcher, text.as_bytes(), 0) {
        Some((start, _, _)) => start == 0,
        None => false,
    }
}

/// Whether the byte at `at` starts the line or follows a whitespace `char`.
fn preceded_by_whitespace(text: &str, at: usize) -> (res: bool)
    requires
        at <= text.spec_bytes().len(),
    ensures
        res == preceded_by_ws(text.spec_bytes(), at as int),
{
    if at == 0 {
        return true;
    }
    if !text.is_char_boundary(at) {
        return false;
    }
    proof {
        lemma_roundtrip(text@);
        is_char_boundary_start_end_of_seq(text.spec_bytes());
    }
    let before = slice_str(text, 0, at);
    match str_last_char(before) {
        Some(c) => char_is_whitespace(c),
        None => false,
    }
}

/// Classifies content already known to start with `[`.
fn section_header<'a>(content: Fragment<'a>, options: &CompiledOptions) -> (res: Line<'a>)
    requires
        content.text_bytes().len() > 0,
        content.text_bytes()[0] == 0x5Bu8,
    ensures
        res.model() == section_header_spec(content.source_bytes(), content.span_model(), options.model()),
        res.points_into(content.source_bytes()),
        model_fits(res.model(), content.source_bytes()),
        model_within(res.model(), content.span_model()),
{
    proof {
        use_type_invariant(content);
    }
    let text = content.text();
    let bytes = text.as_bytes();
    let ghost t = content.text_bytes();
    assert(t.subrange(0, t.len() as int) =~= t);
    let mut i = bytes.len();
    while i > 0 && bytes[i - 1] != 0x5Du8
        invariant
            bytes@ == t,
            i <= t.len(),
            last_close_bracket(t) == last_close_bracket(t.subrange(0, i as int)),
        decreases i,
    {
        proof {
            assert(t.subrange(0, i - 1) =~= t.subrange(0, i as int).drop_last());
        }
        i -= 1;
    }
    if i == 0 {
        assert(t.subrange(0, 0) =~= Seq::<u8>::empty());
        return Line::Malformed { kind: ProblemKind::SectionNotClosed, span: content.span() };
    }
    let close = i - 1;
    proof {
        assert(t.subrange(0, i as int).last() == t[close as int]);
        // `[` and `]` are single-byte characters, so both ends of the name are boundaries.
        lemma_char_range_valid(content.source_bytes(), content.span_model().start_spec() as int,
            content.span_model().start_spec() + content.span_model().len_spec());
        content.lemma_text();
        is_char_boundary_iff_not_is_continuation_byte(t, close as int);
        is_char_boundary_start_end_of_seq(t);
        lemma_boundary_after_ascii(t, 0);
    }
    if close == 0 {
        return Line::Malformed { kind: ProblemKind::SectionNotClosed, span: content.span() };
    }
    let name = match content.subrange(1..close) {
        Some(name) => name,
        None => return Line::Blank,
    };
    proof {
        use_type_invariant(name);
    }
    if close == 1 {
        return Line::Malformed { kind: ProblemKind::EmptySectionName, span: content.span() };
    }
    if !options.allow_brackets_in_section_name() && contains_close_bracket(name.text()) {
        return Line::Malformed { kind: ProblemKind::InvalidSectionName, span: name.span() };
    }
    Line::SectionHeader(name)
}

/// Whether `text` contains a `]`.
fn contains_close_bracket(text: &str) -> (res: bool)
    ensures
        res == text.spec_bytes().contains(0x5Du8),
{
    let bytes = text.as_bytes();
    let mut i: usize = 0;
    while i < bytes.len()
        invariant
            i <= bytes@.len(),
            bytes@ == text.spec_bytes(),
            forall|j: int| 0 <= j < i ==> bytes@[j] != 0x5Du8,
        decreases bytes@.len() - i,
    {
        if bytes[i] == 0x5Du8 {
            return true;
        }
        i += 1;
    }
    false
}

/// Classifies content that is neither blank, nor a continuation, nor a section header.
fn assignment<'a>(content: Fragment<'a>, options: &CompiledOptions) -> (res: Line<'a>)
    ensures
        res.model() == assignment_spec(content.source_bytes(), content.span_model(), options.model()),
        res.points_into(content.source_bytes()),
        model_fits(res.model(), content.source_bytes()),
        model_within(res.model(), content.span_model()),
{
    proof {
        use_type_invariant(content);
    }
    let text = content.text();
    let delimiters = options.assignment_delimiters();
    let found = search(delimiters, text.as_bytes(), 0);
    let (start, end, which) = match found {
        Some(found) => found,
        None => {
            let delimiters = clone_strings(options.delimiter_names());
            proof {
                assert(delimiters@.map_values(|d: String| d@) =~= options.model().delimiter_names);
            }
            return Line::Malformed {
                kind: ProblemKind::MissingAssignmentDelimiter { delimiters },
                span: content.span(),
            };
        },
    };
    proof {
        let patterns = crate::matcher::matcher_patterns(*delimiters);
        lemma_roundtrip(text@);
        lemma_occurrence_boundaries(text.spec_bytes(), patterns[which as int], start as int);
        is_char_boundary_start_end_of_seq(text.spec_bytes());
    }
    let key = match content.subrange(0..start) {
        Some(key) => key.trim(),
        None => return Line::Blank,
    };
    let value = match content.subrange(end..text.len()) {
        Some(value) => {
            proof {
                lemma_trimmed_ends_clean(value.text_chars());
            }
            value.trim()
        },
        None => return Line::Blank,
    };
    proof {
        use_type_invariant(key);
        use_type_invariant(value);
        key.lemma_text();
    }
    if key.text().is_empty() {
        return Line::Malformed { kind: ProblemKind::EmptyOptionName, span: key.span() };
    }
    Line::Option { key, value }
}

} // verus!
