//! The fold from classified lines into a document, recording every problem it meets.

use crate::fragment::{Fragment, indent_of, is_blank_span, line_spans};
use crate::ini::{
    document_wf, entry_of, law_section_get_after_insert, lemma_with_section_index, lemma_with_section_wf, normalized, same_text, section_with, with_section_at,
    EntryModel, Ini, IniModel, Section, SectionModel,
};
use crate::index_map::{inserted, key_index, lemma_key_index, lemma_unique_preserved, lookup, unique_keys};
use crate::lexer::{classify, classify_spec, model_fits, Line, LineModel};
use crate::options::{compile_refusal, options_compile, CompiledOptions, Options, OptionsModel};
use crate::problem::{problem_at, severity_of, KindModel, Problem, ProblemKind, ProblemModel, Problems, Severity};
use crate::span::{Span, Spanned};
use crate::text::{chars_of, no_trailing_ws};
use vstd::utf8::encode_utf8;
use vstd::prelude::*;
use vstd::string::*;

verus! {

broadcast use crate::span::group_span;

#[verifier::external_type_specification]
#[verifier::external_body]
pub struct ExIoError(std::io::Error);

/// Reasons parsing could not run at all — never a statement about the document's contents.
///
/// Everything wrong with the *document* is a [`Problem`] carrying the span that provoked
/// it, so that all of them are reported instead of only the first.
#[derive(Debug)]
pub enum Error {
    /// The source could not be read.
    Io(std::io::Error),
    /// The parsing preferences are contradictory or unusable.
    InvalidOptions(String),
}

/// The text `std::io::Error` displays. Nothing is claimed of it: it comes from the
/// operating system's description of the failure.
#[verifier::external_body]
fn io_error_text(error: &std::io::Error) -> String {
    format!("{}", error)
}

impl Error {
    /// The message: the read failure as the operating system describes it, or the reason
    /// the preferences were refused.
    pub fn to_string(&self) -> (res: String)
        ensures
            self matches Error::InvalidOptions(reason) ==> res@ == "invalid options: "@ + reason@,
    {
        match self {
            Error::Io(error) => io_error_text(error),
            Error::InvalidOptions(reason) => {
                let mut message = String::from_str("invalid options: ");
                message.append(reason.as_str());
                message
            },
        }
    }
}

impl From<std::io::Error> for Error {
    fn from(error: std::io::Error) -> (res: Self) {
        Error::Io(error)
    }
}

impl vstd::std_specs::convert::FromSpecImpl<std::io::Error> for Error {
    open spec fn obeys_from_spec() -> bool {
        true
    }

    open spec fn from_spec(error: std::io::Error) -> Self {
        Error::Io(error)
    }
}

/// Where subsequent options land.
pub enum CursorModel {
    /// Before any section header was seen; an option here has nowhere to go.
    Preamble,
    /// Inside the section whose options every other section inherits.
    Defaults,
    /// Inside the named section.
    Named(Seq<char>),
}

/// The option currently open for continuation lines.
pub struct OpenModel {
    /// The name as written, with this occurrence's span.
    pub key: Spanned<Seq<char>>,
    /// The indent of the option's own line; a continuation must exceed it.
    pub indent: usize,
    /// The value accumulated so far, with continuations joined by `\n`.
    pub value: Seq<char>,
    /// From the start of the value to the end of the last fragment that contributed text.
    pub span: Span,
    /// Blank lines seen since the last contributing fragment.
    pub pending: nat,
}

/// Everything the fold carries from one line to the next.
pub struct FoldState {
    pub ini: IniModel,
    pub problems: Seq<ProblemModel>,
    pub cursor: CursorModel,
    pub open: Option<OpenModel>,
}

/// `n` newline characters.
pub open spec fn newlines(n: nat) -> Seq<char>
    decreases n,
{
    if n == 0 {
        Seq::empty()
    } else {
        newlines((n - 1) as nat) + "\n"@
    }
}

/// `span` extended so that it ends at `end`; never reversed.
pub open spec fn extend_to(span: Span, end: int) -> Span {
    Span::at(span.start_spec() as int, if end >= span.start_spec() { end - span.start_spec() } else { 0 })
}

/// `section` with `key` defined as `value`, and the problems with a duplicate reported at
/// `key_span` when the name was already defined there: the last occurrence wins.
pub open spec fn file_option(
    section: SectionModel,
    problems: Seq<ProblemModel>,
    key: Spanned<Seq<char>>,
    value: Spanned<Seq<char>>,
    key_span: Span,
    strict: bool,
) -> (SectionModel, Seq<ProblemModel>) {
    let problems = match lookup(section.entries, normalized(key.inner)) {
        Some(existing) => problems.push(
            problem_at(KindModel::DuplicateOption { key: key.inner, previous: existing.key.span }, key_span, strict),
        ),
        None => problems,
    };
    (section_with(section, key, value), problems)
}

/// Finishes the open option, if any, and files it where the cursor points; an option before
/// any header is reported and dropped.
pub open spec fn close_spec(st: FoldState, strict: bool) -> FoldState {
    match st.open {
        None => st,
        Some(open) => {
            let key_span = match open.key.span {
                Some(span) => span,
                None => open.span,
            };
            let value = Spanned { inner: open.value, span: Some(open.span) };
            match st.cursor {
                CursorModel::Preamble => FoldState {
                    ini: st.ini,
                    problems: st.problems.push(problem_at(KindModel::MissingSectionHeader, key_span, strict)),
                    cursor: st.cursor,
                    open: None,
                },
                CursorModel::Defaults => {
                    let (section, problems) = file_option(st.ini.defaults, st.problems, open.key, value, key_span, strict);
                    FoldState {
                        ini: IniModel { sections: st.ini.sections, defaults: section },
                        problems,
                        cursor: st.cursor,
                        open: None,
                    }
                },
                CursorModel::Named(name) => {
                    let i = key_index(st.ini.sections, name);
                    if i < 0 {
                        FoldState { ini: st.ini, problems: st.problems, cursor: st.cursor, open: None }
                    } else {
                        let (section, problems) = file_option(st.ini.sections[i].1, st.problems, open.key, value, key_span, strict);
                        FoldState { ini: with_section_at(st.ini, i, section), problems, cursor: st.cursor, open: None }
                    }
                },
            }
        },
    }
}

/// Points the cursor at the section `name` introduces, creating it when it is new; a
/// repeated header merges into the existing section, keeps its first header span, and is
/// reported at the later header.
pub open spec fn open_section_spec(st: FoldState, src: Seq<u8>, name: Span, o: OptionsModel, strict: bool) -> FoldState {
    let text = chars_of(name.bytes_in(src));
    if text == o.default_section {
        match st.ini.defaults.header {
            Some(previous) => FoldState {
                ini: st.ini,
                problems: st.problems.push(
                    problem_at(KindModel::DuplicateSection { name: text, previous: Some(previous) }, name, strict),
                ),
                cursor: CursorModel::Defaults,
                open: st.open,
            },
            None => FoldState {
                ini: IniModel {
                    sections: st.ini.sections,
                    defaults: SectionModel { entries: st.ini.defaults.entries, header: Some(name) },
                },
                problems: st.problems,
                cursor: CursorModel::Defaults,
                open: st.open,
            },
        }
    } else {
        let i = key_index(st.ini.sections, text);
        if i >= 0 {
            FoldState {
                ini: st.ini,
                problems: st.problems.push(
                    problem_at(KindModel::DuplicateSection { name: text, previous: st.ini.sections[i].1.header }, name, strict),
                ),
                cursor: CursorModel::Named(text),
                open: st.open,
            }
        } else {
            FoldState {
                ini: IniModel {
                    sections: inserted(st.ini.sections, text, SectionModel { entries: Seq::empty(), header: Some(name) }),
                    defaults: st.ini.defaults,
                },
                problems: st.problems,
                cursor: CursorModel::Named(text),
                open: st.open,
            }
        }
    }
}

/// The indent a continuation must exceed: that of the open option's own line.
pub open spec fn baseline_of(open: Option<OpenModel>) -> Option<usize> {
    match open {
        Some(open) => Some(open.indent),
        None => None,
    }
}

/// What one line does to the fold.
pub open spec fn step_spec(st: FoldState, src: Seq<u8>, line: Span, o: OptionsModel, strict: bool) -> FoldState {
    match classify_spec(src, line, baseline_of(st.open), o) {
        LineModel::Blank => if o.allow_empty_lines_in_values {
            match st.open {
                Some(open) => if is_blank_span(src, line) {
                    FoldState {
                        ini: st.ini,
                        problems: st.problems,
                        cursor: st.cursor,
                        open: Some(OpenModel { pending: open.pending + 1, ..open }),
                    }
                } else {
                    st
                },
                None => st,
            }
        } else {
            close_spec(st, strict)
        },
        LineModel::Continuation(fragment) => match st.open {
            Some(open) => FoldState {
                ini: st.ini,
                problems: st.problems,
                cursor: st.cursor,
                open: Some(OpenModel {
                    value: open.value + newlines(open.pending) + "\n"@ + chars_of(fragment.bytes_in(src)),
                    span: extend_to(open.span, fragment.end_spec() as int),
                    pending: 0,
                    ..open
                }),
            },
            None => st,
        },
        LineModel::SectionHeader(name) => open_section_spec(close_spec(st, strict), src, name, o, strict),
        LineModel::Assignment { key, value } => {
            let closed = close_spec(st, strict);
            FoldState {
                ini: closed.ini,
                problems: closed.problems,
                cursor: closed.cursor,
                open: Some(OpenModel {
                    key: Spanned { inner: chars_of(key.bytes_in(src)), span: Some(key) },
                    indent: indent_of(src, line) as usize,
                    value: chars_of(value.bytes_in(src)),
                    span: value,
                    pending: 0,
                }),
            }
        },
        LineModel::Malformed { kind, span } => {
            let closed = close_spec(st, strict);
            FoldState {
                ini: closed.ini,
                problems: closed.problems.push(problem_at(kind, span, strict)),
                cursor: closed.cursor,
                open: closed.open,
            }
        },
    }
}

/// The fold before any line: no sections, empty defaults, nothing reported, no header seen.
pub open spec fn initial_state() -> FoldState {
    FoldState {
        ini: IniModel {
            sections: Seq::empty(),
            defaults: SectionModel { entries: Seq::empty(), header: None },
        },
        problems: Seq::empty(),
        cursor: CursorModel::Preamble,
        open: None,
    }
}

/// The fold after `lines`, in order.
pub open spec fn fold_lines(src: Seq<u8>, lines: Seq<Span>, o: OptionsModel, strict: bool) -> FoldState
    decreases lines.len(),
{
    if lines.len() == 0 {
        initial_state()
    } else {
        step_spec(fold_lines(src, lines.drop_last(), o, strict), src, lines.last(), o, strict)
    }
}

/// The document and the problems `src` yields: every line folded in, then the last open
/// option filed.
pub open spec fn parse_spec(src: Seq<u8>, o: OptionsModel, strict: bool) -> FoldState {
    close_spec(fold_lines(src, line_spans(src), o, strict), strict)
}

/// `span`, when there is one, is a character range of `src`.
pub open spec fn span_resolves(span: Option<Span>, src: Seq<u8>) -> bool {
    span matches Some(s) ==> s.fits(src)
}

/// `e` has both spans and both resolve in `src`, its key holds exactly the text its span
/// covers, and its value does not end with whitespace (a newline included).
pub open spec fn entry_read_from(e: EntryModel, src: Seq<u8>) -> bool {
    &&& e.key.span is Some
    &&& e.value.span is Some
    &&& span_resolves(e.key.span, src)
    &&& span_resolves(e.value.span, src)
    &&& e.key.span matches Some(k) ==> e.key.inner == chars_of(k.bytes_in(src))
    &&& no_trailing_ws(e.value.inner)
}

/// The header span and every entry of `s` resolve in `src`.
pub open spec fn section_read_from(s: SectionModel, src: Seq<u8>) -> bool {
    &&& span_resolves(s.header, src)
    &&& forall|i: int| 0 <= i < s.entries.len() ==> entry_read_from(#[trigger] s.entries[i].1, src)
}

/// Every span of `ini` resolves in `src`, and each named section has a header span, which
/// covers exactly its name.
pub open spec fn document_read_from(ini: IniModel, src: Seq<u8>) -> bool {
    &&& section_read_from(ini.defaults, src)
    &&& forall|i: int| 0 <= i < ini.sections.len() ==> {
        &&& section_read_from(#[trigger] ini.sections[i].1, src)
        &&& ini.sections[i].1.header is Some
        &&& ini.sections[i].1.header matches Some(h) ==> chars_of(h.bytes_in(src)) == ini.sections[i].0
    }
}

/// The span of `p`, and the earlier occurrence a duplicate points back to, resolve in `src`.
pub open spec fn problem_read_from(p: ProblemModel, src: Seq<u8>) -> bool {
    &&& p.span.fits(src)
    &&& match p.kind {
        KindModel::DuplicateOption { previous, .. } => span_resolves(previous, src),
        KindModel::DuplicateSection { previous, .. } => span_resolves(previous, src),
        _ => true,
    }
}

/// Every problem of `problems` resolves in `src`.
pub open spec fn problems_read_from(problems: Seq<ProblemModel>, src: Seq<u8>) -> bool {
    forall|i: int| 0 <= i < problems.len() ==> problem_read_from(#[trigger] problems[i], src)
}

/// The open option's key and value spans resolve in `src`, its key holding their text, and
/// its value so far does not end with whitespace.
pub open spec fn open_read_from(open: Option<OpenModel>, src: Seq<u8>) -> bool {
    open matches Some(op) ==> {
        &&& op.key.span matches Some(k) && k.fits(src) && op.key.inner == chars_of(k.bytes_in(src))
        &&& op.span.fits(src)
        &&& no_trailing_ws(op.value)
    }
}

/// Everything the fold holds points into `src`.
pub open spec fn state_read_from(st: FoldState, src: Seq<u8>) -> bool {
    &&& document_read_from(st.ini, src)
    &&& problems_read_from(st.problems, src)
    &&& open_read_from(st.open, src)
}

proof fn lemma_push_read(problems: Seq<ProblemModel>, p: ProblemModel, src: Seq<u8>)
    requires
        problems_read_from(problems, src),
        problem_read_from(p, src),
    ensures
        problems_read_from(problems.push(p), src),
{
    assert forall|i: int| 0 <= i < problems.push(p).len() implies problem_read_from(#[trigger] problems.push(p)[i], src) by {
        if i < problems.len() {
            assert(problems.push(p)[i] == problems[i]);
        }
    }
}

proof fn lemma_file_option_read(
    section: SectionModel,
    problems: Seq<ProblemModel>,
    key: Spanned<Seq<char>>,
    value: Spanned<Seq<char>>,
    key_span: Span,
    strict: bool,
    src: Seq<u8>,
)
    requires
        section_read_from(section, src),
        problems_read_from(problems, src),
        entry_read_from(crate::ini::entry_of(key, value), src),
        key_span.fits(src),
    ensures
        section_read_from(file_option(section, problems, key, value, key_span, strict).0, src),
        problems_read_from(file_option(section, problems, key, value, key_span, strict).1, src),
        file_option(section, problems, key, value, key_span, strict).0.header == section.header,
{
    let name = normalized(key.inner);
    lemma_key_index(section.entries, name);
    let i = key_index(section.entries, name);
    if i >= 0 {
        assert(entry_read_from(section.entries[i].1, src));
        let existing = section.entries[i].1;
        lemma_push_read(
            problems,
            problem_at(KindModel::DuplicateOption { key: key.inner, previous: existing.key.span }, key_span, strict),
            src,
        );
    }
    let entries = inserted(section.entries, name, crate::ini::entry_of(key, value));
    assert forall|j: int| 0 <= j < entries.len() implies entry_read_from(#[trigger] entries[j].1, src) by {
        if j < section.entries.len() && j != i {
            assert(entries[j] == section.entries[j]);
        }
    }
}

proof fn lemma_with_section_read(ini: IniModel, i: int, section: SectionModel, src: Seq<u8>)
    requires
        document_read_from(ini, src),
        0 <= i < ini.sections.len(),
        section_read_from(section, src),
        section.header == ini.sections[i].1.header,
    ensures
        document_read_from(with_section_at(ini, i, section), src),
{
    let after = with_section_at(ini, i, section);
    assert forall|j: int| 0 <= j < after.sections.len() implies {
        &&& section_read_from(#[trigger] after.sections[j].1, src)
        &&& after.sections[j].1.header matches Some(h) ==> chars_of(h.bytes_in(src)) == after.sections[j].0
    } by {
        if j != i {
            assert(after.sections[j] == ini.sections[j]);
        }
    }
}

proof fn lemma_close_read(st: FoldState, strict: bool, src: Seq<u8>)
    requires
        state_read_from(st, src),
    ensures
        state_read_from(close_spec(st, strict), src),
        close_spec(st, strict).open is None,
{
    match st.open {
        None => {},
        Some(open) => {
            let key_span = open.key.span->0;
            let value = Spanned { inner: open.value, span: Some(open.span) };
            match st.cursor {
                CursorModel::Preamble => {
                    lemma_push_read(st.problems, problem_at(KindModel::MissingSectionHeader, key_span, strict), src);
                },
                CursorModel::Defaults => {
                    lemma_file_option_read(st.ini.defaults, st.problems, open.key, value, key_span, strict, src);
                },
                CursorModel::Named(name) => {
                    let i = key_index(st.ini.sections, name);
                    lemma_key_index(st.ini.sections, name);
                    if i >= 0 {
                        lemma_file_option_read(st.ini.sections[i].1, st.problems, open.key, value, key_span, strict, src);
                        let (section, _) = file_option(st.ini.sections[i].1, st.problems, open.key, value, key_span, strict);
                        lemma_with_section_read(st.ini, i, section, src);
                    }
                },
            }
        },
    }
}

proof fn lemma_open_section_read(st: FoldState, src: Seq<u8>, name: Span, o: OptionsModel, strict: bool)
    requires
        state_read_from(st, src),
        name.fits(src),
    ensures
        state_read_from(open_section_spec(st, src, name, o, strict), src),
        open_section_spec(st, src, name, o, strict).open == st.open,
{
    let text = chars_of(name.bytes_in(src));
    if text == o.default_section {
        match st.ini.defaults.header {
            Some(previous) => {
                lemma_push_read(
                    st.problems,
                    problem_at(KindModel::DuplicateSection { name: text, previous: Some(previous) }, name, strict),
                    src,
                );
            },
            None => {},
        }
    } else {
        let i = key_index(st.ini.sections, text);
        lemma_key_index(st.ini.sections, text);
        if i >= 0 {
            assert(section_read_from(st.ini.sections[i].1, src));
            lemma_push_read(
                st.problems,
                problem_at(KindModel::DuplicateSection { name: text, previous: st.ini.sections[i].1.header }, name, strict),
                src,
            );
        } else {
            let fresh = SectionModel { entries: Seq::empty(), header: Some(name) };
            let sections = inserted(st.ini.sections, text, fresh);
            assert(sections == st.ini.sections.push((text, fresh)));
            assert forall|j: int| 0 <= j < sections.len() implies {
                &&& section_read_from(#[trigger] sections[j].1, src)
                &&& sections[j].1.header matches Some(h) ==> chars_of(h.bytes_in(src)) == sections[j].0
            } by {
                if j < st.ini.sections.len() {
                    assert(sections[j] == st.ini.sections[j]);
                }
            }
        }
    }
}

proof fn lemma_step_read(st: FoldState, src: Seq<u8>, line: Span, o: OptionsModel, strict: bool)
    requires
        state_read_from(st, src),
        model_fits(classify_spec(src, line, baseline_of(st.open), o), src),
        src.len() <= usize::MAX,
    ensures
        state_read_from(step_spec(st, src, line, o, strict), src),
{
    match classify_spec(src, line, baseline_of(st.open), o) {
        LineModel::Blank => {
            if !o.allow_empty_lines_in_values {
                lemma_close_read(st, strict, src);
            }
        },
        LineModel::Continuation(fragment) => {
            match st.open {
                Some(open) => {
                    let start = open.span.start_spec() as int;
                    let end = fragment.end_spec() as int;
                    assert(end == fragment.start_spec() + fragment.len_spec());
                    let extended = extend_to(open.span, end);
                    if end >= start {
                        Span::lemma_at(start, end - start);
                    } else {
                        Span::lemma_at(start, 0);
                    }
                    let added = chars_of(fragment.bytes_in(src));
                    let grown = open.value + newlines(open.pending) + "\n"@ + added;
                    assert(grown.last() == added.last());
                },
                None => {},
            }
        },
        LineModel::SectionHeader(name) => {
            lemma_close_read(st, strict, src);
            lemma_open_section_read(close_spec(st, strict), src, name, o, strict);
        },
        LineModel::Assignment { key, value } => {
            lemma_close_read(st, strict, src);
        },
        LineModel::Malformed { kind, span } => {
            lemma_close_read(st, strict, src);
            lemma_push_read(close_spec(st, strict).problems, problem_at(kind, span, strict), src);
        },
    }
}

/// What was reported, severities aside: each problem's kind and span, in order.
pub open spec fn reported(problems: Seq<ProblemModel>) -> Seq<(KindModel, Span)> {
    problems.map_values(|p: ProblemModel| (p.kind, p.span))
}

/// Each problem carries the severity its kind has under `strict`.
pub open spec fn severities_follow(problems: Seq<ProblemModel>, strict: bool) -> bool {
    forall|i: int| 0 <= i < problems.len() ==> (#[trigger] problems[i]).severity == severity_of(problems[i].kind, strict)
}

/// Two folds hold the same document, cursor and open option, and have reported the same
/// kinds at the same places.
spec fn agree(a: FoldState, b: FoldState) -> bool {
    &&& a.ini == b.ini
    &&& a.cursor == b.cursor
    &&& a.open == b.open
    &&& reported(a.problems) == reported(b.problems)
}

proof fn lemma_push_agree(p: Seq<ProblemModel>, q: Seq<ProblemModel>, kind: KindModel, span: Span, s1: bool, s2: bool)
    requires
        reported(p) == reported(q),
    ensures
        reported(p.push(problem_at(kind, span, s1))) == reported(q.push(problem_at(kind, span, s2))),
{
    assert(reported(p.push(problem_at(kind, span, s1))) =~= reported(p).push((kind, span)));
    assert(reported(q.push(problem_at(kind, span, s2))) =~= reported(q).push((kind, span)));
}

proof fn lemma_push_follows(p: Seq<ProblemModel>, kind: KindModel, span: Span, strict: bool)
    requires
        severities_follow(p, strict),
    ensures
        severities_follow(p.push(problem_at(kind, span, strict)), strict),
{
    let q = p.push(problem_at(kind, span, strict));
    assert forall|i: int| 0 <= i < q.len() implies (#[trigger] q[i]).severity == severity_of(q[i].kind, strict) by {
        if i < p.len() {
            assert(q[i] == p[i]);
        }
    }
}

proof fn lemma_file_option_agree(
    section: SectionModel,
    p: Seq<ProblemModel>,
    q: Seq<ProblemModel>,
    key: Spanned<Seq<char>>,
    value: Spanned<Seq<char>>,
    key_span: Span,
    s1: bool,
    s2: bool,
)
    requires
        reported(p) == reported(q),
    ensures
        file_option(section, p, key, value, key_span, s1).0 == file_option(section, q, key, value, key_span, s2).0,
        reported(file_option(section, p, key, value, key_span, s1).1) == reported(
            file_option(section, q, key, value, key_span, s2).1,
        ),
        severities_follow(p, s1) ==> severities_follow(file_option(section, p, key, value, key_span, s1).1, s1),
{
    match lookup(section.entries, normalized(key.inner)) {
        Some(existing) => {
            let kind = KindModel::DuplicateOption { key: key.inner, previous: existing.key.span };
            lemma_push_agree(p, q, kind, key_span, s1, s2);
            if severities_follow(p, s1) {
                lemma_push_follows(p, kind, key_span, s1);
            }
        },
        None => {},
    }
}

proof fn lemma_close_agree(a: FoldState, b: FoldState, s1: bool, s2: bool)
    requires
        agree(a, b),
    ensures
        agree(close_spec(a, s1), close_spec(b, s2)),
        severities_follow(a.problems, s1) ==> severities_follow(close_spec(a, s1).problems, s1),
{
    match a.open {
        None => {},
        Some(open) => {
            let key_span = match open.key.span {
                Some(span) => span,
                None => open.span,
            };
            let value = Spanned { inner: open.value, span: Some(open.span) };
            match a.cursor {
                CursorModel::Preamble => {
                    lemma_push_agree(a.problems, b.problems, KindModel::MissingSectionHeader, key_span, s1, s2);
                    if severities_follow(a.problems, s1) {
                        lemma_push_follows(a.problems, KindModel::MissingSectionHeader, key_span, s1);
                    }
                },
                CursorModel::Defaults => {
                    lemma_file_option_agree(a.ini.defaults, a.problems, b.problems, open.key, value, key_span, s1, s2);
                },
                CursorModel::Named(name) => {
                    let i = key_index(a.ini.sections, name);
                    if i >= 0 {
                        lemma_file_option_agree(a.ini.sections[i].1, a.problems, b.problems, open.key, value, key_span, s1, s2);
                    }
                },
            }
        },
    }
}

proof fn lemma_open_section_agree(a: FoldState, b: FoldState, src: Seq<u8>, name: Span, o: OptionsModel, s1: bool, s2: bool)
    requires
        agree(a, b),
    ensures
        agree(open_section_spec(a, src, name, o, s1), open_section_spec(b, src, name, o, s2)),
        severities_follow(a.problems, s1) ==> severities_follow(open_section_spec(a, src, name, o, s1).problems, s1),
{
    let text = chars_of(name.bytes_in(src));
    if text == o.default_section {
        match a.ini.defaults.header {
            Some(previous) => {
                let kind = KindModel::DuplicateSection { name: text, previous: Some(previous) };
                lemma_push_agree(a.problems, b.problems, kind, name, s1, s2);
                if severities_follow(a.problems, s1) {
                    lemma_push_follows(a.problems, kind, name, s1);
                }
            },
            None => {},
        }
    } else {
        let i = key_index(a.ini.sections, text);
        if i >= 0 {
            let kind = KindModel::DuplicateSection { name: text, previous: a.ini.sections[i].1.header };
            lemma_push_agree(a.problems, b.problems, kind, name, s1, s2);
            if severities_follow(a.problems, s1) {
                lemma_push_follows(a.problems, kind, name, s1);
            }
        }
    }
}

proof fn lemma_step_agree(a: FoldState, b: FoldState, src: Seq<u8>, line: Span, o: OptionsModel, s1: bool, s2: bool)
    requires
        agree(a, b),
    ensures
        agree(step_spec(a, src, line, o, s1), step_spec(b, src, line, o, s2)),
        severities_follow(a.problems, s1) ==> severities_follow(step_spec(a, src, line, o, s1).problems, s1),
{
    match classify_spec(src, line, baseline_of(a.open), o) {
        LineModel::Blank => {
            if !o.allow_empty_lines_in_values {
                lemma_close_agree(a, b, s1, s2);
            }
        },
        LineModel::Continuation(_) => {},
        LineModel::SectionHeader(name) => {
            lemma_close_agree(a, b, s1, s2);
            lemma_open_section_agree(close_spec(a, s1), close_spec(b, s2), src, name, o, s1, s2);
        },
        LineModel::Assignment { .. } => {
            lemma_close_agree(a, b, s1, s2);
        },
        LineModel::Malformed { kind, span } => {
            lemma_close_agree(a, b, s1, s2);
            lemma_push_agree(close_spec(a, s1).problems, close_spec(b, s2).problems, kind, span, s1, s2);
            if severities_follow(a.problems, s1) {
                lemma_push_follows(close_spec(a, s1).problems, kind, span, s1);
            }
        },
    }
}

proof fn lemma_fold_agree(src: Seq<u8>, lines: Seq<Span>, o: OptionsModel, s1: bool, s2: bool)
    ensures
        agree(fold_lines(src, lines, o, s1), fold_lines(src, lines, o, s2)),
        severities_follow(fold_lines(src, lines, o, s1).problems, s1),
    decreases lines.len(),
{
    if lines.len() == 0 {
        assert(reported(Seq::<ProblemModel>::empty()) =~= Seq::<(KindModel, Span)>::empty());
    } else {
        lemma_fold_agree(src, lines.drop_last(), o, s1, s2);
        lemma_step_agree(
            fold_lines(src, lines.drop_last(), o, s1),
            fold_lines(src, lines.drop_last(), o, s2),
            src,
            lines.last(),
            o,
            s1,
            s2,
        );
    }
}

proof fn lemma_parse_agree(src: Seq<u8>, o: OptionsModel, s1: bool, s2: bool)
    ensures
        agree(parse_spec(src, o, s1), parse_spec(src, o, s2)),
        severities_follow(parse_spec(src, o, s1).problems, s1),
{
    lemma_fold_agree(src, line_spans(src), o, s1, s2);
    lemma_close_agree(fold_lines(src, line_spans(src), o, s1), fold_lines(src, line_spans(src), o, s2), s1, s2);
}

/// The entry an open option becomes once it is filed: its key as read, and its value with
/// the span it was read from.
pub open spec fn filed_entry(open: OpenModel) -> EntryModel {
    EntryModel { key: open.key, value: Spanned { inner: open.value, span: Some(open.span) } }
}

/// Closing files the open option where the cursor points, over any earlier definition of the
/// same name: afterwards, looking its name up in the defaults (when the cursor is on them)
/// or in the named section finds exactly that option, so the last occurrence of a name wins.
/// The cursor stays where it was, and no option is left open.
pub proof fn law_close_files_the_open_option(st: FoldState, strict: bool)
    requires
        st.open is Some,
    ensures
        close_spec(st, strict).open is None,
        close_spec(st, strict).cursor == st.cursor,
        st.cursor is Defaults ==> lookup(close_spec(st, strict).ini.defaults.entries, normalized(st.open->0.key.inner))
            == Some(filed_entry(st.open->0)),
        match st.cursor {
            CursorModel::Named(name) => key_index(st.ini.sections, name) >= 0 ==> {
                let i = key_index(st.ini.sections, name);
                &&& key_index(close_spec(st, strict).ini.sections, name) == i
                &&& lookup(close_spec(st, strict).ini.sections[i].1.entries, normalized(st.open->0.key.inner))
                    == Some(filed_entry(st.open->0))
            },
            _ => true,
        },
{
    let open = st.open->0;
    let value = Spanned { inner: open.value, span: Some(open.span) };
    assert(entry_of(open.key, value) == filed_entry(open));
    match st.cursor {
        CursorModel::Preamble => {},
        CursorModel::Defaults => {
            law_section_get_after_insert(st.ini.defaults, open.key, value, open.key.inner);
        },
        CursorModel::Named(name) => {
            let i = key_index(st.ini.sections, name);
            lemma_key_index(st.ini.sections, name);
            if i >= 0 {
                let own = st.ini.sections[i].1;
                law_section_get_after_insert(own, open.key, value, open.key.inner);
                lemma_with_section_index(st.ini, i, section_with(own, open.key, value), name);
            }
        },
    }
}

/// What a document's last line defines is what the document holds under that name: when
/// the last line of `src` is an assignment read while the defaults, or an existing named
/// section, are being filled, the parsed defaults (or that section) hold exactly that key
/// and value under the name, whatever earlier lines defined it as.
pub proof fn law_last_definition_wins(src: Seq<u8>, o: OptionsModel, strict: bool)
    requires
        line_spans(src).len() > 0,
    ensures
        ({
            let spans = line_spans(src);
            let before = fold_lines(src, spans.drop_last(), o, strict);
            let after = parse_spec(src, o, strict);
            classify_spec(src, spans.last(), baseline_of(before.open), o) matches LineModel::Assignment { key, value } ==> {
                let name = chars_of(key.bytes_in(src));
                let expected = EntryModel {
                    key: Spanned { inner: name, span: Some(key) },
                    value: Spanned { inner: chars_of(value.bytes_in(src)), span: Some(value) },
                };
                &&& before.cursor is Defaults ==> lookup(after.ini.defaults.entries, normalized(name)) == Some(expected)
                &&& match before.cursor {
                    CursorModel::Named(section) => key_index(before.ini.sections, section) >= 0 ==> lookup(
                        after.ini.sections[key_index(before.ini.sections, section)].1.entries,
                        normalized(name),
                    ) == Some(expected),
                    _ => true,
                }
            }
        }),
{
    let spans = line_spans(src);
    let before = fold_lines(src, spans.drop_last(), o, strict);
    assert(fold_lines(src, spans, o, strict) == step_spec(before, src, spans.last(), o, strict));
    match classify_spec(src, spans.last(), baseline_of(before.open), o) {
        LineModel::Assignment { key, value } => {
            let closed = close_spec(before, strict);
            if before.open is Some {
                law_close_files_the_open_option(before, strict);
            }
            let stepped = step_spec(before, src, spans.last(), o, strict);
            assert(stepped.cursor == before.cursor);
            law_close_files_the_open_option(stepped, strict);
            match before.cursor {
                CursorModel::Named(section) => {
                    let i = key_index(before.ini.sections, section);
                    if i >= 0 {
                        if before.open is None {
                            assert(closed == before);
                        }
                        assert(key_index(stepped.ini.sections, section) == i);
                    }
                },
                _ => {},
            }
        },
        _ => {},
    }
}

proof fn lemma_line_count(bytes: Seq<u8>, from: int)
    requires
        0 <= from <= bytes.len(),
    ensures
        crate::fragment::line_spans_from(bytes, from).len() <= bytes.len() - from,
    decreases bytes.len() - from,
{
    if from < bytes.len() {
        let end = crate::fragment::line_end(bytes, from);
        crate::fragment::lemma_line_end(bytes, from);
        lemma_line_count(bytes, end + crate::fragment::terminator_len(bytes, end));
    }
}

/// Where subsequent options land.
///
/// This is three states because "no section header has been seen yet" and "write to the
/// defaults" are different situations that an `Option<name>` would conflate.
enum Cursor {
    /// Before any section header was seen; an option here has nowhere to go.
    Preamble,
    /// Inside the section whose options every other section inherits.
    Defaults,
    /// Inside the named section.
    Named(String),
}

impl Cursor {
    spec fn model(&self) -> CursorModel {
        match self {
            Cursor::Preamble => CursorModel::Preamble,
            Cursor::Defaults => CursorModel::Defaults,
            Cursor::Named(name) => CursorModel::Named(name@),
        }
    }
}

/// The option currently open for continuation lines. Absent when none is.
struct OpenOption {
    /// The name as written, with this occurrence's span.
    key: Spanned<String>,
    /// The indent of the option's own line; a continuation must exceed it.
    indent: usize,
    /// The value accumulated so far, with continuations joined by `\n`.
    value: String,
    /// Extended only to the end of a fragment that actually contributed text, so a blank
    /// line that turns out to be trailing never has to be subtracted back off.
    span: Span,
    /// Blank lines seen since the last contributing fragment; flushed as one `\n` each when
    /// a non-blank continuation arrives, dropped when the option closes.
    pending_blank_lines: usize,
}

spec fn open_model(open: Option<OpenOption>) -> Option<OpenModel> {
    match open {
        Some(open) => Some(OpenModel {
            key: open.key@,
            indent: open.indent,
            value: open.value@,
            span: open.span,
            pending: open.pending_blank_lines as nat,
        }),
        None => None,
    }
}

spec fn state_of(ini: Ini, problems: Problems, cursor: Cursor, open: Option<OpenOption>) -> FoldState {
    FoldState { ini: ini@, problems: problems.items_spec(), cursor: cursor.model(), open: open_model(open) }
}

/// Extends `span` so that it ends at `end`.
///
/// `end` is the end of a fragment on a later line than the one `span` began on, so it is
/// never before `span.start()`; the saturating subtraction states that rather than relying
/// on it.
fn extend(span: Span, end: usize) -> (res: Span)
    ensures
        res == extend_to(span, end as int),
{
    Span::new(span.start(), end.saturating_sub(span.start()))
}

/// Files `key = value` into `section`, reporting a duplicate at `key_span` first: the last
/// occurrence wins in both strictness modes.
fn file_entry(section: &mut Section, key: Spanned<String>, value: Spanned<String>, key_span: Span, problems: &mut Problems)
    ensures
        (final(section)@, final(problems).items_spec()) == file_option(
            old(section)@,
            old(problems).items_spec(),
            key@,
            value@,
            key_span,
            old(problems).strict_spec(),
        ),
        final(problems).strict_spec() == old(problems).strict_spec(),
        old(section).wf() ==> final(section).wf(),
{
    let duplicate = match section.get(key.as_str()) {
        Some(existing) => Some(ProblemKind::DuplicateOption { key: key.inner.clone(), previous: existing.key.span }),
        None => None,
    };
    if let Some(kind) = duplicate {
        problems.push(kind, key_span);
    }
    section.insert(key, value);
}

/// Finishes the open option, if any, and files it where the cursor points.
///
/// A duplicate is reported and then applied: the last occurrence wins in both strictness
/// modes, so strictness changes what is said about the document and never what it holds.
fn close(open: &mut Option<OpenOption>, cursor: &Cursor, ini: &mut Ini, problems: &mut Problems)
    ensures
        ({
            let after = close_spec(state_of(*old(ini), *old(problems), *cursor, *old(open)), old(problems).strict_spec());
            &&& final(ini)@ == after.ini
            &&& final(problems).items_spec() == after.problems
            &&& open_model(*final(open)) == after.open
        }),
        final(problems).strict_spec() == old(problems).strict_spec(),
        document_wf(old(ini)@) ==> document_wf(final(ini)@),
{
    let ghost before = ini@;
    let OpenOption { key, value, span, .. } = match open.take() {
        Some(taken) => taken,
        None => return,
    };
    // Every key here came from a source fragment, so it has a span; falling back to the
    // value's span keeps the report pointing at real text rather than at byte zero.
    let key_span = match key.span {
        Some(key_span) => key_span,
        None => span,
    };
    let value = Spanned::from_source(span, value);
    match cursor {
        Cursor::Preamble => {
            problems.push(ProblemKind::MissingSectionHeader, key_span);
        },
        Cursor::Defaults => {
            file_entry(ini.defaults_mut(), key, value, key_span, problems);
        },
        Cursor::Named(name) => {
            // The cursor only names a section that `open_section` inserted.
            match ini.section_mut(name.as_str()) {
                Some(section) => {
                    file_entry(section, key, value, key_span, problems);
                    proof {
                        if document_wf(before) {
                            lemma_key_index(before.sections, name@);
                            lemma_with_section_wf(before, key_index(before.sections, name@), section@);
                        }
                    }
                },
                None => {},
            }
        },
    }
}

/// Points the cursor at the section `name` introduces, creating it when it is new.
///
/// A repeated header merges into the section that already exists and keeps that section's
/// first header span, because a name has exactly one definition site.
fn open_section(name: Fragment<'_>, ini: &mut Ini, problems: &mut Problems, options: &CompiledOptions) -> (res: Cursor)
    ensures
        ({
            let before = FoldState { ini: old(ini)@, problems: old(problems).items_spec(), cursor: CursorModel::Preamble, open: None };
            let after = open_section_spec(before, name.source_bytes(), name.span_model(), options.model(), old(problems).strict_spec());
            &&& final(ini)@ == after.ini
            &&& final(problems).items_spec() == after.problems
            &&& res.model() == after.cursor
        }),
        final(problems).strict_spec() == old(problems).strict_spec(),
        document_wf(old(ini)@) ==> document_wf(final(ini)@),
{
    let text = name.text();
    if same_text(text, options.default_section()) {
        let defaults = ini.defaults_mut();
        match defaults.header_span() {
            Some(previous) => {
                problems.push(
                    ProblemKind::DuplicateSection { name: String::from_str(text), previous: Some(previous) },
                    name.span(),
                );
            },
            None => {
                defaults.set_header(name.span());
            },
        }
        return Cursor::Defaults;
    }
    match ini.section(text) {
        Some(view) => {
            let previous = view.header_span();
            problems.push(ProblemKind::DuplicateSection { name: String::from_str(text), previous }, name.span());
        },
        None => {
            let mut section = Section::default();
            section.set_header(name.span());
            ini.insert_section(text, section);
        },
    }
    Cursor::Named(String::from_str(text))
}

/// The pending-blank count a step can leave behind: one more than before at most.
spec fn pending_after(open: Option<OpenOption>) -> int {
    match open {
        Some(current) => current.pending_blank_lines + 1,
        None => 1,
    }
}

/// Appends a continuation line's text to the open value: first one newline for each blank
/// line seen since the last text, then one for the line break itself.
fn continue_value(current: &mut OpenOption, fragment: Fragment<'_>)
    ensures
        final(current).key == old(current).key,
        final(current).indent == old(current).indent,
        final(current).value@ == old(current).value@ + newlines(old(current).pending_blank_lines as nat) + "\n"@
            + chars_of(fragment.span_model().bytes_in(fragment.source_bytes())),
        final(current).span == extend_to(old(current).span, fragment.span_model().end_spec() as int),
        final(current).pending_blank_lines == 0,
{
    let ghost start = current.value@;
    let mut k: usize = 0;
    while k < current.pending_blank_lines
        invariant
            k <= current.pending_blank_lines,
            current.value@ == start + newlines(k as nat),
            current.key == old(current).key,
            current.indent == old(current).indent,
            current.span == old(current).span,
            current.pending_blank_lines == old(current).pending_blank_lines,
        decreases current.pending_blank_lines - k,
    {
        current.value.append("\n");
        k += 1;
    }
    current.pending_blank_lines = 0;
    current.value.append("\n");
    current.value.append(fragment.text());
    current.span = extend(current.span, fragment.span().end());
}

/// Folds one classified line into the document.
fn step(
    line: Fragment<'_>,
    options: &CompiledOptions,
    ini: &mut Ini,
    problems: &mut Problems,
    cursor: &mut Cursor,
    open: &mut Option<OpenOption>,
)
    requires
        pending_after(*old(open)) <= usize::MAX,
    ensures
        state_of(*final(ini), *final(problems), *final(cursor), *final(open)) == step_spec(
            state_of(*old(ini), *old(problems), *old(cursor), *old(open)),
            line.source_bytes(),
            line.span_model(),
            options.model(),
            old(problems).strict_spec(),
        ),
        final(problems).strict_spec() == old(problems).strict_spec(),
        *final(open) matches Some(current) ==> current.pending_blank_lines <= pending_after(*old(open)),
        state_read_from(state_of(*old(ini), *old(problems), *old(cursor), *old(open)), line.source_bytes())
            ==> state_read_from(state_of(*final(ini), *final(problems), *final(cursor), *final(open)), line.source_bytes()),
        document_wf(old(ini)@) ==> document_wf(final(ini)@),
{
    let ghost before = state_of(*ini, *problems, *cursor, *open);
    let baseline = match &*open {
        Some(current) => Some(current.indent),
        None => None,
    };
    let classified = classify(line, baseline, options);
    proof {
        use_type_invariant(line);
        if state_read_from(before, line.source_bytes()) {
            lemma_step_read(before, line.source_bytes(), line.span_model(), options.model(), problems.strict_spec());
        }

    }
    match classified {
        Line::Blank => {
            if options.allow_empty_lines_in_values() {
                // A comment line is blank too, but `configparser` grows an open value by an
                // empty line only for a line that carried no comment at all.
                if line.is_blank() {
                    match open.take() {
                        Some(mut current) => {
                            current.pending_blank_lines = current.pending_blank_lines + 1;
                            *open = Some(current);
                        },
                        None => {},
                    }
                }
            } else {
                close(open, cursor, ini, problems);
            }
        },
        Line::Continuation(fragment) => {
            match open.take() {
                Some(mut current) => {
                    continue_value(&mut current, fragment);
                    *open = Some(current);
                },
                None => {},
            }
        },
        Line::SectionHeader(name) => {
            close(open, cursor, ini, problems);
            *cursor = open_section(name, ini, problems, options);
        },
        Line::Option { key, value } => {
            close(open, cursor, ini, problems);
            *open = Some(OpenOption {
                key: key.to_spanned(),
                indent: line.indent(),
                value: String::from_str(value.text()),
                span: value.span(),
                pending_blank_lines: 0,
            });
        },
        Line::Malformed { kind, span } => {
            close(open, cursor, ini, problems);
            problems.push(kind, span);
        },
    }
}

/// Reads `source` into a document, recording every problem it meets.
fn fold(source: &str, options: &CompiledOptions, strict: bool) -> (res: (Ini, Vec<Problem>))
    ensures
        res.0@ == parse_spec(source.spec_bytes(), options.model(), strict).ini,
        res.1@.map_values(|p: Problem| p@) == parse_spec(source.spec_bytes(), options.model(), strict).problems,
        document_read_from(res.0@, source.spec_bytes()),
        document_wf(res.0@),
        problems_read_from(res.1@.map_values(|p: Problem| p@), source.spec_bytes()),
{
    let ghost src = source.spec_bytes();
    let ghost o = options.model();
    let ghost spans = line_spans(src);
    let mut ini = Ini::default();
    let mut problems = Problems::new(strict);
    let mut cursor = Cursor::Preamble;
    let mut open: Option<OpenOption> = None;
    let lines = Fragment::lines_vec(source);
    let _ = source.as_bytes().len();
    proof {
        lemma_line_count(src, 0);
        assert(spans.take(0) =~= Seq::<Span>::empty());
        assert(ini@.sections =~= initial_state().ini.sections);
        assert(ini@.defaults.entries =~= initial_state().ini.defaults.entries);
    }
    let mut i: usize = 0;
    while i < lines.len()
        invariant
            lines@.len() == spans.len(),
            spans.len() <= src.len(),
            src.len() <= usize::MAX,
            forall|j: int| 0 <= j < lines@.len() ==> (#[trigger] lines@[j]).span_model() == spans[j]
                && lines@[j].source_bytes() == src,
            src == source.spec_bytes(),
            spans == line_spans(src),
            o == options.model(),
            i <= lines@.len(),
            problems.strict_spec() == strict,
            state_of(ini, problems, cursor, open) == fold_lines(src, spans.take(i as int), o, strict),
            state_read_from(state_of(ini, problems, cursor, open), src),
            document_wf(ini@),
            open matches Some(op) ==> op.pending_blank_lines <= i,
        decreases lines@.len() - i,
    {
        let line = lines[i];
        proof {
            assert(spans.take(i + 1).drop_last() =~= spans.take(i as int));
            assert(spans.take(i + 1).last() == spans[i as int]);
        }
        step(line, options, &mut ini, &mut problems, &mut cursor, &mut open);
        i += 1;
    }
    proof {
        assert(spans.take(lines@.len() as int) =~= spans);
        lemma_close_read(state_of(ini, problems, cursor, open), strict, src);
    }
    close(&mut open, &cursor, &mut ini, &mut problems);
    (ini, problems.into_items())
}

/// The decimal digits of `n`, most significant first, without leading zeros.
pub open spec fn decimal(n: nat) -> Seq<char>
    decreases n,
{
    if n < 10 {
        seq![(('0' as u32) + n) as char]
    } else {
        decimal(n / 10) + seq![(('0' as u32) + n % 10) as char]
    }
}

/// Appends the decimal digits of `n` to `out`: what `usize::to_string` writes.
fn push_decimal(out: &mut String, n: usize)
    ensures
        final(out)@ == old(out)@ + decimal(n as nat),
    decreases n,
{
    if n >= 10 {
        push_decimal(out, n / 10);
    }
    let d = n % 10;
    let digits = "0123456789";
    proof {
        reveal_strlit("0123456789");
        assert(digits@[d as int] == ((('0' as u32) + d) as char)) by {
            assert(d == 0 || d == 1 || d == 2 || d == 3 || d == 4 || d == 5 || d == 6 || d == 7 || d == 8 || d == 9);
        }
    }
    let digit = digits.substring_char(d, d + 1);
    proof {
        assert(digit@ =~= seq![((('0' as u32) + d) as char)]);
    }
    out.append(digit);
    proof {
        if n >= 10 {
            assert(decimal(n as nat) == decimal((n / 10) as nat) + seq![((('0' as u32) + (n % 10)) as char)]);
        }
    }
}

/// The number's decimal representation: what `usize::to_string` returns.
fn usize_to_string(n: usize) -> (res: String)
    ensures
        res@ == decimal(n as nat),
{
    let mut out = String::new();
    push_decimal(&mut out, n);
    proof {
        assert(out@ =~= decimal(n as nat));
    }
    out
}

/// A [`Parsed`]: the source, the document read from it, and every problem met.
pub struct ParsedModel {
    pub source: Seq<char>,
    pub ini: IniModel,
    pub problems: Seq<ProblemModel>,
}

/// Some problem is severe enough that the parser does not vouch for the document.
pub open spec fn any_error(problems: Seq<ProblemModel>) -> bool {
    exists|i: int| 0 <= i < problems.len() && (#[trigger] problems[i]).severity == Severity::Error
}

/// A parsed document together with the source it was parsed from and everything wrong
/// with it.
///
/// The source is owned so that a span and the text it points at cannot be separated:
/// [`Parsed::text`] cannot be handed a different document. [`Parsed::into_ini`] and
/// [`Parsed::into_result`] are the visible way out of that pairing.
#[derive(Debug, Clone)]
pub struct Parsed {
    source: String,
    ini: Ini,
    problems: Vec<Problem>,
}

impl View for Parsed {
    type V = ParsedModel;

    closed spec fn view(&self) -> ParsedModel {
        ParsedModel {
            source: self.source@,
            ini: self.ini@,
            problems: self.problems@.map_values(|p: Problem| p@),
        }
    }
}

impl Parsed {
    /// The document that was read, however malformed the source was.
    pub fn ini(&self) -> (res: &Ini)
        ensures
            res@ == self@.ini,
    {
        &self.ini
    }

    /// Everything wrong with the document, in the order it was met.
    pub fn problems(&self) -> (res: &[Problem])
        ensures
            res@.map_values(|p: Problem| p@) == self@.problems,
    {
        self.problems.as_slice()
    }

    /// The source text the document was parsed from.
    pub fn source(&self) -> (res: &str)
        ensures
            res@ == self@.source,
    {
        self.source.as_str()
    }

    /// The text `span` points at, or `None` when the span is not a `char`-boundary range
    /// of this document's source.
    ///
    /// Every span this crate produces satisfies that, so `None` means the span came from
    /// somewhere else.
    pub fn text(&self, span: Span) -> (res: Option<&str>)
        ensures
            res is Some <==> span.fits(encode_utf8(self@.source)),
            res matches Some(text) ==> text@ == chars_of(span.bytes_in(encode_utf8(self@.source))),
    {
        span.slice(self.source.as_str())
    }

    /// The text `spanned` was read from, or `None` when it was not read from this source.
    pub fn text_of<T>(&self, spanned: &Spanned<T>) -> (res: Option<&str>)
        ensures
            res is Some <==> (spanned.span matches Some(span) && span.fits(encode_utf8(self@.source))),
            res matches Some(text) ==> text@ == chars_of(spanned.span->0.bytes_in(encode_utf8(self@.source))),
    {
        match spanned.span {
            Some(span) => self.text(span),
            None => None,
        }
    }

    /// Whether any problem is severe enough that the parser does not vouch for the result.
    pub fn has_errors(&self) -> (res: bool)
        ensures
            res == any_error(self@.problems),
    {
        let mut i: usize = 0;
        while i < self.problems.len()
            invariant
                i <= self.problems@.len(),
                forall|j: int| 0 <= j < i ==> (#[trigger] self.problems@[j]).severity != Severity::Error,
            decreases self.problems@.len() - i,
        {
            if self.problems[i].severity == Severity::Error {
                assert(self@.problems[i as int].severity == Severity::Error);
                return true;
            }
            i += 1;
        }
        proof {
            if any_error(self@.problems) {
                let j = choose|j: int| 0 <= j < self@.problems.len() && (#[trigger] self@.problems[j]).severity == Severity::Error;
                assert(self.problems@[j].severity == Severity::Error);
            }
        }
        false
    }

    /// The document, discarding the source and the problems.
    pub fn into_ini(self) -> (res: Ini)
        ensures
            res@ == self@.ini,
    {
        self.ini
    }

    /// The document, or — if any problem is an error — this whole `Parsed`, which still
    /// carries the best-effort document, the source and the problems.
    ///
    /// # Errors
    /// When [`Parsed::has_errors`] is true.
    pub fn into_result(self) -> (res: Result<Ini, Self>)
        ensures
            match res {
                Ok(ini) => !any_error(self@.problems) && ini@ == self@.ini,
                Err(parsed) => any_error(self@.problems) && parsed@ == self@,
            },
    {
        if self.has_errors() {
            Err(self)
        } else {
            Ok(self.ini)
        }
    }

    /// How many problems the document has, as a message.
    pub fn to_string(&self) -> (res: String)
        ensures
            res@ == decimal(self@.problems.len()) + " problem(s) in the configuration"@,
    {
        let mut message = usize_to_string(self.problems.len());
        message.append(" problem(s) in the configuration");
        message
    }
}

/// Every span a parse produced points into its own source: every entry has a key and a
/// value span and every named section a header span; each of them, and each problem's span
/// together with the earlier occurrence a duplicate points back to, is a character range of
/// the source, so [`Parsed::text`] resolves it; each header and key span covers exactly the
/// name recorded with it; and no value ends with whitespace, a newline included.
pub open spec fn spans_resolve(parsed: ParsedModel) -> bool {
    &&& document_read_from(parsed.ini, encode_utf8(parsed.source))
    &&& problems_read_from(parsed.problems, encode_utf8(parsed.source))
}

/// The parse of `source` under `options`, as [`parse`] returns it when the options compile.
pub open spec fn parsed_from(source: Seq<char>, options: Options) -> ParsedModel {
    let folded = parse_spec(encode_utf8(source), options.model(), options.strict);
    ParsedModel { source, ini: folded.ini, problems: folded.problems }
}

/// Strictness changes how severe the duplicate-definition problems are and nothing else:
/// one source read under two sets of preferences that differ only in `strict` gives the
/// same document, and the same problems, of the same kinds at the same places, in the same
/// order.
pub proof fn law_strictness_changes_only_severity(source: Seq<char>, a: Options, b: Options)
    requires
        a.model() == b.model(),
    ensures
        parsed_from(source, a).ini == parsed_from(source, b).ini,
        reported(parsed_from(source, a).problems) == reported(parsed_from(source, b).problems),
{
    lemma_parse_agree(encode_utf8(source), a.model(), a.strict, b.strict);
}

/// Every problem a parse reports has the severity its kind has under the caller's
/// strictness: the two duplicate kinds are errors only when strict, every other kind is
/// always an error.
pub proof fn law_severity_follows_kind(source: Seq<char>, options: Options)
    ensures
        severities_follow(parsed_from(source, options).problems, options.strict),
{
    lemma_parse_agree(encode_utf8(source), options.model(), options.strict, options.strict);
}

/// Reads an INI document from `source`.
///
/// The source is copied into the returned [`Parsed`], which is what lets it answer
/// [`Parsed::text`] for any span it produced.
///
/// # Errors
/// When the options cannot be compiled; see [`Options`].
pub fn parse(source: &str, options: &Options) -> (res: Result<Parsed, Error>)
    ensures
        res is Ok <==> options_compile(*options),
        res matches Ok(parsed) ==> parsed@ == parsed_from(source@, *options),
        res matches Ok(parsed) ==> spans_resolve(parsed@),
        res matches Ok(parsed) ==> document_wf(parsed@.ini),
        res matches Err(e) ==> e is InvalidOptions,
        compile_refusal(*options) matches Some(message) ==> res matches Err(Error::InvalidOptions(m)) && m@ == message,
{
    parse_owned(String::from_str(source), options)
}

/// Reads an INI document from `source`, which the returned [`Parsed`] keeps; [`parse`] is
/// this after copying its input.
///
/// # Errors
/// When the options cannot be compiled; see [`Options`].
pub fn parse_owned(source: String, options: &Options) -> (res: Result<Parsed, Error>)
    ensures
        res is Ok <==> options_compile(*options),
        res matches Ok(parsed) ==> parsed@ == parsed_from(source@, *options),
        res matches Ok(parsed) ==> spans_resolve(parsed@),
        res matches Ok(parsed) ==> document_wf(parsed@.ini),
        res matches Err(e) ==> e is InvalidOptions,
        compile_refusal(*options) matches Some(message) ==> res matches Err(Error::InvalidOptions(m)) && m@ == message,
{
    let compiled = options.compile()?;
    let (ini, problems) = fold(source.as_str(), &compiled, options.strict);
    Ok(Parsed { source, ini, problems })
}

} // verus!
