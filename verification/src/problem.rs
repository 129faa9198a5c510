//! Everything wrong with a document that the caller should be shown.

use crate::span::Span;
use codespan_reporting::diagnostic::{Diagnostic, Label};
use vstd::prelude::*;
use vstd::string::*;

verus! {

/// How seriously a [`Problem`] should be taken.
///
/// A document containing an [`Severity::Error`] was still parsed as far as possible, but the
/// parser does not vouch for the result.
#[derive(Debug, Clone, Copy, PartialEq, Eq, Structural, Hash)]
pub enum Severity {
    /// The document is usable; something in it is suspect.
    Warning,
    /// The document is malformed.
    Error,
}

/// Something wrong with the document, independent of where it occurred.
///
/// Every kind describes a condition the parser recovered from: a malformed line is skipped, a
/// duplicate is applied. None of them abort parsing, which is why all of them are reported
/// instead of only the first.
#[non_exhaustive]
#[derive(Debug, Clone, PartialEq, Eq)]
pub enum ProblemKind {
    /// A line opened a section header with `[` but never closed it.
    SectionNotClosed,
    /// A section name contained a `]`, which the caller did not allow.
    InvalidSectionName,
    /// A section header was written as `[]`.
    EmptySectionName,
    /// An assignment had nothing to the left of its delimiter.
    EmptyOptionName,
    /// A non-blank, non-header line contained none of the configured delimiters.
    MissingAssignmentDelimiter {
        /// The delimiters that were searched for, in the order the caller configured them.
        delimiters: Vec<String>,
    },
    /// An option appeared before any section header.
    MissingSectionHeader,
    /// An option name occurred twice in one section.
    DuplicateOption {
        /// The option name as written at the later occurrence.
        key: String,
        /// Where the earlier occurrence was read from, or `None` when it was not parsed
        /// from source but inserted by the caller.
        previous: Option<Span>,
    },
    /// A section header named a section that already exists; the two are merged.
    DuplicateSection {
        /// The section name as written at the later occurrence.
        name: String,
        /// Where the earlier header was read from, or `None` when the section was not parsed
        /// from source but inserted by the caller.
        previous: Option<Span>,
    },
}

/// A [`ProblemKind`] with its strings taken as character sequences.
pub enum KindModel {
    SectionNotClosed,
    InvalidSectionName,
    EmptySectionName,
    EmptyOptionName,
    MissingAssignmentDelimiter { delimiters: Seq<Seq<char>> },
    MissingSectionHeader,
    DuplicateOption { key: Seq<char>, previous: Option<Span> },
    DuplicateSection { name: Seq<char>, previous: Option<Span> },
}

impl View for ProblemKind {
    type V = KindModel;

    open spec fn view(&self) -> KindModel {
        match self {
            ProblemKind::SectionNotClosed => KindModel::SectionNotClosed,
            ProblemKind::InvalidSectionName => KindModel::InvalidSectionName,
            ProblemKind::EmptySectionName => KindModel::EmptySectionName,
            ProblemKind::EmptyOptionName => KindModel::EmptyOptionName,
            ProblemKind::MissingAssignmentDelimiter { delimiters } => KindModel::MissingAssignmentDelimiter {
                delimiters: delimiters@.map_values(|d: String| d@),
            },
            ProblemKind::MissingSectionHeader => KindModel::MissingSectionHeader,
            ProblemKind::DuplicateOption { key, previous } => KindModel::DuplicateOption {
                key: key@,
                previous: *previous,
            },
            ProblemKind::DuplicateSection { name, previous } => KindModel::DuplicateSection {
                name: name@,
                previous: *previous,
            },
        }
    }
}

/// The six syntax kinds are errors in both modes; the two duplicate kinds are warnings
/// unless the caller asked for strictness.
pub open spec fn severity_of(kind: KindModel, strict: bool) -> Severity {
    match kind {
        KindModel::DuplicateOption { .. } | KindModel::DuplicateSection { .. } => if strict {
            Severity::Error
        } else {
            Severity::Warning
        },
        _ => Severity::Error,
    }
}

/// `list` joined with `sep` between consecutive items.
pub open spec fn join(list: Seq<Seq<char>>, sep: Seq<char>) -> Seq<char>
    decreases list.len(),
{
    if list.len() == 0 {
        Seq::empty()
    } else if list.len() == 1 {
        list[0]
    } else {
        join(list.drop_last(), sep) + sep + list.last()
    }
}

/// Each delimiter in backticks, separated by `, `.
pub open spec fn delimiter_list(delimiters: Seq<Seq<char>>) -> Seq<char> {
    join(delimiters.map_values(|d: Seq<char>| "`"@ + d + "`"@), ", "@)
}

/// The message a problem of this kind is reported with.
pub open spec fn message_of(kind: KindModel) -> Seq<char> {
    match kind {
        KindModel::SectionNotClosed => "section was not closed: missing ']'"@,
        KindModel::InvalidSectionName => "invalid section name: contains ']'"@,
        KindModel::EmptySectionName => "empty section name"@,
        KindModel::EmptyOptionName => "empty option name"@,
        KindModel::MissingAssignmentDelimiter { delimiters } => "variable assignment missing one of: "@
            + delimiter_list(delimiters),
        KindModel::MissingSectionHeader => "option outside of any section"@,
        KindModel::DuplicateOption { key, .. } => "duplicate option `"@ + key + "`"@,
        KindModel::DuplicateSection { name, .. } => "duplicate section `"@ + name + "`"@,
    }
}

impl ProblemKind {
    /// How seriously this kind should be taken, given the caller's strictness.
    ///
    /// The six syntax kinds are [`Severity::Error`] in both modes: they are the conditions a
    /// stricter parser refuses outright. Only the two duplicate kinds are advisory by
    /// default and become errors under `strict`.
    pub fn severity(&self, strict: bool) -> (res: Severity)
        ensures
            res == severity_of(self@, strict),
    {
        match self {
            ProblemKind::SectionNotClosed
            | ProblemKind::InvalidSectionName
            | ProblemKind::EmptySectionName
            | ProblemKind::EmptyOptionName
            | ProblemKind::MissingAssignmentDelimiter { .. }
            | ProblemKind::MissingSectionHeader => Severity::Error,
            ProblemKind::DuplicateOption { .. } | ProblemKind::DuplicateSection { .. } => {
                if strict {
                    Severity::Error
                } else {
                    Severity::Warning
                }
            },
        }
    }

    /// The message this problem is reported with.
    pub fn to_string(&self) -> (res: String)
        ensures
            res@ == message_of(self@),
    {
        match self {
            ProblemKind::SectionNotClosed => String::from_str("section was not closed: missing ']'"),
            ProblemKind::InvalidSectionName => String::from_str("invalid section name: contains ']'"),
            ProblemKind::EmptySectionName => String::from_str("empty section name"),
            ProblemKind::EmptyOptionName => String::from_str("empty option name"),
            ProblemKind::MissingAssignmentDelimiter { delimiters } => {
                let mut message = String::from_str("variable assignment missing one of: ");
                let list = fmt_delimiters(delimiters);
                message.append(list.as_str());
                message
            },
            ProblemKind::MissingSectionHeader => String::from_str("option outside of any section"),
            ProblemKind::DuplicateOption { key, .. } => quoted("duplicate option `", key),
            ProblemKind::DuplicateSection { name, .. } => quoted("duplicate section `", name),
        }
    }
}

/// `prefix`, then `name`, then a closing backtick.
fn quoted(prefix: &str, name: &String) -> (res: String)
    ensures
        res@ == prefix@ + name@ + "`"@,
{
    let mut message = String::from_str(prefix);
    message.append(name.as_str());
    message.append("`");
    message
}

/// Renders a delimiter list the way the diagnostic messages want it.
pub fn fmt_delimiters(delimiters: &Vec<String>) -> (res: String)
    ensures
        res@ == delimiter_list(delimiters@.map_values(|d: String| d@)),
{
    let ghost names = delimiters@.map_values(|d: String| d@);
    let ghost quoted_names = names.map_values(|d: Seq<char>| "`"@ + d + "`"@);
    let mut out = String::new();
    let mut i: usize = 0;
    while i < delimiters.len()
        invariant
            i <= delimiters@.len(),
            names == delimiters@.map_values(|d: String| d@),
            quoted_names == names.map_values(|d: Seq<char>| "`"@ + d + "`"@),
            out@ == join(quoted_names.take(i as int), ", "@),
        decreases delimiters@.len() - i,
    {
        let ghost previous = out@;
        if i > 0 {
            out.append(", ");
        }
        out.append("`");
        out.append(delimiters[i].as_str());
        out.append("`");
        proof {
            assert(quoted_names.take(i + 1).drop_last() =~= quoted_names.take(i as int));
            assert(quoted_names.take(i + 1).last() == quoted_names[i as int]);
            if i == 0 {
                assert(out@ =~= quoted_names[0]);
            } else {
                assert(out@ =~= previous + ", "@ + quoted_names[i as int]);
            }
        }
        i += 1;
    }
    proof {
        assert(quoted_names.take(delimiters@.len() as int) =~= quoted_names);
    }
    out
}

/// One problem found in one document, with the source range that provoked it.
#[derive(Debug, Clone, PartialEq, Eq)]
pub struct Problem {
    /// What is wrong.
    pub kind: ProblemKind,
    /// How seriously to take it, already resolved against the caller's strictness.
    pub severity: Severity,
    /// The bytes of the source that provoked it.
    pub span: Span,
}

/// A [`Problem`] with its kind taken by its model.
pub struct ProblemModel {
    pub kind: KindModel,
    pub severity: Severity,
    pub span: Span,
}

impl View for Problem {
    type V = ProblemModel;

    open spec fn view(&self) -> ProblemModel {
        ProblemModel { kind: self.kind@, severity: self.severity, span: self.span }
    }
}

/// The problem `kind` at `span`, its severity resolved against `strict`.
pub open spec fn problem_at(kind: KindModel, span: Span, strict: bool) -> ProblemModel {
    ProblemModel { kind, severity: severity_of(kind, strict), span }
}

/// The sink the parser reports to.
///
/// It owns the strictness decision: severity is resolved once, in [`Problems::push`], so no
/// call site can report a problem without one and no second code path can reinterpret
/// strictness its own way.
#[derive(Debug)]
pub struct Problems {
    strict: bool,
    items: Vec<Problem>,
}

impl Problems {
    /// Whether severities are resolved for a strict caller.
    pub closed spec fn strict_spec(&self) -> bool {
        self.strict
    }

    /// The problems recorded so far, in the order they were reported.
    pub closed spec fn items_spec(&self) -> Seq<ProblemModel> {
        self.items@.map_values(|p: Problem| p@)
    }

    /// An empty sink that resolves severities for a caller who asked for `strict` or not.
    pub fn new(strict: bool) -> (res: Self)
        ensures
            res.strict_spec() == strict,
            res.items_spec() == Seq::<ProblemModel>::empty(),
    {
        let res = Self { strict, items: Vec::new() };
        assert(res.items_spec() =~= Seq::<ProblemModel>::empty());
        res
    }

    /// Records `kind` at `span`, assigning its severity.
    pub fn push(&mut self, kind: ProblemKind, span: Span)
        ensures
            final(self).strict_spec() == old(self).strict_spec(),
            final(self).items_spec() == old(self).items_spec().push(
                problem_at(kind@, span, old(self).strict_spec()),
            ),
    {
        let severity = kind.severity(self.strict);
        let ghost before = self.items@;
        self.items.push(Problem { kind, severity, span });
        assert(self.items@.map_values(|p: Problem| p@) =~= before.map_values(|p: Problem| p@).push(
            problem_at(kind@, span, self.strict),
        ));
    }

    /// The problems recorded so far, in the order they were reported.
    pub fn into_items(self) -> (res: Vec<Problem>)
        ensures
            res@.map_values(|p: Problem| p@) == self.items_spec(),
    {
        self.items
    }
}

#[verifier::external_type_specification]
#[verifier::external_body]
#[verifier::reject_recursive_types(FileId)]
pub struct ExDiagnostic<FileId>(Diagnostic<FileId>);

#[verifier::external_type_specification]
#[verifier::external_body]
#[verifier::reject_recursive_types(FileId)]
pub struct ExLabel<FileId>(Label<FileId>);

/// `Diagnostic::warning`. Nothing is claimed of the result: the diagnostic type is generic
/// over its file id, and the names this crate gives outside results cannot be.
#[verifier::external_body]
fn diagnostic_warning<F>() -> Diagnostic<F> {
    Diagnostic::warning()
}

/// `Diagnostic::error`. Nothing is claimed of the result, for the reason given at
/// [`diagnostic_warning`].
#[verifier::external_body]
fn diagnostic_error<F>() -> Diagnostic<F> {
    Diagnostic::error()
}

/// `Diagnostic::with_message`. Nothing is claimed of the result, for the reason given at
/// [`diagnostic_warning`].
#[verifier::external_body]
fn diagnostic_with_message<F>(diagnostic: Diagnostic<F>, message: String) -> Diagnostic<F> {
    diagnostic.with_message(message)
}

/// `Diagnostic::with_labels`. Nothing is claimed of the result, for the reason given at
/// [`diagnostic_warning`].
#[verifier::external_body]
fn diagnostic_with_labels<F>(diagnostic: Diagnostic<F>, labels: Vec<Label<F>>) -> Diagnostic<F> {
    diagnostic.with_labels(labels)
}

/// `Label::primary` over a byte range. Nothing is claimed of the result, for the reason
/// given at [`diagnostic_warning`].
#[verifier::external_body]
fn label_primary<F>(file_id: F, range: std::ops::Range<usize>) -> Label<F> {
    Label::primary(file_id, range)
}

/// `Label::secondary` over a byte range. Nothing is claimed of the result, for the reason
/// given at [`diagnostic_warning`].
#[verifier::external_body]
fn label_secondary<F>(file_id: F, range: std::ops::Range<usize>) -> Label<F> {
    Label::secondary(file_id, range)
}

/// `Label::with_message`. Nothing is claimed of the result, for the reason given at
/// [`diagnostic_warning`].
#[verifier::external_body]
fn label_with_message<F>(label: Label<F>, message: String) -> Label<F> {
    label.with_message(message)
}

/// The text under the caret of a problem of this kind.
pub open spec fn primary_label_of(kind: KindModel) -> Seq<char> {
    match kind {
        KindModel::SectionNotClosed => "missing `]`"@,
        KindModel::InvalidSectionName => "section must not contain `]`"@,
        KindModel::EmptySectionName => "section name must not be empty"@,
        KindModel::EmptyOptionName => "option name must not be empty"@,
        KindModel::MissingAssignmentDelimiter { delimiters } => "missing one of: "@ + delimiter_list(delimiters),
        KindModel::MissingSectionHeader => "every option must follow a section header"@,
        KindModel::DuplicateOption { key, .. } => "second use of option `"@ + key + "`"@,
        KindModel::DuplicateSection { name, .. } => "second use of section `"@ + name + "`"@,
    }
}

/// The label on the earlier occurrence of a duplicate, when that occurrence has a span.
pub open spec fn secondary_label_of(kind: KindModel) -> Option<(Span, Seq<char>)> {
    match kind {
        KindModel::DuplicateOption { key, previous: Some(span) } => Some((span, "first use of option `"@ + key + "`"@)),
        KindModel::DuplicateSection { name, previous: Some(span) } => Some((span, "first use of section `"@ + name + "`"@)),
        _ => None,
    }
}

impl Problem {
    /// The message under the caret, and the earlier occurrence's span and message when the
    /// problem is a duplicate whose earlier occurrence came from source.
    pub fn labels(&self) -> (res: (String, Option<(Span, String)>))
        ensures
            res.0@ == primary_label_of(self.kind@),
            match res.1 {
                Some((span, message)) => secondary_label_of(self.kind@) == Some((span, message@)),
                None => secondary_label_of(self.kind@) is None,
            },
    {
        match &self.kind {
            ProblemKind::SectionNotClosed => (String::from_str("missing `]`"), None),
            ProblemKind::InvalidSectionName => (String::from_str("section must not contain `]`"), None),
            ProblemKind::EmptySectionName => (String::from_str("section name must not be empty"), None),
            ProblemKind::EmptyOptionName => (String::from_str("option name must not be empty"), None),
            ProblemKind::MissingAssignmentDelimiter { delimiters } => {
                let mut message = String::from_str("missing one of: ");
                let list = fmt_delimiters(delimiters);
                message.append(list.as_str());
                (message, None)
            },
            ProblemKind::MissingSectionHeader => (String::from_str("every option must follow a section header"), None),
            ProblemKind::DuplicateOption { key, previous } => {
                let secondary = match previous {
                    Some(span) => Some((*span, quoted("first use of option `", key))),
                    None => None,
                };
                (quoted("second use of option `", key), secondary)
            },
            ProblemKind::DuplicateSection { name, previous } => {
                let secondary = match previous {
                    Some(span) => Some((*span, quoted("first use of section `", name))),
                    None => None,
                };
                (quoted("second use of section `", name), secondary)
            },
        }
    }

    /// Everything the diagnostic for this problem says, as plain values: its severity, its
    /// message, and its labels in order.
    pub fn diagnostic_parts(&self) -> (res: DiagnosticParts)
        ensures
            res.severity == self.severity,
            res.message@ == message_of(self.kind@),
            res.labels@.map_values(|l: DiagnosticLabel| l@) == labels_of(self@),
    {
        let (primary, secondary) = self.labels();
        let mut labels: Vec<DiagnosticLabel> = Vec::new();
        labels.push(DiagnosticLabel { primary: true, range: self.span.start()..self.span.end(), message: primary });
        match secondary {
            Some((span, message)) => {
                labels.push(DiagnosticLabel { primary: false, range: span.start()..span.end(), message });
            },
            None => {},
        }
        let res = DiagnosticParts { severity: self.severity, message: self.kind.to_string(), labels };
        assert(res.labels@.map_values(|l: DiagnosticLabel| l@) =~= labels_of(self@));
        res
    }

    /// Renders this problem as a `codespan-reporting` diagnostic against `file_id`.
    ///
    /// The diagnostic carries what [`Problem::diagnostic_parts`] states: the severity, the
    /// message, and a label for each of its labels, primary or secondary as stated, over the
    /// stated byte range and with the stated text. The primary label covers
    /// [`Problem::span`]; the two duplicate kinds also carry a secondary label on the
    /// earlier occurrence, but only when that occurrence has a span.
    pub fn to_diagnostic<F: Copy>(&self, file_id: F) -> Diagnostic<F> {
        let parts = self.diagnostic_parts();
        let mut labels: Vec<Label<F>> = Vec::new();
        let mut i: usize = 0;
        while i < parts.labels.len()
            decreases parts.labels@.len() - i,
        {
            let label = &parts.labels[i];
            let rendered = if label.primary {
                label_primary(file_id, label.range.start..label.range.end)
            } else {
                label_secondary(file_id, label.range.start..label.range.end)
            };
            labels.push(label_with_message(rendered, label.message.clone()));
            i += 1;
        }
        let diagnostic = match parts.severity {
            Severity::Warning => diagnostic_warning(),
            Severity::Error => diagnostic_error(),
        };
        diagnostic_with_labels(diagnostic_with_message(diagnostic, parts.message), labels)
    }
}

/// One label of a diagnostic: primary or secondary, the byte range it underlines, and its
/// text.
pub struct DiagnosticLabel {
    /// Whether this is the label under the caret, rather than one on an earlier occurrence.
    pub primary: bool,
    /// The bytes of the source it underlines.
    pub range: std::ops::Range<usize>,
    /// What it says.
    pub message: String,
}

/// A [`DiagnosticLabel`] with its range taken as two offsets and its text as characters.
pub struct LabelModel {
    pub primary: bool,
    pub start: int,
    pub end: int,
    pub message: Seq<char>,
}

impl View for DiagnosticLabel {
    type V = LabelModel;

    open spec fn view(&self) -> LabelModel {
        LabelModel {
            primary: self.primary,
            start: self.range.start as int,
            end: self.range.end as int,
            message: self.message@,
        }
    }
}

/// The labels of a problem's diagnostic: the primary one over the problem's span, then the
/// one on the earlier occurrence of a duplicate, when that occurrence has a span.
pub open spec fn labels_of(problem: ProblemModel) -> Seq<LabelModel> {
    let primary = LabelModel {
        primary: true,
        start: problem.span.start_spec() as int,
        end: problem.span.end_spec() as int,
        message: primary_label_of(problem.kind),
    };
    match secondary_label_of(problem.kind) {
        Some((span, message)) => seq![
            primary,
            LabelModel { primary: false, start: span.start_spec() as int, end: span.end_spec() as int, message },
        ],
        None => seq![primary],
    }
}

/// What the diagnostic for a problem says, as plain values.
pub struct DiagnosticParts {
    /// How seriously the problem is to be taken.
    pub severity: Severity,
    /// The problem's message.
    pub message: String,
    /// The labels, primary first.
    pub labels: Vec<DiagnosticLabel>,
}

} // verus!
