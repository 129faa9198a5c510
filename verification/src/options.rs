//! Caller-supplied parsing preferences, compiled once into the matchers the lexer needs.

use crate::matcher::{
    build_leftmost_first, matcher_builds, matcher_is_leftmost_first, matcher_patterns,
    no_empty_pattern, pattern_bytes,
};
use crate::parse::Error;
use aho_corasick::AhoCorasick;
use vstd::prelude::*;
use vstd::string::*;
use vstd::utf8::*;

verus! {

/// Caller-supplied parsing preferences.
///
/// Every field is public and every field has a default, so a caller overrides only what it
/// cares about. The preferences are plain data and are never validated on assignment; they
/// are validated exactly once, by [`parse`](crate::parse), before any line of the source is
/// read, so an unusable combination is an [`Error::InvalidOptions`] rather than a surprise
/// part way through a file.
#[derive(Debug, Clone, PartialEq, Eq)]
pub struct Options {
    /// Treat recoverable problems as errors.
    ///
    /// Strict mode changes only how a problem is *reported*; it never changes which value
    /// the parser keeps.
    pub strict: bool,
    /// Name of the section whose options every other section inherits.
    pub default_section: String,
    /// The patterns that separate an option name from its value. The list must be
    /// non-empty and no pattern may be the empty string.
    pub assignment_delimiters: Vec<String>,
    /// The patterns that introduce a full-line comment, matched against the line's first
    /// non-whitespace text. No pattern may be the empty string.
    pub comment_prefixes: Vec<String>,
    /// The patterns that introduce a comment in the middle of a line. Empty by default.
    /// No pattern may be the empty string.
    pub inline_comment_prefixes: Vec<String>,
    /// Whether a blank line may appear inside a multi-line value rather than ending it.
    pub allow_empty_lines_in_values: bool,
    /// Whether a section name may itself contain `]`, as in `[a]b]`.
    pub allow_brackets_in_section_name: bool,
}

/// The parsing preferences as the lexer and the parser read them: every pattern as the
/// bytes it matches.
pub struct OptionsModel {
    pub default_section: Seq<char>,
    pub delimiters: Seq<Seq<u8>>,
    pub delimiter_names: Seq<Seq<char>>,
    pub comment_prefixes: Seq<Seq<u8>>,
    pub inline_comment_prefixes: Seq<Seq<u8>>,
    pub allow_empty_lines_in_values: bool,
    pub allow_brackets_in_section_name: bool,
}

/// Every pattern is valid UTF-8.
pub open spec fn all_valid_utf8(patterns: Seq<Seq<u8>>) -> bool {
    forall|i: int| 0 <= i < patterns.len() ==> valid_utf8(#[trigger] patterns[i])
}

/// Some string in `strings` is empty.
pub open spec fn has_empty_string(strings: Seq<String>) -> bool {
    exists|i: int| 0 <= i < strings.len() && (#[trigger] strings[i])@.len() == 0
}

/// Why `compile` refuses the preferences before building any matcher, if it does.
pub open spec fn compile_refusal(o: Options) -> Option<Seq<char>> {
    if o.assignment_delimiters@.len() == 0 {
        Some("at least one assignment delimiter is required"@)
    } else if has_empty_string(o.assignment_delimiters@) {
        Some("assignment delimiter must not be the empty string"@)
    } else if has_empty_string(o.comment_prefixes@) {
        Some("comment prefix must not be the empty string"@)
    } else if has_empty_string(o.inline_comment_prefixes@) {
        Some("inline comment prefix must not be the empty string"@)
    } else {
        None
    }
}

/// The matcher crate accepts all three pattern lists.
pub open spec fn matchers_build(o: Options) -> bool {
    &&& matcher_builds(pattern_bytes(o.assignment_delimiters@))
    &&& matcher_builds(pattern_bytes(o.comment_prefixes@))
    &&& matcher_builds(pattern_bytes(o.inline_comment_prefixes@))
}

/// The preferences can be compiled: that is when parsing runs at all.
pub open spec fn options_compile(o: Options) -> bool {
    compile_refusal(o) is None && matchers_build(o)
}

impl Options {
    /// The name of the inherited-defaults section unless the caller picks another.
    pub const DEFAULT_SECTION: &'static str = "DEFAULT";

    /// The assignment delimiters used unless the caller picks others.
    pub const DEFAULT_ASSIGNMENT_DELIMITERS: [&'static str; 2] = ["=", ":"];

    /// The full-line comment prefixes used unless the caller picks others.
    pub const DEFAULT_COMMENT_PREFIXES: [&'static str; 2] = [";", "#"];

    /// The inline comment prefixes used unless the caller picks others: none, so a `#`
    /// inside a value stays part of the value.
    pub const DEFAULT_INLINE_COMMENT_PREFIXES: [&'static str; 0] = [];

    /// The preferences the lexer and the parser act on.
    pub open spec fn model(self) -> OptionsModel {
        OptionsModel {
            default_section: self.default_section@,
            delimiters: pattern_bytes(self.assignment_delimiters@),
            delimiter_names: self.assignment_delimiters@.map_values(|s: String| s@),
            comment_prefixes: pattern_bytes(self.comment_prefixes@),
            inline_comment_prefixes: pattern_bytes(self.inline_comment_prefixes@),
            allow_empty_lines_in_values: self.allow_empty_lines_in_values,
            allow_brackets_in_section_name: self.allow_brackets_in_section_name,
        }
    }

    /// Validates the preferences and builds the matchers the lexer searches lines with.
    ///
    /// This is the single edge at which parsing preferences are checked, so every later
    /// stage may assume a delimiter exists and that no pattern matches the empty string.
    ///
    /// # Errors
    /// Returns [`Error::InvalidOptions`] when [`Options::assignment_delimiters`] is empty,
    /// when any pattern in any of the three lists is the empty string, or when the pattern
    /// matcher itself rejects the patterns.
    pub fn compile(&self) -> (res: Result<CompiledOptions, Error>)
        ensures
            res is Ok <==> options_compile(*self),
            compile_refusal(*self) matches Some(message) ==> res matches Err(
                Error::InvalidOptions(m),
            ) && m@ == message,
            res matches Err(e) ==> e is InvalidOptions,
            res matches Ok(c) ==> c.model() == self.model(),
    {
        if self.assignment_delimiters.len() == 0 {
            return Err(Error::InvalidOptions(String::from_str("at least one assignment delimiter is required")));
        }
        if has_empty(&self.assignment_delimiters) {
            return Err(Error::InvalidOptions(String::from_str("assignment delimiter must not be the empty string")));
        }
        if has_empty(&self.comment_prefixes) {
            return Err(Error::InvalidOptions(String::from_str("comment prefix must not be the empty string")));
        }
        if has_empty(&self.inline_comment_prefixes) {
            return Err(Error::InvalidOptions(String::from_str("inline comment prefix must not be the empty string")));
        }
        let assignment_delimiters = build(&self.assignment_delimiters)?;
        let comment_prefixes = build(&self.comment_prefixes)?;
        let inline_comment_prefixes = build(&self.inline_comment_prefixes)?;
        proof {
            broadcast use vstd::utf8::group_utf8_lib;
            assert forall|i: int| 0 <= i < pattern_bytes(self.assignment_delimiters@).len() implies
                #[trigger] pattern_bytes(self.assignment_delimiters@)[i].len() > 0 by {
                assert(self.assignment_delimiters@[i]@.len() != 0);
                if encode_utf8(self.assignment_delimiters@[i]@).len() == 0 {
                    assert(decode_utf8(encode_utf8(self.assignment_delimiters@[i]@)).len() == 0);
                }
            }
            assert forall|i: int| 0 <= i < pattern_bytes(self.comment_prefixes@).len() implies
                #[trigger] pattern_bytes(self.comment_prefixes@)[i].len() > 0 by {
                assert(self.comment_prefixes@[i]@.len() != 0);
                if encode_utf8(self.comment_prefixes@[i]@).len() == 0 {
                    assert(decode_utf8(encode_utf8(self.comment_prefixes@[i]@)).len() == 0);
                }
            }
            assert forall|i: int| 0 <= i < pattern_bytes(self.inline_comment_prefixes@).len() implies
                #[trigger] pattern_bytes(self.inline_comment_prefixes@)[i].len() > 0 by {
                assert(self.inline_comment_prefixes@[i]@.len() != 0);
                if encode_utf8(self.inline_comment_prefixes@[i]@).len() == 0 {
                    assert(decode_utf8(encode_utf8(self.inline_comment_prefixes@[i]@)).len() == 0);
                }
            }
        }
        let compiled = CompiledOptions {
            assignment_delimiters,
            comment_prefixes,
            inline_comment_prefixes,
            delimiter_names: clone_strings(&self.assignment_delimiters),
            default_section: self.default_section.clone(),
            allow_empty_lines_in_values: self.allow_empty_lines_in_values,
            allow_brackets_in_section_name: self.allow_brackets_in_section_name,
        };
        assert(compiled.model().delimiter_names =~= self.model().delimiter_names);
        Ok(compiled)
    }
}

/// Whether some string in `strings` is empty.
fn has_empty(strings: &Vec<String>) -> (res: bool)
    ensures
        res == has_empty_string(strings@),
{
    let mut i: usize = 0;
    while i < strings.len()
        invariant
            i <= strings@.len(),
            forall|j: int| 0 <= j < i ==> (#[trigger] strings@[j])@.len() != 0,
        decreases strings@.len() - i,
    {
        if strings[i].as_str().is_empty() {
            return true;
        }
        i += 1;
    }
    false
}

/// A copy of every string, in order.
pub(crate) fn clone_strings(strings: &Vec<String>) -> (res: Vec<String>)
    ensures
        res@.len() == strings@.len(),
        forall|i: int| 0 <= i < strings@.len() ==> (#[trigger] res@[i])@ == strings@[i]@,
{
    let mut out: Vec<String> = Vec::new();
    let mut i: usize = 0;
    while i < strings.len()
        invariant
            i <= strings@.len(),
            out@.len() == i,
            forall|j: int| 0 <= j < i ==> (#[trigger] out@[j])@ == strings@[j]@,
        decreases strings@.len() - i,
    {
        out.push(strings[i].clone());
        i += 1;
    }
    out
}

/// Compiles one pattern list into the matcher the lexer searches lines with.
///
/// Leftmost-first semantics is what makes the caller's list order mean what
/// `configparser`'s regex alternation means: the earliest position in the line wins, and
/// among the patterns that start there the one the caller listed first wins. The build
/// error is rendered rather than wrapped, so the matcher crate stays out of this crate's
/// public API.
fn build(patterns: &Vec<String>) -> (res: Result<AhoCorasick, Error>)
    ensures
        res is Ok <==> matcher_builds(pattern_bytes(patterns@)),
        res matches Ok(m) ==> matcher_patterns(m) == pattern_bytes(patterns@) && matcher_is_leftmost_first(m),
        res matches Err(e) ==> e is InvalidOptions,
{
    match build_leftmost_first(patterns) {
        Ok(m) => Ok(m),
        Err(err) => Err(Error::InvalidOptions(err.to_string())),
    }
}

/// Owned copies of `patterns`, in order.
pub fn owned(patterns: &[&str]) -> (res: Vec<String>)
    ensures
        res@.len() == patterns@.len(),
        forall|i: int| 0 <= i < patterns@.len() ==> (#[trigger] res@[i])@ == patterns@[i]@,
{
    let mut out: Vec<String> = Vec::new();
    let mut i: usize = 0;
    while i < patterns.len()
        invariant
            i <= patterns@.len(),
            out@.len() == i,
            forall|j: int| 0 <= j < i ==> (#[trigger] out@[j])@ == patterns@[j]@,
        decreases patterns@.len() - i,
    {
        out.push(String::from_str(patterns[i]));
        i += 1;
    }
    out
}

impl Default for Options {
    /// The documented defaults: lenient, `[DEFAULT]` inherited, `=` and `:` as delimiters,
    /// `;` and `#` as full-line comment prefixes, no inline comment prefixes, blank lines
    /// allowed inside values and `]` allowed inside section names.
    fn default() -> (res: Self)
        ensures
            !res.strict,
            res.default_section@ == "DEFAULT"@,
            res.assignment_delimiters@.len() == 2,
            res.assignment_delimiters@[0]@ == "="@,
            res.assignment_delimiters@[1]@ == ":"@,
            res.comment_prefixes@.len() == 2,
            res.comment_prefixes@[0]@ == ";"@,
            res.comment_prefixes@[1]@ == "#"@,
            res.inline_comment_prefixes@.len() == 0,
            res.allow_empty_lines_in_values,
            res.allow_brackets_in_section_name,
    {
        let delimiters: [&str; 2] = ["=", ":"];
        let comments: [&str; 2] = [";", "#"];
        Self {
            strict: false,
            default_section: String::from_str("DEFAULT"),
            assignment_delimiters: owned(&delimiters),
            comment_prefixes: owned(&comments),
            inline_comment_prefixes: Vec::new(),
            allow_empty_lines_in_values: true,
            allow_brackets_in_section_name: true,
        }
    }
}

/// Validated preferences together with the matchers built from them.
///
/// Constructible only by [`Options::compile`], which is what makes the matchers and the
/// preferences they were built from impossible to disagree.
#[derive(Debug)]
pub struct CompiledOptions {
    assignment_delimiters: AhoCorasick,
    comment_prefixes: AhoCorasick,
    inline_comment_prefixes: AhoCorasick,
    delimiter_names: Vec<String>,
    default_section: String,
    allow_empty_lines_in_values: bool,
    allow_brackets_in_section_name: bool,
}

impl CompiledOptions {
    /// The preferences these matchers were built from.
    pub closed spec fn model(&self) -> OptionsModel {
        OptionsModel {
            default_section: self.default_section@,
            delimiters: matcher_patterns(self.assignment_delimiters),
            delimiter_names: self.delimiter_names@.map_values(|s: String| s@),
            comment_prefixes: matcher_patterns(self.comment_prefixes),
            inline_comment_prefixes: matcher_patterns(self.inline_comment_prefixes),
            allow_empty_lines_in_values: self.allow_empty_lines_in_values,
            allow_brackets_in_section_name: self.allow_brackets_in_section_name,
        }
    }

    /// Every matcher is leftmost-first, and no pattern is empty.
    #[verifier::type_invariant]
    pub closed spec fn wf(&self) -> bool {
        &&& matcher_is_leftmost_first(self.assignment_delimiters)
        &&& matcher_is_leftmost_first(self.comment_prefixes)
        &&& matcher_is_leftmost_first(self.inline_comment_prefixes)
        &&& no_empty_pattern(matcher_patterns(self.assignment_delimiters))
        &&& matcher_patterns(self.assignment_delimiters).len() > 0
        &&& all_valid_utf8(matcher_patterns(self.assignment_delimiters))
        &&& no_empty_pattern(matcher_patterns(self.comment_prefixes))
        &&& no_empty_pattern(matcher_patterns(self.inline_comment_prefixes))
    }

    /// Searches for the patterns that separate an option name from its value.
    ///
    /// Guaranteed to hold at least one pattern, none of them empty.
    pub fn assignment_delimiters(&self) -> (res: &AhoCorasick)
        ensures
            matcher_patterns(*res) == self.model().delimiters,
            matcher_is_leftmost_first(*res),
            no_empty_pattern(matcher_patterns(*res)),
            matcher_patterns(*res).len() > 0,
            all_valid_utf8(matcher_patterns(*res)),
    {
        proof { use_type_invariant(self); }
        &self.assignment_delimiters
    }

    /// Searches for the patterns that introduce a full-line comment.
    pub fn comment_prefixes(&self) -> (res: &AhoCorasick)
        ensures
            matcher_patterns(*res) == self.model().comment_prefixes,
            matcher_is_leftmost_first(*res),
            no_empty_pattern(matcher_patterns(*res)),
    {
        proof { use_type_invariant(self); }
        &self.comment_prefixes
    }

    /// Searches for the patterns that introduce a comment in the middle of a line.
    pub fn inline_comment_prefixes(&self) -> (res: &AhoCorasick)
        ensures
            matcher_patterns(*res) == self.model().inline_comment_prefixes,
            matcher_is_leftmost_first(*res),
            no_empty_pattern(matcher_patterns(*res)),
    {
        proof { use_type_invariant(self); }
        &self.inline_comment_prefixes
    }

    /// The assignment delimiters as written by the caller, for the diagnostic that lists
    /// what a line without an assignment could have used.
    pub fn delimiter_names(&self) -> (res: &Vec<String>)
        ensures
            res@.map_values(|s: String| s@) == self.model().delimiter_names,
    {
        &self.delimiter_names
    }

    /// The name of the section whose options every other section inherits.
    pub fn default_section(&self) -> (res: &str)
        ensures
            res@ == self.model().default_section,
    {
        self.default_section.as_str()
    }

    /// Whether a blank line may appear inside a multi-line value rather than ending it.
    pub fn allow_empty_lines_in_values(&self) -> (res: bool)
        ensures
            res == self.model().allow_empty_lines_in_values,
    {
        self.allow_empty_lines_in_values
    }

    /// Whether a section name may itself contain `]`.
    pub fn allow_brackets_in_section_name(&self) -> (res: bool)
        ensures
            res == self.model().allow_brackets_in_section_name,
    {
        self.allow_brackets_in_section_name
    }
}

} // verus!
