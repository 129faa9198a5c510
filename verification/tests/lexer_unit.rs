//! Classifying single lines.

use serde_ini_spanned::fragment::Fragment;
use serde_ini_spanned::lexer::{classify, Line};
use serde_ini_spanned::options::CompiledOptions;
use serde_ini_spanned::{Options, ProblemKind};
use std::ops::Range;

/// The single line of a single-line fixture.
fn line(source: &str) -> Fragment<'_> {
    let mut lines = Fragment::lines(source);
    let line = lines.next().unwrap();
    assert!(lines.next().is_none(), "fixture must be a single line");
    line
}

fn defaults() -> CompiledOptions {
    Options::default().compile().unwrap()
}

fn with_inline(prefixes: &[&str]) -> CompiledOptions {
    Options {
        inline_comment_prefixes: prefixes.iter().map(|p| (*p).to_string()).collect(),
        ..Options::default()
    }
    .compile()
    .unwrap()
}

fn as_option(classified: &Line<'_>) -> ((String, Range<usize>), (String, Range<usize>)) {
    match classified {
        Line::Option { key, value } => (
            (key.text().to_string(), key.span().into()),
            (value.text().to_string(), value.span().into()),
        ),
        other => panic!("expected an option, got {other:?}"),
    }
}

fn as_header(classified: &Line<'_>) -> (String, Range<usize>) {
    match classified {
        Line::SectionHeader(name) => (name.text().to_string(), name.span().into()),
        other => panic!("expected a section header, got {other:?}"),
    }
}

fn as_continuation(classified: &Line<'_>) -> (String, Range<usize>) {
    match classified {
        Line::Continuation(text) => (text.text().to_string(), text.span().into()),
        other => panic!("expected a continuation, got {other:?}"),
    }
}

fn as_malformed(classified: &Line<'_>) -> (ProblemKind, Range<usize>) {
    match classified {
        Line::Malformed { kind, span } => (kind.clone(), (*span).into()),
        other => panic!("expected a malformed line, got {other:?}"),
    }
}

fn assert_blank(classified: &Line<'_>) {
    assert!(
        matches!(classified, Line::Blank),
        "expected a blank line, got {classified:?}"
    );
}

#[test]
fn empty_and_whitespace_only_lines_are_blank() {
    for source in ["   ", "\t\t", "\u{a0}\u{3000}"] {
        assert_blank(&classify(line(source), None, &defaults()));
    }
    // An empty line has no text at all, only a position.
    let empty = Fragment::lines("a\n\nb").nth(1).unwrap();
    assert_blank(&classify(empty, None, &defaults()));
}

/// A prefix list in which one pattern is a prefix of another recognizes both.
#[test]
fn overlapping_comment_prefixes_are_blank() {
    let options = Options {
        comment_prefixes: vec!["#".to_string(), "##".to_string()],
        ..Options::default()
    }
    .compile()
    .unwrap();
    assert_blank(&classify(line("# x"), None, &options));
    assert_blank(&classify(line("## x"), None, &options));
}

#[test]
fn comment_lines_are_blank() {
    for source in ["; note", "# note", "   ; indented", ";", "#"] {
        assert_blank(&classify(line(source), None, &defaults()));
    }
}

/// A multi-character comment prefix used to lose exactly one byte to an off-by-one;
/// there is no longer any code path that keeps the text of a comment at all.
#[test]
fn multi_character_comment_prefixes_are_blank() {
    let options = Options {
        comment_prefixes: vec!["----".to_string(), "//".to_string()],
        ..Options::default()
    }
    .compile()
    .unwrap();
    assert_blank(&classify(line("---- a = 1"), None, &options));
    assert_blank(&classify(line("// a = 1"), None, &options));
    // `;` is no longer configured, so it is an ordinary line again.
    assert!(matches!(
        classify(line("; a = 1"), None, &options),
        Line::Option { .. }
    ));
}

/// An inline prefix at the very start of the line makes the whole line a comment, which
/// is what stops `@ hello` from being a hard error when `@` is an inline prefix.
#[test]
fn an_inline_prefix_at_the_start_of_the_line_is_blank() {
    let options = with_inline(&["@"]);
    assert_blank(&classify(line("@ hello"), None, &options));
    assert_blank(&classify(line("   @ hello"), None, &options));
}

#[test]
fn a_simple_assignment() {
    let classified = classify(line("key = value"), None, &defaults());
    assert_eq!(
        as_option(&classified),
        (("key".to_string(), 0..3), ("value".to_string(), 6..11))
    );
}

#[test]
fn both_halves_are_trimmed_and_spans_are_absolute() {
    let source = "[s]\n   key\t=\tvalue   \n";
    let second = Fragment::lines(source).nth(1).unwrap();
    let classified = classify(second, None, &defaults());
    assert_eq!(
        as_option(&classified),
        (("key".to_string(), 7..10), ("value".to_string(), 13..18))
    );
}

#[test]
fn an_empty_value_is_allowed() {
    let classified = classify(line("key ="), None, &defaults());
    let (key, value) = as_option(&classified);
    assert_eq!(key, ("key".to_string(), 0..3));
    assert_eq!(value, (String::new(), 5..5));
}

#[test]
fn a_carriage_return_is_not_part_of_the_value() {
    let source = "key = value\r\n";
    let classified = classify(Fragment::lines(source).next().unwrap(), None, &defaults());
    assert_eq!(as_option(&classified).1, ("value".to_string(), 6..11));
}

/// With no inline prefixes configured — the default — a `#` is ordinary value text.
#[test]
fn a_hash_stays_in_the_value_by_default() {
    let classified = classify(line("a = 3 # test"), None, &defaults());
    assert_eq!(as_option(&classified).1, ("3 # test".to_string(), 4..12));
}

#[test]
fn an_inline_comment_is_stripped_from_the_value() {
    let classified = classify(line("a = 3 # test"), None, &with_inline(&["#"]));
    assert_eq!(as_option(&classified).1, ("3".to_string(), 4..5));
}

/// An inline prefix counts only after whitespace, so a URL fragment survives.
#[test]
fn an_inline_prefix_inside_a_word_is_not_a_comment() {
    let classified = classify(
        line("url = http://x.com#anchor"),
        None,
        &with_inline(&["#"]),
    );
    assert_eq!(
        as_option(&classified).1,
        ("http://x.com#anchor".to_string(), 6..25)
    );
}

#[test]
fn the_first_qualifying_inline_prefix_wins() {
    // The `#` inside the word does not qualify, so the second one starts the comment.
    let classified = classify(line("a = b#c # note"), None, &with_inline(&["#"]));
    assert_eq!(as_option(&classified).1, ("b#c".to_string(), 4..7));

    // With two qualifying occurrences, the value stops at the earlier one.
    let classified = classify(line("a = b # c # d"), None, &with_inline(&["#"]));
    assert_eq!(as_option(&classified).1, ("b".to_string(), 4..5));
}

/// The confirmed panic: the delimiter sat inside the comment, and the code sliced the
/// value out of a range that no longer existed. Stripping the comment first removes the
/// site entirely — this line simply has no delimiter.
#[test]
fn a_delimiter_inside_an_inline_comment_is_invisible() {
    let classified = classify(line("foo # bar = 1"), None, &with_inline(&["#"]));
    let (kind, span) = as_malformed(&classified);
    assert!(matches!(
        kind,
        ProblemKind::MissingAssignmentDelimiter { .. }
    ));
    assert_eq!(span, 0..3);
}

/// The value starts at the **end** of the delimiter match, not one byte past its start.
#[test]
fn a_multi_byte_delimiter_does_not_leak_into_the_value() {
    let options = Options {
        assignment_delimiters: vec![":=".to_string()],
        ..Options::default()
    }
    .compile()
    .unwrap();
    let classified = classify(line("a := 3"), None, &options);
    assert_eq!(
        as_option(&classified),
        (("a".to_string(), 0..1), ("3".to_string(), 5..6))
    );
}

/// When two delimiters start at the same offset the caller's list order decides, in both
/// directions, exactly as `configparser`'s regex alternation does. Matching whichever
/// candidate *ends* soonest instead would make `["==", "="]` unusable, because `=` would
/// always win and leak the second `=` into every value.
#[test]
fn overlapping_delimiters_follow_the_order_the_caller_listed() {
    let with_delimiters = |delimiters: &[&str]| {
        Options {
            assignment_delimiters: delimiters.iter().map(|d| (*d).to_string()).collect(),
            ..Options::default()
        }
        .compile()
        .unwrap()
    };

    let classified = classify(line("a == b"), None, &with_delimiters(&["==", "="]));
    assert_eq!(as_option(&classified).1, ("b".to_string(), 5..6));

    let classified = classify(line("a == b"), None, &with_delimiters(&["=", "=="]));
    assert_eq!(as_option(&classified).1, ("= b".to_string(), 3..6));
}

/// A comment prefix is recognized at offset 0 even when a shorter configured prefix
/// occurs later in the same word and would end sooner — `m` inside `rem `.
#[test]
fn a_comment_prefix_containing_another_prefix_still_starts_a_comment() {
    let options = Options {
        comment_prefixes: vec!["rem ".to_string(), "m".to_string()],
        ..Options::default()
    }
    .compile()
    .unwrap();
    assert_blank(&classify(line("rem this is a comment"), None, &options));
    // The shorter prefix still works where it does begin the line.
    assert_blank(&classify(line("multi"), None, &options));
}

#[test]
fn a_line_without_a_delimiter_reports_the_configured_delimiters() {
    let classified = classify(line("  just words  "), None, &defaults());
    let (kind, span) = as_malformed(&classified);
    assert_eq!(
        kind,
        ProblemKind::MissingAssignmentDelimiter {
            delimiters: vec!["=".to_string(), ":".to_string()],
        }
    );
    assert_eq!(span, 2..12, "the span covers the trimmed content");
}

#[test]
fn an_assignment_without_a_name_is_malformed() {
    let (kind, span) = as_malformed(&classify(line("  = 3"), None, &defaults()));
    assert_eq!(kind, ProblemKind::EmptyOptionName);
    assert_eq!(span, 2..2, "an empty key still points where it would be");
}

#[test]
fn a_section_header() {
    assert_eq!(
        as_header(&classify(line("[s]"), None, &defaults())),
        ("s".to_string(), 1..2)
    );
    assert_eq!(
        as_header(&classify(line("  [ spaced ]  "), None, &defaults())).1,
        3..11
    );
}

/// `configparser` does not trim the header group, so `[ s ]` is a section named `" s "`.
#[test]
fn a_section_name_is_not_trimmed() {
    assert_eq!(
        as_header(&classify(line("[ s ]"), None, &defaults())),
        (" s ".to_string(), 1..4)
    );
    assert_eq!(
        as_header(&classify(
            line("[Section\\with$weird%characters[\t]"),
            None,
            &defaults()
        )),
        ("Section\\with$weird%characters[\t".to_string(), 1..32)
    );
}

/// The header group is greedy: the **last** `]` closes it, so trailing text is allowed.
#[test]
fn a_section_header_closes_at_the_last_bracket() {
    assert_eq!(
        as_header(&classify(line("[a]b]"), None, &defaults())),
        ("a]b".to_string(), 1..4)
    );
    assert_eq!(
        as_header(&classify(line("[s] junk"), None, &defaults())),
        ("s".to_string(), 1..2)
    );
}

/// A comment after a header is stripped before the brackets are looked at, so the
/// header still closes even though the line does not end with `]`.
#[test]
fn a_section_header_may_be_followed_by_a_comment() {
    assert_eq!(
        as_header(&classify(line("[s] ; c"), None, &with_inline(&[";", "#"]))),
        ("s".to_string(), 1..2)
    );
    assert_eq!(
        as_header(&classify(line("[s] # c"), None, &with_inline(&[";", "#"]))),
        ("s".to_string(), 1..2)
    );
}

#[test]
fn a_bracket_in_a_section_name_can_be_rejected() {
    let options = Options {
        allow_brackets_in_section_name: false,
        ..Options::default()
    }
    .compile()
    .unwrap();
    let (kind, span) = as_malformed(&classify(line("[a]b]"), None, &options));
    assert_eq!(kind, ProblemKind::InvalidSectionName);
    assert_eq!(span, 1..4, "the span covers the name, not the whole line");
}

#[test]
fn an_unclosed_section_header_is_malformed() {
    let (kind, span) = as_malformed(&classify(line("  [section  "), None, &defaults()));
    assert_eq!(kind, ProblemKind::SectionNotClosed);
    assert_eq!(span, 2..10);
}

/// `[]` is a header with nothing in it, which used to be accepted as a section whose
/// name is the empty string.
#[test]
fn an_empty_section_name_is_malformed() {
    let (kind, span) = as_malformed(&classify(line("[]"), None, &defaults()));
    assert_eq!(kind, ProblemKind::EmptySectionName);
    assert_eq!(span, 0..2);
}

/// A single `]` never opens a header, so it is an ordinary line.
#[test]
fn a_line_that_does_not_start_with_a_bracket_is_not_a_header() {
    let classified = classify(line("a = [b]"), None, &defaults());
    assert_eq!(as_option(&classified).1, ("[b]".to_string(), 4..7));
}

#[test]
fn an_indented_line_continues_an_open_option() {
    let source = "a = 1\n    more text\n";
    let second = Fragment::lines(source).nth(1).unwrap();
    assert_eq!(
        as_continuation(&classify(second, Some(0), &defaults())),
        ("more text".to_string(), 10..19)
    );
}

/// A continuation is decided before the section-header check, so an indented `[t]`
/// extends the open value instead of opening a section, exactly as in `configparser`.
#[test]
fn a_continuation_beats_a_section_header() {
    assert_eq!(
        as_continuation(&classify(line("  [t]"), Some(0), &defaults())),
        ("[t]".to_string(), 2..5)
    );
    assert_eq!(
        as_header(&classify(line("[t]"), Some(0), &defaults())),
        ("t".to_string(), 1..2)
    );
}

#[test]
fn a_continuation_needs_more_indent_than_its_option() {
    // Equal indent closes the option instead of continuing it.
    let classified = classify(line("    b = 2"), Some(4), &defaults());
    assert_eq!(as_option(&classified).0, ("b".to_string(), 4..5));

    // And a deeper indent continues it even when it looks like an assignment.
    assert_eq!(
        as_continuation(&classify(line("     b = 2"), Some(4), &defaults())),
        ("b = 2".to_string(), 5..10)
    );
}

/// Without an open option there is no baseline, so indentation means nothing.
#[test]
fn indentation_without_an_open_option_is_not_a_continuation() {
    let (kind, _) = as_malformed(&classify(line("    more text"), None, &defaults()));
    assert!(matches!(
        kind,
        ProblemKind::MissingAssignmentDelimiter { .. }
    ));
}

/// The blank check runs first, so an indented empty or comment line never becomes a
/// continuation carrying an empty fragment.
#[test]
fn blankness_is_decided_before_continuation() {
    assert_blank(&classify(line("      "), Some(0), &defaults()));
    assert_blank(&classify(line("      ; note"), Some(0), &defaults()));
}

#[test]
fn a_continuation_is_trimmed_and_comment_stripped() {
    let classified = classify(line("    text  # note"), Some(0), &with_inline(&["#"]));
    assert_eq!(as_continuation(&classified), ("text".to_string(), 4..8));
}

/// Non-ASCII whitespace is a byte count in a span and a character count nowhere, which
/// is the pair of confirmed panics this fixture stands for.
#[test]
fn non_ascii_whitespace_does_not_shift_spans() {
    let source = "\u{a0}\u{3000}café\u{3000}=\u{a0}valeur\u{a0}\u{3000}";
    let classified = classify(line(source), None, &defaults());
    let ((key, key_span), (value, value_span)) = as_option(&classified);
    assert_eq!(key, "café");
    assert_eq!(value, "valeur");
    assert_eq!(source.get(key_span), Some("café"));
    assert_eq!(source.get(value_span), Some("valeur"));
}

#[test]
fn non_ascii_whitespace_counts_as_indent() {
    // U+3000 is three bytes, so this line is indented by three.
    assert_eq!(
        as_continuation(&classify(line("\u{3000}a = 1"), Some(2), &defaults())),
        ("a = 1".to_string(), 3..8)
    );
    assert!(matches!(
        classify(line("\u{3000}a = 1"), Some(3), &defaults()),
        Line::Option { .. }
    ));
}

#[test]
fn a_non_ascii_section_name_keeps_its_bytes() {
    let source = "[größe]";
    let classified = classify(line(source), None, &defaults());
    let (name, span) = as_header(&classified);
    assert_eq!(name, "größe");
    assert_eq!(source.get(span), Some("größe"));
}

/// Every fragment a classified line carries must still slice out of the source it came
/// from.
#[test]
fn every_fragment_agrees_with_the_source() {
    let source = "[s]\na = 1\n    continued\n; comment\n\u{a0}b\u{3000}:\u{a0}2 # note\n[ t ]\nbroken\n[unclosed\n[]\n= 3\n";
    let options = with_inline(&["#"]);
    let mut checked = 0usize;
    for fragment in Fragment::lines(source) {
        let mut check = |part: Fragment<'_>| {
            assert_eq!(part.span().slice(source), Some(part.text()));
            checked += 1;
        };
        match classify(fragment, Some(0), &options) {
            Line::Blank | Line::Malformed { .. } => {}
            Line::SectionHeader(name) | Line::Continuation(name) => check(name),
            Line::Option { key, value } => {
                check(key);
                check(value);
            }
        }
    }
    assert!(checked > 0, "the fixture must classify something");
}

/// Malformed lines are values, not errors: one line's problem says nothing about the
/// next, so the parser recovers by skipping.
#[test]
fn several_malformed_lines_are_all_reported() {
    let source = "[unclosed\n= 3\nbroken\n[]\n";
    let kinds: Vec<ProblemKind> = Fragment::lines(source)
        .filter_map(|fragment| match classify(fragment, None, &defaults()) {
            Line::Malformed { kind, .. } => Some(kind),
            _ => None,
        })
        .collect();
    assert_eq!(kinds.len(), 4);
    assert_eq!(kinds.first(), Some(&ProblemKind::SectionNotClosed));
    assert_eq!(kinds.get(1), Some(&ProblemKind::EmptyOptionName));
    assert!(matches!(
        kinds.get(2),
        Some(ProblemKind::MissingAssignmentDelimiter { .. })
    ));
    assert_eq!(kinds.get(3), Some(&ProblemKind::EmptySectionName));
}

/// A delimiter surrounded by multi-byte text splits on byte offsets that stay on `char`
/// boundaries, which the old character-count arithmetic did not.
#[test]
fn a_delimiter_between_multi_byte_characters() {
    let classified = classify(line("é=é"), None, &defaults());
    assert_eq!(
        as_option(&classified),
        (("é".to_string(), 0..2), ("é".to_string(), 3..5))
    );
}

/// `classify` is total: every line of every shape yields a `Line`, never a panic. The
/// three confirmed panics of the old lexer all lived on inputs of this kind.
#[test]
fn classification_is_total() {
    let sources = [
        " ",
        "\t",
        "[",
        "]",
        "[]",
        "[[]]",
        "[]]",
        "]a[",
        "=",
        "==",
        ":=",
        "=:",
        "#",
        ";",
        "##",
        "a",
        "a=",
        "=a",
        "a==b",
        "a = = b",
        "[a",
        "a]",
        "[a]b",
        "[ ]",
        "[\t]",
        "\u{a0}",
        "é",
        "é=é",
        "[é",
        "é]",
        "[é]",
        "\u{3000}=\u{a0}",
        "a#=b",
        "a # = b",
        "# a = b",
        "; [s]",
        "  [t]",
        "\u{a0}[\u{3000}]\u{a0}",
        "----",
        "a=b#c",
        "a=#",
    ];
    let option_sets = [
        defaults(),
        with_inline(&["#", ";"]),
        Options {
            assignment_delimiters: vec![":=".to_string()],
            comment_prefixes: vec!["----".to_string()],
            inline_comment_prefixes: vec!["#".to_string()],
            allow_brackets_in_section_name: false,
            ..Options::default()
        }
        .compile()
        .unwrap(),
    ];
    for source in sources {
        for baseline in [None, Some(0), Some(1), Some(usize::MAX)] {
            for options in &option_sets {
                let classified = classify(line(source), baseline, options);
                // Whatever it decided, the fragments it kept must still be real text.
                match classified {
                    Line::Blank | Line::Malformed { .. } => {}
                    Line::SectionHeader(part) | Line::Continuation(part) => {
                        assert_eq!(part.span().slice(source), Some(part.text()));
                    }
                    Line::Option { key, value } => {
                        assert_eq!(key.span().slice(source), Some(key.text()));
                        assert_eq!(value.span().slice(source), Some(value.text()));
                    }
                }
            }
        }
    }
}
