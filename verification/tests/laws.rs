//! The library's laws, each checked on concrete values.

use serde_ini_spanned::fragment::Fragment;
use serde_ini_spanned::{parse, Entry, Ini, Options, ProblemKind, Section, Severity, Span, Spanned};

fn at(start: usize, text: &str) -> Spanned<String> {
    Spanned::from_source(Span::new(start, text.len()), text.to_string())
}

const DUPLICATED: &str = "k = 0\n[s]\na = 1\nA = 2\n[s]\nb = 3\n[DEFAULT]\nd = 4\n[DEFAULT]\nbroken\n";

/// Strictness changes how severe the duplicates are, and nothing else.
#[test]
fn strictness_changes_only_severity() {
    let lax = parse(DUPLICATED, &Options::default()).unwrap();
    let strict = parse(DUPLICATED, &Options { strict: true, ..Options::default() }).unwrap();

    assert_eq!(lax.ini(), strict.ini());
    assert_eq!(lax.problems().len(), strict.problems().len());
    assert_eq!(lax.problems().len(), 5);
    for (a, b) in lax.problems().iter().zip(strict.problems()) {
        assert_eq!(a.kind, b.kind);
        assert_eq!(a.span, b.span);
    }
    let lax_severities: Vec<Severity> = lax.problems().iter().map(|p| p.severity).collect();
    let strict_severities: Vec<Severity> = strict.problems().iter().map(|p| p.severity).collect();
    assert_eq!(
        lax_severities,
        vec![Severity::Error, Severity::Warning, Severity::Warning, Severity::Warning, Severity::Error]
    );
    assert_eq!(strict_severities, vec![Severity::Error; 5]);
}

/// Every problem has the severity its kind has under the caller's strictness.
#[test]
fn severity_follows_kind() {
    for strict in [false, true] {
        let parsed = parse(DUPLICATED, &Options { strict, ..Options::default() }).unwrap();
        for problem in parsed.problems() {
            assert_eq!(problem.severity, problem.kind.severity(strict));
        }
    }
}

/// Every span a parse produces resolves in its own source, and headers and keys cover
/// exactly their names.
#[test]
fn every_span_of_a_parse_resolves() {
    let source = "\u{a0}x = 1\n[café]\nKey\u{3000}= v\u{a0}\n  more\n[café]\nkey = w\n[]\n";
    let parsed = parse(source, &Options::default()).unwrap();
    let view = parsed.ini().section("café").unwrap();
    assert_eq!(view.header_span().and_then(|span| parsed.text(span)), Some("café"));
    let entry = view.get("key").unwrap();
    assert_eq!(parsed.text_of(&entry.key), Some("key"));
    assert_eq!(parsed.text_of(&entry.value), Some("w"));
    assert_eq!(parsed.problems().len(), 4);
    for problem in parsed.problems() {
        assert!(parsed.text(problem.span).is_some());
        match &problem.kind {
            ProblemKind::DuplicateOption { previous, .. } | ProblemKind::DuplicateSection { previous, .. } => {
                assert!(previous.and_then(|span| parsed.text(span)).is_some());
            }
            _ => {}
        }
    }
}

/// The lines cover the whole text, each followed by its terminator.
#[test]
fn lines_cover_the_source() {
    let source = "a\r\nb\rc\n\nd";
    let spans: Vec<Span> = Fragment::lines(source).map(Fragment::span).collect();
    assert_eq!(
        spans,
        vec![Span::new(0, 1), Span::new(3, 1), Span::new(5, 1), Span::new(7, 0), Span::new(8, 1)]
    );
    assert!(Fragment::lines("").next().is_none());
}

/// What is written is read back under every spelling of the name; other names are
/// untouched.
#[test]
fn section_get_after_insert() {
    let mut section = Section::from([("other".into(), "x".into())]);
    section.insert(at(0, "Name"), at(7, "v"));
    for probe in ["name", "NAME", "Name"] {
        assert_eq!(section.get(probe), Some(&Entry { key: at(0, "Name"), value: at(7, "v") }));
    }
    assert_eq!(section.get("other").map(Entry::as_str), Some("x"));
}

/// Redefining keeps the place; a new name goes last.
#[test]
fn redefinition_keeps_position() {
    let mut section = Section::from([("a".into(), "1".into()), ("b".into(), "2".into())]);
    section.insert("A".into(), "3".into());
    assert_eq!(section.keys().collect::<Vec<_>>(), vec!["a", "b"]);
    section.insert("c".into(), "4".into());
    assert_eq!(section.keys().collect::<Vec<_>>(), vec!["a", "b", "c"]);
}

/// A removed name finds nothing; the others are untouched.
#[test]
fn section_get_after_remove() {
    let mut section = Section::from([("a".into(), "1".into()), ("b".into(), "2".into())]);
    assert!(section.remove("A").is_some());
    assert!(section.get("a").is_none());
    assert_eq!(section.get("b").map(Entry::as_str), Some("2"));
}

/// `Ini::set` then `Ini::get` finds the new entry, over a default of the same name.
#[test]
fn ini_get_after_set() {
    let mut ini = Ini::default();
    ini.defaults_mut().insert("key".into(), "default".into());
    ini.insert_section("s", Section::default());
    ini.set("s", "KEY".into(), "own".into()).unwrap();
    assert_eq!(ini.get("s", "key").map(Entry::as_str), Some("own"));
}

/// Removing a section's own option uncovers the default.
#[test]
fn removed_option_falls_back_to_default() {
    let mut ini = Ini::default();
    ini.defaults_mut().insert("key".into(), "default".into());
    ini.insert_section("s", Section::from([("key".into(), "own".into())]));
    assert!(ini.remove_option("s", "Key").is_some());
    assert_eq!(ini.get("s", "key").map(Entry::as_str), Some("default"));
    assert!(ini.remove_option("s", "key").is_none());
}

/// Each pair a view yields is what `get` finds for its name.
#[test]
fn view_entries_resolve() {
    let mut ini = Ini::default();
    ini.defaults_mut().insert("shared".into(), "d".into());
    ini.defaults_mut().insert("inherited".into(), "i".into());
    ini.insert_section("s", Section::from([("Shared".into(), "own".into()), ("mine".into(), "m".into())]));
    let view = ini.section("s").unwrap();
    let pairs: Vec<(&str, &str)> = view.iter().map(|(key, entry)| (key, entry.as_str())).collect();
    assert_eq!(pairs, vec![("shared", "own"), ("mine", "m"), ("inherited", "i")]);
    for (key, entry) in view.iter() {
        assert_eq!(view.get(key), Some(entry));
    }
}

/// Every entry and named section of a parse has its spans, and no value ends with
/// whitespace.
#[test]
fn parsed_entries_carry_spans_and_clean_values() {
    let source = "[s]\na = 1 \t\nb =\n  two\u{3000}\n\n  three  \nc:\n[DEFAULT]\nd = x\n";
    let parsed = parse(source, &Options::default()).unwrap();
    let view = parsed.ini().section("s").unwrap();
    assert!(view.header_span().is_some());
    for (_, entry) in view.iter() {
        assert!(entry.key.span.is_some());
        assert!(entry.value.span.is_some());
        assert!(!entry.as_str().ends_with(char::is_whitespace), "{:?}", entry.as_str());
    }
    assert_eq!(view.get("b").map(Entry::as_str), Some("\ntwo\n\nthree"));
    assert_eq!(view.get("c").map(Entry::as_str), Some(""));
}

/// No name is yielded twice through a view, and a name resolves exactly when its
/// normalized form is yielded.
#[test]
fn view_names_are_distinct_and_complete() {
    let mut ini = Ini::default();
    ini.defaults_mut().insert("A".into(), "d".into());
    ini.defaults_mut().insert("b".into(), "d".into());
    ini.insert_section("s", Section::from([("a".into(), "own".into())]));
    let view = ini.section("s").unwrap();
    let keys: Vec<&str> = view.keys().collect();
    assert_eq!(keys, vec!["a", "b"]);
    for probe in ["A", "a", "B", "c"] {
        assert_eq!(view.get(probe).is_some(), keys.contains(&probe.to_lowercase().as_str()));
    }
}
