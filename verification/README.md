# serde_ini_spanned

Reads INI / Python-`configparser`-style configuration text and remembers the byte span
every section name, option name and value was read from. The library is written in Verus:
public functions state what they return in their contracts, and Verus proves the code
against them. The one exception is `Problem::to_diagnostic`, whose result is a generic
`codespan-reporting` type nothing can be stated of; everything it says is stated by
`Problem::diagnostic_parts`, of which it is a conversion.

## Layout

- `src/text.rs`: UTF-8 facts (character boundaries, whitespace) the rest reasons with.
- `src/span.rs`: `Span` and `Spanned`.
- `src/fragment.rs`: slices of the source that know their span; splitting into lines.
- `src/matcher.rs`: the leftmost-first pattern search, through `aho-corasick`.
- `src/options.rs`: parsing preferences and their compiled matchers.
- `src/lexer.rs`: classifying one line.
- `src/problem.rs`: problems, severities, messages and `codespan-reporting` diagnostics.
- `src/index_map.rs`: the insertion-ordered maps of `indexmap` the document is kept in.
- `src/ini.rs`: the document model: `Entry`, `Section`, `SectionView`, `Ini`.
- `src/parse.rs`: the fold from lines to a document, and `parse`.
- `app/lib.rs`: reading from an `io::Read`, the floating-point accessor, and copies of the
  error types that carry `Display` and `std::error::Error`.

The laws the library keeps are public proof functions beside the code they speak of
(`law_*`), or clauses of the functions' own contracts, such as `parse` stating that every
span it produced resolves in the source it keeps.
