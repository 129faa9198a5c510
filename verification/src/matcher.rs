//! Multi-pattern search over the bytes of a line, done by `aho-corasick` with
//! leftmost-first semantics: the earliest position in the haystack wins, and among the
//! patterns that match there, the one listed first wins.

use aho_corasick::{AhoCorasick, AhoCorasickBuilder, BuildError, Input, MatchKind};
use vstd::prelude::*;
use vstd::string::*;
use vstd::utf8::*;

verus! {

#[verifier::external_type_specification]
#[verifier::external_body]
pub struct ExAhoCorasick(AhoCorasick);

#[verifier::external_type_specification]
#[verifier::external_body]
pub struct ExBuildError(BuildError);

/// The patterns a matcher was built from, in the order they were listed.
pub uninterp spec fn matcher_patterns(m: AhoCorasick) -> Seq<Seq<u8>>;

/// Whether a matcher was built with leftmost-first match semantics.
pub uninterp spec fn matcher_is_leftmost_first(m: AhoCorasick) -> bool;

/// Whether `aho-corasick` can build a leftmost-first matcher for these patterns; it refuses
/// only when the automaton would outgrow its internal identifier space.
pub uninterp spec fn matcher_builds(patterns: Seq<Seq<u8>>) -> bool;

/// The UTF-8 bytes of each string in `strings`.
pub open spec fn pattern_bytes(strings: Seq<String>) -> Seq<Seq<u8>> {
    strings.map_values(|s: String| encode_utf8(s@))
}

/// No pattern is the empty byte string.
pub open spec fn no_empty_pattern(patterns: Seq<Seq<u8>>) -> bool {
    forall|i: int| 0 <= i < patterns.len() ==> #[trigger] patterns[i].len() > 0
}

/// `pattern` occurs in `haystack` starting at byte `at`.
pub open spec fn occurs_at(pattern: Seq<u8>, haystack: Seq<u8>, at: int) -> bool {
    &&& 0 <= at
    &&& at + pattern.len() <= haystack.len()
    &&& haystack.subrange(at, at + pattern.len()) == pattern
}

/// The index of the first pattern, from `i` on, that occurs at `at`.
pub open spec fn first_pattern_at(patterns: Seq<Seq<u8>>, haystack: Seq<u8>, at: int, i: int) -> Option<int>
    decreases patterns.len() - i,
{
    if i < 0 || i >= patterns.len() {
        None
    } else if occurs_at(patterns[i], haystack, at) {
        Some(i)
    } else {
        first_pattern_at(patterns, haystack, at, i + 1)
    }
}

/// The leftmost-first match at or after byte `from`: the smallest position at which some
/// pattern occurs, paired with the first listed pattern that occurs there.
pub open spec fn leftmost_first(patterns: Seq<Seq<u8>>, haystack: Seq<u8>, from: int) -> Option<(int, int)>
    decreases haystack.len() + 1 - from,
{
    if from < 0 || from > haystack.len() {
        None
    } else {
        match first_pattern_at(patterns, haystack, from, 0) {
            Some(i) => Some((from, i)),
            None => leftmost_first(patterns, haystack, from + 1),
        }
    }
}

pub proof fn lemma_first_pattern_at(patterns: Seq<Seq<u8>>, haystack: Seq<u8>, at: int, i: int)
    ensures
        first_pattern_at(patterns, haystack, at, i) matches Some(k) ==> {
            &&& i <= k < patterns.len()
            &&& 0 <= k
            &&& occurs_at(patterns[k], haystack, at)
            &&& forall|j: int| i <= j < k ==> !occurs_at(#[trigger] patterns[j], haystack, at)
        },
        0 <= i && first_pattern_at(patterns, haystack, at, i) is None ==> forall|j: int|
            i <= j < patterns.len() ==> !occurs_at(#[trigger] patterns[j], haystack, at),
    decreases patterns.len() - i,
{
    if i < 0 || i >= patterns.len() {
    } else if occurs_at(patterns[i], haystack, at) {
    } else {
        lemma_first_pattern_at(patterns, haystack, at, i + 1);
    }
}

/// What a leftmost-first match is: a pattern occurs there, and nothing matches earlier.
pub proof fn lemma_leftmost_first(patterns: Seq<Seq<u8>>, haystack: Seq<u8>, from: int)
    ensures
        leftmost_first(patterns, haystack, from) matches Some((s, k)) ==> {
            &&& from <= s <= haystack.len()
            &&& 0 <= k < patterns.len()
            &&& occurs_at(patterns[k], haystack, s)
            &&& forall|j: int| 0 <= j < k ==> !occurs_at(#[trigger] patterns[j], haystack, s)
        },
    decreases haystack.len() + 1 - from,
{
    if from < 0 || from > haystack.len() {
    } else {
        lemma_first_pattern_at(patterns, haystack, from, 0);
        match first_pattern_at(patterns, haystack, from, 0) {
            Some(i) => {},
            None => lemma_leftmost_first(patterns, haystack, from + 1),
        }
    }
}

/// `AhoCorasickBuilder::new().match_kind(MatchKind::LeftmostFirst).build(patterns)`.
///
/// Claims that the build succeeds exactly when [`matcher_builds`] holds of the patterns'
/// bytes, and that the matcher it returns searches for those patterns, in that order, with
/// leftmost-first semantics.
#[verifier::external_body]
pub(crate) fn build_leftmost_first(patterns: &Vec<String>) -> (res: Result<AhoCorasick, BuildError>)
    ensures
        res is Ok <==> matcher_builds(pattern_bytes(patterns@)),
        res matches Ok(m) ==> matcher_patterns(m) == pattern_bytes(patterns@),
        res matches Ok(m) ==> matcher_is_leftmost_first(m),
{
    AhoCorasickBuilder::new().match_kind(MatchKind::LeftmostFirst).build(patterns)
}

/// `AhoCorasick::find` over `Input::new(haystack).range(from..)`, returning the match's
/// start, end and pattern index.
///
/// Claims, for a leftmost-first matcher with no empty pattern, that the match is exactly
/// [`leftmost_first`] from `from`, and that it ends where its pattern does. A search of the
/// range `from..` sees no byte before `from`, which `aho-corasick` never looks behind.
#[verifier::external_body]
pub(crate) fn find_from(m: &AhoCorasick, haystack: &[u8], from: usize) -> (res: Option<(usize, usize, usize)>)
    requires
        from <= haystack@.len(),
    ensures
        matcher_is_leftmost_first(*m) && no_empty_pattern(matcher_patterns(*m)) ==> match res {
            Some((s, e, k)) => {
                &&& leftmost_first(matcher_patterns(*m), haystack@, from as int) == Some((s as int, k as int))
                &&& e == s + matcher_patterns(*m)[k as int].len()
            },
            None => leftmost_first(matcher_patterns(*m), haystack@, from as int) is None,
        },
{
    m.find(Input::new(haystack).range(from..)).map(|found| (found.start(), found.end(), found.pattern().as_usize()))
}

/// The leftmost-first match of `m`'s patterns in `haystack` at or after `from`, with the
/// facts about it that the caller reasons with.
pub fn search(m: &AhoCorasick, haystack: &[u8], from: usize) -> (res: Option<(usize, usize, usize)>)
    requires
        from <= haystack@.len(),
        matcher_is_leftmost_first(*m),
        no_empty_pattern(matcher_patterns(*m)),
    ensures
        res matches Some((s, e, k)) ==> {
            &&& leftmost_first(matcher_patterns(*m), haystack@, from as int) == Some((s as int, k as int))
            &&& from <= s < e <= haystack@.len()
            &&& k < matcher_patterns(*m).len()
            &&& e == s + matcher_patterns(*m)[k as int].len()
            &&& haystack@.subrange(s as int, e as int) == matcher_patterns(*m)[k as int]
        },
        res is None ==> leftmost_first(matcher_patterns(*m), haystack@, from as int) is None,
{
    let res = find_from(m, haystack, from);
    proof {
        lemma_leftmost_first(matcher_patterns(*m), haystack@, from as int);
    }
    res
}

} // verus!
