//! Trusted interface to the `regex` crate.
//!
//! A compiled pattern is an opaque value; what it matches is named by
//! uninterpreted functions of the pattern text and the haystack, so that
//! the state-machine logic above can be verified against those names.

use vstd::prelude::*;

verus! {

#[verifier::external_type_specification]
#[verifier::external_body]
pub struct ExRegexSet(regex::RegexSet);

#[verifier::external_type_specification]
#[verifier::external_body]
pub struct ExRegex(regex::Regex);

/// The pattern texts a `RegexSet` was built from, in order.
pub uninterp spec fn regex_set_patterns(s: regex::RegexSet) -> Seq<Seq<char>>;

/// Whether this list of patterns compiles as a set.
pub uninterp spec fn regex_set_compiles(patterns: Seq<Seq<char>>) -> bool;

/// The indices of the patterns that match `line`, in ascending order.
pub uninterp spec fn regex_match_indices(patterns: Seq<Seq<char>>, line: Seq<char>) -> Seq<int>;

/// The pattern text a `Regex` was built from.
pub uninterp spec fn regex_pattern(re: regex::Regex) -> Seq<char>;

/// Whether a single pattern compiles.
pub uninterp spec fn regex_compiles(pattern: Seq<char>) -> bool;

/// What the named capture group `group` of `pattern` captures on `line`,
/// if the pattern matches and the group participates in the match.
pub uninterp spec fn regex_capture_group(
    pattern: Seq<char>,
    line: Seq<char>,
    group: Seq<char>,
) -> Option<Seq<char>>;

/// Relies on `regex::RegexSet::new`: building a set succeeds or fails
/// depending on the pattern texts alone, and the built set holds exactly
/// those patterns in order.
#[verifier::external_body]
pub fn regex_set_new(patterns: &Vec<String>) -> (r: Result<regex::RegexSet, String>)
    ensures
        r matches Ok(s) ==> regex_set_patterns(s) == patterns.deep_view() && regex_set_compiles(
            patterns.deep_view(),
        ),
        r is Err ==> !regex_set_compiles(patterns.deep_view()),
{
    regex::RegexSet::new(patterns).map_err(|e| e.to_string())
}

/// Relies on `regex::RegexSet::matches` and `regex::SetMatches`'s
/// iterator: the indices of the matching patterns come out in ascending
/// order, and each is an index into the set's pattern list.
#[verifier::external_body]
pub fn regex_set_matched_indices(s: &regex::RegexSet, line: &str) -> (r: Vec<usize>)
    ensures
        r@.map_values(|u: usize| u as int) == regex_match_indices(regex_set_patterns(*s), line@),
        forall|j: int|
            0 <= j < r@.len() ==> (#[trigger] r@[j] as int) < regex_set_patterns(*s).len(),
        forall|j: int| 0 <= j + 1 < r@.len() ==> #[trigger] r@[j] < r@[j + 1],
{
    s.matches(line).into_iter().collect()
}

/// Relies on `regex::RegexSet::is_match`: true exactly when at least one
/// pattern of the set matches the haystack.
#[verifier::external_body]
pub fn regex_set_is_match(s: &regex::RegexSet, line: &str) -> (r: bool)
    ensures
        r == (regex_match_indices(regex_set_patterns(*s), line@).len() != 0),
{
    s.is_match(line)
}

/// Relies on `regex::Regex::new`: compiling succeeds or fails depending on
/// the pattern text alone, and the compiled value holds that pattern.
#[verifier::external_body]
pub fn regex_new(pattern: &str) -> (r: Result<regex::Regex, String>)
    ensures
        r matches Ok(re) ==> regex_pattern(re) == pattern@ && regex_compiles(pattern@),
        r is Err ==> !regex_compiles(pattern@),
{
    regex::Regex::new(pattern).map_err(|e| e.to_string())
}

/// Relies on `regex::Regex::captures`, `regex::Captures::name` and
/// `regex::Match::as_str`: extracting a named capture group depends on the
/// pattern, the haystack and the group name alone.
#[verifier::external_body]
pub fn regex_capture_named(re: &regex::Regex, line: &str, group: &str) -> (r: Option<String>)
    ensures
        match r {
            Some(v) => regex_capture_group(regex_pattern(*re), line@, group@) == Some(v@),
            None => regex_capture_group(regex_pattern(*re), line@, group@) is None,
        },
{
    re.captures(line).and_then(|caps| caps.name(group)).map(|m| m.as_str().to_string())
}

} // verus!
