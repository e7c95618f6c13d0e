//! Line-exclusion patterns: regular expressions tested against single lines.

use regex::Regex;
use vstd::prelude::*;

verus! {

/// The `regex` crate's compiled regular expression, carried as an opaque value.
#[verifier::external_type_specification]
#[verifier::external_body]
pub struct ExRegex(regex::Regex);

/// The `regex` crate's compilation error, carried as an opaque value.
#[verifier::external_type_specification]
#[verifier::external_body]
pub struct ExRegexError(regex::Error);

/// The pattern text that a compiled expression stands for: for an expression
/// made by `Regex::new`, the text it was made from.
pub uninterp spec fn regex_source(re: Regex) -> Seq<char>;

/// Whether `Regex::new` compiles the pattern text: the text is a well-formed
/// pattern, and its compiled program stays within the size limit of the
/// `regex` crate.
pub uninterp spec fn regex_accepts(pattern: Seq<char>) -> bool;

/// Whether the expression compiled from `pattern` finds a match anywhere in
/// `haystack`: what `Regex::is_match` returns.
pub uninterp spec fn regex_is_match(pattern: Seq<char>, haystack: Seq<char>) -> bool;

/// `Regex::new` compiles a pattern text or returns an error; which of the
/// two depends on the text alone. The compiled expression is the one of that
/// text.
pub assume_specification[ Regex::new ](re: &str) -> (res: Result<Regex, regex::Error>)
    ensures
        res is Ok <==> regex_accepts(re@),
        res matches Ok(compiled) ==> regex_source(compiled) == re@,
;

/// `Regex::is_match` tells whether the expression matches anywhere in the
/// haystack; its answer depends on the pattern text and the haystack alone.
pub assume_specification[ Regex::is_match ](re: &Regex, haystack: &str) -> (found: bool)
    ensures
        found == regex_is_match(regex_source(*re), haystack@),
;

/// Whether any of the compiled patterns matches somewhere in `line`.
pub open spec fn any_pattern_matches(patterns: Seq<Regex>, line: Seq<char>) -> bool {
    exists|i: int| 0 <= i < patterns.len() && regex_is_match(regex_source(#[trigger] patterns[i]), line)
}

/// Tests `line` against each pattern in turn.
pub fn matches_any(patterns: &Vec<Regex>, line: &str) -> (found: bool)
    ensures
        found == any_pattern_matches(patterns@, line@),
{
    let mut i: usize = 0;
    while i < patterns.len()
        invariant
            i <= patterns.len(),
            forall|j: int| 0 <= j < i ==> !regex_is_match(regex_source(#[trigger] patterns@[j]), line@),
        decreases patterns.len() - i,
    {
        if patterns[i].is_match(line) {
            return true;
        }
        i += 1;
    }
    false
}

} // verus!
