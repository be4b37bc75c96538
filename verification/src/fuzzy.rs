//! Fuzzy scoring of a pattern against a text.
use vstd::prelude::*;
use fuzzy_matcher::skim::SkimMatcherV2;
use fuzzy_matcher::FuzzyMatcher;

verus! {

/// The score that skim's V2 matcher, in its default configuration, gives
/// `pattern` against `choice`; `None` when the pattern does not match.
pub uninterp spec fn skim_score(choice: Seq<char>, pattern: Seq<char>) -> Option<i64>;

/// `SkimMatcherV2::default().fuzzy_match(choice, pattern)` of fuzzy-matcher.
/// Claimed: its result depends on the two texts alone (the matcher's caches
/// do not change it), so it is named `skim_score`; nothing more is stated of
/// the scoring itself.
#[verifier::external_body]
pub(crate) fn fuzzy_score(choice: &str, pattern: &str) -> (r: Option<i64>)
    ensures
        r == skim_score(choice@, pattern@),
{
    SkimMatcherV2::default().fuzzy_match(choice, pattern)
}

} // verus!
