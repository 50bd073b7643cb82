use vstd::prelude::*;

use fuzzy_matcher::skim::SkimMatcherV2;
use fuzzy_matcher::FuzzyMatcher;

verus! {

#[verifier::external_type_specification]
#[verifier::external_body]
pub struct ExSkimMatcherV2(SkimMatcherV2);

/// The score that the skim fuzzy matcher, with its default configuration,
/// gives to `pattern` against `choice`; `None` where `pattern` does not match.
pub uninterp spec fn skim_score(choice: Seq<char>, pattern: Seq<char>) -> Option<i64>;

/// Relies on `SkimMatcherV2::default`: a matcher with the default scoring
/// configuration and smart case matching.
#[verifier::external_body]
fn default_matcher() -> SkimMatcherV2 {
    SkimMatcherV2::default()
}

/// Relies on `FuzzyMatcher::fuzzy_match` of `SkimMatcherV2`: with the default
/// configuration the result depends on the two strings alone, and an empty
/// pattern scores 0.
#[verifier::external_body]
fn skim_match(matcher: &SkimMatcherV2, choice: &str, pattern: &str) -> (r: Option<i64>)
    ensures
        r == skim_score(choice@, pattern@),
        pattern@.len() == 0 ==> r == Some(0i64),
{
    matcher.fuzzy_match(choice, pattern)
}

/// The score by which a record is ranked: its fuzzy score, or 0 where the
/// query does not match.
pub open spec fn rank_key(score: Option<i64>) -> i64 {
    match score {
        Some(s) => s,
        None => 0,
    }
}

/// An immutable fuzzy scorer, safe to share between searches.
pub struct Scorer {
    matcher: SkimMatcherV2,
}

impl Scorer {
    /// A scorer with the default matching configuration.
    pub fn new() -> (r: Scorer) {
        Scorer { matcher: default_matcher() }
    }

    /// The fuzzy score of `query` against `candidate`, or `None` where the
    /// query does not match.
    pub fn score(&self, candidate: &str, query: &str) -> (r: Option<i64>)
        ensures
            r == skim_score(candidate@, query@),
            query@.len() == 0 ==> r == Some(0i64),
    {
        skim_match(&self.matcher, candidate, query)
    }

    /// The fuzzy score of `query` against `candidate`, 0 where it does not
    /// match.
    pub fn scalar_fuzzy_score(&self, candidate: &str, query: &str) -> (r: i64)
        ensures
            r == rank_key(skim_score(candidate@, query@)),
    {
        match self.score(candidate, query) {
            Some(s) => s,
            None => 0,
        }
    }
}

} // verus!
