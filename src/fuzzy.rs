//! Fuzzy matching of a search term against a context label.
use fuzzy_matcher::skim::SkimMatcherV2;
use fuzzy_matcher::FuzzyMatcher;
use vstd::prelude::*;

verus! {

/// Whether the skim fuzzy matcher finds `term` in `context`.
pub uninterp spec fn fuzzy_matches(context: Seq<char>, term: Seq<char>) -> bool;

/// Relies on `SkimMatcherV2::fuzzy_match` (default settings): it returns a
/// score, rather than `None`, exactly when `term` matches inside `context`;
/// an empty term always gets a score.
#[verifier::external_body]
pub(crate) fn term_matches(context: &str, term: &str) -> (r: bool)
    ensures
        r == fuzzy_matches(context@, term@),
        term@.len() == 0 ==> r,
{
    SkimMatcherV2::default().fuzzy_match(context, term).is_some()
}

} // verus!
