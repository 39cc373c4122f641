//! Searching a text for a pattern, by the `regex` crate.
//!
//! What a pattern matches is the crate's to say: this module only names the
//! answer. Nothing here is proved; the rest of the library is proved from
//! what this module states.

use vstd::prelude::*;

verus! {

/// `regex::Error`, the reason why a pattern was refused. Nothing is known of
/// a value of it.
#[verifier::external_type_specification]
#[verifier::external_body]
pub struct ExRegexError(regex::Error);

/// Whether `regex::Regex::new` accepts `pattern`.
pub uninterp spec fn regex_accepts(pattern: Seq<char>) -> bool;

/// What `regex::Regex::captures_iter` finds of `pattern` in `haystack`: the
/// groups of each match, from the first match on, where each match begins
/// at or after the end of the one before. The groups of a match are pairs
/// of byte offsets into `haystack`, one for each group that took part in
/// the match.
pub uninterp spec fn regex_all_captures(pattern: Seq<char>, haystack: Seq<char>) -> Seq<
    Seq<Option<(usize, usize)>>,
>;

/// Compiles `pattern` with `regex::Regex::new`, once, and searches each of
/// `haystacks` with `regex::Regex::captures_iter`.
///
/// Claimed of the crate: that whether it accepts a pattern depends on the
/// pattern alone, and what it finds in a haystack on the pattern and that
/// haystack alone. The groups of each match are handed out in the order of
/// `Captures::iter`, each as the `start` and the `end` of its `Match`.
#[verifier::external_body]
pub(crate) fn search_all(pattern: &str, haystacks: &Vec<String>) -> (found: Result<
    Vec<Vec<Vec<Option<(usize, usize)>>>>,
    regex::Error,
>)
    ensures
        found is Ok == regex_accepts(pattern@),
        found matches Ok(all) ==> all.deep_view() == Seq::new(
            haystacks.len() as nat,
            |i: int| regex_all_captures(pattern@, haystacks[i]@),
        ),
{
    let re = regex::Regex::new(pattern)?;
    let groups = |caps: regex::Captures| caps.iter().map(|g| g.map(|m| (m.start(), m.end()))).collect();
    Ok(haystacks.iter().map(|h| re.captures_iter(h).map(groups).collect()).collect())
}

} // verus!
