//! Regular-expression search, done by the `regex` crate.
//!
//! What a pattern matches is not worked out here. The results of the
//! crate's functions are given names, and the functions below state that
//! they return what those names stand for.

use vstd::prelude::*;

verus! {

/// The groups of one match: the text that each capture group took, group 0
/// being the whole match, and `None` for a group that took no part.
pub type Groups = Seq<Option<Seq<char>>>;

/// Whether `part` stands somewhere in `whole`, as one piece.
pub open spec fn is_part_of(part: Seq<char>, whole: Seq<char>) -> bool {
    exists|at: int|
        0 <= at && at + part.len() <= whole.len() && #[trigger] whole.subrange(
            at,
            at + part.len(),
        ) == part
}

/// Whether the text of every group of every match is a part of `haystack`.
pub open spec fn groups_within(matches: Seq<Groups>, haystack: Seq<char>) -> bool {
    forall|i: int, j: int|
        0 <= i < matches.len() && 0 <= j < matches[i].len() && (#[trigger] matches[i][j]) is Some
            ==> is_part_of(matches[i][j]->0, haystack)
}

/// The successive non-overlapping matches in `haystack` of the expression
/// that `Regex::new` makes of `pattern`, as `Regex::captures_iter` yields
/// them, each with its groups; `None` where `Regex::new` refuses `pattern`.
pub uninterp spec fn regex_captures(pattern: Seq<char>, haystack: Seq<char>) -> Option<Seq<Groups>>;

/// `haystack` with every non-overlapping match of the expression that
/// `Regex::new` makes of `pattern` replaced by the expansion of `template`,
/// as `Regex::replace_all` returns it; `None` where `Regex::new` refuses
/// `pattern`.
pub uninterp spec fn regex_replaced(
    pattern: Seq<char>,
    haystack: Seq<char>,
    template: Seq<char>,
) -> Option<Seq<char>>;

/// Compiles `pattern` with `Regex::new`, calls `Regex::captures_iter` on
/// `haystack` and copies out, for every match, the text of each group. The
/// result is a function of the pattern and the haystack; it is `None` where
/// the pattern is refused. The text of a group is a part of the haystack:
/// a `Match` is a range of the haystack, and `Match::as_str` is the
/// haystack in that range.
#[verifier::external_body]
pub(crate) fn captures(pattern: &str, haystack: &str) -> (found: Option<Vec<Vec<Option<String>>>>)
    ensures
        found.deep_view() == regex_captures(pattern@, haystack@),
        found matches Some(all) ==> groups_within(all.deep_view(), haystack@),
{
    let re = regex::Regex::new(pattern).ok()?;
    Some(
        re.captures_iter(haystack)
            .map(|caps| caps.iter().map(|group| group.map(|m| m.as_str().to_string())).collect())
            .collect(),
    )
}

/// Compiles `pattern` with `Regex::new` and calls `Regex::replace_all` on
/// `haystack` with the template string. The result is a function of the
/// pattern, the haystack and the template; it is `None` where the pattern
/// is refused.
#[verifier::external_body]
pub(crate) fn replace_matches(pattern: &str, haystack: &str, template: &str) -> (out: Option<String>)
    ensures
        out.deep_view() == regex_replaced(pattern@, haystack@, template@),
{
    let re = regex::Regex::new(pattern).ok()?;
    Some(re.replace_all(haystack, template).into_owned())
}

} // verus!
