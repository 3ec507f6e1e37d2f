//! Regular expressions. Matching is done by the `regex` crate; this module
//! holds the three calls into it and the names by which contracts speak of
//! what they return.

use vstd::prelude::*;

verus! {

/// The groups of one match: the whole match first; a group that took no
/// part in the match is `None`.
pub type Groups = Seq<Option<Seq<char>>>;

/// The text of group `i`, where the match has such a group and it took part.
pub open spec fn group_text(groups: Groups, i: int) -> Option<Seq<char>> {
    if 0 <= i < groups.len() {
        groups[i]
    } else {
        None
    }
}

/// What `regex::Regex::new(pattern)` followed by `Regex::is_match(text)`
/// gives: `None` where the pattern is refused, else whether it matches
/// somewhere in `text`.
pub uninterp spec fn regex_is_match(pattern: Seq<char>, text: Seq<char>) -> Option<bool>;

/// What `regex::Regex::new(pattern)` followed by `Regex::captures(text)`
/// gives: `None` where the pattern is refused or matches nowhere, else the
/// capture groups of the leftmost match, group 0 (the whole match) first, a
/// group that took no part in the match being `None`.
pub uninterp spec fn regex_captures(pattern: Seq<char>, text: Seq<char>) -> Option<
    Seq<Option<Seq<char>>>,
>;

/// What `regex::Regex::new(pattern)` followed by `Regex::captures_iter(text)`
/// gives: `None` where the pattern is refused, else the capture groups of
/// each of the successive non-overlapping matches, in the order in which they
/// are found.
pub uninterp spec fn regex_captures_iter(pattern: Seq<char>, text: Seq<char>) -> Option<
    Seq<Seq<Option<Seq<char>>>>,
>;

/// Compiles `pattern` with `regex::Regex::new` and asks `Regex::is_match`
/// whether it matches somewhere in `text`. Nothing is claimed of the answer
/// but that it depends on the two texts alone.
#[verifier::external_body]
pub(crate) fn is_match(pattern: &str, text: &str) -> (answer: Option<bool>)
    ensures
        answer == regex_is_match(pattern@, text@),
{
    match regex::Regex::new(pattern) {
        Ok(re) => Some(re.is_match(text)),
        Err(_) => None,
    }
}

/// Compiles `pattern` with `regex::Regex::new` and hands out the groups that
/// `Regex::captures` finds in `text`, each as an owned string. Nothing is
/// claimed of them but that they depend on the two texts alone.
#[verifier::external_body]
pub(crate) fn captures(pattern: &str, text: &str) -> (groups: Option<Vec<Option<String>>>)
    ensures
        groups.deep_view() == regex_captures(pattern@, text@),
{
    let re = regex::Regex::new(pattern).ok()?;
    let found = re.captures(text)?;
    Some(found.iter().map(|group| group.map(|m| m.as_str().to_string())).collect())
}

/// Compiles `pattern` with `regex::Regex::new` and hands out the groups of
/// every match that `Regex::captures_iter` yields on `text`, each as an owned
/// string. Nothing is claimed of them but that they depend on the two texts
/// alone.
#[verifier::external_body]
pub(crate) fn captures_iter(pattern: &str, text: &str) -> (matches: Option<
    Vec<Vec<Option<String>>>,
>)
    ensures
        matches.deep_view() == regex_captures_iter(pattern@, text@),
{
    let re = regex::Regex::new(pattern).ok()?;
    Some(
        re.captures_iter(text).map(
            |found| found.iter().map(|group| group.map(|m| m.as_str().to_string())).collect(),
        ).collect(),
    )
}

} // verus!
