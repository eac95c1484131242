//! Regular-expression searches, which the `regex` crate performs.
//!
//! The analyses hand a pattern and a text to the crate and get plain strings
//! back. What the crate finds is not restated here: it is given a name, and
//! the contracts of the analyses speak of that name.

use crate::models::opt_text;
use regex::Regex;
use vstd::prelude::*;

verus! {

/// What searching `haystack` for `pattern` finds: nothing, or the text of
/// every capture group of the leftmost match, group 0 being the whole match
/// and a group that took no part in the match being absent. A pattern that
/// the crate rejects finds nothing.
pub uninterp spec fn regex_captures(pattern: Seq<char>, haystack: Seq<char>) -> Option<
    Seq<Option<Seq<char>>>,
>;

/// Whether `pattern` matches anywhere in `haystack`. A pattern that the crate
/// rejects matches nowhere.
pub uninterp spec fn regex_is_match(pattern: Seq<char>, haystack: Seq<char>) -> bool;

/// The texts of the capture groups of a match.
pub open spec fn group_texts(groups: Seq<Option<String>>) -> Seq<Option<Seq<char>>> {
    Seq::new(groups.len(), |i: int| opt_text(groups[i]))
}

/// The texts of the capture groups of a search result.
pub open spec fn found_texts(found: Option<Vec<Option<String>>>) -> Option<Seq<Option<Seq<char>>>> {
    match found {
        Some(groups) => Some(group_texts(groups@)),
        None => None,
    }
}

/// `Regex::new` followed by `Regex::captures`: compiles `pattern` with the
/// crate's default options and searches `haystack` for its leftmost match. The
/// result is a function of the two strings alone, which is all that the
/// contract claims: it equals the named result [`regex_captures`]. The groups
/// come back as copies of the matched text, in the order of the crate's
/// `Captures::iter`.
#[verifier::external_body]
pub(crate) fn captures(pattern: &str, haystack: &str) -> (found: Option<Vec<Option<String>>>)
    ensures
        found_texts(found) == regex_captures(pattern@, haystack@),
{
    let re = Regex::new(pattern).ok()?;
    let caps = re.captures(haystack)?;
    let mut groups: Vec<Option<String>> = Vec::new();
    for group in caps.iter() {
        groups.push(group.map(|m| m.as_str().to_string()));
    }
    Some(groups)
}

/// `Regex::new` followed by `Regex::is_match`: compiles `pattern` with the
/// crate's default options and tests whether it matches anywhere in
/// `haystack`. The result is a function of the two strings alone, which is all
/// that the contract claims: it equals the named result [`regex_is_match`].
#[verifier::external_body]
pub(crate) fn is_match(pattern: &str, haystack: &str) -> (r: bool)
    ensures
        r == regex_is_match(pattern@, haystack@),
{
    match Regex::new(pattern) {
        Ok(re) => re.is_match(haystack),
        Err(_) => false,
    }
}

/// Group `i` of a match, if there is such a group and it took part.
pub open spec fn group_at(groups: Seq<Option<Seq<char>>>, i: int) -> Option<Seq<char>> {
    if 0 <= i < groups.len() {
        groups[i]
    } else {
        None
    }
}

/// Group `i` of a match, or the empty text.
pub open spec fn group_or_empty(groups: Seq<Option<Seq<char>>>, i: int) -> Seq<char> {
    match group_at(groups, i) {
        Some(t) => t,
        None => Seq::empty(),
    }
}

/// Group `i` of the leftmost match of `pattern` in `text`.
pub open spec fn captured(pattern: Seq<char>, text: Seq<char>, i: int) -> Option<Seq<char>> {
    match regex_captures(pattern, text) {
        Some(groups) => group_at(groups, i),
        None => None,
    }
}

/// A copy of group `i` of a match, if there is such a group and it took part.
pub fn group_text(groups: &Vec<Option<String>>, i: usize) -> (r: Option<String>)
    ensures
        opt_text(r) == group_at(group_texts(groups@), i as int),
{
    if i < groups.len() {
        match &groups[i] {
            Some(t) => Some(t.clone()),
            None => None,
        }
    } else {
        None
    }
}

/// A copy of group `i` of a match, or the empty string.
pub fn group_text_or_empty(groups: &Vec<Option<String>>, i: usize) -> (r: String)
    ensures
        r@ == group_or_empty(group_texts(groups@), i as int),
{
    match group_text(groups, i) {
        Some(t) => t,
        None => String::new(),
    }
}

/// Group `i` of the leftmost match of `pattern` in `text`.
pub fn capture(pattern: &str, text: &str, i: usize) -> (r: Option<String>)
    ensures
        opt_text(r) == captured(pattern@, text@, i as int),
{
    match captures(pattern, text) {
        Some(groups) => group_text(&groups, i),
        None => None,
    }
}

} // verus!
