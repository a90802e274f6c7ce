//! Searching text for a pattern. The search itself is the work of the
//! `regex` crate; what it finds is named here, and everything that is done
//! with the findings is verified against that name.

use crate::ooxml::error::OoxmlError;
use vstd::prelude::*;

verus! {

/// `regex::Error`: why a pattern was turned down. It is handed on and never
/// looked into.
#[verifier::external_type_specification]
#[verifier::external_body]
pub struct ExRegexError(regex::Error);

/// Whether `regex::Regex::new` accepts `pattern`.
pub uninterp spec fn regex_compiles(pattern: Seq<char>) -> bool;

/// What `regex::Regex::captures` finds for `pattern` in `text`: nothing, or
/// the groups of the first match. Group 0 is the whole match; a group that
/// took no part in the match is `None`.
pub uninterp spec fn regex_captures(pattern: Seq<char>, text: Seq<char>) -> Option<
    Seq<Option<Seq<char>>>,
>;

/// What `regex::Regex::is_match` says of `pattern` and `text`.
pub uninterp spec fn regex_is_match(pattern: Seq<char>, text: Seq<char>) -> bool;

/// What `regex::Regex::captures_iter` yields for `pattern` in `text`: the
/// groups of every match, the matches in the order in which they stand in
/// the text.
pub uninterp spec fn regex_all_captures(pattern: Seq<char>, text: Seq<char>) -> Seq<
    Seq<Option<Seq<char>>>,
>;

/// An optional string as contracts see it.
pub open spec fn opt_view(s: Option<String>) -> Option<Seq<char>> {
    match s {
        Some(s) => Some(s@),
        None => None,
    }
}

/// The groups of a match as contracts see them.
pub open spec fn match_view(groups: Vec<Option<String>>) -> Seq<Option<Seq<char>>> {
    Seq::new(groups@.len(), |i: int| opt_view(groups@[i]))
}

/// The groups of a match, if there is one, as contracts see them.
pub open spec fn groups_view(found: Option<Vec<Option<String>>>) -> Option<Seq<Option<Seq<char>>>> {
    match found {
        Some(groups) => Some(match_view(groups)),
        None => None,
    }
}

/// The groups of each match of a list as contracts see them.
pub open spec fn matches_view(found: Seq<Vec<Option<String>>>) -> Seq<Seq<Option<Seq<char>>>> {
    Seq::new(found.len(), |i: int| match_view(found[i]))
}

/// Group `i` of the groups of a match; `None` where there is no such group
/// or the group took no part.
pub open spec fn group_of(groups: Seq<Option<Seq<char>>>, i: int) -> Option<Seq<char>> {
    if 0 <= i < groups.len() {
        groups[i]
    } else {
        None
    }
}

/// `regex::Regex::new` followed by `regex::Regex::captures`: compiles
/// `pattern` and searches `text` for its first match. The contract claims
/// that the call fails exactly on the patterns that `regex_compiles` rules
/// out, and otherwise hands over, group by group, the text that
/// `regex_captures` names; nothing else is claimed of either.
#[verifier::external_body]
fn captures(pattern: &str, text: &str) -> (r: Result<Option<Vec<Option<String>>>, regex::Error>)
    ensures
        r is Ok <==> regex_compiles(pattern@),
        r is Ok ==> groups_view(r->Ok_0) == regex_captures(pattern@, text@),
{
    let re = regex::Regex::new(pattern)?;
    Ok(
        re.captures(text).map(
            |caps| caps.iter().map(|group| group.map(|m| m.as_str().to_owned())).collect(),
        ),
    )
}

/// `regex::Regex::new` followed by `regex::Regex::captures_iter`: compiles
/// `pattern` and searches `text` for all its matches. The contract claims
/// that the call fails exactly on the patterns that `regex_compiles` rules
/// out, and otherwise hands over, match by match and group by group, the
/// text that `regex_all_captures` names; nothing else is claimed of either.
#[verifier::external_body]
fn all_captures(pattern: &str, text: &str) -> (r: Result<Vec<Vec<Option<String>>>, regex::Error>)
    ensures
        r is Ok <==> regex_compiles(pattern@),
        r is Ok ==> matches_view(r->Ok_0@) == regex_all_captures(pattern@, text@),
{
    let re = regex::Regex::new(pattern)?;
    Ok(
        re.captures_iter(text).map(
            |caps| caps.iter().map(|group| group.map(|m| m.as_str().to_owned())).collect(),
        ).collect(),
    )
}

/// `regex::Regex::new` followed by `regex::Regex::is_match`: compiles
/// `pattern` and tells whether it matches anywhere in `text`. The contract
/// claims that the call fails exactly on the patterns that `regex_compiles`
/// rules out, and otherwise answers what `regex_is_match` names.
#[verifier::external_body]
fn is_match(pattern: &str, text: &str) -> (r: Result<bool, regex::Error>)
    ensures
        r is Ok <==> regex_compiles(pattern@),
        r is Ok ==> r->Ok_0 == regex_is_match(pattern@, text@),
{
    let re = regex::Regex::new(pattern)?;
    Ok(re.is_match(text))
}

/// Group `group` of the first match of `pattern` in `text`; `None` where
/// there is no match, no such group, or the group took no part.
pub open spec fn first_group(pattern: Seq<char>, text: Seq<char>, group: nat) -> Option<Seq<char>> {
    match regex_captures(pattern, text) {
        Some(groups) => group_of(groups, group as int),
        None => None,
    }
}

/// The failure that stands for a pattern that does not compile: a parse
/// error that names the pattern.
pub open spec fn is_pattern_error(e: OoxmlError, pattern: Seq<char>) -> bool {
    e matches OoxmlError::ParseError(s) && s@ == pattern
}

/// Whether `r` is the outcome that `bad` calls for: failure with the parse
/// error that names the pattern, if `bad` is one, and success if there is
/// none.
pub open spec fn fails_on(r: Result<(), OoxmlError>, bad: Option<Seq<char>>) -> bool {
    match bad {
        Some(p) => r is Err && is_pattern_error(r->Err_0, p),
        None => r is Ok,
    }
}

/// Fails on a pattern that does not compile.
pub fn check_pattern(pattern: &str) -> (r: Result<(), OoxmlError>)
    ensures
        r is Ok <==> regex_compiles(pattern@),
        r is Err ==> is_pattern_error(r->Err_0, pattern@),
{
    match is_match(pattern, "") {
        Ok(_) => Ok(()),
        Err(_) => Err(OoxmlError::ParseError(pattern.to_owned())),
    }
}

/// The text of group `group` among the groups of a match, if the group is
/// there and took part.
pub fn pick_group(groups: &Vec<Option<String>>, group: usize) -> (r: Option<String>)
    ensures
        opt_view(r) == group_of(match_view(*groups), group as int),
{
    if group < groups.len() {
        match &groups[group] {
            Some(s) => Some(s.clone()),
            None => None,
        }
    } else {
        None
    }
}

/// The groups of the first match of `pattern` in `text`, if there is a
/// match. Fails on a pattern that does not compile.
pub fn find_groups(pattern: &str, text: &str) -> (r: Result<
    Option<Vec<Option<String>>>,
    OoxmlError,
>)
    ensures
        r is Ok <==> regex_compiles(pattern@),
        r is Ok ==> groups_view(r->Ok_0) == regex_captures(pattern@, text@),
        r is Err ==> is_pattern_error(r->Err_0, pattern@),
{
    match captures(pattern, text) {
        Ok(found) => Ok(found),
        Err(_) => Err(OoxmlError::ParseError(pattern.to_owned())),
    }
}

/// The groups of every match of `pattern` in `text`, in the order in which
/// the matches stand in the text. Fails on a pattern that does not compile.
pub fn find_all(pattern: &str, text: &str) -> (r: Result<Vec<Vec<Option<String>>>, OoxmlError>)
    ensures
        r is Ok <==> regex_compiles(pattern@),
        r is Ok ==> matches_view(r->Ok_0@) == regex_all_captures(pattern@, text@),
        r is Err ==> is_pattern_error(r->Err_0, pattern@),
{
    match all_captures(pattern, text) {
        Ok(found) => Ok(found),
        Err(_) => Err(OoxmlError::ParseError(pattern.to_owned())),
    }
}

/// Group `group` of the first match of `pattern` in `text`. Fails on a
/// pattern that does not compile.
pub fn find_group(pattern: &str, text: &str, group: usize) -> (r: Result<Option<String>, OoxmlError>)
    ensures
        r is Ok <==> regex_compiles(pattern@),
        r is Ok ==> opt_view(r->Ok_0) == first_group(pattern@, text@, group as nat),
        r is Err ==> is_pattern_error(r->Err_0, pattern@),
{
    match find_groups(pattern, text)? {
        Some(groups) => Ok(pick_group(&groups, group)),
        None => Ok(None),
    }
}

/// Whether `pattern` matches anywhere in `text`. Fails on a pattern that
/// does not compile.
pub fn matches_anywhere(pattern: &str, text: &str) -> (r: Result<bool, OoxmlError>)
    ensures
        r is Ok <==> regex_compiles(pattern@),
        r is Ok ==> r->Ok_0 == regex_is_match(pattern@, text@),
        r is Err ==> is_pattern_error(r->Err_0, pattern@),
{
    match is_match(pattern, text) {
        Ok(found) => Ok(found),
        Err(_) => Err(OoxmlError::ParseError(pattern.to_owned())),
    }
}

} // verus!
