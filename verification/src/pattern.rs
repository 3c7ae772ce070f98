//! Regular expressions: the calls into the `regex` crate.
//!
//! What a regular expression matches is not restated here. Each search has a
//! name for its result, a function of the pattern and the text alone, and the
//! contracts of the crate speak of these names. A name gives `None` on a
//! pattern that the `regex` crate does not accept.
//!
//! The functions marked `external_body` are not proved. They are believed to
//! return what their contracts say: that is the whole of what the crate takes
//! on trust about regular expressions.

use crate::text::{chars_of, string_of};
use vstd::prelude::*;

verus! {

/// The error of `Regex::new`, carried through and never looked into.
#[verifier::external_type_specification]
#[verifier::external_body]
pub struct ExPatternError(regex::Error);

/// A pattern was not accepted as a regular expression.
#[derive(Debug, Clone, Copy, PartialEq, Eq, Structural)]
pub struct PatternRejected;

/// The characters that have a meaning of their own in a regular expression.
pub open spec fn is_meta_character(c: char) -> bool {
    c == '\\' || c == '.' || c == '+' || c == '*' || c == '?' || c == '(' || c == ')' || c == '|'
        || c == '[' || c == ']' || c == '{' || c == '}' || c == '^' || c == '$' || c == '#' || c
        == '&' || c == '-' || c == '~'
}

/// `text` with a backslash put before each meta character.
pub open spec fn escaped(text: Seq<char>) -> Seq<char>
    decreases text.len(),
{
    if text.len() == 0 {
        text
    } else if is_meta_character(text.last()) {
        escaped(text.drop_last()).push('\\').push(text.last())
    } else {
        escaped(text.drop_last()).push(text.last())
    }
}

/// The capture groups of one match as texts; a group that took no part in
/// the match is `None`. Group 0 is the whole match.
pub open spec fn group_texts(groups: Seq<Option<String>>) -> Seq<Option<Seq<char>>> {
    Seq::new(
        groups.len(),
        |i: int|
            match groups[i] {
                Some(s) => Some(s@),
                None => None,
            },
    )
}

/// The capture groups of each match of a search, in the order of the matches.
pub open spec fn match_texts(found: Seq<Vec<Option<String>>>) -> Seq<Seq<Option<Seq<char>>>> {
    Seq::new(found.len(), |i: int| group_texts(found[i]@))
}

/// The text of capture group `i`, empty where the match has no such group
/// or the group took no part in it.
pub open spec fn group_or_empty(groups: Seq<Option<Seq<char>>>, i: int) -> Seq<char> {
    if 0 <= i < groups.len() {
        match groups[i] {
            Some(t) => t,
            None => Seq::<char>::empty(),
        }
    } else {
        Seq::<char>::empty()
    }
}

/// What `Regex::captures` finds in `text` for `pattern`: the groups of the
/// leftmost match, or `Some(None)` where nothing matches.
pub uninterp spec fn first_captures(pattern: Seq<char>, text: Seq<char>) -> Option<
    Option<Seq<Option<Seq<char>>>>,
>;

/// What `Regex::captures_iter` yields on `text` for `pattern`: the groups of
/// the successive matches that do not overlap.
pub uninterp spec fn all_captures(pattern: Seq<char>, text: Seq<char>) -> Option<
    Seq<Seq<Option<Seq<char>>>>,
>;

/// What `Regex::replace` makes of `text`: the leftmost match of `pattern`
/// replaced by `replacement`, in which `$` refers to capture groups.
pub uninterp spec fn first_replaced(
    pattern: Seq<char>,
    text: Seq<char>,
    replacement: Seq<char>,
) -> Option<Seq<char>>;

/// What `Regex::replace_all` makes of `text`: every match of `pattern`
/// replaced by `replacement`, in which `$` refers to capture groups.
pub uninterp spec fn every_replaced(
    pattern: Seq<char>,
    text: Seq<char>,
    replacement: Seq<char>,
) -> Option<Seq<char>>;

/// Calls `regex::escape`. Believed: the result is the text with a backslash
/// put before each character that `is_meta_character` lists, and before no
/// other.
#[verifier::external_body]
pub(crate) fn escape(text: &str) -> (out: String)
    ensures
        out@ == escaped(text@),
{
    regex::escape(text)
}

/// Compiles `pattern` with `Regex::new` and calls `Regex::captures` on
/// `text`, giving each capture group of the match as a string. Believed: the
/// outcome depends on the pattern and the text alone, so that it can bear the
/// name `first_captures`; it is an error exactly where `Regex::new` gives one.
/// Nothing is said of what matches.
#[verifier::external_body]
pub(crate) fn search_first(pattern: &str, text: &str) -> (r: Result<
    Option<Vec<Option<String>>>,
    regex::Error,
>)
    ensures
        match r {
            Ok(Some(groups)) => first_captures(pattern@, text@) == Some(Some(group_texts(groups@))),
            Ok(None) => first_captures(pattern@, text@) == Some(
                None::<Seq<Option<Seq<char>>>>,
            ),
            Err(_) => first_captures(pattern@, text@) is None,
        },
{
    let re = regex::Regex::new(pattern)?;
    Ok(re.captures(text).map(|c| c.iter().map(|g| g.map(|m| m.as_str().to_string())).collect()))
}

/// Compiles `pattern` with `Regex::new` and calls `Regex::captures_iter` on
/// `text`, giving the capture groups of each match as strings. Believed: the
/// outcome depends on the pattern and the text alone, so that it can bear the
/// name `all_captures`; it is an error exactly where `Regex::new` gives one.
/// Nothing is said of what matches.
#[verifier::external_body]
pub(crate) fn search_all(pattern: &str, text: &str) -> (r: Result<
    Vec<Vec<Option<String>>>,
    regex::Error,
>)
    ensures
        match r {
            Ok(found) => all_captures(pattern@, text@) == Some(match_texts(found@)),
            Err(_) => all_captures(pattern@, text@) is None,
        },
{
    let re = regex::Regex::new(pattern)?;
    Ok(
        re.captures_iter(text).map(
            |c| c.iter().map(|g| g.map(|m| m.as_str().to_string())).collect(),
        ).collect(),
    )
}

/// Compiles `pattern` with `Regex::new` and calls `Regex::replace` on `text`.
/// Believed: the outcome depends on the pattern, the text and the
/// replacement alone, so that it can bear the name `first_replaced`; it is an
/// error exactly where `Regex::new` gives one. Nothing is said of what is
/// replaced.
#[verifier::external_body]
pub(crate) fn replace_first(pattern: &str, text: &str, replacement: &str) -> (r: Result<
    String,
    regex::Error,
>)
    ensures
        match r {
            Ok(out) => first_replaced(pattern@, text@, replacement@) == Some(out@),
            Err(_) => first_replaced(pattern@, text@, replacement@) is None,
        },
{
    let re = regex::Regex::new(pattern)?;
    Ok(re.replace(text, replacement).into_owned())
}

/// Compiles `pattern` with `Regex::new` and calls `Regex::replace_all` on
/// `text`. Believed: the outcome depends on the pattern, the text and the
/// replacement alone, so that it can bear the name `every_replaced`; it is an
/// error exactly where `Regex::new` gives one. Nothing is said of what is
/// replaced.
#[verifier::external_body]
pub(crate) fn replace_every(pattern: &str, text: &str, replacement: &str) -> (r: Result<
    String,
    regex::Error,
>)
    ensures
        match r {
            Ok(out) => every_replaced(pattern@, text@, replacement@) == Some(out@),
            Err(_) => every_replaced(pattern@, text@, replacement@) is None,
        },
{
    let re = regex::Regex::new(pattern)?;
    Ok(re.replace_all(text, replacement).into_owned())
}

/// The text of capture group `i` of a match, empty where there is none.
pub fn group_text(groups: &Vec<Option<String>>, i: usize) -> (text: Vec<char>)
    ensures
        text@ == group_or_empty(group_texts(groups@), i as int),
{
    if i < groups.len() {
        match &groups[i] {
            Some(t) => chars_of(t.as_str()),
            None => Vec::new(),
        }
    } else {
        Vec::new()
    }
}

/// The text of capture group `i` of a match as a string, empty where there
/// is none.
pub fn group_string(groups: &Vec<Option<String>>, i: usize) -> (text: String)
    ensures
        text@ == group_or_empty(group_texts(groups@), i as int),
{
    let chars: Vec<char> = group_text(groups, i);
    string_of(&chars)
}

} // verus!
