//! Regular expressions of the regex crate, as the library uses them: three
//! fixed patterns whose matches a few lines describe, and patterns that a
//! caller supplies.

use vstd::prelude::*;
use crate::text::{collapse_before_newline, count_occurrences, has_space_before_newline};

verus! {

#[verifier::external_type_specification]
#[verifier::external_body]
pub struct ExRegex(regex::Regex);

#[verifier::external_type_specification]
#[verifier::external_body]
pub struct ExRegexError(regex::Error);

/// The pattern that a compiled expression was made from.
pub uninterp spec fn regex_pattern(re: regex::Regex) -> Seq<char>;

/// The text that `Display` gives for a `regex::Error`.
pub uninterp spec fn regex_error_text(error: regex::Error) -> Seq<char>;

/// What `Regex::new` makes of a pattern: nothing to report when it compiles,
/// the message of the error otherwise.
pub uninterp spec fn regex_compile(pattern: Seq<char>) -> Option<Seq<char>>;

/// Whether the expression compiled from `pattern` matches somewhere in `text`.
pub uninterp spec fn regex_matches(pattern: Seq<char>, text: Seq<char>) -> bool;

/// The opening reasoning marker.
pub open spec fn think_open() -> Seq<char> {
    seq!['<', 't', 'h', 'i', 'n', 'k', '>']
}

/// The closing reasoning marker.
pub open spec fn think_close() -> Seq<char> {
    seq!['<', '/', 't', 'h', 'i', 'n', 'k', '>']
}

/// The pattern for one or more spaces before a newline.
pub open spec fn spaces_newline() -> Seq<char> {
    seq![' ', '+', '\\', 'n']
}

/// The patterns that the library itself compiles.
pub open spec fn fixed_pattern(pattern: Seq<char>) -> bool {
    pattern == think_open() || pattern == think_close() || pattern == spaces_newline()
}

/// Whether `c` has a meaning of its own in a pattern.
pub open spec fn is_meta_character(c: char) -> bool {
    c == '\\' || c == '.' || c == '+' || c == '*' || c == '?' || c == '(' || c == ')' || c == '|'
        || c == '[' || c == ']' || c == '{' || c == '}' || c == '^' || c == '$' || c == '#' || c
        == '&' || c == '-' || c == '~'
}

/// A pattern that stands for itself: not empty, and without a character
/// that has a meaning of its own.
pub open spec fn literal_pattern(pattern: Seq<char>) -> bool {
    pattern.len() > 0 && forall|i: int|
        0 <= i < pattern.len() ==> !is_meta_character(#[trigger] pattern[i])
}

/// `Regex::new`: the compiled expression, or the error for a pattern that
/// is not valid or too big. The three fixed patterns are valid and small.
#[verifier::external_body]
pub(crate) fn regex_new(pattern: &str) -> (compiled: Result<regex::Regex, regex::Error>)
    ensures
        match compiled {
            Ok(re) => regex_compile(pattern@) is None && regex_pattern(re) == pattern@,
            Err(error) => regex_compile(pattern@) == Some(regex_error_text(error)),
        },
        fixed_pattern(pattern@) ==> compiled is Ok,
{
    regex::Regex::new(pattern)
}

/// `Display` of `regex::Error`: the message of the error.
#[verifier::external_body]
pub(crate) fn regex_error_message(error: &regex::Error) -> (message: String)
    ensures
        message@ == regex_error_text(*error),
{
    error.to_string()
}

/// `Regex::is_match`: whether there is a match anywhere in the text. For
/// the pattern of spaces before a newline that is whether some space stands
/// directly before a newline.
#[verifier::external_body]
pub(crate) fn regex_is_match(re: &regex::Regex, text: &str) -> (found: bool)
    ensures
        found == regex_matches(regex_pattern(*re), text@),
        regex_pattern(*re) == spaces_newline() ==> found == has_space_before_newline(text@),
{
    re.is_match(text)
}

/// `Regex::find_iter` and the number of matches it yields. For a pattern
/// that stands for itself these are its occurrences, read left to right,
/// each search starting where the previous match ended.
#[verifier::external_body]
pub(crate) fn regex_count(re: &regex::Regex, text: &str) -> (count: usize)
    requires
        literal_pattern(regex_pattern(*re)),
    ensures
        count == count_occurrences(text@, regex_pattern(*re)),
{
    re.find_iter(text).count()
}

/// `Regex::replace_all` with the pattern of spaces before a newline and a
/// newline as the replacement: every run of spaces that ends at a newline
/// is taken out, the newline stays.
#[verifier::external_body]
pub(crate) fn regex_collapse(re: &regex::Regex, text: &str) -> (collapsed: String)
    requires
        regex_pattern(*re) == spaces_newline(),
    ensures
        collapsed@ == collapse_before_newline(text@),
{
    re.replace_all(text, "\n").to_string()
}

} // verus!
