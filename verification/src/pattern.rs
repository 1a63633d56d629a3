//! Regular expressions, as the `regex` crate reads and runs them.

use vstd::prelude::*;

verus! {

/// Whether `Regex::new` accepts a pattern.
pub uninterp spec fn regex_compiles(pattern: Seq<char>) -> bool;

/// Whether `Regex::is_match` finds a match of a pattern that compiles in a text.
pub uninterp spec fn regex_found(pattern: Seq<char>, text: Seq<char>) -> bool;

/// The text of a named group in the first match that `Regex::captures` finds;
/// absent if there is no match, no such group, or no such regular expression.
pub uninterp spec fn regex_group(pattern: Seq<char>, group: Seq<char>, text: Seq<char>) -> Option<
    Seq<char>,
>;

/// `regex::Regex::new`: whether the pattern compiles depends on the pattern alone.
#[verifier::external_body]
pub(crate) fn compiles(pattern: &str) -> (r: bool)
    ensures
        r == regex_compiles(pattern@),
{
    regex::Regex::new(pattern).is_ok()
}

/// `regex::Regex::is_match`: whether a match exists depends on the pattern and the text alone.
#[verifier::external_body]
pub(crate) fn is_match(pattern: &str, text: &str) -> (r: bool)
    requires
        regex_compiles(pattern@),
    ensures
        r == regex_found(pattern@, text@),
{
    regex::Regex::new(pattern).unwrap().is_match(text)
}

/// `regex::Regex::captures`: the captured text depends on the pattern, the
/// group's name and the text alone.
#[verifier::external_body]
pub(crate) fn capture(pattern: &str, group: &str, text: &str) -> (r: Option<String>)
    ensures
        crate::text::opt_text(r) == regex_group(pattern@, group@, text@),
{
    let re = regex::Regex::new(pattern).ok()?;
    let found = re.captures(text)?;
    Some(found.name(group)?.as_str().to_string())
}

} // verus!
