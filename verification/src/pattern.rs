//! Regular expressions.

use vstd::prelude::*;

verus! {

/// Whether a regular expression matches somewhere in a text; nothing where it
/// is no regular expression.
pub uninterp spec fn matching(pattern: Seq<char>, text: Seq<char>) -> Option<bool>;

/// A text with the first match of a regular expression replaced; nothing where
/// it is no regular expression.
pub uninterp spec fn replaced(
    pattern: Seq<char>,
    text: Seq<char>,
    replacement: Seq<char>,
) -> Option<Seq<char>>;

/// `regex::Regex::is_match`, of a pattern that `regex::Regex::new` takes:
/// whether the pattern matches anywhere in the text. What it takes and what
/// matches is the same whenever it is asked.
#[verifier::external_body]
pub(crate) fn is_match(pattern: &str, text: &str) -> (r: Option<bool>)
    ensures
        r == matching(pattern@, text@),
{
    match regex::Regex::new(pattern) {
        Ok(re) => Some(re.is_match(text)),
        Err(_) => None,
    }
}

/// `regex::Regex::replace`, of a pattern that `regex::Regex::new` takes: the
/// text with the first match replaced, groups of the pattern standing in the
/// replacement. A text the pattern does not match comes back as it was, and
/// nothing comes back for a pattern that is not taken.
#[verifier::external_body]
pub(crate) fn replace(pattern: &str, text: &str, replacement: &str) -> (r: Option<String>)
    ensures
        r.deep_view() == replaced(pattern@, text@, replacement@),
        matching(pattern@, text@) == Some(false) ==> r.deep_view() == Some(text@),
        (r is None) == (matching(pattern@, text@) is None),
{
    match regex::Regex::new(pattern) {
        Ok(re) => Some(re.replace(text, replacement).into_owned()),
        Err(_) => None,
    }
}

} // verus!
