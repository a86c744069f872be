//! Regular-expression matching: `regex`'s, behind one wrapper.
use vstd::prelude::*;

use crate::text::strings_view;

verus! {

/// The capture groups of the first match of `pattern` in `text`, as
/// `regex::Regex::captures` reports them: group `i` at index `i - 1`, an
/// empty text for a group that took no part in the match; `None` when there
/// is no match or `pattern` does not compile.
pub uninterp spec fn regex_captures(pattern: Seq<char>, text: Seq<char>) -> Option<Seq<Seq<char>>>;

/// The texts of optional captures.
pub open spec fn opt_strings(v: Option<Vec<String>>) -> Option<Seq<Seq<char>>> {
    match v {
        Some(v) => Some(strings_view(v@)),
        None => None,
    }
}

/// `Regex::new(pattern)`, then `captures(text)`: every group after the
/// whole match, as an owned string. A pattern that does not compile gives
/// `None`, as a text without a match does.
#[verifier::external_body]
pub(crate) fn captures(pattern: &str, text: &str) -> (r: Option<Vec<String>>)
    ensures
        opt_strings(r) == regex_captures(pattern@, text@),
{
    let caps = regex::Regex::new(pattern).ok()?.captures(text)?;
    Some(caps.iter().skip(1).map(|g| g.map_or_else(String::new, |m| m.as_str().to_owned())).collect())
}

} // verus!
