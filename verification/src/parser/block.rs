//! The blocks of a document: what stands between its separator lines.

use regex::Regex;
use vstd::prelude::*;

verus! {

/// The pattern of a separator line: a line that reads `---` and nothing
/// else.
pub const SEPARATOR_LINE: &'static str = "(?m)^---$";

/// What splitting `text` at the matches of the regular expression `pattern`
/// gives: the parts of `text` around the matches, in their order, or `None`
/// where `pattern` is not accepted as a regular expression.
pub uninterp spec fn pattern_split(pattern: Seq<char>, text: Seq<char>) -> Option<Seq<Seq<char>>>;

/// What the parts `parts` stand for.
pub open spec fn part_views(parts: Seq<&str>) -> Seq<Seq<char>> {
    parts.map_values(|part: &str| part@)
}

/// Calls `regex::Regex::new` on `pattern` and `regex::Regex::split` on
/// `text`.  Trusted: that the two calls give the same parts for the same
/// pattern and text, which is all that `pattern_split` says.
#[verifier::external_body]
pub(crate) fn split_at_pattern<'a>(pattern: &str, text: &'a str) -> (r: Option<Vec<&'a str>>)
    ensures
        (match r {
            Some(parts) => pattern_split(pattern@, text@) == Some(part_views(parts@)),
            None => pattern_split(pattern@, text@) is None,
        }),
{
    match Regex::new(pattern) {
        Ok(re) => Some(re.split(text).collect()),
        Err(_) => None,
    }
}

} // verus!
