//! Searching text with the `regex` crate.
use regex::Regex;
use vstd::prelude::*;

verus! {

/// What the `regex` crate makes of a pattern and a text: each match from left
/// to right, with the byte offset at which it starts, or nothing if the
/// pattern is not well formed.
pub uninterp spec fn regex_matches(pattern: Seq<char>, text: Seq<char>) -> Option<
    Seq<(usize, Seq<char>)>,
>;

/// A list of matches, with their texts.
pub open spec fn match_views(v: Seq<(usize, String)>) -> Seq<(usize, Seq<char>)> {
    v.map_values(|m: (usize, String)| (m.0, m.1@))
}

/// Words of ASCII letters, digits and underscores that do not start with a
/// digit and have no other word character next to them.
pub const IDENTIFIER: &'static str = "\\b[A-Za-z_][A-Za-z0-9_]*\\b";

/// `Regex::new` and `Regex::find_iter`, collected. The pattern for identifiers
/// is one that `Regex::new` accepts.
#[verifier::external_body]
pub(crate) fn find_all(pattern: &str, text: &str) -> (r: Option<Vec<(usize, String)>>)
    ensures
        match r {
            Some(v) => regex_matches(pattern@, text@) == Some(match_views(v@)),
            None => regex_matches(pattern@, text@) is None,
        },
        pattern@ == IDENTIFIER@ ==> r is Some,
{
    let re = Regex::new(pattern).ok()?;
    Some(re.find_iter(text).map(|m| (m.start(), m.as_str().to_string())).collect())
}

} // verus!
