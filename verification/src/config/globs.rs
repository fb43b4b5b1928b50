//! Path patterns of `globset`.
use crate::text::views;
use globset::{Glob, GlobMatcher};
use vstd::prelude::*;

verus! {

/// A compiled pattern.
#[verifier::external_type_specification]
#[verifier::external_body]
pub struct ExGlobMatcher(globset::GlobMatcher);

/// The pattern that a matcher was compiled from: what `GlobMatcher::glob` and
/// `Glob::glob` give back of it.
pub uninterp spec fn glob_pattern(m: GlobMatcher) -> Seq<char>;

/// What `Glob::new` has against a pattern, in the words of its error; nothing
/// where it accepts the pattern.
pub uninterp spec fn glob_error(pattern: Seq<char>) -> Option<Seq<char>>;

/// The most characters a pattern may have.
pub const LONGEST_GLOB: usize = 16384;

/// The most groups of alternatives a pattern may open.
pub const MOST_GROUPS: usize = 80;

/// How many groups of alternatives a pattern opens.
pub open spec fn groups_opened(pattern: Seq<char>) -> nat
    decreases pattern.len(),
{
    if pattern.len() == 0 {
        0
    } else {
        groups_opened(pattern.drop_last()) + (if pattern.last() == '{' {
            1nat
        } else {
            0nat
        })
    }
}

/// Whether a pattern is small enough to be compiled. `globset` turns a pattern
/// into a regular expression, and panics where that one is nested too deeply or
/// grows too large.
pub open spec fn glob_fits(pattern: Seq<char>) -> bool {
    pattern.len() <= LONGEST_GLOB && groups_opened(pattern) <= MOST_GROUPS
}

pub open spec fn globs_fit(patterns: Seq<Seq<char>>) -> bool {
    forall|i: int| 0 <= i < patterns.len() ==> glob_fits(#[trigger] patterns[i])
}

/// The patterns of a list of matchers.
pub open spec fn glob_patterns(v: Seq<GlobMatcher>) -> Seq<Seq<char>> {
    v.map_values(|m: GlobMatcher| glob_pattern(m))
}

/// `Glob::new` and `Glob::compile_matcher`: either a matcher of the pattern, or
/// the words of the error.
///
/// `compile_matcher` panics where the regular expression that stands for the
/// pattern is nested deeper than 250 levels or takes more than 10 MiB; a
/// pattern that fits gives at most three levels for each group it opens and five
/// more, and fewer than 640 bytes for each of its characters.
#[verifier::external_body]
pub(crate) fn compile_glob(pattern: &str) -> (r: Result<GlobMatcher, String>)
    requires
        glob_fits(pattern@),
    ensures
        match r {
            Ok(m) => glob_error(pattern@) is None && glob_pattern(m) == pattern@,
            Err(e) => glob_error(pattern@) == Some(e@),
        },
{
    match Glob::new(pattern) {
        Ok(glob) => Ok(glob.compile_matcher()),
        Err(error) => Err(error.to_string()),
    }
}

/// Whether a pattern is small enough to be compiled.
pub fn glob_is_small(pattern: &str) -> (r: bool)
    ensures
        r == glob_fits(pattern@),
{
    let chars = crate::text::chars_of(pattern);
    if chars.len() > LONGEST_GLOB {
        return false;
    }
    let mut n: usize = 0;
    let mut i: usize = 0;
    while i < chars.len()
        invariant
            i <= chars@.len(),
            n <= i,
            n == groups_opened(chars@.take(i as int)),
        decreases chars@.len() - i,
    {
        assert(chars@.take(i + 1).drop_last() =~= chars@.take(i as int));
        if chars[i] == '{' {
            n += 1;
        }
        i += 1;
    }
    assert(chars@.take(i as int) =~= chars@);
    n <= MOST_GROUPS
}

/// Whether all patterns are small enough to be compiled.
pub fn globs_are_small(patterns: &Vec<String>) -> (r: bool)
    ensures
        r == globs_fit(views(patterns@)),
{
    let mut i: usize = 0;
    while i < patterns.len()
        invariant
            i <= patterns@.len(),
            forall|j: int| 0 <= j < i ==> glob_fits(#[trigger] views(patterns@)[j]),
        decreases patterns@.len() - i,
    {
        if !glob_is_small(patterns[i].as_str()) {
            assert(!glob_fits(views(patterns@)[i as int]));
            return false;
        }
        i += 1;
    }
    true
}

} // verus!
