//! Files that pytest collects, and files that belong to tests.
use super::common::{discover_each, entries_where, reports};
use crate::extract::ParsedModule;
use crate::path::{FilePath, PathView};
use crate::text::{ends_with, has_prefix, has_suffix, same, starts_with, strip_suffix};
use crate::types::PluginResult;
use rustc_hash::FxHashMap;
use vstd::prelude::*;

verus! {

pub const PLUGIN_NAME: &'static str = "pytest";

/// Whether a file name without `.py` is one that pytest collects:
/// `test_` or `_test` and at least one more character.
pub open spec fn is_test_stem(stem: Seq<char>) -> bool {
    stem.len() > 5 && (has_prefix(stem, "test_"@) || has_suffix(stem, "_test"@))
}

/// Whether a path belongs to fixtures that a type checker reads: a
/// `mypy/modules` or `mypy/outputs` directory, or one called `typechecking`.
pub open spec fn is_typecheck_fixture(p: PathView) -> bool {
    ||| exists|i: int|
        0 < i < p.parts.len() && p.parts[i - 1] == "mypy"@ && (#[trigger] p.parts[i] == "modules"@
            || p.parts[i] == "outputs"@)
    ||| p.parts.contains("typechecking"@)
}

/// Whether pytest collects the file.
pub open spec fn is_pytest_entry(p: PathView) -> bool {
    match p.file_name() {
        None => false,
        Some(n) => n == "conftest.py"@ || (has_suffix(n, ".py"@) && is_test_stem(
            n.take(n.len() - 3),
        )) || is_typecheck_fixture(p),
    }
}

/// Whether the file is one that pytest collects, or a Python file in a
/// directory of tests.
pub open spec fn is_test_adjacent(p: PathView) -> bool {
    is_pytest_entry(p) || (p.is_python() && (p.parts.contains("tests"@) || p.parts.contains(
        "test"@,
    ) || p.parts.contains("testing"@)))
}

fn is_typecheck_fixture_path(path: &FilePath) -> (r: bool)
    ensures
        r == is_typecheck_fixture(path@),
{
    let mut i: usize = 1;
    while i < path.parts.len()
        invariant
            1 <= i,
            forall|j: int|
                0 < j < i && j < path@.parts.len() ==> !(path@.parts[j - 1] == "mypy"@ && (
                #[trigger] path@.parts[j] == "modules"@ || path@.parts[j] == "outputs"@)),
        decreases path.parts@.len() - i,
    {
        assert(path@.parts[i as int] == path.parts@[i as int]@);
        assert(path@.parts[i - 1] == path.parts@[i - 1]@);
        if same(path.parts[i - 1].as_str(), "mypy") && (same(path.parts[i].as_str(), "modules")
            || same(path.parts[i].as_str(), "outputs")) {
            return true;
        }
        i += 1;
    }
    path.has_part("typechecking")
}

/// Whether pytest collects the file, judged by its path alone.
pub fn is_pytest_entry_path(path: &FilePath) -> (r: bool)
    ensures
        r == is_pytest_entry(path@),
{
    let name = match path.file_name() {
        None => return false,
        Some(n) => n,
    };
    if same(name, "conftest.py") {
        return true;
    }
    proof {
        reveal_strlit(".py");
        reveal_strlit("test_");
        reveal_strlit("_test");
        assert(".py"@.len() == 3 && "test_"@.len() == 5 && "_test"@.len() == 5);
    }
    if let Some(stem) = strip_suffix(name, ".py") {
        if stem.as_str().unicode_len() > 5 && (starts_with(stem.as_str(), "test_") || ends_with(
            stem.as_str(),
            "_test",
        )) {
            return true;
        }
    }
    is_typecheck_fixture_path(path)
}

/// Whether the file belongs to tests in the wider sense: also any Python file
/// below a directory called `tests`, `test` or `testing`. For leaving out
/// noise, not for finding entry points.
pub fn is_test_adjacent_path(path: &FilePath) -> (r: bool)
    ensures
        r == is_test_adjacent(path@),
{
    if is_pytest_entry_path(path) {
        return true;
    }
    path.is_python() && (path.has_part("tests") || path.has_part("test") || path.has_part(
        "testing",
    ))
}

fn file_is_pytest_entry(module: &ParsedModule) -> (r: bool)
    ensures
        r == is_pytest_entry(module.path@),
{
    is_pytest_entry_path(&module.path)
}

/// The modules that pytest collects.
pub fn discover(parsed: &FxHashMap<u32, ParsedModule>) -> (r: PluginResult)
    ensures
        reports(
            r,
            PLUGIN_NAME@,
            entries_where(parsed@, |m: ParsedModule| is_pytest_entry(m.path@)),
        ),
{
    discover_each(
        PLUGIN_NAME,
        parsed,
        file_is_pytest_entry,
        Ghost(|m: ParsedModule| is_pytest_entry(m.path@)),
    )
}

/// Every file that pytest collects counts as test-adjacent.
pub proof fn pytest_entries_are_test_adjacent(p: PathView)
    requires
        is_pytest_entry(p),
    ensures
        is_test_adjacent(p),
{
}

/// pytest collects `conftest.py`, `test_x.py` and `x_test.py` for any `x`, in whatever
/// directory.
pub proof fn pytest_collects_by_name(p: PathView, x: Seq<char>)
    requires
        x.len() > 0,
        p.file_name() == Some("conftest.py"@) || p.file_name() == Some("test_"@ + x + ".py"@)
            || p.file_name() == Some(x + "_test.py"@),
    ensures
        is_pytest_entry(p),
{
    reveal_strlit("test_");
    reveal_strlit(".py");
    reveal_strlit("_test.py");
    reveal_strlit("_test");
    let n = p.file_name()->0;
    if p.file_name() == Some("test_"@ + x + ".py"@) {
        assert(n.skip(n.len() - 3) =~= ".py"@);
        assert(n.take(n.len() - 3).take(5) =~= "test_"@);
    } else if p.file_name() == Some(x + "_test.py"@) {
        assert(n.skip(n.len() - 3) =~= ".py"@);
        let stem = n.take(n.len() - 3);
        assert(stem.skip(stem.len() - 5) =~= "_test"@);
    }
}

} // verus!
