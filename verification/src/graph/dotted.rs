//! Dotted module names of files.
use crate::path::{FilePath, PathView};
use crate::text::{
    chars_of, has_suffix, is_ascii_digit, is_ascii_lower, is_ascii_upper, join, join_with, same,
    strip_suffix, views,
};
use vstd::prelude::*;

verus! {

pub open spec fn is_ident_start(c: char) -> bool {
    c == '_' || is_ascii_lower(c) || is_ascii_upper(c)
}

/// Whether `s` is a Python identifier of ASCII characters.
pub open spec fn is_identifier(s: Seq<char>) -> bool {
    &&& s.len() > 0
    &&& is_ident_start(s[0])
    &&& forall|i: int| 0 < i < s.len() ==> is_ident_start(#[trigger] s[i]) || is_ascii_digit(s[i])
}

/// `s` without `.py` at its end, if it is there.
pub open spec fn without_py(s: Seq<char>) -> Seq<char> {
    if has_suffix(s, ".py"@) {
        s.take(s.len() - 3)
    } else {
        s
    }
}

/// The module segments of a relative path: its names, the last without `.py`,
/// and without a last `__init__`.
pub open spec fn module_segments(names: Seq<Seq<char>>) -> Seq<Seq<char>> {
    if names.len() == 0 {
        names
    } else {
        let last = without_py(names.last());
        if last == "__init__"@ {
            names.drop_last()
        } else {
            names.drop_last().push(last)
        }
    }
}

/// The dotted name of a relative path. It is empty if some segment is no
/// identifier: no import can name such a file.
pub open spec fn dotted_of_relative(rel: PathView) -> Seq<char> {
    let segments = module_segments(rel.names());
    if forall|i: int| 0 <= i < segments.len() ==> is_identifier(#[trigger] segments[i]) {
        join(segments, "."@)
    } else {
        Seq::empty()
    }
}

/// The dotted name of a path, seen from the first of the roots that it is
/// below.
pub open spec fn dotted_of_path(path: PathView, roots: Seq<PathView>) -> Option<Seq<char>>
    decreases roots.len(),
{
    if roots.len() == 0 {
        None
    } else {
        match path.behind(roots[0]) {
            Some(rel) => Some(dotted_of_relative(rel)),
            None => dotted_of_path(path, roots.skip(1)),
        }
    }
}

/// The paths of a list.
pub open spec fn path_views(v: Seq<FilePath>) -> Seq<PathView> {
    v.map_values(|p: FilePath| p@)
}

fn is_python_identifier(s: &str) -> (r: bool)
    ensures
        r == is_identifier(s@),
{
    let v = chars_of(s);
    if v.len() == 0 || !starts_identifier(v[0]) {
        return false;
    }
    let mut i: usize = 1;
    while i < v.len()
        invariant
            1 <= i <= v@.len(),
            v@ == s@,
            forall|j: int|
                0 < j < i ==> is_ident_start(#[trigger] s@[j]) || is_ascii_digit(s@[j]),
        decreases v@.len() - i,
    {
        let c = v[i];
        if !starts_identifier(c) && !('0' <= c && c <= '9') {
            assert(!(is_ident_start(s@[i as int]) || is_ascii_digit(s@[i as int])));
            return false;
        }
        i += 1;
    }
    true
}

fn starts_identifier(c: char) -> (r: bool)
    ensures
        r == is_ident_start(c),
{
    c == '_' || ('a' <= c && c <= 'z') || ('A' <= c && c <= 'Z')
}

fn rel_to_dotted(rel: &FilePath) -> (r: String)
    ensures
        r@ == dotted_of_relative(rel@),
{
    let mut segments = rel.names();
    let ghost names = views(segments@);
    if let Some(last) = segments.pop() {
        proof {
            reveal_strlit(".py");
            assert(".py"@.len() == 3);
            assert(views(segments@) =~= names.drop_last());
            assert(last@ == names.last());
        }
        let stem = match strip_suffix(last.as_str(), ".py") {
            Some(s) => s,
            None => last,
        };
        assert(stem@ == without_py(names.last()));
        if !same(stem.as_str(), "__init__") {
            let ghost before = views(segments@);
            segments.push(stem);
            assert(views(segments@) =~= before.push(stem@));
        }
    }
    let ghost parts = views(segments@);
    assert(parts =~= module_segments(names));
    let mut i: usize = 0;
    while i < segments.len()
        invariant
            i <= segments@.len(),
            parts == views(segments@),
            parts == module_segments(rel@.names()),
            forall|j: int| 0 <= j < i ==> is_identifier(#[trigger] parts[j]),
        decreases segments@.len() - i,
    {
        assert(parts[i as int] == segments@[i as int]@);
        if !is_python_identifier(segments[i].as_str()) {
            let r = String::new();
            assert(r@ =~= Seq::empty());
            return r;
        }
        i += 1;
    }
    join_with(&segments, ".")
}

/// The dotted module name of a file, seen from the first of the roots that it
/// is below; nothing if it is below none of them.
pub fn dotted_module_for(path: &FilePath, package_roots: &[FilePath]) -> (r: Option<String>)
    ensures
        match r {
            Some(d) => dotted_of_path(path@, path_views(package_roots@)) == Some(d@),
            None => dotted_of_path(path@, path_views(package_roots@)) is None,
        },
{
    let ghost roots = path_views(package_roots@);
    let mut i: usize = 0;
    assert(roots.skip(0) =~= roots);
    while i < package_roots.len()
        invariant
            i <= package_roots@.len(),
            roots == path_views(package_roots@),
            dotted_of_path(path@, roots) == dotted_of_path(path@, roots.skip(i as int)),
        decreases package_roots@.len() - i,
    {
        proof {
            assert(roots[i as int] == package_roots@[i as int]@);
            assert(roots.skip(i as int)[0] == roots[i as int]);
            assert(roots.skip(i as int).skip(1) =~= roots.skip(i + 1));
        }
        if let Some(rel) = path.behind(&package_roots[i]) {
            return Some(rel_to_dotted(&rel));
        }
        i += 1;
    }
    None
}

/// A file below directories whose names are identifiers is named by its way there:
/// `a/b/c.py` is `a.b.c`, and `a/b/__init__.py` is `a.b`.
pub proof fn dotted_names_follow_the_directories(rel: PathView, dirs: Seq<Seq<char>>, stem: Seq<char>)
    requires
        rel.names() == dirs.push(stem + ".py"@),
        forall|i: int| 0 <= i < dirs.len() ==> is_identifier(#[trigger] dirs[i]),
        is_identifier(stem),
    ensures
        stem == "__init__"@ ==> dotted_of_relative(rel) == join(dirs, "."@),
        stem != "__init__"@ ==> dotted_of_relative(rel) == join(dirs.push(stem), "."@),
{
    let names = rel.names();
    reveal_strlit(".py");
    assert(names.last() == stem + ".py"@);
    assert(names.last().skip(names.last().len() - 3) =~= ".py"@);
    assert(names.last().take(names.last().len() - 3) =~= stem);
    assert(names.drop_last() =~= dirs);
    assert(without_py(names.last()) == stem);
    let segments = module_segments(names);
    assert(segments == (if stem == "__init__"@ {
        dirs
    } else {
        dirs.push(stem)
    }));
    assert forall|i: int| 0 <= i < segments.len() implies is_identifier(#[trigger] segments[i]) by {
        if i < dirs.len() {
            assert(segments[i] == dirs[i]);
        }
    }
}

/// A file in a directory whose name no import can spell has no dotted name.
pub proof fn odd_directories_have_no_dotted_names(rel: PathView, i: int)
    requires
        0 <= i < rel.names().len() - 1,
        !is_identifier(rel.names()[i]),
    ensures
        dotted_of_relative(rel) == Seq::<char>::empty(),
{
    let segments = module_segments(rel.names());
    assert(segments[i] == rel.names()[i]);
}

/// Letters, digits and underscores make an identifier, as long as no digit stands
/// first, and nothing else does.
pub proof fn identifiers_are_words(s: Seq<char>)
    ensures
        is_identifier(s) <==> s.len() > 0 && !('0' <= s[0] <= '9') && forall|i: int|
            0 <= i < s.len() ==> 'a' <= #[trigger] s[i] <= 'z' || 'A' <= s[i] <= 'Z' || '0' <= s[i]
                <= '9' || s[i] == '_',
{
    if s.len() > 0 && !('0' <= s[0] <= '9') && forall|i: int|
        0 <= i < s.len() ==> 'a' <= #[trigger] s[i] <= 'z' || 'A' <= s[i] <= 'Z' || '0' <= s[i]
            <= '9' || s[i] == '_' {
        assert(is_ident_start(s[0]));
        assert forall|i: int| 0 < i < s.len() implies is_ident_start(#[trigger] s[i])
            || is_ascii_digit(s[i]) by {}
        assert(is_identifier(s));
    }
    if is_identifier(s) {
        assert forall|i: int| 0 <= i < s.len() implies 'a' <= #[trigger] s[i] <= 'z' || 'A' <= s[i]
            <= 'Z' || '0' <= s[i] <= '9' || s[i] == '_' by {
            if i > 0 {
                assert(is_ident_start(s[i]) || is_ascii_digit(s[i]));
            }
        }
    }
}

/// Of several roots the first that a file is below gives it its name; a file below
/// none of them has none.
pub proof fn the_first_root_names_a_file(path: PathView, roots: Seq<PathView>, k: int)
    requires
        0 <= k <= roots.len(),
        forall|j: int| 0 <= j < k ==> path.behind(#[trigger] roots[j]) is None,
        k < roots.len() ==> path.behind(roots[k]) is Some,
    ensures
        k < roots.len() ==> dotted_of_path(path, roots) == Some(
            dotted_of_relative(path.behind(roots[k])->0),
        ),
        k == roots.len() ==> dotted_of_path(path, roots) is None,
    decreases k,
{
    if k > 0 {
        let rest = roots.skip(1);
        assert(path.behind(roots[0]) is None);
        assert forall|j: int| 0 <= j < k - 1 implies path.behind(#[trigger] rest[j]) is None by {
            assert(rest[j] == roots[j + 1]);
        }
        if k < roots.len() {
            assert(rest[k - 1] == roots[k]);
        }
        the_first_root_names_a_file(path, rest, k - 1);
    }
}

} // verus!
