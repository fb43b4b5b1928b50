//! What is shown of an analysis.
pub mod grid;
pub mod human;
pub mod json;
pub mod markdown;
pub mod sarif;
pub mod tree;

use crate::issue::{path_views, Issue, IssueView};
use crate::path::{dot, path_of, what_was_joined_is_behind, FilePath, PathView};
use crate::scope::{canonical, canonical_of, ResolvedPath};
use crate::text::{
    contains_text, decimal, decimal_text, has_prefix, has_suffix, join, join_with, occurs_at, views,
};
use vstd::prelude::*;

verus! {

/// How a report is written.
#[derive(Debug, Clone, Copy, PartialEq, Eq, Structural)]
pub enum Format {
    Human,
    Json,
    Sarif,
    Markdown,
}

impl Format {
    /// Whether the report is a document for other programs. Whatever else is said
    /// then has to stay out of it.
    pub fn is_machine_readable(self) -> (r: bool)
        ensures
            r == (self == Format::Json || self == Format::Sarif),
    {
        matches!(self, Format::Json | Format::Sarif)
    }
}

/// A path as seen from a directory: where it leads, if that lies below where the
/// directory leads; else the path itself, if it lies below; else the path.
pub open spec fn relative(path: PathView, root: PathView, known: Seq<ResolvedPath>) -> PathView {
    let resolved = match (canonical_of(known, path), canonical_of(known, root)) {
        (Some(p), Some(r)) => p.behind(r),
        _ => None,
    };
    match resolved {
        Some(p) => p,
        None => match path.behind(root) {
            Some(p) => p,
            None => path,
        },
    }
}

/// The components of a path with slashes between them; the root is one of them.
pub open spec fn posix(path: PathView) -> Seq<char> {
    let parts = if path.absolute {
        seq!["/"@] + path.parts
    } else {
        path.parts
    };
    join(parts, "/"@)
}

/// A path as it is written in a document: as seen from the project, with slashes.
pub open spec fn relative_text(path: PathView, root: PathView, known: Seq<ResolvedPath>) -> Seq<
    char,
> {
    posix(relative(path, root, known))
}

fn relative_path(path: &FilePath, root: &FilePath, known: &Vec<ResolvedPath>) -> (r: FilePath)
    ensures
        r@ == relative(path@, root@, known@),
{
    let resolved = match (canonical(known, path), canonical(known, root)) {
        (Some(p), Some(r)) => p.behind(&r),
        _ => None,
    };
    match resolved {
        Some(p) => p,
        None => match path.behind(root) {
            Some(p) => p,
            None => path.clone(),
        },
    }
}

/// A path as it is written in a document: as seen from the project, with slashes.
/// Both ways of writing a document for other programs go by it, so that they
/// agree on where a finding is.
pub fn relative_posix(path: &FilePath, root: &FilePath, known: &Vec<ResolvedPath>) -> (r: String)
    ensures
        r@ == relative_text(path@, root@, known@),
{
    let p = relative_path(path, root, known);
    let mut parts: Vec<String> = Vec::new();
    if p.absolute {
        parts.push("/".to_owned());
    }
    let ghost start = views(parts@);
    let mut i: usize = 0;
    assert(views(parts@) =~= start + views(p.parts@).take(0));
    while i < p.parts.len()
        invariant
            i <= p.parts@.len(),
            views(parts@) == start + views(p.parts@).take(i as int),
        decreases p.parts@.len() - i,
    {
        let ghost was = views(parts@);
        parts.push(p.parts[i].clone());
        assert(views(parts@) =~= was.push(p.parts@[i as int]@));
        i += 1;
        assert(views(parts@) =~= start + views(p.parts@).take(i as int));
    }
    proof {
        assert(views(p.parts@).take(i as int) =~= views(p.parts@));
        let goal = if p@.absolute {
            seq!["/"@] + p@.parts
        } else {
            p@.parts
        };
        assert(views(parts@) =~= goal);
    }
    join_with(&parts, "/")
}

/// The paths of a list as they are written in a document.
pub open spec fn relative_paths(
    v: Seq<PathView>,
    root: PathView,
    known: Seq<ResolvedPath>,
) -> Seq<PathView> {
    v.map_values(|p: PathView| path_of(relative_text(p, root, known)))
}

/// A finding with its paths as they are written in a document.
pub open spec fn relative_issue(
    issue: IssueView,
    root: PathView,
    known: Seq<ResolvedPath>,
) -> IssueView {
    issue.with_paths(relative_paths(issue.paths(), root, known))
}

/// A finding with its paths as they are written in a document.
pub fn relativized(issue: &Issue, root: &FilePath, known: &Vec<ResolvedPath>) -> (r: Issue)
    ensures
        r@ == relative_issue(issue@, root@, known@),
{
    let paths = issue.paths();
    let ghost goal = relative_paths(path_views(paths@), root@, known@);
    let mut out: Vec<FilePath> = Vec::new();
    let mut i: usize = 0;
    while i < paths.len()
        invariant
            i <= paths@.len(),
            goal == relative_paths(path_views(paths@), root@, known@),
            path_views(out@) == goal.take(i as int),
        decreases paths@.len() - i,
    {
        let ghost was = path_views(out@);
        let p = FilePath::new(relative_posix(&paths[i], root, known).as_str());
        assert(p@ == goal[i as int]);
        out.push(p);
        assert(path_views(out@) =~= was.push(p@));
        i += 1;
        assert(path_views(out@) =~= goal.take(i as int));
    }
    assert(path_views(out@) =~= goal);
    assert(path_views(paths@).len() == paths@.len());
    assert(path_views(out@).len() == out@.len());
    issue.with_paths(&out)
}

/// The name of a file, or nothing.
pub open spec fn shown_name(path: PathView) -> Seq<char> {
    match path.file_name() {
        Some(n) => n,
        None => Seq::empty(),
    }
}

pub open spec fn shown_names(v: Seq<PathView>) -> Seq<Seq<char>> {
    v.map_values(|p: PathView| shown_name(p))
}

/// A cycle as a chain of file names.
pub open spec fn cycle_path(cycle: Seq<PathView>) -> Seq<char> {
    join(shown_names(cycle), " \u{2192} "@)
}

/// A cycle as a chain of file names; one with more than `max` files as the first
/// two, their number, and the last.
pub open spec fn cycle_summary(cycle: Seq<PathView>, max: nat) -> Seq<char> {
    if cycle.len() <= max {
        cycle_path(cycle)
    } else {
        cycle_path(
            if cycle.len() < 2 {
                cycle
            } else {
                cycle.take(2)
            },
        ) + " \u{2192} … ("@ + decimal(cycle.len()) + " total) \u{2192} "@ + shown_name(
            cycle.last(),
        )
    }
}

fn name_of(path: &FilePath) -> (r: String)
    ensures
        r@ == shown_name(path@),
{
    match path.file_name() {
        Some(n) => n.to_owned(),
        None => {
            let r = String::new();
            assert(r@ =~= Seq::empty());
            r
        },
    }
}

fn names_up_to(cycle: &Vec<FilePath>, n: usize) -> (r: Vec<String>)
    requires
        n <= cycle@.len(),
    ensures
        views(r@) == shown_names(path_views(cycle@).take(n as int)),
{
    let ghost goal = shown_names(path_views(cycle@).take(n as int));
    let mut r: Vec<String> = Vec::new();
    let mut i: usize = 0;
    while i < n
        invariant
            i <= n <= cycle@.len(),
            goal == shown_names(path_views(cycle@).take(n as int)),
            views(r@) == goal.take(i as int),
        decreases n - i,
    {
        let ghost was = views(r@);
        let s = name_of(&cycle[i]);
        assert(s@ == goal[i as int]);
        r.push(s);
        assert(views(r@) =~= was.push(s@));
        i += 1;
        assert(views(r@) =~= goal.take(i as int));
    }
    assert(views(r@) =~= goal);
    r
}

/// A cycle as a chain of file names.
pub fn format_cycle_path(cycle: &Vec<FilePath>) -> (r: String)
    ensures
        r@ == cycle_path(path_views(cycle@)),
{
    let names = names_up_to(cycle, cycle.len());
    assert(path_views(cycle@).take(cycle@.len() as int) =~= path_views(cycle@));
    join_with(&names, " \u{2192} ")
}

/// A cycle as a chain of file names that stays short: large ones would make a
/// table too wide.
pub fn format_cycle_summary(cycle: &Vec<FilePath>, max: usize) -> (r: String)
    ensures
        r@ == cycle_summary(path_views(cycle@), max as nat),
{
    if cycle.len() <= max {
        return format_cycle_path(cycle);
    }
    let n: usize = if cycle.len() < 2 {
        cycle.len()
    } else {
        2
    };
    let mut r = join_with(&names_up_to(cycle, n), " \u{2192} ");
    proof {
        if cycle@.len() < 2 {
            assert(path_views(cycle@).take(n as int) =~= path_views(cycle@));
        }
    }
    r.append(" \u{2192} … (");
    r.append(decimal_text(cycle.len() as u64).as_str());
    r.append(" total) \u{2192} ");
    let last = &cycle[cycle.len() - 1];
    assert(path_views(cycle@).last() == last@);
    r.append(name_of(last).as_str());
    r
}

/// A file of the project is written as seen from the project, without a slash
/// before it, whether its path or only where it leads lies below the project.
pub proof fn files_of_the_project_are_shown_from_it(
    path: PathView,
    root: PathView,
    known: Seq<ResolvedPath>,
    rest: PathView,
)
    requires
        !rest.absolute,
        rest.parts.len() > 0 ==> rest.parts[0] != dot(),
        match (canonical_of(known, path), canonical_of(known, root)) {
            (Some(p), Some(r)) => p.same(r.joined(rest)),
            _ => path.same(root.joined(rest)),
        },
    ensures
        relative_text(path, root, known) == rest.plain(),
{
    reveal_strlit("/");
    assert("/"@ =~= seq!['/']);
    match (canonical_of(known, path), canonical_of(known, root)) {
        (Some(p), Some(r)) => {
            what_was_joined_is_behind(r, rest);
        },
        _ => {
            what_was_joined_is_behind(root, rest);
        },
    }
}

/// A cycle that is short enough is shown whole; a longer one starts with its first two
/// files, says how many there are, and ends with its last.
pub proof fn long_cycles_are_shortened(cycle: Seq<PathView>, max: nat)
    requires
        cycle.len() >= 2,
    ensures
        cycle.len() <= max ==> cycle_summary(cycle, max) == cycle_path(cycle),
        cycle.len() > max ==> has_prefix(
            cycle_summary(cycle, max),
            shown_name(cycle[0]) + " \u{2192} "@ + shown_name(cycle[1]),
        ) && has_suffix(cycle_summary(cycle, max), shown_name(cycle.last())) && contains_text(
            cycle_summary(cycle, max),
            decimal(cycle.len()) + " total"@,
        ),
{
    if cycle.len() > max {
        let two = cycle.take(2);
        let names = shown_names(two);
        let head = shown_name(cycle[0]) + " \u{2192} "@ + shown_name(cycle[1]);
        assert(names.len() == 2);
        assert(names.drop_last().len() == 1);
        assert(names.drop_last()[0] == shown_name(cycle[0]));
        reveal_with_fuel(join, 3);
        assert(cycle_path(two) =~= head);
        let all = cycle_summary(cycle, max);
        let last = shown_name(cycle.last());
        assert(all.take(head.len() as int) =~= head);
        assert(all.skip(all.len() - last.len()) =~= last);
        reveal_strlit(" total) \u{2192} ");
        reveal_strlit(" total");
        let open = " \u{2192} … ("@;
        let count = decimal(cycle.len()) + " total"@;
        let at = (head.len() + open.len()) as int;
        assert(all.subrange(at, at + count.len()) =~= count);
        assert(occurs_at(all, count, at));
    }
}

} // verus!
