//! Which clones are shown.
use crate::issue::{issue_views, occurrence_views, Issue, IssueView, OccurrenceView};
use crate::path::{FilePath, PathView};
use crate::scope::{canonical, canonical_of, ResolvedPath};
use crate::text::{
    decimal, decimals_read_back, is_ascii_digit, number_in, parse_number, parted_last, split_last,
    texts_part_at_the_last,
};
use vstd::prelude::*;

verus! {

/// How much of the code is left out of account when it is compared.
#[derive(Debug, Clone, Copy, PartialEq, Eq, Structural)]
pub enum DupesMode {
    Strict,
    Mild,
    Weak,
    Semantic,
}

impl Default for DupesMode {
    fn default() -> (r: Self)
        ensures
            r == DupesMode::Mild,
    {
        DupesMode::Mild
    }
}

/// A place that clones are looked for at.
#[derive(Debug)]
pub struct Trace {
    pub file: String,
    pub line: u32,
}

/// A place that cannot be read.
#[derive(Debug)]
pub enum TraceError {
    /// There is no colon.
    NoLine { arg: String },
    /// What stands behind the colon is no number.
    NotANumber { text: String },
}

#[allow(inconsistent_fields)]
pub enum TraceErrorView {
    NoLine { arg: Seq<char> },
    NotANumber { text: Seq<char> },
}

impl View for TraceError {
    type V = TraceErrorView;

    open spec fn view(&self) -> TraceErrorView {
        match self {
            TraceError::NoLine { arg } => TraceErrorView::NoLine { arg: arg@ },
            TraceError::NotANumber { text } => TraceErrorView::NotANumber { text: text@ },
        }
    }
}

impl TraceErrorView {
    /// The error in words.
    pub open spec fn words(self) -> Seq<char> {
        match self {
            TraceErrorView::NoLine { arg } => "--trace expects <file>:<line>, got: "@ + arg,
            TraceErrorView::NotANumber { text } => "--trace line must be an integer, got: "@ + text,
        }
    }
}

impl TraceError {
    /// The error in words.
    pub fn describe(&self) -> (r: String)
        ensures
            r@ == self@.words(),
    {
        match self {
            TraceError::NoLine { arg } => {
                let mut r = "--trace expects <file>:<line>, got: ".to_owned();
                r.append(arg.as_str());
                r
            },
            TraceError::NotANumber { text } => {
                let mut r = "--trace line must be an integer, got: ".to_owned();
                r.append(text.as_str());
                r
            },
        }
    }
}

/// The file and the line that a text with a colon between them stands for.
pub open spec fn trace_in(arg: Seq<char>) -> Option<(Seq<char>, u32)> {
    match parted_last(arg, ':') {
        Some(p) => match number_in(p.1) {
            Some(n) => Some((p.0, n)),
            None => None,
        },
        None => None,
    }
}

/// Reads a place: a file and a line with a colon between them.
pub fn parse_trace(arg: &str) -> (r: Result<Trace, TraceError>)
    ensures
        match r {
            Ok(t) => trace_in(arg@) == Some((t.file@, t.line)),
            Err(_) => trace_in(arg@) is None,
        },
        match r {
            Ok(t) => parted_last(arg@, ':') matches Some(p) && p.0 == t.file@ && number_in(p.1)
                == Some(t.line),
            Err(e) => match parted_last(arg@, ':') {
                None => e@ == (TraceErrorView::NoLine { arg: arg@ }),
                Some(p) => number_in(p.1) is None && e@ == (TraceErrorView::NotANumber {
                    text: p.1,
                }),
            },
        },
{
    match split_last(arg, ':') {
        None => Err(TraceError::NoLine { arg: arg.to_owned() }),
        Some((file, line)) => match parse_number(line.as_str()) {
            Some(n) => Ok(Trace { file, line: n }),
            None => Err(TraceError::NotANumber { text: line }),
        },
    }
}

/// Where a path leads, or the path itself if that is not known.
pub open spec fn leads_to(known: Seq<ResolvedPath>, path: PathView) -> PathView {
    match canonical_of(known, path) {
        Some(p) => p,
        None => path,
    }
}

/// Whether one place of a clone holds the line of the file.
pub open spec fn holds_line(
    o: OccurrenceView,
    known: Seq<ResolvedPath>,
    path: PathView,
    line: u32,
) -> bool {
    leads_to(known, o.path).same(path) && o.start_line <= line <= o.end_line
}

/// Whether a finding is a clone with a place that holds the line of the file.
pub open spec fn matches_trace(
    issue: IssueView,
    known: Seq<ResolvedPath>,
    path: PathView,
    line: u32,
) -> bool {
    match issue {
        IssueView::Duplicate { occurrences, .. } => exists|i: int|
            0 <= i < occurrences.len() && holds_line(
                #[trigger] occurrences[i],
                known,
                path,
                line,
            ),
        _ => false,
    }
}

/// Whether a finding is a clone with a place that holds the line of the file.
pub fn issue_matches_trace(
    issue: &Issue,
    known: &Vec<ResolvedPath>,
    path: &FilePath,
    line: u32,
) -> (r: bool)
    ensures
        r == matches_trace(issue@, known@, path@, line),
{
    match issue {
        Issue::Duplicate { occurrences, .. } => {
            let ghost all = occurrence_views(occurrences@);
            let mut i: usize = 0;
            while i < occurrences.len()
                invariant
                    i <= occurrences@.len(),
                    all == occurrence_views(occurrences@),
                    issue@ matches IssueView::Duplicate { occurrences: o, .. } && o == all,
                    forall|j: int|
                        0 <= j < i ==> !holds_line(#[trigger] all[j], known@, path@, line),
                decreases occurrences@.len() - i,
            {
                let o = &occurrences[i];
                assert(all[i as int] == o@);
                let place = match canonical(known, &o.path) {
                    Some(p) => p,
                    None => o.path.clone(),
                };
                if place.same_as(path) && o.start_line <= line && line <= o.end_line {
                    return true;
                }
                i += 1;
            }
            false
        },
        _ => false,
    }
}

/// Whether a finding is a clone whose places are all in one directory.
pub open spec fn in_one_directory(issue: IssueView) -> bool {
    match issue {
        IssueView::Duplicate { occurrences, .. } => exists|dir: PathView| #[trigger]
            all_in(occurrences, dir),
        _ => false,
    }
}

/// Whether a place that has a directory is among them, and all that have one are
/// in `dir`.
pub open spec fn all_in(occurrences: Seq<OccurrenceView>, dir: PathView) -> bool {
    &&& exists|i: int|
        0 <= i < occurrences.len() && (#[trigger] occurrences[i]).path.parent() is Some
    &&& forall|i: int|
        0 <= i < occurrences.len() && (#[trigger] occurrences[i]).path.parent() is Some
            ==> occurrences[i].path.parent()->0.same(dir)
}

/// Whether a finding is a clone whose places are all in one directory.
pub fn is_intra_directory(issue: &Issue) -> (r: bool)
    ensures
        r == in_one_directory(issue@),
{
    match issue {
        Issue::Duplicate { occurrences, .. } => {
            let ghost all = occurrence_views(occurrences@);
            let mut first: Option<FilePath> = None;
            let mut i: usize = 0;
            while i < occurrences.len()
                invariant
                    i <= occurrences@.len(),
                    all == occurrence_views(occurrences@),
                    issue@ matches IssueView::Duplicate { occurrences: o, .. } && o == all,
                    match first {
                        None => forall|j: int|
                            0 <= j < i ==> (#[trigger] all[j]).path.parent() is None,
                        Some(dir) => (exists|j: int|
                            0 <= j < i && (#[trigger] all[j]).path.parent() is Some) && (forall|
                            j: int,
                        |
                            0 <= j < i && (#[trigger] all[j]).path.parent() is Some
                                ==> all[j].path.parent()->0.same(dir@)),
                    },
                decreases occurrences@.len() - i,
            {
                assert(all[i as int] == occurrences@[i as int]@);
                if let Some(parent) = occurrences[i].path.parent() {
                    match &first {
                        None => {
                            first = Some(parent);
                        },
                        Some(dir) => {
                            if !parent.same_as(dir) {
                                proof {
                                    let j = choose|j: int|
                                        0 <= j < i && (#[trigger] all[j]).path.parent() is Some;
                                    assert(all[j].path.parent()->0.same(dir@));
                                    assert forall|d: PathView| !(#[trigger] all_in(all, d)) by {
                                        if all_in(all, d) {
                                            assert(all[j].path.parent()->0.same(d));
                                            assert(all[i as int].path.parent()->0.same(d));
                                        }
                                    }
                                }
                                return false;
                            }
                        },
                    }
                }
                i += 1;
            }
            proof {
                if first is Some {
                    assert(all_in(all, first->0@));
                } else {
                    assert forall|d: PathView| !(#[trigger] all_in(all, d)) by {}
                }
            }
            first.is_some()
        },
        _ => false,
    }
}

/// Which findings are shown: with a place, only clones there; and clones in one
/// directory only if those are not left out.
pub open spec fn is_shown(
    issue: IssueView,
    known: Seq<ResolvedPath>,
    trace: Option<(PathView, u32)>,
    skip_local: bool,
) -> bool {
    &&& trace matches Some(t) ==> matches_trace(issue, known, t.0, t.1)
    &&& skip_local ==> !in_one_directory(issue)
}

/// The findings that are shown.
pub open spec fn shown(
    v: Seq<IssueView>,
    known: Seq<ResolvedPath>,
    trace: Option<(PathView, u32)>,
    skip_local: bool,
) -> Seq<IssueView>
    decreases v.len(),
{
    if v.len() == 0 {
        Seq::empty()
    } else {
        let before = shown(v.drop_last(), known, trace, skip_local);
        if is_shown(v.last(), known, trace, skip_local) {
            before.push(v.last())
        } else {
            before
        }
    }
}

pub open spec fn trace_view(trace: Option<(FilePath, u32)>) -> Option<(PathView, u32)> {
    match trace {
        Some(t) => Some((t.0@, t.1)),
        None => None,
    }
}

/// The findings that are shown, in order.
pub fn show(
    issues: &Vec<Issue>,
    known: &Vec<ResolvedPath>,
    trace: &Option<(FilePath, u32)>,
    skip_local: bool,
) -> (r: Vec<Issue>)
    ensures
        issue_views(r@) == shown(issue_views(issues@), known@, trace_view(*trace), skip_local),
{
    let ghost all = issue_views(issues@);
    let ghost at = trace_view(*trace);
    let mut r: Vec<Issue> = Vec::new();
    let mut i: usize = 0;
    assert(issue_views(r@) =~= shown(all.take(0), known@, at, skip_local));
    while i < issues.len()
        invariant
            i <= issues@.len(),
            all == issue_views(issues@),
            at == trace_view(*trace),
            issue_views(r@) == shown(all.take(i as int), known@, at, skip_local),
        decreases issues@.len() - i,
    {
        let issue = &issues[i];
        proof {
            assert(all.take(i + 1).drop_last() =~= all.take(i as int));
            assert(all.take(i + 1).last() == issue@);
        }
        let traced = match trace {
            Some((path, line)) => issue_matches_trace(issue, known, path, *line),
            None => true,
        };
        if traced && !(skip_local && is_intra_directory(issue)) {
            let ghost was = issue_views(r@);
            r.push(issue.clone());
            assert(issue_views(r@) =~= was.push(issue@));
        }
        i += 1;
    }
    assert(all.take(i as int) =~= all);
    r
}

/// In how many files a clone has to occur: as often as is asked for, or else as
/// the settings say.
pub fn min_occurrences(asked: Option<usize>, configured: usize) -> (r: usize)
    ensures
        r == (match asked {
            Some(n) => n,
            None => configured,
        }),
{
    match asked {
        Some(n) => n,
        None => configured,
    }
}

/// A place that is written as a file, a colon and a line is read as that file and
/// that line, whatever colons the file has in its name.
pub proof fn traces_read_back(file: Seq<char>, line: u32)
    ensures
        trace_in(file + ":"@ + decimal(line as nat)) == Some((file, line)),
{
    reveal_strlit(":");
    let d = decimal(line as nat);
    decimals_read_back(line as nat);
    assert(!d.contains(':')) by {
        if d.contains(':') {
            let k = choose|k: int| 0 <= k < d.len() && d[k] == ':';
            assert(is_ascii_digit(d[k]));
        }
    }
    assert(file + ":"@ + d =~= file.push(':') + d);
    texts_part_at_the_last(file, ':', d);
}

/// A clone is shown for a line if and only if one of its places, first and last line
/// included, holds it; no other finding is.
pub proof fn traces_find_every_copy(
    token_count: u32,
    occurrences: Seq<OccurrenceView>,
    known: Seq<ResolvedPath>,
    path: PathView,
    line: u32,
    i: int,
)
    requires
        0 <= i < occurrences.len(),
        occurrences[i].start_line <= line <= occurrences[i].end_line,
        canonical_of(known, occurrences[i].path) matches Some(p) ==> p.same(path),
        canonical_of(known, occurrences[i].path) is None ==> occurrences[i].path.same(path),
    ensures
        matches_trace(IssueView::Duplicate { token_count, occurrences }, known, path, line),
{
    let issue = IssueView::Duplicate { token_count, occurrences };
    assert(holds_line(issue->occurrences[i], known, path, line));
    assert(matches_trace(issue, known, path, line));
}

/// A clone that is shown for a line holds it in one of its places.
pub proof fn traced_clones_hold_the_line(
    issue: IssueView,
    known: Seq<ResolvedPath>,
    path: PathView,
    line: u32,
)
    requires
        matches_trace(issue, known, path, line),
    ensures
        issue is Duplicate,
        exists|i: int|
            0 <= i < issue->occurrences.len() && (#[trigger] issue->occurrences[i]).start_line
                <= line <= issue->occurrences[i].end_line,
{
    let i = choose|i: int|
        0 <= i < issue->occurrences.len() && holds_line(
            #[trigger] issue->occurrences[i],
            known,
            path,
            line,
        );
    assert(issue->occurrences[i].start_line <= line <= issue->occurrences[i].end_line);
}

/// A clone between two directories is not local; one whose places are all in the same
/// directory is.
pub proof fn local_clones_stay_in_one_directory(
    token_count: u32,
    occurrences: Seq<OccurrenceView>,
    i: int,
    j: int,
)
    requires
        0 <= i < occurrences.len(),
        0 <= j < occurrences.len(),
        occurrences[i].path.parent() is Some,
        occurrences[j].path.parent() is Some,
    ensures
        !occurrences[i].path.parent()->0.same(occurrences[j].path.parent()->0)
            ==> !in_one_directory(IssueView::Duplicate { token_count, occurrences }),
        (forall|k: int|
            0 <= k < occurrences.len() ==> (#[trigger] occurrences[k]).path.parent() is Some
                && occurrences[k].path.parent()->0.same(occurrences[i].path.parent()->0))
            ==> in_one_directory(IssueView::Duplicate { token_count, occurrences }),
{
    let issue = IssueView::Duplicate { token_count, occurrences };
    if in_one_directory(issue) {
        let dir = choose|dir: PathView| #[trigger] all_in(occurrences, dir);
        assert(occurrences[i].path.parent()->0.same(dir));
        assert(occurrences[j].path.parent()->0.same(dir));
    }
    if forall|k: int|
        0 <= k < occurrences.len() ==> (#[trigger] occurrences[k]).path.parent() is Some
            && occurrences[k].path.parent()->0.same(occurrences[i].path.parent()->0) {
        assert(all_in(issue->occurrences, occurrences[i].path.parent()->0));
        assert(in_one_directory(issue));
    }
}

/// Exactly those findings are shown that are asked for, in their order: all of them
/// if nothing is asked for, and with a line or without local clones fewer and fewer.
pub proof fn findings_are_shown_in_order(
    v: Seq<IssueView>,
    known: Seq<ResolvedPath>,
    trace: Option<(PathView, u32)>,
    skip_local: bool,
)
    ensures
        shown(v, known, None, false) == v,
        shown(v, known, trace, false) == v.filter(
            |i: IssueView| trace matches Some(t) ==> matches_trace(i, known, t.0, t.1),
        ),
        shown(v, known, None, true) == v.filter(|i: IssueView| !in_one_directory(i)),
        shown(v, known, trace, true) == shown(v, known, trace, false).filter(
            |i: IssueView| !in_one_directory(i),
        ),
    decreases v.len(),
{
    reveal(Seq::filter);
    if v.len() > 0 {
        findings_are_shown_in_order(v.drop_last(), known, trace, skip_local);
        assert(v.drop_last().push(v.last()) =~= v);
        let a = shown(v.drop_last(), known, trace, false);
        assert(a.push(v.last()).drop_last() =~= a);
    } else {
        assert(shown(v, known, None, false) =~= v);
    }
}

} // verus!
