//! Which findings an audit of a change is about.
use crate::collections::{text_set_contains, text_set_contents, text_set_len};
use crate::issue::{occurrence_views, path_views, DuplicateOccurrence, Issue, IssueView, OccurrenceView};
use crate::path::{FilePath, PathView};
use crate::types::SmellRule;
use rustc_hash::FxHashSet;
use vstd::prelude::*;

verus! {

/// A path and where it leads, with all links followed.
#[derive(Debug)]
pub struct ResolvedPath {
    pub path: FilePath,
    pub canonical: FilePath,
}

/// Where a path leads, if that is known.
pub open spec fn canonical_of(known: Seq<ResolvedPath>, path: PathView) -> Option<PathView>
    decreases known.len(),
{
    if known.len() == 0 {
        None
    } else if known[0].path@.same(path) {
        Some(known[0].canonical@)
    } else {
        canonical_of(known.skip(1), path)
    }
}

/// Where a path leads, if that is known.
pub fn canonical(known: &Vec<ResolvedPath>, path: &FilePath) -> (r: Option<FilePath>)
    ensures
        match r {
            Some(p) => canonical_of(known@, path@) == Some(p@),
            None => canonical_of(known@, path@) is None,
        },
{
    let mut i: usize = 0;
    assert(known@.skip(0) =~= known@);
    while i < known.len()
        invariant
            i <= known@.len(),
            canonical_of(known@, path@) == canonical_of(known@.skip(i as int), path@),
        decreases known@.len() - i,
    {
        assert(known@.skip(i as int)[0] == known@[i as int]);
        assert(known@.skip(i as int).skip(1) =~= known@.skip(i + 1));
        if known[i].path.same_as(path) {
            return Some(known[i].canonical.clone());
        }
        i += 1;
    }
    None
}

/// A question about a change.
#[derive(Debug)]
pub enum DiffQuery {
    /// Whether a line was added in a range of lines.
    Range { path: FilePath, start: u32, end: u32 },
    /// Whether the file was touched.
    File { path: FilePath },
    /// Whether lines of the file were deleted.
    Deletions { path: FilePath },
}

#[allow(inconsistent_fields)]
pub enum QueryView {
    Range { path: PathView, start: u32, end: u32 },
    File { path: PathView },
    Deletions { path: PathView },
}

impl View for DiffQuery {
    type V = QueryView;

    open spec fn view(&self) -> QueryView {
        match self {
            DiffQuery::Range { path, start, end } => QueryView::Range {
                path: path@,
                start: *start,
                end: *end,
            },
            DiffQuery::File { path } => QueryView::File { path: path@ },
            DiffQuery::Deletions { path } => QueryView::Deletions { path: path@ },
        }
    }
}

pub open spec fn query_views(v: Seq<DiffQuery>) -> Seq<QueryView> {
    v.map_values(|q: DiffQuery| q@)
}

impl QueryView {
    /// Whether both ask the same.
    pub open spec fn same(self, other: QueryView) -> bool {
        match (self, other) {
            (
                QueryView::Range { path, start, end },
                QueryView::Range { path: path2, start: start2, end: end2 },
            ) => path.same(path2) && start == start2 && end == end2,
            (QueryView::File { path }, QueryView::File { path: path2 }) => path.same(path2),
            (QueryView::Deletions { path }, QueryView::Deletions { path: path2 }) => path.same(
                path2,
            ),
            _ => false,
        }
    }
}

impl DiffQuery {
    fn same_as(&self, other: &DiffQuery) -> (r: bool)
        ensures
            r == self@.same(other@),
    {
        match (self, other) {
            (
                DiffQuery::Range { path, start, end },
                DiffQuery::Range { path: path2, start: start2, end: end2 },
            ) => path.same_as(path2) && *start == *start2 && *end == *end2,
            (DiffQuery::File { path }, DiffQuery::File { path: path2 }) => path.same_as(path2),
            (DiffQuery::Deletions { path }, DiffQuery::Deletions { path: path2 }) => path.same_as(
                path2,
            ),
            _ => false,
        }
    }
}

/// What a change says about the findings of an audit: the questions about it
/// whose answer is yes.
#[derive(Debug)]
pub struct DiffAnswers {
    /// Whether the change touches nothing at all.
    pub empty: bool,
    pub yes: Vec<DiffQuery>,
}

/// What an audit is about: files that changed, or lines that were added.
#[derive(Debug)]
pub enum AuditScope {
    /// Where the paths of the changed files lead.
    File(FxHashSet<String>),
    Line(DiffAnswers),
}

/// Whether deletions elsewhere in a file can make a finding on an unchanged line
/// true.
///
/// Removing the last use of a name makes its import unused, and removing code
/// makes the remaining TODO comments denser. Every other finding is tied to
/// what stands on its own lines.
pub open spec fn deletions_matter(issue: IssueView) -> bool {
    match issue {
        IssueView::UnusedImport { .. } => true,
        IssueView::Smell { rule, .. } => rule == SmellRule::HighTodoDensity,
        _ => false,
    }
}

/// The questions about a change that decide on a finding: it is in scope if one
/// of them is answered with yes.
///
/// A clone is in scope if a line of one of its places was added, a cycle if one
/// of its files was touched. Another finding is in scope if a line in its range
/// was added, or, if it has none, if its file was touched.
pub open spec fn diff_queries(issue: IssueView) -> Seq<QueryView> {
    match issue {
        IssueView::Duplicate { occurrences, .. } => occurrences.map_values(
            |o: OccurrenceView| QueryView::Range {
                path: o.path,
                start: o.start_line,
                end: o.end_line,
            },
        ),
        IssueView::CircularDependency { cycle } => cycle.map_values(
            |p: PathView| QueryView::File { path: p },
        ),
        _ => match issue.range() {
            Some(range) => {
                let own = seq![
                    QueryView::Range { path: issue.path(), start: range.0, end: range.1 },
                ];
                if deletions_matter(issue) {
                    own.push(QueryView::Deletions { path: issue.path() })
                } else {
                    own
                }
            },
            None => seq![QueryView::File { path: issue.path() }],
        },
    }
}

/// Whether a question is answered with yes.
pub open spec fn answered(diff: DiffAnswers, query: QueryView) -> bool {
    exists|i: int| 0 <= i < diff.yes@.len() && (#[trigger] diff.yes@[i])@.same(query)
}

/// Whether a finding is in the scope of the added lines.
pub open spec fn in_diff_scope(issue: IssueView, diff: DiffAnswers) -> bool {
    exists|i: int| 0 <= i < diff_queries(issue).len() && answered(
        diff,
        #[trigger] diff_queries(issue)[i],
    )
}

/// The paths that decide whether a finding is about changed files: all places of
/// a clone and all files of a cycle, else its own.
pub open spec fn deciding_paths(issue: IssueView) -> Seq<PathView> {
    match issue {
        IssueView::Duplicate { .. } => issue.paths(),
        IssueView::CircularDependency { .. } => issue.paths(),
        _ => seq![issue.path()],
    }
}

/// Whether a path leads to a changed file.
pub open spec fn leads_into(
    path: PathView,
    changed: Set<Seq<char>>,
    known: Seq<ResolvedPath>,
) -> bool {
    match canonical_of(known, path) {
        Some(p) => changed.contains(p.plain()),
        None => false,
    }
}

/// Whether a finding is in the scope of the changed files.
pub open spec fn in_file_scope(
    issue: IssueView,
    changed: Set<Seq<char>>,
    known: Seq<ResolvedPath>,
) -> bool {
    exists|i: int| 0 <= i < deciding_paths(issue).len() && leads_into(
        #[trigger] deciding_paths(issue)[i],
        changed,
        known,
    )
}

/// Whether a finding is in scope. A file that could not be parsed was left out
/// of every other analysis: that makes the whole run incomplete, so scoping
/// never hides it.
pub open spec fn in_scope(issue: IssueView, scope: AuditScope, known: Seq<ResolvedPath>) -> bool {
    issue is ParseError || match scope {
        AuditScope::File(changed) => in_file_scope(issue, text_set_contents(changed), known),
        AuditScope::Line(diff) => in_diff_scope(issue, diff),
    }
}

fn deletions_can_invalidate(issue: &Issue) -> (r: bool)
    ensures
        r == deletions_matter(issue@),
{
    match issue {
        Issue::UnusedImport { .. } => true,
        Issue::Smell { rule, .. } => *rule == SmellRule::HighTodoDensity,
        _ => false,
    }
}

fn range_queries(occurrences: &Vec<DuplicateOccurrence>) -> (r: Vec<DiffQuery>)
    ensures
        query_views(r@) == occurrence_views(occurrences@).map_values(
            |o: OccurrenceView| QueryView::Range {
                path: o.path,
                start: o.start_line,
                end: o.end_line,
            },
        ),
{
    let ghost goal = occurrence_views(occurrences@).map_values(
        |o: OccurrenceView| QueryView::Range { path: o.path, start: o.start_line, end: o.end_line },
    );
    let mut r: Vec<DiffQuery> = Vec::new();
    let mut i: usize = 0;
    while i < occurrences.len()
        invariant
            i <= occurrences@.len(),
            goal == occurrence_views(occurrences@).map_values(
                |o: OccurrenceView| QueryView::Range {
                    path: o.path,
                    start: o.start_line,
                    end: o.end_line,
                },
            ),
            query_views(r@) == goal.take(i as int),
        decreases occurrences@.len() - i,
    {
        let o = &occurrences[i];
        let ghost was = query_views(r@);
        r.push(
            DiffQuery::Range { path: o.path.clone(), start: o.start_line, end: o.end_line },
        );
        assert(query_views(r@) =~= was.push(goal[i as int]));
        i += 1;
        assert(query_views(r@) =~= goal.take(i as int));
    }
    assert(query_views(r@) =~= goal);
    r
}

fn file_queries(paths: &Vec<FilePath>) -> (r: Vec<DiffQuery>)
    ensures
        query_views(r@) == path_views(paths@).map_values(|p: PathView| QueryView::File { path: p }),
{
    let ghost goal = path_views(paths@).map_values(|p: PathView| QueryView::File { path: p });
    let mut r: Vec<DiffQuery> = Vec::new();
    let mut i: usize = 0;
    while i < paths.len()
        invariant
            i <= paths@.len(),
            goal == path_views(paths@).map_values(|p: PathView| QueryView::File { path: p }),
            query_views(r@) == goal.take(i as int),
        decreases paths@.len() - i,
    {
        let ghost was = query_views(r@);
        r.push(DiffQuery::File { path: paths[i].clone() });
        assert(query_views(r@) =~= was.push(goal[i as int]));
        i += 1;
        assert(query_views(r@) =~= goal.take(i as int));
    }
    assert(query_views(r@) =~= goal);
    r
}

/// The questions about a change that decide on a finding.
pub fn queries_for(issue: &Issue) -> (r: Vec<DiffQuery>)
    ensures
        query_views(r@) == diff_queries(issue@),
{
    match issue {
        Issue::Duplicate { occurrences, .. } => range_queries(occurrences),
        Issue::CircularDependency { cycle } => file_queries(cycle),
        _ => match issue.range() {
            Some((start, end)) => {
                let mut r: Vec<DiffQuery> = Vec::new();
                r.push(DiffQuery::Range { path: issue.path(), start, end });
                if deletions_can_invalidate(issue) {
                    r.push(DiffQuery::Deletions { path: issue.path() });
                }
                assert(query_views(r@) =~= diff_queries(issue@));
                r
            },
            None => {
                let r = vec![DiffQuery::File { path: issue.path() }];
                assert(query_views(r@) =~= diff_queries(issue@));
                r
            },
        },
    }
}

fn is_answered(diff: &DiffAnswers, query: &DiffQuery) -> (r: bool)
    ensures
        r == answered(*diff, query@),
{
    let mut i: usize = 0;
    while i < diff.yes.len()
        invariant
            i <= diff.yes@.len(),
            forall|j: int| 0 <= j < i ==> !(#[trigger] diff.yes@[j])@.same(query@),
        decreases diff.yes@.len() - i,
    {
        if diff.yes[i].same_as(query) {
            return true;
        }
        i += 1;
    }
    false
}

fn issue_in_diff_scope(issue: &Issue, diff: &DiffAnswers) -> (r: bool)
    ensures
        r == in_diff_scope(issue@, *diff),
{
    let queries = queries_for(issue);
    let ghost all = diff_queries(issue@);
    let mut i: usize = 0;
    while i < queries.len()
        invariant
            i <= queries@.len(),
            all == query_views(queries@),
            all == diff_queries(issue@),
            forall|j: int| 0 <= j < i ==> !answered(*diff, #[trigger] all[j]),
        decreases queries@.len() - i,
    {
        assert(all[i as int] == queries@[i as int]@);
        if is_answered(diff, &queries[i]) {
            return true;
        }
        i += 1;
    }
    false
}

fn canonical_in_set(
    path: &FilePath,
    changed: &FxHashSet<String>,
    known: &Vec<ResolvedPath>,
) -> (r: bool)
    ensures
        r == leads_into(path@, text_set_contents(*changed), known@),
{
    match canonical(known, path) {
        Some(p) => text_set_contains(changed, p.plain().as_str()),
        None => false,
    }
}

fn paths_that_decide(issue: &Issue) -> (r: Vec<FilePath>)
    ensures
        path_views(r@) == deciding_paths(issue@),
{
    match issue {
        Issue::Duplicate { .. } => issue.paths(),
        Issue::CircularDependency { .. } => issue.paths(),
        _ => {
            let r = vec![issue.path()];
            assert(path_views(r@) =~= deciding_paths(issue@));
            r
        },
    }
}

fn issue_in_file_scope(
    issue: &Issue,
    changed: &FxHashSet<String>,
    known: &Vec<ResolvedPath>,
) -> (r: bool)
    ensures
        r == in_file_scope(issue@, text_set_contents(*changed), known@),
{
    let paths = paths_that_decide(issue);
    let ghost all = deciding_paths(issue@);
    let mut i: usize = 0;
    while i < paths.len()
        invariant
            i <= paths@.len(),
            all == path_views(paths@),
            all == deciding_paths(issue@),
            forall|j: int|
                0 <= j < i ==> !leads_into(
                    #[trigger] all[j],
                    text_set_contents(*changed),
                    known@,
                ),
        decreases paths@.len() - i,
    {
        assert(all[i as int] == paths@[i as int]@);
        if canonical_in_set(&paths[i], changed, known) {
            return true;
        }
        i += 1;
    }
    false
}

impl AuditScope {
    /// Whether a finding is in scope.
    pub fn contains(&self, issue: &Issue, known: &Vec<ResolvedPath>) -> (r: bool)
        ensures
            r == in_scope(issue@, *self, known@),
    {
        if matches!(issue, Issue::ParseError { .. }) {
            return true;
        }
        match self {
            AuditScope::File(changed) => issue_in_file_scope(issue, changed, known),
            AuditScope::Line(diff) => issue_in_diff_scope(issue, diff),
        }
    }

    /// Whether nothing changed.
    pub fn is_empty_set(&self) -> (r: bool)
        ensures
            r == match self {
                AuditScope::File(changed) => text_set_contents(*changed) == Set::<
                    Seq<char>,
                >::empty(),
                AuditScope::Line(diff) => diff.empty,
            },
    {
        match self {
            AuditScope::File(changed) => {
                let n: usize = text_set_len(changed);
                proof {
                    if text_set_contents(*changed) == Set::<Seq<char>>::empty() {
                        assert(text_set_contents(*changed).len() == 0);
                    }
                }
                n == 0
            },
            AuditScope::Line(diff) => diff.empty,
        }
    }
}

/// A file that could not be parsed is in scope, whatever the change is.
pub proof fn scope_never_hides_parse_errors(
    issue: IssueView,
    scope: AuditScope,
    known: Seq<ResolvedPath>,
)
    requires
        issue is ParseError,
    ensures
        in_scope(issue, scope, known),
{
}

/// A clone is in scope as soon as a line of one of its places was added.
pub proof fn one_changed_copy_is_enough(
    token_count: u32,
    occurrences: Seq<OccurrenceView>,
    diff: DiffAnswers,
    i: int,
)
    requires
        0 <= i < occurrences.len(),
        answered(
            diff,
            QueryView::Range {
                path: occurrences[i].path,
                start: occurrences[i].start_line,
                end: occurrences[i].end_line,
            },
        ),
    ensures
        in_diff_scope(IssueView::Duplicate { token_count, occurrences }, diff),
{
    let issue = IssueView::Duplicate { token_count, occurrences };
    assert(answered(diff, diff_queries(issue)[i]));
}

/// A clone is in the scope of the changed files if and only if one of its places,
/// whichever, stands in a file that changed.
pub proof fn one_copy_in_a_changed_file_is_enough(
    token_count: u32,
    occurrences: Seq<OccurrenceView>,
    changed: Set<Seq<char>>,
    known: Seq<ResolvedPath>,
)
    ensures
        forall|i: int|
            0 <= i < occurrences.len() && leads_into(
                (#[trigger] occurrences[i]).path,
                changed,
                known,
            ) ==> in_file_scope(
                IssueView::Duplicate { token_count, occurrences },
                changed,
                known,
            ),
        in_file_scope(IssueView::Duplicate { token_count, occurrences }, changed, known)
            ==> exists|i: int|
            0 <= i < occurrences.len() && leads_into(
                (#[trigger] occurrences[i]).path,
                changed,
                known,
            ),
{
    let issue = IssueView::Duplicate { token_count, occurrences };
    assert forall|i: int|
        0 <= i < occurrences.len() && leads_into(
            (#[trigger] occurrences[i]).path,
            changed,
            known,
        ) implies in_file_scope(issue, changed, known) by {
        assert(deciding_paths(issue)[i] == occurrences[i].path);
    }
    if in_file_scope(issue, changed, known) {
        let i = choose|i: int| 0 <= i < deciding_paths(issue).len() && leads_into(
            #[trigger] deciding_paths(issue)[i],
            changed,
            known,
        );
        assert(leads_into(occurrences[i].path, changed, known));
    }
}

/// A finding that is neither a clone nor a cycle is in the scope of the changed
/// files if and only if its own file changed. In the scope of the added lines it is
/// if one of its own lines was added; without lines of its own, if its file was
/// touched; and on account of deletions alone only where these can make it true.
pub proof fn other_findings_go_by_their_own_place(
    issue: IssueView,
    diff: DiffAnswers,
    changed: Set<Seq<char>>,
    known: Seq<ResolvedPath>,
)
    requires
        !(issue is Duplicate),
        !(issue is CircularDependency),
    ensures
        in_file_scope(issue, changed, known) <==> leads_into(issue.path(), changed, known),
        issue.range() matches Some(r) ==> (in_diff_scope(issue, diff) <==> answered(
            diff,
            QueryView::Range { path: issue.path(), start: r.0, end: r.1 },
        ) || ((issue is UnusedImport || (issue matches IssueView::Smell { rule, .. } && rule
            == SmellRule::HighTodoDensity)) && answered(
            diff,
            QueryView::Deletions { path: issue.path() },
        ))),
        issue.range() is None ==> (in_diff_scope(issue, diff) <==> answered(
            diff,
            QueryView::File { path: issue.path() },
        )),
{
    assert(deciding_paths(issue)[0] == issue.path());
    if in_file_scope(issue, changed, known) {
        let i = choose|i: int| 0 <= i < deciding_paths(issue).len() && leads_into(
            #[trigger] deciding_paths(issue)[i],
            changed,
            known,
        );
        assert(i == 0);
    }
    let q = diff_queries(issue);
    match issue.range() {
        Some(r) => {
            assert(q[0] == (QueryView::Range { path: issue.path(), start: r.0, end: r.1 }));
            if deletions_matter(issue) {
                assert(q[1] == (QueryView::Deletions { path: issue.path() }));
            }
        },
        None => {
            assert(q[0] == (QueryView::File { path: issue.path() }));
        },
    }
}

/// A path leads to a changed file if and only if what it is known to lead to, by
/// the first entry for it, is one of them; a path of which nothing is known leads
/// nowhere.
pub proof fn changed_files_are_found_through_links(
    path: PathView,
    changed: Set<Seq<char>>,
    known: Seq<ResolvedPath>,
    k: int,
)
    requires
        0 <= k <= known.len(),
        forall|j: int| 0 <= j < k ==> !(#[trigger] known[j]).path@.same(path),
        k < known.len() ==> known[k].path@.same(path),
    ensures
        k < known.len() ==> (leads_into(path, changed, known) <==> changed.contains(
            known[k].canonical@.plain(),
        )),
        k == known.len() ==> !leads_into(path, changed, known),
    decreases k,
{
    if k > 0 {
        let rest = known.skip(1);
        assert(!known[0].path@.same(path));
        assert forall|j: int| 0 <= j < k - 1 implies !(#[trigger] rest[j]).path@.same(path) by {
            assert(rest[j] == known[j + 1]);
        }
        changed_files_are_found_through_links(path, changed, rest, k - 1);
        if k < known.len() {
            assert(rest[k - 1] == known[k]);
        }
    }
}

/// A file that changed brings every finding in it into scope, however the path is
/// spelled: two paths that are the same are in the same scope.
pub proof fn spelling_does_not_decide(
    path: PathView,
    other: PathView,
    changed: Set<Seq<char>>,
    known: Seq<ResolvedPath>,
)
    requires
        path.same(other),
    ensures
        leads_into(path, changed, known) == leads_into(other, changed, known),
    decreases known.len(),
{
    if known.len() > 0 {
        assert(known[0].path@.same(path) == known[0].path@.same(other));
        spelling_does_not_decide(path, other, changed, known.skip(1));
    }
}

/// A cycle is in scope as soon as one of its files was touched, by either way of
/// scoping.
pub proof fn one_changed_member_is_enough(
    cycle: Seq<PathView>,
    diff: DiffAnswers,
    changed: Set<Seq<char>>,
    known: Seq<ResolvedPath>,
    i: int,
)
    requires
        0 <= i < cycle.len(),
    ensures
        answered(diff, QueryView::File { path: cycle[i] }) ==> in_diff_scope(
            IssueView::CircularDependency { cycle },
            diff,
        ),
        leads_into(cycle[i], changed, known) ==> in_file_scope(
            IssueView::CircularDependency { cycle },
            changed,
            known,
        ),
{
    let issue = IssueView::CircularDependency { cycle };
    assert(diff_queries(issue)[i] == (QueryView::File { path: cycle[i] }));
    assert(deciding_paths(issue)[i] == cycle[i]);
}

/// Deletions bring only those findings into scope that they can make true: for
/// any other one no question about deletions is asked.
pub proof fn deletions_drag_nothing_else_in(issue: IssueView, path: PathView, i: int)
    requires
        0 <= i < diff_queries(issue).len(),
        diff_queries(issue)[i] == (QueryView::Deletions { path }),
    ensures
        issue is UnusedImport || (issue matches IssueView::Smell { rule, .. } && rule
            == SmellRule::HighTodoDensity),
{
}

} // verus!
