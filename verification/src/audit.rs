//! The audit of a change: what is reported of it, and the verdict.
use crate::collections::{text_set_contents, text_set_insert, text_set_len, text_set_new};
use crate::issue::{issue_views, path_views, AnalysisResults, Issue, IssueView};
use crate::path::{dot, path_of, what_was_joined_is_behind, FilePath, PathView};
use crate::scope::{in_scope, AuditScope, ResolvedPath};
use crate::selection::{family_keys, keeps, keys_of, ResolvedSelection};
use crate::text::{
    decimal, decimal_text, ends_with, has_suffix, join, lemma_split_join, lines, lines_of, same,
    split, split_on, trim, trimmed, views,
};
use crate::types::{lemma_contains_push, AnalysisStats, Selection};
use rustc_hash::FxHashSet;
use vstd::prelude::*;

verus! {

/// How an audit ends.
#[derive(Debug, Clone, Copy, PartialEq, Eq, Structural)]
pub enum Verdict {
    Pass,
    Warn,
    Fail,
}

/// The verdict on a number of findings: none pass, up to `max_issues` warn, more
/// fail; and where the counts differ from those that were agreed on, the run
/// fails whatever it found.
pub open spec fn verdict_on(found: nat, max_issues: nat, counts_differ: bool) -> Verdict {
    if counts_differ {
        Verdict::Fail
    } else if found == 0 {
        Verdict::Pass
    } else if found <= max_issues {
        Verdict::Warn
    } else {
        Verdict::Fail
    }
}

impl Verdict {
    pub open spec fn key(self) -> Seq<char> {
        match self {
            Verdict::Pass => "PASS"@,
            Verdict::Warn => "WARN"@,
            Verdict::Fail => "FAIL"@,
        }
    }

    /// The verdict in a word.
    pub fn label(&self) -> (r: &'static str)
        ensures
            r@ == self.key(),
    {
        match self {
            Verdict::Pass => "PASS",
            Verdict::Warn => "WARN",
            Verdict::Fail => "FAIL",
        }
    }

    /// Whether the run fails.
    pub fn is_fail(&self) -> (r: bool)
        ensures
            r == (*self == Verdict::Fail),
    {
        matches!(self, Verdict::Fail)
    }

    /// The verdict on a number of findings.
    pub fn on(found: usize, max_issues: usize, counts_differ: bool) -> (r: Verdict)
        ensures
            r == verdict_on(found as nat, max_issues as nat, counts_differ),
    {
        if counts_differ {
            Verdict::Fail
        } else if found == 0 {
            Verdict::Pass
        } else if found <= max_issues {
            Verdict::Warn
        } else {
            Verdict::Fail
        }
    }
}

/// Whether a list of names, each ended by a NUL, has that of a Python file.
pub open spec fn names_python(names: Seq<char>) -> bool {
    exists|i: int| 0 <= i < split_on(names, '\0').len() && has_suffix(
        #[trigger] split_on(names, '\0')[i],
        ".py"@,
    )
}

/// Whether the names of staged files, each ended by a NUL, have that of a Python
/// file among them. If not, there is nothing to audit.
pub fn has_staged_python(names: &str) -> (r: bool)
    ensures
        r == names_python(names@),
{
    let parts = split(names, '\0');
    let ghost all = split_on(names@, '\0');
    let mut i: usize = 0;
    while i < parts.len()
        invariant
            i <= parts@.len(),
            all == views(parts@),
            all == split_on(names@, '\0'),
            forall|j: int| 0 <= j < i ==> !has_suffix(#[trigger] all[j], ".py"@),
        decreases parts@.len() - i,
    {
        assert(all[i as int] == parts@[i as int]@);
        if ends_with(parts[i].as_str(), ".py") {
            return true;
        }
        i += 1;
    }
    false
}

/// Where the audited directory lies in a snapshot of the repository: as far
/// below it as it lies below the top of the repository.
pub open spec fn root_in_snapshot(snapshot: PathView, path: PathView, top: PathView) -> PathView {
    match path.behind(top) {
        Some(rest) => snapshot.joined(rest),
        None => snapshot.joined(path_of(Seq::empty())),
    }
}

/// Where the audited directory lies in a snapshot of the repository.
pub fn snapshot_project_root(snapshot: &FilePath, path: &FilePath, top: &FilePath) -> (r: FilePath)
    ensures
        r@ == root_in_snapshot(snapshot@, path@, top@),
{
    match path.behind(top) {
        Some(rest) => snapshot.join(&rest),
        None => {
            proof {
                reveal_strlit("");
                assert(""@ =~= Seq::empty());
            }
            snapshot.join(&FilePath::new(""))
        },
    }
}

/// The paths that a listing of changed files names, one in a line, as seen from
/// a directory.
pub open spec fn listed_paths(lines: Seq<Seq<char>>, root: PathView) -> Seq<PathView>
    decreases lines.len(),
{
    if lines.len() == 0 {
        Seq::empty()
    } else {
        let before = listed_paths(lines.drop_last(), root);
        let line = trim(lines.last());
        if line.len() == 0 {
            before
        } else {
            before.push(root.joined(path_of(line)))
        }
    }
}

/// The paths that a listing of changed files names.
pub fn changed_paths(listing: &str, root: &FilePath) -> (r: Vec<FilePath>)
    ensures
        path_views(r@) == listed_paths(lines(listing@), root@),
{
    let all = lines_of(listing);
    let ghost found = views(all@);
    let mut r: Vec<FilePath> = Vec::new();
    let mut i: usize = 0;
    assert(path_views(r@) =~= listed_paths(found.take(0), root@));
    while i < all.len()
        invariant
            i <= all@.len(),
            found == views(all@),
            path_views(r@) == listed_paths(found.take(i as int), root@),
        decreases all@.len() - i,
    {
        proof {
            assert(found.take(i + 1).drop_last() =~= found.take(i as int));
            assert(found.take(i + 1).last() == all@[i as int]@);
            reveal_strlit("");
        }
        let t = trimmed(all[i].as_str());
        proof {
            if t@.len() == 0 {
                assert(t@ =~= ""@);
            }
        }
        if !same(t.as_str(), "") {
            let ghost was = path_views(r@);
            let p = root.join(&FilePath::new(t.as_str()));
            r.push(p);
            assert(path_views(r@) =~= was.push(p@));
        }
        i += 1;
    }
    assert(found.take(i as int) =~= found);
    r
}

/// The texts of a list of paths.
pub open spec fn path_texts(v: Seq<PathView>) -> Set<Seq<char>> {
    v.map_values(|p: PathView| p.plain()).to_set()
}

/// The scope of a list of changed files.
pub fn file_scope(changed: &Vec<FilePath>) -> (r: AuditScope)
    ensures
        r matches AuditScope::File(set) && text_set_contents(set) == path_texts(
            path_views(changed@),
        ),
{
    let ghost all = path_views(changed@).map_values(|p: PathView| p.plain());
    let mut set = text_set_new();
    let mut i: usize = 0;
    while i < changed.len()
        invariant
            i <= changed@.len(),
            all == path_views(changed@).map_values(|p: PathView| p.plain()),
            forall|t: Seq<char>| #[trigger]
                text_set_contents(set).contains(t) <==> all.take(i as int).contains(t),
        decreases changed@.len() - i,
    {
        let ghost was = text_set_contents(set);
        let text = changed[i].plain();
        assert(text@ == all[i as int]);
        text_set_insert(&mut set, text.as_str());
        proof {
            assert(all.take(i + 1) =~= all.take(i as int).push(all[i as int]));
            assert forall|t: Seq<char>| #[trigger]
                text_set_contents(set).contains(t) <==> all.take(i + 1).contains(t) by {
                lemma_contains_push(all.take(i as int), all[i as int], t);
                assert(was.contains(t) <==> all.take(i as int).contains(t));
            }
        }
        i += 1;
    }
    assert(all.take(i as int) =~= all);
    assert(text_set_contents(set) =~= path_texts(path_views(changed@)));
    AuditScope::File(set)
}

/// Those findings of a list that count.
pub open spec fn counted(v: Seq<IssueView>, rules: Option<FxHashSet<String>>) -> Seq<IssueView>
    decreases v.len(),
{
    if v.len() == 0 {
        Seq::empty()
    } else {
        let before = counted(v.drop_last(), rules);
        if keeps(rules, v.last()) {
            before.push(v.last())
        } else {
            before
        }
    }
}

/// Those findings of a list that are in scope.
pub open spec fn scoped(v: Seq<IssueView>, scope: AuditScope, known: Seq<ResolvedPath>) -> Seq<
    IssueView,
>
    decreases v.len(),
{
    if v.len() == 0 {
        Seq::empty()
    } else {
        let before = scoped(v.drop_last(), scope, known);
        if in_scope(v.last(), scope, known) {
            before.push(v.last())
        } else {
            before
        }
    }
}

/// Those findings that count, in order.
pub fn keep_selected(issues: &Vec<Issue>, selection: &ResolvedSelection) -> (r: Vec<Issue>)
    ensures
        issue_views(r@) == counted(issue_views(issues@), selection.rules),
{
    let ghost all = issue_views(issues@);
    let mut r: Vec<Issue> = Vec::new();
    let mut i: usize = 0;
    assert(issue_views(r@) =~= counted(all.take(0), selection.rules));
    while i < issues.len()
        invariant
            i <= issues@.len(),
            all == issue_views(issues@),
            issue_views(r@) == counted(all.take(i as int), selection.rules),
        decreases issues@.len() - i,
    {
        proof {
            assert(all.take(i + 1).drop_last() =~= all.take(i as int));
            assert(all.take(i + 1).last() == issues@[i as int]@);
        }
        if selection.keeps(&issues[i]) {
            let ghost was = issue_views(r@);
            r.push(issues[i].clone());
            assert(issue_views(r@) =~= was.push(issues@[i as int]@));
        }
        i += 1;
    }
    assert(all.take(i as int) =~= all);
    r
}

/// Those findings that are in scope, in order.
pub fn keep_in_scope(
    issues: &Vec<Issue>,
    scope: &AuditScope,
    known: &Vec<ResolvedPath>,
) -> (r: Vec<Issue>)
    ensures
        issue_views(r@) == scoped(issue_views(issues@), *scope, known@),
{
    let ghost all = issue_views(issues@);
    let mut r: Vec<Issue> = Vec::new();
    let mut i: usize = 0;
    assert(issue_views(r@) =~= scoped(all.take(0), *scope, known@));
    while i < issues.len()
        invariant
            i <= issues@.len(),
            all == issue_views(issues@),
            issue_views(r@) == scoped(all.take(i as int), *scope, known@),
        decreases issues@.len() - i,
    {
        proof {
            assert(all.take(i + 1).drop_last() =~= all.take(i as int));
            assert(all.take(i + 1).last() == issues@[i as int]@);
        }
        if scope.contains(&issues[i], known) {
            let ghost was = issue_views(r@);
            r.push(issues[i].clone());
            assert(issue_views(r@) =~= was.push(issues@[i as int]@));
        }
        i += 1;
    }
    assert(all.take(i as int) =~= all);
    r
}

/// A snapshot of what is staged, and the repository that it was taken of.
#[derive(Debug)]
pub struct Snapshot {
    pub top: FilePath,
    pub real_top: FilePath,
}

/// A path in a snapshot as it is in the repository; any other path as it is.
pub open spec fn real_path(path: PathView, top: PathView, real_top: PathView) -> PathView {
    match path.behind(top) {
        Some(rest) => real_top.joined(rest),
        None => path,
    }
}

/// The paths of a list as they are in the repository.
pub open spec fn real_paths(v: Seq<PathView>, top: PathView, real_top: PathView) -> Seq<PathView> {
    v.map_values(|p: PathView| real_path(p, top, real_top))
}

/// A finding with its paths as they are in the repository.
pub open spec fn real_issue(issue: IssueView, top: PathView, real_top: PathView) -> IssueView {
    issue.with_paths(real_paths(issue.paths(), top, real_top))
}

/// The findings of a list with their paths as they are in the repository.
pub open spec fn real_issues(v: Seq<IssueView>, top: PathView, real_top: PathView) -> Seq<
    IssueView,
> {
    v.map_values(|i: IssueView| real_issue(i, top, real_top))
}

impl Snapshot {
    /// A path in the snapshot as it is in the repository; any other path as it
    /// is.
    pub fn in_repository(&self, path: &FilePath) -> (r: FilePath)
        ensures
            r@ == real_path(path@, self.top@, self.real_top@),
    {
        match path.behind(&self.top) {
            Some(rest) => self.real_top.join(&rest),
            None => path.clone(),
        }
    }

    fn real_of(&self, issue: &Issue) -> (r: Issue)
        ensures
            r@ == real_issue(issue@, self.top@, self.real_top@),
    {
        let paths = issue.paths();
        let ghost goal = real_paths(path_views(paths@), self.top@, self.real_top@);
        let mut out: Vec<FilePath> = Vec::new();
        let mut i: usize = 0;
        while i < paths.len()
            invariant
                i <= paths@.len(),
                goal == real_paths(path_views(paths@), self.top@, self.real_top@),
                path_views(out@) == goal.take(i as int),
            decreases paths@.len() - i,
        {
            let ghost was = path_views(out@);
            let p = self.in_repository(&paths[i]);
            assert(p@ == goal[i as int]);
            out.push(p);
            assert(path_views(out@) =~= was.push(p@));
            i += 1;
            assert(path_views(out@) =~= goal.take(i as int));
        }
        assert(path_views(out@) =~= goal);
        assert(path_views(paths@).len() == paths@.len());
        assert(path_views(out@).len() == out@.len());
        issue.with_paths(&out)
    }

    /// The findings with their paths as they are in the repository.
    pub fn real_all(&self, issues: &Vec<Issue>) -> (r: Vec<Issue>)
        ensures
            issue_views(r@) == real_issues(issue_views(issues@), self.top@, self.real_top@),
    {
        let ghost goal = real_issues(issue_views(issues@), self.top@, self.real_top@);
        let mut r: Vec<Issue> = Vec::new();
        let mut i: usize = 0;
        while i < issues.len()
            invariant
                i <= issues@.len(),
                goal == real_issues(issue_views(issues@), self.top@, self.real_top@),
                issue_views(r@) == goal.take(i as int),
            decreases issues@.len() - i,
        {
            let ghost was = issue_views(r@);
            r.push(self.real_of(&issues[i]));
            assert(issue_views(r@) =~= was.push(goal[i as int]));
            i += 1;
            assert(issue_views(r@) =~= goal.take(i as int));
        }
        assert(issue_views(r@) =~= goal);
        r
    }

    /// The directory that paths are reported from: where the project lies in the
    /// repository if `canonical`, where its root leads, lies in the snapshot.
    pub fn report_root(&self, project_root: &FilePath, canonical: &FilePath) -> (r: FilePath)
        ensures
            r@ == match canonical@.behind(self.top@) {
                Some(rest) => self.real_top@.joined(rest),
                None => project_root@,
            },
    {
        match canonical.behind(&self.top) {
            Some(rest) => self.real_top.join(&rest),
            None => project_root.clone(),
        }
    }
}

/// `s` for more or less than one.
pub open spec fn plural(n: nat) -> Seq<char> {
    if n == 1 {
        Seq::empty()
    } else {
        "s"@
    }
}

/// `s` for more or less than one.
pub fn plural_of(n: usize) -> (r: &'static str)
    ensures
        r@ == plural(n as nat),
{
    if n == 1 {
        proof {
            reveal_strlit("");
            assert(""@ =~= Seq::empty());
        }
        ""
    } else {
        "s"
    }
}

/// What an audit is about, in words.
pub open spec fn scope_words(scope: AuditScope, base: Seq<char>, diff_file: Seq<char>) -> Seq<char> {
    match scope {
        AuditScope::File(changed) => {
            let n = text_set_contents(changed).len();
            decimal(n) + " changed file"@ + plural(n) + " since "@ + base
        },
        AuditScope::Line(_) => "lines from --diff-file "@ + diff_file,
    }
}

/// What an audit is about, in words.
pub fn scope_label(scope: &AuditScope, base: &str, diff_file: &str) -> (r: String)
    ensures
        r@ == scope_words(*scope, base@, diff_file@),
{
    match scope {
        AuditScope::File(changed) => {
            let n: usize = text_set_len(changed);
            let mut r = decimal_text(n as u64);
            r.append(" changed file");
            r.append(plural_of(n));
            r.append(" since ");
            r.append(base);
            r
        },
        AuditScope::Line(_) => {
            let mut r = "lines from --diff-file ".to_owned();
            r.append(diff_file);
            r
        },
    }
}

/// What is said of a change that touches nothing.
pub open spec fn empty_scope_words(scope: AuditScope, base: Seq<char>) -> Seq<char> {
    match scope {
        AuditScope::File(_) => "warning: no files changed since "@ + base
            + " (audit will be empty)"@,
        AuditScope::Line(_) => "warning: --diff-file is empty (audit will be empty)"@,
    }
}

/// What is said of a change that touches nothing.
pub fn empty_scope_warning(scope: &AuditScope, base: &str) -> (r: String)
    ensures
        r@ == empty_scope_words(*scope, base@),
{
    match scope {
        AuditScope::File(_) => {
            let mut r = "warning: no files changed since ".to_owned();
            r.append(base);
            r.append(" (audit will be empty)");
            r
        },
        AuditScope::Line(_) => "warning: --diff-file is empty (audit will be empty)".to_owned(),
    }
}

/// How an audit ends.
#[derive(Debug)]
pub struct AuditReport {
    pub results: AnalysisResults,
    pub verdict: Verdict,
    /// What was audited, and how much of what was found is in scope.
    pub heading: String,
    /// How much is in scope.
    pub tally: String,
}

/// How an audit ends, from the findings that are left, the number of those
/// before scoping, and whether the counts differ from those agreed on.
pub fn conclude(
    issues: Vec<Issue>,
    total_before: usize,
    counts_differ: bool,
    max_issues: usize,
    scope_label: &str,
    snapshot: &Option<Snapshot>,
    selection: ResolvedSelection,
    stats: AnalysisStats,
) -> (r: AuditReport)
    ensures
        issue_views(r.results.issues@) == (match snapshot {
            Some(s) => real_issues(issue_views(issues@), s.top@, s.real_top@),
            None => issue_views(issues@),
        }),
        r.results.stats == stats,
        views(r.results.executed_rules@) == views(selection.executed_rules@),
        r.results.selection matches Some(s) && views(s.families_requested@) == views(
            selection.requested_families@,
        ) && views(s.families_executed@) == family_keys(selection.families@) && views(
            s.rules_requested@,
        ) == views(selection.requested_rules@),
        r.verdict == verdict_on(issues@.len(), max_issues as nat, counts_differ),
        r.heading@ == "auditing "@ + scope_label@ + " ("@ + decimal(issues@.len()) + " of "@
            + decimal(total_before as nat) + " issues in scope)"@,
        r.tally@ == decimal(issues@.len()) + " issue"@ + plural(issues@.len())
            + " in PR scope"@,
{
    let found: usize = issues.len();
    let verdict = Verdict::on(found, max_issues, counts_differ);
    let mut heading = "auditing ".to_owned();
    heading.append(scope_label);
    heading.append(" (");
    heading.append(decimal_text(found as u64).as_str());
    heading.append(" of ");
    heading.append(decimal_text(total_before as u64).as_str());
    heading.append(" issues in scope)");
    let mut tally = decimal_text(found as u64);
    tally.append(" issue");
    tally.append(plural_of(found));
    tally.append(" in PR scope");
    let reported = match snapshot {
        Some(s) => s.real_all(&issues),
        None => issues,
    };
    let families_executed = keys_of(&selection.families);
    AuditReport {
        results: AnalysisResults {
            issues: reported,
            stats,
            executed_rules: selection.executed_rules,
            selection: Some(
                Selection {
                    families_requested: selection.requested_families,
                    families_executed,
                    rules_requested: selection.requested_rules,
                },
            ),
        },
        verdict,
        heading,
        tally,
    }
}

/// How an audit of nothing ends: it passes, with an empty report.
pub fn nothing_to_audit(selection: ResolvedSelection) -> (r: AuditReport)
    ensures
        r.results.issues@.len() == 0,
        r.results.executed_rules@.len() == 0,
        r.results.selection matches Some(s) && views(s.families_requested@) == views(
            selection.requested_families@,
        ) && s.families_executed@.len() == 0 && views(s.rules_requested@) == views(
            selection.requested_rules@,
        ),
        r.verdict == Verdict::Pass,
        r.heading@ == "no staged Python changes — nothing to audit"@,
        r.tally@ == Seq::<char>::empty(),
{
    AuditReport {
        results: AnalysisResults {
            issues: Vec::new(),
            stats: no_stats(),
            executed_rules: Vec::new(),
            selection: Some(
                Selection {
                    families_requested: selection.requested_families,
                    families_executed: Vec::new(),
                    rules_requested: selection.requested_rules,
                },
            ),
        },
        verdict: Verdict::Pass,
        heading: "no staged Python changes — nothing to audit".to_owned(),
        tally: String::new(),
    }
}

fn no_stats() -> (r: AnalysisStats)
    ensures
        r.files_scanned == 0,
        r.entry_points == 0,
        r.elapsed_ms == 0,
        r.plugins_run@.len() == 0,
        r.exemptions@.len() == 0,
{
    AnalysisStats {
        files_scanned: 0,
        entry_points: 0,
        plugins_run: Vec::new(),
        elapsed_ms: 0,
        exemptions: Vec::new(),
    }
}

/// A file that could not be parsed is reported by an audit whatever is selected
/// and whatever changed.
pub proof fn audits_report_parse_errors(
    found: Seq<IssueView>,
    rules: Option<FxHashSet<String>>,
    scope: AuditScope,
    known: Seq<ResolvedPath>,
    i: int,
)
    requires
        0 <= i < found.len(),
        found[i] is ParseError,
    ensures
        scoped(counted(found, rules), scope, known).contains(found[i]),
{
    lemma_counted(found, rules, found[i]);
    assert(found.contains(found[i]));
    lemma_scoped(counted(found, rules), scope, known, found[i]);
}

proof fn lemma_counted(v: Seq<IssueView>, rules: Option<FxHashSet<String>>, issue: IssueView)
    ensures
        counted(v, rules).contains(issue) <==> v.contains(issue) && keeps(rules, issue),
    decreases v.len(),
{
    if v.len() > 0 {
        lemma_counted(v.drop_last(), rules, issue);
        assert(v =~= v.drop_last().push(v.last()));
        lemma_contains_push(v.drop_last(), v.last(), issue);
        lemma_contains_push(counted(v.drop_last(), rules), v.last(), issue);
    }
}

proof fn lemma_scoped(
    v: Seq<IssueView>,
    scope: AuditScope,
    known: Seq<ResolvedPath>,
    issue: IssueView,
)
    ensures
        scoped(v, scope, known).contains(issue) <==> v.contains(issue) && in_scope(
            issue,
            scope,
            known,
        ),
    decreases v.len(),
{
    if v.len() > 0 {
        lemma_scoped(v.drop_last(), scope, known, issue);
        assert(v =~= v.drop_last().push(v.last()));
        lemma_contains_push(v.drop_last(), v.last(), issue);
        lemma_contains_push(scoped(v.drop_last(), scope, known), v.last(), issue);
    }
}

/// An audit reports a finding exactly if it was found, counts and is in scope.
pub proof fn audits_report_what_counts(
    found: Seq<IssueView>,
    rules: Option<FxHashSet<String>>,
    scope: AuditScope,
    known: Seq<ResolvedPath>,
    issue: IssueView,
)
    ensures
        scoped(counted(found, rules), scope, known).contains(issue) <==> found.contains(issue)
            && keeps(rules, issue) && in_scope(issue, scope, known),
{
    lemma_counted(found, rules, issue);
    lemma_scoped(counted(found, rules), scope, known, issue);
}

/// Without an allowance every finding fails an audit, and only one without
/// findings passes.
pub proof fn audits_without_allowance_are_strict(found: nat)
    ensures
        verdict_on(found, 0, false) == Verdict::Pass <==> found == 0,
        verdict_on(found, 0, false) == Verdict::Fail <==> found > 0,
{
}

/// Where the counts differ from those agreed on, an audit fails even without
/// findings in scope.
pub proof fn differing_counts_always_fail(found: nat, max_issues: nat)
    ensures
        verdict_on(found, max_issues, true) == Verdict::Fail,
{
}

/// A file of a snapshot is reported at its place in the repository.
pub proof fn staged_files_are_reported_in_place(top: PathView, real_top: PathView, rest: PathView)
    requires
        !rest.absolute,
        rest.parts.len() > 0 ==> rest.parts[0] != dot(),
    ensures
        real_path(top.joined(rest), top, real_top).same(real_top.joined(rest)),
{
    what_was_joined_is_behind(top, rest);
}

/// An audit passes if and only if nothing was found, warns if and only if something
/// was found but no more than is allowed, and fails otherwise; one more finding never
/// makes the verdict better, nor does a lower allowance.
pub proof fn more_findings_are_never_better(found: nat, more: nat, max_issues: nat, fewer: nat)
    requires
        found <= more,
        fewer <= max_issues,
    ensures
        verdict_on(found, max_issues, false) == Verdict::Pass <==> found == 0,
        verdict_on(found, max_issues, false) == Verdict::Warn <==> 0 < found <= max_issues,
        verdict_on(found, max_issues, false) == Verdict::Fail <==> found > 0 && found > max_issues,
        verdict_on(found, max_issues, false) == Verdict::Fail ==> verdict_on(more, fewer, false)
            == Verdict::Fail,
        verdict_on(more, fewer, false) == Verdict::Pass ==> verdict_on(found, max_issues, false)
            == Verdict::Pass,
{
}

/// What an audit keeps it keeps in the order in which it was found, and as often.
pub proof fn audits_keep_the_order(
    found: Seq<IssueView>,
    rules: Option<FxHashSet<String>>,
    scope: AuditScope,
    known: Seq<ResolvedPath>,
)
    ensures
        counted(found, rules) == found.filter(|i: IssueView| keeps(rules, i)),
        scoped(found, scope, known) == found.filter(|i: IssueView| in_scope(i, scope, known)),
    decreases found.len(),
{
    reveal(Seq::filter);
    if found.len() > 0 {
        audits_keep_the_order(found.drop_last(), rules, scope, known);
    }
}

/// Every line of a listing that is not blank names a changed file, as seen from the
/// directory, without the white space around it; blank lines name none.
pub proof fn each_line_names_a_file(lines: Seq<Seq<char>>, root: PathView, i: int)
    requires
        0 <= i < lines.len(),
    ensures
        trim(lines[i]).len() > 0 ==> listed_paths(lines, root).contains(
            root.joined(path_of(trim(lines[i]))),
        ),
        listed_paths(lines, root).len() <= lines.len(),
    decreases lines.len(),
{
    let before = listed_paths(lines.drop_last(), root);
    let all = listed_paths(lines, root);
    if lines.len() > 1 {
        each_line_names_a_file(lines.drop_last(), root, 0);
    }
    if trim(lines[i]).len() > 0 {
        let p = root.joined(path_of(trim(lines[i])));
        if i < lines.len() - 1 {
            each_line_names_a_file(lines.drop_last(), root, i);
            let k = choose|k: int| 0 <= k < before.len() && before[k] == p;
            assert(all[k] == p);
        } else {
            assert(all[before.len() as int] == p);
        }
    }
}

/// Staged files are worth an audit if and only if one of their names ends in `.py`,
/// wherever it stands among them.
pub proof fn one_staged_python_file_is_enough(names: Seq<Seq<char>>)
    requires
        names.len() > 0,
        forall|i: int| 0 <= i < names.len() ==> !(#[trigger] names[i]).contains('\0'),
    ensures
        names_python(join(names, seq!['\0']).push('\0')) <==> exists|i: int|
            0 <= i < names.len() && has_suffix(#[trigger] names[i], ".py"@),
{
    let all = names.push(Seq::empty());
    assert forall|i: int| 0 <= i < all.len() implies !(#[trigger] all[i]).contains('\0') by {
        if i < names.len() {
            assert(all[i] == names[i]);
        }
    }
    lemma_split_join(all, '\0');
    assert(all.drop_last() =~= names);
    assert(join(all, seq!['\0']) =~= join(names, seq!['\0']).push('\0'));
    reveal_strlit(".py");
    assert(".py"@.len() == 3);
    if exists|i: int| 0 <= i < names.len() && has_suffix(#[trigger] names[i], ".py"@) {
        let i = choose|i: int| 0 <= i < names.len() && has_suffix(#[trigger] names[i], ".py"@);
        assert(has_suffix(all[i], ".py"@));
    }
    if names_python(join(names, seq!['\0']).push('\0')) {
        let i = choose|i: int| 0 <= i < all.len() && has_suffix(#[trigger] all[i], ".py"@);
        assert(i < names.len());
        assert(has_suffix(names[i], ".py"@));
    }
}

} // verus!
