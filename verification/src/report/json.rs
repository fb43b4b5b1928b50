//! The document for other programs: what stands in it.
//!
//! `diagnostics` says of every finding the same things in the same way; the
//! findings themselves say more, each in its own way.
use crate::issue::{issue_views, paths_can_be_replaced, AnalysisResults, Issue, IssueView};
use crate::path::{copy_texts, FilePath, PathView};
use crate::report::{
    relative_issue, relative_paths, relative_posix, relative_text, relativized,
};
use crate::scope::ResolvedPath;
use crate::text::views;
use crate::types::{AnalysisStats, Selection};
use vstd::prelude::*;

verus! {

/// Raised only when a document can no longer be read as before; new fields do
/// not count.
pub const SCHEMA_VERSION: u32 = 1;

pub const TOOL_NAME: &'static str = "pyllow";

/// What a document says of a finding.
#[derive(Debug)]
pub struct Diagnostic {
    /// As seen from the project, with slashes.
    pub path: String,
    /// Counted from 1. A finding about a file as a whole has none: line 1 would
    /// be made up.
    pub start_line: Option<u32>,
    pub end_line: Option<u32>,
    pub rule: String,
    pub message: String,
}

#[verifier::ext_equal]
pub struct DiagnosticView {
    pub path: Seq<char>,
    pub start_line: Option<u32>,
    pub end_line: Option<u32>,
    pub rule: Seq<char>,
    pub message: Seq<char>,
}

impl View for Diagnostic {
    type V = DiagnosticView;

    open spec fn view(&self) -> DiagnosticView {
        DiagnosticView {
            path: self.path@,
            start_line: self.start_line,
            end_line: self.end_line,
            rule: self.rule@,
            message: self.message@,
        }
    }
}

pub open spec fn diagnostic_views(v: Seq<Diagnostic>) -> Seq<DiagnosticView> {
    v.map_values(|d: Diagnostic| d@)
}

/// What a document says of a finding.
pub open spec fn diagnostic_of(
    issue: IssueView,
    root: PathView,
    known: Seq<ResolvedPath>,
) -> DiagnosticView {
    DiagnosticView {
        path: relative_text(issue.path(), root, known),
        start_line: match issue.range() {
            Some(r) => Some(r.0),
            None => None,
        },
        end_line: match issue.range() {
            Some(r) => Some(r.1),
            None => None,
        },
        rule: issue.rule_key(),
        message: issue.message(),
    }
}

/// What a document says of a list of findings.
pub open spec fn diagnostics_of(
    issues: Seq<IssueView>,
    root: PathView,
    known: Seq<ResolvedPath>,
) -> Seq<DiagnosticView> {
    issues.map_values(|i: IssueView| diagnostic_of(i, root, known))
}

/// A list of findings with their paths as they are written in a document.
pub open spec fn relative_issues(
    issues: Seq<IssueView>,
    root: PathView,
    known: Seq<ResolvedPath>,
) -> Seq<IssueView> {
    issues.map_values(|i: IssueView| relative_issue(i, root, known))
}

/// What stands in a document.
#[derive(Debug)]
pub struct Document {
    pub schema_version: u32,
    pub tool: String,
    /// What was asked for, and which families ran, if the analysis takes a
    /// selection.
    pub selection: Option<Selection>,
    /// The rules that ran.
    pub rules_executed: Vec<String>,
    pub diagnostics: Vec<Diagnostic>,
    pub issues: Vec<Issue>,
    pub stats: AnalysisStats,
}

/// Whether two selections say the same.
pub open spec fn same_selection(a: Option<Selection>, b: Option<Selection>) -> bool {
    match (a, b) {
        (Some(x), Some(y)) => {
            &&& views(x.families_requested@) == views(y.families_requested@)
            &&& views(x.families_executed@) == views(y.families_executed@)
            &&& views(x.rules_requested@) == views(y.rules_requested@)
        },
        (None, None) => true,
        _ => false,
    }
}

/// Whether two analyses measured the same.
pub open spec fn same_stats(a: AnalysisStats, b: AnalysisStats) -> bool {
    &&& a.files_scanned == b.files_scanned
    &&& a.entry_points == b.entry_points
    &&& views(a.plugins_run@) == views(b.plugins_run@)
    &&& a.elapsed_ms == b.elapsed_ms
    &&& views(a.exemptions@) == views(b.exemptions@)
}

fn copy_selection(s: &Option<Selection>) -> (r: Option<Selection>)
    ensures
        same_selection(r, *s),
{
    match s {
        Some(x) => Some(
            Selection {
                families_requested: copy_texts(&x.families_requested),
                families_executed: copy_texts(&x.families_executed),
                rules_requested: copy_texts(&x.rules_requested),
            },
        ),
        None => None,
    }
}

fn copy_stats(s: &AnalysisStats) -> (r: AnalysisStats)
    ensures
        same_stats(r, *s),
{
    AnalysisStats {
        files_scanned: s.files_scanned,
        entry_points: s.entry_points,
        plugins_run: copy_texts(&s.plugins_run),
        elapsed_ms: s.elapsed_ms,
        exemptions: copy_texts(&s.exemptions),
    }
}

/// What a document says of a finding.
pub fn diagnostic(issue: &Issue, root: &FilePath, known: &Vec<ResolvedPath>) -> (r: Diagnostic)
    ensures
        r@ == diagnostic_of(issue@, root@, known@),
{
    let (start_line, end_line): (Option<u32>, Option<u32>) = match issue.range() {
        Some((start, end)) => (Some(start), Some(end)),
        None => (None, None),
    };
    Diagnostic {
        path: relative_posix(&issue.path(), root, known),
        start_line,
        end_line,
        rule: issue.rule_key(),
        message: issue.message(),
    }
}

/// What stands in the document of an analysis.
pub fn document(results: &AnalysisResults, root: &FilePath, known: &Vec<ResolvedPath>) -> (r: Document)
    ensures
        r.schema_version == SCHEMA_VERSION,
        r.tool@ == TOOL_NAME@,
        diagnostic_views(r.diagnostics@) == diagnostics_of(
            issue_views(results.issues@),
            root@,
            known@,
        ),
        issue_views(r.issues@) == relative_issues(issue_views(results.issues@), root@, known@),
        same_selection(r.selection, results.selection),
        views(r.rules_executed@) == views(results.executed_rules@),
        same_stats(r.stats, results.stats),
{
    let ghost all = issue_views(results.issues@);
    let ghost goal = diagnostics_of(all, root@, known@);
    let ghost full = relative_issues(all, root@, known@);
    let mut diagnostics: Vec<Diagnostic> = Vec::new();
    let mut issues: Vec<Issue> = Vec::new();
    let mut i: usize = 0;
    while i < results.issues.len()
        invariant
            i <= results.issues@.len(),
            all == issue_views(results.issues@),
            goal == diagnostics_of(all, root@, known@),
            full == relative_issues(all, root@, known@),
            diagnostic_views(diagnostics@) == goal.take(i as int),
            issue_views(issues@) == full.take(i as int),
        decreases results.issues@.len() - i,
    {
        let ghost was = diagnostic_views(diagnostics@);
        let ghost before = issue_views(issues@);
        let d = diagnostic(&results.issues[i], root, known);
        let f = relativized(&results.issues[i], root, known);
        assert(d@ == goal[i as int]);
        assert(f@ == full[i as int]);
        diagnostics.push(d);
        issues.push(f);
        assert(diagnostic_views(diagnostics@) =~= was.push(d@));
        assert(issue_views(issues@) =~= before.push(f@));
        i += 1;
        assert(diagnostic_views(diagnostics@) =~= goal.take(i as int));
        assert(issue_views(issues@) =~= full.take(i as int));
    }
    assert(diagnostic_views(diagnostics@) =~= goal);
    assert(issue_views(issues@) =~= full);
    Document {
        schema_version: SCHEMA_VERSION,
        tool: TOOL_NAME.to_owned(),
        selection: copy_selection(&results.selection),
        rules_executed: copy_texts(&results.executed_rules),
        diagnostics,
        issues,
        stats: copy_stats(&results.stats),
    }
}

/// A finding about a file as a whole is given no lines, and any other one has
/// both a first and a last.
pub proof fn lines_are_never_made_up(issue: IssueView, root: PathView, known: Seq<ResolvedPath>)
    ensures
        issue.range() is None <==> diagnostic_of(issue, root, known).start_line is None,
        issue.range() is None <==> diagnostic_of(issue, root, known).end_line is None,
{
}

/// A document for other programs says of every finding, in its order, which rule it
/// is of, where it is and what it is, with the lines that it covers.
pub proof fn every_finding_has_a_diagnostic(
    issues: Seq<IssueView>,
    root: PathView,
    known: Seq<ResolvedPath>,
    i: int,
)
    requires
        0 <= i < issues.len(),
    ensures
        diagnostics_of(issues, root, known).len() == issues.len(),
        diagnostics_of(issues, root, known)[i].rule == issues[i].rule_key(),
        diagnostics_of(issues, root, known)[i].message == issues[i].message(),
        diagnostics_of(issues, root, known)[i].path == relative_text(issues[i].path(), root, known),
        match issues[i].range() {
            Some(r) => diagnostics_of(issues, root, known)[i].start_line == Some(r.0)
                && diagnostics_of(issues, root, known)[i].end_line == Some(r.1),
            None => diagnostics_of(issues, root, known)[i].start_line is None
                && diagnostics_of(issues, root, known)[i].end_line is None,
        },
        relative_issues(issues, root, known).len() == issues.len(),
        relative_issues(issues, root, known)[i].rule_key() == issues[i].rule_key(),
{
    paths_can_be_replaced(issues[i], relative_paths(issues[i].paths(), root, known));
}

} // verus!
