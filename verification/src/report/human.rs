//! The report for a terminal.
use crate::audit::{plural, plural_of};
use crate::issue::{issue_views, AnalysisResults, Issue, IssueView};
use crate::report::grid::{draw, grid_text, row_view, row_views};
use crate::report::{cycle_path, format_cycle_path};
use crate::text::{decimal, decimal_text, has_suffix};
use crate::types::AnalysisStats;
use vstd::prelude::*;

verus! {

/// A report for a terminal: a table of the findings, if there are any, and a
/// line on the run as a whole.
#[derive(Debug)]
pub struct HumanReport {
    pub table: Option<String>,
    /// What the line starts with.
    pub label: &'static str,
    pub line: String,
}

/// A path, and a line if it is known.
pub open spec fn path_and_line(issue: IssueView) -> Seq<char> {
    match issue.line() {
        Some(n) => issue.path().text() + ":"@ + decimal(n as nat),
        None => issue.path().text(),
    }
}

/// Where a finding is.
pub open spec fn location_cell(issue: IssueView) -> Seq<char> {
    match issue {
        IssueView::Duplicate { occurrences, .. } => if occurrences.len() == 0 {
            Seq::empty()
        } else {
            occurrences[0].path.text() + ":"@ + decimal(occurrences[0].start_line as nat) + "-"@
                + decimal(occurrences[0].end_line as nat)
        },
        _ => path_and_line(issue),
    }
}

/// What a finding is about.
pub open spec fn detail_cell(issue: IssueView) -> Seq<char> {
    match issue {
        IssueView::UnusedFile { .. } => Seq::empty(),
        IssueView::UnusedImport { name, module, .. } => name + " (from "@ + module + ")"@,
        IssueView::UnusedDep { name, source, .. } => name + " (in "@ + source + ")"@,
        IssueView::Duplicate { token_count, occurrences } => decimal(token_count as nat)
            + " tokens across "@ + decimal(occurrences.len()) + " locations"@,
        IssueView::Complexity { function, cyclomatic, cognitive, .. } => function + " (cyclomatic="@
            + decimal(cyclomatic as nat) + ", cognitive="@ + decimal(cognitive as nat) + ")"@,
        IssueView::LowMaintainability { score, avg_cyclomatic, loc, .. } => "MI="@ + decimal(
            score as nat,
        ) + " (avg_cc="@ + avg_cyclomatic.shown + ", loc="@ + decimal(loc as nat) + ")"@,
        IssueView::Hotspot { cyclomatic, churn, score, .. } => "cc="@ + decimal(cyclomatic as nat)
            + " \u{00d7} churn="@ + decimal(churn as nat) + " \u{2192} "@ + score.shown,
        IssueView::Smell { detail, .. } => detail,
        IssueView::CircularDependency { cycle } => cycle_path(cycle),
        IssueView::RefactorTarget { function, cyclomatic, cognitive, effort, .. } => function
            + " (cc="@ + decimal(cyclomatic as nat) + ", cog="@ + decimal(cognitive as nat)
            + ", effort="@ + effort.key() + ")"@,
        IssueView::FeatureFlag { flag, provider, .. } => flag + " (via "@ + provider.key() + ")"@,
        IssueView::ParseError { message, .. } => message,
        IssueView::BoundaryViolation { .. } => issue.message(),
        IssueView::BannedApi { .. } => issue.message(),
    }
}

/// The row of a finding.
pub open spec fn issue_row(issue: IssueView) -> Seq<Seq<char>> {
    seq![issue.rule_key(), location_cell(issue), detail_cell(issue)]
}

/// The table of a list of findings.
pub open spec fn issue_rows(issues: Seq<IssueView>) -> Seq<Seq<Seq<char>>> {
    seq![seq!["kind"@, "location"@, "detail"@]] + issues.map_values(|i: IssueView| issue_row(i))
}

/// What is said of a run as a whole.
pub open spec fn closing_line(found: nat, stats: AnalysisStats) -> Seq<char> {
    if found == 0 {
        "no issues found ("@ + decimal(stats.files_scanned as nat) + " files scanned, "@ + decimal(
            stats.entry_points as nat,
        ) + " entry points, "@ + decimal(stats.elapsed_ms as nat) + " ms)"@
    } else {
        decimal(found) + " issue"@ + plural(found) + " \u{2014} "@ + decimal(
            stats.files_scanned as nat,
        ) + " files scanned, "@ + decimal(stats.entry_points as nat) + " entry points, "@ + decimal(
            stats.elapsed_ms as nat,
        ) + " ms"@
    }
}

fn location(issue: &Issue) -> (r: String)
    ensures
        r@ == location_cell(issue@),
{
    match issue {
        Issue::Duplicate { occurrences, .. } => {
            if occurrences.len() == 0 {
                let r = String::new();
                assert(r@ =~= Seq::empty());
                r
            } else {
                assert(crate::issue::occurrence_views(occurrences@)[0] == occurrences@[0]@);
                let mut r = occurrences[0].path.text();
                r.append(":");
                r.append(decimal_text(occurrences[0].start_line as u64).as_str());
                r.append("-");
                r.append(decimal_text(occurrences[0].end_line as u64).as_str());
                r
            }
        },
        _ => path_line(issue),
    }
}

/// Where a finding is: its path, and its line if it has one.
pub fn path_line(issue: &Issue) -> (r: String)
    ensures
        r@ == path_and_line(issue@),
{
    let mut r = issue.path().text();
    if let Some(n) = issue.line() {
        r.append(":");
        r.append(decimal_text(n as u64).as_str());
    }
    r
}

fn detail(issue: &Issue) -> (r: String)
    ensures
        r@ == detail_cell(issue@),
{
    match issue {
        Issue::UnusedFile { .. } => {
            let r = String::new();
            assert(r@ =~= Seq::empty());
            r
        },
        Issue::UnusedImport { name, module, .. } => {
            let mut r = name.clone();
            r.append(" (from ");
            r.append(module.as_str());
            r.append(")");
            r
        },
        Issue::UnusedDep { name, source, .. } => {
            let mut r = name.clone();
            r.append(" (in ");
            r.append(source.as_str());
            r.append(")");
            r
        },
        Issue::Duplicate { token_count, occurrences } => {
            let mut r = decimal_text(*token_count as u64);
            r.append(" tokens across ");
            r.append(decimal_text(occurrences.len() as u64).as_str());
            r.append(" locations");
            r
        },
        Issue::Complexity { function, cyclomatic, cognitive, .. } => {
            let mut r = function.clone();
            r.append(" (cyclomatic=");
            r.append(decimal_text(*cyclomatic as u64).as_str());
            r.append(", cognitive=");
            r.append(decimal_text(*cognitive as u64).as_str());
            r.append(")");
            r
        },
        Issue::LowMaintainability { score, avg_cyclomatic, loc, .. } => {
            let mut r = "MI=".to_owned();
            r.append(decimal_text(*score as u64).as_str());
            r.append(" (avg_cc=");
            r.append(avg_cyclomatic.shown.as_str());
            r.append(", loc=");
            r.append(decimal_text(*loc as u64).as_str());
            r.append(")");
            r
        },
        Issue::Hotspot { cyclomatic, churn, score, .. } => {
            let mut r = "cc=".to_owned();
            r.append(decimal_text(*cyclomatic as u64).as_str());
            r.append(" \u{00d7} churn=");
            r.append(decimal_text(*churn as u64).as_str());
            r.append(" \u{2192} ");
            r.append(score.shown.as_str());
            r
        },
        Issue::Smell { detail, .. } => detail.clone(),
        Issue::CircularDependency { cycle } => format_cycle_path(cycle),
        Issue::RefactorTarget { function, cyclomatic, cognitive, effort, .. } => {
            let mut r = function.clone();
            r.append(" (cc=");
            r.append(decimal_text(*cyclomatic as u64).as_str());
            r.append(", cog=");
            r.append(decimal_text(*cognitive as u64).as_str());
            r.append(", effort=");
            r.append(effort.as_str());
            r.append(")");
            r
        },
        Issue::FeatureFlag { flag, provider, .. } => {
            let mut r = flag.clone();
            r.append(" (via ");
            r.append(provider.as_str());
            r.append(")");
            r
        },
        Issue::ParseError { message, .. } => message.clone(),
        Issue::BoundaryViolation { .. } => issue.message(),
        Issue::BannedApi { .. } => issue.message(),
    }
}

fn row(issue: &Issue) -> (r: Vec<String>)
    ensures
        row_view(r) == issue_row(issue@),
{
    let r = vec![issue.rule_key(), location(issue), detail(issue)];
    assert(row_view(r) =~= issue_row(issue@));
    r
}

/// The rows of the table of findings, below a row of headings.
pub fn rows(issues: &Vec<Issue>) -> (r: Vec<Vec<String>>)
    ensures
        row_views(r@) == issue_rows(issue_views(issues@)),
{
    let ghost goal = issue_rows(issue_views(issues@));
    let head = vec!["kind".to_owned(), "location".to_owned(), "detail".to_owned()];
    assert(row_view(head) =~= seq!["kind"@, "location"@, "detail"@]);
    let mut r: Vec<Vec<String>> = Vec::new();
    r.push(head);
    let mut i: usize = 0;
    assert(row_views(r@) =~= goal.take(1));
    while i < issues.len()
        invariant
            i <= issues@.len(),
            goal == issue_rows(issue_views(issues@)),
            row_views(r@) == goal.take(1 + i),
        decreases issues@.len() - i,
    {
        let ghost was = row_views(r@);
        let one = row(&issues[i]);
        assert(row_view(one) == goal[1 + i]);
        r.push(one);
        assert(row_views(r@) =~= was.push(goal[1 + i]));
        i += 1;
        assert(row_views(r@) =~= goal.take(1 + i));
    }
    assert(row_views(r@) =~= goal);
    r
}

fn closing(found: usize, stats: &AnalysisStats) -> (r: String)
    ensures
        r@ == closing_line(found as nat, *stats),
{
    let mut r = if found == 0 {
        "no issues found (".to_owned()
    } else {
        let mut s = decimal_text(found as u64);
        s.append(" issue");
        s.append(plural_of(found));
        s.append(" \u{2014} ");
        s
    };
    r.append(decimal_text(stats.files_scanned as u64).as_str());
    r.append(" files scanned, ");
    r.append(decimal_text(stats.entry_points as u64).as_str());
    r.append(" entry points, ");
    r.append(decimal_text(stats.elapsed_ms).as_str());
    if found == 0 {
        r.append(" ms)");
    } else {
        r.append(" ms");
    }
    r
}

/// The report for a terminal.
pub fn render(results: &AnalysisResults) -> (r: HumanReport)
    ensures
        match r.table {
            Some(t) => results.issues@.len() > 0 && t@ == grid_text(
                issue_rows(issue_views(results.issues@)),
            ),
            None => results.issues@.len() == 0,
        },
        r.label@ == (if results.issues@.len() == 0 {
            "ok"@
        } else {
            "found"@
        }),
        r.line@ == closing_line(results.issues@.len(), results.stats),
{
    let line = closing(results.issues.len(), &results.stats);
    if results.issues.len() == 0 {
        return HumanReport { table: None, label: "ok", line };
    }
    HumanReport { table: Some(draw(&rows(&results.issues))), label: "found", line }
}

/// The table has a row for every finding, in its order, that starts with the rule; and
/// where a finding has a line, its place ends with a colon and that line.
pub proof fn every_finding_has_a_row(issues: Seq<IssueView>, i: int)
    requires
        0 <= i < issues.len(),
    ensures
        issue_rows(issues).len() == issues.len() + 1,
        issue_rows(issues)[i + 1][0] == issues[i].rule_key(),
        issues[i].line() is Some && !(issues[i] is Duplicate) ==> has_suffix(
            issue_rows(issues)[i + 1][1],
            ":"@ + decimal((issues[i].line()->0) as nat),
        ),
        issues[i].line() is None && !(issues[i] is Duplicate) ==> issue_rows(issues)[i + 1][1]
            == issues[i].path().text(),
{
    let cell = location_cell(issues[i]);
    if issues[i].line() is Some && !(issues[i] is Duplicate) {
        let end = ":"@ + decimal((issues[i].line()->0) as nat);
        assert(cell.skip(cell.len() - end.len()) =~= end);
    }
    assert(issue_rows(issues)[i + 1] == issue_row(issues[i]));
}

} // verus!
