//! The report for a comment on a change: a section for each rule, with tables of
//! where it was found.
use crate::issue::{issue_views, AnalysisResults, Issue, IssueView};
use crate::order::{distinct_texts, sort_distinct};
use crate::report::human::{path_and_line, path_line};
use crate::report::{cycle_path, format_cycle_path};
use crate::text::{contains_text, decimal, decimal_text, occurs_at, same, views};
use crate::types::AnalysisStats;
use vstd::prelude::*;

verus! {

/// The rules of a list of findings.
pub open spec fn issue_keys(issues: Seq<IssueView>) -> Seq<Seq<char>> {
    issues.map_values(|i: IssueView| i.rule_key())
}

/// The findings of a rule.
pub open spec fn of_rule(issues: Seq<IssueView>, rule: Seq<char>) -> Seq<IssueView>
    decreases issues.len(),
{
    if issues.len() == 0 {
        Seq::empty()
    } else {
        let before = of_rule(issues.drop_last(), rule);
        if issues.last().rule_key() == rule {
            before.push(issues.last())
        } else {
            before
        }
    }
}

/// What a finding is about.
pub open spec fn detail_text(issue: IssueView) -> Seq<char> {
    match issue {
        IssueView::UnusedFile { .. } => "unreachable from any entry point"@,
        IssueView::UnusedImport { name, module, .. } => "`"@ + name + "` from `"@ + module + "`"@,
        IssueView::UnusedDep { name, source, .. } => "`"@ + name + "` (declared in "@ + source
            + ")"@,
        IssueView::Duplicate { token_count, occurrences } => decimal(token_count as nat)
            + " tokens × "@ + decimal(occurrences.len()) + " locations"@,
        IssueView::Complexity { function, cyclomatic, cognitive, .. } => "`"@ + function + "` cc="@
            + decimal(cyclomatic as nat) + " cog="@ + decimal(cognitive as nat),
        IssueView::LowMaintainability { score, avg_cyclomatic, loc, .. } => "MI="@ + decimal(
            score as nat,
        ) + " (avg cc="@ + avg_cyclomatic.shown + ", loc="@ + decimal(loc as nat) + ")"@,
        IssueView::Hotspot { cyclomatic, churn, score, .. } => "cc="@ + decimal(cyclomatic as nat)
            + " × churn="@ + decimal(churn as nat) + " → "@ + score.shown,
        IssueView::Smell { detail, .. } => detail,
        IssueView::CircularDependency { cycle } => cycle_path(cycle),
        IssueView::RefactorTarget { function, cyclomatic, cognitive, effort, .. } => "`"@ + function
            + "` cc="@ + decimal(cyclomatic as nat) + " cog="@ + decimal(cognitive as nat)
            + " effort="@ + effort.key(),
        IssueView::FeatureFlag { flag, provider, .. } => "`"@ + flag + "` (via "@ + provider.key()
            + ")"@,
        IssueView::ParseError { message, .. } => message,
        IssueView::BoundaryViolation { .. } => issue.message(),
        IssueView::BannedApi { .. } => issue.message(),
    }
}

/// The rows of the table at the top, one for each rule.
pub open spec fn count_rows(rules: Seq<Seq<char>>, issues: Seq<IssueView>) -> Seq<char>
    decreases rules.len(),
{
    if rules.len() == 0 {
        Seq::empty()
    } else {
        count_rows(rules.drop_last(), issues) + "| `"@ + rules.last() + "` | "@ + decimal(
            of_rule(issues, rules.last()).len(),
        ) + " |\n"@
    }
}

/// The rows of the table of a rule, one for each finding.
pub open spec fn finding_rows(issues: Seq<IssueView>) -> Seq<char>
    decreases issues.len(),
{
    if issues.len() == 0 {
        Seq::empty()
    } else {
        finding_rows(issues.drop_last()) + "| `"@ + path_and_line(issues.last()) + "` | "@
            + detail_text(issues.last()) + " |\n"@
    }
}

/// The section of a rule.
pub open spec fn rule_section(rule: Seq<char>, issues: Seq<IssueView>) -> Seq<char> {
    let own = of_rule(issues, rule);
    "## `"@ + rule + "`\n\n"@ + (if own.len() > 0 {
        "_"@ + own[0].description() + "_\n\n"@
    } else {
        Seq::empty()
    }) + "| Location | Detail |\n|---|---|\n"@ + finding_rows(own) + "\n"@
}

/// The sections of a list of rules.
pub open spec fn rule_sections(rules: Seq<Seq<char>>, issues: Seq<IssueView>) -> Seq<char>
    decreases rules.len(),
{
    if rules.len() == 0 {
        Seq::empty()
    } else {
        rule_sections(rules.drop_last(), issues) + rule_section(rules.last(), issues)
    }
}

/// The report: totals at the top, then a section for each rule in the order of
/// their names, and the size of the run.
pub open spec fn report_text(issues: Seq<IssueView>, stats: AnalysisStats) -> Seq<char> {
    if issues.len() == 0 {
        "# pyllow report\n\n**No issues found.** "@ + decimal(stats.files_scanned as nat)
            + " files scanned in "@ + decimal(stats.elapsed_ms as nat) + " ms.\n"@
    } else {
        let rules = distinct_texts(issue_keys(issues));
        "# pyllow report\n\n## Summary\n\n| Rule | Count |\n|---|---:|\n"@ + count_rows(
            rules,
            issues,
        ) + "| **Total** | **"@ + decimal(issues.len()) + "** |\n\n"@ + rule_sections(rules, issues)
            + "_"@ + decimal(stats.files_scanned as nat) + " files scanned in "@ + decimal(
            stats.elapsed_ms as nat,
        ) + " ms._\n"@
    }
}

/// The rules of a list of findings.
pub fn keys_of(issues: &Vec<Issue>) -> (r: Vec<String>)
    ensures
        views(r@) == issue_keys(issue_views(issues@)),
{
    let ghost goal = issue_keys(issue_views(issues@));
    let mut r: Vec<String> = Vec::new();
    let mut i: usize = 0;
    while i < issues.len()
        invariant
            i <= issues@.len(),
            goal == issue_keys(issue_views(issues@)),
            views(r@) == goal.take(i as int),
        decreases issues@.len() - i,
    {
        let ghost was = views(r@);
        let k = issues[i].rule_key();
        assert(k@ == goal[i as int]);
        r.push(k);
        assert(views(r@) =~= was.push(k@));
        i += 1;
        assert(views(r@) =~= goal.take(i as int));
    }
    assert(views(r@) =~= goal);
    r
}

fn detail(issue: &Issue) -> (r: String)
    ensures
        r@ == detail_text(issue@),
{
    match issue {
        Issue::UnusedFile { .. } => "unreachable from any entry point".to_owned(),
        Issue::UnusedImport { name, module, .. } => {
            let mut r = "`".to_owned();
            r.append(name.as_str());
            r.append("` from `");
            r.append(module.as_str());
            r.append("`");
            r
        },
        Issue::UnusedDep { name, source, .. } => {
            let mut r = "`".to_owned();
            r.append(name.as_str());
            r.append("` (declared in ");
            r.append(source.as_str());
            r.append(")");
            r
        },
        Issue::Duplicate { token_count, occurrences } => {
            let mut r = decimal_text(*token_count as u64);
            r.append(" tokens × ");
            r.append(decimal_text(occurrences.len() as u64).as_str());
            r.append(" locations");
            r
        },
        Issue::Complexity { function, cyclomatic, cognitive, .. } => {
            let mut r = "`".to_owned();
            r.append(function.as_str());
            r.append("` cc=");
            r.append(decimal_text(*cyclomatic as u64).as_str());
            r.append(" cog=");
            r.append(decimal_text(*cognitive as u64).as_str());
            r
        },
        Issue::LowMaintainability { score, avg_cyclomatic, loc, .. } => {
            let mut r = "MI=".to_owned();
            r.append(decimal_text(*score as u64).as_str());
            r.append(" (avg cc=");
            r.append(avg_cyclomatic.shown.as_str());
            r.append(", loc=");
            r.append(decimal_text(*loc as u64).as_str());
            r.append(")");
            r
        },
        Issue::Hotspot { cyclomatic, churn, score, .. } => {
            let mut r = "cc=".to_owned();
            r.append(decimal_text(*cyclomatic as u64).as_str());
            r.append(" × churn=");
            r.append(decimal_text(*churn as u64).as_str());
            r.append(" → ");
            r.append(score.shown.as_str());
            r
        },
        Issue::Smell { detail, .. } => detail.clone(),
        Issue::CircularDependency { cycle } => format_cycle_path(cycle),
        Issue::RefactorTarget { function, cyclomatic, cognitive, effort, .. } => {
            let mut r = "`".to_owned();
            r.append(function.as_str());
            r.append("` cc=");
            r.append(decimal_text(*cyclomatic as u64).as_str());
            r.append(" cog=");
            r.append(decimal_text(*cognitive as u64).as_str());
            r.append(" effort=");
            r.append(effort.as_str());
            r
        },
        Issue::FeatureFlag { flag, provider, .. } => {
            let mut r = "`".to_owned();
            r.append(flag.as_str());
            r.append("` (via ");
            r.append(provider.as_str());
            r.append(")");
            r
        },
        Issue::ParseError { message, .. } => message.clone(),
        Issue::BoundaryViolation { .. } => issue.message(),
        Issue::BannedApi { .. } => issue.message(),
    }
}

/// The findings of a rule, in order.
pub fn with_rule<'a>(issues: &'a Vec<Issue>, rule: &str) -> (r: Vec<&'a Issue>)
    ensures
        issue_views(r@.unref()) == of_rule(issue_views(issues@), rule@),
{
    let ghost all = issue_views(issues@);
    let mut r: Vec<&Issue> = Vec::new();
    let mut i: usize = 0;
    assert(issue_views(r@.unref()) =~= of_rule(all.take(0), rule@));
    while i < issues.len()
        invariant
            i <= issues@.len(),
            all == issue_views(issues@),
            issue_views(r@.unref()) == of_rule(all.take(i as int), rule@),
        decreases issues@.len() - i,
    {
        proof {
            assert(all.take(i + 1).drop_last() =~= all.take(i as int));
            assert(all.take(i + 1).last() == issues@[i as int]@);
        }
        if same(issues[i].rule_key().as_str(), rule) {
            let ghost was = issue_views(r@.unref());
            r.push(&issues[i]);
            assert(issue_views(r@.unref()) =~= was.push(issues@[i as int]@));
        }
        i += 1;
    }
    assert(all.take(i as int) =~= all);
    r
}

fn write_counts(out: &mut String, rules: &Vec<String>, issues: &Vec<Issue>)
    ensures
        final(out)@ == old(out)@ + count_rows(views(rules@), issue_views(issues@)),
{
    let ghost start = out@;
    let ghost all = views(rules@);
    let ghost found = issue_views(issues@);
    let mut i: usize = 0;
    assert(out@ =~= start + count_rows(all.take(0), found));
    while i < rules.len()
        invariant
            i <= rules@.len(),
            all == views(rules@),
            found == issue_views(issues@),
            out@ == start + count_rows(all.take(i as int), found),
        decreases rules@.len() - i,
    {
        proof {
            assert(all.take(i + 1).drop_last() =~= all.take(i as int));
            assert(all.take(i + 1).last() == rules@[i as int]@);
        }
        let own = with_rule(issues, rules[i].as_str());
        assert(issue_views(own@.unref()).len() == own@.len());
        out.append("| `");
        out.append(rules[i].as_str());
        out.append("` | ");
        out.append(decimal_text(own.len() as u64).as_str());
        out.append(" |\n");
        i += 1;
        assert(out@ =~= start + count_rows(all.take(i as int), found));
    }
    assert(all.take(i as int) =~= all);
}

fn write_findings(out: &mut String, own: &Vec<&Issue>)
    ensures
        final(out)@ == old(out)@ + finding_rows(issue_views(own@.unref())),
{
    let ghost start = out@;
    let ghost all = issue_views(own@.unref());
    let mut i: usize = 0;
    assert(out@ =~= start + finding_rows(all.take(0)));
    while i < own.len()
        invariant
            i <= own@.len(),
            all == issue_views(own@.unref()),
            out@ == start + finding_rows(all.take(i as int)),
        decreases own@.len() - i,
    {
        proof {
            assert(all.take(i + 1).drop_last() =~= all.take(i as int));
            assert(all.take(i + 1).last() == own@[i as int]@);
        }
        out.append("| `");
        out.append(path_line(own[i]).as_str());
        out.append("` | ");
        out.append(detail(own[i]).as_str());
        out.append(" |\n");
        i += 1;
        assert(out@ =~= start + finding_rows(all.take(i as int)));
    }
    assert(all.take(i as int) =~= all);
}

fn write_section(out: &mut String, rule: &str, issues: &Vec<Issue>)
    ensures
        final(out)@ == old(out)@ + rule_section(rule@, issue_views(issues@)),
{
    let ghost start = out@;
    let own = with_rule(issues, rule);
    let ghost all = of_rule(issue_views(issues@), rule@);
    assert(issue_views(own@.unref()).len() == own@.len());
    out.append("## `");
    out.append(rule);
    out.append("`\n\n");
    if own.len() > 0 {
        assert(issue_views(own@.unref())[0] == own@[0]@);
        out.append("_");
        out.append(own[0].rule_short_description());
        out.append("_\n\n");
    }
    out.append("| Location | Detail |\n|---|---|\n");
    write_findings(out, &own);
    out.append("\n");
    assert(out@ =~= start + rule_section(rule@, issue_views(issues@)));
}

fn write_sections(out: &mut String, rules: &Vec<String>, issues: &Vec<Issue>)
    ensures
        final(out)@ == old(out)@ + rule_sections(views(rules@), issue_views(issues@)),
{
    let ghost start = out@;
    let ghost all = views(rules@);
    let ghost found = issue_views(issues@);
    let mut i: usize = 0;
    assert(out@ =~= start + rule_sections(all.take(0), found));
    while i < rules.len()
        invariant
            i <= rules@.len(),
            all == views(rules@),
            found == issue_views(issues@),
            out@ == start + rule_sections(all.take(i as int), found),
        decreases rules@.len() - i,
    {
        proof {
            assert(all.take(i + 1).drop_last() =~= all.take(i as int));
            assert(all.take(i + 1).last() == rules@[i as int]@);
        }
        write_section(out, rules[i].as_str(), issues);
        i += 1;
        assert(out@ =~= start + rule_sections(all.take(i as int), found));
    }
    assert(all.take(i as int) =~= all);
}

/// The report for a comment on a change.
pub fn render(results: &AnalysisResults) -> (r: String)
    ensures
        r@ == report_text(issue_views(results.issues@), results.stats),
{
    let ghost found = issue_views(results.issues@);
    assert(found.len() == results.issues@.len());
    if results.issues.len() == 0 {
        let mut out = "# pyllow report\n\n**No issues found.** ".to_owned();
        out.append(decimal_text(results.stats.files_scanned as u64).as_str());
        out.append(" files scanned in ");
        out.append(decimal_text(results.stats.elapsed_ms).as_str());
        out.append(" ms.\n");
        return out;
    }
    let rules = sort_distinct(&keys_of(&results.issues));
    let mut out = "# pyllow report\n\n## Summary\n\n| Rule | Count |\n|---|---:|\n".to_owned();
    write_counts(&mut out, &rules, &results.issues);
    out.append("| **Total** | **");
    out.append(decimal_text(results.issues.len() as u64).as_str());
    out.append("** |\n\n");
    write_sections(&mut out, &rules, &results.issues);
    out.append("_");
    out.append(decimal_text(results.stats.files_scanned as u64).as_str());
    out.append(" files scanned in ");
    out.append(decimal_text(results.stats.elapsed_ms).as_str());
    out.append(" ms._\n");
    assert(out@ =~= report_text(found, results.stats));
    out
}

/// Every finding stands in the section of its rule, and no finding stands in
/// that of another.
pub proof fn findings_stand_under_their_rule(issues: Seq<IssueView>, issue: IssueView, rule: Seq<char>)
    ensures
        of_rule(issues, rule).contains(issue) <==> issues.contains(issue) && issue.rule_key()
            == rule,
    decreases issues.len(),
{
    if issues.len() > 0 {
        let front = issues.drop_last();
        findings_stand_under_their_rule(front, issue, rule);
        assert(issues =~= front.push(issues.last()));
        crate::types::lemma_contains_push(front, issues.last(), issue);
        crate::types::lemma_contains_push(of_rule(front, rule), issues.last(), issue);
    }
}

proof fn lemma_text_inside(a: Seq<char>, b: Seq<char>, c: Seq<char>, p: Seq<char>)
    requires
        contains_text(b, p),
    ensures
        contains_text(a + b + c, p),
{
    let i = choose|i: int| occurs_at(b, p, i);
    let s = a + b + c;
    assert(s.subrange(a.len() + i, a.len() + i + p.len()) =~= b.subrange(i, i + p.len()));
    assert(occurs_at(s, p, a.len() + i));
}

/// The row of a finding in the table of its rule.
pub open spec fn row_of(issue: IssueView) -> Seq<char> {
    "| `"@ + path_and_line(issue) + "` | "@ + detail_text(issue) + " |\n"@
}

proof fn lemma_row_in_table(issues: Seq<IssueView>, i: int)
    requires
        0 <= i < issues.len(),
    ensures
        contains_text(finding_rows(issues), row_of(issues[i])),
    decreases issues.len(),
{
    let before = finding_rows(issues.drop_last());
    let last = row_of(issues.last());
    let e = Seq::<char>::empty();
    assert(finding_rows(issues) =~= before + last + e);
    assert(finding_rows(issues) =~= e + before + last);
    if i < issues.len() - 1 {
        lemma_row_in_table(issues.drop_last(), i);
        lemma_text_inside(e, before, last, row_of(issues[i]));
    } else {
        assert(last.subrange(0, last.len() as int) =~= last);
        assert(occurs_at(last, last, 0));
        lemma_text_inside(before, last, e, last);
    }
}

proof fn lemma_section_in_report(rules: Seq<Seq<char>>, issues: Seq<IssueView>, k: int, p: Seq<char>)
    requires
        0 <= k < rules.len(),
        contains_text(rule_section(rules[k], issues), p),
    ensures
        contains_text(rule_sections(rules, issues), p),
    decreases rules.len(),
{
    let before = rule_sections(rules.drop_last(), issues);
    let last = rule_section(rules.last(), issues);
    let e = Seq::<char>::empty();
    assert(rule_sections(rules, issues) =~= before + last + e);
    assert(rule_sections(rules, issues) =~= e + before + last);
    if k < rules.len() - 1 {
        lemma_section_in_report(rules.drop_last(), issues, k, p);
        lemma_text_inside(e, before, last, p);
    } else {
        lemma_text_inside(before, last, e, p);
    }
}

proof fn lemma_count_in_table(rules: Seq<Seq<char>>, issues: Seq<IssueView>, k: int)
    requires
        0 <= k < rules.len(),
    ensures
        contains_text(
            count_rows(rules, issues),
            "| `"@ + rules[k] + "` | "@ + decimal(of_rule(issues, rules[k]).len()) + " |\n"@,
        ),
    decreases rules.len(),
{
    let before = count_rows(rules.drop_last(), issues);
    let last = "| `"@ + rules.last() + "` | "@ + decimal(of_rule(issues, rules.last()).len())
        + " |\n"@;
    let e = Seq::<char>::empty();
    assert(count_rows(rules, issues) =~= before + last + e);
    assert(count_rows(rules, issues) =~= e + before + last);
    if k < rules.len() - 1 {
        lemma_count_in_table(rules.drop_last(), issues, k);
        lemma_text_inside(
            e,
            before,
            last,
            "| `"@ + rules[k] + "` | "@ + decimal(of_rule(issues, rules[k]).len()) + " |\n"@,
        );
    } else {
        assert(last.subrange(0, last.len() as int) =~= last);
        assert(occurs_at(last, last, 0));
        lemma_text_inside(before, last, e, last);
    }
}

/// The report holds a row for every finding, with its place and what it is about, and
/// in the table at the top the number of findings of its rule.
pub proof fn every_finding_is_in_the_report(issues: Seq<IssueView>, stats: AnalysisStats, i: int)
    requires
        0 <= i < issues.len(),
    ensures
        contains_text(report_text(issues, stats), row_of(issues[i])),
        contains_text(
            report_text(issues, stats),
            "| `"@ + issues[i].rule_key() + "` | "@ + decimal(
                issues.filter(|x: IssueView| x.rule_key() == issues[i].rule_key()).len(),
            ) + " |\n"@,
        ),
{
    let keys = issue_keys(issues);
    let rules = distinct_texts(keys);
    let key = issues[i].rule_key();
    assert(keys[i] == key);
    assert(keys.contains(key));
    crate::order::distinct_texts_are_in_order(keys);
    assert(rules.contains(key));
    let k = choose|k: int| 0 <= k < rules.len() && rules[k] == key;
    let own = of_rule(issues, key);
    findings_stand_under_their_rule(issues, issues[i], key);
    assert(own.contains(issues[i]));
    let j = choose|j: int| 0 <= j < own.len() && own[j] == issues[i];
    lemma_row_in_table(own, j);
    let head = "## `"@ + key + "`\n\n"@ + (if own.len() > 0 {
        "_"@ + own[0].description() + "_\n\n"@
    } else {
        Seq::empty()
    }) + "| Location | Detail |\n|---|---|\n"@;
    lemma_text_inside(head, finding_rows(own), "\n"@, row_of(issues[i]));
    lemma_section_in_report(rules, issues, k, row_of(issues[i]));
    lemma_count_in_table(rules, issues, k);
    let top = "# pyllow report\n\n## Summary\n\n| Rule | Count |\n|---|---:|\n"@;
    let counts = count_rows(rules, issues);
    let total = "| **Total** | **"@ + decimal(issues.len()) + "** |\n\n"@;
    let sections = rule_sections(rules, issues);
    let tail = "_"@ + decimal(stats.files_scanned as nat) + " files scanned in "@ + decimal(
        stats.elapsed_ms as nat,
    ) + " ms._\n"@;
    let all = report_text(issues, stats);
    assert(all =~= top + counts + total + sections + tail);
    assert(all =~= (top + counts + total) + sections + tail);
    assert(all =~= top + counts + (total + sections + tail));
    lemma_text_inside(top + counts + total, sections, tail, row_of(issues[i]));
    sections_keep_the_order(issues, key);
    lemma_text_inside(
        top,
        counts,
        total + sections + tail,
        "| `"@ + key + "` | "@ + decimal(own.len()) + " |\n"@,
    );
}

/// The section of a rule holds its findings in the order in which they were found.
pub proof fn sections_keep_the_order(issues: Seq<IssueView>, rule: Seq<char>)
    ensures
        of_rule(issues, rule) == issues.filter(|x: IssueView| x.rule_key() == rule),
    decreases issues.len(),
{
    reveal(Seq::filter);
    if issues.len() > 0 {
        sections_keep_the_order(issues.drop_last(), rule);
    }
}

} // verus!
