use pyllow::audit::{
    changed_paths, conclude, empty_scope_warning, file_scope, has_staged_python, keep_in_scope,
    keep_selected, nothing_to_audit, scope_label, snapshot_project_root, Snapshot, Verdict,
};
use pyllow::config::banned::check_banned;
use pyllow::config::{PyllowFile, ResolvedConfig, SmellsConfig};
use pyllow::issue::{DuplicateOccurrence, Issue, Measure};
use pyllow::path::FilePath;
use pyllow::scope::{canonical, queries_for, AuditScope, DiffAnswers, DiffQuery, ResolvedPath};
use pyllow::selection::{
    resolve_selection, Family, ResolvedSelection, RuleCatalog, SelectionArgs, SelectionError,
};
use pyllow::smells::{executed_smell_rules, options_from_config};
use pyllow::types::{AnalysisStats, BannedApi, SmellRule};

fn strings(v: &[&str]) -> Vec<String> {
    v.iter().map(|s| s.to_string()).collect()
}

/// The lines that a unified diff adds to each file, and whether it deletes any.
fn touched(diff: &str) -> Vec<(String, Vec<u32>, bool)> {
    let mut out: Vec<(String, Vec<u32>, bool)> = vec![];
    let mut at = 0u32;
    for l in diff.lines() {
        if l.starts_with("--- ") {
            continue;
        }
        if let Some(p) = l.strip_prefix("+++ b/") {
            out.push((p.to_string(), vec![], false));
        } else if let Some(h) = l.strip_prefix("@@ ") {
            let plus = h.split(' ').find(|w| w.starts_with('+')).unwrap();
            at = plus[1..].split(',').next().unwrap().parse().unwrap();
        } else if l.starts_with('+') {
            out.last_mut().unwrap().1.push(at);
            at += 1;
        } else if l.starts_with('-') {
            out.last_mut().unwrap().2 = true;
        } else {
            at += 1;
        }
    }
    out
}

fn line_scope(diff: &str, issue: &Issue) -> AuditScope {
    let files = touched(diff);
    let yes = queries_for(issue)
        .into_iter()
        .filter(|q| match q {
            DiffQuery::Range { path, start, end } => files.iter().any(|f| {
                path.same_as(&FilePath::new(&f.0)) && f.1.iter().any(|l| start <= l && l <= end)
            }),
            DiffQuery::File { path } => {
                files.iter().any(|f| path.same_as(&FilePath::new(&f.0)))
            }
            DiffQuery::Deletions { path } => {
                files.iter().any(|f| path.same_as(&FilePath::new(&f.0)) && f.2)
            }
        })
        .collect();
    AuditScope::Line(DiffAnswers { empty: files.is_empty(), yes })
}

fn in_scope(diff: &str, issue: &Issue) -> bool {
    line_scope(diff, issue).contains(issue, &vec![])
}

fn diff_touching_lines_11(path_str: &str) -> String {
    format!("--- a/{path_str}\n+++ b/{path_str}\n@@ -10,1 +10,2 @@\n unchanged\n+added\n")
}

fn smell(path: &str, line: u32, rule: SmellRule) -> Issue {
    Issue::Smell { path: FilePath::new(path), line, rule, detail: String::new() }
}

#[test]
fn diff_scope_keeps_smell_on_touched_line() {
    let issue = smell("foo.py", 11, SmellRule::MutableDefault);
    assert!(in_scope(&diff_touching_lines_11("foo.py"), &issue));
}

#[test]
fn diff_scope_drops_smell_on_untouched_line() {
    let issue = smell("foo.py", 20, SmellRule::MutableDefault);
    assert!(!in_scope(&diff_touching_lines_11("foo.py"), &issue));
}

#[test]
fn diff_scope_keeps_circular_dep_when_any_cycle_member_touched() {
    let issue = Issue::CircularDependency {
        cycle: vec![FilePath::new("a.py"), FilePath::new("b.py"), FilePath::new("c.py")],
    };
    assert!(in_scope(&diff_touching_lines_11("b.py"), &issue));
}

fn dup(start_line: u32, end_line: u32) -> Issue {
    Issue::Duplicate {
        token_count: 30,
        occurrences: vec![DuplicateOccurrence {
            path: FilePath::new("foo.py"),
            start_line,
            end_line,
        }],
    }
}

#[test]
fn diff_scope_keeps_duplicate_when_occurrence_range_intersects_diff() {
    assert!(in_scope(&diff_touching_lines_11("foo.py"), &dup(10, 15)));
}

#[test]
fn diff_scope_drops_duplicate_when_no_occurrence_in_diff() {
    assert!(!in_scope(&diff_touching_lines_11("foo.py"), &dup(50, 55)));
}

fn complexity_at(line: u32, end_line: u32) -> Issue {
    Issue::Complexity {
        path: FilePath::new("foo.py"),
        line,
        end_line,
        function: "process".to_string(),
        cyclomatic: 12,
        cognitive: 18,
    }
}

const ADDITION_ONLY: &str = "--- a/foo.py\n+++ b/foo.py\n@@ -40,1 +40,3 @@\n existing\n+    if new_branch:\n+        do_thing()\n";

#[test]
fn diff_scope_keeps_complexity_when_body_grows_without_touching_def() {
    assert!(
        in_scope(ADDITION_ONLY, &complexity_at(5, 45)),
        "complexity must stay in scope when an added line falls inside its body range"
    );
}

#[test]
fn diff_scope_drops_complexity_when_addition_is_outside_the_body() {
    assert!(
        !in_scope(ADDITION_ONLY, &complexity_at(5, 20)),
        "complexity must not be dragged in by an edit outside its body range"
    );
}

#[test]
fn diff_scope_keeps_todo_density_in_file_with_only_deletions() {
    let deletion_only =
        "--- a/foo.py\n+++ b/foo.py\n@@ -42,3 +42,2 @@\n keep1\n-real_code()\n keep2\n";
    assert!(
        in_scope(deletion_only, &smell("foo.py", 5, SmellRule::HighTodoDensity)),
        "deleting code raises TODO density, so the finding is newly implicated"
    );
}

#[test]
fn diff_scope_drops_localized_smell_in_file_with_unrelated_deletion() {
    let deletion_only =
        "--- a/foo.py\n+++ b/foo.py\n@@ -42,3 +42,2 @@\n keep1\n-# removed comment\n keep2\n";
    assert!(
        !in_scope(deletion_only, &smell("foo.py", 5, SmellRule::BroadExcept)),
        "broad-except at an unchanged line should not be pulled into scope by an unrelated deletion"
    );
}

#[test]
fn diff_scope_keeps_unused_import_when_deletion_removed_its_usage() {
    let deletion_only =
        "--- a/foo.py\n+++ b/foo.py\n@@ -10,3 +10,2 @@\n keep1\n-removed_usage\n keep2\n";
    let issue = Issue::UnusedImport {
        path: FilePath::new("foo.py"),
        line: 1,
        name: "os".to_string(),
        module: "os".to_string(),
    };
    assert!(
        in_scope(deletion_only, &issue),
        "deletion fallback should keep an UnusedImport on an unchanged line"
    );
}

#[test]
fn diff_scope_keeps_lineless_issue_on_touched_file() {
    let issue = Issue::Hotspot {
        path: FilePath::new("foo.py"),
        cyclomatic: 30,
        churn: 10,
        score: Measure { bits: 7.5f32.to_bits(), shown: "7.5".to_string() },
    };
    assert!(in_scope(&diff_touching_lines_11("foo.py"), &issue));
}

fn parse_error(path: &str) -> Issue {
    Issue::ParseError { path: FilePath::new(path), message: "bad".to_string() }
}

fn resolved(path: &str, canonical: &str) -> ResolvedPath {
    ResolvedPath { path: FilePath::new(path), canonical: FilePath::new(canonical) }
}

#[test]
fn file_scope_follows_links() {
    let known = vec![resolved("a.py", "/r/a.py"), resolved("link.py", "/r/b.py")];
    let scope = file_scope(&vec![FilePath::new("/r/b.py")]);
    assert!(scope.contains(&smell("link.py", 1, SmellRule::BroadExcept), &known));
    assert!(!scope.contains(&smell("a.py", 1, SmellRule::BroadExcept), &known));
    // A path that leads nowhere is in no scope.
    assert!(!scope.contains(&smell("/r/b.py", 1, SmellRule::BroadExcept), &known));
    let cycle = Issue::CircularDependency {
        cycle: vec![FilePath::new("a.py"), FilePath::new("link.py")],
    };
    assert!(scope.contains(&cycle, &known));
    assert!(scope.contains(&parse_error("elsewhere.py"), &known));
    assert!(!scope.is_empty_set());
    assert!(file_scope(&vec![]).is_empty_set());
    assert!(canonical(&known, &FilePath::new("zzz")).is_none());
}

#[test]
fn changed_files_are_read_off_a_listing() {
    let paths = changed_paths("src/a.py\n\n  b.py \r\n/abs/c.py\n", &FilePath::new("/root"));
    let texts: Vec<String> = paths.iter().map(|p| p.text()).collect();
    assert_eq!(texts, strings(&["/root/src/a.py", "/root/b.py", "/abs/c.py"]));
    assert!(has_staged_python("a.txt\0src/b.py\0"));
    assert!(!has_staged_python("a.txt\0b.pyi\0"));
    assert!(!has_staged_python(""));
}

#[test]
fn staged_paths_are_reported_as_real_ones() {
    let s = Snapshot { top: FilePath::new("/tmp/s"), real_top: FilePath::new("/home/r") };
    assert_eq!(s.in_repository(&FilePath::new("/tmp/s/src/a.py")).text(), "/home/r/src/a.py");
    assert_eq!(s.in_repository(&FilePath::new("/else/a.py")).text(), "/else/a.py");
    let issues = vec![Issue::BoundaryViolation {
        from_path: FilePath::new("/tmp/s/a.py"),
        from_line: 3,
        from_zone: "x".to_string(),
        to_path: FilePath::new("/tmp/s/b.py"),
        to_zone: "y".to_string(),
    }];
    let out = s.real_all(&issues);
    let texts: Vec<String> = out[0].paths().iter().map(|p| p.text()).collect();
    assert_eq!(texts, strings(&["/home/r/a.py", "/home/r/b.py"]));
    let root = FilePath::new("given");
    assert_eq!(s.report_root(&root, &FilePath::new("/tmp/s/sub")).text(), "/home/r/sub");
    assert_eq!(s.report_root(&root, &FilePath::new("/x")).text(), "given");
    let inside = snapshot_project_root(
        &FilePath::new("/tmp/s"),
        &FilePath::new("/home/r/sub"),
        &FilePath::new("/home/r"),
    );
    assert_eq!(inside.text(), "/tmp/s/sub");
    let outside = snapshot_project_root(
        &FilePath::new("/tmp/s"),
        &FilePath::new("/x"),
        &FilePath::new("/home/r"),
    );
    assert_eq!(outside.text(), "/tmp/s");
}

fn catalog_for(enabled: &[&str], banned: Vec<BannedApi>) -> RuleCatalog {
    let file = PyllowFile {
        smells: Some(SmellsConfig {
            enabled: strings(enabled),
            banned_api: banned,
            ..SmellsConfig::default()
        }),
        ..PyllowFile::default()
    };
    let config =
        ResolvedConfig::load(FilePath::new("."), Some(file), None, None, &vec![]).unwrap();
    let opts = options_from_config(&config, 5);
    RuleCatalog {
        check: strings(&["unused-file", "unused-import"]),
        health: strings(&["complexity", "hotspot"]),
        smells: opts.enabled,
        banned: opts.banned_apis.iter().map(|b| b.id.clone()).collect(),
    }
}

fn select(families: &[Family], rules: &[&str]) -> Result<ResolvedSelection, SelectionError> {
    resolve_selection(
        SelectionArgs { families: families.to_vec(), rules: strings(rules) },
        &catalog_for(&[], vec![]),
    )
}

#[test]
fn no_selection_runs_every_family() {
    let s = select(&[], &[]).unwrap();
    for f in [Family::Check, Family::Dupes, Family::Health, Family::Smells] {
        assert!(s.runs(f));
    }
    assert!(s.requested_families.is_empty());
    assert!(s.executed_rules.contains(&"unused-file".to_string()));
    assert!(s.executed_rules.contains(&"broad-except".to_string()));
    assert_eq!(s.executed_rules[2], "duplicate");
}

#[test]
fn only_family_limits_findings_and_metadata() {
    let s = select(&[Family::Smells], &[]).unwrap();
    assert_eq!(s.families, vec![Family::Smells]);
    assert_eq!(s.requested_families, strings(&["smells"]));
    assert!(!s.executed_rules.contains(&"unused-file".to_string()));
    assert!(!s.executed_rules.contains(&"duplicate".to_string()));
}

#[test]
fn rule_selection_narrows_within_the_family() {
    let s = select(&[Family::Smells], &["broad-except"]).unwrap();
    assert_eq!(s.executed_rules, strings(&["broad-except"]));
    assert_eq!(s.requested_rules, strings(&["broad-except"]));
    let found = vec![
        smell("a.py", 1, SmellRule::MutableDefault),
        smell("a.py", 4, SmellRule::BroadExcept),
        parse_error("b.py"),
    ];
    let kept = keep_selected(&found, &s);
    let keys: Vec<String> = kept.iter().map(|i| i.rule_key()).collect();
    assert_eq!(keys, strings(&["broad-except", "parse-error"]));
}

#[test]
fn multiple_families_and_rules_compose() {
    let s = select(&[Family::Smells, Family::Check, Family::Smells], &["broad-except", "unused-file"])
        .unwrap();
    assert_eq!(s.families, vec![Family::Check, Family::Smells]);
    assert_eq!(s.requested_families, strings(&["smells", "check", "smells"]));
    assert_eq!(s.executed_rules, strings(&["unused-file", "broad-except"]));
}

#[test]
fn rule_outside_selected_family_is_rejected_before_scanning() {
    let e = select(&[Family::Health], &["broad-except"]).unwrap_err();
    assert_eq!(
        e.describe(),
        "rule `broad-except` belongs to family `smells`, which is not selected (selected: health)"
    );
}

#[test]
fn unknown_rule_is_rejected() {
    let e = select(&[Family::Dupes, Family::Health], &["duplicate", "nope"]).unwrap_err();
    assert_eq!(
        e.describe(),
        "unknown rule `nope` (available in dupes, health: duplicate, complexity, hotspot)"
    );
}

#[test]
fn requesting_a_disabled_rule_is_rejected() {
    let e = select(&[Family::Smells], &["no-explicit-any"]).unwrap_err();
    assert_eq!(
        e.describe(),
        "rule `no-explicit-any` is disabled by config; add it to [smells].enabled to select it"
    );
}

#[test]
fn configured_banned_api_id_is_a_selectable_smell_rule() {
    let ban = || BannedApi {
        id: "no-typing-cast".to_string(),
        path: "typing.cast".to_string(),
        message: "m".to_string(),
    };
    let args = || SelectionArgs {
        families: vec![Family::Smells],
        rules: strings(&["no-typing-cast"]),
    };
    let s = resolve_selection(args(), &catalog_for(&["banned-api"], vec![ban()])).unwrap();
    assert_eq!(s.executed_rules, strings(&["no-typing-cast"]));
    // The entries do nothing until the rule is turned on.
    assert!(matches!(
        resolve_selection(args(), &catalog_for(&[], vec![ban()])),
        Err(SelectionError::Unknown { .. })
    ));
}

#[test]
fn parse_errors_survive_family_selection() {
    let s = select(&[Family::Dupes], &[]).unwrap();
    let kept = keep_selected(&vec![parse_error("src/broken.py")], &s);
    let scope = AuditScope::Line(DiffAnswers { empty: true, yes: vec![] });
    let kept = keep_in_scope(&kept, &scope, &vec![]);
    assert_eq!(kept.len(), 1);
    assert_eq!(kept[0].rule_key(), "parse-error");
}

#[test]
fn verdicts_follow_the_allowance() {
    assert_eq!(Verdict::on(0, 0, false), Verdict::Pass);
    assert_eq!(Verdict::on(1, 0, false), Verdict::Fail);
    assert_eq!(Verdict::on(3, 3, false), Verdict::Warn);
    assert_eq!(Verdict::on(4, 3, false), Verdict::Fail);
    assert_eq!(Verdict::on(0, 3, true), Verdict::Fail);
    assert!(Verdict::Fail.is_fail());
    assert!(!Verdict::Warn.is_fail());
    assert_eq!(Verdict::Warn.label(), "WARN");
}

#[test]
fn audits_end_with_a_report() {
    let s = select(&[Family::Smells], &["broad-except"]).unwrap();
    let snap = Some(Snapshot {
        top: FilePath::new("/tmp/s"),
        real_top: FilePath::new("/r"),
    });
    let scope = file_scope(&vec![FilePath::new("/r/a.py")]);
    let label = scope_label(&scope, "main", "");
    assert_eq!(label, "1 changed file since main");
    let report = conclude(
        vec![smell("/tmp/s/a.py", 2, SmellRule::BroadExcept)],
        7,
        false,
        1,
        &label,
        &snap,
        s,
        AnalysisStats::default(),
    );
    assert_eq!(report.verdict, Verdict::Warn);
    assert_eq!(
        report.heading,
        "auditing 1 changed file since main (1 of 7 issues in scope)"
    );
    assert_eq!(report.tally, "1 issue in PR scope");
    assert_eq!(report.results.issues[0].path().text(), "/r/a.py");
    assert_eq!(report.results.executed_rules, strings(&["broad-except"]));
    let sel = report.results.selection.unwrap();
    assert_eq!(sel.families_executed, strings(&["smells"]));
    let line = AuditScope::Line(DiffAnswers { empty: true, yes: vec![] });
    assert_eq!(scope_label(&line, "main", "/tmp/x.diff"), "lines from --diff-file /tmp/x.diff");
    assert_eq!(
        empty_scope_warning(&line, "main"),
        "warning: --diff-file is empty (audit will be empty)"
    );
    assert_eq!(
        empty_scope_warning(&scope, "dev"),
        "warning: no files changed since dev (audit will be empty)"
    );
}

#[test]
fn empty_staged_changes_pass_without_analysis() {
    let report = nothing_to_audit(select(&[Family::Smells], &[]).unwrap());
    assert_eq!(report.verdict, Verdict::Pass);
    assert!(report.results.issues.is_empty());
    assert!(report.results.executed_rules.is_empty());
    assert_eq!(report.heading, "no staged Python changes — nothing to audit");
}

#[test]
fn smell_options_come_from_the_settings() {
    let c = ResolvedConfig::default();
    let o = options_from_config(&c, 5);
    assert_eq!(o.todo_density_threshold, 5);
    assert!(o.fastapi_policy);
    assert_eq!(executed_smell_rules(&o.enabled).len(), 11);
    assert_eq!(executed_smell_rules(&o.enabled)[0], "mutable-default");
    let file = PyllowFile {
        smells: Some(SmellsConfig {
            todo_density_threshold: Some(9),
            enabled: strings(&["no-explicit-any"]),
            disabled: strings(&["stray-print"]),
            ..SmellsConfig::default()
        }),
        ..PyllowFile::default()
    };
    let c = ResolvedConfig::load(FilePath::new("."), Some(file), None, None, &vec![]).unwrap();
    let o = options_from_config(&c, 5);
    assert_eq!(o.todo_density_threshold, 9);
    assert!(o.enabled.contains(&SmellRule::NoExplicitAny));
    assert!(!o.enabled.contains(&SmellRule::StrayPrint));
}

#[test]
fn banned_apis_are_checked() {
    let ban = |id: &str, path: &str, message: &str| BannedApi {
        id: id.to_string(),
        path: path.to_string(),
        message: message.to_string(),
    };
    assert!(check_banned(&vec![ban("a", "typing.cast", "m"), ban("b", "x.y.z1", "m")]).is_ok());
    for (entries, words) in [
        (
            vec![ban("a", "t.c", "m"), ban("a", "t.d", "m")],
            "invalid [[smells.banned_api]] entry `a`: the id is used twice",
        ),
        (
            vec![ban("unused-file", "t.c", "m")],
            "invalid [[smells.banned_api]] entry `unused-file`: the id is that of a built-in rule",
        ),
        (
            vec![ban("broad-except", "t.c", "m")],
            "invalid [[smells.banned_api]] entry `broad-except`: the id is that of a built-in rule",
        ),
        (
            vec![ban("a", "typing..cast", "m")],
            "invalid [[smells.banned_api]] entry `a`: the path is not a dotted name",
        ),
        (
            vec![ban("a", "print", "m")],
            "invalid [[smells.banned_api]] entry `a`: the path is not a dotted name",
        ),
        (
            vec![ban("a", "t.1c", "m")],
            "invalid [[smells.banned_api]] entry `a`: the path is not a dotted name",
        ),
        (
            vec![ban("a", "t.c", "  ")],
            "invalid [[smells.banned_api]] entry `a`: the message is empty",
        ),
    ] {
        assert_eq!(check_banned(&entries).unwrap_err().describe(), words);
    }
}
