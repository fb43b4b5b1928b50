use pyllow::commands::{
    exit_code, only_cycles, ConfigFormat, EffortArg, HealthArgs, Provider, RunEnd,
};
use pyllow::counts::{
    accept_counts, check_count_baseline, committed_place, compare, count_by_rule,
    ratchet_violations, Outcome, RuleCount,
};
use pyllow::inventory::{group_entries, list, refusal, source_label, What};
use pyllow::issue::{AnalysisResults, Issue};
use pyllow::path::FilePath;
use pyllow::postprocess::{
    count_column, fails, noqa_note, note_baseline_filter, saved_baseline_note, signed_text,
    sort_owners, suppress_note, trend_rows, Applied, OwnerCount, PostFlags, TrendDiff,
};
use pyllow::report::Format;
use pyllow::types::{
    Effort, EntryPointSource, Inventory, InventoryEntryPoint, InventoryFile, ModuleKind, SmellRule,
};
use pyllow::watch::{
    clock_text, event_is_relevant, step, ChangeKind, WatchAction, WatchEvent, WatchState,
};

fn broad_except(n: usize) -> Vec<Issue> {
    (0..n)
        .map(|i| Issue::Smell {
            path: FilePath::new("src/app.py"),
            line: i as u32 + 1,
            rule: SmellRule::BroadExcept,
            detail: String::new(),
        })
        .collect()
}

fn counts(v: &[(&str, u64)]) -> Vec<RuleCount> {
    v.iter().map(|(r, n)| RuleCount { rule: r.to_string(), count: *n }).collect()
}

#[test]
fn equal_counts_pass() {
    let current = count_by_rule(&broad_except(2));
    assert!(compare(&current, &counts(&[("broad-except", 2)])).is_empty());
}

#[test]
fn increase_is_a_regression() {
    let current = count_by_rule(&broad_except(2));
    let out = compare(&current, &counts(&[("broad-except", 1)]));
    assert_eq!(out.len(), 1);
    assert!(matches!(&out[0], Outcome::Regression { current: 2, baseline: 1, .. }));
    assert_eq!(out[0].describe(), "broad-except: 2 findings exceed the allowance of 1");
}

#[test]
fn decrease_is_stale_and_prints_the_exact_lower_value() {
    let current = count_by_rule(&broad_except(2));
    let out = compare(&current, &counts(&[("broad-except", 5)]));
    assert_eq!(out[0].describe(), "broad-except: allowance 5 is stale — update it to exactly 2");
}

#[test]
fn stale_allowance_fails_even_with_zero_findings() {
    let out = compare(&count_by_rule(&vec![]), &counts(&[("broad-except", 3)]));
    assert!(matches!(&out[0], Outcome::Stale { current: 0, baseline: 3, .. }));
    let applied = Applied { suppressed: 0, count_gate_failed: !out.is_empty() };
    assert!(fails(&AnalysisResults::default(), &applied));
}

#[test]
fn save_writes_exact_current_counts() {
    let saved = count_by_rule(&broad_except(2));
    assert_eq!(saved.len(), 1);
    assert_eq!((saved[0].rule.as_str(), saved[0].count), ("broad-except", 2));
    assert!(compare(&count_by_rule(&broad_except(2)), &saved).is_empty());
}

#[test]
fn inflated_branch_baseline_fails_against_merge_base() {
    let out = ratchet_violations(
        &counts(&[("broad-except", 10), ("fresh", 1)]),
        &Some(counts(&[("broad-except", 2)])),
    );
    let words: Vec<String> = out.iter().map(|o| o.describe_raised()).collect();
    assert_eq!(
        words,
        vec![
            "broad-except: branch allowance 10 exceeds 2 committed at merge-base".to_string(),
            "fresh: branch allowance 1 exceeds 0 committed at merge-base".to_string(),
        ]
    );
}

#[test]
fn honest_branch_baseline_passes_the_ratchet() {
    let branch = counts(&[("broad-except", 2)]);
    assert!(ratchet_violations(&branch, &Some(counts(&[("broad-except", 2)]))).is_empty());
    assert!(ratchet_violations(&branch, &Some(counts(&[("broad-except", 9), ("x", 1)]))).is_empty());
    assert!(ratchet_violations(&branch, &None).is_empty());
}

#[test]
fn unparseable_file_cannot_yield_a_clean_gate() {
    let mut found = broad_except(2);
    found.push(Issue::ParseError {
        path: FilePath::new("src/broken.py"),
        message: "bad".to_string(),
    });
    let out = compare(&count_by_rule(&found), &counts(&[("broad-except", 2)]));
    assert_eq!(out[0].describe(), "parse-error: 1 findings exceed the allowance of 0");
}

#[test]
fn notes_say_what_was_left_out() {
    assert_eq!(noqa_note(0), None);
    assert_eq!(noqa_note(1).unwrap(), "1 issue suppressed by noqa directives");
    assert_eq!(suppress_note(0), None);
    assert_eq!(suppress_note(2).unwrap(), "2 issues suppressed by [[suppress]] entries");
    let p = Some(FilePath::new("./b.json"));
    assert_eq!(note_baseline_filter(3, &p).unwrap(), "3 issues suppressed by baseline ./b.json");
    assert_eq!(note_baseline_filter(0, &p), None);
    assert_eq!(note_baseline_filter(3, &None), None);
    assert_eq!(saved_baseline_note(&FilePath::new("b.json"), 1), "b.json (1 issue captured)");
    let clean = Applied { suppressed: 4, count_gate_failed: false };
    assert!(!fails(&AnalysisResults::default(), &clean));
    let found = AnalysisResults { issues: broad_except(1), ..Default::default() };
    assert!(fails(&found, &clean));
}

#[test]
fn trends_show_what_changed() {
    let d = TrendDiff {
        total_issues: -3,
        unused_files: 0,
        unused_imports: 0,
        unused_deps: 0,
        duplicates: 2,
        complexity: 0,
        low_maintainability: 0,
        hotspots: 0,
        smells: -5,
        circular_deps: 0,
        refactor_targets: 0,
        feature_flags: 0,
        boundary_violations: 1,
    };
    let rows: Vec<(String, String)> =
        trend_rows(&d).iter().map(|r| (signed_text(r.delta), r.label.clone())).collect();
    let row = |a: &str, b: &str| (a.to_string(), b.to_string());
    assert_eq!(
        rows,
        vec![
            row("-3", "total issues"),
            row("+2", "duplicate"),
            row("-5", "smell"),
            row("+1", "boundary-violation"),
        ]
    );
    assert_eq!(signed_text(0), "  0");
    assert_eq!(signed_text(i32::MIN), "-2147483648");
}

#[test]
fn owners_are_sorted_by_their_findings() {
    let v: Vec<OwnerCount> = [("a", 1), ("b", 3), ("c", 1), ("d", 3)]
        .iter()
        .map(|(o, n)| OwnerCount { owner: o.to_string(), count: *n })
        .collect();
    let names: Vec<String> = sort_owners(&v).iter().map(|o| o.owner.clone()).collect();
    assert_eq!(names.concat(), "bdac");
    assert_eq!(count_column(7), "   7");
    assert_eq!(count_column(1234), "1234");
    assert_eq!(count_column(12345), "12345");
}

fn entry(path: &str, source: EntryPointSource) -> InventoryEntryPoint {
    InventoryEntryPoint {
        path: FilePath::new(path),
        dotted_module: path.trim_end_matches(".py").replace('/', "."),
        source,
    }
}

fn inventory() -> Inventory {
    Inventory {
        entry_points: vec![
            entry("src/b.py", EntryPointSource::ScriptEntryPoint),
            entry("../x.py", EntryPointSource::ModuleGetattr),
            entry("src/a.py", EntryPointSource::Config),
            entry("src/b.py", EntryPointSource::Plugin("click".to_string())),
            entry("/r/z.py", EntryPointSource::PyprojectEntryPoint("scripts".to_string())),
        ],
        files: vec![InventoryFile {
            path: FilePath::new("src/__init__.py"),
            dotted_module: "src".to_string(),
            kind: ModuleKind::PackageInit,
        }],
        plugins_run: vec!["click".to_string()],
    }
}

#[test]
fn entry_points_are_grouped_by_path() {
    let groups = group_entries(&inventory().entry_points);
    let shown: Vec<(String, String)> =
        groups.iter().map(|g| (g.path.text(), g.sources.join("+"))).collect();
    let row = |a: &str, b: &str| (a.to_string(), b.to_string());
    assert_eq!(
        shown,
        vec![
            row("/r/z.py", "pyproject:scripts"),
            row("../x.py", "module-getattr"),
            row("src/a.py", "config"),
            row("src/b.py", "script+plugin:click"),
        ]
    );
    assert_eq!(source_label(&EntryPointSource::LibraryPublicApi), "library-public-api");
}

#[test]
fn inventories_are_listed() {
    let inv = inventory();
    let all = list(What::All, &inv);
    assert_eq!(all.len(), 3);
    assert_eq!(all[0].heading, "## entry points");
    assert_eq!(all[0].footer, "5 entry points (4 unique paths)");
    assert!(all[0].table.contains("│ src/b.py │ src.b  │ script, plugin:click │"));
    assert_eq!(all[1].footer, "1 files");
    assert!(all[1].table.contains("packageinit"));
    assert_eq!(
        list(What::Plugins, &inv)[0].table,
        "╭────────╮\n│ plugin │\n├────────┤\n│ click  │\n╰────────╯"
    );
    assert_eq!(list(What::Plugins, &inv)[0].footer, "1 plugins active");
    assert_eq!(list(What::Files, &inv)[0].heading, "## files");
    assert_eq!(list(What::EntryPoints, &inv).len(), 1);
    assert!(refusal(Format::Sarif).unwrap().contains("not supported"));
    assert!(refusal(Format::Markdown).unwrap().contains("not implemented"));
    assert!(refusal(Format::Json).is_none());
    assert!(refusal(Format::Human).is_none());
}

#[test]
fn changes_are_waited_out() {
    let py = || vec![FilePath::new("README.md"), FilePath::new("src/a.py")];
    assert!(event_is_relevant(ChangeKind::Modified, &py()));
    assert!(!event_is_relevant(ChangeKind::Other, &py()));
    assert!(!event_is_relevant(ChangeKind::Created, &vec![FilePath::new("a.pyc")]));
    let idle = WatchState { pending: None };
    let change = WatchEvent::Change { kind: ChangeKind::Removed, paths: py() };
    let (due, action) = step(idle, &change, 1000);
    assert_eq!(action, WatchAction::Wait);
    assert_eq!(due.pending, Some(1000));
    assert_eq!(step(due, &WatchEvent::Quiet, 1199), (due, WatchAction::Wait));
    assert_eq!(step(due, &WatchEvent::Quiet, 1200), (idle, WatchAction::Run));
    assert_eq!(step(idle, &WatchEvent::Quiet, 9999), (idle, WatchAction::Wait));
    assert_eq!(step(due, &WatchEvent::Error, 1), (due, WatchAction::Report));
    assert_eq!(step(due, &WatchEvent::Closed, 1).1, WatchAction::Stop);
    let other = WatchEvent::Change { kind: ChangeKind::Created, paths: vec![] };
    assert_eq!(step(due, &other, 5000).0, due);
    assert_eq!(clock_text(0), "[00:00:00 UTC]");
    assert_eq!(clock_text(86400 * 3 + 3600 * 13 + 60 * 5 + 59), "[13:05:59 UTC]");
}

#[test]
fn runs_end_with_a_number() {
    assert_eq!(exit_code(RunEnd::Completed { findings: false }), 0);
    assert_eq!(exit_code(RunEnd::Completed { findings: true }), 1);
    assert_eq!(exit_code(RunEnd::Broken), 2);
}

#[test]
fn commands_are_told_what_is_asked_for() {
    let args = HealthArgs {
        path: FilePath::new("."),
        cyclomatic: 10,
        cognitive: 15,
        maintainability: 30,
        hotspot_top: 7,
        top: Some(3),
        targets: true,
        target_effort: Some(EffortArg::Medium),
        format: Format::Human,
        post: PostFlags::default(),
    };
    let l = args.limits();
    assert_eq!((l.cyclomatic_threshold, l.cognitive_threshold), (10, 15));
    assert_eq!((l.maintainability_threshold, l.hotspot_top_n, l.top), (30, 7, Some(3)));
    assert_eq!(l.target_effort, Some(Effort::Medium));
    assert_eq!(Effort::from(EffortArg::High), Effort::High);
    assert_eq!(Effort::from(EffortArg::Low), Effort::Low);
    assert_eq!(Provider::Github.template(), "templates/github_actions.yml");
    assert_eq!(Provider::Gitlab.template(), "templates/gitlab_ci.yml");
    assert_eq!(ConfigFormat::default(), ConfigFormat::Toml);
    let mut found = broad_except(1);
    found.push(Issue::CircularDependency { cycle: vec![FilePath::new("a.py")] });
    assert_eq!(only_cycles(&found).len(), 1);
    assert_eq!(only_cycles(&found)[0].rule_key(), "circular-dependency");
}

#[test]
fn agreed_numbers_are_held_against_a_run() {
    let found = broad_except(2);
    let agreed = counts(&[("broad-except", 2)]);
    let c = check_count_baseline(&found, &agreed, &None);
    assert!(!c.failed);
    let c = check_count_baseline(&found, &agreed, &Some(Some(counts(&[("broad-except", 1)]))));
    assert!(c.failed && c.differences.is_empty() && c.raised.len() == 1);
    let c = check_count_baseline(&found, &agreed, &Some(None));
    assert!(!c.failed);
    let c = check_count_baseline(&broad_except(3), &agreed, &None);
    assert!(c.failed && c.raised.is_empty() && c.differences.len() == 1);
}

#[test]
fn counts_add_up_to_the_findings() {
    let issues = broad_except(3);
    let sum: u64 = count_by_rule(&issues).iter().map(|c| c.count).sum();
    assert_eq!(sum, 3);
}

#[test]
fn count_files_are_placed_and_versioned() {
    assert_eq!(accept_counts(1, counts(&[("a", 2)])).unwrap().len(), 1);
    assert_eq!(accept_counts(2, counts(&[])).unwrap_err(), "unsupported schemaVersion 2");
    let top = FilePath::new("/r");
    let at = |canonical: &str| {
        committed_place("abc", &FilePath::new("./x.json"), &FilePath::new(canonical), &top)
    };
    assert_eq!(at("/r/ci/x.json"), "abc:ci/x.json");
    assert_eq!(at("/q/x.json"), "abc:./x.json");
}

#[test]
fn paths_are_listed_in_their_order() {
    let inv: Vec<InventoryEntryPoint> = ["a", "/a", "", "../a", "!a"]
        .iter()
        .map(|p| entry(p, EntryPointSource::Config))
        .collect();
    let listed: Vec<String> = group_entries(&inv).iter().map(|r| r.path.text()).collect();
    assert_eq!(listed, vec!["", "/a", "../a", "!a", "a"]);
    let twice = vec![
        entry("a//b.py", EntryPointSource::Config),
        entry("a/b.py", EntryPointSource::ScriptEntryPoint),
    ];
    let rows = group_entries(&twice);
    assert_eq!(rows.len(), 1);
    assert_eq!(rows[0].path.text(), "a//b.py");
    assert_eq!(rows[0].sources.len(), 2);
}
