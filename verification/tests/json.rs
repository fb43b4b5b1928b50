use pyllow::commands::{exit_code, RunEnd};
use pyllow::extract::parse_source;
use pyllow::issue::{AnalysisResults, Issue};
use pyllow::path::FilePath;
use pyllow::postprocess::{fails, Applied};
use pyllow::report::json::{document, Document};
use pyllow::report::sarif::render;
use pyllow::smells::executed_smell_rules;
use pyllow::types::{active_smell_rules, AnalysisStats, Selection, SmellRule};
use serde_json::Value;

fn root() -> FilePath {
    FilePath::new("/repo")
}

fn results(issues: Vec<Issue>) -> AnalysisResults {
    AnalysisResults { issues, ..AnalysisResults::default() }
}

/// A module that nothing imports, with an import that it does not use: one
/// finding about a file, and one about a line.
fn probe() -> AnalysisResults {
    let path = FilePath::new("/repo/src/orphan.py");
    let module = parse_source(&path, "import os\n\nvalue = 1\n").unwrap();
    let mut issues = vec![Issue::UnusedFile { path: path.clone() }];
    for unused in module.unused_imports {
        issues.push(Issue::UnusedImport {
            path: path.clone(),
            line: unused.line,
            name: unused.name,
            module: unused.module,
        });
    }
    results(issues)
}

fn shown(r: &AnalysisResults) -> Document {
    document(r, &root(), &vec![])
}

#[test]
fn envelope_carries_schema_version_and_tool() {
    let doc = shown(&probe());
    assert_eq!(doc.schema_version, 1);
    assert_eq!(doc.tool, "pyllow");
}

#[test]
fn diagnostic_paths_are_repository_relative_posix() {
    let doc = shown(&probe());
    assert_eq!(doc.diagnostics.len(), 2);
    for d in &doc.diagnostics {
        assert!(!d.path.starts_with('/') && !d.path.contains(':'), "{}", d.path);
        assert!(!d.path.contains('\\'), "{}", d.path);
    }
    assert!(doc.diagnostics.iter().any(|d| d.path == "src/orphan.py"));
}

#[test]
fn localized_diagnostics_carry_inclusive_one_based_ranges() {
    let doc = shown(&results(vec![Issue::Smell {
        path: FilePath::new("/repo/src/app.py"),
        line: 2,
        rule: SmellRule::MutableDefault,
        detail: "items".to_string(),
    }]));
    let smell = doc.diagnostics.iter().find(|d| d.rule == "mutable-default").unwrap();
    assert_eq!(smell.start_line, Some(2));
    assert_eq!(smell.end_line, Some(2));
}

#[test]
fn issue_paths_are_relative_too() {
    let doc = shown(&probe());
    assert_eq!(doc.issues.len(), 2);
    for issue in &doc.issues {
        assert!(!issue.path().text().starts_with('/'), "{}", issue.path().text());
    }
}

#[test]
fn every_diagnostic_carries_a_rule_and_message() {
    for d in &shown(&probe()).diagnostics {
        assert!(!d.rule.is_empty(), "missing rule in {d:?}");
        assert!(!d.message.is_empty(), "missing message in {d:?}");
    }
}

#[test]
fn file_level_diagnostics_have_null_range_rather_than_a_fake_one() {
    let doc = shown(&probe());
    let unused_file = doc.diagnostics.iter().find(|d| d.rule == "unused-file").unwrap();
    assert_eq!(unused_file.start_line, None);
    let unused_import = doc.diagnostics.iter().find(|d| d.rule == "unused-import").unwrap();
    assert_eq!(unused_import.start_line, Some(1));
}

#[test]
fn unparseable_source_does_not_report_clean() {
    let path = FilePath::new("/repo/src/broken.py");
    let err = parse_source(&path, "def f(:\n    ???\n").unwrap_err();
    let r = results(vec![Issue::ParseError { path, message: err.describe() }]);
    let applied = Applied { suppressed: 0, count_gate_failed: false };
    assert_ne!(exit_code(RunEnd::Completed { findings: fails(&r, &applied) }), 0);
    assert!(shown(&r).diagnostics.iter().any(|d| d.rule == "parse-error"));
}

#[test]
fn envelope_lists_rules_that_ran_even_when_they_found_nothing() {
    let executed = executed_smell_rules(&active_smell_rules(&[], &[]));
    assert!(executed.contains(&"mutable-default".to_string()), "{executed:?}");
    assert!(executed.contains(&"broad-except".to_string()), "{executed:?}");
}

#[test]
fn sarif_uris_are_repository_relative() {
    let text = render(&probe(), &root(), &vec![]).unwrap();
    let sarif: Value = serde_json::from_str(&text).unwrap();
    let found = sarif["runs"][0]["results"].as_array().unwrap();
    assert_eq!(found.len(), 2);
    for r in found {
        let uri = r["locations"][0]["physicalLocation"]["artifactLocation"]["uri"].as_str();
        assert_eq!(uri, Some("src/orphan.py"));
    }
}

#[test]
fn enabled_family_reports_the_configured_id_at_the_call_range() {
    let r = results(vec![Issue::BannedApi {
        path: FilePath::new("/repo/src/app.py"),
        line: 4,
        end_line: 4,
        id: "no-typing-cast".to_string(),
        api: "typing.cast".to_string(),
        message: "Prefer parsing.".to_string(),
    }]);
    let applied = Applied { suppressed: 0, count_gate_failed: false };
    assert_eq!(exit_code(RunEnd::Completed { findings: fails(&r, &applied) }), 1);
    let d = &shown(&r).diagnostics[0];
    assert_eq!(d.rule, "no-typing-cast");
    assert_eq!(d.path, "src/app.py");
    assert_eq!(d.start_line, Some(4));
    assert_eq!(d.end_line, Some(4));
    assert!(d.message.contains("Prefer parsing."));
}

#[test]
fn clean_analysis_exits_zero() {
    let applied = Applied { suppressed: 0, count_gate_failed: false };
    let findings = fails(&results(vec![]), &applied);
    assert_eq!(exit_code(RunEnd::Completed { findings }), 0);
}

#[test]
fn blocking_findings_exit_one() {
    let orphan = Issue::UnusedFile { path: FilePath::new("/repo/orphan.py") };
    let applied = Applied { suppressed: 0, count_gate_failed: false };
    let findings = fails(&results(vec![orphan]), &applied);
    assert_eq!(exit_code(RunEnd::Completed { findings }), 1);
}

#[test]
fn documents_record_what_was_asked_for_and_what_ran() {
    let texts = |v: &[&str]| v.iter().map(|s| s.to_string()).collect::<Vec<String>>();
    let r = AnalysisResults {
        issues: vec![],
        stats: AnalysisStats {
            files_scanned: 3,
            entry_points: 1,
            plugins_run: texts(&["fastapi"]),
            elapsed_ms: 7,
            exemptions: texts(&["api.py"]),
        },
        executed_rules: texts(&["broad-except"]),
        selection: Some(Selection {
            families_requested: texts(&["smells"]),
            families_executed: texts(&["smells"]),
            rules_requested: texts(&["broad-except"]),
        }),
    };
    let doc = shown(&r);
    assert_eq!(doc.rules_executed, vec!["broad-except"]);
    let selection = doc.selection.unwrap();
    assert_eq!(selection.families_requested, vec!["smells"]);
    assert_eq!(selection.families_executed, vec!["smells"]);
    assert_eq!(selection.rules_requested, vec!["broad-except"]);
    assert_eq!(doc.stats.files_scanned, 3);
    assert_eq!(doc.stats.entry_points, 1);
    assert_eq!(doc.stats.elapsed_ms, 7);
    assert_eq!(doc.stats.plugins_run, vec!["fastapi"]);
    assert_eq!(doc.stats.exemptions, vec!["api.py"]);
    assert!(shown(&probe()).selection.is_none());
}
