use pyllow::issue::{AnalysisResults, DuplicateOccurrence, Issue, Measure};
use pyllow::path::FilePath;
use pyllow::report::human::rows;
use pyllow::report::json::document;
use pyllow::report::markdown::render;
use pyllow::report::sarif::{kebab_to_pascal, TOOL_VERSION, VERSION};
use pyllow::report::{format_cycle_path, format_cycle_summary, relative_posix, relativized, Format};
use pyllow::scope::ResolvedPath;
use pyllow::types::{AnalysisStats, Effort, FlagProvider, SmellRule};
use serde_json::Value;

fn path(s: &str) -> FilePath {
    FilePath::new(s)
}

fn results(issues: Vec<Issue>) -> AnalysisResults {
    AnalysisResults {
        issues,
        stats: AnalysisStats { files_scanned: 5, elapsed_ms: 42, ..Default::default() },
        ..Default::default()
    }
}

fn unused_import(p: &str, line: u32, name: &str) -> Issue {
    Issue::UnusedImport {
        path: path(p),
        line,
        name: name.to_string(),
        module: name.to_string(),
    }
}

fn measure(x: f32) -> Measure {
    Measure { bits: x.to_bits(), shown: format!("{x:.1}") }
}

fn mutable_default(p: &str, line: u32, detail: &str) -> Issue {
    Issue::Smell {
        path: path(p),
        line,
        rule: SmellRule::MutableDefault,
        detail: detail.to_string(),
    }
}

#[test]
fn empty_results_emit_no_issues_header() {
    let md = render(&results(vec![]));
    assert!(md.contains("# pyllow report"));
    assert!(md.contains("**No issues found.**"));
    assert!(md.contains("5 files scanned"));
}

#[test]
fn single_issue_emits_summary_table_and_section() {
    let md = render(&results(vec![unused_import("a.py", 3, "os")]));
    assert!(md.contains("## Summary"));
    assert!(md.contains("| `unused-import` | 1 |"));
    assert!(md.contains("| **Total** | **1** |"));
    assert!(md.contains("## `unused-import`"));
    assert!(md.contains("`a.py:3`"));
    assert!(md.contains("`os` from `os`"));
}

#[test]
fn multiple_rules_each_get_a_section_sorted_alphabetically() {
    let md = render(&results(vec![
        Issue::UnusedFile { path: path("x.py") },
        mutable_default("y.py", 1, "argument `foo` has mutable default"),
    ]));
    let mutable_idx = md.find("## `mutable-default`").expect("mutable-default section");
    let unused_idx = md.find("## `unused-file`").expect("unused-file section");
    assert!(mutable_idx < unused_idx, "sections must be sorted alphabetically");
}

#[test]
fn rule_section_includes_short_description() {
    let md = render(&results(vec![mutable_default(
        "y.py",
        1,
        "argument `foo` has mutable default",
    )]));
    assert!(md.contains("_Function argument has a mutable default value_"));
}

#[test]
fn issue_without_line_shows_path_only() {
    let md = render(&results(vec![Issue::UnusedFile { path: path("orphan.py") }]));
    assert!(md.contains("`orphan.py`"));
    assert!(!md.contains("orphan.py:"));
}

#[test]
fn report_ends_with_files_and_elapsed_footer() {
    let md = render(&results(vec![Issue::UnusedFile { path: path("orphan.py") }]));
    let trimmed = md.trim_end();
    assert!(
        trimmed.ends_with("_5 files scanned in 42 ms._"),
        "report must end with files-and-elapsed footer, got tail: {:?}",
        &trimmed[trimmed.len().saturating_sub(80)..]
    );
}

#[test]
fn markdown_is_written_in_full() {
    let md = render(&results(vec![
        unused_import("b.py", 2, "sys"),
        Issue::ParseError { path: path("c.py"), message: "bad".to_string() },
        unused_import("a.py", 1, "os"),
    ]));
    assert_eq!(
        md,
        "# pyllow report\n\n## Summary\n\n| Rule | Count |\n|---|---:|\n\
         | `parse-error` | 1 |\n| `unused-import` | 2 |\n| **Total** | **3** |\n\n\
         ## `parse-error`\n\n_File could not be parsed (excluded from analysis)_\n\n\
         | Location | Detail |\n|---|---|\n| `c.py` | bad |\n\n\
         ## `unused-import`\n\n_Imported name is never used in the module_\n\n\
         | Location | Detail |\n|---|---|\n| `b.py:2` | `sys` from `sys` |\n\
         | `a.py:1` | `os` from `os` |\n\n_5 files scanned in 42 ms._\n"
    );
}

fn sarif(r: &AnalysisResults) -> Value {
    let text = pyllow::report::sarif::render(r, &path(""), &vec![]).unwrap();
    serde_json::from_str(&text).unwrap()
}

#[test]
fn empty_run_emits_zero_results() {
    let report = sarif(&results(vec![]));
    assert_eq!(report["version"], VERSION);
    assert_eq!(report["runs"][0]["results"].as_array().unwrap().len(), 0);
    assert_eq!(report["runs"][0]["tool"]["driver"]["name"], "pyllow");
    assert_eq!(report["runs"][0]["tool"]["driver"]["version"], TOOL_VERSION);
}

#[test]
fn rule_catalog_is_deduplicated_and_sorted() {
    let report = sarif(&results(vec![
        unused_import("a.py", 1, "os"),
        unused_import("b.py", 2, "sys"),
        Issue::UnusedFile { path: path("dead.py") },
    ]));
    let rules = report["runs"][0]["tool"]["driver"]["rules"].as_array().unwrap();
    assert_eq!(rules.len(), 2);
    assert_eq!(rules[0]["id"], "unused-file");
    assert_eq!(rules[1]["id"], "unused-import");
    assert_eq!(rules[1]["name"], "UnusedImport");
    assert_eq!(
        rules[1]["helpUri"],
        "https://github.com/carlosarraes/pyllow/blob/main/README.md#rule-unused-import"
    );
    assert_eq!(rules[1]["defaultConfiguration"]["level"], "warning");
    assert_eq!(report["runs"][0]["results"][0]["ruleIndex"], 1);
    assert_eq!(report["runs"][0]["results"][2]["ruleIndex"], 0);
}

#[test]
fn smell_emits_correct_rule_id_and_level() {
    let report = sarif(&results(vec![mutable_default(
        "x.py",
        5,
        "argument `x` has mutable default",
    )]));
    let result = &report["runs"][0]["results"][0];
    assert_eq!(result["ruleId"], "mutable-default");
    assert_eq!(result["level"], "error");
    assert_eq!(result["locations"][0]["physicalLocation"]["region"]["startLine"], 5);
    assert_eq!(result["locations"][0]["physicalLocation"]["region"]["endLine"], 5);
}

#[test]
fn circular_dependency_emits_related_locations() {
    let report = sarif(&results(vec![Issue::CircularDependency {
        cycle: vec![path("a.py"), path("b.py"), path("c.py")],
    }]));
    let result = &report["runs"][0]["results"][0];
    assert_eq!(result["ruleId"], "circular-dependency");
    let related = result["relatedLocations"].as_array().unwrap();
    assert_eq!(related.len(), 2);
    assert_eq!(
        result["message"]["text"],
        "Circular dependency: a.py \u{2192} b.py \u{2192} c.py"
    );
    let region = &result["locations"][0]["physicalLocation"]["region"];
    assert!(region.as_object().unwrap().is_empty());
}

fn clone_of(places: &[(&str, u32, u32)]) -> Issue {
    Issue::Duplicate {
        token_count: 50,
        occurrences: places
            .iter()
            .map(|(p, s, e)| DuplicateOccurrence { path: path(p), start_line: *s, end_line: *e })
            .collect(),
    }
}

#[test]
fn duplicate_emits_related_locations() {
    let report = sarif(&results(vec![clone_of(&[("a.py", 1, 10), ("b.py", 20, 29)])]));
    let result = &report["runs"][0]["results"][0];
    assert_eq!(result["ruleId"], "duplicate");
    let related = result["relatedLocations"].as_array().unwrap();
    assert_eq!(related.len(), 1);
    assert_eq!(related[0]["physicalLocation"]["region"]["startLine"], 20);
    // One place alone has no others, and neither has none at all.
    for places in [&[("a.py", 1, 10)][..], &[]] {
        let report = sarif(&results(vec![clone_of(places)]));
        assert!(report["runs"][0]["results"][0].get("relatedLocations").is_none());
    }
}

#[test]
fn sarif_and_json_agree_on_rules_and_locations() {
    let known = vec![
        ResolvedPath { path: path("/link/src/app.py"), canonical: path("/r/src/app.py") },
        ResolvedPath { path: path("/link"), canonical: path("/r") },
    ];
    let r = results(vec![
        mutable_default("/link/src/app.py", 2, "d"),
        Issue::Complexity {
            path: path("/link/src/app.py"),
            line: 3,
            end_line: 9,
            function: "f".to_string(),
            cyclomatic: 11,
            cognitive: 16,
        },
        Issue::UnusedFile { path: path("/link/gone.py") },
    ]);
    let text = pyllow::report::sarif::render(&r, &path("/link"), &known).unwrap();
    let report: Value = serde_json::from_str(&text).unwrap();
    let doc = document(&r, &path("/link"), &known);
    assert_eq!(doc.schema_version, 1);
    assert_eq!(doc.tool, "pyllow");
    let found = report["runs"][0]["results"].as_array().unwrap();
    assert_eq!(found.len(), doc.diagnostics.len());
    for (s, d) in found.iter().zip(doc.diagnostics.iter()) {
        let place = &s["locations"][0]["physicalLocation"];
        assert_eq!(s["ruleId"], d.rule.as_str());
        assert_eq!(place["artifactLocation"]["uri"], d.path.as_str());
        assert_eq!(place["region"]["startLine"].as_u64(), d.start_line.map(|n| n as u64));
        assert_eq!(place["region"]["endLine"].as_u64(), d.end_line.map(|n| n as u64));
    }
    assert_eq!(doc.diagnostics[0].path, "src/app.py");
    assert_eq!(doc.diagnostics[1].end_line, Some(9));
    assert_eq!(doc.diagnostics[2].path, "gone.py");
    assert_eq!(doc.diagnostics[2].start_line, None);
    assert_eq!(doc.issues[0].path().text(), "src/app.py");
    assert!(doc.diagnostics.iter().all(|d| !d.message.is_empty()));
}

#[test]
fn paths_are_shown_from_the_project() {
    let none = vec![];
    assert_eq!(relative_posix(&path("/r/a/b.py"), &path("/r"), &none), "a/b.py");
    assert_eq!(relative_posix(&path("/x/b.py"), &path("/r"), &none), "//x/b.py");
    assert_eq!(relative_posix(&path("a/../b.py"), &path("/r"), &none), "a/../b.py");
    let i = relativized(
        &Issue::CircularDependency { cycle: vec![path("/r/a.py"), path("/r/s/b.py")] },
        &path("/r"),
        &none,
    );
    let texts: Vec<String> = i.paths().iter().map(|p| p.text()).collect();
    assert_eq!(texts, vec!["a.py".to_string(), "s/b.py".to_string()]);
}

#[test]
fn cycles_are_shortened() {
    let cycle = |n: usize| -> Vec<FilePath> { (0..n).map(|i| path(&format!("d/m{i}.py"))).collect() };
    assert_eq!(format_cycle_path(&cycle(2)), "m0.py \u{2192} m1.py");
    assert_eq!(format_cycle_summary(&cycle(3), 3), "m0.py \u{2192} m1.py \u{2192} m2.py");
    assert_eq!(
        format_cycle_summary(&cycle(5), 3),
        "m0.py \u{2192} m1.py \u{2192} … (5 total) \u{2192} m4.py"
    );
    assert_eq!(format_cycle_path(&vec![path("..")]), "");
    assert_eq!(format_cycle_summary(&cycle(1), 0), "m0.py \u{2192} … (1 total) \u{2192} m0.py");
}

#[test]
fn terminal_rows_say_what_was_found() {
    let issues = vec![
        Issue::UnusedFile { path: path("a.py") },
        unused_import("a.py", 3, "os"),
        Issue::UnusedDep {
            path: path("pyproject.toml"),
            name: "x".to_string(),
            source: "dev".to_string(),
        },
        clone_of(&[("a.py", 1, 10), ("b.py", 20, 29)]),
        clone_of(&[]),
        Issue::Complexity {
            path: path("a.py"),
            line: 3,
            end_line: 9,
            function: "f".to_string(),
            cyclomatic: 11,
            cognitive: 16,
        },
        Issue::LowMaintainability {
            path: path("a.py"),
            score: 20,
            avg_cyclomatic: measure(3.5),
            loc: 100,
        },
        Issue::Hotspot {
            path: path("a.py"),
            cyclomatic: 30,
            churn: 10,
            score: measure(7.46),
        },
        mutable_default("a.py", 5, "d"),
        Issue::CircularDependency { cycle: vec![path("p/a.py"), path("p/b.py")] },
        Issue::RefactorTarget {
            path: path("a.py"),
            line: 7,
            end_line: 0,
            function: "g".to_string(),
            cyclomatic: 8,
            cognitive: 9,
            effort: Effort::Low,
        },
        Issue::FeatureFlag {
            path: path("a.py"),
            line: 8,
            flag: "F".to_string(),
            provider: FlagProvider::EnvVar,
        },
    ];
    let shown = rows(&issues);
    let row = |a: &str, b: &str, c: &str| vec![a.to_string(), b.to_string(), c.to_string()];
    assert_eq!(
        shown,
        vec![
            row("kind", "location", "detail"),
            row("unused-file", "a.py", ""),
            row("unused-import", "a.py:3", "os (from os)"),
            row("unused-dep", "pyproject.toml", "x (in dev)"),
            row("duplicate", "a.py:1-10", "50 tokens across 2 locations"),
            row("duplicate", "", "50 tokens across 0 locations"),
            row("complexity", "a.py:3", "f (cyclomatic=11, cognitive=16)"),
            row("low-maintainability", "a.py", "MI=20 (avg_cc=3.5, loc=100)"),
            row("hotspot", "a.py", "cc=30 \u{00d7} churn=10 \u{2192} 7.5"),
            row("mutable-default", "a.py:5", "d"),
            row("circular-dependency", "p/a.py", "a.py \u{2192} b.py"),
            row("refactor-target", "a.py:7", "g (cc=8, cog=9, effort=low)"),
            row("feature-flag", "a.py:8", "F (via env-var)"),
        ]
    );
}

#[test]
fn terminal_report_is_a_table() {
    let r = pyllow::report::human::render(&results(vec![Issue::UnusedFile { path: path("a.py") }]));
    assert_eq!(
        r.table.unwrap(),
        "╭─────────────┬──────────┬────────╮\n\
         │ kind        │ location │ detail │\n\
         ├─────────────┼──────────┼────────┤\n\
         │ unused-file │ a.py     │        │\n\
         ╰─────────────┴──────────┴────────╯"
    );
    assert_eq!(r.line, "1 issue \u{2014} 5 files scanned, 0 entry points, 42 ms");
    assert_eq!(r.label, "found");
    let r = pyllow::report::human::render(&results(vec![]));
    assert!(r.table.is_none());
    assert_eq!(r.line, "no issues found (5 files scanned, 0 entry points, 42 ms)");
    assert_eq!(r.label, "ok");
}

#[test]
fn rule_names_become_words() {
    assert_eq!(kebab_to_pascal("no-typing-cast"), "NoTypingCast");
    assert_eq!(kebab_to_pascal("a--b"), "AB");
    assert_eq!(kebab_to_pascal("\u{e9}t"), "\u{e9}t");
    assert!(Format::Json.is_machine_readable());
    assert!(Format::Sarif.is_machine_readable());
    assert!(!Format::Human.is_machine_readable());
    assert!(!Format::Markdown.is_machine_readable());
}

#[test]
fn sarif_uses_the_configured_id_as_rule_id() {
    let report = sarif(&results(vec![Issue::BannedApi {
        path: path("src/app.py"),
        line: 4,
        end_line: 4,
        id: "no-typing-cast".to_string(),
        api: "typing.cast".to_string(),
        message: "Prefer parsing.".to_string(),
    }]));
    let result = &report["runs"][0]["results"][0];
    assert_eq!(result["ruleId"], "no-typing-cast");
    let catalog = report["runs"][0]["tool"]["driver"]["rules"].as_array().unwrap();
    assert!(catalog.iter().any(|r| r["id"] == "no-typing-cast"));
}
