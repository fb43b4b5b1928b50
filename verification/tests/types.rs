use pyllow::issue::{DuplicateOccurrence, Issue};
use pyllow::path::FilePath;
use pyllow::types::{active_smell_rules, resolve_smell_rules, Effort, FlagProvider, SmellRule};

fn complexity(line: u32, end_line: u32) -> Issue {
    Issue::Complexity {
        path: FilePath::new("a.py"),
        line,
        end_line,
        function: "handler".into(),
        cyclomatic: 12,
        cognitive: 8,
    }
}

// A diagnostic message must identify *what* was found, not just restate
// the rule — "unused import" is useless in a file with twelve imports.
// A boundary violation names two files; a relativizing pass that only
// rewrote `from_path` would leave an absolute path in machine output.
// #1 "enabled and disabled rules compose predictably". Uses explicit
// (rule, default_on) pairs so the default-off path is covered before any
// shipped rule is default-off.
#[test]
fn default_off_rule_stays_off_until_explicitly_enabled() {
    let candidates = [(SmellRule::StrayPrint, false)];
    let active = resolve_smell_rules(&candidates, &[], &[]);
    assert!(active.is_empty(), "a default-off rule must not run by default");

    let active = resolve_smell_rules(&candidates, &[SmellRule::StrayPrint], &[]);
    assert!(active.contains(&SmellRule::StrayPrint), "opt-in must enable it");
}

#[test]
fn explicit_disable_beats_explicit_enable() {
    let candidates = [(SmellRule::StrayPrint, false)];
    let active = resolve_smell_rules(
        &candidates,
        &[SmellRule::StrayPrint],
        &[SmellRule::StrayPrint],
    );
    assert!(
        active.is_empty(),
        "turning a rule off must always win, so a shared config cannot force it on"
    );
}

#[test]
fn default_on_rule_can_be_disabled() {
    let candidates = [(SmellRule::BroadExcept, true)];
    let active = resolve_smell_rules(&candidates, &[], &[SmellRule::BroadExcept]);
    assert!(active.is_empty());
}

// Guards the "no new findings by default" criterion: every rule that ships
// today must keep running for projects with no [smells] config at all.
#[test]
fn shipped_defaults_are_unchanged_without_config() {
    let active = active_smell_rules(&[], &[]);
    for rule in SmellRule::all() {
        assert_eq!(
            active.contains(&rule),
            rule.default_enabled(),
            "{} must run by default iff default_enabled() says so",
            rule.as_str()
        );
    }
    // The only default-off rule is the policy family, which produces
    // nothing without [[smells.banned_api]] entries anyway.
    assert!(!active.contains(&SmellRule::BannedApi));
    assert!(!active.contains(&SmellRule::NoExplicitAny));
    assert_eq!(active.len(), SmellRule::all().len() - 2);
}

#[test]
fn paths_mut_exposes_every_path_on_the_issue() {
    let issue = Issue::BoundaryViolation {
        from_path: FilePath::new("/abs/a.py"),
        from_line: 3,
        from_zone: "web".into(),
        to_path: FilePath::new("/abs/b.py"),
        to_zone: "db".into(),
    };
    let rewritten: Vec<FilePath> =
        issue.paths().iter().map(|_| FilePath::new("rewritten")).collect();
    let issue = issue.with_paths(&rewritten);
    match &issue {
        Issue::BoundaryViolation {
            from_path, to_path, ..
        } => {
            assert!(from_path.same_as(&FilePath::new("rewritten")));
            assert!(to_path.same_as(&FilePath::new("rewritten")));
        }
        _ => unreachable!(),
    }
}

#[test]
fn message_names_the_specific_symbol() {
    let issue = Issue::UnusedImport {
        path: FilePath::new("a.py"),
        line: 3,
        name: "os".into(),
        module: "os".into(),
    };
    let message = issue.message();
    assert!(message.contains("os"), "message should name the import: {message}");
}

#[test]
fn complexity_range_spans_the_whole_function_body() {
    assert_eq!(complexity(10, 25).range(), Some((10, 25)));
}

#[test]
fn refactor_target_range_spans_the_whole_function_body() {
    let issue = Issue::RefactorTarget {
        path: FilePath::new("a.py"),
        line: 4,
        end_line: 40,
        function: "handler".into(),
        cyclomatic: 20,
        cognitive: 30,
        effort: Effort::High,
    };
    assert_eq!(issue.range(), Some((4, 40)));
}

#[test]
fn single_line_issue_reports_a_degenerate_range() {
    let issue = Issue::Smell {
        path: FilePath::new("a.py"),
        line: 7,
        rule: SmellRule::StrayPrint,
        detail: String::new(),
    };
    assert_eq!(issue.range(), Some((7, 7)));
}

#[test]
fn duplicate_range_covers_the_first_occurrence() {
    let issue = Issue::Duplicate {
        token_count: 60,
        occurrences: vec![DuplicateOccurrence {
            path: FilePath::new("a.py"),
            start_line: 12,
            end_line: 30,
        }],
    };
    assert_eq!(issue.range(), Some((12, 30)));
}

#[test]
fn file_level_issue_has_no_range() {
    let issue = Issue::UnusedFile {
        path: FilePath::new("a.py"),
    };
    assert_eq!(issue.range(), None);
}

// Guards the #6 requirement that a localized finding whose range is
// unavailable degrades to its own line rather than widening to the file.
#[test]
fn missing_end_line_degrades_to_the_declaration_line() {
    assert_eq!(complexity(10, 0).range(), Some((10, 10)));
}

#[test]
fn effort_words_are_read_in_any_case() {
    assert_eq!(Effort::parse("HIGH"), Ok(Effort::High));
    assert_eq!("med".parse::<Effort>(), Ok(Effort::Medium));
    assert_eq!(Effort::parse(Effort::Low.as_str()), Ok(Effort::Low));
    assert_eq!(
        Effort::parse("huge"),
        Err("unknown effort: huge (expected low|medium|high)".to_string())
    );
}

#[test]
fn rule_names_are_read_back() {
    for rule in SmellRule::all() {
        assert_eq!(SmellRule::parse(rule.as_str()), Ok(rule));
    }
    assert_eq!(
        "no-such-rule".parse::<SmellRule>(),
        Err("unknown smell rule: no-such-rule".to_string())
    );
}

#[test]
fn flag_providers_have_names() {
    assert_eq!(FlagProvider::EnvVar.as_str(), "env-var");
    assert_eq!(FlagProvider::LaunchDarkly.as_str(), "launchdarkly");
}

#[test]
fn messages_are_exact() {
    let banned = Issue::BannedApi {
        path: FilePath::new("a.py"),
        line: 3,
        end_line: 0,
        id: "no-cast".into(),
        api: "typing.cast".into(),
        message: "use a guard".into(),
    };
    assert_eq!(banned.message(), "Use of banned API `typing.cast`: use a guard");
    assert_eq!(banned.rule_key(), "no-cast");
    assert_eq!(banned.range(), Some((3, 3)));
    assert_eq!(banned.sarif_level(), "error");
    let complex = complexity(10, 25);
    assert_eq!(complex.message(), "Function `handler` is complex (cyclomatic=12, cognitive=8)");
    assert_eq!(complex.line(), Some(10));
    assert_eq!(complex.path().text(), "a.py");
    let cycle = Issue::CircularDependency { cycle: vec![] };
    assert_eq!(cycle.message(), "Import cycle across 0 files");
    assert_eq!(cycle.path().text(), "");
}

#[test]
fn a_copy_of_an_issue_says_the_same() {
    let issue = complexity(10, 25);
    let copy = issue.clone();
    assert_eq!(copy.message(), issue.message());
    assert_eq!(copy.range(), issue.range());
}

#[test]
fn what_is_joined_is_behind() {
    let base = FilePath::new("/r/src");
    let tail = FilePath::new("a/b.py");
    let path = base.join(&tail);
    assert_eq!(path.text(), "/r/src/a/b.py");
    assert_eq!(path.behind(&base).unwrap().text(), "a/b.py");
    assert!(path.behind(&FilePath::new("/q")).is_none());
}

#[test]
fn paths_are_compared_by_components_and_shown_as_written() {
    let p = FilePath::new("a//b/./c/");
    assert_eq!(p.text(), "a//b/./c/");
    assert_eq!(p.plain(), "a/b/c");
    assert!(p.same_as(&FilePath::new("a/b/c")));
    assert_eq!(p.behind(&FilePath::new("a")).unwrap().text(), "b/./c");
    assert_eq!(p.behind(&FilePath::new("")).unwrap().text(), "a//b/./c");
    assert_eq!(p.parent().unwrap().text(), "a//b");
    assert_eq!(FilePath::new("/a").parent().unwrap().text(), "/");
    assert_eq!(FilePath::new("a").parent().unwrap().text(), "");
    assert_eq!(FilePath::new("a").join(&FilePath::new("b/")).text(), "a/b/");
    assert_eq!(FilePath::new("a/").join(&FilePath::new("./b")).text(), "a/./b");
    assert_eq!(FilePath::new("a").join(&FilePath::new("/b")).text(), "/b");
}
