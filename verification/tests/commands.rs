use pyllow::dupes::{
    is_intra_directory, issue_matches_trace, min_occurrences, parse_trace, show, DupesMode,
};
use pyllow::init::{replace_tool_pyllow, run, InitError, NewFile, ProjectFiles};
use pyllow::issue::{DuplicateOccurrence, Issue};
use pyllow::migrate::{migrate_import_linter, migrate_vulture, parse_ini, Note};
use pyllow::path::FilePath;
use pyllow::scope::ResolvedPath;

fn dup(occs: &[(&str, u32, u32)]) -> Issue {
    Issue::Duplicate {
        token_count: 30,
        occurrences: occs
            .iter()
            .map(|(p, s, e)| DuplicateOccurrence {
                path: FilePath::new(p),
                start_line: *s,
                end_line: *e,
            })
            .collect(),
    }
}

#[test]
fn intra_directory_clone_skipped() {
    let same_dir = dup(&[("src/a.py", 10, 30), ("src/b.py", 5, 25)]);
    let cross_dir = dup(&[("src/a.py", 10, 30), ("tests/a.py", 5, 25)]);
    assert!(is_intra_directory(&same_dir));
    assert!(!is_intra_directory(&cross_dir));
    assert!(!is_intra_directory(&dup(&[])));
    assert!(!is_intra_directory(&Issue::UnusedFile { path: FilePath::new("a.py") }));
}

#[test]
fn clones_are_traced_to_a_place() {
    let known = vec![ResolvedPath {
        path: FilePath::new("src/a.py"),
        canonical: FilePath::new("/r/src/a.py"),
    }];
    let at = FilePath::new("/r/src/a.py");
    let one = dup(&[("src/a.py", 10, 30), ("src/b.py", 5, 25)]);
    assert!(issue_matches_trace(&one, &known, &at, 10));
    assert!(issue_matches_trace(&one, &known, &at, 30));
    assert!(!issue_matches_trace(&one, &known, &at, 31));
    assert!(issue_matches_trace(&one, &known, &FilePath::new("src/b.py"), 5));
    let all = vec![one, dup(&[("/r/src/a.py", 1, 2), ("t/c.py", 1, 2)])];
    assert_eq!(show(&all, &known, &None, false).len(), 2);
    assert_eq!(show(&all, &known, &None, true).len(), 1);
    let traced = show(&all, &known, &Some((FilePath::new("/r/src/a.py"), 2)), false);
    assert_eq!(traced.len(), 1);
    assert_eq!(traced[0].path().text(), "/r/src/a.py");
}

#[test]
fn traces_are_read() {
    let t = parse_trace("C:/x.py:12").unwrap();
    assert_eq!((t.file.as_str(), t.line), ("C:/x.py", 12));
    assert_eq!(parse_trace("a:+7").unwrap().line, 7);
    assert_eq!(parse_trace("a:4294967295").unwrap().line, 4294967295);
    assert_eq!(
        parse_trace("a.py").unwrap_err().describe(),
        "--trace expects <file>:<line>, got: a.py"
    );
    for bad in ["a.py:x", "a.py:", "a.py:+", "a.py:4294967296", "a.py:-1"] {
        assert_eq!(
            parse_trace(bad).unwrap_err().describe(),
            format!("--trace line must be an integer, got: {}", &bad[5..])
        );
    }
    assert_eq!(min_occurrences(Some(3), 2), 3);
    assert_eq!(min_occurrences(None, 2), 2);
    assert_eq!(DupesMode::default(), DupesMode::Mild);
}

#[test]
fn ini_parses_section_with_multiline_values() {
    let src = "\
[importlinter]
root_packages =
    myapp
    myapp.shared

[importlinter:contract:1]
name = No cycles
type = independence
modules =
    myapp.x
    myapp.y
";
    let sections = parse_ini(src);
    assert_eq!(sections.len(), 2);
    let (name, kvs) = &sections[1];
    assert_eq!(name, "importlinter:contract:1");
    let modules = kvs.iter().find(|(k, _)| k == "modules").map(|(_, v)| v.as_str());
    assert_eq!(modules, Some("myapp.x\nmyapp.y"));
}

#[test]
fn ini_leaves_out_what_it_cannot_place() {
    let sections = parse_ini("lost = 1\n; c\n[]\n  a = 1\n   b = 2\nc=3=4\nnothing\n# x\n[s]");
    assert_eq!(
        sections,
        vec![
            (
                "".to_string(),
                vec![
                    ("a".to_string(), "1\nb = 2".to_string()),
                    ("c".to_string(), "3=4".to_string())
                ]
            ),
            ("s".to_string(), vec![]),
        ]
    );
}

#[test]
fn vulture_migration_emits_skeleton_and_lists_symbols() {
    let src = "# vulture whitelist\nfoo_bar  # noqa\nMyClass.method\n";
    let out = migrate_vulture(src);
    assert!(out.toml.contains("# Migrated from vulture whitelist"));
    assert!(out.toml.contains("entryPoints = []"));
    assert_eq!(out.notes.len(), 8);
    assert!(matches!(&out.notes[0], Note::Warning(s) if s.starts_with("vulture's whitelist")));
    assert!(matches!(
        &out.notes[1],
        Note::Detail(s) if s == "         2 symbols were not auto-translated. Equivalents to consider per case:"
    ));
    assert!(matches!(&out.notes[6], Note::Detail(s) if s == "           foo_bar"));
    assert!(matches!(&out.notes[7], Note::Detail(s) if s == "           MyClass.method"));
    assert!(migrate_vulture("# only\n\n").notes.is_empty());
}

#[test]
fn import_linter_migration_handles_independence_and_layered() {
    let src = "\
[importlinter]
root_packages =
    myapp

[importlinter:contract:1]
name = No cycles
type = independence

[importlinter:contract:2]
name = Layered
type = layered
layers =
    api
    domain
";
    let out = migrate_import_linter(src);
    assert!(out.toml.contains("# Migrated from import-linter"));
    assert!(out.toml.contains("packageRoots"));
    assert!(out.toml.contains("\"myapp\""));
    assert_eq!(
        out.toml,
        "# Migrated from import-linter `.importlinter`\n\
         # 1 independence contract are auto-handled by `pyllow check --circular-deps`.\n\
         # 1 contract (layered/forbidden) await pyllow boundary support.\n\n\
         # root_packages were lifted from .importlinter; verify they match your layout.\n\
         packageRoots = [\n    \"myapp\",\n]\n"
    );
    assert!(matches!(
        &out.notes[0],
        Note::Covered(s) if s == "`No cycles` (type=independence) \u{2192} covered by `pyllow check --circular-deps` (built-in, no config needed)"
    ));
    assert!(matches!(
        &out.notes[1],
        Note::Warning(s) if s == "1 contract require pyllow's boundary-violation analysis (not yet shipped):"
    ));
    assert!(matches!(&out.notes[2], Note::Detail(s) if s == "           Layered (type=layered)"));
    assert_eq!(out.notes.len(), 4);
}

#[test]
fn contracts_without_a_name_or_type_are_named() {
    let out = migrate_import_linter("[importlinter:contract:x]\na = 1\n[other]\ntype = layered\n");
    assert!(matches!(
        &out.notes[1],
        Note::Detail(s) if s == "           importlinter:contract:x (type=(unknown), unrecognized)"
    ));
    assert!(out.toml.starts_with(
        "# Migrated from import-linter `.importlinter`\n# 0 independence contracts are"
    ));
    assert!(out.toml.ends_with("boundary support.\n\n"));
}

fn files(has_pyllow_toml: bool, pyproject: Option<&str>) -> ProjectFiles {
    ProjectFiles {
        has_pyllow_toml,
        has_pyllowignore: false,
        pyproject: pyproject.map(|s| s.to_string()),
    }
}

fn init(
    write_pyproject: bool,
    force: bool,
    boundaries: Option<&str>,
    f: &ProjectFiles,
) -> Result<Vec<NewFile>, InitError> {
    run(&FilePath::new("/p"), write_pyproject, force, boundaries.map(|s| s.to_string()), f)
}

#[test]
fn creates_pyllow_toml_and_pyllowignore() {
    let written = init(false, false, None, &files(false, None)).unwrap();
    assert_eq!(written.len(), 2);
    assert_eq!(written[0].path.text(), "/p/pyllow.toml");
    assert_eq!(written[1].path.text(), "/p/.pyllowignore");
    let kept = ProjectFiles { has_pyllowignore: true, ..files(false, None) };
    assert_eq!(init(false, false, None, &kept).unwrap().len(), 1);
}

#[test]
fn refuses_to_overwrite_without_force() {
    let err = init(false, false, None, &files(true, None)).unwrap_err();
    assert!(err.describe().contains("already exists"));
    assert_eq!(err.describe(), "/p/pyllow.toml already exists; use --force to overwrite");
}

#[test]
fn force_overwrites() {
    let written = init(false, true, None, &files(true, None)).unwrap();
    assert!(written[0].text.contains("pyllow.toml"));
    assert!(written[0].text.starts_with("# pyllow.toml — codebase intelligence for Python\n"));
    assert!(written[0].text.ends_with("# [plugins.fastapi]\n# enabled = true\n"));
}

#[test]
fn appends_to_pyproject() {
    let written =
        init(true, false, None, &files(false, Some("[project]\nname = \"x\"\n"))).unwrap();
    assert!(written[0].text.contains("[project]"));
    assert!(written[0].text.contains("[tool.pyllow]"));
    assert!(written[0].updated);
    let bare = init(true, false, None, &files(false, Some("x"))).unwrap();
    assert!(bare[0].text.starts_with("x\n\n[tool.pyllow]\n"));
}

#[test]
fn pyproject_refuses_existing_tool_pyllow() {
    let err = init(true, false, None, &files(false, Some("[tool.pyllow]\nentryPoints = []\n")))
        .unwrap_err();
    assert!(err.describe().contains("[tool.pyllow]"));
    let err = init(true, false, None, &files(false, None)).unwrap_err();
    assert_eq!(
        err.describe(),
        "/p/pyproject.toml not found; run `pyllow init` (without --pyproject) to create pyllow.toml instead"
    );
}

#[test]
fn pyproject_force_replaces_section() {
    let written = init(
        true,
        true,
        None,
        &files(
            false,
            Some("[project]\nname = \"x\"\n\n[tool.pyllow]\nentryPoints = [\"old.py\"]\n"),
        ),
    )
    .unwrap();
    let contents = &written[0].text;
    assert!(contents.contains("[project]"));
    assert!(contents.contains("[tool.pyllow]"));
    assert!(!contents.contains("old.py"));
}

#[test]
fn other_sections_stay() {
    let out = replace_tool_pyllow("[a]\nx = 1\n  [tool.pyllow]\nold = 1\n[b]\ny = 2");
    assert!(out.starts_with("[a]\nx = 1\n[b]\ny = 2\n\n[tool.pyllow]\n"));
    assert!(!out.contains("old"));
    assert!(replace_tool_pyllow("").starts_with("\n\n[tool.pyllow]\n"));
}

#[test]
fn boundaries_are_seeded() {
    let written = init(false, false, Some("layered"), &files(false, None)).unwrap();
    assert!(written[0].text.ends_with("\n[boundaries]\npreset = \"layered\"\n"));
    let written = init(true, false, Some("hexagonal"), &files(false, Some(""))).unwrap();
    assert!(written[0].text.ends_with("\n[tool.pyllow.boundaries]\npreset = \"hexagonal\"\n"));
    assert_eq!(
        init(false, false, Some("made-up"), &files(false, None)).unwrap_err().describe(),
        "unknown boundary preset `made-up` (expected one of: bulletproof, layered, hexagonal, feature-sliced)"
    );
}
