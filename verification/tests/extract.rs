use pyllow::ast::Expression;
use pyllow::extract::{line_at_offset, parse_source, ParsedModule};
use pyllow::path::FilePath;
use pyllow::types::ImportKind;
use pyllow::walker::{body_contains_yield, stmt_range_start, walk_annotations};

fn parse(src: &str) -> ParsedModule {
    parse_source(&FilePath::new("test.py"), src).unwrap()
}

#[test]
fn extracts_top_level_import() {
    let m = parse("import os\nimport sys");
    assert_eq!(m.imports.len(), 2);
    assert_eq!(m.imports[0].raw, "os");
    assert!(matches!(m.imports[0].kind, ImportKind::Absolute));
    assert!(!m.imports[0].is_conditional);
}

#[test]
fn extracts_from_import_emits_module_and_member_candidates() {
    let m = parse("from foo.bar import baz");
    let raws: Vec<&str> = m.imports.iter().map(|i| i.raw.as_str()).collect();
    assert!(raws.contains(&"foo.bar"));
    assert!(raws.contains(&"foo.bar.baz"));
    assert_eq!(m.imports.len(), 2);
}

#[test]
fn extracts_relative_import() {
    let m = parse("from . import sibling\nfrom ..pkg import thing");
    let relatives: Vec<(&str, ImportKind)> =
        m.imports.iter().map(|i| (i.raw.as_str(), i.kind)).collect();
    assert!(relatives.contains(&("sibling", ImportKind::Relative { level: 1 })));
    assert!(relatives.contains(&("pkg", ImportKind::Relative { level: 2 })));
    assert!(relatives.contains(&("pkg.thing", ImportKind::Relative { level: 2 })));
}

#[test]
fn skips_star_import() {
    let m = parse("from foo import *");
    assert_eq!(m.imports.len(), 1);
    assert_eq!(m.imports[0].raw, "foo");
}

#[test]
fn marks_type_checking_imports_conditional() {
    let m = parse("from typing import TYPE_CHECKING\nif TYPE_CHECKING:\n    import foo");
    let foo = m.imports.iter().find(|i| i.raw == "foo").unwrap();
    assert!(foo.is_conditional);
    let typing = m.imports.iter().find(|i| i.raw == "typing").unwrap();
    assert!(!typing.is_conditional);
}

#[test]
fn marks_try_import_error_conditional() {
    let m = parse(
        "try:\n    import fast_thing\nexcept ImportError:\n    import slow_thing\n",
    );
    let fast = m.imports.iter().find(|i| i.raw == "fast_thing").unwrap();
    let slow = m.imports.iter().find(|i| i.raw == "slow_thing").unwrap();
    assert!(fast.is_conditional);
    assert!(slow.is_conditional);
}

#[test]
fn module_not_found_error_also_treated_conditional() {
    let m = parse(
        "try:\n    import opt\nexcept ModuleNotFoundError:\n    pass\n",
    );
    let opt = m.imports.iter().find(|i| i.raw == "opt").unwrap();
    assert!(opt.is_conditional);
}

#[test]
fn extracts_exports_top_level_only() {
    let m = parse(
        "def public_fn():\n    pass\n\nclass MyClass:\n    pass\n\nCONST = 42\n\ndef _private():\n    def nested():\n        pass\n",
    );
    assert!(m.exports.contains(&"public_fn".to_string()));
    assert!(m.exports.contains(&"MyClass".to_string()));
    assert!(m.exports.contains(&"CONST".to_string()));
    assert!(m.exports.contains(&"_private".to_string()));
    assert!(!m.exports.contains(&"nested".to_string()));
}

#[test]
fn extracts_imports_inside_function_body() {
    let m = parse(
        "def lazy_loader():\n    from src.foo import bar\n    import baz\n    return bar(baz)\n",
    );
    let raws: Vec<&str> = m.imports.iter().map(|i| i.raw.as_str()).collect();
    assert!(raws.contains(&"src.foo"));
    assert!(raws.contains(&"src.foo.bar"));
    assert!(raws.contains(&"baz"));
}

#[test]
fn extracts_imports_inside_async_function_and_method() {
    let m = parse(
        "class Service:\n    async def handle(self):\n        from src.helper import work\n        return work()\n",
    );
    let raws: Vec<&str> = m.imports.iter().map(|i| i.raw.as_str()).collect();
    assert!(raws.contains(&"src.helper"));
    assert!(raws.contains(&"src.helper.work"));
}

#[test]
fn extracts_imports_inside_with_block() {
    let m = parse("with open('x') as f:\n    import contextual\n");
    let raws: Vec<&str> = m.imports.iter().map(|i| i.raw.as_str()).collect();
    assert!(raws.contains(&"contextual"));
}

#[test]
fn flags_unused_import() {
    let m = parse("import os\nprint(\"hi\")\n");
    let names: Vec<&str> = m.unused_imports.iter().map(|u| u.name.as_str()).collect();
    assert_eq!(names, vec!["os"]);
}

#[test]
fn does_not_flag_used_import() {
    let m = parse("import os\nprint(os.environ)\n");
    assert!(m.unused_imports.is_empty());
}

#[test]
fn detects_used_alias() {
    let m = parse("import numpy as np\nx = np.zeros(3)\n");
    assert!(m.unused_imports.is_empty());
}

#[test]
fn flags_unused_alias() {
    let m = parse("import numpy as np\nprint(\"hi\")\n");
    let names: Vec<&str> = m.unused_imports.iter().map(|u| u.name.as_str()).collect();
    assert_eq!(names, vec!["np"]);
}

#[test]
fn from_import_unused() {
    let m = parse("from os.path import join\nprint(\"hi\")\n");
    let names: Vec<&str> = m.unused_imports.iter().map(|u| u.name.as_str()).collect();
    assert_eq!(names, vec!["join"]);
}

#[test]
fn from_import_used_in_attribute() {
    let m = parse("from os import path\nprint(path.sep)\n");
    assert!(m.unused_imports.is_empty());
}

#[test]
fn star_imports_never_flagged() {
    let m = parse("from os import *\nprint(\"hi\")\n");
    assert!(m.unused_imports.is_empty());
}

#[test]
fn noqa_skips_flagging() {
    let m = parse("import sentry_sdk  # noqa: F401\nprint(\"hi\")\n");
    assert!(m.unused_imports.is_empty());
}

#[test]
fn noqa_bare_skips_flagging() {
    let m = parse("import sentry_sdk  # noqa\nprint(\"hi\")\n");
    assert!(m.unused_imports.is_empty());
}

#[test]
fn imports_in_function_bodies_checked_against_whole_file() {
    let m = parse(
        "def lazy():\n    import json\n    return json.dumps({})\n",
    );
    assert!(m.unused_imports.is_empty());
}

#[test]
fn flags_dotted_import_unused() {
    let m = parse("import os.path\nprint(\"hi\")\n");
    let names: Vec<&str> = m.unused_imports.iter().map(|u| u.name.as_str()).collect();
    assert_eq!(names, vec!["os"]);
}

#[test]
fn future_imports_never_flagged() {
    let m = parse(
        "from __future__ import annotations\nfrom __future__ import division\nx = 1\n",
    );
    assert!(m.unused_imports.is_empty());
}

#[test]
fn line_number_reported() {
    let m = parse("\n\nimport os\nprint(\"hi\")\n");
    assert_eq!(m.unused_imports.len(), 1);
    assert_eq!(m.unused_imports[0].line, 3);
}

#[test]
fn lib_detects_if_name_main_guard() {
    let m = parse("def go():\n    pass\n\nif __name__ == \"__main__\":\n    go()\n");
    assert!(m.is_script_entry);
}

#[test]
fn detects_if_main_name_reversed_guard() {
    let m = parse("if \"__main__\" == __name__:\n    pass\n");
    assert!(m.is_script_entry);
}

#[test]
fn ignores_unrelated_if_blocks() {
    let m = parse("import os\nif os.environ.get(\"DEBUG\"):\n    pass\n");
    assert!(!m.is_script_entry);
}

#[test]
fn ignores_name_check_inside_function() {
    let m = parse(
        "def main():\n    if __name__ == \"__main__\":\n        pass\n",
    );
    assert!(!m.is_script_entry);
}

// PEP 484 explicit re-export tests
// ----------------------------------------------------------------
// `from .x import Y as Y` and `import X as X` (self-rename) are
// recognized by mypy / pyright / ruff as deliberate re-exports.
// Pyllow must not flag the bound name as unused.

#[test]
fn pep484_from_import_self_rename_is_not_unused() {
    let m = parse("from .app import Flask as Flask\n");
    assert!(
        m.unused_imports.is_empty(),
        "from .x import Y as Y is a PEP 484 re-export — must not be flagged"
    );
}

#[test]
fn pep484_plain_import_self_rename_is_not_unused() {
    let m = parse("import json as json\n");
    assert!(
        m.unused_imports.is_empty(),
        "import X as X is a PEP 484 re-export — must not be flagged"
    );
}

#[test]
fn from_import_with_different_alias_still_flagged_when_unused() {
    // `import X as different_name` is a real rename, not a re-export
    let m = parse("from os.path import join as joined\nprint(\"hi\")\n");
    let names: Vec<&str> = m.unused_imports.iter().map(|u| u.name.as_str()).collect();
    assert_eq!(names, vec!["joined"]);
}

// PEP 562: module-level __getattr__
// ----------------------------------------------------------------

#[test]
fn module_getattr_function_detected() {
    let m = parse("def __getattr__(name):\n    raise AttributeError(name)\n");
    assert!(m.has_module_getattr);
}

#[test]
fn module_getattr_assignment_detected() {
    // pydantic's pattern: `__getattr__ = getattr_migration(__name__)`
    let m = parse(
        "from ._migration import getattr_migration\n__getattr__ = getattr_migration(__name__)\n",
    );
    assert!(m.has_module_getattr);
}

#[test]
fn nested_getattr_inside_class_does_not_trigger() {
    let m = parse("class X:\n    def __getattr__(self, name):\n        return None\n");
    assert!(!m.has_module_getattr);
}

#[test]
fn no_getattr_means_false() {
    let m = parse("def f(): return 1\n");
    assert!(!m.has_module_getattr);
}

#[test]
fn lines_are_counted_up_to_an_offset() {
    let source = "a\n\u{e9}b\nc";
    assert_eq!(line_at_offset(source, 0), 1);
    assert_eq!(line_at_offset(source, 1), 1);
    assert_eq!(line_at_offset(source, 2), 2);
    assert_eq!(line_at_offset(source, 6), 3);
    assert_eq!(line_at_offset(source, 100), 3);
}

#[test]
fn statements_start_where_the_parser_says() {
    let m = parse("x = 1\nif x:\n    pass\n@deco\ndef f(): ...\n");
    let starts: Vec<usize> = m.suite.iter().map(stmt_range_start).collect();
    assert_eq!(starts, vec![0, 6, 27]);
}

#[test]
fn yields_are_found_at_any_depth() {
    assert!(body_contains_yield(&parse("if x:\n    y = [(yield 1)]\n").suite));
    assert!(body_contains_yield(&parse("yield from xs\n").suite));
    assert!(!body_contains_yield(&parse("x = 1\n").suite));
}

#[test]
fn annotations_are_found_with_what_is_inside_them() {
    let m = parse("def f(a: list[int], b=2) -> str:\n    c: bool = a\n");
    let names: Vec<&str> = walk_annotations(&m.suite)
        .into_iter()
        .filter_map(|e| match e {
            Expression::Name { id } => Some(id.as_str()),
            _ => None,
        })
        .collect();
    for name in ["list", "int", "str", "bool"] {
        assert!(names.contains(&name), "{names:?}");
    }
    assert!(!names.contains(&"a"), "{names:?}");
}

#[test]
fn lines_differ_by_the_line_feeds_between() {
    let source = "a\nbb\n\nc\n";
    for from in 0..source.len() + 3 {
        for to in from..source.len() + 3 {
            let between = &source[from.min(source.len())..to.min(source.len())];
            let feeds = between.bytes().filter(|b| *b == b'\n').count() as u32;
            assert_eq!(line_at_offset(source, to) - line_at_offset(source, from), feeds);
        }
    }
}
