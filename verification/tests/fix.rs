use pyllow::fix::{can_safely_remove, fix_file, suppress_all, unused_by_file, Unused};
use pyllow::issue::Issue;
use pyllow::path::FilePath;

#[test]
fn safely_removes_simple_import() {
    assert!(can_safely_remove("import os", "os"));
    assert!(can_safely_remove("import os  ", "os"));
    assert!(can_safely_remove("    import os", "os"));
    assert!(can_safely_remove("import os  # noqa: ignored", "os"));
}

#[test]
fn safely_removes_aliased_import() {
    assert!(can_safely_remove("import numpy as np", "np"));
}

#[test]
fn safely_removes_dotted_import() {
    assert!(can_safely_remove("import os.path", "os"));
}

#[test]
fn safely_removes_from_import() {
    assert!(can_safely_remove("from typing import List", "List"));
    assert!(can_safely_remove("from typing import List as L", "L"));
}

#[test]
fn refuses_multi_binding_lines() {
    assert!(!can_safely_remove("import os, sys", "os"));
    assert!(!can_safely_remove("from typing import List, Dict", "List"));
}

#[test]
fn refuses_paren_grouped_imports() {
    assert!(!can_safely_remove("from typing import (List)", "List"));
    assert!(!can_safely_remove("from typing import (", "List"));
}

#[test]
fn refuses_unrelated_lines() {
    assert!(!can_safely_remove("x = 1", "x"));
    assert!(!can_safely_remove("def import_data():", "data"));
}

#[test]
fn refuses_other_names_and_comments() {
    assert!(!can_safely_remove("import os", "sys"));
    assert!(!can_safely_remove("import numpy as np", "numpy"));
    assert!(!can_safely_remove("from a import b as c", "b"));
    assert!(!can_safely_remove("# import os", "os"));
    assert!(!can_safely_remove("", ""));
    assert!(!can_safely_remove("from a", "a"));
}

fn unused(line: u32, name: &str) -> Unused {
    Unused { line, name: name.to_string() }
}

#[test]
fn files_lose_their_unused_imports() {
    let text = "import os\nimport sys, re\nfrom a import b\nx = 1\n";
    let r = fix_file(text, &vec![unused(1, "os"), unused(2, "re"), unused(3, "b"), unused(9, "q")]);
    assert_eq!(r.text, "import sys, re\nx = 1\n");
    assert_eq!(r.removed, 2);
    let skipped: Vec<(u32, &str)> = r.skipped.iter().map(|u| (u.line, u.name.as_str())).collect();
    assert_eq!(skipped, vec![(9, "q"), (2, "re")]);
    // Without a line feed at its end, a file gets none; a line 0 counts as the first.
    assert_eq!(fix_file("import os\r\nx", &vec![unused(0, "os")]).text, "x");
    assert_eq!(fix_file("x\n", &vec![]).text, "x\n");
}

#[test]
fn imports_are_grouped_by_file() {
    let import = |path: &str, line: u32, name: &str| Issue::UnusedImport {
        path: FilePath::new(path),
        line,
        name: name.to_string(),
        module: "m".to_string(),
    };
    let groups = unused_by_file(&vec![
        import("b.py", 1, "x"),
        Issue::UnusedFile { path: FilePath::new("b.py") },
        import("a.py", 2, "y"),
        import("./b.py", 9, "w"),
        import("b.py", 3, "z"),
    ]);
    let shown: Vec<(String, Vec<(u32, &str)>)> = groups
        .iter()
        .map(|g| {
            (g.path.text(), g.unused.iter().map(|u| (u.line, u.name.as_str())).collect())
        })
        .collect();
    assert_eq!(
        shown,
        vec![
            ("b.py".to_string(), vec![(1, "x"), (3, "z")]),
            ("a.py".to_string(), vec![(2, "y")]),
            ("./b.py".to_string(), vec![(9, "w")]),
        ]
    );
}

#[test]
fn findings_can_be_left_out_by_the_settings() {
    let issues = vec![
        Issue::UnusedImport {
            path: FilePath::new("/r/src/a.py"),
            line: 3,
            name: "os".to_string(),
            module: "os".to_string(),
        },
        Issue::UnusedFile { path: FilePath::new("/r/b\"c.py") },
    ];
    assert_eq!(
        suppress_all(&issues, &FilePath::new("/r"), &vec![]),
        "\n[[suppress]]\npath = \"src/a.py\"\nrules = [\"unused-import\"]\nline = 3\n\
         \n[[suppress]]\npath = \"b\\\"c.py\"\nrules = [\"unused-file\"]\n"
    );
}
