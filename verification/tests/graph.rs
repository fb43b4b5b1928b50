use pyllow::extract::ParsedModule;
use pyllow::graph::dotted::dotted_module_for;
use pyllow::graph::imports::ModuleGraph;
use pyllow::graph::registry::FileRegistry;
use pyllow::graph::resolver::ModuleResolver;
use pyllow::path::FilePath;
use pyllow::types::{EntryPoint, EntryPointSource, FileId, ImportKind, ImportSpecifier};
use rustc_hash::{FxHashMap, FxHashSet};

fn spec(raw: &str, kind: ImportKind) -> ImportSpecifier {
    ImportSpecifier {
        raw: raw.to_string(),
        kind,
        is_conditional: false,
        is_type_only: false,
        line: 0,
    }
}

fn module(path: &str, imports: Vec<ImportSpecifier>) -> ParsedModule {
    ParsedModule {
        path: FilePath::new(path),
        imports,
        exports: vec![],
        suite: Vec::new(),
        is_script_entry: false,
        has_module_getattr: false,
        unused_imports: Vec::new(),
        source: String::new(),
    }
}

#[test]
fn dotted_for_module_file() {
    let dotted =
        dotted_module_for(&FilePath::new("src/myapp/foo.py"), &[FilePath::new("src")]).unwrap();
    assert_eq!(dotted, "myapp.foo");
}

#[test]
fn dotted_for_init_file() {
    let dotted = dotted_module_for(
        &FilePath::new("src/myapp/__init__.py"),
        &[FilePath::new("src")],
    )
    .unwrap();
    assert_eq!(dotted, "myapp");
}

#[test]
fn dotted_rejects_segments_that_arent_python_identifiers() {
    // `.github/actions/people/people.py` would otherwise produce the
    // invalid module path `.github.actions.people.people`.
    let dotted = dotted_module_for(
        &FilePath::new(".github/actions/people/people.py"),
        &[FilePath::new("")],
    )
    .unwrap();
    assert!(dotted.is_empty());

    // Digits-first segments (`12factor.py`) are also invalid identifiers.
    let dotted =
        dotted_module_for(&FilePath::new("src/12factor.py"), &[FilePath::new("src")]).unwrap();
    assert!(dotted.is_empty());
}

#[test]
fn dotted_returns_none_outside_roots() {
    assert!(dotted_module_for(
        &FilePath::new("vendor/external.py"),
        &[FilePath::new("src")]
    )
    .is_none());
}

#[test]
fn resolves_absolute_import() {
    let mut reg = FileRegistry::default();
    let main = reg.register(FilePath::new("src/myapp/main.py"), "myapp.main".into());
    let helper = reg.register(FilePath::new("src/myapp/helper.py"), "myapp.helper".into());
    let resolver = ModuleResolver::build(&reg);
    let s = spec("myapp.helper", ImportKind::Absolute);
    assert_eq!(resolver.resolve(&s, main), Some(helper));
}

#[test]
fn resolves_relative_import_from_module() {
    let mut reg = FileRegistry::default();
    let main = reg.register(FilePath::new("src/myapp/main.py"), "myapp.main".into());
    let helper = reg.register(FilePath::new("src/myapp/helper.py"), "myapp.helper".into());
    let resolver = ModuleResolver::build(&reg);
    let s = spec("helper", ImportKind::Relative { level: 1 });
    assert_eq!(resolver.resolve(&s, main), Some(helper));
}

#[test]
fn resolves_relative_import_from_init() {
    let mut reg = FileRegistry::default();
    let init = reg.register(FilePath::new("src/myapp/__init__.py"), "myapp".into());
    let helper = reg.register(FilePath::new("src/myapp/helper.py"), "myapp.helper".into());
    let resolver = ModuleResolver::build(&reg);
    let s = spec("helper", ImportKind::Relative { level: 1 });
    assert_eq!(resolver.resolve(&s, init), Some(helper));
}

#[test]
fn resolves_double_dot_relative() {
    let mut reg = FileRegistry::default();
    let inner = reg.register(
        FilePath::new("src/myapp/api/users.py"),
        "myapp.api.users".into(),
    );
    let sibling = reg.register(FilePath::new("src/myapp/db.py"), "myapp.db".into());
    let resolver = ModuleResolver::build(&reg);
    let s = spec("db", ImportKind::Relative { level: 2 });
    assert_eq!(resolver.resolve(&s, inner), Some(sibling));
}

#[test]
fn unresolved_imports_skipped() {
    let mut reg = FileRegistry::default();
    let main = reg.register(FilePath::new("a.py"), "a".into());
    let resolver = ModuleResolver::build(&reg);
    let s = spec("not.real", ImportKind::Absolute);
    assert_eq!(resolver.resolve(&s, main), None);
}

#[test]
fn reachability_marks_orphan_unreachable() {
    let mut reg = FileRegistry::default();
    let main = reg.register(FilePath::new("src/app/main.py"), "app.main".into());
    let used = reg.register(FilePath::new("src/app/helper.py"), "app.helper".into());
    let orphan = reg.register(FilePath::new("src/app/orphan.py"), "app.orphan".into());

    let resolver = ModuleResolver::build(&reg);
    let mut parsed = FxHashMap::default();
    parsed.insert(main.0,
        module(
            "src/app/main.py",
            vec![spec("app.helper", ImportKind::Absolute)],
        ),
    );
    parsed.insert(used.0, module("src/app/helper.py", vec![]));
    parsed.insert(orphan.0, module("src/app/orphan.py", vec![]));

    let entries = vec![EntryPoint {
        file: main,
        source: EntryPointSource::Config,
    }];
    let graph = ModuleGraph::build(&resolver, &parsed, entries);

    let unreachable = graph.unreachable_files(&reg, &resolver);
    assert_eq!(unreachable, vec![orphan]);
}

#[test]
fn scc_empty_graph_is_empty() {
    let reg = FileRegistry::default();
    let resolver = ModuleResolver::build(&reg);
    let graph = ModuleGraph::build(&resolver, &FxHashMap::default(), vec![]);
    assert!(graph.strongly_connected_components(&reg).is_empty());
}

#[test]
fn scc_acyclic_chain_returns_no_cycles() {
    let mut reg = FileRegistry::default();
    let a = reg.register(FilePath::new("a.py"), "a".into());
    let b = reg.register(FilePath::new("b.py"), "b".into());
    let _c = reg.register(FilePath::new("c.py"), "c".into());
    let resolver = ModuleResolver::build(&reg);
    let mut parsed = FxHashMap::default();
    parsed.insert(a.0, module("a.py", vec![spec("b", ImportKind::Absolute)]));
    parsed.insert(b.0, module("b.py", vec![spec("c", ImportKind::Absolute)]));
    parsed.insert(_c.0, module("c.py", vec![]));
    let graph = ModuleGraph::build(&resolver, &parsed, vec![]);
    assert!(graph.strongly_connected_components(&reg).is_empty());
}

#[test]
fn scc_two_node_cycle_detected() {
    let mut reg = FileRegistry::default();
    let a = reg.register(FilePath::new("a.py"), "a".into());
    let b = reg.register(FilePath::new("b.py"), "b".into());
    let resolver = ModuleResolver::build(&reg);
    let mut parsed = FxHashMap::default();
    parsed.insert(a.0, module("a.py", vec![spec("b", ImportKind::Absolute)]));
    parsed.insert(b.0, module("b.py", vec![spec("a", ImportKind::Absolute)]));
    let graph = ModuleGraph::build(&resolver, &parsed, vec![]);
    let sccs = graph.strongly_connected_components(&reg);
    assert_eq!(sccs.len(), 1);
    let component: FxHashSet<FileId> = sccs[0].iter().copied().collect();
    assert_eq!(component, FxHashSet::from_iter([a, b]));
}

#[test]
fn scc_three_node_cycle_detected() {
    let mut reg = FileRegistry::default();
    let a = reg.register(FilePath::new("a.py"), "a".into());
    let b = reg.register(FilePath::new("b.py"), "b".into());
    let c = reg.register(FilePath::new("c.py"), "c".into());
    let resolver = ModuleResolver::build(&reg);
    let mut parsed = FxHashMap::default();
    parsed.insert(a.0, module("a.py", vec![spec("b", ImportKind::Absolute)]));
    parsed.insert(b.0, module("b.py", vec![spec("c", ImportKind::Absolute)]));
    parsed.insert(c.0, module("c.py", vec![spec("a", ImportKind::Absolute)]));
    let graph = ModuleGraph::build(&resolver, &parsed, vec![]);
    let sccs = graph.strongly_connected_components(&reg);
    assert_eq!(sccs.len(), 1);
    assert_eq!(sccs[0].len(), 3);
}

#[test]
fn scc_disjoint_cycles_each_reported() {
    let mut reg = FileRegistry::default();
    let a = reg.register(FilePath::new("a.py"), "a".into());
    let b = reg.register(FilePath::new("b.py"), "b".into());
    let c = reg.register(FilePath::new("c.py"), "c".into());
    let d = reg.register(FilePath::new("d.py"), "d".into());
    let resolver = ModuleResolver::build(&reg);
    let mut parsed = FxHashMap::default();
    parsed.insert(a.0, module("a.py", vec![spec("b", ImportKind::Absolute)]));
    parsed.insert(b.0, module("b.py", vec![spec("a", ImportKind::Absolute)]));
    parsed.insert(c.0, module("c.py", vec![spec("d", ImportKind::Absolute)]));
    parsed.insert(d.0, module("d.py", vec![spec("c", ImportKind::Absolute)]));
    let graph = ModuleGraph::build(&resolver, &parsed, vec![]);
    let sccs = graph.strongly_connected_components(&reg);
    assert_eq!(sccs.len(), 2);
    assert!(sccs.iter().all(|c| c.len() == 2));
}

#[test]
fn scc_acyclic_neighbor_does_not_pollute_cycle() {
    // Only {b, c} form a cycle; a points into the cycle but isn't part of it.
    let mut reg = FileRegistry::default();
    let a = reg.register(FilePath::new("a.py"), "a".into());
    let b = reg.register(FilePath::new("b.py"), "b".into());
    let c = reg.register(FilePath::new("c.py"), "c".into());
    let resolver = ModuleResolver::build(&reg);
    let mut parsed = FxHashMap::default();
    parsed.insert(a.0, module("a.py", vec![spec("b", ImportKind::Absolute)]));
    parsed.insert(b.0, module("b.py", vec![spec("c", ImportKind::Absolute)]));
    parsed.insert(c.0, module("c.py", vec![spec("b", ImportKind::Absolute)]));
    let graph = ModuleGraph::build(&resolver, &parsed, vec![]);
    let sccs = graph.strongly_connected_components(&reg);
    assert_eq!(sccs.len(), 1);
    let component: FxHashSet<FileId> = sccs[0].iter().copied().collect();
    assert_eq!(component, FxHashSet::from_iter([b, c]));
}

fn type_only_spec(raw: &str) -> ImportSpecifier {
    ImportSpecifier {
        raw: raw.to_string(),
        kind: ImportKind::Absolute,
        is_conditional: true,
        is_type_only: true,
        line: 0,
    }
}

#[test]
fn type_only_imports_do_not_keep_modules_reachable() {
    // `if TYPE_CHECKING: import orphan` must NOT make `orphan.py`
    // reachable — the import literally never runs at runtime.
    let mut reg = FileRegistry::default();
    let a = reg.register(FilePath::new("a.py"), "a".into());
    let orphan = reg.register(FilePath::new("orphan.py"), "orphan".into());
    let resolver = ModuleResolver::build(&reg);
    let mut parsed = FxHashMap::default();
    parsed.insert(a.0, module("a.py", vec![type_only_spec("orphan")]));
    parsed.insert(orphan.0, module("orphan.py", vec![]));
    let entries = vec![EntryPoint {
        file: a,
        source: EntryPointSource::Config,
    }];
    let graph = ModuleGraph::build(&resolver, &parsed, entries);
    let unreachable = graph.unreachable_files(&reg, &resolver);
    assert!(unreachable.contains(&orphan));
}

#[test]
fn try_fallback_imports_still_keep_modules_reachable() {
    // `try: import optional except ImportError: ...` is_conditional
    // but NOT type_only — the import does run at runtime when the
    // module exists, so `optional.py` must stay reachable.
    let mut reg = FileRegistry::default();
    let a = reg.register(FilePath::new("a.py"), "a".into());
    let optional = reg.register(FilePath::new("optional.py"), "optional".into());
    let resolver = ModuleResolver::build(&reg);
    let conditional_runtime = ImportSpecifier {
        raw: "optional".to_string(),
        kind: ImportKind::Absolute,
        is_conditional: true,
        is_type_only: false,
        line: 0,
    };
    let mut parsed = FxHashMap::default();
    parsed.insert(a.0, module("a.py", vec![conditional_runtime]));
    parsed.insert(optional.0, module("optional.py", vec![]));
    let entries = vec![EntryPoint {
        file: a,
        source: EntryPointSource::Config,
    }];
    let graph = ModuleGraph::build(&resolver, &parsed, entries);
    let unreachable = graph.unreachable_files(&reg, &resolver);
    assert!(!unreachable.contains(&optional));
}

#[test]
fn reachability_traverses_transitively() {
    let mut reg = FileRegistry::default();
    let a = reg.register(FilePath::new("a.py"), "a".into());
    let b = reg.register(FilePath::new("b.py"), "b".into());
    let c = reg.register(FilePath::new("c.py"), "c".into());
    let resolver = ModuleResolver::build(&reg);
    let mut parsed = FxHashMap::default();
    parsed.insert(a.0, module("a.py", vec![spec("b", ImportKind::Absolute)]));
    parsed.insert(b.0, module("b.py", vec![spec("c", ImportKind::Absolute)]));
    parsed.insert(c.0, module("c.py", vec![]));
    let entries = vec![EntryPoint {
        file: a,
        source: EntryPointSource::Config,
    }];
    let graph = ModuleGraph::build(&resolver, &parsed, entries);
    assert!(graph.unreachable_files(&reg, &resolver).is_empty());
}

#[test]
fn files_are_found_by_their_path() {
    let mut r = FileRegistry::default();
    let id = r.register(FilePath::new("src/a.py"), "a".to_string());
    assert_eq!(r.id_for(&FilePath::new("src/a.py")), Some(id));
    assert_eq!(r.id_for(&FilePath::new("src/b.py")), None);
}
