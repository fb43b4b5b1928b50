//! Modules that alembic runs.
use super::common::{reports, result_of};
use crate::ast::Statement;
use crate::collections::{id_map_get, id_map_keys, id_set_contains, id_set_insert, id_set_new};
use crate::extract::{has_top_level_import, imports_any, ParsedModule};
use crate::path::{FilePath, PathView};
use crate::text::{ends_with, has_suffix, same, str_views, views};
use crate::types::{import_views, PluginResult};
use rustc_hash::{FxHashMap, FxHashSet};
use vstd::prelude::*;

verus! {

pub const PLUGIN_NAME: &'static str = "alembic";

pub const PACKAGES: [&'static str; 1] = ["alembic"];

/// Whether `dir/versions` stands among the directories, where `dir` is called
/// `alembic` or ends in `migrations`.
pub open spec fn has_versions_dir(dirs: Seq<Seq<char>>) -> bool {
    exists|i: int|
        0 < i < dirs.len() && #[trigger] dirs[i] == "versions"@ && (dirs[i - 1] == "alembic"@
            || has_suffix(dirs[i - 1], "migrations"@))
}

/// Whether the file is one of the versions that alembic finds by their place.
pub open spec fn is_version(p: PathView) -> bool {
    let names = p.names();
    names.len() > 0 && has_suffix(names.last(), ".py"@) && has_versions_dir(names.drop_last())
}

/// Whether the file is the environment of an alembic directory: called
/// `env.py`, in a directory called `alembic` or with a `versions` directory
/// beside it.
pub open spec fn is_env(p: PathView, versions_beside: bool) -> bool {
    p.is_named("env.py"@) && (p.parent() matches Some(d) && (d.is_named("alembic"@)
        || versions_beside))
}

fn path_is_alembic_versioned(path: &FilePath) -> (r: bool)
    ensures
        r == is_version(path@),
{
    let mut dirs = path.names();
    let ghost names = views(dirs@);
    let leaf = match dirs.pop() {
        Some(l) => l,
        None => return false,
    };
    assert(views(dirs@) =~= names.drop_last());
    assert(leaf@ == names.last());
    if !ends_with(leaf.as_str(), ".py") {
        return false;
    }
    let ghost d = views(dirs@);
    let mut i: usize = 1;
    while i < dirs.len()
        invariant
            1 <= i,
            d == views(dirs@),
            d == path@.names().drop_last(),
            path@.names().len() > 0,
            has_suffix(path@.names().last(), ".py"@),
            forall|j: int|
                0 < j < i && j < d.len() ==> !(#[trigger] d[j] == "versions"@ && (d[j - 1]
                    == "alembic"@ || has_suffix(d[j - 1], "migrations"@))),
        decreases dirs@.len() - i,
    {
        assert(d[i as int] == dirs@[i as int]@);
        assert(d[i - 1] == dirs@[i - 1]@);
        if same(dirs[i].as_str(), "versions") && (same(dirs[i - 1].as_str(), "alembic")
            || ends_with(dirs[i - 1].as_str(), "migrations")) {
            assert(has_versions_dir(d));
            return true;
        }
        i += 1;
    }
    false
}

fn path_is_alembic_env(path: &FilePath, versions_beside: bool) -> (r: bool)
    ensures
        r == is_env(path@, versions_beside),
{
    if !path.is_named("env.py") {
        return false;
    }
    match path.parent() {
        Some(d) => d.is_named("alembic") || versions_beside,
        None => false,
    }
}

/// Whether a statement defines the function `name`.
pub open spec fn defines_function(s: Statement, name: Seq<char>) -> bool {
    match s {
        Statement::FunctionDef(f) => f.name@ == name,
        Statement::AsyncFunctionDef(f) => f.name@ == name,
        _ => false,
    }
}

pub open spec fn some_defines(v: Seq<Statement>, name: Seq<char>) -> bool {
    exists|i: int| 0 <= i < v.len() && defines_function(#[trigger] v[i], name)
}

fn any_defines(v: &Vec<Statement>, name: &str) -> (r: bool)
    ensures
        r == some_defines(v@, name@),
{
    let mut i: usize = 0;
    while i < v.len()
        invariant
            i <= v@.len(),
            forall|j: int| 0 <= j < i ==> !defines_function(#[trigger] v@[j], name@),
        decreases v@.len() - i,
    {
        let hit = match &v[i] {
            Statement::FunctionDef(f) => same(f.name.as_str(), name),
            Statement::AsyncFunctionDef(f) => same(f.name.as_str(), name),
            _ => false,
        };
        if hit {
            assert(defines_function(v@[i as int], name@));
            return true;
        }
        i += 1;
    }
    false
}

/// Whether alembic runs the module: by its place, or because it imports alembic
/// and defines both `upgrade` and `downgrade`.
pub open spec fn is_alembic_entry(m: ParsedModule, versions_beside: bool) -> bool {
    is_version(m.path@) || is_env(m.path@, versions_beside) || (imports_any(
        import_views(m.imports@),
        str_views(PACKAGES@),
    ) && some_defines(m.suite@, "upgrade"@) && some_defines(m.suite@, "downgrade"@))
}

/// Whether alembic runs the module. Whether a `versions` directory stands
/// beside its file is for the caller to say.
pub fn module_is_alembic_entry(module: &ParsedModule, versions_beside: bool) -> (r: bool)
    ensures
        r == is_alembic_entry(*module, versions_beside),
{
    if path_is_alembic_versioned(&module.path) || path_is_alembic_env(
        &module.path,
        versions_beside,
    ) {
        return true;
    }
    has_top_level_import(module, &PACKAGES) && any_defines(&module.suite, "upgrade") && any_defines(
        &module.suite,
        "downgrade",
    )
}

/// The modules that alembic runs, given the files that have a `versions`
/// directory beside them.
pub open spec fn alembic_entries(
    parsed: Map<u32, ParsedModule>,
    with_versions: Set<u32>,
) -> Set<u32> {
    Set::new(
        |id: u32|
            parsed.contains_key(id) && is_alembic_entry(parsed[id], with_versions.contains(id)),
    )
}

/// The modules that alembic runs, given the files that have a `versions`
/// directory beside them.
pub fn discover(
    parsed: &FxHashMap<u32, ParsedModule>,
    with_versions: &FxHashSet<u32>,
) -> (r: PluginResult)
    ensures
        reports(r, PLUGIN_NAME@, alembic_entries(parsed@, with_versions@)),
{
    let keys = id_map_keys(parsed);
    let mut entry_files = id_set_new();
    let ghost goal = alembic_entries(parsed@, with_versions@);
    let mut i: usize = 0;
    while i < keys.len()
        invariant
            i <= keys@.len(),
            forall|k: u32| keys@.contains(k) <==> parsed@.contains_key(k),
            goal == alembic_entries(parsed@, with_versions@),
            forall|id: u32| #[trigger]
                entry_files@.contains(id) <==> keys@.take(i as int).contains(id) && goal.contains(
                    id,
                ),
        decreases keys@.len() - i,
    {
        let id: u32 = keys[i];
        let ghost before = entry_files@;
        proof {
            assert(keys@.contains(id));
            assert(keys@.take(i + 1) =~= keys@.take(i as int).push(id));
        }
        if let Some(module) = id_map_get(parsed, id) {
            if module_is_alembic_entry(module, id_set_contains(with_versions, id)) {
                id_set_insert(&mut entry_files, id);
            }
            assert(goal.contains(id) <==> is_alembic_entry(*module, with_versions@.contains(id)));
        }
        proof {
            assert forall|x: u32| #[trigger]
                entry_files@.contains(x) <==> keys@.take(i + 1).contains(x) && goal.contains(x) by {
                assert(before.contains(x) <==> keys@.take(i as int).contains(x) && goal.contains(x));
                crate::types::lemma_contains_push(keys@.take(i as int), id, x);
            }
        }
        i += 1;
    }
    proof {
        assert(keys@.take(i as int) =~= keys@);
        assert(entry_files@ =~= goal);
    }
    result_of(PLUGIN_NAME, entry_files)
}

/// A Python file in a `versions` directory of an alembic directory is run, and so is
/// a module that imports alembic and can go both ways, with plain functions or `async`
/// ones; one that cannot go back, and lies elsewhere, is not.
pub proof fn versions_go_both_ways(m: ParsedModule, beside: bool, up: int, down: int)
    ensures
        imports_any(import_views(m.imports@), str_views(PACKAGES@)) && 0 <= up < m.suite@.len()
            && 0 <= down < m.suite@.len() && ((m.suite@[up] matches Statement::FunctionDef(f)
            && f.name@ == "upgrade"@) || (m.suite@[up] matches Statement::AsyncFunctionDef(f)
            && f.name@ == "upgrade"@)) && ((m.suite@[down] matches Statement::FunctionDef(f)
            && f.name@ == "downgrade"@) || (m.suite@[down] matches Statement::AsyncFunctionDef(f)
            && f.name@ == "downgrade"@)) ==> is_alembic_entry(m, beside),
        !is_version(m.path@) && !is_env(m.path@, beside) && !some_defines(
            m.suite@,
            "downgrade"@,
        ) ==> !is_alembic_entry(m, beside),
{
    if 0 <= up < m.suite@.len() && defines_function(m.suite@[up], "upgrade"@) {
        assert(some_defines(m.suite@, "upgrade"@));
    }
    if 0 <= down < m.suite@.len() && defines_function(m.suite@[down], "downgrade"@) {
        assert(some_defines(m.suite@, "downgrade"@));
    }
}

} // verus!
