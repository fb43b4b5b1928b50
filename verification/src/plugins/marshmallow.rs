//! Modules that marshmallow uses.
use super::common::{
    any_walked, bases, decorated_by, decorators, derives_from, discover_parallel, entries_where,
    reports, some_base_in, some_stmt, some_tail_in,
};
use crate::ast::{ClassDef, FunctionDef, Statement};
use crate::extract::{
    base_name, has_top_level_import, imports_any, is_one_of, tail_name, ParsedModule,
};
use crate::text::str_views;
use crate::types::{import_views, PluginResult};
use crate::walker::stmts_in;
use rustc_hash::FxHashMap;
use vstd::prelude::*;

verus! {

pub const PLUGIN_NAME: &'static str = "marshmallow";

pub const SCHEMA_BASES: [&'static str; 2] = ["Schema", "SchemaOpts"];

pub const HOOK_DECORATORS: [&'static str; 6] = [
    "validates", "validates_schema", "pre_load", "post_load", "pre_dump", "post_dump",
];

pub const PACKAGES: [&'static str; 1] = ["marshmallow"];

/// Whether a statement defines a schema or a hook.
pub open spec fn marks_marshmallow(s: Statement) -> bool {
    some_base_in(bases(s), str_views(SCHEMA_BASES@))
        || some_tail_in(decorators(s), str_views(HOOK_DECORATORS@))
}

fn stmt_marks_marshmallow(s: &Statement) -> (r: bool)
    ensures
        r == marks_marshmallow(*s),
{
    derives_from(s, &SCHEMA_BASES) || decorated_by(s, &HOOK_DECORATORS)
}

/// Whether the module defines schemas or their hooks.
pub open spec fn is_marshmallow_entry(m: ParsedModule) -> bool {
    imports_any(import_views(m.imports@), str_views(PACKAGES@)) && some_stmt(stmts_in(m.suite@), |s: Statement| marks_marshmallow(s))
}

/// Whether the module defines schemas or their hooks.
pub fn module_is_marshmallow_entry(module: &ParsedModule) -> (r: bool)
    ensures
        r == is_marshmallow_entry(*module),
{
    has_top_level_import(module, &PACKAGES) && any_walked(&module.suite, stmt_marks_marshmallow, Ghost(|s: Statement| marks_marshmallow(s)))
}

/// The modules that marshmallow uses.
pub fn discover(parsed: &FxHashMap<u32, ParsedModule>) -> (r: PluginResult)
    ensures
        reports(
            r,
            PLUGIN_NAME@,
            entries_where(parsed@, |m: ParsedModule| is_marshmallow_entry(m)),
        ),
{
    discover_parallel(
        PLUGIN_NAME,
        parsed,
        module_is_marshmallow_entry,
        Ghost(|m: ParsedModule| is_marshmallow_entry(m)),
    )
}

/// A schema makes its module an entry.
pub proof fn marshmallow_schemas_are_entries(m: ParsedModule, c: ClassDef, i: int)
    requires
        imports_any(import_views(m.imports@), str_views(PACKAGES@)),
        stmts_in(m.suite@).contains(Statement::ClassDef(c)),
        0 <= i < c.bases@.len(),
        is_one_of(base_name(c.bases@[i]), str_views(SCHEMA_BASES@)),
    ensures
        is_marshmallow_entry(m),
{
    let s = Statement::ClassDef(c);
    let all = stmts_in(m.suite@);
    let k = choose|k: int| 0 <= k < all.len() && all[k] == s;
    assert(bases(s)[i] == c.bases@[i]);
    assert(marks_marshmallow(all[k]));
    assert((|s: Statement| marks_marshmallow(s))(all[k]));
}

/// A hook, plain or `async`, makes its module an entry.
pub proof fn marshmallow_hooks_are_entries(m: ParsedModule, f: FunctionDef, plain: bool, i: int)
    requires
        imports_any(import_views(m.imports@), str_views(PACKAGES@)),
        stmts_in(m.suite@).contains(
            if plain {
                Statement::FunctionDef(f)
            } else {
                Statement::AsyncFunctionDef(f)
            },
        ),
        0 <= i < f.decorator_list@.len(),
        is_one_of(tail_name(f.decorator_list@[i]), str_views(HOOK_DECORATORS@)),
    ensures
        is_marshmallow_entry(m),
{
    let s = if plain {
        Statement::FunctionDef(f)
    } else {
        Statement::AsyncFunctionDef(f)
    };
    let all = stmts_in(m.suite@);
    let k = choose|k: int| 0 <= k < all.len() && all[k] == s;
    assert(decorators(s)[i] == f.decorator_list@[i]);
    assert(marks_marshmallow(all[k]));
    assert((|s: Statement| marks_marshmallow(s))(all[k]));
}

/// A module that imports nothing of marshmallow is not taken for one that it uses.
pub proof fn others_are_no_marshmallow_entries(m: ParsedModule)
    requires
        !imports_any(import_views(m.imports@), str_views(PACKAGES@)),
    ensures
        !is_marshmallow_entry(m),
{
}

} // verus!
