//! Modules that beanie manages.
use super::common::{
    any_nested, bases, decorated_by, decorators, derives_from, discover_parallel, entries_where,
    reports, some_base_in, some_nested, some_tail_in,
};
use crate::ast::{ClassDef, FunctionDef, Statement};
use crate::extract::{
    base_name, has_top_level_import, imports_any, is_one_of, tail_name, ParsedModule,
};
use crate::text::str_views;
use crate::types::{import_views, PluginResult};
use crate::walker::{nested_in, Descent};
use rustc_hash::FxHashMap;
use vstd::prelude::*;

verus! {

pub const PLUGIN_NAME: &'static str = "beanie";

/// Base classes whose subclasses the framework manages.
pub const MODEL_BASES: [&'static str; 4] = ["Document", "View", "UnionDoc", "TimeSeriesConfig"];

/// Decorators of validators and lifecycle hooks.
pub const HOOK_DECORATORS: [&'static str; 7] = [
    "before_event", "after_event", "Insert", "Replace", "Save", "ValidateOnSave", "Delete",
];

pub const PACKAGES: [&'static str; 1] = ["beanie"];

/// Whether a statement defines a document or a hook.
pub open spec fn marks_beanie(s: Statement) -> bool {
    some_base_in(bases(s), str_views(MODEL_BASES@))
        || some_tail_in(decorators(s), str_views(HOOK_DECORATORS@))
}

fn stmt_marks_beanie_entry(s: &Statement) -> (r: bool)
    ensures
        r == marks_beanie(*s),
{
    derives_from(s, &MODEL_BASES) || decorated_by(s, &HOOK_DECORATORS)
}

/// Whether beanie manages classes or hooks of the module.
pub open spec fn is_beanie_entry(m: ParsedModule) -> bool {
    imports_any(import_views(m.imports@), str_views(PACKAGES@)) && some_nested(
        m.suite@,
        Descent { classes: true, tries: true, try_tails: false, withs: true },
        |s: Statement| marks_beanie(s),
    )
}

/// Whether beanie manages classes or hooks of the module.
pub fn module_is_beanie_entry(module: &ParsedModule) -> (r: bool)
    ensures
        r == is_beanie_entry(*module),
{
    has_top_level_import(module, &PACKAGES) && any_nested(
        &module.suite,
        Descent { classes: true, tries: true, try_tails: false, withs: true },
        stmt_marks_beanie_entry,
        Ghost(|s: Statement| marks_beanie(s)),
    )
}

/// The modules that beanie manages.
pub fn discover(parsed: &FxHashMap<u32, ParsedModule>) -> (r: PluginResult)
    ensures
        reports(
            r,
            PLUGIN_NAME@,
            entries_where(parsed@, |m: ParsedModule| is_beanie_entry(m)),
        ),
{
    discover_parallel(
        PLUGIN_NAME,
        parsed,
        module_is_beanie_entry,
        Ghost(|m: ParsedModule| is_beanie_entry(m)),
    )
}

/// A document makes its module an entry.
pub proof fn beanie_documents_are_entries(m: ParsedModule, c: ClassDef, i: int)
    requires
        imports_any(import_views(m.imports@), str_views(PACKAGES@)),
        nested_in(
            m.suite@,
            Descent { classes: true, tries: true, try_tails: false, withs: true },
        ).contains(Statement::ClassDef(c)),
        0 <= i < c.bases@.len(),
        is_one_of(base_name(c.bases@[i]), str_views(MODEL_BASES@)),
    ensures
        is_beanie_entry(m),
{
    let s = Statement::ClassDef(c);
    let all = nested_in(
        m.suite@,
        Descent { classes: true, tries: true, try_tails: false, withs: true },
    );
    let k = choose|k: int| 0 <= k < all.len() && all[k] == s;
    assert(bases(s)[i] == c.bases@[i]);
    assert(marks_beanie(all[k]));
    assert((|s: Statement| marks_beanie(s))(all[k]));
}

/// A validator or hook, plain or `async`, makes its module an entry.
pub proof fn beanie_hooks_are_entries(m: ParsedModule, f: FunctionDef, plain: bool, i: int)
    requires
        imports_any(import_views(m.imports@), str_views(PACKAGES@)),
        nested_in(
            m.suite@,
            Descent { classes: true, tries: true, try_tails: false, withs: true },
        ).contains(
            if plain {
                Statement::FunctionDef(f)
            } else {
                Statement::AsyncFunctionDef(f)
            },
        ),
        0 <= i < f.decorator_list@.len(),
        is_one_of(tail_name(f.decorator_list@[i]), str_views(HOOK_DECORATORS@)),
    ensures
        is_beanie_entry(m),
{
    let s = if plain {
        Statement::FunctionDef(f)
    } else {
        Statement::AsyncFunctionDef(f)
    };
    let all = nested_in(
        m.suite@,
        Descent { classes: true, tries: true, try_tails: false, withs: true },
    );
    let k = choose|k: int| 0 <= k < all.len() && all[k] == s;
    assert(decorators(s)[i] == f.decorator_list@[i]);
    assert(marks_beanie(all[k]));
    assert((|s: Statement| marks_beanie(s))(all[k]));
}

/// A module that imports nothing of beanie is not taken for one that it uses.
pub proof fn others_are_no_beanie_entries(m: ParsedModule)
    requires
        !imports_any(import_views(m.imports@), str_views(PACKAGES@)),
    ensures
        !is_beanie_entry(m),
{
}

} // verus!
