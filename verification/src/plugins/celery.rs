//! Modules that celery runs.
use super::common::{
    any_nested, decorated_by, decorators, discover_each, entries_where, makes_call_of,
    making_call_of, reports, some_nested, some_tail_in,
};
use crate::ast::{Expression, FunctionDef, Statement};
use crate::extract::{has_top_level_import, imports_any, is_one_of, tail_name, ParsedModule};
use crate::text::str_views;
use crate::types::{import_views, PluginResult};
use crate::walker::{nested_in, Descent};
use rustc_hash::FxHashMap;
use vstd::prelude::*;

verus! {

pub const PLUGIN_NAME: &'static str = "celery";

pub const TASK_DECORATORS: [&'static str; 3] = ["task", "shared_task", "periodic_task"];

pub const CTOR_NAMES: [&'static str; 1] = ["Celery"];

pub const PACKAGES: [&'static str; 1] = ["celery"];

/// Whether a statement makes an application.
pub open spec fn makes_celery_app(s: Statement) -> bool {
    makes_call_of(s, str_views(CTOR_NAMES@))
}

fn stmt_has_celery_ctor(s: &Statement) -> (r: bool)
    ensures
        r == makes_celery_app(*s),
{
    making_call_of(s, &CTOR_NAMES)
}

/// Whether a statement defines a task.
pub open spec fn defines_celery_task(s: Statement) -> bool {
    some_tail_in(decorators(s), str_views(TASK_DECORATORS@))
}

fn stmt_has_task_decorator(s: &Statement) -> (r: bool)
    ensures
        r == defines_celery_task(*s),
{
    decorated_by(s, &TASK_DECORATORS)
}

/// Whether celery runs tasks of the module, or the module makes a celery application.
pub open spec fn is_celery_entry(m: ParsedModule) -> bool {
    imports_any(import_views(m.imports@), str_views(PACKAGES@)) && (some_nested(
        m.suite@,
        Descent { classes: false, tries: true, try_tails: false, withs: true },
        |s: Statement| makes_celery_app(s),
    ) || some_nested(
        m.suite@,
        Descent { classes: true, tries: true, try_tails: false, withs: true },
        |s: Statement| defines_celery_task(s),
    ))
}

/// Whether celery runs tasks of the module, or the module makes a celery application.
pub fn module_is_celery_entry(module: &ParsedModule) -> (r: bool)
    ensures
        r == is_celery_entry(*module),
{
    has_top_level_import(module, &PACKAGES) && (any_nested(
        &module.suite,
        Descent { classes: false, tries: true, try_tails: false, withs: true },
        stmt_has_celery_ctor,
        Ghost(|s: Statement| makes_celery_app(s)),
    ) || any_nested(
        &module.suite,
        Descent { classes: true, tries: true, try_tails: false, withs: true },
        stmt_has_task_decorator,
        Ghost(|s: Statement| defines_celery_task(s)),
    ))
}

/// The modules that celery runs.
pub fn discover(parsed: &FxHashMap<u32, ParsedModule>) -> (r: PluginResult)
    ensures
        reports(
            r,
            PLUGIN_NAME@,
            entries_where(parsed@, |m: ParsedModule| is_celery_entry(m)),
        ),
{
    discover_each(
        PLUGIN_NAME,
        parsed,
        module_is_celery_entry,
        Ghost(|m: ParsedModule| is_celery_entry(m)),
    )
}

/// A task, plain or `async`, makes its module an entry.
pub proof fn celery_tasks_are_entries(m: ParsedModule, f: FunctionDef, plain: bool, i: int)
    requires
        imports_any(import_views(m.imports@), str_views(PACKAGES@)),
        nested_in(
            m.suite@,
            Descent { classes: true, tries: true, try_tails: false, withs: true },
        ).contains(
            if plain {
                Statement::FunctionDef(f)
            } else {
                Statement::AsyncFunctionDef(f)
            },
        ),
        0 <= i < f.decorator_list@.len(),
        is_one_of(tail_name(f.decorator_list@[i]), str_views(TASK_DECORATORS@)),
    ensures
        is_celery_entry(m),
{
    let s = if plain {
        Statement::FunctionDef(f)
    } else {
        Statement::AsyncFunctionDef(f)
    };
    let all = nested_in(
        m.suite@,
        Descent { classes: true, tries: true, try_tails: false, withs: true },
    );
    let k = choose|k: int| 0 <= k < all.len() && all[k] == s;
    assert(decorators(s)[i] == f.decorator_list@[i]);
    assert(defines_celery_task(all[k]));
    assert((|s: Statement| defines_celery_task(s))(all[k]));
}

/// A module that makes an application is an entry, whether it keeps it or not.
pub proof fn celery_apps_are_entries(m: ParsedModule, s: Statement, value: Expression)
    requires
        imports_any(import_views(m.imports@), str_views(PACKAGES@)),
        nested_in(
            m.suite@,
            Descent { classes: false, tries: true, try_tails: false, withs: true },
        ).contains(s),
        match s {
            Statement::Assign { value: v, .. } => *v == value,
            Statement::AnnAssign { value: v, .. } => v matches Some(e) && *e == value,
            Statement::Expr { value: v, .. } => *v == value,
            _ => false,
        },
        value is Call,
        is_one_of(tail_name(value), str_views(CTOR_NAMES@)),
    ensures
        is_celery_entry(m),
{
    let all = nested_in(
        m.suite@,
        Descent { classes: false, tries: true, try_tails: false, withs: true },
    );
    let k = choose|k: int| 0 <= k < all.len() && all[k] == s;
    assert(makes_celery_app(all[k]));
    assert((|s: Statement| makes_celery_app(s))(all[k]));
}

/// A module that imports nothing of celery is not taken for one that it uses.
pub proof fn others_are_no_celery_entries(m: ParsedModule)
    requires
        !imports_any(import_views(m.imports@), str_views(PACKAGES@)),
    ensures
        !is_celery_entry(m),
{
}

} // verus!
