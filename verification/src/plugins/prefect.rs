//! Modules that prefect runs.
use super::common::{
    any_nested, decorated_by, decorators, discover_each, entries_where, reports, some_nested,
    some_tail_in,
};
use crate::ast::{FunctionDef, Statement};
use crate::extract::{has_top_level_import, imports_any, is_one_of, tail_name, ParsedModule};
use crate::text::str_views;
use crate::types::{import_views, PluginResult};
use crate::walker::{nested_in, Descent};
use rustc_hash::FxHashMap;
use vstd::prelude::*;

verus! {

pub const PLUGIN_NAME: &'static str = "prefect";

pub const FLOW_DECORATORS: [&'static str; 3] = ["flow", "task", "materialize"];

pub const PACKAGES: [&'static str; 1] = ["prefect"];

/// Whether a statement defines a flow or a task.
pub open spec fn defines_flow(s: Statement) -> bool {
    some_tail_in(decorators(s), str_views(FLOW_DECORATORS@))
}

fn stmt_has_prefect_decorator(s: &Statement) -> (r: bool)
    ensures
        r == defines_flow(*s),
{
    decorated_by(s, &FLOW_DECORATORS)
}

/// Whether the module defines flows or tasks.
pub open spec fn is_prefect_entry(m: ParsedModule) -> bool {
    imports_any(import_views(m.imports@), str_views(PACKAGES@)) && some_nested(
        m.suite@,
        Descent { classes: true, tries: true, try_tails: true, withs: true },
        |s: Statement| defines_flow(s),
    )
}

/// Whether the module defines flows or tasks.
pub fn module_is_prefect_entry(module: &ParsedModule) -> (r: bool)
    ensures
        r == is_prefect_entry(*module),
{
    has_top_level_import(module, &PACKAGES) && any_nested(
        &module.suite,
        Descent { classes: true, tries: true, try_tails: true, withs: true },
        stmt_has_prefect_decorator,
        Ghost(|s: Statement| defines_flow(s)),
    )
}

/// The modules that prefect runs.
pub fn discover(parsed: &FxHashMap<u32, ParsedModule>) -> (r: PluginResult)
    ensures
        reports(
            r,
            PLUGIN_NAME@,
            entries_where(parsed@, |m: ParsedModule| is_prefect_entry(m)),
        ),
{
    discover_each(
        PLUGIN_NAME,
        parsed,
        module_is_prefect_entry,
        Ghost(|m: ParsedModule| is_prefect_entry(m)),
    )
}

/// A flow or task, plain or `async`, makes its module an entry.
pub proof fn prefect_flows_are_entries(m: ParsedModule, f: FunctionDef, plain: bool, i: int)
    requires
        imports_any(import_views(m.imports@), str_views(PACKAGES@)),
        nested_in(
            m.suite@,
            Descent { classes: true, tries: true, try_tails: true, withs: true },
        ).contains(
            if plain {
                Statement::FunctionDef(f)
            } else {
                Statement::AsyncFunctionDef(f)
            },
        ),
        0 <= i < f.decorator_list@.len(),
        is_one_of(tail_name(f.decorator_list@[i]), str_views(FLOW_DECORATORS@)),
    ensures
        is_prefect_entry(m),
{
    let s = if plain {
        Statement::FunctionDef(f)
    } else {
        Statement::AsyncFunctionDef(f)
    };
    let all = nested_in(
        m.suite@,
        Descent { classes: true, tries: true, try_tails: true, withs: true },
    );
    let k = choose|k: int| 0 <= k < all.len() && all[k] == s;
    assert(decorators(s)[i] == f.decorator_list@[i]);
    assert(defines_flow(all[k]));
    assert((|s: Statement| defines_flow(s))(all[k]));
}

/// A module that imports nothing of prefect is not taken for one that it uses.
pub proof fn others_are_no_prefect_entries(m: ParsedModule)
    requires
        !imports_any(import_views(m.imports@), str_views(PACKAGES@)),
    ensures
        !is_prefect_entry(m),
{
}

} // verus!
