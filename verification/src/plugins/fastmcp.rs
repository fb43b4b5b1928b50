//! Modules that FastMCP serves.
use super::common::{
    any_nested, decorated_by_attribute, decorators, discover_each, entries_where, is_attribute_in,
    makes_call_of, making_call_of, reports, some_attribute_in, some_nested,
};
use crate::ast::{Expression, FunctionDef, Statement};
use crate::extract::{has_top_level_import, imports_any, is_one_of, tail_name, ParsedModule};
use crate::text::str_views;
use crate::types::{import_views, PluginResult};
use crate::walker::{nested_in, Descent};
use rustc_hash::FxHashMap;
use vstd::prelude::*;

verus! {

pub const PLUGIN_NAME: &'static str = "fastmcp";

pub const CTOR_NAMES: [&'static str; 1] = ["FastMCP"];

pub const REGISTRATION_DECORATORS: [&'static str; 3] = ["tool", "resource", "prompt"];

pub const PACKAGES: [&'static str; 1] = ["fastmcp"];

/// Whether a statement makes a server.
pub open spec fn makes_fastmcp_server(s: Statement) -> bool {
    makes_call_of(s, str_views(CTOR_NAMES@))
}

fn stmt_has_fastmcp_ctor(s: &Statement) -> (r: bool)
    ensures
        r == makes_fastmcp_server(*s),
{
    making_call_of(s, &CTOR_NAMES)
}

/// Whether a statement registers a function. The decorators always belong to a server, so a bare
/// name does not count.
pub open spec fn registers_with_fastmcp(s: Statement) -> bool {
    some_attribute_in(decorators(s), str_views(REGISTRATION_DECORATORS@))
}

fn stmt_has_registration_decorator(s: &Statement) -> (r: bool)
    ensures
        r == registers_with_fastmcp(*s),
{
    decorated_by_attribute(s, &REGISTRATION_DECORATORS)
}

/// Whether the module makes a FastMCP server, or registers something with one.
pub open spec fn is_fastmcp_entry(m: ParsedModule) -> bool {
    some_nested(
        m.suite@,
        Descent { classes: true, tries: true, try_tails: true, withs: true },
        |s: Statement| makes_fastmcp_server(s),
    ) || (imports_any(import_views(m.imports@), str_views(PACKAGES@)) && some_nested(
        m.suite@,
        Descent { classes: true, tries: true, try_tails: true, withs: true },
        |s: Statement| registers_with_fastmcp(s),
    ))
}

/// Whether the module makes a FastMCP server, or registers something with one.
pub fn module_is_fastmcp_entry(module: &ParsedModule) -> (r: bool)
    ensures
        r == is_fastmcp_entry(*module),
{
    any_nested(
        &module.suite,
        Descent { classes: true, tries: true, try_tails: true, withs: true },
        stmt_has_fastmcp_ctor,
        Ghost(|s: Statement| makes_fastmcp_server(s)),
    ) || (has_top_level_import(module, &PACKAGES) && any_nested(
        &module.suite,
        Descent { classes: true, tries: true, try_tails: true, withs: true },
        stmt_has_registration_decorator,
        Ghost(|s: Statement| registers_with_fastmcp(s)),
    ))
}

/// The modules that FastMCP serves.
pub fn discover(parsed: &FxHashMap<u32, ParsedModule>) -> (r: PluginResult)
    ensures
        reports(
            r,
            PLUGIN_NAME@,
            entries_where(parsed@, |m: ParsedModule| is_fastmcp_entry(m)),
        ),
{
    discover_each(
        PLUGIN_NAME,
        parsed,
        module_is_fastmcp_entry,
        Ghost(|m: ParsedModule| is_fastmcp_entry(m)),
    )
}

/// A function that is registered, plain or `async`, makes its module an entry.
pub proof fn fastmcp_tools_are_entries(m: ParsedModule, f: FunctionDef, plain: bool, i: int)
    requires
        imports_any(import_views(m.imports@), str_views(PACKAGES@)),
        nested_in(
            m.suite@,
            Descent { classes: true, tries: true, try_tails: true, withs: true },
        ).contains(
            if plain {
                Statement::FunctionDef(f)
            } else {
                Statement::AsyncFunctionDef(f)
            },
        ),
        0 <= i < f.decorator_list@.len(),
        is_attribute_in(f.decorator_list@[i], str_views(REGISTRATION_DECORATORS@)),
    ensures
        is_fastmcp_entry(m),
{
    let s = if plain {
        Statement::FunctionDef(f)
    } else {
        Statement::AsyncFunctionDef(f)
    };
    let all = nested_in(
        m.suite@,
        Descent { classes: true, tries: true, try_tails: true, withs: true },
    );
    let k = choose|k: int| 0 <= k < all.len() && all[k] == s;
    assert(decorators(s)[i] == f.decorator_list@[i]);
    assert(registers_with_fastmcp(all[k]));
    assert((|s: Statement| registers_with_fastmcp(s))(all[k]));
}

/// A module that makes a server is an entry, whether it keeps it or not.
pub proof fn fastmcp_servers_are_entries(m: ParsedModule, s: Statement, value: Expression)
    requires
        nested_in(
            m.suite@,
            Descent { classes: true, tries: true, try_tails: true, withs: true },
        ).contains(s),
        match s {
            Statement::Assign { value: v, .. } => *v == value,
            Statement::AnnAssign { value: v, .. } => v matches Some(e) && *e == value,
            Statement::Expr { value: v, .. } => *v == value,
            _ => false,
        },
        value is Call,
        is_one_of(tail_name(value), str_views(CTOR_NAMES@)),
    ensures
        is_fastmcp_entry(m),
{
    let all = nested_in(
        m.suite@,
        Descent { classes: true, tries: true, try_tails: true, withs: true },
    );
    let k = choose|k: int| 0 <= k < all.len() && all[k] == s;
    assert(makes_fastmcp_server(all[k]));
    assert((|s: Statement| makes_fastmcp_server(s))(all[k]));
}

} // verus!
