//! Modules that FastAPI serves.
use super::common::{
    any_nested, assigning_call_of, assigns_call_of, decorated_by_attribute, decorators,
    discover_each, entries_where, is_attribute_in, reports, some_attribute_in, some_nested,
};
use crate::ast::{Expression, FunctionDef, Statement};
use crate::extract::{is_one_of, tail_name, ParsedModule};
use crate::text::{same, str_views};
use crate::types::PluginResult;
use crate::walker::{nested_in, Descent};
use rustc_hash::FxHashMap;
use vstd::prelude::*;

verus! {

pub const PLUGIN_NAME: &'static str = "fastapi";

pub const HTTP_VERB_METHODS: [&'static str; 8] = [
    "get", "post", "put", "patch", "delete", "head", "options", "websocket",
];

pub const APP_CTORS: [&'static str; 2] = ["FastAPI", "APIRouter"];

/// Whether an expression is a call of some `x.include_router`.
pub open spec fn mounts_router(e: Expression) -> bool {
    e matches Expression::Call { func, .. } && *func matches Expression::Attribute { attr, .. }
        && attr@ == "include_router"@
}

fn is_include_router_call(e: &Expression) -> (r: bool)
    ensures
        r == mounts_router(*e),
{
    match e {
        Expression::Call { func, .. } => match &**func {
            Expression::Attribute { attr, .. } => same(attr.as_str(), "include_router"),
            _ => false,
        },
        _ => false,
    }
}

/// Whether a statement defines a route, makes an application, or mounts a
/// router. Route decorators always belong to an application or a router, so a
/// bare name does not count.
pub open spec fn marks_fastapi(s: Statement) -> bool {
    some_attribute_in(decorators(s), str_views(HTTP_VERB_METHODS@)) || assigns_call_of(
        s,
        str_views(APP_CTORS@),
    ) || (s matches Statement::Expr { value, .. } && mounts_router(*value))
}

fn stmt_marks_fastapi_entry(s: &Statement) -> (r: bool)
    ensures
        r == marks_fastapi(*s),
{
    match s {
        Statement::Expr { value, .. } => is_include_router_call(value),
        _ => decorated_by_attribute(s, &HTTP_VERB_METHODS) || assigning_call_of(s, &APP_CTORS),
    }
}

/// Whether FastAPI serves something of the module.
pub open spec fn is_fastapi_entry(m: ParsedModule) -> bool {
    some_nested(
        m.suite@,
        Descent { classes: true, tries: true, try_tails: true, withs: true },
        |s: Statement| marks_fastapi(s),
    )
}

/// Whether FastAPI serves something of the module.
pub fn module_is_fastapi_entry(module: &ParsedModule) -> (r: bool)
    ensures
        r == is_fastapi_entry(*module),
{
    any_nested(
        &module.suite,
        Descent { classes: true, tries: true, try_tails: true, withs: true },
        stmt_marks_fastapi_entry,
        Ghost(|s: Statement| marks_fastapi(s)),
    )
}

/// The modules that FastAPI serves.
pub fn discover(parsed: &FxHashMap<u32, ParsedModule>) -> (r: PluginResult)
    ensures
        reports(r, PLUGIN_NAME@, entries_where(parsed@, |m: ParsedModule| is_fastapi_entry(m))),
{
    discover_each(
        PLUGIN_NAME,
        parsed,
        module_is_fastapi_entry,
        Ghost(|m: ParsedModule| is_fastapi_entry(m)),
    )
}

/// A route handler, plain or `async`, makes its module an entry.
pub proof fn fastapi_routes_are_entries(m: ParsedModule, f: FunctionDef, plain: bool, i: int)
    requires
        nested_in(
            m.suite@,
            Descent { classes: true, tries: true, try_tails: true, withs: true },
        ).contains(
            if plain {
                Statement::FunctionDef(f)
            } else {
                Statement::AsyncFunctionDef(f)
            },
        ),
        0 <= i < f.decorator_list@.len(),
        is_attribute_in(f.decorator_list@[i], str_views(HTTP_VERB_METHODS@)),
    ensures
        is_fastapi_entry(m),
{
    let s = if plain {
        Statement::FunctionDef(f)
    } else {
        Statement::AsyncFunctionDef(f)
    };
    let all = nested_in(
        m.suite@,
        Descent { classes: true, tries: true, try_tails: true, withs: true },
    );
    let k = choose|k: int| 0 <= k < all.len() && all[k] == s;
    assert(decorators(s)[i] == f.decorator_list@[i]);
    assert(marks_fastapi(all[k]));
    assert((|s: Statement| marks_fastapi(s))(all[k]));
}

/// A module that keeps an application or a router is an entry.
pub proof fn fastapi_apps_are_entries(m: ParsedModule, s: Statement, value: Expression)
    requires
        nested_in(
            m.suite@,
            Descent { classes: true, tries: true, try_tails: true, withs: true },
        ).contains(s),
        match s {
            Statement::Assign { value: v, .. } => *v == value,
            Statement::AnnAssign { value: v, .. } => v matches Some(e) && *e == value,
            _ => false,
        },
        value is Call,
        is_one_of(tail_name(value), str_views(APP_CTORS@)),
    ensures
        is_fastapi_entry(m),
{
    let all = nested_in(
        m.suite@,
        Descent { classes: true, tries: true, try_tails: true, withs: true },
    );
    let k = choose|k: int| 0 <= k < all.len() && all[k] == s;
    assert(marks_fastapi(all[k]));
    assert((|s: Statement| marks_fastapi(s))(all[k]));
}

} // verus!
