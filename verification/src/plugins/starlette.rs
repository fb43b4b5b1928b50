//! Modules that starlette serves.
use super::common::{
    any_tail_in, any_walked, decorated_by, decorators, discover_parallel, entries_where, reports,
    some_stmt, some_tail_in,
};
use crate::ast::{Expression, FunctionDef, Statement};
use crate::extract::{
    callable_tail_in, has_top_level_import, imports_any, is_one_of, tail_name, ParsedModule,
};
use crate::text::str_views;
use crate::types::{import_views, PluginResult};
use crate::walker::stmts_in;
use rustc_hash::FxHashMap;
use vstd::prelude::*;

verus! {

pub const PLUGIN_NAME: &'static str = "starlette";

pub const STARLETTE_CALLABLES: [&'static str; 5] = [
    "Starlette", "Route", "WebSocketRoute", "Mount", "Host",
];

pub const APP_DECORATORS: [&'static str; 3] = ["exception_handler", "middleware", "on_event"];

pub const PACKAGES: [&'static str; 1] = ["starlette"];

/// Whether an expression names one of the callables, or is a list with one.
pub open spec fn holds_starlette_call(e: Expression) -> bool {
    is_one_of(tail_name(e), str_views(STARLETTE_CALLABLES@)) || (e matches Expression::List { elts }
        && some_tail_in(elts@, str_views(STARLETTE_CALLABLES@)))
}

fn expr_contains_starlette_call(e: &Expression) -> (r: bool)
    ensures
        r == holds_starlette_call(*e),
{
    if callable_tail_in(e, &STARLETTE_CALLABLES) {
        return true;
    }
    match e {
        Expression::List { elts } => any_tail_in(elts, &STARLETTE_CALLABLES),
        _ => false,
    }
}

/// Whether a statement makes an application or routes, or defines a handler.
pub open spec fn marks_starlette(s: Statement) -> bool {
    match s {
        Statement::Assign { value, .. } => holds_starlette_call(*value),
        Statement::AnnAssign { value, .. } => value matches Some(e) && holds_starlette_call(*e),
        Statement::Expr { value, .. } => holds_starlette_call(*value),
        _ => some_tail_in(decorators(s), str_views(APP_DECORATORS@)),
    }
}

fn stmt_marks_starlette(s: &Statement) -> (r: bool)
    ensures
        r == marks_starlette(*s),
{
    match s {
        Statement::Assign { value, .. } => expr_contains_starlette_call(value),
        Statement::AnnAssign { value, .. } => match value {
            Some(e) => expr_contains_starlette_call(e),
            None => false,
        },
        Statement::Expr { value, .. } => expr_contains_starlette_call(value),
        _ => decorated_by(s, &APP_DECORATORS),
    }
}

/// Whether starlette serves something of the module.
pub open spec fn is_starlette_entry(m: ParsedModule) -> bool {
    imports_any(import_views(m.imports@), str_views(PACKAGES@)) && some_stmt(
        stmts_in(m.suite@),
        |s: Statement| marks_starlette(s),
    )
}

/// Whether starlette serves something of the module.
pub fn module_is_starlette_entry(module: &ParsedModule) -> (r: bool)
    ensures
        r == is_starlette_entry(*module),
{
    has_top_level_import(module, &PACKAGES) && any_walked(
        &module.suite,
        stmt_marks_starlette,
        Ghost(|s: Statement| marks_starlette(s)),
    )
}

/// The modules that starlette serves.
pub fn discover(parsed: &FxHashMap<u32, ParsedModule>) -> (r: PluginResult)
    ensures
        reports(r, PLUGIN_NAME@, entries_where(parsed@, |m: ParsedModule| is_starlette_entry(m))),
{
    discover_parallel(
        PLUGIN_NAME,
        parsed,
        module_is_starlette_entry,
        Ghost(|m: ParsedModule| is_starlette_entry(m)),
    )
}

/// A handler, plain or `async`, makes its module an entry.
pub proof fn starlette_handlers_are_entries(m: ParsedModule, f: FunctionDef, plain: bool, i: int)
    requires
        imports_any(import_views(m.imports@), str_views(PACKAGES@)),
        stmts_in(m.suite@).contains(
            if plain {
                Statement::FunctionDef(f)
            } else {
                Statement::AsyncFunctionDef(f)
            },
        ),
        0 <= i < f.decorator_list@.len(),
        is_one_of(tail_name(f.decorator_list@[i]), str_views(APP_DECORATORS@)),
    ensures
        is_starlette_entry(m),
{
    let s = if plain {
        Statement::FunctionDef(f)
    } else {
        Statement::AsyncFunctionDef(f)
    };
    let all = stmts_in(m.suite@);
    let k = choose|k: int| 0 <= k < all.len() && all[k] == s;
    assert(decorators(s)[i] == f.decorator_list@[i]);
    assert(marks_starlette(all[k]));
    assert((|s: Statement| marks_starlette(s))(all[k]));
}

/// A module that makes an application, a router or a route is an entry, whether it
/// keeps it or not.
pub proof fn starlette_apps_are_entries(m: ParsedModule, s: Statement, value: Expression)
    requires
        imports_any(import_views(m.imports@), str_views(PACKAGES@)),
        stmts_in(m.suite@).contains(s),
        match s {
            Statement::Assign { value: v, .. } => *v == value,
            Statement::AnnAssign { value: v, .. } => v matches Some(e) && *e == value,
            Statement::Expr { value: v, .. } => *v == value,
            _ => false,
        },
        value is Call,
        is_one_of(tail_name(value), str_views(STARLETTE_CALLABLES@)),
    ensures
        is_starlette_entry(m),
{
    let all = stmts_in(m.suite@);
    let k = choose|k: int| 0 <= k < all.len() && all[k] == s;
    assert(marks_starlette(all[k]));
    assert((|s: Statement| marks_starlette(s))(all[k]));
}

/// A module that imports nothing of starlette is not taken for one that it uses.
pub proof fn others_are_no_starlette_entries(m: ParsedModule)
    requires
        !imports_any(import_views(m.imports@), str_views(PACKAGES@)),
    ensures
        !is_starlette_entry(m),
{
}

} // verus!
