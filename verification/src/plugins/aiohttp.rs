//! Modules that aiohttp serves.
use super::common::{
    any_walked, bases, decorated_by, decorators, derives_from, discover_parallel, entries_where,
    makes_call_of, making_call_of, reports, some_base_in, some_stmt, some_tail_in,
};
use crate::ast::{ClassDef, Expression, FunctionDef, Statement};
use crate::extract::{
    base_name, has_top_level_import, imports_any, is_one_of, tail_name, ParsedModule,
};
use crate::text::str_views;
use crate::types::{import_views, PluginResult};
use crate::walker::stmts_in;
use rustc_hash::FxHashMap;
use vstd::prelude::*;

verus! {

pub const PLUGIN_NAME: &'static str = "aiohttp";

pub const CTOR_NAMES: [&'static str; 2] = ["Application", "RouteTableDef"];

pub const ROUTE_DECORATORS: [&'static str; 9] = [
    "get", "post", "put", "delete", "patch", "head", "options", "view", "route",
];

pub const VIEW_BASES: [&'static str; 1] = ["View"];

pub const PACKAGES: [&'static str; 1] = ["aiohttp"];

/// Whether a statement defines a view, an application or a route.
pub open spec fn marks_aiohttp(s: Statement) -> bool {
    some_base_in(bases(s), str_views(VIEW_BASES@))
        || makes_call_of(s, str_views(CTOR_NAMES@))
        || some_tail_in(decorators(s), str_views(ROUTE_DECORATORS@))
}

fn stmt_marks_aiohttp(s: &Statement) -> (r: bool)
    ensures
        r == marks_aiohttp(*s),
{
    derives_from(s, &VIEW_BASES) || making_call_of(s, &CTOR_NAMES) || decorated_by(s, &ROUTE_DECORATORS)
}

/// Whether aiohttp uses the module without importing it.
pub open spec fn is_aiohttp_entry(m: ParsedModule) -> bool {
    imports_any(import_views(m.imports@), str_views(PACKAGES@)) && some_stmt(stmts_in(m.suite@), |s: Statement| marks_aiohttp(s))
}

/// Whether aiohttp uses the module without importing it.
pub fn module_is_aiohttp_entry(module: &ParsedModule) -> (r: bool)
    ensures
        r == is_aiohttp_entry(*module),
{
    has_top_level_import(module, &PACKAGES) && any_walked(&module.suite, stmt_marks_aiohttp, Ghost(|s: Statement| marks_aiohttp(s)))
}

/// The modules that aiohttp serves.
pub fn discover(parsed: &FxHashMap<u32, ParsedModule>) -> (r: PluginResult)
    ensures
        reports(
            r,
            PLUGIN_NAME@,
            entries_where(parsed@, |m: ParsedModule| is_aiohttp_entry(m)),
        ),
{
    discover_parallel(
        PLUGIN_NAME,
        parsed,
        module_is_aiohttp_entry,
        Ghost(|m: ParsedModule| is_aiohttp_entry(m)),
    )
}

/// A class that derives from a view makes its module an entry.
pub proof fn aiohttp_views_are_entries(m: ParsedModule, c: ClassDef, i: int)
    requires
        imports_any(import_views(m.imports@), str_views(PACKAGES@)),
        stmts_in(m.suite@).contains(Statement::ClassDef(c)),
        0 <= i < c.bases@.len(),
        is_one_of(base_name(c.bases@[i]), str_views(VIEW_BASES@)),
    ensures
        is_aiohttp_entry(m),
{
    let s = Statement::ClassDef(c);
    let all = stmts_in(m.suite@);
    let k = choose|k: int| 0 <= k < all.len() && all[k] == s;
    assert(bases(s)[i] == c.bases@[i]);
    assert(marks_aiohttp(all[k]));
    assert((|s: Statement| marks_aiohttp(s))(all[k]));
}

/// A route handler, plain or `async`, makes its module an entry.
pub proof fn aiohttp_routes_are_entries(m: ParsedModule, f: FunctionDef, plain: bool, i: int)
    requires
        imports_any(import_views(m.imports@), str_views(PACKAGES@)),
        stmts_in(m.suite@).contains(
            if plain {
                Statement::FunctionDef(f)
            } else {
                Statement::AsyncFunctionDef(f)
            },
        ),
        0 <= i < f.decorator_list@.len(),
        is_one_of(tail_name(f.decorator_list@[i]), str_views(ROUTE_DECORATORS@)),
    ensures
        is_aiohttp_entry(m),
{
    let s = if plain {
        Statement::FunctionDef(f)
    } else {
        Statement::AsyncFunctionDef(f)
    };
    let all = stmts_in(m.suite@);
    let k = choose|k: int| 0 <= k < all.len() && all[k] == s;
    assert(decorators(s)[i] == f.decorator_list@[i]);
    assert(marks_aiohttp(all[k]));
    assert((|s: Statement| marks_aiohttp(s))(all[k]));
}

/// A module that makes an application is an entry, whether it keeps it or not.
pub proof fn aiohttp_apps_are_entries(m: ParsedModule, s: Statement, value: Expression)
    requires
        imports_any(import_views(m.imports@), str_views(PACKAGES@)),
        stmts_in(m.suite@).contains(s),
        match s {
            Statement::Assign { value: v, .. } => *v == value,
            Statement::AnnAssign { value: v, .. } => v matches Some(e) && *e == value,
            Statement::Expr { value: v, .. } => *v == value,
            _ => false,
        },
        value is Call,
        is_one_of(tail_name(value), str_views(CTOR_NAMES@)),
    ensures
        is_aiohttp_entry(m),
{
    let all = stmts_in(m.suite@);
    let k = choose|k: int| 0 <= k < all.len() && all[k] == s;
    assert(marks_aiohttp(all[k]));
    assert((|s: Statement| marks_aiohttp(s))(all[k]));
}

/// A module that imports nothing of aiohttp is not taken for one that it uses.
pub proof fn others_are_no_aiohttp_entries(m: ParsedModule)
    requires
        !imports_any(import_views(m.imports@), str_views(PACKAGES@)),
    ensures
        !is_aiohttp_entry(m),
{
}

} // verus!
