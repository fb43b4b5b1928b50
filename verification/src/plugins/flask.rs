//! Modules that flask serves.
use super::common::{
    any_nested, bases, decorated_by, decorators, derives_from, discover_parallel, entries_where,
    makes_call_of, making_call_of, reports, some_base_in, some_nested, some_tail_in,
};
use crate::ast::{ClassDef, Expression, FunctionDef, Statement};
use crate::extract::{
    base_name, has_top_level_import, imports_any, is_one_of, tail_name, ParsedModule,
};
use crate::text::str_views;
use crate::types::{import_views, PluginResult};
use crate::walker::{nested_in, Descent};
use rustc_hash::FxHashMap;
use vstd::prelude::*;

verus! {

pub const PLUGIN_NAME: &'static str = "flask";

pub const CTOR_NAMES: [&'static str; 2] = ["Flask", "Blueprint"];

/// Routes, steps of a request, and commands of the application.
pub const ROUTE_DECORATORS: [&'static str; 16] = [
    "route", "get", "post", "put", "delete", "patch", "before_request", "before_first_request",
    "after_request", "teardown_request", "teardown_appcontext", "errorhandler",
    "context_processor", "url_value_preprocessor", "url_defaults", "command",
];

pub const VIEW_BASES: [&'static str; 2] = ["View", "MethodView"];

pub const PACKAGES: [&'static str; 1] = ["flask"];

/// Whether a statement defines a view, an application or a handler.
pub open spec fn marks_flask(s: Statement) -> bool {
    some_base_in(bases(s), str_views(VIEW_BASES@))
        || makes_call_of(s, str_views(CTOR_NAMES@))
        || some_tail_in(decorators(s), str_views(ROUTE_DECORATORS@))
}

fn stmt_marks_flask_entry(s: &Statement) -> (r: bool)
    ensures
        r == marks_flask(*s),
{
    derives_from(s, &VIEW_BASES) || making_call_of(s, &CTOR_NAMES) || decorated_by(s, &ROUTE_DECORATORS)
}

/// Whether flask serves views, routes or an application of the module.
pub open spec fn is_flask_entry(m: ParsedModule) -> bool {
    imports_any(import_views(m.imports@), str_views(PACKAGES@)) && some_nested(
        m.suite@,
        Descent { classes: true, tries: true, try_tails: false, withs: true },
        |s: Statement| marks_flask(s),
    )
}

/// Whether flask serves views, routes or an application of the module.
pub fn module_is_flask_entry(module: &ParsedModule) -> (r: bool)
    ensures
        r == is_flask_entry(*module),
{
    has_top_level_import(module, &PACKAGES) && any_nested(
        &module.suite,
        Descent { classes: true, tries: true, try_tails: false, withs: true },
        stmt_marks_flask_entry,
        Ghost(|s: Statement| marks_flask(s)),
    )
}

/// The modules that flask serves.
pub fn discover(parsed: &FxHashMap<u32, ParsedModule>) -> (r: PluginResult)
    ensures
        reports(
            r,
            PLUGIN_NAME@,
            entries_where(parsed@, |m: ParsedModule| is_flask_entry(m)),
        ),
{
    discover_parallel(
        PLUGIN_NAME,
        parsed,
        module_is_flask_entry,
        Ghost(|m: ParsedModule| is_flask_entry(m)),
    )
}

/// A class that derives from a view makes its module an entry.
pub proof fn flask_views_are_entries(m: ParsedModule, c: ClassDef, i: int)
    requires
        imports_any(import_views(m.imports@), str_views(PACKAGES@)),
        nested_in(
            m.suite@,
            Descent { classes: true, tries: true, try_tails: false, withs: true },
        ).contains(Statement::ClassDef(c)),
        0 <= i < c.bases@.len(),
        is_one_of(base_name(c.bases@[i]), str_views(VIEW_BASES@)),
    ensures
        is_flask_entry(m),
{
    let s = Statement::ClassDef(c);
    let all = nested_in(
        m.suite@,
        Descent { classes: true, tries: true, try_tails: false, withs: true },
    );
    let k = choose|k: int| 0 <= k < all.len() && all[k] == s;
    assert(bases(s)[i] == c.bases@[i]);
    assert(marks_flask(all[k]));
    assert((|s: Statement| marks_flask(s))(all[k]));
}

/// A route handler, plain or `async`, makes its module an entry.
pub proof fn flask_routes_are_entries(m: ParsedModule, f: FunctionDef, plain: bool, i: int)
    requires
        imports_any(import_views(m.imports@), str_views(PACKAGES@)),
        nested_in(
            m.suite@,
            Descent { classes: true, tries: true, try_tails: false, withs: true },
        ).contains(
            if plain {
                Statement::FunctionDef(f)
            } else {
                Statement::AsyncFunctionDef(f)
            },
        ),
        0 <= i < f.decorator_list@.len(),
        is_one_of(tail_name(f.decorator_list@[i]), str_views(ROUTE_DECORATORS@)),
    ensures
        is_flask_entry(m),
{
    let s = if plain {
        Statement::FunctionDef(f)
    } else {
        Statement::AsyncFunctionDef(f)
    };
    let all = nested_in(
        m.suite@,
        Descent { classes: true, tries: true, try_tails: false, withs: true },
    );
    let k = choose|k: int| 0 <= k < all.len() && all[k] == s;
    assert(decorators(s)[i] == f.decorator_list@[i]);
    assert(marks_flask(all[k]));
    assert((|s: Statement| marks_flask(s))(all[k]));
}

/// A module that makes an application is an entry, whether it keeps it or not.
pub proof fn flask_apps_are_entries(m: ParsedModule, s: Statement, value: Expression)
    requires
        imports_any(import_views(m.imports@), str_views(PACKAGES@)),
        nested_in(
            m.suite@,
            Descent { classes: true, tries: true, try_tails: false, withs: true },
        ).contains(s),
        match s {
            Statement::Assign { value: v, .. } => *v == value,
            Statement::AnnAssign { value: v, .. } => v matches Some(e) && *e == value,
            Statement::Expr { value: v, .. } => *v == value,
            _ => false,
        },
        value is Call,
        is_one_of(tail_name(value), str_views(CTOR_NAMES@)),
    ensures
        is_flask_entry(m),
{
    let all = nested_in(
        m.suite@,
        Descent { classes: true, tries: true, try_tails: false, withs: true },
    );
    let k = choose|k: int| 0 <= k < all.len() && all[k] == s;
    assert(marks_flask(all[k]));
    assert((|s: Statement| marks_flask(s))(all[k]));
}

/// A module that imports nothing of flask is not taken for one that it uses.
pub proof fn others_are_no_flask_entries(m: ParsedModule)
    requires
        !imports_any(import_views(m.imports@), str_views(PACKAGES@)),
    ensures
        !is_flask_entry(m),
{
}

} // verus!
