//! Modules that hold command line programs.
use super::common::{
    any_nested, assigning_call_of, assigns_call_of, decorated_by, decorators, discover_each,
    entries_where, reports, some_nested, some_tail_in,
};
use crate::ast::{Expression, FunctionDef, Statement};
use crate::extract::{has_top_level_import, imports_any, is_one_of, tail_name, ParsedModule};
use crate::text::str_views;
use crate::types::{import_views, PluginResult};
use crate::walker::{nested_in, Descent};
use rustc_hash::FxHashMap;
use vstd::prelude::*;

verus! {

pub const PLUGIN_NAME: &'static str = "click";

pub const COMMAND_DECORATORS: [&'static str; 3] = ["command", "group", "callback"];

pub const APP_CTORS: [&'static str; 2] = ["Typer", "Group"];

pub const PACKAGES: [&'static str; 2] = ["click", "typer"];

/// Whether a statement makes an application.
pub open spec fn makes_cli_app(s: Statement) -> bool {
    assigns_call_of(s, str_views(APP_CTORS@))
}

fn stmt_has_app_ctor(s: &Statement) -> (r: bool)
    ensures
        r == makes_cli_app(*s),
{
    assigning_call_of(s, &APP_CTORS)
}

/// Whether a statement defines a command.
pub open spec fn defines_command(s: Statement) -> bool {
    some_tail_in(decorators(s), str_views(COMMAND_DECORATORS@))
}

fn stmt_has_command_decorator(s: &Statement) -> (r: bool)
    ensures
        r == defines_command(*s),
{
    decorated_by(s, &COMMAND_DECORATORS)
}

/// Whether the module makes a command line application, or defines commands of one.
pub open spec fn is_cli_entry(m: ParsedModule) -> bool {
    some_nested(
        m.suite@,
        Descent { classes: true, tries: true, try_tails: true, withs: true },
        |s: Statement| makes_cli_app(s),
    ) || (imports_any(import_views(m.imports@), str_views(PACKAGES@)) && some_nested(
        m.suite@,
        Descent { classes: true, tries: true, try_tails: true, withs: true },
        |s: Statement| defines_command(s),
    ))
}

/// Whether the module makes a command line application, or defines commands of one.
pub fn module_is_cli_entry(module: &ParsedModule) -> (r: bool)
    ensures
        r == is_cli_entry(*module),
{
    any_nested(
        &module.suite,
        Descent { classes: true, tries: true, try_tails: true, withs: true },
        stmt_has_app_ctor,
        Ghost(|s: Statement| makes_cli_app(s)),
    ) || (has_top_level_import(module, &PACKAGES) && any_nested(
        &module.suite,
        Descent { classes: true, tries: true, try_tails: true, withs: true },
        stmt_has_command_decorator,
        Ghost(|s: Statement| defines_command(s)),
    ))
}

/// The modules that hold command line programs.
pub fn discover(parsed: &FxHashMap<u32, ParsedModule>) -> (r: PluginResult)
    ensures
        reports(
            r,
            PLUGIN_NAME@,
            entries_where(parsed@, |m: ParsedModule| is_cli_entry(m)),
        ),
{
    discover_each(
        PLUGIN_NAME,
        parsed,
        module_is_cli_entry,
        Ghost(|m: ParsedModule| is_cli_entry(m)),
    )
}

/// A command, plain or `async`, makes a module that imports the framework an entry.
pub proof fn commands_are_entries(m: ParsedModule, f: FunctionDef, plain: bool, i: int)
    requires
        imports_any(import_views(m.imports@), str_views(PACKAGES@)),
        nested_in(
            m.suite@,
            Descent { classes: true, tries: true, try_tails: true, withs: true },
        ).contains(
            if plain {
                Statement::FunctionDef(f)
            } else {
                Statement::AsyncFunctionDef(f)
            },
        ),
        0 <= i < f.decorator_list@.len(),
        is_one_of(tail_name(f.decorator_list@[i]), str_views(COMMAND_DECORATORS@)),
    ensures
        is_cli_entry(m),
{
    let s = if plain {
        Statement::FunctionDef(f)
    } else {
        Statement::AsyncFunctionDef(f)
    };
    let all = nested_in(
        m.suite@,
        Descent { classes: true, tries: true, try_tails: true, withs: true },
    );
    let k = choose|k: int| 0 <= k < all.len() && all[k] == s;
    assert(decorators(s)[i] == f.decorator_list@[i]);
    assert(defines_command(all[k]));
    assert((|s: Statement| defines_command(s))(all[k]));
}

/// A module that keeps an application is an entry, whatever it imports.
pub proof fn cli_apps_are_entries(m: ParsedModule, s: Statement, value: Expression)
    requires
        nested_in(
            m.suite@,
            Descent { classes: true, tries: true, try_tails: true, withs: true },
        ).contains(s),
        match s {
            Statement::Assign { value: v, .. } => *v == value,
            Statement::AnnAssign { value: v, .. } => v matches Some(e) && *e == value,
            _ => false,
        },
        value is Call,
        is_one_of(tail_name(value), str_views(APP_CTORS@)),
    ensures
        is_cli_entry(m),
{
    let all = nested_in(
        m.suite@,
        Descent { classes: true, tries: true, try_tails: true, withs: true },
    );
    let k = choose|k: int| 0 <= k < all.len() && all[k] == s;
    assert(makes_cli_app(all[k]));
    assert((|s: Statement| makes_cli_app(s))(all[k]));
}

} // verus!
