//! Modules that sqlmodel maps.
use super::common::{
    any_nested, bases, derives_from, discover_parallel, entries_where, reports, some_base_in,
    some_nested,
};
use crate::ast::{ClassDef, Statement};
use crate::extract::{base_name, has_top_level_import, imports_any, is_one_of, ParsedModule};
use crate::text::str_views;
use crate::types::{import_views, PluginResult};
use crate::walker::{nested_in, Descent};
use rustc_hash::FxHashMap;
use vstd::prelude::*;

verus! {

pub const PLUGIN_NAME: &'static str = "sqlmodel";

pub const MODEL_BASES: [&'static str; 1] = ["SQLModel"];

pub const PACKAGES: [&'static str; 1] = ["sqlmodel"];

/// Whether a statement defines a mapped class.
pub open spec fn marks_sqlmodel(s: Statement) -> bool {
    some_base_in(bases(s), str_views(MODEL_BASES@))
}

fn stmt_marks_sqlmodel_entry(s: &Statement) -> (r: bool)
    ensures
        r == marks_sqlmodel(*s),
{
    derives_from(s, &MODEL_BASES)
}

/// Whether the module defines mapped classes.
pub open spec fn is_sqlmodel_entry(m: ParsedModule) -> bool {
    imports_any(import_views(m.imports@), str_views(PACKAGES@)) && some_nested(
        m.suite@,
        Descent { classes: true, tries: false, try_tails: false, withs: false },
        |s: Statement| marks_sqlmodel(s),
    )
}

/// Whether the module defines mapped classes.
pub fn module_is_sqlmodel_entry(module: &ParsedModule) -> (r: bool)
    ensures
        r == is_sqlmodel_entry(*module),
{
    has_top_level_import(module, &PACKAGES) && any_nested(
        &module.suite,
        Descent { classes: true, tries: false, try_tails: false, withs: false },
        stmt_marks_sqlmodel_entry,
        Ghost(|s: Statement| marks_sqlmodel(s)),
    )
}

/// The modules that sqlmodel maps.
pub fn discover(parsed: &FxHashMap<u32, ParsedModule>) -> (r: PluginResult)
    ensures
        reports(
            r,
            PLUGIN_NAME@,
            entries_where(parsed@, |m: ParsedModule| is_sqlmodel_entry(m)),
        ),
{
    discover_parallel(
        PLUGIN_NAME,
        parsed,
        module_is_sqlmodel_entry,
        Ghost(|m: ParsedModule| is_sqlmodel_entry(m)),
    )
}

/// A mapped class makes its module an entry.
pub proof fn sqlmodel_classes_are_entries(m: ParsedModule, c: ClassDef, i: int)
    requires
        imports_any(import_views(m.imports@), str_views(PACKAGES@)),
        nested_in(
            m.suite@,
            Descent { classes: true, tries: false, try_tails: false, withs: false },
        ).contains(Statement::ClassDef(c)),
        0 <= i < c.bases@.len(),
        is_one_of(base_name(c.bases@[i]), str_views(MODEL_BASES@)),
    ensures
        is_sqlmodel_entry(m),
{
    let s = Statement::ClassDef(c);
    let all = nested_in(
        m.suite@,
        Descent { classes: true, tries: false, try_tails: false, withs: false },
    );
    let k = choose|k: int| 0 <= k < all.len() && all[k] == s;
    assert(bases(s)[i] == c.bases@[i]);
    assert(marks_sqlmodel(all[k]));
    assert((|s: Statement| marks_sqlmodel(s))(all[k]));
}

/// A module that imports nothing of sqlmodel is not taken for one that it uses.
pub proof fn others_are_no_sqlmodel_entries(m: ParsedModule)
    requires
        !imports_any(import_views(m.imports@), str_views(PACKAGES@)),
    ensures
        !is_sqlmodel_entry(m),
{
}

} // verus!
