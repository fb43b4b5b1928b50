//! Modules that pydantic uses.
use super::common::{
    any_nested, bases, decorated_by, decorators, derives_from, discover_parallel, entries_where,
    reports, some_base_in, some_nested, some_tail_in,
};
use crate::ast::{ClassDef, FunctionDef, Statement};
use crate::extract::{
    base_name, has_top_level_import, imports_any, is_one_of, tail_name, ParsedModule,
};
use crate::text::str_views;
use crate::types::{import_views, PluginResult};
use crate::walker::{nested_in, Descent};
use rustc_hash::FxHashMap;
use vstd::prelude::*;

verus! {

pub const PLUGIN_NAME: &'static str = "pydantic";

pub const MODEL_BASES: [&'static str; 4] = ["BaseModel", "BaseSettings", "GenericModel", "RootModel"];

pub const VALIDATOR_DECORATORS: [&'static str; 5] = [
    "field_validator", "model_validator", "validator", "root_validator", "computed_field",
];

pub const PACKAGES: [&'static str; 2] = ["pydantic", "pydantic_settings"];

/// Whether a statement defines a model or a validator.
pub open spec fn marks_pydantic(s: Statement) -> bool {
    some_base_in(bases(s), str_views(MODEL_BASES@))
        || some_tail_in(decorators(s), str_views(VALIDATOR_DECORATORS@))
}

fn stmt_marks_pydantic_entry(s: &Statement) -> (r: bool)
    ensures
        r == marks_pydantic(*s),
{
    derives_from(s, &MODEL_BASES) || decorated_by(s, &VALIDATOR_DECORATORS)
}

/// Whether the module defines models or validators.
pub open spec fn is_pydantic_entry(m: ParsedModule) -> bool {
    imports_any(import_views(m.imports@), str_views(PACKAGES@)) && some_nested(
        m.suite@,
        Descent { classes: true, tries: true, try_tails: true, withs: true },
        |s: Statement| marks_pydantic(s),
    )
}

/// Whether the module defines models or validators.
pub fn module_is_pydantic_entry(module: &ParsedModule) -> (r: bool)
    ensures
        r == is_pydantic_entry(*module),
{
    has_top_level_import(module, &PACKAGES) && any_nested(
        &module.suite,
        Descent { classes: true, tries: true, try_tails: true, withs: true },
        stmt_marks_pydantic_entry,
        Ghost(|s: Statement| marks_pydantic(s)),
    )
}

/// The modules that pydantic uses.
pub fn discover(parsed: &FxHashMap<u32, ParsedModule>) -> (r: PluginResult)
    ensures
        reports(
            r,
            PLUGIN_NAME@,
            entries_where(parsed@, |m: ParsedModule| is_pydantic_entry(m)),
        ),
{
    discover_parallel(
        PLUGIN_NAME,
        parsed,
        module_is_pydantic_entry,
        Ghost(|m: ParsedModule| is_pydantic_entry(m)),
    )
}

/// A model makes its module an entry.
pub proof fn pydantic_models_are_entries(m: ParsedModule, c: ClassDef, i: int)
    requires
        imports_any(import_views(m.imports@), str_views(PACKAGES@)),
        nested_in(
            m.suite@,
            Descent { classes: true, tries: true, try_tails: true, withs: true },
        ).contains(Statement::ClassDef(c)),
        0 <= i < c.bases@.len(),
        is_one_of(base_name(c.bases@[i]), str_views(MODEL_BASES@)),
    ensures
        is_pydantic_entry(m),
{
    let s = Statement::ClassDef(c);
    let all = nested_in(
        m.suite@,
        Descent { classes: true, tries: true, try_tails: true, withs: true },
    );
    let k = choose|k: int| 0 <= k < all.len() && all[k] == s;
    assert(bases(s)[i] == c.bases@[i]);
    assert(marks_pydantic(all[k]));
    assert((|s: Statement| marks_pydantic(s))(all[k]));
}

/// A validator, plain or `async`, makes its module an entry.
pub proof fn pydantic_validators_are_entries(m: ParsedModule, f: FunctionDef, plain: bool, i: int)
    requires
        imports_any(import_views(m.imports@), str_views(PACKAGES@)),
        nested_in(
            m.suite@,
            Descent { classes: true, tries: true, try_tails: true, withs: true },
        ).contains(
            if plain {
                Statement::FunctionDef(f)
            } else {
                Statement::AsyncFunctionDef(f)
            },
        ),
        0 <= i < f.decorator_list@.len(),
        is_one_of(tail_name(f.decorator_list@[i]), str_views(VALIDATOR_DECORATORS@)),
    ensures
        is_pydantic_entry(m),
{
    let s = if plain {
        Statement::FunctionDef(f)
    } else {
        Statement::AsyncFunctionDef(f)
    };
    let all = nested_in(
        m.suite@,
        Descent { classes: true, tries: true, try_tails: true, withs: true },
    );
    let k = choose|k: int| 0 <= k < all.len() && all[k] == s;
    assert(decorators(s)[i] == f.decorator_list@[i]);
    assert(marks_pydantic(all[k]));
    assert((|s: Statement| marks_pydantic(s))(all[k]));
}

/// A module that imports nothing of pydantic is not taken for one that it uses.
pub proof fn others_are_no_pydantic_entries(m: ParsedModule)
    requires
        !imports_any(import_views(m.imports@), str_views(PACKAGES@)),
    ensures
        !is_pydantic_entry(m),
{
}

} // verus!
