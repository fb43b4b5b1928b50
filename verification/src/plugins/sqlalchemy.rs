//! Modules that SQLAlchemy maps.
use super::common::{
    any_nested, bases, call_of, discover_each, entries_where, is_call_of, is_some_call_of, reports,
    some_nested,
};
use crate::ast::{ClassDef, Expression, Statement};
use crate::extract::{
    callable_tail_name, has_top_level_import, imports_any, is_name, is_one_of, last_identifier,
    last_name, some_name, tail_name, ParsedModule,
};
use crate::text::{one_of, same, str_views};
use crate::types::{import_views, PluginResult};
use crate::walker::{nested_in, Descent};
use rustc_hash::FxHashMap;
use vstd::prelude::*;

verus! {

pub const PLUGIN_NAME: &'static str = "sqlalchemy";

/// Names that make a class a mapped one when it derives from them.
pub const MODEL_BASES: [&'static str; 6] = [
    "DeclarativeBase", "Base", "Model", "SQLModel", "MappedAsDataclass", "declarative_base",
];

/// Functions that make columns and relations of a class.
pub const COLUMN_FACTORIES: [&'static str; 3] = ["mapped_column", "Column", "relationship"];

pub const PACKAGES: [&'static str; 3] = ["sqlalchemy", "sqlmodel", "flask_sqlalchemy"];

/// The name of a base class: `Base`, `db.Model`, `declarative_base()` or
/// `Base[T]`.
pub open spec fn orm_name(e: Expression) -> Option<Seq<char>> {
    match e {
        Expression::Subscript { value, .. } => last_name(*value),
        _ => tail_name(e),
    }
}

pub open spec fn some_orm_base(v: Seq<Expression>) -> bool {
    exists|i: int| 0 <= i < v.len() && is_one_of(orm_name(#[trigger] v[i]), str_views(MODEL_BASES@))
}

fn is_orm_base(e: &Expression) -> (r: bool)
    ensures
        r == is_one_of(orm_name(*e), str_views(MODEL_BASES@)),
{
    let name = match e {
        Expression::Subscript { value, .. } => last_identifier(value),
        _ => callable_tail_name(e),
    };
    match name {
        Some(n) => one_of(n, &MODEL_BASES),
        None => false,
    }
}

fn any_orm_base(v: &Vec<Expression>) -> (r: bool)
    ensures
        r == some_orm_base(v@),
{
    let mut i: usize = 0;
    while i < v.len()
        invariant
            i <= v@.len(),
            forall|j: int|
                0 <= j < i ==> !is_one_of(orm_name(#[trigger] v@[j]), str_views(MODEL_BASES@)),
        decreases v@.len() - i,
    {
        if is_orm_base(&v[i]) {
            return true;
        }
        i += 1;
    }
    false
}

/// Whether an annotation is `Mapped`, with or without a subscript.
pub open spec fn is_mapped(e: Expression) -> bool {
    match e {
        Expression::Subscript { value, .. } => last_name(*value) == Some("Mapped"@),
        _ => last_name(e) == Some("Mapped"@),
    }
}

fn is_mapped_annotation(e: &Expression) -> (r: bool)
    ensures
        r == is_mapped(*e),
{
    let name = match e {
        Expression::Subscript { value, .. } => last_identifier(value),
        _ => last_identifier(e),
    };
    match name {
        Some(n) => same(n, "Mapped"),
        None => false,
    }
}

/// Whether a statement in a class body names a table or makes a column.
pub open spec fn maps_a_column(s: Statement) -> bool {
    match s {
        Statement::Assign { targets, value, .. } => some_name(targets@, "__tablename__"@)
            || is_call_of(*value, str_views(COLUMN_FACTORIES@)),
        Statement::AnnAssign { target, annotation, value, .. } => is_name(
            *target,
            "__tablename__"@,
        ) || is_some_call_of(value, str_views(COLUMN_FACTORIES@)) || is_mapped(*annotation),
        _ => false,
    }
}

pub open spec fn some_column(v: Seq<Statement>) -> bool {
    exists|i: int| 0 <= i < v.len() && maps_a_column(#[trigger] v[i])
}

fn stmt_maps_a_column(s: &Statement) -> (r: bool)
    ensures
        r == maps_a_column(*s),
{
    match s {
        Statement::Assign { targets, value, .. } => crate::extract::any_is_name(
            targets,
            "__tablename__",
        ) || call_of(value, &COLUMN_FACTORIES),
        Statement::AnnAssign { target, annotation, value, .. } => {
            if crate::extract::expr_is_name(target, "__tablename__") {
                return true;
            }
            let made = match value {
                Some(e) => call_of(e, &COLUMN_FACTORIES),
                None => false,
            };
            made || is_mapped_annotation(annotation)
        },
        _ => false,
    }
}

fn class_has_tablename_or_columns(body: &Vec<Statement>) -> (r: bool)
    ensures
        r == some_column(body@),
{
    let mut i: usize = 0;
    while i < body.len()
        invariant
            i <= body@.len(),
            forall|j: int| 0 <= j < i ==> !maps_a_column(#[trigger] body@[j]),
        decreases body@.len() - i,
    {
        if stmt_maps_a_column(&body[i]) {
            return true;
        }
        i += 1;
    }
    false
}

/// Whether a statement defines a mapped class.
pub open spec fn marks_orm_model(s: Statement) -> bool {
    s matches Statement::ClassDef(c) && (some_orm_base(c.bases@) || some_column(c.body@))
}

fn stmt_marks_orm_model(s: &Statement) -> (r: bool)
    ensures
        r == marks_orm_model(*s),
{
    match s {
        Statement::ClassDef(c) => any_orm_base(&c.bases) || class_has_tablename_or_columns(
            &c.body,
        ),
        _ => false,
    }
}

/// Whether the module defines mapped classes.
pub open spec fn is_sqlalchemy_entry(m: ParsedModule) -> bool {
    imports_any(import_views(m.imports@), str_views(PACKAGES@)) && some_nested(
        m.suite@,
        Descent { classes: true, tries: true, try_tails: true, withs: true },
        |s: Statement| marks_orm_model(s),
    )
}

/// Whether the module defines mapped classes.
pub fn module_is_sqlalchemy_entry(module: &ParsedModule) -> (r: bool)
    ensures
        r == is_sqlalchemy_entry(*module),
{
    has_top_level_import(module, &PACKAGES) && any_nested(
        &module.suite,
        Descent { classes: true, tries: true, try_tails: true, withs: true },
        stmt_marks_orm_model,
        Ghost(|s: Statement| marks_orm_model(s)),
    )
}

/// The modules that SQLAlchemy maps.
pub fn discover(parsed: &FxHashMap<u32, ParsedModule>) -> (r: PluginResult)
    ensures
        reports(r, PLUGIN_NAME@, entries_where(parsed@, |m: ParsedModule| is_sqlalchemy_entry(m))),
{
    discover_each(
        PLUGIN_NAME,
        parsed,
        module_is_sqlalchemy_entry,
        Ghost(|m: ParsedModule| is_sqlalchemy_entry(m)),
    )
}

/// A class that derives from a mapped base, or that names a table or makes a column
/// in its body, makes its module an entry.
pub proof fn mapped_classes_are_entries(m: ParsedModule, c: ClassDef, i: int)
    requires
        imports_any(import_views(m.imports@), str_views(PACKAGES@)),
        nested_in(
            m.suite@,
            Descent { classes: true, tries: true, try_tails: true, withs: true },
        ).contains(Statement::ClassDef(c)),
        (0 <= i < c.bases@.len() && is_one_of(tail_name(c.bases@[i]), str_views(MODEL_BASES@))
            && !(c.bases@[i] is Subscript)) || (0 <= i < c.body@.len() && (c.body@[i] matches
            Statement::Assign { targets, value, .. } && (some_name(targets@, "__tablename__"@) || (
        *value is Call && is_one_of(tail_name(*value), str_views(COLUMN_FACTORIES@)))))),
    ensures
        is_sqlalchemy_entry(m),
{
    let s = Statement::ClassDef(c);
    let all = nested_in(
        m.suite@,
        Descent { classes: true, tries: true, try_tails: true, withs: true },
    );
    let k = choose|k: int| 0 <= k < all.len() && all[k] == s;
    if 0 <= i < c.bases@.len() && is_one_of(tail_name(c.bases@[i]), str_views(MODEL_BASES@))
        && !(c.bases@[i] is Subscript) {
        assert(is_one_of(orm_name(c.bases@[i]), str_views(MODEL_BASES@)));
        assert(some_orm_base(c.bases@));
    } else {
        assert(maps_a_column(c.body@[i]));
        assert(some_column(c.body@));
    }
    assert(marks_orm_model(all[k]));
    assert((|s: Statement| marks_orm_model(s))(all[k]));
}

/// A module that imports nothing of sqlalchemy is not taken for one that it uses.
pub proof fn others_are_no_sqlalchemy_entries(m: ParsedModule)
    requires
        !imports_any(import_views(m.imports@), str_views(PACKAGES@)),
    ensures
        !is_sqlalchemy_entry(m),
{
}

} // verus!
