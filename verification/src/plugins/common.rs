//! What the plugins share.
use crate::ast::{Expression, Statement};
use crate::collections::{
    alias_map_contents, alias_map_new, id_map_get, id_map_keys, id_set_insert, id_set_new,
};
use crate::extract::{
    base_class_tail_in, base_name, callable_tail_in, is_one_of, tail_name, ParsedModule,
};
use crate::path::PathView;
use crate::text::{one_of, str_views};
use crate::types::PluginResult;
use crate::walker::{nested_in, nested_stmts, stmts_in, walk_stmts, Descent};
use rayon::prelude::{IntoParallelRefIterator, ParallelIterator};
use rustc_hash::{FxHashMap, FxHashSet};
use vstd::prelude::*;

verus! {

/// Whether some statement of a list has a property.
pub open spec fn some_stmt(v: Seq<Statement>, p: spec_fn(Statement) -> bool) -> bool {
    exists|i: int| 0 <= i < v.len() && p(#[trigger] v[i])
}

/// Whether some statement of a list, or one inside that a search goes into,
/// has a property.
pub open spec fn some_nested(
    suite: Seq<Statement>,
    d: Descent,
    p: spec_fn(Statement) -> bool,
) -> bool {
    some_stmt(nested_in(suite, d), p)
}

/// Whether [`tail_name`] gives one of `names` for some expression of a list.
pub open spec fn some_tail_in(v: Seq<Expression>, names: Seq<Seq<char>>) -> bool {
    exists|i: int| 0 <= i < v.len() && is_one_of(tail_name(#[trigger] v[i]), names)
}

/// Whether [`base_name`] gives one of `names` for some expression of a list.
pub open spec fn some_base_in(v: Seq<Expression>, names: Seq<Seq<char>>) -> bool {
    exists|i: int| 0 <= i < v.len() && is_one_of(base_name(#[trigger] v[i]), names)
}

/// Whether an expression is a call of one of `names`.
pub open spec fn is_call_of(e: Expression, names: Seq<Seq<char>>) -> bool {
    e is Call && is_one_of(tail_name(e), names)
}

/// Whether a value is there and is a call of one of `names`.
pub open spec fn is_some_call_of(o: Option<Box<Expression>>, names: Seq<Seq<char>>) -> bool {
    o matches Some(e) && is_call_of(*e, names)
}

/// Whether an expression, or what it calls, is an attribute among `names`: a
/// plain name does not count.
pub open spec fn is_attribute_in(e: Expression, names: Seq<Seq<char>>) -> bool {
    match e {
        Expression::Call { func, .. } => *func matches Expression::Attribute { attr, .. }
            && names.contains(attr@),
        Expression::Attribute { attr, .. } => names.contains(attr@),
        _ => false,
    }
}

pub open spec fn some_attribute_in(v: Seq<Expression>, names: Seq<Seq<char>>) -> bool {
    exists|i: int| 0 <= i < v.len() && is_attribute_in(#[trigger] v[i], names)
}

/// The decorators of a function definition.
pub open spec fn decorators(s: Statement) -> Seq<Expression> {
    match s {
        Statement::FunctionDef(f) => f.decorator_list@,
        Statement::AsyncFunctionDef(f) => f.decorator_list@,
        _ => Seq::empty(),
    }
}

/// The base classes of a class definition.
pub open spec fn bases(s: Statement) -> Seq<Expression> {
    match s {
        Statement::ClassDef(c) => c.bases@,
        _ => Seq::empty(),
    }
}

/// Whether a statement assigns the result of a call of one of `names`.
pub open spec fn assigns_call_of(s: Statement, names: Seq<Seq<char>>) -> bool {
    match s {
        Statement::Assign { value, .. } => is_call_of(*value, names),
        Statement::AnnAssign { value, .. } => is_some_call_of(value, names),
        _ => false,
    }
}

/// Whether a statement is a call of one of `names`, or assigns the result of one.
pub open spec fn makes_call_of(s: Statement, names: Seq<Seq<char>>) -> bool {
    match s {
        Statement::Expr { value, .. } => is_call_of(*value, names),
        _ => assigns_call_of(s, names),
    }
}

pub fn any_tail_in(v: &Vec<Expression>, names: &[&str]) -> (r: bool)
    ensures
        r == some_tail_in(v@, str_views(names@)),
{
    let mut i: usize = 0;
    while i < v.len()
        invariant
            i <= v@.len(),
            forall|j: int|
                0 <= j < i ==> !is_one_of(tail_name(#[trigger] v@[j]), str_views(names@)),
        decreases v@.len() - i,
    {
        if callable_tail_in(&v[i], names) {
            return true;
        }
        i += 1;
    }
    false
}

pub fn any_base_in(v: &Vec<Expression>, names: &[&str]) -> (r: bool)
    ensures
        r == some_base_in(v@, str_views(names@)),
{
    let mut i: usize = 0;
    while i < v.len()
        invariant
            i <= v@.len(),
            forall|j: int|
                0 <= j < i ==> !is_one_of(base_name(#[trigger] v@[j]), str_views(names@)),
        decreases v@.len() - i,
    {
        if base_class_tail_in(&v[i], names) {
            return true;
        }
        i += 1;
    }
    false
}

pub fn attribute_in(e: &Expression, names: &[&str]) -> (r: bool)
    ensures
        r == is_attribute_in(*e, str_views(names@)),
{
    match e {
        Expression::Call { func, .. } => match &**func {
            Expression::Attribute { attr, .. } => one_of(attr.as_str(), names),
            _ => false,
        },
        Expression::Attribute { attr, .. } => one_of(attr.as_str(), names),
        _ => false,
    }
}

pub fn any_attribute_in(v: &Vec<Expression>, names: &[&str]) -> (r: bool)
    ensures
        r == some_attribute_in(v@, str_views(names@)),
{
    let mut i: usize = 0;
    while i < v.len()
        invariant
            i <= v@.len(),
            forall|j: int| 0 <= j < i ==> !is_attribute_in(#[trigger] v@[j], str_views(names@)),
        decreases v@.len() - i,
    {
        if attribute_in(&v[i], names) {
            return true;
        }
        i += 1;
    }
    false
}

pub fn call_of(e: &Expression, names: &[&str]) -> (r: bool)
    ensures
        r == is_call_of(*e, str_views(names@)),
{
    match e {
        Expression::Call { .. } => callable_tail_in(e, names),
        _ => false,
    }
}

/// Whether one of the decorators of a function definition is one of `names`.
pub fn decorated_by(s: &Statement, names: &[&str]) -> (r: bool)
    ensures
        r == some_tail_in(decorators(*s), str_views(names@)),
{
    match s {
        Statement::FunctionDef(f) => any_tail_in(&f.decorator_list, names),
        Statement::AsyncFunctionDef(f) => any_tail_in(&f.decorator_list, names),
        _ => false,
    }
}

/// Whether one of the decorators of a function definition is an attribute
/// among `names`.
pub fn decorated_by_attribute(s: &Statement, names: &[&str]) -> (r: bool)
    ensures
        r == some_attribute_in(decorators(*s), str_views(names@)),
{
    match s {
        Statement::FunctionDef(f) => any_attribute_in(&f.decorator_list, names),
        Statement::AsyncFunctionDef(f) => any_attribute_in(&f.decorator_list, names),
        _ => false,
    }
}

/// Whether one of the bases of a class definition is one of `names`.
pub fn derives_from(s: &Statement, names: &[&str]) -> (r: bool)
    ensures
        r == some_base_in(bases(*s), str_views(names@)),
{
    match s {
        Statement::ClassDef(c) => any_base_in(&c.bases, names),
        _ => false,
    }
}

pub fn assigning_call_of(s: &Statement, names: &[&str]) -> (r: bool)
    ensures
        r == assigns_call_of(*s, str_views(names@)),
{
    match s {
        Statement::Assign { value, .. } => call_of(value, names),
        Statement::AnnAssign { value, .. } => match value {
            Some(e) => call_of(e, names),
            None => false,
        },
        _ => false,
    }
}

pub fn making_call_of(s: &Statement, names: &[&str]) -> (r: bool)
    ensures
        r == makes_call_of(*s, str_views(names@)),
{
    match s {
        Statement::Expr { value, .. } => call_of(value, names),
        _ => assigning_call_of(s, names),
    }
}

/// Whether `f` holds of some statement of a list.
pub(crate) fn any_stmt<F: Fn(&Statement) -> bool>(
    v: &Vec<&Statement>,
    f: F,
    Ghost(p): Ghost<spec_fn(Statement) -> bool>,
) -> (r: bool)
    requires
        forall|s: &Statement| call_requires(f, (s,)),
        forall|s: &Statement, b: bool| #[trigger] call_ensures(f, (s,), b) ==> b == p(*s),
    ensures
        r == some_stmt(v@.unref(), p),
{
    let ghost all = v@.unref();
    let mut i: usize = 0;
    while i < v.len()
        invariant
            i <= v@.len(),
            all == v@.unref(),
            forall|s: &Statement| call_requires(f, (s,)),
            forall|s: &Statement, b: bool| #[trigger] call_ensures(f, (s,), b) ==> b == p(*s),
            forall|j: int| 0 <= j < i ==> !p(#[trigger] all[j]),
        decreases v@.len() - i,
    {
        assert(all[i as int] == *v@[i as int]);
        if f(v[i]) {
            assert(p(all[i as int]));
            return true;
        }
        i += 1;
    }
    false
}

/// Whether `f` holds of some statement of a list or one inside that a search
/// goes into.
pub(crate) fn any_nested<F: Fn(&Statement) -> bool>(
    suite: &Vec<Statement>,
    d: Descent,
    f: F,
    Ghost(p): Ghost<spec_fn(Statement) -> bool>,
) -> (r: bool)
    requires
        forall|s: &Statement| call_requires(f, (s,)),
        forall|s: &Statement, b: bool| #[trigger] call_ensures(f, (s,), b) ==> b == p(*s),
    ensures
        r == some_nested(suite@, d, p),
{
    let all = nested_stmts(suite, d);
    any_stmt(&all, f, Ghost(p))
}

/// Whether `f` holds of some statement of a list or of any inside.
pub(crate) fn any_walked<F: Fn(&Statement) -> bool>(
    suite: &Vec<Statement>,
    f: F,
    Ghost(p): Ghost<spec_fn(Statement) -> bool>,
) -> (r: bool)
    requires
        forall|s: &Statement| call_requires(f, (s,)),
        forall|s: &Statement, b: bool| #[trigger] call_ensures(f, (s,), b) ==> b == p(*s),
    ensures
        r == some_stmt(stmts_in(suite@), p),
{
    let all = walk_stmts(suite);
    any_stmt(&all, f, Ghost(p))
}

/// The modules that have a property.
pub open spec fn entries_where(
    parsed: Map<u32, ParsedModule>,
    p: spec_fn(ParsedModule) -> bool,
) -> Set<u32> {
    Set::new(|id: u32| parsed.contains_key(id) && p(parsed[id]))
}

/// Whether a plugin reports exactly the given entry points and nothing else.
pub open spec fn reports(r: PluginResult, name: Seq<char>, entries: Set<u32>) -> bool {
    &&& r.plugin_name@ == name
    &&& r.entry_files@ == entries
    &&& r.entry_patterns@.len() == 0
    &&& r.used_symbols@.len() == 0
    &&& r.implicit_dependencies@.len() == 0
    &&& alias_map_contents(r.path_aliases) == Map::<Seq<char>, PathView>::empty()
    &&& r.excluded_files@ == Set::<u32>::empty()
}

/// `rayon`'s `par_iter`, `filter_map` and `collect`: `f` is asked about each
/// module once, on any thread, and the ids of those for which it says yes are
/// collected.
#[verifier::external_body]
fn select_parallel<F: Fn(&ParsedModule) -> bool + Sync + Send>(
    parsed: &FxHashMap<u32, ParsedModule>,
    f: F,
) -> (r: FxHashSet<u32>)
    requires
        forall|m: &ParsedModule| call_requires(f, (m,)),
    ensures
        forall|id: u32| #[trigger]
            r@.contains(id) ==> parsed@.contains_key(id) && call_ensures(
                f,
                (&parsed@[id],),
                true,
            ),
        forall|id: u32|
            parsed@.contains_key(id) && !#[trigger] r@.contains(id) ==> call_ensures(
                f,
                (&parsed@[id],),
                false,
            ),
{
    parsed.par_iter().filter_map(|(id, module)| f(module).then_some(*id)).collect()
}

/// The result of a plugin that asks `f` about each module, on many threads.
pub(crate) fn discover_parallel<F: Fn(&ParsedModule) -> bool + Sync + Send>(
    name: &str,
    parsed: &FxHashMap<u32, ParsedModule>,
    f: F,
    Ghost(p): Ghost<spec_fn(ParsedModule) -> bool>,
) -> (r: PluginResult)
    requires
        forall|m: &ParsedModule| call_requires(f, (m,)),
        forall|m: &ParsedModule, b: bool| #[trigger] call_ensures(f, (m,), b) ==> b == p(*m),
    ensures
        reports(r, name@, entries_where(parsed@, p)),
{
    let entry_files = select_parallel(parsed, f);
    assert(entry_files@ =~= entries_where(parsed@, p));
    result_of(name, entry_files)
}

/// The result of a plugin that asks `f` about each module.
pub(crate) fn discover_each<F: Fn(&ParsedModule) -> bool>(
    name: &str,
    parsed: &FxHashMap<u32, ParsedModule>,
    f: F,
    Ghost(p): Ghost<spec_fn(ParsedModule) -> bool>,
) -> (r: PluginResult)
    requires
        forall|m: &ParsedModule| call_requires(f, (m,)),
        forall|m: &ParsedModule, b: bool| #[trigger] call_ensures(f, (m,), b) ==> b == p(*m),
    ensures
        reports(r, name@, entries_where(parsed@, p)),
{
    let keys = id_map_keys(parsed);
    let mut entry_files = id_set_new();
    let mut i: usize = 0;
    while i < keys.len()
        invariant
            i <= keys@.len(),
            forall|k: u32| keys@.contains(k) <==> parsed@.contains_key(k),
            forall|m: &ParsedModule| call_requires(f, (m,)),
            forall|m: &ParsedModule, b: bool| #[trigger] call_ensures(f, (m,), b) ==> b == p(*m),
            forall|id: u32|
                entry_files@.contains(id) <==> keys@.take(i as int).contains(id) && p(parsed@[id]),
        decreases keys@.len() - i,
    {
        let id: u32 = keys[i];
        let ghost before = entry_files@;
        proof {
            assert(keys@.contains(id));
            assert(keys@.take(i + 1) =~= keys@.take(i as int).push(id));
        }
        if let Some(module) = id_map_get(parsed, id) {
            if f(module) {
                id_set_insert(&mut entry_files, id);
            }
        }
        proof {
            assert forall|x: u32|
                entry_files@.contains(x) <==> keys@.take(i + 1).contains(x) && p(parsed@[x]) by {
                crate::types::lemma_contains_push(keys@.take(i as int), id, x);
            }
        }
        i += 1;
    }
    proof {
        assert(keys@.take(i as int) =~= keys@);
        assert(entry_files@ =~= entries_where(parsed@, p));
    }
    result_of(name, entry_files)
}

/// A result with entry points only.
pub fn result_of(name: &str, entry_files: FxHashSet<u32>) -> (r: PluginResult)
    ensures
        reports(r, name@, entry_files@),
{
    PluginResult {
        plugin_name: name.to_owned(),
        entry_files,
        entry_patterns: Vec::new(),
        used_symbols: Vec::new(),
        implicit_dependencies: Vec::new(),
        path_aliases: alias_map_new(),
        excluded_files: id_set_new(),
    }
}

} // verus!
