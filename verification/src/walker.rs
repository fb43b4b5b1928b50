//! Walks over syntax trees: which statements and expressions they hold, in
//! the order in which the analyses look at them.
use crate::ast::{
    Param, Params, CompClause, Handler, Expression, KeywordArg, CaseBlock, MatchPattern, Statement,
    TypeBound, WithContext,
};
use vstd::prelude::*;

verus! {

/// The statements inside `s`, at any depth, each before those inside it.
pub open spec fn stmts_below(s: Statement) -> Seq<Statement>
    decreases s,
{
    match s {
        Statement::FunctionDef(f) => stmts_in(f.body@),
        Statement::AsyncFunctionDef(f) => stmts_in(f.body@),
        Statement::ClassDef(c) => stmts_in(c.body@),
        Statement::If(b) => stmts_in(b.body@) + stmts_in(b.orelse@),
        Statement::While(b) => stmts_in(b.body@) + stmts_in(b.orelse@),
        Statement::For(b) => stmts_in(b.body@) + stmts_in(b.orelse@),
        Statement::AsyncFor(b) => stmts_in(b.body@) + stmts_in(b.orelse@),
        Statement::Try(t) => stmts_in(t.body@) + stmts_in_handlers(t.handlers@) + stmts_in(t.orelse@)
            + stmts_in(t.finalbody@),
        Statement::TryStar(t) => stmts_in(t.body@) + stmts_in_handlers(t.handlers@) + stmts_in(t.orelse@)
            + stmts_in(t.finalbody@),
        Statement::With(w) => stmts_in(w.body@),
        Statement::AsyncWith(w) => stmts_in(w.body@),
        Statement::Match { cases, .. } => stmts_in_cases(cases@),
        _ => Seq::empty(),
    }
}

/// The statements of a list and all inside them, each before those inside it.
pub open spec fn stmts_in(v: Seq<Statement>) -> Seq<Statement>
    decreases v,
{
    if v.len() == 0 {
        Seq::empty()
    } else {
        stmts_in(v.drop_last()).push(v.last()) + stmts_below(v.last())
    }
}

pub open spec fn stmts_in_handlers(v: Seq<Handler>) -> Seq<Statement>
    decreases v,
{
    if v.len() == 0 {
        Seq::empty()
    } else {
        stmts_in_handlers(v.drop_last()) + stmts_in(v.last().body@)
    }
}

pub open spec fn stmts_in_cases(v: Seq<CaseBlock>) -> Seq<Statement>
    decreases v,
{
    if v.len() == 0 {
        Seq::empty()
    } else {
        stmts_in_cases(v.drop_last()) + stmts_in(v.last().body@)
    }
}

/// `e` and the expressions inside it that are evaluated where it stands, each
/// before those inside it. The parameters of a `lambda` are left out.
pub open spec fn expr_walk(e: Expression) -> Seq<Expression>
    decreases e,
{
    seq![e] + match e {
        Expression::BoolOp { values } => exprs_in(values@),
        Expression::NamedExpr { target, value } => expr_walk(*target) + expr_walk(*value),
        Expression::BinOp { left, right } => expr_walk(*left) + expr_walk(*right),
        Expression::UnaryOp { operand } => expr_walk(*operand),
        Expression::Lambda { body } => expr_walk(*body),
        Expression::IfExp { test, body, orelse } => expr_walk(*test) + expr_walk(*body) + expr_walk(
            *orelse,
        ),
        Expression::Dict { keys, values } => exprs_in_keys(keys@) + exprs_in(values@),
        Expression::SetDisplay { elts } => exprs_in(elts@),
        Expression::ListComp(c) => expr_walk(*c.elt) + exprs_in_comprehensions(c.generators@),
        Expression::SetComp(c) => expr_walk(*c.elt) + exprs_in_comprehensions(c.generators@),
        Expression::DictComp { key, value, generators } => expr_walk(*key) + expr_walk(*value)
            + exprs_in_comprehensions(generators@),
        Expression::GeneratorExp(c) => expr_walk(*c.elt) + exprs_in_comprehensions(c.generators@),
        Expression::Await { value } => expr_walk(*value),
        Expression::Yield { value } => exprs_in_option(value),
        Expression::YieldFrom { value } => expr_walk(*value),
        Expression::Compare { left, comparators, .. } => expr_walk(*left) + exprs_in(comparators@),
        Expression::Call { func, args, keywords } => expr_walk(*func) + exprs_in(args@)
            + exprs_in_keywords(keywords@),
        Expression::FormattedValue { value } => expr_walk(*value),
        Expression::JoinedStr { values } => exprs_in(values@),
        Expression::Constant { .. } => Seq::empty(),
        Expression::Attribute { value, .. } => expr_walk(*value),
        Expression::Subscript { value, slice } => expr_walk(*value) + expr_walk(*slice),
        Expression::Starred { value } => expr_walk(*value),
        Expression::Name { .. } => Seq::empty(),
        Expression::List { elts } => exprs_in(elts@),
        Expression::Tuple { elts } => exprs_in(elts@),
        Expression::Slice { lower, upper, step } => exprs_in_option(lower) + exprs_in_option(upper)
            + exprs_in_option(step),
    }
}

/// The expressions of a list and all inside them.
pub open spec fn exprs_in(v: Seq<Expression>) -> Seq<Expression>
    decreases v,
{
    if v.len() == 0 {
        Seq::empty()
    } else {
        exprs_in(v.drop_last()) + expr_walk(v.last())
    }
}

pub open spec fn exprs_in_option(o: Option<Box<Expression>>) -> Seq<Expression>
    decreases o,
{
    match o {
        Some(e) => expr_walk(*e),
        None => Seq::empty(),
    }
}

pub open spec fn exprs_in_keys(v: Seq<Option<Expression>>) -> Seq<Expression>
    decreases v,
{
    if v.len() == 0 {
        Seq::empty()
    } else {
        exprs_in_keys(v.drop_last()) + match v.last() {
            Some(e) => expr_walk(e),
            None => Seq::empty(),
        }
    }
}

pub open spec fn exprs_in_keywords(v: Seq<KeywordArg>) -> Seq<Expression>
    decreases v,
{
    if v.len() == 0 {
        Seq::empty()
    } else {
        exprs_in_keywords(v.drop_last()) + expr_walk(v.last().value)
    }
}

/// What `for target in iter if ..` clauses hold; the source of the values
/// comes before the names that they are bound to.
pub open spec fn exprs_in_comprehensions(v: Seq<CompClause>) -> Seq<Expression>
    decreases v,
{
    if v.len() == 0 {
        Seq::empty()
    } else {
        let c = v.last();
        exprs_in_comprehensions(v.drop_last()) + expr_walk(c.iter) + expr_walk(c.target) + exprs_in(
            c.ifs@,
        )
    }
}

/// What a `match` pattern refers to. Names that it binds are not among this.
pub open spec fn pattern_exprs(p: MatchPattern) -> Seq<Expression>
    decreases p,
{
    match p {
        MatchPattern::MatchValue { value } => expr_walk(*value),
        MatchPattern::MatchSingleton => Seq::empty(),
        MatchPattern::MatchSequence { patterns } => exprs_in_patterns(patterns@),
        MatchPattern::MatchMapping { keys, patterns } => exprs_in(keys@) + exprs_in_patterns(patterns@),
        MatchPattern::MatchClass { cls, patterns, kwd_patterns } => expr_walk(*cls) + exprs_in_patterns(
            patterns@,
        ) + exprs_in_patterns(kwd_patterns@),
        MatchPattern::MatchStar => Seq::empty(),
        MatchPattern::MatchAs { pattern } => match pattern {
            Some(inner) => pattern_exprs(*inner),
            None => Seq::empty(),
        },
        MatchPattern::MatchOr { patterns } => exprs_in_patterns(patterns@),
    }
}

pub open spec fn exprs_in_patterns(v: Seq<MatchPattern>) -> Seq<Expression>
    decreases v,
{
    if v.len() == 0 {
        Seq::empty()
    } else {
        exprs_in_patterns(v.drop_last()) + pattern_exprs(v.last())
    }
}

/// The annotations and defaults of a list of parameters.
pub open spec fn exprs_in_args(v: Seq<Param>) -> Seq<Expression>
    decreases v,
{
    if v.len() == 0 {
        Seq::empty()
    } else {
        exprs_in_args(v.drop_last()) + exprs_in_option(v.last().annotation) + exprs_in_option(
            v.last().default,
        )
    }
}

/// The annotations of a list of parameters.
pub open spec fn annotations_in_args(v: Seq<Param>) -> Seq<Expression>
    decreases v,
{
    if v.len() == 0 {
        Seq::empty()
    } else {
        annotations_in_args(v.drop_last()) + exprs_in_option(v.last().annotation)
    }
}

pub open spec fn exprs_in_arguments(a: Params) -> Seq<Expression> {
    exprs_in_args(a.posonlyargs@) + exprs_in_args(a.args@) + exprs_in_args(a.kwonlyargs@)
        + exprs_in_option(a.vararg) + exprs_in_option(a.kwarg)
}

pub open spec fn annotations_in_arguments(a: Params) -> Seq<Expression> {
    annotations_in_args(a.posonlyargs@) + annotations_in_args(a.args@) + annotations_in_args(
        a.kwonlyargs@,
    ) + exprs_in_option(a.vararg) + exprs_in_option(a.kwarg)
}

pub open spec fn exprs_in_items(v: Seq<WithContext>) -> Seq<Expression>
    decreases v,
{
    if v.len() == 0 {
        Seq::empty()
    } else {
        exprs_in_items(v.drop_last()) + expr_walk(v.last().context_expr) + exprs_in_option(
            v.last().optional_vars,
        )
    }
}

/// The exception types of a list of handlers.
pub open spec fn types_in_handlers(v: Seq<Handler>) -> Seq<Expression>
    decreases v,
{
    if v.len() == 0 {
        Seq::empty()
    } else {
        types_in_handlers(v.drop_last()) + exprs_in_option(v.last().type_)
    }
}

pub open spec fn bounds_in_params(v: Seq<TypeBound>) -> Seq<Expression>
    decreases v,
{
    if v.len() == 0 {
        Seq::empty()
    } else {
        bounds_in_params(v.drop_last()) + exprs_in_option(v.last().bound)
    }
}

/// The patterns and guards of a list of `match` cases.
pub open spec fn exprs_in_cases(v: Seq<CaseBlock>) -> Seq<Expression>
    decreases v,
{
    if v.len() == 0 {
        Seq::empty()
    } else {
        exprs_in_cases(v.drop_last()) + pattern_exprs(v.last().pattern) + exprs_in_option(
            v.last().guard,
        )
    }
}

/// The expressions that belong to a statement itself, not to the statements
/// inside it.
pub open spec fn stmt_exprs(s: Statement) -> Seq<Expression> {
    match s {
        Statement::Expr { value, .. } => expr_walk(*value),
        Statement::Assign { targets, value, .. } => exprs_in(targets@) + expr_walk(*value),
        Statement::AnnAssign { target, annotation, value, .. } => expr_walk(*target) + expr_walk(
            *annotation,
        ) + exprs_in_option(value),
        Statement::AugAssign { target, value, .. } => expr_walk(*target) + expr_walk(*value),
        Statement::Return { value, .. } => exprs_in_option(value),
        Statement::If(b) => expr_walk(*b.test),
        Statement::While(b) => expr_walk(*b.test),
        Statement::For(l) => expr_walk(*l.iter) + expr_walk(*l.target),
        Statement::AsyncFor(l) => expr_walk(*l.iter) + expr_walk(*l.target),
        Statement::Raise { exc, cause, .. } => exprs_in_option(exc) + exprs_in_option(cause),
        Statement::Assert { test, msg, .. } => expr_walk(*test) + exprs_in_option(msg),
        Statement::FunctionDef(f) => exprs_in(f.decorator_list@) + exprs_in_arguments(f.args)
            + exprs_in_option(f.return_type),
        Statement::AsyncFunctionDef(f) => exprs_in(f.decorator_list@) + exprs_in_arguments(f.args)
            + exprs_in_option(f.return_type),
        Statement::ClassDef(c) => exprs_in(c.decorator_list@) + exprs_in(c.bases@) + exprs_in_keywords(
            c.keywords@,
        ),
        Statement::With(w) => exprs_in_items(w.items@),
        Statement::AsyncWith(w) => exprs_in_items(w.items@),
        Statement::Try(t) => types_in_handlers(t.handlers@),
        Statement::TryStar(t) => types_in_handlers(t.handlers@),
        Statement::TypeAlias { type_params, value, .. } => expr_walk(*value) + bounds_in_params(
            type_params@,
        ),
        Statement::Match { subject, cases, .. } => expr_walk(*subject) + exprs_in_cases(cases@),
        Statement::Delete { targets, .. } => exprs_in(targets@),
        _ => Seq::empty(),
    }
}

/// The annotations of a statement, with all inside them.
pub open spec fn stmt_annotations(s: Statement) -> Seq<Expression> {
    match s {
        Statement::AnnAssign { annotation, .. } => expr_walk(*annotation),
        Statement::FunctionDef(f) => annotations_in_arguments(f.args) + exprs_in_option(f.return_type),
        Statement::AsyncFunctionDef(f) => annotations_in_arguments(f.args) + exprs_in_option(f.return_type),
        _ => Seq::empty(),
    }
}

/// The expressions of each statement of a list, one statement after the other.
pub open spec fn exprs_of_each(v: Seq<Statement>) -> Seq<Expression>
    decreases v.len(),
{
    if v.len() == 0 {
        Seq::empty()
    } else {
        exprs_of_each(v.drop_last()) + stmt_exprs(v.last())
    }
}

/// The annotations of each statement of a list, one statement after the other.
pub open spec fn annotations_of_each(v: Seq<Statement>) -> Seq<Expression>
    decreases v.len(),
{
    if v.len() == 0 {
        Seq::empty()
    } else {
        annotations_of_each(v.drop_last()) + stmt_annotations(v.last())
    }
}

/// The statements of a list and all inside them, each before those inside it.
pub fn walk_stmts(stmts: &Vec<Statement>) -> (out: Vec<&Statement>)
    ensures
        out@.unref() == stmts_in(stmts@),
{
    let mut out: Vec<&Statement> = Vec::new();
    push_stmts(stmts, &mut out);
    assert(out@.unref() =~= stmts_in(stmts@));
    out
}

fn push_stmts<'a>(v: &'a Vec<Statement>, out: &mut Vec<&'a Statement>)
    ensures
        final(out)@.unref() == old(out)@.unref() + stmts_in(v@),
    decreases v,
{
    let mut i: usize = 0;
    assert(v@.take(0) =~= Seq::empty());
    assert(out@.unref() =~= old(out)@.unref() + stmts_in(v@.take(0)));
    while i < v.len()
        invariant
            i <= v@.len(),
            out@.unref() == old(out)@.unref() + stmts_in(v@.take(i as int)),
        decreases v@.len() - i,
    {
        let x = &v[i];
        assert(v@.take(i + 1).drop_last() =~= v@.take(i as int));
        assert(v@.take(i + 1).last() == x);
        let ghost before = out@.unref();
        out.push(x);
        assert(out@.unref() =~= before.push(*x));
        push_below(x, out);
        i += 1;
        assert(out@.unref() =~= old(out)@.unref() + stmts_in(v@.take(i as int)));
    }
    assert(v@.take(i as int) =~= v@);
}

fn push_below<'a>(s: &'a Statement, out: &mut Vec<&'a Statement>)
    ensures
        final(out)@.unref() == old(out)@.unref() + stmts_below(*s),
    decreases s,
{
    match s {
        Statement::FunctionDef(f) => push_stmts(&f.body, out),
        Statement::AsyncFunctionDef(f) => push_stmts(&f.body, out),
        Statement::ClassDef(c) => push_stmts(&c.body, out),
        Statement::If(b) => {
            push_stmts(&b.body, out);
            push_stmts(&b.orelse, out);
        },
        Statement::While(b) => {
            push_stmts(&b.body, out);
            push_stmts(&b.orelse, out);
        },
        Statement::For(b) => {
            push_stmts(&b.body, out);
            push_stmts(&b.orelse, out);
        },
        Statement::AsyncFor(b) => {
            push_stmts(&b.body, out);
            push_stmts(&b.orelse, out);
        },
        Statement::Try(t) => {
            push_stmts(&t.body, out);
            push_handler_stmts(&t.handlers, out);
            push_stmts(&t.orelse, out);
            push_stmts(&t.finalbody, out);
        },
        Statement::TryStar(t) => {
            push_stmts(&t.body, out);
            push_handler_stmts(&t.handlers, out);
            push_stmts(&t.orelse, out);
            push_stmts(&t.finalbody, out);
        },
        Statement::With(w) => push_stmts(&w.body, out),
        Statement::AsyncWith(w) => push_stmts(&w.body, out),
        Statement::Match { cases, .. } => push_case_stmts(cases, out),
        _ => {},
    }
    assert(out@.unref() =~= old(out)@.unref() + stmts_below(*s));
}

fn push_handler_stmts<'a>(v: &'a Vec<Handler>, out: &mut Vec<&'a Statement>)
    ensures
        final(out)@.unref() == old(out)@.unref() + stmts_in_handlers(v@),
    decreases v,
{
    let mut i: usize = 0;
    assert(v@.take(0) =~= Seq::empty());
    assert(out@.unref() =~= old(out)@.unref() + stmts_in_handlers(v@.take(0)));
    while i < v.len()
        invariant
            i <= v@.len(),
            out@.unref() == old(out)@.unref() + stmts_in_handlers(v@.take(i as int)),
        decreases v@.len() - i,
    {
        let x = &v[i];
        assert(v@.take(i + 1).drop_last() =~= v@.take(i as int));
        assert(v@.take(i + 1).last() == x);
        push_stmts(&x.body, out);
        i += 1;
        assert(out@.unref() =~= old(out)@.unref() + stmts_in_handlers(v@.take(i as int)));
    }
    assert(v@.take(i as int) =~= v@);
}

fn push_case_stmts<'a>(v: &'a Vec<CaseBlock>, out: &mut Vec<&'a Statement>)
    ensures
        final(out)@.unref() == old(out)@.unref() + stmts_in_cases(v@),
    decreases v,
{
    let mut i: usize = 0;
    assert(v@.take(0) =~= Seq::empty());
    assert(out@.unref() =~= old(out)@.unref() + stmts_in_cases(v@.take(0)));
    while i < v.len()
        invariant
            i <= v@.len(),
            out@.unref() == old(out)@.unref() + stmts_in_cases(v@.take(i as int)),
        decreases v@.len() - i,
    {
        let x = &v[i];
        assert(v@.take(i + 1).drop_last() =~= v@.take(i as int));
        assert(v@.take(i + 1).last() == x);
        push_stmts(&x.body, out);
        i += 1;
        assert(out@.unref() =~= old(out)@.unref() + stmts_in_cases(v@.take(i as int)));
    }
    assert(v@.take(i as int) =~= v@);
}

fn walk_expr<'a>(e: &'a Expression, out: &mut Vec<&'a Expression>)
    ensures
        final(out)@.unref() == old(out)@.unref() + expr_walk(*e),
    decreases e,
{
    let ghost before = out@.unref();
    out.push(e);
    assert(out@.unref() =~= before.push(*e));
    match e {
        Expression::BoolOp { values } => push_exprs(values, out),
        Expression::NamedExpr { target, value } => {
            walk_expr(target, out);
            walk_expr(value, out);
        },
        Expression::BinOp { left, right } => {
            walk_expr(left, out);
            walk_expr(right, out);
        },
        Expression::UnaryOp { operand } => walk_expr(operand, out),
        Expression::Lambda { body } => walk_expr(body, out),
        Expression::IfExp { test, body, orelse } => {
            walk_expr(test, out);
            walk_expr(body, out);
            walk_expr(orelse, out);
        },
        Expression::Dict { keys, values } => {
            push_keys(keys, out);
            push_exprs(values, out);
        },
        Expression::SetDisplay { elts } => push_exprs(elts, out),
        Expression::ListComp(c) => {
            walk_expr(&c.elt, out);
            walk_comprehensions(&c.generators, out);
        },
        Expression::SetComp(c) => {
            walk_expr(&c.elt, out);
            walk_comprehensions(&c.generators, out);
        },
        Expression::DictComp { key, value, generators } => {
            walk_expr(key, out);
            walk_expr(value, out);
            walk_comprehensions(generators, out);
        },
        Expression::GeneratorExp(c) => {
            walk_expr(&c.elt, out);
            walk_comprehensions(&c.generators, out);
        },
        Expression::Await { value } => walk_expr(value, out),
        Expression::Yield { value } => push_option(value, out),
        Expression::YieldFrom { value } => walk_expr(value, out),
        Expression::Compare { left, comparators, .. } => {
            walk_expr(left, out);
            push_exprs(comparators, out);
        },
        Expression::Call { func, args, keywords } => {
            walk_expr(func, out);
            push_exprs(args, out);
            push_keywords(keywords, out);
        },
        Expression::FormattedValue { value } => walk_expr(value, out),
        Expression::JoinedStr { values } => push_exprs(values, out),
        Expression::Constant { .. } => {},
        Expression::Attribute { value, .. } => walk_expr(value, out),
        Expression::Subscript { value, slice } => {
            walk_expr(value, out);
            walk_expr(slice, out);
        },
        Expression::Starred { value } => walk_expr(value, out),
        Expression::Name { .. } => {},
        Expression::List { elts } => push_exprs(elts, out),
        Expression::Tuple { elts } => push_exprs(elts, out),
        Expression::Slice { lower, upper, step } => {
            push_option(lower, out);
            push_option(upper, out);
            push_option(step, out);
        },
    }
    assert(out@.unref() =~= old(out)@.unref() + expr_walk(*e));
}

fn push_exprs<'a>(v: &'a Vec<Expression>, out: &mut Vec<&'a Expression>)
    ensures
        final(out)@.unref() == old(out)@.unref() + exprs_in(v@),
    decreases v,
{
    let mut i: usize = 0;
    assert(v@.take(0) =~= Seq::empty());
    assert(out@.unref() =~= old(out)@.unref() + exprs_in(v@.take(0)));
    while i < v.len()
        invariant
            i <= v@.len(),
            out@.unref() == old(out)@.unref() + exprs_in(v@.take(i as int)),
        decreases v@.len() - i,
    {
        let x = &v[i];
        assert(v@.take(i + 1).drop_last() =~= v@.take(i as int));
        assert(v@.take(i + 1).last() == x);
        walk_expr(x, out);
        i += 1;
        assert(out@.unref() =~= old(out)@.unref() + exprs_in(v@.take(i as int)));
    }
    assert(v@.take(i as int) =~= v@);
}

fn push_option<'a>(o: &'a Option<Box<Expression>>, out: &mut Vec<&'a Expression>)
    ensures
        final(out)@.unref() == old(out)@.unref() + exprs_in_option(*o),
    decreases o,
{
    match o {
        Some(e) => walk_expr(e, out),
        None => {
            assert(out@.unref() =~= old(out)@.unref() + exprs_in_option(*o));
        },
    }
}

fn push_keys<'a>(v: &'a Vec<Option<Expression>>, out: &mut Vec<&'a Expression>)
    ensures
        final(out)@.unref() == old(out)@.unref() + exprs_in_keys(v@),
    decreases v,
{
    let mut i: usize = 0;
    assert(v@.take(0) =~= Seq::empty());
    assert(out@.unref() =~= old(out)@.unref() + exprs_in_keys(v@.take(0)));
    while i < v.len()
        invariant
            i <= v@.len(),
            out@.unref() == old(out)@.unref() + exprs_in_keys(v@.take(i as int)),
        decreases v@.len() - i,
    {
        let x = &v[i];
        assert(v@.take(i + 1).drop_last() =~= v@.take(i as int));
        assert(v@.take(i + 1).last() == x);
        match x {
            Some(e) => walk_expr(e, out),
            None => {},
        }
        i += 1;
        assert(out@.unref() =~= old(out)@.unref() + exprs_in_keys(v@.take(i as int)));
    }
    assert(v@.take(i as int) =~= v@);
}

fn push_keywords<'a>(v: &'a Vec<KeywordArg>, out: &mut Vec<&'a Expression>)
    ensures
        final(out)@.unref() == old(out)@.unref() + exprs_in_keywords(v@),
    decreases v,
{
    let mut i: usize = 0;
    assert(v@.take(0) =~= Seq::empty());
    assert(out@.unref() =~= old(out)@.unref() + exprs_in_keywords(v@.take(0)));
    while i < v.len()
        invariant
            i <= v@.len(),
            out@.unref() == old(out)@.unref() + exprs_in_keywords(v@.take(i as int)),
        decreases v@.len() - i,
    {
        let x = &v[i];
        assert(v@.take(i + 1).drop_last() =~= v@.take(i as int));
        assert(v@.take(i + 1).last() == x);
        walk_expr(&x.value, out);
        i += 1;
        assert(out@.unref() =~= old(out)@.unref() + exprs_in_keywords(v@.take(i as int)));
    }
    assert(v@.take(i as int) =~= v@);
}

fn walk_comprehensions<'a>(v: &'a Vec<CompClause>, out: &mut Vec<&'a Expression>)
    ensures
        final(out)@.unref() == old(out)@.unref() + exprs_in_comprehensions(v@),
    decreases v,
{
    let mut i: usize = 0;
    assert(v@.take(0) =~= Seq::empty());
    assert(out@.unref() =~= old(out)@.unref() + exprs_in_comprehensions(v@.take(0)));
    while i < v.len()
        invariant
            i <= v@.len(),
            out@.unref() == old(out)@.unref() + exprs_in_comprehensions(v@.take(i as int)),
        decreases v@.len() - i,
    {
        let x = &v[i];
        assert(v@.take(i + 1).drop_last() =~= v@.take(i as int));
        assert(v@.take(i + 1).last() == x);
        walk_expr(&x.iter, out);
        walk_expr(&x.target, out);
        push_exprs(&x.ifs, out);
        i += 1;
        assert(out@.unref() =~= old(out)@.unref() + exprs_in_comprehensions(v@.take(i as int)));
    }
    assert(v@.take(i as int) =~= v@);
}

fn walk_pattern<'a>(p: &'a MatchPattern, out: &mut Vec<&'a Expression>)
    ensures
        final(out)@.unref() == old(out)@.unref() + pattern_exprs(*p),
    decreases p,
{
    match p {
        MatchPattern::MatchValue { value } => walk_expr(value, out),
        MatchPattern::MatchSingleton => {},
        MatchPattern::MatchSequence { patterns } => push_patterns(patterns, out),
        MatchPattern::MatchMapping { keys, patterns } => {
            push_exprs(keys, out);
            push_patterns(patterns, out);
        },
        MatchPattern::MatchClass { cls, patterns, kwd_patterns } => {
            walk_expr(cls, out);
            push_patterns(patterns, out);
            push_patterns(kwd_patterns, out);
        },
        MatchPattern::MatchStar => {},
        MatchPattern::MatchAs { pattern } => match pattern {
            Some(inner) => walk_pattern(inner, out),
            None => {},
        },
        MatchPattern::MatchOr { patterns } => push_patterns(patterns, out),
    }
    assert(out@.unref() =~= old(out)@.unref() + pattern_exprs(*p));
}

fn push_patterns<'a>(v: &'a Vec<MatchPattern>, out: &mut Vec<&'a Expression>)
    ensures
        final(out)@.unref() == old(out)@.unref() + exprs_in_patterns(v@),
    decreases v,
{
    let mut i: usize = 0;
    assert(v@.take(0) =~= Seq::empty());
    assert(out@.unref() =~= old(out)@.unref() + exprs_in_patterns(v@.take(0)));
    while i < v.len()
        invariant
            i <= v@.len(),
            out@.unref() == old(out)@.unref() + exprs_in_patterns(v@.take(i as int)),
        decreases v@.len() - i,
    {
        let x = &v[i];
        assert(v@.take(i + 1).drop_last() =~= v@.take(i as int));
        assert(v@.take(i + 1).last() == x);
        walk_pattern(x, out);
        i += 1;
        assert(out@.unref() =~= old(out)@.unref() + exprs_in_patterns(v@.take(i as int)));
    }
    assert(v@.take(i as int) =~= v@);
}

fn push_args<'a>(v: &'a Vec<Param>, out: &mut Vec<&'a Expression>)
    ensures
        final(out)@.unref() == old(out)@.unref() + exprs_in_args(v@),
    decreases v,
{
    let mut i: usize = 0;
    assert(v@.take(0) =~= Seq::empty());
    assert(out@.unref() =~= old(out)@.unref() + exprs_in_args(v@.take(0)));
    while i < v.len()
        invariant
            i <= v@.len(),
            out@.unref() == old(out)@.unref() + exprs_in_args(v@.take(i as int)),
        decreases v@.len() - i,
    {
        let x = &v[i];
        assert(v@.take(i + 1).drop_last() =~= v@.take(i as int));
        assert(v@.take(i + 1).last() == x);
        push_option(&x.annotation, out);
        push_option(&x.default, out);
        i += 1;
        assert(out@.unref() =~= old(out)@.unref() + exprs_in_args(v@.take(i as int)));
    }
    assert(v@.take(i as int) =~= v@);
}

fn push_arg_annotations<'a>(v: &'a Vec<Param>, out: &mut Vec<&'a Expression>)
    ensures
        final(out)@.unref() == old(out)@.unref() + annotations_in_args(v@),
    decreases v,
{
    let mut i: usize = 0;
    assert(v@.take(0) =~= Seq::empty());
    assert(out@.unref() =~= old(out)@.unref() + annotations_in_args(v@.take(0)));
    while i < v.len()
        invariant
            i <= v@.len(),
            out@.unref() == old(out)@.unref() + annotations_in_args(v@.take(i as int)),
        decreases v@.len() - i,
    {
        let x = &v[i];
        assert(v@.take(i + 1).drop_last() =~= v@.take(i as int));
        assert(v@.take(i + 1).last() == x);
        push_option(&x.annotation, out);
        i += 1;
        assert(out@.unref() =~= old(out)@.unref() + annotations_in_args(v@.take(i as int)));
    }
    assert(v@.take(i as int) =~= v@);
}

fn walk_arguments<'a>(a: &'a Params, out: &mut Vec<&'a Expression>)
    ensures
        final(out)@.unref() == old(out)@.unref() + exprs_in_arguments(*a),
{
    push_args(&a.posonlyargs, out);
    push_args(&a.args, out);
    push_args(&a.kwonlyargs, out);
    push_option(&a.vararg, out);
    push_option(&a.kwarg, out);
    assert(out@.unref() =~= old(out)@.unref() + exprs_in_arguments(*a));
}

fn visit_arg_annotations<'a>(a: &'a Params, out: &mut Vec<&'a Expression>)
    ensures
        final(out)@.unref() == old(out)@.unref() + annotations_in_arguments(*a),
{
    push_arg_annotations(&a.posonlyargs, out);
    push_arg_annotations(&a.args, out);
    push_arg_annotations(&a.kwonlyargs, out);
    push_option(&a.vararg, out);
    push_option(&a.kwarg, out);
    assert(out@.unref() =~= old(out)@.unref() + annotations_in_arguments(*a));
}

fn push_items<'a>(v: &'a Vec<WithContext>, out: &mut Vec<&'a Expression>)
    ensures
        final(out)@.unref() == old(out)@.unref() + exprs_in_items(v@),
    decreases v,
{
    let mut i: usize = 0;
    assert(v@.take(0) =~= Seq::empty());
    assert(out@.unref() =~= old(out)@.unref() + exprs_in_items(v@.take(0)));
    while i < v.len()
        invariant
            i <= v@.len(),
            out@.unref() == old(out)@.unref() + exprs_in_items(v@.take(i as int)),
        decreases v@.len() - i,
    {
        let x = &v[i];
        assert(v@.take(i + 1).drop_last() =~= v@.take(i as int));
        assert(v@.take(i + 1).last() == x);
        walk_expr(&x.context_expr, out);
        push_option(&x.optional_vars, out);
        i += 1;
        assert(out@.unref() =~= old(out)@.unref() + exprs_in_items(v@.take(i as int)));
    }
    assert(v@.take(i as int) =~= v@);
}

fn push_handler_types<'a>(v: &'a Vec<Handler>, out: &mut Vec<&'a Expression>)
    ensures
        final(out)@.unref() == old(out)@.unref() + types_in_handlers(v@),
    decreases v,
{
    let mut i: usize = 0;
    assert(v@.take(0) =~= Seq::empty());
    assert(out@.unref() =~= old(out)@.unref() + types_in_handlers(v@.take(0)));
    while i < v.len()
        invariant
            i <= v@.len(),
            out@.unref() == old(out)@.unref() + types_in_handlers(v@.take(i as int)),
        decreases v@.len() - i,
    {
        let x = &v[i];
        assert(v@.take(i + 1).drop_last() =~= v@.take(i as int));
        assert(v@.take(i + 1).last() == x);
        push_option(&x.type_, out);
        i += 1;
        assert(out@.unref() =~= old(out)@.unref() + types_in_handlers(v@.take(i as int)));
    }
    assert(v@.take(i as int) =~= v@);
}

fn push_bounds<'a>(v: &'a Vec<TypeBound>, out: &mut Vec<&'a Expression>)
    ensures
        final(out)@.unref() == old(out)@.unref() + bounds_in_params(v@),
    decreases v,
{
    let mut i: usize = 0;
    assert(v@.take(0) =~= Seq::empty());
    assert(out@.unref() =~= old(out)@.unref() + bounds_in_params(v@.take(0)));
    while i < v.len()
        invariant
            i <= v@.len(),
            out@.unref() == old(out)@.unref() + bounds_in_params(v@.take(i as int)),
        decreases v@.len() - i,
    {
        let x = &v[i];
        assert(v@.take(i + 1).drop_last() =~= v@.take(i as int));
        assert(v@.take(i + 1).last() == x);
        push_option(&x.bound, out);
        i += 1;
        assert(out@.unref() =~= old(out)@.unref() + bounds_in_params(v@.take(i as int)));
    }
    assert(v@.take(i as int) =~= v@);
}

fn push_cases<'a>(v: &'a Vec<CaseBlock>, out: &mut Vec<&'a Expression>)
    ensures
        final(out)@.unref() == old(out)@.unref() + exprs_in_cases(v@),
    decreases v,
{
    let mut i: usize = 0;
    assert(v@.take(0) =~= Seq::empty());
    assert(out@.unref() =~= old(out)@.unref() + exprs_in_cases(v@.take(0)));
    while i < v.len()
        invariant
            i <= v@.len(),
            out@.unref() == old(out)@.unref() + exprs_in_cases(v@.take(i as int)),
        decreases v@.len() - i,
    {
        let x = &v[i];
        assert(v@.take(i + 1).drop_last() =~= v@.take(i as int));
        assert(v@.take(i + 1).last() == x);
        walk_pattern(&x.pattern, out);
        push_option(&x.guard, out);
        i += 1;
        assert(out@.unref() =~= old(out)@.unref() + exprs_in_cases(v@.take(i as int)));
    }
    assert(v@.take(i as int) =~= v@);
}

/// The expressions that belong to a statement itself.
pub fn for_each_expr_in_stmt<'a>(s: &'a Statement, out: &mut Vec<&'a Expression>)
    ensures
        final(out)@.unref() == old(out)@.unref() + stmt_exprs(*s),
{
    match s {
        Statement::Expr { value, .. } => walk_expr(value, out),
        Statement::Assign { targets, value, .. } => {
            push_exprs(targets, out);
            walk_expr(value, out);
        },
        Statement::AnnAssign { target, annotation, value, .. } => {
            walk_expr(target, out);
            walk_expr(annotation, out);
            push_option(value, out);
        },
        Statement::AugAssign { target, value, .. } => {
            walk_expr(target, out);
            walk_expr(value, out);
        },
        Statement::Return { value, .. } => push_option(value, out),
        Statement::If(b) => walk_expr(&b.test, out),
        Statement::While(b) => walk_expr(&b.test, out),
        Statement::For(l) => {
            walk_expr(&l.iter, out);
            walk_expr(&l.target, out);
        },
        Statement::AsyncFor(l) => {
            walk_expr(&l.iter, out);
            walk_expr(&l.target, out);
        },
        Statement::Raise { exc, cause, .. } => {
            push_option(exc, out);
            push_option(cause, out);
        },
        Statement::Assert { test, msg, .. } => {
            walk_expr(test, out);
            push_option(msg, out);
        },
        Statement::FunctionDef(f) => {
            push_exprs(&f.decorator_list, out);
            walk_arguments(&f.args, out);
            push_option(&f.return_type, out);
        },
        Statement::AsyncFunctionDef(f) => {
            push_exprs(&f.decorator_list, out);
            walk_arguments(&f.args, out);
            push_option(&f.return_type, out);
        },
        Statement::ClassDef(c) => {
            push_exprs(&c.decorator_list, out);
            push_exprs(&c.bases, out);
            push_keywords(&c.keywords, out);
        },
        Statement::With(w) => push_items(&w.items, out),
        Statement::AsyncWith(w) => push_items(&w.items, out),
        Statement::Try(t) => push_handler_types(&t.handlers, out),
        Statement::TryStar(t) => push_handler_types(&t.handlers, out),
        Statement::TypeAlias { type_params, value, .. } => {
            walk_expr(value, out);
            push_bounds(type_params, out);
        },
        Statement::Match { subject, cases, .. } => {
            walk_expr(subject, out);
            push_cases(cases, out);
        },
        Statement::Delete { targets, .. } => push_exprs(targets, out),
        _ => {},
    }
    assert(out@.unref() =~= old(out)@.unref() + stmt_exprs(*s));
}

fn for_each_annotation_in_stmt<'a>(s: &'a Statement, out: &mut Vec<&'a Expression>)
    ensures
        final(out)@.unref() == old(out)@.unref() + stmt_annotations(*s),
{
    match s {
        Statement::AnnAssign { annotation, .. } => walk_expr(annotation, out),
        Statement::FunctionDef(f) => {
            visit_arg_annotations(&f.args, out);
            push_option(&f.return_type, out);
        },
        Statement::AsyncFunctionDef(f) => {
            visit_arg_annotations(&f.args, out);
            push_option(&f.return_type, out);
        },
        _ => {},
    }
    assert(out@.unref() =~= old(out)@.unref() + stmt_annotations(*s));
}

/// Every expression in the statements and in all inside them.
pub fn walk_stmts_for_exprs(stmts: &Vec<Statement>) -> (out: Vec<&Expression>)
    ensures
        out@.unref() == exprs_of_each(stmts_in(stmts@)),
{
    let all = walk_stmts(stmts);
    let ghost flat = all@.unref();
    let mut out: Vec<&Expression> = Vec::new();
    let mut i: usize = 0;
    assert(out@.unref() =~= exprs_of_each(flat.take(0)));
    while i < all.len()
        invariant
            i <= all@.len(),
            flat == all@.unref(),
            out@.unref() == exprs_of_each(flat.take(i as int)),
        decreases all@.len() - i,
    {
        assert(flat.take(i + 1).drop_last() =~= flat.take(i as int));
        assert(flat.take(i + 1).last() == *all@[i as int]);
        for_each_expr_in_stmt(all[i], &mut out);
        i += 1;
    }
    assert(flat.take(i as int) =~= flat);
    out
}

/// Every expression that is an annotation or stands inside one.
pub fn walk_annotations(stmts: &Vec<Statement>) -> (out: Vec<&Expression>)
    ensures
        out@.unref() == annotations_of_each(stmts_in(stmts@)),
{
    let all = walk_stmts(stmts);
    let ghost flat = all@.unref();
    let mut out: Vec<&Expression> = Vec::new();
    let mut i: usize = 0;
    assert(out@.unref() =~= annotations_of_each(flat.take(0)));
    while i < all.len()
        invariant
            i <= all@.len(),
            flat == all@.unref(),
            out@.unref() == annotations_of_each(flat.take(i as int)),
        decreases all@.len() - i,
    {
        assert(flat.take(i + 1).drop_last() =~= flat.take(i as int));
        assert(flat.take(i + 1).last() == *all@[i as int]);
        for_each_annotation_in_stmt(all[i], &mut out);
        i += 1;
    }
    assert(flat.take(i as int) =~= flat);
    out
}

/// Which compound statements a search goes into. It always goes into function
/// bodies and both branches of an `if`, and never into loops, `match` or
/// `try` with `except*`.
#[derive(Debug, Clone, Copy)]
pub struct Descent {
    /// Into class bodies.
    pub classes: bool,
    /// Into the body and the handlers of a `try`.
    pub tries: bool,
    /// Into the `else` and `finally` of a `try` that the search goes into.
    pub try_tails: bool,
    /// Into the body of a `with`.
    pub withs: bool,
}

/// The statements inside `s` that a search goes into.
pub open spec fn nested_below(s: Statement, d: Descent) -> Seq<Statement>
    decreases s,
{
    match s {
        Statement::FunctionDef(f) => nested_in(f.body@, d),
        Statement::AsyncFunctionDef(f) => nested_in(f.body@, d),
        Statement::ClassDef(c) => if d.classes {
            nested_in(c.body@, d)
        } else {
            Seq::empty()
        },
        Statement::If(b) => nested_in(b.body@, d) + nested_in(b.orelse@, d),
        Statement::Try(t) => if !d.tries {
            Seq::empty()
        } else if !d.try_tails {
            nested_in(t.body@, d) + nested_in_handlers(t.handlers@, d)
        } else {
            nested_in(t.body@, d) + nested_in_handlers(t.handlers@, d) + nested_in(t.orelse@, d)
                + nested_in(t.finalbody@, d)
        },
        Statement::With(w) => if d.withs {
            nested_in(w.body@, d)
        } else {
            Seq::empty()
        },
        Statement::AsyncWith(w) => if d.withs {
            nested_in(w.body@, d)
        } else {
            Seq::empty()
        },
        _ => Seq::empty(),
    }
}

/// The statements of a list and those inside them that a search goes into.
pub open spec fn nested_in(v: Seq<Statement>, d: Descent) -> Seq<Statement>
    decreases v,
{
    if v.len() == 0 {
        Seq::empty()
    } else {
        nested_in(v.drop_last(), d).push(v.last()) + nested_below(v.last(), d)
    }
}

pub open spec fn nested_in_handlers(v: Seq<Handler>, d: Descent) -> Seq<Statement>
    decreases v,
{
    if v.len() == 0 {
        Seq::empty()
    } else {
        nested_in_handlers(v.drop_last(), d) + nested_in(v.last().body@, d)
    }
}

/// The statements of a list and those inside them that a search goes into.
pub fn nested_stmts(stmts: &Vec<Statement>, d: Descent) -> (out: Vec<&Statement>)
    ensures
        out@.unref() == nested_in(stmts@, d),
{
    let mut out: Vec<&Statement> = Vec::new();
    push_nested(stmts, d, &mut out);
    assert(out@.unref() =~= nested_in(stmts@, d));
    out
}

fn push_nested<'a>(v: &'a Vec<Statement>, d: Descent, out: &mut Vec<&'a Statement>)
    ensures
        final(out)@.unref() == old(out)@.unref() + nested_in(v@, d),
    decreases v,
{
    let mut i: usize = 0;
    assert(v@.take(0) =~= Seq::empty());
    assert(out@.unref() =~= old(out)@.unref() + nested_in(v@.take(0), d));
    while i < v.len()
        invariant
            i <= v@.len(),
            out@.unref() == old(out)@.unref() + nested_in(v@.take(i as int), d),
        decreases v@.len() - i,
    {
        let x = &v[i];
        assert(v@.take(i + 1).drop_last() =~= v@.take(i as int));
        assert(v@.take(i + 1).last() == x);
        let ghost before = out@.unref();
        out.push(x);
        assert(out@.unref() =~= before.push(*x));
        push_nested_below(x, d, out);
        i += 1;
        assert(out@.unref() =~= old(out)@.unref() + nested_in(v@.take(i as int), d));
    }
    assert(v@.take(i as int) =~= v@);
}

fn push_nested_below<'a>(s: &'a Statement, d: Descent, out: &mut Vec<&'a Statement>)
    ensures
        final(out)@.unref() == old(out)@.unref() + nested_below(*s, d),
    decreases s,
{
    match s {
        Statement::FunctionDef(f) => push_nested(&f.body, d, out),
        Statement::AsyncFunctionDef(f) => push_nested(&f.body, d, out),
        Statement::ClassDef(c) => {
            if d.classes {
                push_nested(&c.body, d, out);
            }
        },
        Statement::If(b) => {
            push_nested(&b.body, d, out);
            push_nested(&b.orelse, d, out);
        },
        Statement::Try(t) => {
            if d.tries {
                push_nested(&t.body, d, out);
                push_nested_handlers(&t.handlers, d, out);
                if d.try_tails {
                    push_nested(&t.orelse, d, out);
                    push_nested(&t.finalbody, d, out);
                }
            }
        },
        Statement::With(w) => {
            if d.withs {
                push_nested(&w.body, d, out);
            }
        },
        Statement::AsyncWith(w) => {
            if d.withs {
                push_nested(&w.body, d, out);
            }
        },
        _ => {},
    }
    assert(out@.unref() =~= old(out)@.unref() + nested_below(*s, d));
}

fn push_nested_handlers<'a>(v: &'a Vec<Handler>, d: Descent, out: &mut Vec<&'a Statement>)
    ensures
        final(out)@.unref() == old(out)@.unref() + nested_in_handlers(v@, d),
    decreases v,
{
    let mut i: usize = 0;
    assert(v@.take(0) =~= Seq::empty());
    assert(out@.unref() =~= old(out)@.unref() + nested_in_handlers(v@.take(0), d));
    while i < v.len()
        invariant
            i <= v@.len(),
            out@.unref() == old(out)@.unref() + nested_in_handlers(v@.take(i as int), d),
        decreases v@.len() - i,
    {
        let x = &v[i];
        assert(v@.take(i + 1).drop_last() =~= v@.take(i as int));
        assert(v@.take(i + 1).last() == x);
        push_nested(&x.body, d, out);
        i += 1;
        assert(out@.unref() =~= old(out)@.unref() + nested_in_handlers(v@.take(i as int), d));
    }
    assert(v@.take(i as int) =~= v@);
}

/// The byte offset at which a statement starts.
pub fn stmt_range_start(stmt: &Statement) -> (r: usize)
    ensures
        r == stmt.place().start,
{
    match stmt {
        Statement::FunctionDef(f) => f.span.start,
        Statement::AsyncFunctionDef(f) => f.span.start,
        Statement::ClassDef(c) => c.span.start,
        Statement::Return { span, .. } => span.start,
        Statement::Delete { span, .. } => span.start,
        Statement::Assign { span, .. } => span.start,
        Statement::TypeAlias { span, .. } => span.start,
        Statement::AugAssign { span, .. } => span.start,
        Statement::AnnAssign { span, .. } => span.start,
        Statement::For(l) => l.span.start,
        Statement::AsyncFor(l) => l.span.start,
        Statement::While(b) => b.span.start,
        Statement::If(b) => b.span.start,
        Statement::With(w) => w.span.start,
        Statement::AsyncWith(w) => w.span.start,
        Statement::Match { span, .. } => span.start,
        Statement::Raise { span, .. } => span.start,
        Statement::Try(t) => t.span.start,
        Statement::TryStar(t) => t.span.start,
        Statement::Assert { span, .. } => span.start,
        Statement::Import { span, .. } => span.start,
        Statement::ImportFrom { span, .. } => span.start,
        Statement::Global { span } => span.start,
        Statement::Nonlocal { span } => span.start,
        Statement::Expr { span, .. } => span.start,
        Statement::Pass { span } => span.start,
        Statement::Break { span } => span.start,
        Statement::Continue { span } => span.start,
    }
}

pub open spec fn is_yield(e: Expression) -> bool {
    e is Yield || e is YieldFrom
}

/// Whether some expression in `body`, at any depth, is a `yield`.
pub fn body_contains_yield(body: &Vec<Statement>) -> (found: bool)
    ensures
        found == exists|i: int|
            0 <= i < exprs_of_each(stmts_in(body@)).len() && is_yield(
                #[trigger] exprs_of_each(stmts_in(body@))[i],
            ),
{
    let exprs = walk_stmts_for_exprs(body);
    let ghost all = exprs_of_each(stmts_in(body@));
    let mut i: usize = 0;
    while i < exprs.len()
        invariant
            i <= exprs@.len(),
            all == exprs@.unref(),
            all == exprs_of_each(stmts_in(body@)),
            forall|j: int| 0 <= j < i ==> !is_yield(#[trigger] all[j]),
        decreases exprs@.len() - i,
    {
        assert(all[i as int] == *exprs@[i as int]);
        match exprs[i] {
            Expression::Yield { .. } | Expression::YieldFrom { .. } => {
                return true;
            },
            _ => {},
        }
        i += 1;
    }
    false
}

/// Whether a search that goes into `s` finds `t` directly in there.
pub open spec fn finds_inside(s: Statement, t: Statement, d: Descent) -> bool {
    match s {
        Statement::FunctionDef(f) => f.body@.contains(t),
        Statement::AsyncFunctionDef(f) => f.body@.contains(t),
        Statement::ClassDef(c) => d.classes && c.body@.contains(t),
        Statement::If(b) => b.body@.contains(t) || b.orelse@.contains(t),
        Statement::Try(b) => d.tries && (b.body@.contains(t) || (exists|h: int|
            0 <= h < b.handlers@.len() && (#[trigger] b.handlers@[h]).body@.contains(t)) || (
        d.try_tails && (b.orelse@.contains(t) || b.finalbody@.contains(t)))),
        Statement::With(w) => d.withs && w.body@.contains(t),
        Statement::AsyncWith(w) => d.withs && w.body@.contains(t),
        _ => false,
    }
}

proof fn lemma_contains_either<T>(a: Seq<T>, b: Seq<T>, x: T)
    ensures
        (a + b).contains(x) <==> a.contains(x) || b.contains(x),
{
    if a.contains(x) {
        let i = choose|i: int| 0 <= i < a.len() && a[i] == x;
        assert((a + b)[i] == x);
    }
    if b.contains(x) {
        let i = choose|i: int| 0 <= i < b.len() && b[i] == x;
        assert((a + b)[a.len() + i] == x);
    }
    if (a + b).contains(x) {
        let i = choose|i: int| 0 <= i < (a + b).len() && (a + b)[i] == x;
        if i < a.len() {
            assert(a[i] == x);
        } else {
            assert(b[i - a.len()] == x);
        }
    }
}

/// What a search of a list of statements finds: the parts that the last one adds.
proof fn lemma_nested_parts(v: Seq<Statement>, d: Descent, x: Statement)
    requires
        v.len() > 0,
    ensures
        nested_in(v, d).contains(x) <==> nested_in(v.drop_last(), d).contains(x) || x == v.last()
            || nested_below(v.last(), d).contains(x),
{
    let before = nested_in(v.drop_last(), d);
    crate::types::lemma_contains_push(before, v.last(), x);
    lemma_contains_either(before.push(v.last()), nested_below(v.last(), d), x);
}

/// A search finds every statement of the list itself.
proof fn lemma_nested_holds_the_list(v: Seq<Statement>, d: Descent, t: Statement)
    requires
        v.contains(t),
    ensures
        nested_in(v, d).contains(t),
    decreases v.len(),
{
    lemma_nested_parts(v, d, t);
    if t != v.last() {
        let k = choose|k: int| 0 <= k < v.len() && v[k] == t;
        assert(v.drop_last()[k] == t);
        lemma_nested_holds_the_list(v.drop_last(), d, t);
    }
}

proof fn lemma_nested_holds_handlers(v: Seq<Handler>, d: Descent, h: int, t: Statement)
    requires
        0 <= h < v.len(),
        v[h].body@.contains(t),
    ensures
        nested_in_handlers(v, d).contains(t),
    decreases v.len(),
{
    lemma_contains_either(
        nested_in_handlers(v.drop_last(), d),
        nested_in(v.last().body@, d),
        t,
    );
    if h < v.len() - 1 {
        lemma_nested_holds_handlers(v.drop_last(), d, h, t);
    } else {
        lemma_nested_holds_the_list(v[h].body@, d, t);
    }
}

proof fn lemma_four_parts(
    a: Seq<Statement>,
    b: Seq<Statement>,
    c: Seq<Statement>,
    e: Seq<Statement>,
    x: Statement,
)
    ensures
        (a + b).contains(x) <==> a.contains(x) || b.contains(x),
        (a + b + c + e).contains(x) <==> a.contains(x) || b.contains(x) || c.contains(x)
            || e.contains(x),
{
    lemma_contains_either(a, b, x);
    lemma_contains_either(a + b, c, x);
    lemma_contains_either(a + b + c, e, x);
}

proof fn lemma_inside_is_below(s: Statement, t: Statement, d: Descent)
    requires
        finds_inside(s, t, d),
    ensures
        nested_below(s, d).contains(t),
{
    match s {
        Statement::FunctionDef(f) => lemma_nested_holds_the_list(f.body@, d, t),
        Statement::AsyncFunctionDef(f) => lemma_nested_holds_the_list(f.body@, d, t),
        Statement::ClassDef(c) => lemma_nested_holds_the_list(c.body@, d, t),
        Statement::If(b) => {
            lemma_contains_either(nested_in(b.body@, d), nested_in(b.orelse@, d), t);
            if b.body@.contains(t) {
                lemma_nested_holds_the_list(b.body@, d, t);
            } else {
                lemma_nested_holds_the_list(b.orelse@, d, t);
            }
        },
        Statement::Try(b) => {
            lemma_four_parts(
                nested_in(b.body@, d),
                nested_in_handlers(b.handlers@, d),
                nested_in(b.orelse@, d),
                nested_in(b.finalbody@, d),
                t,
            );
            if b.body@.contains(t) {
                lemma_nested_holds_the_list(b.body@, d, t);
            } else if exists|h: int|
                0 <= h < b.handlers@.len() && (#[trigger] b.handlers@[h]).body@.contains(t) {
                let h = choose|h: int|
                    0 <= h < b.handlers@.len() && (#[trigger] b.handlers@[h]).body@.contains(t);
                lemma_nested_holds_handlers(b.handlers@, d, h, t);
            } else if b.orelse@.contains(t) {
                lemma_nested_holds_the_list(b.orelse@, d, t);
            } else {
                lemma_nested_holds_the_list(b.finalbody@, d, t);
            }
        },
        Statement::With(w) => lemma_nested_holds_the_list(w.body@, d, t),
        Statement::AsyncWith(w) => lemma_nested_holds_the_list(w.body@, d, t),
        _ => {},
    }
}

proof fn lemma_nested_closed(v: Seq<Statement>, d: Descent, s: Statement, t: Statement)
    requires
        nested_in(v, d).contains(s),
        finds_inside(s, t, d),
    ensures
        nested_in(v, d).contains(t),
    decreases v,
{
    lemma_nested_parts(v, d, s);
    lemma_nested_parts(v, d, t);
    if nested_in(v.drop_last(), d).contains(s) {
        lemma_nested_closed(v.drop_last(), d, s, t);
    } else if s == v.last() {
        lemma_inside_is_below(s, t, d);
    } else {
        lemma_below_closed(v.last(), d, s, t);
    }
}

proof fn lemma_handlers_closed(v: Seq<Handler>, d: Descent, s: Statement, t: Statement)
    requires
        nested_in_handlers(v, d).contains(s),
        finds_inside(s, t, d),
    ensures
        nested_in_handlers(v, d).contains(t),
    decreases v,
{
    let before = nested_in_handlers(v.drop_last(), d);
    let own = nested_in(v.last().body@, d);
    lemma_contains_either(before, own, s);
    lemma_contains_either(before, own, t);
    if before.contains(s) {
        lemma_handlers_closed(v.drop_last(), d, s, t);
    } else {
        lemma_nested_closed(v.last().body@, d, s, t);
    }
}

proof fn lemma_below_closed(p: Statement, d: Descent, s: Statement, t: Statement)
    requires
        nested_below(p, d).contains(s),
        finds_inside(s, t, d),
    ensures
        nested_below(p, d).contains(t),
    decreases p,
{
    match p {
        Statement::FunctionDef(f) => lemma_nested_closed(f.body@, d, s, t),
        Statement::AsyncFunctionDef(f) => lemma_nested_closed(f.body@, d, s, t),
        Statement::ClassDef(c) => if d.classes {
            lemma_nested_closed(c.body@, d, s, t);
        },
        Statement::If(b) => {
            let x = nested_in(b.body@, d);
            let y = nested_in(b.orelse@, d);
            lemma_contains_either(x, y, s);
            lemma_contains_either(x, y, t);
            if x.contains(s) {
                lemma_nested_closed(b.body@, d, s, t);
            } else {
                lemma_nested_closed(b.orelse@, d, s, t);
            }
        },
        Statement::Try(b) => {
            let x = nested_in(b.body@, d);
            let y = nested_in_handlers(b.handlers@, d);
            let z = nested_in(b.orelse@, d);
            let e = nested_in(b.finalbody@, d);
            lemma_four_parts(x, y, z, e, s);
            lemma_four_parts(x, y, z, e, t);
            if d.tries {
                if x.contains(s) {
                    lemma_nested_closed(b.body@, d, s, t);
                } else if y.contains(s) {
                    lemma_handlers_closed(b.handlers@, d, s, t);
                } else if z.contains(s) {
                    lemma_nested_closed(b.orelse@, d, s, t);
                } else {
                    lemma_nested_closed(b.finalbody@, d, s, t);
                }
            }
        },
        Statement::With(w) => if d.withs {
            lemma_nested_closed(w.body@, d, s, t);
        },
        Statement::AsyncWith(w) => if d.withs {
            lemma_nested_closed(w.body@, d, s, t);
        },
        _ => {},
    }
}

/// A search finds the statements of the list, and whatever stands directly inside one
/// that it finds and goes into: into functions and both branches of an `if` at any
/// depth, and as it is asked to into classes, `with` and all parts of a `try`.
pub proof fn searches_go_all_the_way_down(
    v: Seq<Statement>,
    d: Descent,
    s: Statement,
    t: Statement,
)
    ensures
        v.contains(t) ==> nested_in(v, d).contains(t),
        nested_in(v, d).contains(s) && finds_inside(s, t, d) ==> nested_in(v, d).contains(t),
{
    if v.contains(t) {
        lemma_nested_holds_the_list(v, d, t);
    }
    if nested_in(v, d).contains(s) && finds_inside(s, t, d) {
        lemma_nested_closed(v, d, s, t);
    }
}

/// Whether `t` stands directly inside `s`.
pub open spec fn stands_inside(s: Statement, t: Statement) -> bool {
    match s {
        Statement::FunctionDef(f) => f.body@.contains(t),
        Statement::AsyncFunctionDef(f) => f.body@.contains(t),
        Statement::ClassDef(c) => c.body@.contains(t),
        Statement::If(b) => b.body@.contains(t) || b.orelse@.contains(t),
        Statement::While(b) => b.body@.contains(t) || b.orelse@.contains(t),
        Statement::For(b) => b.body@.contains(t) || b.orelse@.contains(t),
        Statement::AsyncFor(b) => b.body@.contains(t) || b.orelse@.contains(t),
        Statement::With(w) => w.body@.contains(t),
        Statement::AsyncWith(w) => w.body@.contains(t),
        Statement::Try(b) => b.body@.contains(t) || (exists|h: int|
            0 <= h < b.handlers@.len() && (#[trigger] b.handlers@[h]).body@.contains(t))
            || b.orelse@.contains(t) || b.finalbody@.contains(t),
        Statement::TryStar(b) => b.body@.contains(t) || (exists|h: int|
            0 <= h < b.handlers@.len() && (#[trigger] b.handlers@[h]).body@.contains(t))
            || b.orelse@.contains(t) || b.finalbody@.contains(t),
        Statement::Match { cases, .. } => exists|k: int|
            0 <= k < cases@.len() && (#[trigger] cases@[k]).body@.contains(t),
        _ => false,
    }
}

proof fn lemma_walk_parts(v: Seq<Statement>, x: Statement)
    requires
        v.len() > 0,
    ensures
        stmts_in(v).contains(x) <==> stmts_in(v.drop_last()).contains(x) || x == v.last()
            || stmts_below(v.last()).contains(x),
{
    let before = stmts_in(v.drop_last());
    crate::types::lemma_contains_push(before, v.last(), x);
    lemma_contains_either(before.push(v.last()), stmts_below(v.last()), x);
}

proof fn lemma_walk_holds_the_list(v: Seq<Statement>, t: Statement)
    requires
        v.contains(t),
    ensures
        stmts_in(v).contains(t),
    decreases v.len(),
{
    lemma_walk_parts(v, t);
    if t != v.last() {
        let k = choose|k: int| 0 <= k < v.len() && v[k] == t;
        assert(v.drop_last()[k] == t);
        lemma_walk_holds_the_list(v.drop_last(), t);
    }
}

proof fn lemma_walk_holds_handlers(v: Seq<Handler>, h: int, t: Statement)
    requires
        0 <= h < v.len(),
        v[h].body@.contains(t),
    ensures
        stmts_in_handlers(v).contains(t),
    decreases v.len(),
{
    lemma_contains_either(stmts_in_handlers(v.drop_last()), stmts_in(v.last().body@), t);
    if h < v.len() - 1 {
        lemma_walk_holds_handlers(v.drop_last(), h, t);
    } else {
        lemma_walk_holds_the_list(v[h].body@, t);
    }
}

proof fn lemma_walk_holds_cases(v: Seq<CaseBlock>, h: int, t: Statement)
    requires
        0 <= h < v.len(),
        v[h].body@.contains(t),
    ensures
        stmts_in_cases(v).contains(t),
    decreases v.len(),
{
    lemma_contains_either(stmts_in_cases(v.drop_last()), stmts_in(v.last().body@), t);
    if h < v.len() - 1 {
        lemma_walk_holds_cases(v.drop_last(), h, t);
    } else {
        lemma_walk_holds_the_list(v[h].body@, t);
    }
}

proof fn lemma_inside_is_walked(s: Statement, t: Statement)
    requires
        stands_inside(s, t),
    ensures
        stmts_below(s).contains(t),
{
    match s {
        Statement::FunctionDef(f) => lemma_walk_holds_the_list(f.body@, t),
        Statement::AsyncFunctionDef(f) => lemma_walk_holds_the_list(f.body@, t),
        Statement::ClassDef(c) => lemma_walk_holds_the_list(c.body@, t),
        Statement::If(b) => {
            lemma_contains_either(stmts_in(b.body@), stmts_in(b.orelse@), t);
            if b.body@.contains(t) {
                lemma_walk_holds_the_list(b.body@, t);
            } else {
                lemma_walk_holds_the_list(b.orelse@, t);
            }
        },
        Statement::While(b) => {
            lemma_contains_either(stmts_in(b.body@), stmts_in(b.orelse@), t);
            if b.body@.contains(t) {
                lemma_walk_holds_the_list(b.body@, t);
            } else {
                lemma_walk_holds_the_list(b.orelse@, t);
            }
        },
        Statement::For(b) => {
            lemma_contains_either(stmts_in(b.body@), stmts_in(b.orelse@), t);
            if b.body@.contains(t) {
                lemma_walk_holds_the_list(b.body@, t);
            } else {
                lemma_walk_holds_the_list(b.orelse@, t);
            }
        },
        Statement::AsyncFor(b) => {
            lemma_contains_either(stmts_in(b.body@), stmts_in(b.orelse@), t);
            if b.body@.contains(t) {
                lemma_walk_holds_the_list(b.body@, t);
            } else {
                lemma_walk_holds_the_list(b.orelse@, t);
            }
        },
        Statement::With(w) => lemma_walk_holds_the_list(w.body@, t),
        Statement::AsyncWith(w) => lemma_walk_holds_the_list(w.body@, t),
        Statement::Try(b) => {
            lemma_four_parts(
                stmts_in(b.body@),
                stmts_in_handlers(b.handlers@),
                stmts_in(b.orelse@),
                stmts_in(b.finalbody@),
                t,
            );
            if b.body@.contains(t) {
                lemma_walk_holds_the_list(b.body@, t);
            } else if exists|h: int|
                0 <= h < b.handlers@.len() && (#[trigger] b.handlers@[h]).body@.contains(t) {
                let h = choose|h: int|
                    0 <= h < b.handlers@.len() && (#[trigger] b.handlers@[h]).body@.contains(t);
                lemma_walk_holds_handlers(b.handlers@, h, t);
            } else if b.orelse@.contains(t) {
                lemma_walk_holds_the_list(b.orelse@, t);
            } else {
                lemma_walk_holds_the_list(b.finalbody@, t);
            }
        },
        Statement::TryStar(b) => {
            lemma_four_parts(
                stmts_in(b.body@),
                stmts_in_handlers(b.handlers@),
                stmts_in(b.orelse@),
                stmts_in(b.finalbody@),
                t,
            );
            if b.body@.contains(t) {
                lemma_walk_holds_the_list(b.body@, t);
            } else if exists|h: int|
                0 <= h < b.handlers@.len() && (#[trigger] b.handlers@[h]).body@.contains(t) {
                let h = choose|h: int|
                    0 <= h < b.handlers@.len() && (#[trigger] b.handlers@[h]).body@.contains(t);
                lemma_walk_holds_handlers(b.handlers@, h, t);
            } else if b.orelse@.contains(t) {
                lemma_walk_holds_the_list(b.orelse@, t);
            } else {
                lemma_walk_holds_the_list(b.finalbody@, t);
            }
        },
        Statement::Match { cases, .. } => {
            let k = choose|k: int|
                0 <= k < cases@.len() && (#[trigger] cases@[k]).body@.contains(t);
            lemma_walk_holds_cases(cases@, k, t);
        },
        _ => {},
    }
}

proof fn lemma_walk_closed(v: Seq<Statement>, s: Statement, t: Statement)
    requires
        stmts_in(v).contains(s),
        stands_inside(s, t),
    ensures
        stmts_in(v).contains(t),
    decreases v,
{
    lemma_walk_parts(v, s);
    lemma_walk_parts(v, t);
    if stmts_in(v.drop_last()).contains(s) {
        lemma_walk_closed(v.drop_last(), s, t);
    } else if s == v.last() {
        lemma_inside_is_walked(s, t);
    } else {
        lemma_walk_below_closed(v.last(), s, t);
    }
}

proof fn lemma_walk_handlers_closed(v: Seq<Handler>, s: Statement, t: Statement)
    requires
        stmts_in_handlers(v).contains(s),
        stands_inside(s, t),
    ensures
        stmts_in_handlers(v).contains(t),
    decreases v,
{
    let before = stmts_in_handlers(v.drop_last());
    let own = stmts_in(v.last().body@);
    lemma_contains_either(before, own, s);
    lemma_contains_either(before, own, t);
    if before.contains(s) {
        lemma_walk_handlers_closed(v.drop_last(), s, t);
    } else {
        lemma_walk_closed(v.last().body@, s, t);
    }
}

proof fn lemma_walk_cases_closed(v: Seq<CaseBlock>, s: Statement, t: Statement)
    requires
        stmts_in_cases(v).contains(s),
        stands_inside(s, t),
    ensures
        stmts_in_cases(v).contains(t),
    decreases v,
{
    let before = stmts_in_cases(v.drop_last());
    let own = stmts_in(v.last().body@);
    lemma_contains_either(before, own, s);
    lemma_contains_either(before, own, t);
    if before.contains(s) {
        lemma_walk_cases_closed(v.drop_last(), s, t);
    } else {
        lemma_walk_closed(v.last().body@, s, t);
    }
}

proof fn lemma_walk_below_closed(p: Statement, s: Statement, t: Statement)
    requires
        stmts_below(p).contains(s),
        stands_inside(s, t),
    ensures
        stmts_below(p).contains(t),
    decreases p,
{
    match p {
        Statement::FunctionDef(f) => lemma_walk_closed(f.body@, s, t),
        Statement::AsyncFunctionDef(f) => lemma_walk_closed(f.body@, s, t),
        Statement::ClassDef(c) => lemma_walk_closed(c.body@, s, t),
        Statement::If(b) => {
            let x = stmts_in(b.body@);
            let y = stmts_in(b.orelse@);
            lemma_contains_either(x, y, s);
            lemma_contains_either(x, y, t);
            if x.contains(s) {
                lemma_walk_closed(b.body@, s, t);
            } else {
                lemma_walk_closed(b.orelse@, s, t);
            }
        },
        Statement::While(b) => {
            let x = stmts_in(b.body@);
            let y = stmts_in(b.orelse@);
            lemma_contains_either(x, y, s);
            lemma_contains_either(x, y, t);
            if x.contains(s) {
                lemma_walk_closed(b.body@, s, t);
            } else {
                lemma_walk_closed(b.orelse@, s, t);
            }
        },
        Statement::For(b) => {
            let x = stmts_in(b.body@);
            let y = stmts_in(b.orelse@);
            lemma_contains_either(x, y, s);
            lemma_contains_either(x, y, t);
            if x.contains(s) {
                lemma_walk_closed(b.body@, s, t);
            } else {
                lemma_walk_closed(b.orelse@, s, t);
            }
        },
        Statement::AsyncFor(b) => {
            let x = stmts_in(b.body@);
            let y = stmts_in(b.orelse@);
            lemma_contains_either(x, y, s);
            lemma_contains_either(x, y, t);
            if x.contains(s) {
                lemma_walk_closed(b.body@, s, t);
            } else {
                lemma_walk_closed(b.orelse@, s, t);
            }
        },
        Statement::With(w) => lemma_walk_closed(w.body@, s, t),
        Statement::AsyncWith(w) => lemma_walk_closed(w.body@, s, t),
        Statement::Try(b) => {
            let x = stmts_in(b.body@);
            let y = stmts_in_handlers(b.handlers@);
            let z = stmts_in(b.orelse@);
            let e = stmts_in(b.finalbody@);
            lemma_four_parts(x, y, z, e, s);
            lemma_four_parts(x, y, z, e, t);
            if x.contains(s) {
                lemma_walk_closed(b.body@, s, t);
            } else if y.contains(s) {
                lemma_walk_handlers_closed(b.handlers@, s, t);
            } else if z.contains(s) {
                lemma_walk_closed(b.orelse@, s, t);
            } else {
                lemma_walk_closed(b.finalbody@, s, t);
            }
        },
        Statement::TryStar(b) => {
            let x = stmts_in(b.body@);
            let y = stmts_in_handlers(b.handlers@);
            let z = stmts_in(b.orelse@);
            let e = stmts_in(b.finalbody@);
            lemma_four_parts(x, y, z, e, s);
            lemma_four_parts(x, y, z, e, t);
            if x.contains(s) {
                lemma_walk_closed(b.body@, s, t);
            } else if y.contains(s) {
                lemma_walk_handlers_closed(b.handlers@, s, t);
            } else if z.contains(s) {
                lemma_walk_closed(b.orelse@, s, t);
            } else {
                lemma_walk_closed(b.finalbody@, s, t);
            }
        },
        Statement::Match { cases, .. } => lemma_walk_cases_closed(cases@, s, t),
        _ => {},
    }
}

/// A walk comes by every statement of the list, and by whatever stands directly inside
/// one that it comes by, in loops, `match` and every part of a `try` as well as
/// anywhere else: so by all of them, at any depth.
pub proof fn walks_leave_nothing_out(v: Seq<Statement>, s: Statement, t: Statement)
    ensures
        v.contains(t) ==> stmts_in(v).contains(t),
        stmts_in(v).contains(s) && stands_inside(s, t) ==> stmts_in(v).contains(t),
{
    if v.contains(t) {
        lemma_walk_holds_the_list(v, t);
    }
    if stmts_in(v).contains(s) && stands_inside(s, t) {
        lemma_walk_closed(v, s, t);
    }
}

/// Whether the value of a keyword argument is `c`.
pub open spec fn some_keyword_is(v: Seq<KeywordArg>, c: Expression) -> bool {
    exists|k: int| 0 <= k < v.len() && (#[trigger] v[k]).value == c
}

/// Whether `c` stands directly in a clause of a comprehension.
pub open spec fn some_clause_has(v: Seq<CompClause>, c: Expression) -> bool {
    exists|k: int|
        0 <= k < v.len() && ((#[trigger] v[k]).iter == c || v[k].target == c
            || v[k].ifs@.contains(c))
}

/// Whether `c` stands directly inside the expression `e` and is evaluated where that
/// stands.
pub open spec fn is_part_of(e: Expression, c: Expression) -> bool {
    match e {
        Expression::BoolOp { values } => values@.contains(c),
        Expression::NamedExpr { target, value } => *target == c || *value == c,
        Expression::BinOp { left, right } => *left == c || *right == c,
        Expression::UnaryOp { operand } => *operand == c,
        Expression::Lambda { body } => *body == c,
        Expression::IfExp { test, body, orelse } => *test == c || *body == c || *orelse == c,
        Expression::Dict { keys, values } => keys@.contains(Some(c)) || values@.contains(c),
        Expression::SetDisplay { elts } => elts@.contains(c),
        Expression::ListComp(m) => *m.elt == c || some_clause_has(m.generators@, c),
        Expression::SetComp(m) => *m.elt == c || some_clause_has(m.generators@, c),
        Expression::DictComp { key, value, generators } => *key == c || *value == c
            || some_clause_has(generators@, c),
        Expression::GeneratorExp(m) => *m.elt == c || some_clause_has(m.generators@, c),
        Expression::Await { value } => *value == c,
        Expression::Yield { value } => value matches Some(x) && *x == c,
        Expression::YieldFrom { value } => *value == c,
        Expression::Compare { left, comparators, .. } => *left == c || comparators@.contains(c),
        Expression::Call { func, args, keywords } => *func == c || args@.contains(c)
            || some_keyword_is(keywords@, c),
        Expression::FormattedValue { value } => *value == c,
        Expression::JoinedStr { values } => values@.contains(c),
        Expression::Attribute { value, .. } => *value == c,
        Expression::Subscript { value, slice } => *value == c || *slice == c,
        Expression::Starred { value } => *value == c,
        Expression::List { elts } => elts@.contains(c),
        Expression::Tuple { elts } => elts@.contains(c),
        Expression::Slice { lower, upper, step } => (lower matches Some(x) && *x == c) || (upper matches
            Some(x) && *x == c) || (step matches Some(x) && *x == c),
        Expression::Constant { .. } => false,
        Expression::Name { .. } => false,
    }
}

proof fn lemma_three_parts(a: Seq<Expression>, b: Seq<Expression>, d: Seq<Expression>, x: Expression)
    ensures
        (a + b + d).contains(x) <==> a.contains(x) || b.contains(x) || d.contains(x),
{
    lemma_contains_either(a, b, x);
    lemma_contains_either(a + b, d, x);
}

proof fn lemma_walk_starts_with(e: Expression)
    ensures
        expr_walk(e).contains(e),
{
    assert(expr_walk(e)[0] == e);
}

proof fn lemma_list_holds(v: Seq<Expression>, c: Expression)
    requires
        v.contains(c),
    ensures
        exprs_in(v).contains(c),
    decreases v.len(),
{
    lemma_contains_either(exprs_in(v.drop_last()), expr_walk(v.last()), c);
    if c == v.last() {
        lemma_walk_starts_with(c);
    } else {
        let k = choose|k: int| 0 <= k < v.len() && v[k] == c;
        assert(v.drop_last()[k] == c);
        lemma_list_holds(v.drop_last(), c);
    }
}

proof fn lemma_keys_hold(v: Seq<Option<Expression>>, c: Expression)
    requires
        v.contains(Some(c)),
    ensures
        exprs_in_keys(v).contains(c),
    decreases v.len(),
{
    let own = match v.last() {
        Some(e) => expr_walk(e),
        None => Seq::empty(),
    };
    lemma_contains_either(exprs_in_keys(v.drop_last()), own, c);
    if v.last() == Some(c) {
        lemma_walk_starts_with(c);
    } else {
        let k = choose|k: int| 0 <= k < v.len() && v[k] == Some(c);
        assert(v.drop_last()[k] == Some(c));
        lemma_keys_hold(v.drop_last(), c);
    }
}

proof fn lemma_keywords_hold(v: Seq<KeywordArg>, c: Expression)
    requires
        some_keyword_is(v, c),
    ensures
        exprs_in_keywords(v).contains(c),
    decreases v.len(),
{
    lemma_contains_either(exprs_in_keywords(v.drop_last()), expr_walk(v.last().value), c);
    if v.last().value == c {
        lemma_walk_starts_with(c);
    } else {
        let k = choose|k: int| 0 <= k < v.len() && (#[trigger] v[k]).value == c;
        assert(v.drop_last()[k].value == c);
        lemma_keywords_hold(v.drop_last(), c);
    }
}

proof fn lemma_clause_parts(v: Seq<CompClause>, x: Expression)
    requires
        v.len() > 0,
    ensures
        exprs_in_comprehensions(v).contains(x) <==> exprs_in_comprehensions(
            v.drop_last(),
        ).contains(x) || expr_walk(v.last().iter).contains(x) || expr_walk(
            v.last().target,
        ).contains(x) || exprs_in(v.last().ifs@).contains(x),
{
    let a = exprs_in_comprehensions(v.drop_last());
    let b = expr_walk(v.last().iter);
    let d = expr_walk(v.last().target);
    lemma_three_parts(a, b, d, x);
    lemma_contains_either(a + b + d, exprs_in(v.last().ifs@), x);
}

proof fn lemma_clauses_hold(v: Seq<CompClause>, c: Expression)
    requires
        some_clause_has(v, c),
    ensures
        exprs_in_comprehensions(v).contains(c),
    decreases v.len(),
{
    lemma_clause_parts(v, c);
    let last = v.last();
    if last.iter == c || last.target == c {
        lemma_walk_starts_with(c);
    } else if last.ifs@.contains(c) {
        lemma_list_holds(last.ifs@, c);
    } else {
        let k = choose|k: int|
            0 <= k < v.len() && ((#[trigger] v[k]).iter == c || v[k].target == c
                || v[k].ifs@.contains(c));
        assert(v.drop_last()[k] == v[k]);
        lemma_clauses_hold(v.drop_last(), c);
    }
}

proof fn lemma_part_is_walked(e: Expression, c: Expression)
    requires
        is_part_of(e, c),
    ensures
        expr_walk(e).contains(c),
{
    let rest = expr_walk(e).skip(1);
    assert(expr_walk(e) =~= seq![e] + rest);
    lemma_contains_either(seq![e], rest, c);
    match e {
        Expression::BoolOp { values } => {
            assert(rest =~= exprs_in(values@));
            lemma_list_holds(values@, c);
        },
        Expression::NamedExpr { target, value } => {
            assert(rest =~= expr_walk(*target) + expr_walk(*value));
            lemma_contains_either(expr_walk(*target), expr_walk(*value), c);
            if *target == c {
                lemma_walk_starts_with(*target);
            } else {
                lemma_walk_starts_with(*value);
            }
        },
        Expression::BinOp { left, right } => {
            assert(rest =~= expr_walk(*left) + expr_walk(*right));
            lemma_contains_either(expr_walk(*left), expr_walk(*right), c);
            if *left == c {
                lemma_walk_starts_with(*left);
            } else {
                lemma_walk_starts_with(*right);
            }
        },
        Expression::UnaryOp { operand } => {
            assert(rest =~= expr_walk(*operand));
            lemma_walk_starts_with(*operand);
        },
        Expression::Lambda { body } => {
            assert(rest =~= expr_walk(*body));
            lemma_walk_starts_with(*body);
        },
        Expression::IfExp { test, body, orelse } => {
            assert(rest =~= expr_walk(*test) + expr_walk(*body) + expr_walk(*orelse));
            lemma_three_parts(expr_walk(*test), expr_walk(*body), expr_walk(*orelse), c);
            if *test == c {
                lemma_walk_starts_with(*test);
            } else if *body == c {
                lemma_walk_starts_with(*body);
            } else {
                lemma_walk_starts_with(*orelse);
            }
        },
        Expression::Dict { keys, values } => {
            assert(rest =~= exprs_in_keys(keys@) + exprs_in(values@));
            lemma_contains_either(exprs_in_keys(keys@), exprs_in(values@), c);
            if keys@.contains(Some(c)) {
                lemma_keys_hold(keys@, c);
            } else {
                lemma_list_holds(values@, c);
            }
        },
        Expression::SetDisplay { elts } => {
            assert(rest =~= exprs_in(elts@));
            lemma_list_holds(elts@, c);
        },
        Expression::ListComp(m) => {
            assert(rest =~= expr_walk(*m.elt) + exprs_in_comprehensions(m.generators@));
            lemma_contains_either(expr_walk(*m.elt), exprs_in_comprehensions(m.generators@), c);
            if *m.elt == c {
                lemma_walk_starts_with(*m.elt);
            } else {
                lemma_clauses_hold(m.generators@, c);
            }
        },
        Expression::SetComp(m) => {
            assert(rest =~= expr_walk(*m.elt) + exprs_in_comprehensions(m.generators@));
            lemma_contains_either(expr_walk(*m.elt), exprs_in_comprehensions(m.generators@), c);
            if *m.elt == c {
                lemma_walk_starts_with(*m.elt);
            } else {
                lemma_clauses_hold(m.generators@, c);
            }
        },
        Expression::DictComp { key, value, generators } => {
            assert(rest =~= expr_walk(*key) + expr_walk(*value) + exprs_in_comprehensions(generators@));
            lemma_three_parts(expr_walk(*key), expr_walk(*value), exprs_in_comprehensions(generators@), c);
            if *key == c {
                lemma_walk_starts_with(*key);
            } else if *value == c {
                lemma_walk_starts_with(*value);
            } else {
                lemma_clauses_hold(generators@, c);
            }
        },
        Expression::GeneratorExp(m) => {
            assert(rest =~= expr_walk(*m.elt) + exprs_in_comprehensions(m.generators@));
            lemma_contains_either(expr_walk(*m.elt), exprs_in_comprehensions(m.generators@), c);
            if *m.elt == c {
                lemma_walk_starts_with(*m.elt);
            } else {
                lemma_clauses_hold(m.generators@, c);
            }
        },
        Expression::Await { value } => {
            assert(rest =~= expr_walk(*value));
            lemma_walk_starts_with(*value);
        },
        Expression::Yield { value } => {
            assert(rest =~= exprs_in_option(value));
            lemma_walk_starts_with(c);
        },
        Expression::YieldFrom { value } => {
            assert(rest =~= expr_walk(*value));
            lemma_walk_starts_with(*value);
        },
        Expression::Compare { left, comparators, .. } => {
            assert(rest =~= expr_walk(*left) + exprs_in(comparators@));
            lemma_contains_either(expr_walk(*left), exprs_in(comparators@), c);
            if *left == c {
                lemma_walk_starts_with(*left);
            } else {
                lemma_list_holds(comparators@, c);
            }
        },
        Expression::Call { func, args, keywords } => {
            assert(rest =~= expr_walk(*func) + exprs_in(args@) + exprs_in_keywords(keywords@));
            lemma_three_parts(expr_walk(*func), exprs_in(args@), exprs_in_keywords(keywords@), c);
            if *func == c {
                lemma_walk_starts_with(*func);
            } else if args@.contains(c) {
                lemma_list_holds(args@, c);
            } else {
                lemma_keywords_hold(keywords@, c);
            }
        },
        Expression::FormattedValue { value } => {
            assert(rest =~= expr_walk(*value));
            lemma_walk_starts_with(*value);
        },
        Expression::JoinedStr { values } => {
            assert(rest =~= exprs_in(values@));
            lemma_list_holds(values@, c);
        },
        Expression::Attribute { value, .. } => {
            assert(rest =~= expr_walk(*value));
            lemma_walk_starts_with(*value);
        },
        Expression::Subscript { value, slice } => {
            assert(rest =~= expr_walk(*value) + expr_walk(*slice));
            lemma_contains_either(expr_walk(*value), expr_walk(*slice), c);
            if *value == c {
                lemma_walk_starts_with(*value);
            } else {
                lemma_walk_starts_with(*slice);
            }
        },
        Expression::Starred { value } => {
            assert(rest =~= expr_walk(*value));
            lemma_walk_starts_with(*value);
        },
        Expression::List { elts } => {
            assert(rest =~= exprs_in(elts@));
            lemma_list_holds(elts@, c);
        },
        Expression::Tuple { elts } => {
            assert(rest =~= exprs_in(elts@));
            lemma_list_holds(elts@, c);
        },
        Expression::Slice { lower, upper, step } => {
            assert(rest =~= exprs_in_option(lower) + exprs_in_option(upper) + exprs_in_option(step));
            lemma_three_parts(exprs_in_option(lower), exprs_in_option(upper), exprs_in_option(step), c);
            if (lower matches Some(x) && *x == c) {
                lemma_walk_starts_with(c);
            } else if (upper matches Some(x) && *x == c) {
                lemma_walk_starts_with(c);
            } else {
                lemma_walk_starts_with(c);
            }
        },
        _ => {},
    }
}

proof fn lemma_option_closed(o: Option<Box<Expression>>, x: Expression, c: Expression)
    requires
        exprs_in_option(o).contains(x),
        is_part_of(x, c),
    ensures
        exprs_in_option(o).contains(c),
    decreases o,
{
    if let Some(e) = o {
        lemma_expr_closed(*e, x, c);
    }
}

proof fn lemma_list_closed(v: Seq<Expression>, x: Expression, c: Expression)
    requires
        exprs_in(v).contains(x),
        is_part_of(x, c),
    ensures
        exprs_in(v).contains(c),
    decreases v,
{
    let before = exprs_in(v.drop_last());
    let own = expr_walk(v.last());
    lemma_contains_either(before, own, x);
    lemma_contains_either(before, own, c);
    if before.contains(x) {
        lemma_list_closed(v.drop_last(), x, c);
    } else {
        lemma_expr_closed(v.last(), x, c);
    }
}

proof fn lemma_keys_closed(v: Seq<Option<Expression>>, x: Expression, c: Expression)
    requires
        exprs_in_keys(v).contains(x),
        is_part_of(x, c),
    ensures
        exprs_in_keys(v).contains(c),
    decreases v,
{
    let before = exprs_in_keys(v.drop_last());
    let own = match v.last() {
        Some(e) => expr_walk(e),
        None => Seq::empty(),
    };
    lemma_contains_either(before, own, x);
    lemma_contains_either(before, own, c);
    if before.contains(x) {
        lemma_keys_closed(v.drop_last(), x, c);
    } else if let Some(e) = v.last() {
        lemma_expr_closed(e, x, c);
    }
}

proof fn lemma_keywords_closed(v: Seq<KeywordArg>, x: Expression, c: Expression)
    requires
        exprs_in_keywords(v).contains(x),
        is_part_of(x, c),
    ensures
        exprs_in_keywords(v).contains(c),
    decreases v,
{
    let before = exprs_in_keywords(v.drop_last());
    let own = expr_walk(v.last().value);
    lemma_contains_either(before, own, x);
    lemma_contains_either(before, own, c);
    if before.contains(x) {
        lemma_keywords_closed(v.drop_last(), x, c);
    } else {
        lemma_expr_closed(v.last().value, x, c);
    }
}

proof fn lemma_clauses_closed(v: Seq<CompClause>, x: Expression, c: Expression)
    requires
        exprs_in_comprehensions(v).contains(x),
        is_part_of(x, c),
    ensures
        exprs_in_comprehensions(v).contains(c),
    decreases v,
{
    lemma_clause_parts(v, x);
    lemma_clause_parts(v, c);
    let last = v.last();
    if exprs_in_comprehensions(v.drop_last()).contains(x) {
        lemma_clauses_closed(v.drop_last(), x, c);
    } else if expr_walk(last.iter).contains(x) {
        lemma_expr_closed(last.iter, x, c);
    } else if expr_walk(last.target).contains(x) {
        lemma_expr_closed(last.target, x, c);
    } else {
        lemma_list_closed(last.ifs@, x, c);
    }
}

proof fn lemma_expr_closed(e: Expression, x: Expression, c: Expression)
    requires
        expr_walk(e).contains(x),
        is_part_of(x, c),
    ensures
        expr_walk(e).contains(c),
    decreases e,
{
    if x == e {
        lemma_part_is_walked(e, c);
    } else {
        let rest = expr_walk(e).skip(1);
        assert(expr_walk(e) =~= seq![e] + rest);
        lemma_contains_either(seq![e], rest, x);
        lemma_contains_either(seq![e], rest, c);
        match e {
            Expression::BoolOp { values } => {
                assert(rest =~= exprs_in(values@));
                lemma_list_closed(values@, x, c);
            },
            Expression::NamedExpr { target, value } => {
                assert(rest =~= expr_walk(*target) + expr_walk(*value));
                lemma_contains_either(expr_walk(*target), expr_walk(*value), x);
                lemma_contains_either(expr_walk(*target), expr_walk(*value), c);
                if expr_walk(*target).contains(x) {
                    lemma_expr_closed(*target, x, c);
                } else {
                    lemma_expr_closed(*value, x, c);
                }
            },
            Expression::BinOp { left, right } => {
                assert(rest =~= expr_walk(*left) + expr_walk(*right));
                lemma_contains_either(expr_walk(*left), expr_walk(*right), x);
                lemma_contains_either(expr_walk(*left), expr_walk(*right), c);
                if expr_walk(*left).contains(x) {
                    lemma_expr_closed(*left, x, c);
                } else {
                    lemma_expr_closed(*right, x, c);
                }
            },
            Expression::UnaryOp { operand } => {
                assert(rest =~= expr_walk(*operand));
                lemma_expr_closed(*operand, x, c);
            },
            Expression::Lambda { body } => {
                assert(rest =~= expr_walk(*body));
                lemma_expr_closed(*body, x, c);
            },
            Expression::IfExp { test, body, orelse } => {
                assert(rest =~= expr_walk(*test) + expr_walk(*body) + expr_walk(*orelse));
                lemma_three_parts(expr_walk(*test), expr_walk(*body), expr_walk(*orelse), x);
                lemma_three_parts(expr_walk(*test), expr_walk(*body), expr_walk(*orelse), c);
                if expr_walk(*test).contains(x) {
                    lemma_expr_closed(*test, x, c);
                } else if expr_walk(*body).contains(x) {
                    lemma_expr_closed(*body, x, c);
                } else {
                    lemma_expr_closed(*orelse, x, c);
                }
            },
            Expression::Dict { keys, values } => {
                assert(rest =~= exprs_in_keys(keys@) + exprs_in(values@));
                lemma_contains_either(exprs_in_keys(keys@), exprs_in(values@), x);
                lemma_contains_either(exprs_in_keys(keys@), exprs_in(values@), c);
                if exprs_in_keys(keys@).contains(x) {
                    lemma_keys_closed(keys@, x, c);
                } else {
                    lemma_list_closed(values@, x, c);
                }
            },
            Expression::SetDisplay { elts } => {
                assert(rest =~= exprs_in(elts@));
                lemma_list_closed(elts@, x, c);
            },
            Expression::ListComp(m) => {
                assert(rest =~= expr_walk(*m.elt) + exprs_in_comprehensions(m.generators@));
                lemma_contains_either(expr_walk(*m.elt), exprs_in_comprehensions(m.generators@), x);
                lemma_contains_either(expr_walk(*m.elt), exprs_in_comprehensions(m.generators@), c);
                if expr_walk(*m.elt).contains(x) {
                    lemma_expr_closed(*m.elt, x, c);
                } else {
                    lemma_clauses_closed(m.generators@, x, c);
                }
            },
            Expression::SetComp(m) => {
                assert(rest =~= expr_walk(*m.elt) + exprs_in_comprehensions(m.generators@));
                lemma_contains_either(expr_walk(*m.elt), exprs_in_comprehensions(m.generators@), x);
                lemma_contains_either(expr_walk(*m.elt), exprs_in_comprehensions(m.generators@), c);
                if expr_walk(*m.elt).contains(x) {
                    lemma_expr_closed(*m.elt, x, c);
                } else {
                    lemma_clauses_closed(m.generators@, x, c);
                }
            },
            Expression::DictComp { key, value, generators } => {
                assert(rest =~= expr_walk(*key) + expr_walk(*value) + exprs_in_comprehensions(generators@));
                lemma_three_parts(expr_walk(*key), expr_walk(*value), exprs_in_comprehensions(generators@), x);
                lemma_three_parts(expr_walk(*key), expr_walk(*value), exprs_in_comprehensions(generators@), c);
                if expr_walk(*key).contains(x) {
                    lemma_expr_closed(*key, x, c);
                } else if expr_walk(*value).contains(x) {
                    lemma_expr_closed(*value, x, c);
                } else {
                    lemma_clauses_closed(generators@, x, c);
                }
            },
            Expression::GeneratorExp(m) => {
                assert(rest =~= expr_walk(*m.elt) + exprs_in_comprehensions(m.generators@));
                lemma_contains_either(expr_walk(*m.elt), exprs_in_comprehensions(m.generators@), x);
                lemma_contains_either(expr_walk(*m.elt), exprs_in_comprehensions(m.generators@), c);
                if expr_walk(*m.elt).contains(x) {
                    lemma_expr_closed(*m.elt, x, c);
                } else {
                    lemma_clauses_closed(m.generators@, x, c);
                }
            },
            Expression::Await { value } => {
                assert(rest =~= expr_walk(*value));
                lemma_expr_closed(*value, x, c);
            },
            Expression::Yield { value } => {
                assert(rest =~= exprs_in_option(value));
                lemma_option_closed(value, x, c);
            },
            Expression::YieldFrom { value } => {
                assert(rest =~= expr_walk(*value));
                lemma_expr_closed(*value, x, c);
            },
            Expression::Compare { left, comparators, .. } => {
                assert(rest =~= expr_walk(*left) + exprs_in(comparators@));
                lemma_contains_either(expr_walk(*left), exprs_in(comparators@), x);
                lemma_contains_either(expr_walk(*left), exprs_in(comparators@), c);
                if expr_walk(*left).contains(x) {
                    lemma_expr_closed(*left, x, c);
                } else {
                    lemma_list_closed(comparators@, x, c);
                }
            },
            Expression::Call { func, args, keywords } => {
                assert(rest =~= expr_walk(*func) + exprs_in(args@) + exprs_in_keywords(keywords@));
                lemma_three_parts(expr_walk(*func), exprs_in(args@), exprs_in_keywords(keywords@), x);
                lemma_three_parts(expr_walk(*func), exprs_in(args@), exprs_in_keywords(keywords@), c);
                if expr_walk(*func).contains(x) {
                    lemma_expr_closed(*func, x, c);
                } else if exprs_in(args@).contains(x) {
                    lemma_list_closed(args@, x, c);
                } else {
                    lemma_keywords_closed(keywords@, x, c);
                }
            },
            Expression::FormattedValue { value } => {
                assert(rest =~= expr_walk(*value));
                lemma_expr_closed(*value, x, c);
            },
            Expression::JoinedStr { values } => {
                assert(rest =~= exprs_in(values@));
                lemma_list_closed(values@, x, c);
            },
            Expression::Attribute { value, .. } => {
                assert(rest =~= expr_walk(*value));
                lemma_expr_closed(*value, x, c);
            },
            Expression::Subscript { value, slice } => {
                assert(rest =~= expr_walk(*value) + expr_walk(*slice));
                lemma_contains_either(expr_walk(*value), expr_walk(*slice), x);
                lemma_contains_either(expr_walk(*value), expr_walk(*slice), c);
                if expr_walk(*value).contains(x) {
                    lemma_expr_closed(*value, x, c);
                } else {
                    lemma_expr_closed(*slice, x, c);
                }
            },
            Expression::Starred { value } => {
                assert(rest =~= expr_walk(*value));
                lemma_expr_closed(*value, x, c);
            },
            Expression::List { elts } => {
                assert(rest =~= exprs_in(elts@));
                lemma_list_closed(elts@, x, c);
            },
            Expression::Tuple { elts } => {
                assert(rest =~= exprs_in(elts@));
                lemma_list_closed(elts@, x, c);
            },
            Expression::Slice { lower, upper, step } => {
                assert(rest =~= exprs_in_option(lower) + exprs_in_option(upper) + exprs_in_option(step));
                lemma_three_parts(exprs_in_option(lower), exprs_in_option(upper), exprs_in_option(step), x);
                lemma_three_parts(exprs_in_option(lower), exprs_in_option(upper), exprs_in_option(step), c);
                if exprs_in_option(lower).contains(x) {
                    lemma_option_closed(lower, x, c);
                } else if exprs_in_option(upper).contains(x) {
                    lemma_option_closed(upper, x, c);
                } else {
                    lemma_option_closed(step, x, c);
                }
            },
            Expression::Constant { .. } => {
                assert(rest =~= Seq::empty());
            },
            Expression::Name { .. } => {
                assert(rest =~= Seq::empty());
            },
        }
    }
}

/// A walk through an expression comes by the expression itself, and by whatever stands
/// directly inside one that it comes by: so by all that is evaluated there, at any
/// depth.
pub proof fn expression_walks_leave_nothing_out(e: Expression, x: Expression, c: Expression)
    ensures
        expr_walk(e).contains(e),
        expr_walk(e).contains(x) && is_part_of(x, c) ==> expr_walk(e).contains(c),
{
    lemma_walk_starts_with(e);
    if expr_walk(e).contains(x) && is_part_of(x, c) {
        lemma_expr_closed(e, x, c);
    }
}

} // verus!
