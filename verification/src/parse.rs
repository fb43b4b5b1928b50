//! From source text to syntax trees, by way of the `rustpython-parser` crate.
//!
//! The functions below turn the nodes of `rustpython-ast` into those of
//! [`crate::ast`], one for one; what the analyses do not read is dropped.
use crate::ast::{
    Branch, CaseBlock, ClassDef, Comp, CompClause, CompareOp, Expression, ForLoop, FunctionDef,
    Handler, ImportedName, KeywordArg, Literal, MatchPattern, Param, Params, Span, Statement,
    TryBlock, TypeBound, WithBlock, WithContext,
};
use rustpython_ast as py;
use rustpython_ast::text_size::TextRange;
use rustpython_parser::Parse;
use vstd::prelude::*;

verus! {

/// Byte offsets of a node.
#[verifier::external_type_specification]
#[verifier::external_body]
pub struct ExTextRange(rustpython_ast::text_size::TextRange);

/// A statement node.
#[verifier::external_type_specification]
#[verifier::external_body]
#[verifier::reject_recursive_types(R)]
pub struct ExStmt<R>(py::Stmt<R>);

/// An expression node.
#[verifier::external_type_specification]
#[verifier::external_body]
#[verifier::reject_recursive_types(R)]
pub struct ExExpr<R>(py::Expr<R>);

/// A `match` pattern node.
#[verifier::external_type_specification]
#[verifier::external_body]
#[verifier::reject_recursive_types(R)]
pub struct ExPattern<R>(py::Pattern<R>);

/// A comprehension clause node.
#[verifier::external_type_specification]
#[verifier::external_body]
#[verifier::reject_recursive_types(R)]
pub struct ExComprehension<R>(py::Comprehension<R>);

/// An exception handler node.
#[verifier::external_type_specification]
#[verifier::external_body]
#[verifier::reject_recursive_types(R)]
pub struct ExExceptHandler<R>(py::ExceptHandler<R>);

/// A parameter list node.
#[verifier::external_type_specification]
#[verifier::external_body]
#[verifier::reject_recursive_types(R)]
pub struct ExArguments<R>(py::Arguments<R>);

/// A parameter node with its default.
#[verifier::external_type_specification]
#[verifier::external_body]
#[verifier::reject_recursive_types(R)]
pub struct ExArgWithDefault<R>(py::ArgWithDefault<R>);

/// A keyword argument node.
#[verifier::external_type_specification]
#[verifier::external_body]
#[verifier::reject_recursive_types(R)]
pub struct ExKeyword<R>(py::Keyword<R>);

/// An imported name node.
#[verifier::external_type_specification]
#[verifier::external_body]
#[verifier::reject_recursive_types(R)]
pub struct ExAlias<R>(py::Alias<R>);

/// A node of a `with` header.
#[verifier::external_type_specification]
#[verifier::external_body]
#[verifier::reject_recursive_types(R)]
pub struct ExWithItem<R>(py::WithItem<R>);

/// A `case` node.
#[verifier::external_type_specification]
#[verifier::external_body]
#[verifier::reject_recursive_types(R)]
pub struct ExMatchCase<R>(py::MatchCase<R>);

/// A type parameter node.
#[verifier::external_type_specification]
#[verifier::external_body]
#[verifier::reject_recursive_types(R)]
pub struct ExTypeParam<R>(py::TypeParam<R>);

/// What `rustpython_ast::Suite::parse` makes of a source text and the name of
/// its file: the statements of the module, or the message of the error.
pub uninterp spec fn python_suite(source: Seq<char>, path: Seq<char>) -> Result<Seq<Statement>, Seq<char>>;

/// The statements or the message of a result.
pub open spec fn suite_view(r: Result<Vec<Statement>, String>) -> Result<Seq<Statement>, Seq<char>> {
    match r {
        Ok(v) => Ok(v@),
        Err(m) => Err(m@),
    }
}

/// `rustpython_ast::Suite::parse`, with the statements turned into those of
/// this crate and the error into its message. The parser counts bytes in 32
/// bits, so the source must not be longer than that.
#[verifier::external_body]
pub(crate) fn parse_suite(source: &str, path: &str) -> (r: Result<Vec<Statement>, String>)
    requires
        vstd::utf8::encode_utf8(source@).len() < u32::MAX,
    ensures
        suite_view(r) == python_suite(source@, path@),
{
    match py::Suite::parse(source, path) {
        Ok(body) => Ok(stmts(body)),
        Err(e) => Err(e.to_string()),
    }
}

/// `TextRange::start` and `TextRange::end`.
#[verifier::external_body]
fn span(r: TextRange) -> Span {
    Span { start: r.start().to_usize(), end: r.end().to_usize() }
}

/// Each statement of a list.
#[verifier::external_body]
fn stmts(v: Vec<py::Stmt>) -> Vec<Statement> {
    v.into_iter().map(stmt).collect()
}

/// Each expression of a list.
#[verifier::external_body]
fn exprs(v: Vec<py::Expr>) -> Vec<Expression> {
    v.into_iter().map(expr).collect()
}

/// A boxed expression.
#[verifier::external_body]
fn boxed(e: Box<py::Expr>) -> Box<Expression> {
    Box::new(expr(*e))
}

/// An expression that may be missing.
#[verifier::external_body]
fn option(e: Option<Box<py::Expr>>) -> Option<Box<Expression>> {
    e.map(boxed)
}

/// The names of an import statement.
#[verifier::external_body]
fn aliases(v: Vec<py::Alias>) -> Vec<ImportedName> {
    v.into_iter()
        .map(|a| ImportedName { name: a.name.into(), asname: a.asname.map(|n| n.into()) })
        .collect()
}

/// The values of keyword arguments.
#[verifier::external_body]
fn keywords(v: Vec<py::Keyword>) -> Vec<KeywordArg> {
    v.into_iter().map(|k| KeywordArg { value: expr(k.value) }).collect()
}

/// Exception handlers; `py::ExceptHandler` has a single variant.
#[verifier::external_body]
fn handlers(v: Vec<py::ExceptHandler>) -> Vec<Handler> {
    v.into_iter()
        .map(|h| {
            let py::ExceptHandler::ExceptHandler(h) = h;
            Handler { type_: option(h.type_), body: stmts(h.body) }
        })
        .collect()
}

/// The clauses of a comprehension.
#[verifier::external_body]
fn comprehensions(v: Vec<py::Comprehension>) -> Vec<CompClause> {
    v.into_iter()
        .map(|c| CompClause { target: expr(c.target), iter: expr(c.iter), ifs: exprs(c.ifs) })
        .collect()
}

/// The header of a `with` statement.
#[verifier::external_body]
fn items(v: Vec<py::WithItem>) -> Vec<WithContext> {
    v.into_iter()
        .map(|i| WithContext {
            context_expr: expr(i.context_expr),
            optional_vars: option(i.optional_vars),
        })
        .collect()
}

/// The cases of a `match` statement.
#[verifier::external_body]
fn cases(v: Vec<py::MatchCase>) -> Vec<CaseBlock> {
    v.into_iter()
        .map(|c| CaseBlock {
            pattern: pattern(c.pattern),
            guard: option(c.guard),
            body: stmts(c.body),
        })
        .collect()
}

/// The bounds of type parameters; only a type variable can have one.
#[verifier::external_body]
fn type_params(v: Vec<py::TypeParam>) -> Vec<TypeBound> {
    v.into_iter()
        .map(|p| match p {
            py::TypeParam::TypeVar(t) => TypeBound { bound: option(t.bound) },
            py::TypeParam::ParamSpec(_) => TypeBound { bound: None },
            py::TypeParam::TypeVarTuple(_) => TypeBound { bound: None },
        })
        .collect()
}

/// Parameters with their annotations and defaults.
#[verifier::external_body]
fn args(v: Vec<py::ArgWithDefault>) -> Vec<Param> {
    v.into_iter()
        .map(|a| Param { annotation: option(a.def.annotation), default: option(a.default) })
        .collect()
}

/// A parameter list.
#[verifier::external_body]
fn arguments(a: Box<py::Arguments>) -> Params {
    Params {
        posonlyargs: args(a.posonlyargs),
        args: args(a.args),
        kwonlyargs: args(a.kwonlyargs),
        vararg: a.vararg.and_then(|v| option(v.annotation)),
        kwarg: a.kwarg.and_then(|k| option(k.annotation)),
    }
}

/// Each pattern of a list.
#[verifier::external_body]
fn patterns(v: Vec<py::Pattern>) -> Vec<MatchPattern> {
    v.into_iter().map(pattern).collect()
}

/// A `match` pattern.
#[verifier::external_body]
fn pattern(p: py::Pattern) -> MatchPattern {
    match p {
        py::Pattern::MatchValue(m) => MatchPattern::MatchValue { value: boxed(m.value) },
        py::Pattern::MatchSingleton(_) => MatchPattern::MatchSingleton,
        py::Pattern::MatchSequence(m) => MatchPattern::MatchSequence { patterns: patterns(m.patterns) },
        py::Pattern::MatchMapping(m) => mapping_pattern(m.keys, m.patterns),
        py::Pattern::MatchClass(m) => class_pattern(m.cls, m.patterns, m.kwd_patterns),
        py::Pattern::MatchStar(_) => MatchPattern::MatchStar,
        py::Pattern::MatchAs(m) => {
            MatchPattern::MatchAs { pattern: m.pattern.map(|p| Box::new(pattern(*p))) }
        }
        py::Pattern::MatchOr(m) => MatchPattern::MatchOr { patterns: patterns(m.patterns) },
    }
}

/// A `{..}` pattern.
#[verifier::external_body]
fn mapping_pattern(keys: Vec<py::Expr>, inner: Vec<py::Pattern>) -> MatchPattern {
    MatchPattern::MatchMapping { keys: exprs(keys), patterns: patterns(inner) }
}

/// A `Class(..)` pattern.
#[verifier::external_body]
fn class_pattern(cls: Box<py::Expr>, inner: Vec<py::Pattern>, kwd: Vec<py::Pattern>) -> MatchPattern {
    MatchPattern::MatchClass { cls: boxed(cls), patterns: patterns(inner), kwd_patterns: patterns(kwd) }
}

/// A statement: definitions, and on to the other statements.
#[verifier::external_body]
fn stmt(s: py::Stmt) -> Statement {
    match s {
        py::Stmt::FunctionDef(f) => Statement::FunctionDef(function_def(
            f.range, f.name.into(), f.args, f.body, f.decorator_list, f.returns,
        )),
        py::Stmt::AsyncFunctionDef(f) => Statement::AsyncFunctionDef(function_def(
            f.range, f.name.into(), f.args, f.body, f.decorator_list, f.returns,
        )),
        py::Stmt::ClassDef(c) => Statement::ClassDef(ClassDef {
            span: span(c.range), name: c.name.into(), bases: exprs(c.bases),
            keywords: keywords(c.keywords), body: stmts(c.body),
            decorator_list: exprs(c.decorator_list),
        }),
        other => stmt_assigning(other),
    }
}

/// A function definition.
#[verifier::external_body]
fn function_def(
    range: TextRange,
    name: String,
    args: Box<py::Arguments>,
    body: Vec<py::Stmt>,
    decorators: Vec<py::Expr>,
    return_type: Option<Box<py::Expr>>,
) -> FunctionDef {
    FunctionDef {
        span: span(range), name, args: arguments(args), body: stmts(body),
        decorator_list: exprs(decorators), return_type: option(return_type),
    }
}

/// A statement: those that bind or return values, and on to the others.
#[verifier::external_body]
fn stmt_assigning(s: py::Stmt) -> Statement {
    match s {
        py::Stmt::Return(x) => Statement::Return { span: span(x.range), value: option(x.value) },
        py::Stmt::Assign(x) => {
            Statement::Assign { span: span(x.range), targets: exprs(x.targets), value: boxed(x.value) }
        }
        py::Stmt::AugAssign(x) => {
            Statement::AugAssign { span: span(x.range), target: boxed(x.target), value: boxed(x.value) }
        }
        py::Stmt::AnnAssign(x) => Statement::AnnAssign {
            span: span(x.range), target: boxed(x.target), annotation: boxed(x.annotation),
            value: option(x.value),
        },
        other => stmt_branching(other),
    }
}

/// A statement: branches and loops, and on to the others.
#[verifier::external_body]
fn stmt_branching(s: py::Stmt) -> Statement {
    match s {
        py::Stmt::While(x) => Statement::While(branch(x.range, x.test, x.body, x.orelse)),
        py::Stmt::If(x) => Statement::If(branch(x.range, x.test, x.body, x.orelse)),
        py::Stmt::For(x) => Statement::For(for_loop(x.range, x.target, x.iter, x.body, x.orelse)),
        py::Stmt::AsyncFor(x) => {
            Statement::AsyncFor(for_loop(x.range, x.target, x.iter, x.body, x.orelse))
        }
        other => stmt_matching(other),
    }
}

/// A statement: `with` and `match`, and on to the others.
#[verifier::external_body]
fn stmt_matching(s: py::Stmt) -> Statement {
    match s {
        py::Stmt::With(x) => Statement::With(with_block(x.range, x.items, x.body)),
        py::Stmt::AsyncWith(x) => Statement::AsyncWith(with_block(x.range, x.items, x.body)),
        py::Stmt::Match(x) => {
            Statement::Match { span: span(x.range), subject: boxed(x.subject), cases: cases(x.cases) }
        }
        other => stmt_trying(other),
    }
}

/// A statement: `try`, `raise` and `assert`, and on to the others.
#[verifier::external_body]
fn stmt_trying(s: py::Stmt) -> Statement {
    match s {
        py::Stmt::Try(x) => {
            Statement::Try(try_block(x.range, x.body, x.handlers, x.orelse, x.finalbody))
        }
        py::Stmt::TryStar(x) => {
            Statement::TryStar(try_block(x.range, x.body, x.handlers, x.orelse, x.finalbody))
        }
        py::Stmt::Raise(x) => {
            Statement::Raise { span: span(x.range), exc: option(x.exc), cause: option(x.cause) }
        }
        py::Stmt::Assert(x) => {
            Statement::Assert { span: span(x.range), test: boxed(x.test), msg: option(x.msg) }
        }
        other => stmt_importing(other),
    }
}

/// A statement: imports, `type` and `del`, and on to the others.
#[verifier::external_body]
fn stmt_importing(s: py::Stmt) -> Statement {
    match s {
        py::Stmt::Import(x) => Statement::Import { span: span(x.range), names: aliases(x.names) },
        py::Stmt::ImportFrom(x) => Statement::ImportFrom {
            span: span(x.range), module: x.module.map(|m| m.into()), names: aliases(x.names),
            level: x.level.map(|l| l.to_u32()),
        },
        py::Stmt::TypeAlias(x) => Statement::TypeAlias {
            span: span(x.range), type_params: type_params(x.type_params), value: boxed(x.value),
        },
        py::Stmt::Delete(x) => Statement::Delete { span: span(x.range), targets: exprs(x.targets) },
        other => stmt_plain(other),
    }
}

/// A statement: the rest, and back to the first group.
#[verifier::external_body]
fn stmt_plain(s: py::Stmt) -> Statement {
    match s {
        py::Stmt::Global(x) => Statement::Global { span: span(x.range) },
        py::Stmt::Nonlocal(x) => Statement::Nonlocal { span: span(x.range) },
        py::Stmt::Expr(x) => Statement::Expr { span: span(x.range), value: boxed(x.value) },
        py::Stmt::Pass(x) => Statement::Pass { span: span(x.range) },
        py::Stmt::Break(x) => Statement::Break { span: span(x.range) },
        py::Stmt::Continue(x) => Statement::Continue { span: span(x.range) },
        other => stmt(other),
    }
}

/// An `if` or `while` statement.
#[verifier::external_body]
fn branch(r: TextRange, test: Box<py::Expr>, body: Vec<py::Stmt>, orelse: Vec<py::Stmt>) -> Branch {
    Branch { span: span(r), test: boxed(test), body: stmts(body), orelse: stmts(orelse) }
}

/// A `for` loop.
#[verifier::external_body]
fn for_loop(
    range: TextRange,
    target: Box<py::Expr>,
    iter: Box<py::Expr>,
    body: Vec<py::Stmt>,
    orelse: Vec<py::Stmt>,
) -> ForLoop {
    ForLoop {
        span: span(range), target: boxed(target), iter: boxed(iter), body: stmts(body),
        orelse: stmts(orelse),
    }
}

/// A `with` statement.
#[verifier::external_body]
fn with_block(range: TextRange, header: Vec<py::WithItem>, body: Vec<py::Stmt>) -> WithBlock {
    WithBlock { span: span(range), items: items(header), body: stmts(body) }
}

/// A `try` statement.
#[verifier::external_body]
fn try_block(
    range: TextRange,
    body: Vec<py::Stmt>,
    caught: Vec<py::ExceptHandler>,
    orelse: Vec<py::Stmt>,
    finalbody: Vec<py::Stmt>,
) -> TryBlock {
    TryBlock {
        span: span(range), body: stmts(body), handlers: handlers(caught), orelse: stmts(orelse),
        finalbody: stmts(finalbody),
    }
}

/// An expression: operators, and on to the other expressions.
#[verifier::external_body]
fn expr(e: py::Expr) -> Expression {
    match e {
        py::Expr::BoolOp(x) => Expression::BoolOp { values: exprs(x.values) },
        py::Expr::NamedExpr(x) => {
            Expression::NamedExpr { target: boxed(x.target), value: boxed(x.value) }
        }
        py::Expr::BinOp(x) => Expression::BinOp { left: boxed(x.left), right: boxed(x.right) },
        py::Expr::UnaryOp(x) => Expression::UnaryOp { operand: boxed(x.operand) },
        py::Expr::Lambda(x) => Expression::Lambda { body: boxed(x.body) },
        py::Expr::IfExp(x) => {
            Expression::IfExp { test: boxed(x.test), body: boxed(x.body), orelse: boxed(x.orelse) }
        }
        other => expr_comprehending(other),
    }
}

/// An expression: comprehensions and `yield`, and on to the others.
#[verifier::external_body]
fn expr_comprehending(e: py::Expr) -> Expression {
    match e {
        py::Expr::ListComp(x) => Expression::ListComp(comp(x.elt, x.generators)),
        py::Expr::SetComp(x) => Expression::SetComp(comp(x.elt, x.generators)),
        py::Expr::GeneratorExp(x) => Expression::GeneratorExp(comp(x.elt, x.generators)),
        py::Expr::DictComp(x) => Expression::DictComp {
            key: boxed(x.key), value: boxed(x.value), generators: comprehensions(x.generators),
        },
        py::Expr::Yield(x) => Expression::Yield { value: option(x.value) },
        py::Expr::YieldFrom(x) => Expression::YieldFrom { value: boxed(x.value) },
        other => expr_calling(other),
    }
}

/// The element and the clauses of a comprehension.
#[verifier::external_body]
fn comp(elt: Box<py::Expr>, generators: Vec<py::Comprehension>) -> Comp {
    Comp { elt: boxed(elt), generators: comprehensions(generators) }
}

/// An expression: calls, comparisons and formatted text, and on to the others.
#[verifier::external_body]
fn expr_calling(e: py::Expr) -> Expression {
    match e {
        py::Expr::Compare(x) => Expression::Compare {
            left: boxed(x.left), ops: compare_ops(x.ops), comparators: exprs(x.comparators),
        },
        py::Expr::Call(x) => Expression::Call {
            func: boxed(x.func), args: exprs(x.args), keywords: keywords(x.keywords),
        },
        py::Expr::FormattedValue(x) => Expression::FormattedValue { value: boxed(x.value) },
        py::Expr::JoinedStr(x) => Expression::JoinedStr { values: exprs(x.values) },
        py::Expr::Constant(x) => Expression::Constant { value: constant(x.value) },
        other => expr_naming(other),
    }
}

/// An expression: names, attributes and displays, and on to the others.
#[verifier::external_body]
fn expr_naming(e: py::Expr) -> Expression {
    match e {
        py::Expr::Attribute(x) => {
            Expression::Attribute { value: boxed(x.value), attr: x.attr.into() }
        }
        py::Expr::Subscript(x) => {
            Expression::Subscript { value: boxed(x.value), slice: boxed(x.slice) }
        }
        py::Expr::Starred(x) => Expression::Starred { value: boxed(x.value) },
        py::Expr::Name(x) => Expression::Name { id: x.id.into() },
        py::Expr::List(x) => Expression::List { elts: exprs(x.elts) },
        py::Expr::Tuple(x) => Expression::Tuple { elts: exprs(x.elts) },
        py::Expr::Set(x) => Expression::SetDisplay { elts: exprs(x.elts) },
        other => expr_slicing(other),
    }
}

/// An expression: dictionaries, slices and `await`, and back to the first group.
#[verifier::external_body]
fn expr_slicing(e: py::Expr) -> Expression {
    match e {
        py::Expr::Dict(x) => Expression::Dict {
            keys: x.keys.into_iter().map(|k| k.map(expr)).collect(), values: exprs(x.values),
        },
        py::Expr::Slice(x) => Expression::Slice {
            lower: option(x.lower), upper: option(x.upper), step: option(x.step),
        },
        py::Expr::Await(x) => Expression::Await { value: boxed(x.value) },
        other => expr(other),
    }
}

/// The value of a literal.
#[verifier::external_body]
fn constant(c: py::Constant) -> Literal {
    match c {
        py::Constant::Str(s) => Literal::Str(s),
        _ => Literal::Other,
    }
}

/// The operators of a comparison.
#[verifier::external_body]
fn compare_ops(v: Vec<py::CmpOp>) -> Vec<CompareOp> {
    v.into_iter()
        .map(|op| match op {
            py::CmpOp::Eq => CompareOp::Eq,
            _ => CompareOp::Other,
        })
        .collect()
}

/// A constant node.
#[verifier::external_type_specification]
#[verifier::external_body]
pub struct ExConstant(py::Constant);

/// A comparison operator.
#[verifier::external_type_specification]
#[verifier::external_body]
pub struct ExCmpOp(py::CmpOp);

} // verus!
