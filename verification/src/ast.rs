//! Python syntax trees, as far as the analyses read them.
use vstd::prelude::*;

verus! {

/// Where a statement stands in the source: byte offsets, the end excluded.
#[derive(Debug, Clone, Copy)]
pub struct Span {
    pub start: usize,
    pub end: usize,
}

/// A function definition, plain or `async`.
#[derive(Debug)]
pub struct FunctionDef {
    pub span: Span,
    pub name: String,
    pub args: Params,
    pub body: Vec<Statement>,
    pub decorator_list: Vec<Expression>,
    pub return_type: Option<Box<Expression>>,
}

#[derive(Debug)]
pub struct ClassDef {
    pub span: Span,
    pub name: String,
    pub bases: Vec<Expression>,
    pub keywords: Vec<KeywordArg>,
    pub body: Vec<Statement>,
    pub decorator_list: Vec<Expression>,
}

/// A `for` loop, plain or `async`.
#[derive(Debug)]
pub struct ForLoop {
    pub span: Span,
    pub target: Box<Expression>,
    pub iter: Box<Expression>,
    pub body: Vec<Statement>,
    pub orelse: Vec<Statement>,
}

/// An `if` or `while` statement.
#[derive(Debug)]
pub struct Branch {
    pub span: Span,
    pub test: Box<Expression>,
    pub body: Vec<Statement>,
    pub orelse: Vec<Statement>,
}

/// A `with` statement, plain or `async`.
#[derive(Debug)]
pub struct WithBlock {
    pub span: Span,
    pub items: Vec<WithContext>,
    pub body: Vec<Statement>,
}

/// A `try` statement, with `except` or with `except*`.
#[derive(Debug)]
pub struct TryBlock {
    pub span: Span,
    pub body: Vec<Statement>,
    pub handlers: Vec<Handler>,
    pub orelse: Vec<Statement>,
    pub finalbody: Vec<Statement>,
}

#[allow(inconsistent_fields)]
#[derive(Debug)]
pub enum Statement {
    FunctionDef(FunctionDef),
    AsyncFunctionDef(FunctionDef),
    ClassDef(ClassDef),
    Return { span: Span, value: Option<Box<Expression>> },
    Delete { span: Span, targets: Vec<Expression> },
    Assign { span: Span, targets: Vec<Expression>, value: Box<Expression> },
    TypeAlias { span: Span, type_params: Vec<TypeBound>, value: Box<Expression> },
    AugAssign { span: Span, target: Box<Expression>, value: Box<Expression> },
    AnnAssign {
        span: Span,
        target: Box<Expression>,
        annotation: Box<Expression>,
        value: Option<Box<Expression>>,
    },
    For(ForLoop),
    AsyncFor(ForLoop),
    While(Branch),
    If(Branch),
    With(WithBlock),
    AsyncWith(WithBlock),
    Match { span: Span, subject: Box<Expression>, cases: Vec<CaseBlock> },
    Raise { span: Span, exc: Option<Box<Expression>>, cause: Option<Box<Expression>> },
    Try(TryBlock),
    TryStar(TryBlock),
    Assert { span: Span, test: Box<Expression>, msg: Option<Box<Expression>> },
    Import { span: Span, names: Vec<ImportedName> },
    ImportFrom { span: Span, module: Option<String>, names: Vec<ImportedName>, level: Option<u32> },
    Global { span: Span },
    Nonlocal { span: Span },
    Expr { span: Span, value: Box<Expression> },
    Pass { span: Span },
    Break { span: Span },
    Continue { span: Span },
}

impl Statement {
    /// Where the statement stands.
    pub open spec fn place(self) -> Span {
        match self {
            Statement::FunctionDef(f) => f.span,
            Statement::AsyncFunctionDef(f) => f.span,
            Statement::ClassDef(c) => c.span,
            Statement::Return { span, .. } => span,
            Statement::Delete { span, .. } => span,
            Statement::Assign { span, .. } => span,
            Statement::TypeAlias { span, .. } => span,
            Statement::AugAssign { span, .. } => span,
            Statement::AnnAssign { span, .. } => span,
            Statement::For(l) => l.span,
            Statement::AsyncFor(l) => l.span,
            Statement::While(b) => b.span,
            Statement::If(b) => b.span,
            Statement::With(w) => w.span,
            Statement::AsyncWith(w) => w.span,
            Statement::Match { span, .. } => span,
            Statement::Raise { span, .. } => span,
            Statement::Try(t) => t.span,
            Statement::TryStar(t) => t.span,
            Statement::Assert { span, .. } => span,
            Statement::Import { span, .. } => span,
            Statement::ImportFrom { span, .. } => span,
            Statement::Global { span } => span,
            Statement::Nonlocal { span } => span,
            Statement::Expr { span, .. } => span,
            Statement::Pass { span } => span,
            Statement::Break { span } => span,
            Statement::Continue { span } => span,
        }
    }
}

/// A list, set or generator comprehension.
#[derive(Debug)]
pub struct Comp {
    pub elt: Box<Expression>,
    pub generators: Vec<CompClause>,
}

#[allow(inconsistent_fields)]
#[derive(Debug)]
pub enum Expression {
    BoolOp { values: Vec<Expression> },
    NamedExpr { target: Box<Expression>, value: Box<Expression> },
    BinOp { left: Box<Expression>, right: Box<Expression> },
    UnaryOp { operand: Box<Expression> },
    Lambda { body: Box<Expression> },
    IfExp { test: Box<Expression>, body: Box<Expression>, orelse: Box<Expression> },
    Dict { keys: Vec<Option<Expression>>, values: Vec<Expression> },
    SetDisplay { elts: Vec<Expression> },
    ListComp(Comp),
    SetComp(Comp),
    DictComp { key: Box<Expression>, value: Box<Expression>, generators: Vec<CompClause> },
    GeneratorExp(Comp),
    Await { value: Box<Expression> },
    Yield { value: Option<Box<Expression>> },
    YieldFrom { value: Box<Expression> },
    Compare { left: Box<Expression>, ops: Vec<CompareOp>, comparators: Vec<Expression> },
    Call { func: Box<Expression>, args: Vec<Expression>, keywords: Vec<KeywordArg> },
    FormattedValue { value: Box<Expression> },
    JoinedStr { values: Vec<Expression> },
    Constant { value: Literal },
    Attribute { value: Box<Expression>, attr: String },
    Subscript { value: Box<Expression>, slice: Box<Expression> },
    Starred { value: Box<Expression> },
    Name { id: String },
    List { elts: Vec<Expression> },
    Tuple { elts: Vec<Expression> },
    Slice { lower: Option<Box<Expression>>, upper: Option<Box<Expression>>, step: Option<Box<Expression>> },
}

/// A literal: a string, or anything else.
#[derive(Debug)]
pub enum Literal {
    Str(String),
    Other,
}

/// A comparison: `==`, or any other.
#[derive(Debug, Clone, Copy, PartialEq, Eq, Structural)]
pub enum CompareOp {
    Eq,
    Other,
}

#[derive(Debug)]
pub struct CompClause {
    pub target: Expression,
    pub iter: Expression,
    pub ifs: Vec<Expression>,
}

#[derive(Debug)]
pub struct Handler {
    pub type_: Option<Box<Expression>>,
    pub body: Vec<Statement>,
}

#[derive(Debug)]
pub struct Params {
    pub posonlyargs: Vec<Param>,
    pub args: Vec<Param>,
    pub kwonlyargs: Vec<Param>,
    /// The annotation of `*args`, if there is one.
    pub vararg: Option<Box<Expression>>,
    /// The annotation of `**kwargs`, if there is one.
    pub kwarg: Option<Box<Expression>>,
}

/// What a parameter holds besides its name.
#[derive(Debug)]
pub struct Param {
    pub annotation: Option<Box<Expression>>,
    pub default: Option<Box<Expression>>,
}

/// The value of a keyword argument.
#[derive(Debug)]
pub struct KeywordArg {
    pub value: Expression,
}

/// One name of an import statement.
#[derive(Debug)]
pub struct ImportedName {
    pub name: String,
    pub asname: Option<String>,
}

#[derive(Debug)]
pub struct WithContext {
    pub context_expr: Expression,
    pub optional_vars: Option<Box<Expression>>,
}

#[derive(Debug)]
pub struct CaseBlock {
    pub pattern: MatchPattern,
    pub guard: Option<Box<Expression>>,
    pub body: Vec<Statement>,
}

#[derive(Debug)]
pub enum MatchPattern {
    MatchValue { value: Box<Expression> },
    MatchSingleton,
    MatchSequence { patterns: Vec<MatchPattern> },
    MatchMapping { keys: Vec<Expression>, patterns: Vec<MatchPattern> },
    MatchClass { cls: Box<Expression>, patterns: Vec<MatchPattern>, kwd_patterns: Vec<MatchPattern> },
    MatchStar,
    MatchAs { pattern: Option<Box<MatchPattern>> },
    MatchOr { patterns: Vec<MatchPattern> },
}

/// The bound of a type parameter, if it has one.
#[derive(Debug)]
pub struct TypeBound {
    pub bound: Option<Box<Expression>>,
}

} // verus!
