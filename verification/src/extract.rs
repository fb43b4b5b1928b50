//! What a Python module imports, exports and leaves unused.
use crate::ast::{
    Branch, CompareOp, Expression, Handler, ImportedName, Literal, Span, Statement, TryBlock,
};
use crate::collections::{line_map_contents, line_map_get, line_map_new, line_map_push};
use crate::parse::{parse_suite, python_suite};
use crate::path::{FilePath, PathView};
use crate::search::{find_all, match_views, regex_matches, IDENTIFIER};
use crate::text::{
    ascii_lowercase, contains, contains_text, has_prefix, lines, lines_of, lowercase_ascii,
    occurs_at, one_of, same, split, split_on, starts_with, str_views, views,
};
use crate::types::{import_views, ImportKind, ImportSpecifier, ImportView};
use crate::walker::{nested_below, nested_in, nested_in_handlers, nested_stmts, Descent};
use rustc_hash::FxHashMap;
use vstd::prelude::*;
use vstd::utf8::encode_utf8;

verus! {

/// Why a module could not be read.
#[derive(Debug)]
pub enum ExtractError {
    Io { path: FilePath, message: String },
    Parse { path: FilePath, message: String },
}

impl ExtractError {
    /// The error in words.
    pub open spec fn words(self) -> Seq<char> {
        match self {
            ExtractError::Io { path, message } => "io error reading "@ + path@.text() + ": "@
                + message@,
            ExtractError::Parse { path, message } => "parse error in "@ + path@.text() + ": "@
                + message@,
        }
    }

    /// The error in words.
    pub fn describe(&self) -> (r: String)
        ensures
            r@ == self.words(),
    {
        match self {
            ExtractError::Io { path, message } => {
                let mut r = "io error reading ".to_owned();
                r.append(path.text().as_str());
                r.append(": ");
                r.append(message.as_str());
                r
            },
            ExtractError::Parse { path, message } => {
                let mut r = "parse error in ".to_owned();
                r.append(path.text().as_str());
                r.append(": ");
                r.append(message.as_str());
                r
            },
        }
    }
}

/// An import that is never used.
#[derive(Debug)]
pub struct UnusedImportInfo {
    pub name: String,
    pub module: String,
    pub line: u32,
}

pub struct UnusedView {
    pub name: Seq<char>,
    pub module: Seq<char>,
    pub line: nat,
}

impl View for UnusedImportInfo {
    type V = UnusedView;

    open spec fn view(&self) -> UnusedView {
        UnusedView { name: self.name@, module: self.module@, line: self.line as nat }
    }
}

pub open spec fn unused_views(v: Seq<UnusedImportInfo>) -> Seq<UnusedView> {
    v.map_values(|u: UnusedImportInfo| u@)
}

/// A module and what was read off it.
#[derive(Debug)]
pub struct ParsedModule {
    pub path: FilePath,
    pub imports: Vec<ImportSpecifier>,
    pub exports: Vec<String>,
    pub suite: Vec<Statement>,
    /// The module runs code below `if __name__ == "__main__":`.
    pub is_script_entry: bool,
    /// The module defines `__getattr__` at top level. Its importers may use
    /// names that no reading of it shows, so it counts as an entry point.
    pub has_module_getattr: bool,
    pub unused_imports: Vec<UnusedImportInfo>,
    pub source: String,
}

/// How many of the first `n` bytes end a line.
pub open spec fn line_ends(bytes: Seq<u8>, n: int) -> nat
    decreases n,
{
    if n <= 0 {
        0
    } else if bytes[n - 1] == 10 {
        line_ends(bytes, n - 1) + 1
    } else {
        line_ends(bytes, n - 1)
    }
}

/// Where an offset lies in a text, or where the text ends.
pub open spec fn bounded(bytes: Seq<u8>, offset: int) -> int {
    if offset < bytes.len() {
        offset
    } else {
        bytes.len() as int
    }
}

/// The line, counted from 1, on which the byte at `offset` stands. Offsets
/// behind the end stand where the end does.
pub open spec fn line_of(bytes: Seq<u8>, offset: int) -> nat {
    line_ends(bytes, bounded(bytes, offset)) + 1
}

proof fn lemma_line_ends_bound(bytes: Seq<u8>, n: int)
    requires
        0 <= n,
    ensures
        line_ends(bytes, n) <= n,
    decreases n,
{
    if n > 0 {
        lemma_line_ends_bound(bytes, n - 1);
    }
}

proof fn lemma_line_ends_between(bytes: Seq<u8>, from: int, to: int)
    requires
        0 <= from <= to <= bytes.len(),
    ensures
        line_ends(bytes, to) == line_ends(bytes, from) + line_ends(
            bytes.subrange(from, to),
            to - from,
        ),
    decreases to - from,
{
    if from < to {
        let part = bytes.subrange(from, to);
        let shorter = bytes.subrange(from, to - 1);
        lemma_line_ends_between(bytes, from, to - 1);
        lemma_line_ends_same(part, shorter, to - 1 - from);
        assert(part[to - 1 - from] == bytes[to - 1]);
    }
}

proof fn lemma_line_ends_same(a: Seq<u8>, b: Seq<u8>, n: int)
    requires
        0 <= n <= a.len(),
        n <= b.len(),
        forall|i: int| 0 <= i < n ==> a[i] == b[i],
    ensures
        line_ends(a, n) == line_ends(b, n),
    decreases n,
{
    if n > 0 {
        lemma_line_ends_same(a, b, n - 1);
    }
}

/// Lines are counted from 1, and the lines of two offsets differ by the number of
/// line feeds between them; so they never go down, and all offsets behind the end
/// stand on the same line.
pub proof fn lines_differ_by_the_line_feeds_between(bytes: Seq<u8>, from: int, to: int)
    requires
        0 <= from <= to,
    ensures
        line_of(bytes, 0) == 1,
        line_of(bytes, to) - line_of(bytes, from) == line_ends(
            bytes.subrange(bounded(bytes, from), bounded(bytes, to)),
            bounded(bytes, to) - bounded(bytes, from),
        ),
        line_of(bytes, from) <= line_of(bytes, to),
        from >= bytes.len() ==> line_of(bytes, from) == line_of(bytes, to),
{
    lemma_line_ends_between(bytes, bounded(bytes, from), bounded(bytes, to));
}

/// The line number that fits the result type.
pub open spec fn line32(bytes: Seq<u8>, offset: int) -> u32 {
    line_of(bytes, offset) as u32
}

fn line_in(bytes: &[u8], offset: usize) -> (r: u32)
    requires
        bytes@.len() < u32::MAX,
    ensures
        r == line_of(bytes@, offset as int),
        r == line32(bytes@, offset as int),
{
    let end: usize = if offset < bytes.len() {
        offset
    } else {
        bytes.len()
    };
    let mut n: u32 = 0;
    let mut i: usize = 0;
    while i < end
        invariant
            i <= end <= bytes@.len(),
            bytes@.len() < u32::MAX,
            n == line_ends(bytes@, i as int),
            n <= i,
        decreases end - i,
    {
        if bytes[i] == 10 {
            n += 1;
        }
        i += 1;
    }
    n + 1
}

/// The line, counted from 1, on which the byte at `offset` stands.
///
/// The offset must lie between two characters, or behind the end.
pub fn line_at_offset(source: &str, offset: usize) -> (r: u32)
    requires
        encode_utf8(source@).len() < u32::MAX,
        offset < encode_utf8(source@).len() ==> vstd::utf8::is_char_boundary(
            encode_utf8(source@),
            offset as int,
        ),
    ensures
        r == line_of(encode_utf8(source@), offset as int),
{
    line_in(source.as_bytes(), offset)
}

/// Whether an expression is the name `id`.
pub open spec fn is_name(e: Expression, id: Seq<char>) -> bool {
    e matches Expression::Name { id: n } && n@ == id
}

pub(crate) fn expr_is_name(e: &Expression, id: &str) -> (r: bool)
    ensures
        r == is_name(*e, id@),
{
    match e {
        Expression::Name { id: n } => same(n.as_str(), id),
        _ => false,
    }
}

/// Whether some expression of the list is the name `id`.
pub open spec fn some_name(v: Seq<Expression>, id: Seq<char>) -> bool {
    exists|i: int| 0 <= i < v.len() && is_name(#[trigger] v[i], id)
}

pub(crate) fn any_is_name(v: &Vec<Expression>, id: &str) -> (r: bool)
    ensures
        r == some_name(v@, id@),
{
    let mut i: usize = 0;
    while i < v.len()
        invariant
            i <= v@.len(),
            forall|j: int| 0 <= j < i ==> !is_name(#[trigger] v@[j], id@),
        decreases v@.len() - i,
    {
        if expr_is_name(&v[i], id) {
            return true;
        }
        i += 1;
    }
    false
}

/// Whether a statement defines the name `id`: as a function, or by assignment.
pub open spec fn defines(s: Statement, id: Seq<char>) -> bool {
    match s {
        Statement::FunctionDef(f) => f.name@ == id,
        Statement::AsyncFunctionDef(f) => f.name@ == id,
        Statement::Assign { targets, .. } => some_name(targets@, id),
        Statement::AnnAssign { target, .. } => is_name(*target, id),
        _ => false,
    }
}

fn is_module_getattr_definition(stmt: &Statement) -> (r: bool)
    ensures
        r == defines(*stmt, "__getattr__"@),
{
    match stmt {
        Statement::FunctionDef(f) => same(f.name.as_str(), "__getattr__"),
        Statement::AsyncFunctionDef(f) => same(f.name.as_str(), "__getattr__"),
        Statement::Assign { targets, .. } => any_is_name(targets, "__getattr__"),
        Statement::AnnAssign { target, .. } => expr_is_name(target, "__getattr__"),
        _ => false,
    }
}

/// Whether an expression is the string `text`.
pub open spec fn is_string(e: Expression, text: Seq<char>) -> bool {
    e matches Expression::Constant { value } && value matches Literal::Str(s) && s@ == text
}

fn is_main_string_literal(e: &Expression) -> (r: bool)
    ensures
        r == is_string(*e, "__main__"@),
{
    match e {
        Expression::Constant { value } => match value {
            Literal::Str(s) => same(s.as_str(), "__main__"),
            Literal::Other => false,
        },
        _ => false,
    }
}

/// Whether a statement is `if __name__ == "__main__":`, either way round.
pub open spec fn is_main_guard(s: Statement) -> bool {
    match s {
        Statement::If(b) => match *b.test {
            Expression::Compare { left, ops, comparators } => {
                &&& ops@.len() == 1
                &&& ops@[0] == CompareOp::Eq
                &&& comparators@.len() > 0
                &&& ((is_name(*left, "__name__"@) && is_string(comparators@[0], "__main__"@)) || (
                is_string(*left, "__main__"@) && is_name(comparators@[0], "__name__"@)))
            },
            _ => false,
        },
        _ => false,
    }
}

fn is_name_eq_main_guard(stmt: &Statement) -> (r: bool)
    ensures
        r == is_main_guard(*stmt),
{
    match stmt {
        Statement::If(b) => match &*b.test {
            Expression::Compare { left, ops, comparators } => {
                if ops.len() != 1 || comparators.len() == 0 {
                    return false;
                }
                match ops[0] {
                    CompareOp::Eq => {},
                    CompareOp::Other => return false,
                }
                if expr_is_name(left, "__name__") && is_main_string_literal(&comparators[0]) {
                    return true;
                }
                is_main_string_literal(left) && expr_is_name(&comparators[0], "__name__")
            },
            _ => false,
        },
        _ => false,
    }
}

/// Whether some statement of a list is such a guard.
pub open spec fn has_main_guard(v: Seq<Statement>) -> bool {
    exists|i: int| 0 <= i < v.len() && is_main_guard(#[trigger] v[i])
}

/// Whether some statement of a list defines `__getattr__`.
pub open spec fn has_getattr(v: Seq<Statement>) -> bool {
    exists|i: int| 0 <= i < v.len() && defines(#[trigger] v[i], "__getattr__"@)
}

fn any_main_guard(v: &Vec<Statement>) -> (r: bool)
    ensures
        r == has_main_guard(v@),
{
    let mut i: usize = 0;
    while i < v.len()
        invariant
            i <= v@.len(),
            forall|j: int| 0 <= j < i ==> !is_main_guard(#[trigger] v@[j]),
        decreases v@.len() - i,
    {
        if is_name_eq_main_guard(&v[i]) {
            return true;
        }
        i += 1;
    }
    false
}

fn any_getattr(v: &Vec<Statement>) -> (r: bool)
    ensures
        r == has_getattr(v@),
{
    let mut i: usize = 0;
    while i < v.len()
        invariant
            i <= v@.len(),
            forall|j: int| 0 <= j < i ==> !defines(#[trigger] v@[j], "__getattr__"@),
        decreases v@.len() - i,
    {
        if is_module_getattr_definition(&v[i]) {
            return true;
        }
        i += 1;
    }
    false
}

/// Whether an expression is `TYPE_CHECKING`, with or without a module before it.
pub open spec fn is_type_checking(e: Expression) -> bool {
    match e {
        Expression::Name { id } => id@ == "TYPE_CHECKING"@,
        Expression::Attribute { attr, .. } => attr@ == "TYPE_CHECKING"@,
        _ => false,
    }
}

fn is_type_checking_test(e: &Expression) -> (r: bool)
    ensures
        r == is_type_checking(*e),
{
    match e {
        Expression::Name { id } => same(id.as_str(), "TYPE_CHECKING"),
        Expression::Attribute { attr, .. } => same(attr.as_str(), "TYPE_CHECKING"),
        _ => false,
    }
}

/// Whether an exception type is that of a failed import, alone or in a tuple.
pub open spec fn names_import_error(e: Expression) -> bool
    decreases e,
{
    match e {
        Expression::Name { id } => id@ == "ImportError"@ || id@ == "ModuleNotFoundError"@,
        Expression::Tuple { elts } => some_names_import_error(elts@),
        _ => false,
    }
}

pub open spec fn some_names_import_error(v: Seq<Expression>) -> bool
    decreases v,
{
    if v.len() == 0 {
        false
    } else {
        some_names_import_error(v.drop_last()) || names_import_error(v.last())
    }
}

fn expr_names_import_error(e: &Expression) -> (r: bool)
    ensures
        r == names_import_error(*e),
    decreases e,
{
    match e {
        Expression::Name { id } => same(id.as_str(), "ImportError") || same(
            id.as_str(),
            "ModuleNotFoundError",
        ),
        Expression::Tuple { elts } => any_names_import_error(elts),
        _ => false,
    }
}

fn any_names_import_error(v: &Vec<Expression>) -> (r: bool)
    ensures
        r == some_names_import_error(v@),
    decreases v,
{
    let mut i: usize = 0;
    let mut found = false;
    while i < v.len()
        invariant
            i <= v@.len(),
            found == some_names_import_error(v@.take(i as int)),
        decreases v@.len() - i,
    {
        let x = &v[i];
        assert(v@.take(i + 1).drop_last() =~= v@.take(i as int));
        assert(v@.take(i + 1).last() == x);
        if expr_names_import_error(x) {
            found = true;
        }
        i += 1;
    }
    assert(v@.take(i as int) =~= v@);
    found
}

/// Whether one of the handlers catches a failed import.
pub open spec fn handles_import_error(v: Seq<Handler>) -> bool {
    exists|i: int|
        0 <= i < v.len() && (#[trigger] v[i].type_ matches Some(t) && names_import_error(*t))
}

fn any_handles_import_error(v: &Vec<Handler>) -> (r: bool)
    ensures
        r == handles_import_error(v@),
{
    let mut i: usize = 0;
    while i < v.len()
        invariant
            i <= v@.len(),
            forall|j: int|
                0 <= j < i ==> !(#[trigger] v@[j].type_ matches Some(t) && names_import_error(*t)),
        decreases v@.len() - i,
    {
        match &v[i].type_ {
            Some(t) => {
                if expr_names_import_error(t) {
                    return true;
                }
            },
            None => {},
        }
        i += 1;
    }
    false
}

/// The circumstances of an import.
#[derive(Clone, Copy)]
pub struct Setting {
    /// The import may not run.
    pub conditional: bool,
    /// The import never runs.
    pub type_only: bool,
}

/// The imports of `import a, b.c as d`.
pub open spec fn plain_imports(names: Seq<ImportedName>, at: Setting, line: u32) -> Seq<ImportView> {
    names.map_values(
        |n: ImportedName|
            ImportView {
                raw: n.name@,
                kind: ImportKind::Absolute,
                is_conditional: at.conditional,
                is_type_only: at.type_only,
                line,
            },
    )
}

/// The kind of an import with `level` leading dots.
pub open spec fn kind_of_level(level: Option<u32>) -> ImportKind {
    match level {
        Some(n) => if n > 0 {
            ImportKind::Relative { level: n }
        } else {
            ImportKind::Absolute
        },
        None => ImportKind::Absolute,
    }
}

/// A name that is imported from a module: it may be a module of its own.
pub open spec fn member(module: Seq<char>, name: Seq<char>) -> Seq<char> {
    if module.len() == 0 {
        name
    } else {
        module + "."@ + name
    }
}

/// The members of `from module import a, b`; `*` stands for none.
pub open spec fn member_imports(
    module: Seq<char>,
    names: Seq<ImportedName>,
    kind: ImportKind,
    at: Setting,
    line: u32,
) -> Seq<ImportView>
    decreases names.len(),
{
    if names.len() == 0 {
        Seq::empty()
    } else {
        let before = member_imports(module, names.drop_last(), kind, at, line);
        if names.last().name@ == "*"@ {
            before
        } else {
            before.push(
                ImportView {
                    raw: member(module, names.last().name@),
                    kind,
                    is_conditional: at.conditional,
                    is_type_only: at.type_only,
                    line,
                },
            )
        }
    }
}

pub open spec fn text_or_empty(o: Option<String>) -> Seq<char> {
    match o {
        Some(s) => s@,
        None => Seq::empty(),
    }
}

/// The imports of `from module import a, b`: the module, if it is named, and
/// each member.
pub open spec fn from_imports(
    module: Seq<char>,
    names: Seq<ImportedName>,
    kind: ImportKind,
    at: Setting,
    line: u32,
) -> Seq<ImportView> {
    let members = member_imports(module, names, kind, at, line);
    if module.len() == 0 {
        members
    } else {
        seq![
            ImportView {
                raw: module,
                kind,
                is_conditional: at.conditional,
                is_type_only: at.type_only,
                line,
            },
        ] + members
    }
}

/// The imports of a statement and of those inside it, in a source with the
/// given bytes. Imports below `if TYPE_CHECKING:` never run; those in a `try`
/// that catches a failed import, and those in a handler, may not run.
pub open spec fn imports_of(s: Statement, bytes: Seq<u8>, at: Setting) -> Seq<ImportView>
    decreases s,
{
    match s {
        Statement::Import { span, names } => plain_imports(
            names@,
            at,
            line32(bytes, span.start as int),
        ),
        Statement::ImportFrom { span, module, names, level } => from_imports(
            text_or_empty(module),
            names@,
            kind_of_level(level),
            at,
            line32(bytes, span.start as int),
        ),
        Statement::If(b) => {
            let guarded = is_type_checking(*b.test);
            imports_in(
                b.body@,
                bytes,
                Setting {
                    conditional: at.conditional || guarded,
                    type_only: at.type_only || guarded,
                },
            ) + imports_in(b.orelse@, bytes, at)
        },
        Statement::Try(t) => imports_in(
            t.body@,
            bytes,
            Setting {
                conditional: at.conditional || handles_import_error(t.handlers@),
                type_only: at.type_only,
            },
        ) + imports_in_handlers(
            t.handlers@,
            bytes,
            Setting { conditional: true, type_only: at.type_only },
        ) + imports_in(t.orelse@, bytes, at) + imports_in(t.finalbody@, bytes, at),
        Statement::FunctionDef(f) => imports_in(f.body@, bytes, at),
        Statement::AsyncFunctionDef(f) => imports_in(f.body@, bytes, at),
        Statement::ClassDef(c) => imports_in(c.body@, bytes, at),
        Statement::With(w) => imports_in(w.body@, bytes, at),
        Statement::AsyncWith(w) => imports_in(w.body@, bytes, at),
        _ => Seq::empty(),
    }
}

pub open spec fn imports_in(v: Seq<Statement>, bytes: Seq<u8>, at: Setting) -> Seq<ImportView>
    decreases v,
{
    if v.len() == 0 {
        Seq::empty()
    } else {
        imports_in(v.drop_last(), bytes, at) + imports_of(v.last(), bytes, at)
    }
}

pub open spec fn imports_in_handlers(v: Seq<Handler>, bytes: Seq<u8>, at: Setting) -> Seq<
    ImportView,
>
    decreases v,
{
    if v.len() == 0 {
        Seq::empty()
    } else {
        imports_in_handlers(v.drop_last(), bytes, at) + imports_in(v.last().body@, bytes, at)
    }
}

/// The names among a list of assignment targets.
pub open spec fn target_names(v: Seq<Expression>) -> Seq<Seq<char>>
    decreases v.len(),
{
    if v.len() == 0 {
        Seq::empty()
    } else {
        target_names(v.drop_last()) + name_of(v.last())
    }
}

/// The name that an expression is, if it is one.
pub open spec fn name_of(e: Expression) -> Seq<Seq<char>> {
    match e {
        Expression::Name { id } => seq![id@],
        _ => Seq::empty(),
    }
}

/// The names that a top-level statement defines. What is inside a function or
/// a class is not at top level.
pub open spec fn exports_of(s: Statement) -> Seq<Seq<char>>
    decreases s,
{
    match s {
        Statement::If(b) => exports_in(b.body@) + exports_in(b.orelse@),
        Statement::Try(t) => exports_in(t.body@) + exports_in_handlers(t.handlers@) + exports_in(
            t.orelse@,
        ) + exports_in(t.finalbody@),
        Statement::FunctionDef(f) => seq![f.name@],
        Statement::AsyncFunctionDef(f) => seq![f.name@],
        Statement::ClassDef(c) => seq![c.name@],
        Statement::With(w) => exports_in(w.body@),
        Statement::AsyncWith(w) => exports_in(w.body@),
        Statement::Assign { targets, .. } => target_names(targets@),
        Statement::AnnAssign { target, .. } => name_of(*target),
        _ => Seq::empty(),
    }
}

pub open spec fn exports_in(v: Seq<Statement>) -> Seq<Seq<char>>
    decreases v,
{
    if v.len() == 0 {
        Seq::empty()
    } else {
        exports_in(v.drop_last()) + exports_of(v.last())
    }
}

pub open spec fn exports_in_handlers(v: Seq<Handler>) -> Seq<Seq<char>>
    decreases v,
{
    if v.len() == 0 {
        Seq::empty()
    } else {
        exports_in_handlers(v.drop_last()) + exports_in(v.last().body@)
    }
}

/// `e` if `top` holds, nothing otherwise.
pub open spec fn at_top(top: bool, e: Seq<Seq<char>>) -> Seq<Seq<char>> {
    if top {
        e
    } else {
        Seq::empty()
    }
}

/// Collects the imports and exports of a module.
struct Visitor {
    imports: Vec<ImportSpecifier>,
    exports: Vec<String>,
}

impl Visitor {
    fn add_import(&mut self, raw: String, kind: ImportKind, at: Setting, line: u32)
        ensures
            import_views(final(self).imports@) == import_views(old(self).imports@).push(
                ImportView {
                    raw: raw@,
                    kind,
                    is_conditional: at.conditional,
                    is_type_only: at.type_only,
                    line,
                },
            ),
            final(self).exports == old(self).exports,
    {
        let spec = ImportSpecifier {
            raw,
            kind,
            is_conditional: at.conditional,
            is_type_only: at.type_only,
            line,
        };
        let ghost v = spec@;
        self.imports.push(spec);
        assert(import_views(self.imports@) =~= import_views(old(self).imports@).push(v));
    }

    fn add_export(&mut self, name: &String)
        ensures
            views(final(self).exports@) == views(old(self).exports@).push(name@),
            final(self).imports == old(self).imports,
    {
        self.exports.push(name.clone());
        assert(views(self.exports@) =~= views(old(self).exports@).push(name@));
    }

    fn import_plain(&mut self, names: &Vec<ImportedName>, at: Setting, line: u32)
        ensures
            import_views(final(self).imports@) == import_views(old(self).imports@) + plain_imports(
                names@,
                at,
                line,
            ),
            final(self).exports == old(self).exports,
    {
        let ghost all = plain_imports(names@, at, line);
        let mut i: usize = 0;
        assert(import_views(self.imports@) =~= import_views(old(self).imports@) + all.take(0));
        while i < names.len()
            invariant
                i <= names@.len(),
                all == plain_imports(names@, at, line),
                import_views(self.imports@) == import_views(old(self).imports@) + all.take(
                    i as int,
                ),
                self.exports == old(self).exports,
            decreases names@.len() - i,
        {
            assert(all.take(i + 1) =~= all.take(i as int).push(all[i as int]));
            self.add_import(names[i].name.clone(), ImportKind::Absolute, at, line);
            i += 1;
            assert(import_views(self.imports@) =~= import_views(old(self).imports@) + all.take(
                i as int,
            ));
        }
        assert(all.take(i as int) =~= all);
    }

    fn import_members(
        &mut self,
        module: &str,
        names: &Vec<ImportedName>,
        kind: ImportKind,
        at: Setting,
        line: u32,
    )
        ensures
            import_views(final(self).imports@) == import_views(old(self).imports@) + member_imports(
                module@,
                names@,
                kind,
                at,
                line,
            ),
            final(self).exports == old(self).exports,
    {
        let mut i: usize = 0;
        assert(names@.take(0) =~= Seq::empty());
        assert(import_views(self.imports@) =~= import_views(old(self).imports@) + member_imports(
            module@,
            names@.take(0),
            kind,
            at,
            line,
        ));
        while i < names.len()
            invariant
                i <= names@.len(),
                import_views(self.imports@) == import_views(old(self).imports@) + member_imports(
                    module@,
                    names@.take(i as int),
                    kind,
                    at,
                    line,
                ),
                self.exports == old(self).exports,
            decreases names@.len() - i,
        {
            let name = names[i].name.as_str();
            proof {
                assert(names@.take(i + 1).drop_last() =~= names@.take(i as int));
                assert(names@.take(i + 1).last() == names@[i as int]);
            }
            if !same(name, "*") {
                let raw = member_text(module, name);
                self.add_import(raw, kind, at, line);
            }
            i += 1;
            assert(import_views(self.imports@) =~= import_views(old(self).imports@)
                + member_imports(module@, names@.take(i as int), kind, at, line));
        }
        assert(names@.take(i as int) =~= names@);
    }

    fn walk_all(&mut self, v: &Vec<Statement>, bytes: &[u8], at: Setting, top_level: bool)
        requires
            bytes@.len() < u32::MAX,
        ensures
            import_views(final(self).imports@) == import_views(old(self).imports@) + imports_in(
                v@,
                bytes@,
                at,
            ),
            views(final(self).exports@) == views(old(self).exports@) + at_top(
                top_level,
                exports_in(v@),
            ),
        decreases v,
    {
        let mut i: usize = 0;
        assert(v@.take(0) =~= Seq::empty());
        assert(import_views(self.imports@) =~= import_views(old(self).imports@) + imports_in(
            v@.take(0),
            bytes@,
            at,
        ));
        assert(views(self.exports@) =~= views(old(self).exports@) + at_top(
            top_level,
            exports_in(v@.take(0)),
        ));
        while i < v.len()
            invariant
                i <= v@.len(),
                bytes@.len() < u32::MAX,
                import_views(self.imports@) == import_views(old(self).imports@) + imports_in(
                    v@.take(i as int),
                    bytes@,
                    at,
                ),
                views(self.exports@) == views(old(self).exports@) + at_top(
                    top_level,
                    exports_in(v@.take(i as int)),
                ),
            decreases v@.len() - i,
        {
            let x = &v[i];
            proof {
                assert(v@.take(i + 1).drop_last() =~= v@.take(i as int));
                assert(v@.take(i + 1).last() == x);
            }
            self.walk_stmt(x, bytes, at, top_level);
            i += 1;
            assert(import_views(self.imports@) =~= import_views(old(self).imports@) + imports_in(
                v@.take(i as int),
                bytes@,
                at,
            ));
            assert(views(self.exports@) =~= views(old(self).exports@) + at_top(
                top_level,
                exports_in(v@.take(i as int)),
            ));
        }
        assert(v@.take(i as int) =~= v@);
    }

    fn walk_handlers(&mut self, v: &Vec<Handler>, bytes: &[u8], at: Setting, top_level: bool)
        requires
            bytes@.len() < u32::MAX,
        ensures
            import_views(final(self).imports@) == import_views(old(self).imports@)
                + imports_in_handlers(v@, bytes@, at),
            views(final(self).exports@) == views(old(self).exports@) + at_top(
                top_level,
                exports_in_handlers(v@),
            ),
        decreases v,
    {
        let mut i: usize = 0;
        assert(v@.take(0) =~= Seq::empty());
        assert(import_views(self.imports@) =~= import_views(old(self).imports@)
            + imports_in_handlers(v@.take(0), bytes@, at));
        assert(views(self.exports@) =~= views(old(self).exports@) + at_top(
            top_level,
            exports_in_handlers(v@.take(0)),
        ));
        while i < v.len()
            invariant
                i <= v@.len(),
                bytes@.len() < u32::MAX,
                import_views(self.imports@) == import_views(old(self).imports@)
                    + imports_in_handlers(v@.take(i as int), bytes@, at),
                views(self.exports@) == views(old(self).exports@) + at_top(
                    top_level,
                    exports_in_handlers(v@.take(i as int)),
                ),
            decreases v@.len() - i,
        {
            let x = &v[i];
            proof {
                assert(v@.take(i + 1).drop_last() =~= v@.take(i as int));
                assert(v@.take(i + 1).last() == x);
            }
            self.walk_all(&x.body, bytes, at, top_level);
            i += 1;
            assert(import_views(self.imports@) =~= import_views(old(self).imports@)
                + imports_in_handlers(v@.take(i as int), bytes@, at));
            assert(views(self.exports@) =~= views(old(self).exports@) + at_top(
                top_level,
                exports_in_handlers(v@.take(i as int)),
            ));
        }
        assert(v@.take(i as int) =~= v@);
    }

    fn export_targets(&mut self, v: &Vec<Expression>)
        ensures
            views(final(self).exports@) == views(old(self).exports@) + target_names(v@),
            final(self).imports == old(self).imports,
    {
        let mut i: usize = 0;
        assert(v@.take(0) =~= Seq::empty());
        assert(views(self.exports@) =~= views(old(self).exports@) + target_names(v@.take(0)));
        while i < v.len()
            invariant
                i <= v@.len(),
                views(self.exports@) == views(old(self).exports@) + target_names(v@.take(i as int)),
                self.imports == old(self).imports,
            decreases v@.len() - i,
        {
            proof {
                assert(v@.take(i + 1).drop_last() =~= v@.take(i as int));
                assert(v@.take(i + 1).last() == v@[i as int]);
            }
            self.export_target(&v[i]);
            i += 1;
            assert(views(self.exports@) =~= views(old(self).exports@) + target_names(
                v@.take(i as int),
            ));
        }
        assert(v@.take(i as int) =~= v@);
    }

    fn export_target(&mut self, e: &Expression)
        ensures
            views(final(self).exports@) == views(old(self).exports@) + name_of(*e),
            final(self).imports == old(self).imports,
    {
        match e {
            Expression::Name { id } => self.add_export(id),
            _ => {},
        }
        assert(views(self.exports@) =~= views(old(self).exports@) + name_of(*e));
    }

    fn walk_stmt(&mut self, stmt: &Statement, bytes: &[u8], at: Setting, top_level: bool)
        requires
            bytes@.len() < u32::MAX,
        ensures
            import_views(final(self).imports@) == import_views(old(self).imports@) + imports_of(
                *stmt,
                bytes@,
                at,
            ),
            views(final(self).exports@) == views(old(self).exports@) + at_top(
                top_level,
                exports_of(*stmt),
            ),
        decreases stmt,
    {
        match stmt {
            Statement::Import { span, names } => {
                let line: u32 = line_in(bytes, span.start);
                self.import_plain(names, at, line);
            },
            Statement::ImportFrom { span, module, names, level } => {
                let line: u32 = line_in(bytes, span.start);
                let kind = match level {
                    Some(n) => if *n > 0 {
                        ImportKind::Relative { level: *n }
                    } else {
                        ImportKind::Absolute
                    },
                    None => ImportKind::Absolute,
                };
                let module_name = match module {
                    Some(m) => m.clone(),
                    None => String::new(),
                };
                proof {
                    assert(module_name@ =~= text_or_empty(*module));
                }
                let ghost m0 = import_views(self.imports@);
                if !module_name.as_str().is_empty() {
                    self.add_import(module_name.clone(), kind, at, line);
                }
                self.import_members(module_name.as_str(), names, kind, at, line);
                assert(import_views(self.imports@) =~= m0 + imports_of(*stmt, bytes@, at));
            },
            Statement::If(b) => {
                let guarded = is_type_checking_test(&b.test);
                let inner = Setting {
                    conditional: at.conditional || guarded,
                    type_only: at.type_only || guarded,
                };
                self.walk_all(&b.body, bytes, inner, top_level);
                self.walk_all(&b.orelse, bytes, at, top_level);
            },
            Statement::Try(t) => {
                let handled = any_handles_import_error(&t.handlers);
                let inner = Setting {
                    conditional: at.conditional || handled,
                    type_only: at.type_only,
                };
                let caught = Setting { conditional: true, type_only: at.type_only };
                self.walk_all(&t.body, bytes, inner, top_level);
                self.walk_handlers(&t.handlers, bytes, caught, top_level);
                self.walk_all(&t.orelse, bytes, at, top_level);
                self.walk_all(&t.finalbody, bytes, at, top_level);
            },
            Statement::FunctionDef(f) => {
                if top_level {
                    self.add_export(&f.name);
                }
                self.walk_all(&f.body, bytes, at, false);
            },
            Statement::AsyncFunctionDef(f) => {
                if top_level {
                    self.add_export(&f.name);
                }
                self.walk_all(&f.body, bytes, at, false);
            },
            Statement::ClassDef(c) => {
                if top_level {
                    self.add_export(&c.name);
                }
                self.walk_all(&c.body, bytes, at, false);
            },
            Statement::With(w) => self.walk_all(&w.body, bytes, at, top_level),
            Statement::AsyncWith(w) => self.walk_all(&w.body, bytes, at, top_level),
            Statement::Assign { targets, .. } => {
                if top_level {
                    self.export_targets(targets);
                }
            },
            Statement::AnnAssign { target, .. } => {
                if top_level {
                    self.export_target(target);
                }
            },
            _ => {},
        }
        assert(import_views(self.imports@) =~= import_views(old(self).imports@) + imports_of(
            *stmt,
            bytes@,
            at,
        ));
        assert(views(self.exports@) =~= views(old(self).exports@) + at_top(
            top_level,
            exports_of(*stmt),
        ));
    }
}

fn member_text(module: &str, name: &str) -> (r: String)
    ensures
        r@ == member(module@, name@),
{
    if module.is_empty() {
        name.to_owned()
    } else {
        let mut r = module.to_owned();
        r.append(".");
        r.append(name);
        r
    }
}

/// A name that an import binds, and the lines that the import takes up.
pub struct BindingView {
    pub name: Seq<char>,
    pub module: Seq<char>,
    pub start_line: nat,
    pub end_line: nat,
}

struct ImportBinding {
    name: String,
    module: String,
    start_line: u32,
    end_line: u32,
}

impl View for ImportBinding {
    type V = BindingView;

    closed spec fn view(&self) -> BindingView {
        BindingView {
            name: self.name@,
            module: self.module@,
            start_line: self.start_line as nat,
            end_line: self.end_line as nat,
        }
    }
}

spec fn binding_views(v: Seq<ImportBinding>) -> Seq<BindingView> {
    v.map_values(|b: ImportBinding| b@)
}

/// Whether the name is given itself as its new name, which marks an import
/// that is meant for others.
pub open spec fn is_reexport(n: ImportedName) -> bool {
    n.asname matches Some(a) && a@ == n.name@
}

/// The bindings of `import a.b, c as d`: the new name, or what stands before
/// the first dot.
pub open spec fn plain_bindings(names: Seq<ImportedName>, start: nat, end: nat) -> Seq<BindingView>
    decreases names.len(),
{
    if names.len() == 0 {
        Seq::empty()
    } else {
        let before = plain_bindings(names.drop_last(), start, end);
        let n = names.last();
        if is_reexport(n) {
            before
        } else {
            before.push(
                BindingView {
                    name: match n.asname {
                        Some(a) => a@,
                        None => split_on(n.name@, '.')[0],
                    },
                    module: n.name@,
                    start_line: start,
                    end_line: end,
                },
            )
        }
    }
}

/// The bindings of `from module import a, b as c`; `*` binds nothing known.
pub open spec fn from_bindings(
    module: Seq<char>,
    names: Seq<ImportedName>,
    start: nat,
    end: nat,
) -> Seq<BindingView>
    decreases names.len(),
{
    if names.len() == 0 {
        Seq::empty()
    } else {
        let before = from_bindings(module, names.drop_last(), start, end);
        let n = names.last();
        if n.name@ == "*"@ || is_reexport(n) {
            before
        } else {
            before.push(
                BindingView {
                    name: match n.asname {
                        Some(a) => a@,
                        None => n.name@,
                    },
                    module: member(module, n.name@),
                    start_line: start,
                    end_line: end,
                },
            )
        }
    }
}

/// The bindings of a single statement. `from __future__` binds nothing that
/// needs to be used.
pub open spec fn bindings_of(s: Statement, bytes: Seq<u8>) -> Seq<BindingView> {
    match s {
        Statement::Import { span, names } => plain_bindings(
            names@,
            line_of(bytes, span.start as int),
            line_of(bytes, span.end as int),
        ),
        Statement::ImportFrom { span, module, names, .. } => if text_or_empty(module)
            == "__future__"@ {
            Seq::empty()
        } else {
            from_bindings(
                text_or_empty(module),
                names@,
                line_of(bytes, span.start as int),
                line_of(bytes, span.end as int),
            )
        },
        _ => Seq::empty(),
    }
}

pub open spec fn bindings_of_each(v: Seq<Statement>, bytes: Seq<u8>) -> Seq<BindingView>
    decreases v.len(),
{
    if v.len() == 0 {
        Seq::empty()
    } else {
        bindings_of_each(v.drop_last(), bytes) + bindings_of(v.last(), bytes)
    }
}

/// Where imports are looked for: everywhere but in loops, `match` and `try`
/// with `except*`.
pub open spec fn import_places() -> Descent {
    Descent { classes: true, tries: true, try_tails: true, withs: true }
}

/// All bindings of a module.
pub open spec fn all_bindings(suite: Seq<Statement>, bytes: Seq<u8>) -> Seq<BindingView> {
    bindings_of_each(nested_in(suite, import_places()), bytes)
}

/// Whether a line asks for its warnings to be dropped.
pub open spec fn is_noqa(line: Seq<char>) -> bool {
    contains_text(ascii_lowercase(line), "# noqa"@) || contains_text(
        ascii_lowercase(line),
        "#noqa"@,
    )
}

/// Whether one of the lines from `start` to `end`, counted from 1, does so.
pub open spec fn has_noqa(all: Seq<Seq<char>>, start: nat, end: nat) -> bool {
    exists|i: int| 0 <= i < all.len() && start <= i + 1 <= end && is_noqa(#[trigger] all[i])
}

/// The identifiers in a text, each with its byte offset.
pub open spec fn identifiers(source: Seq<char>) -> Seq<(usize, Seq<char>)> {
    regex_matches(IDENTIFIER@, source)->0
}

/// Whether `name` occurs as an identifier outside the lines from `start` to
/// `end`.
pub open spec fn used_outside(
    found: Seq<(usize, Seq<char>)>,
    bytes: Seq<u8>,
    name: Seq<char>,
    start: nat,
    end: nat,
) -> bool {
    exists|i: int|
        0 <= i < found.len() && (#[trigger] found[i]).1 == name && !(start <= line_of(
            bytes,
            found[i].0 as int,
        ) <= end)
}

/// Whether a binding is reported: it is not used outside its own statement,
/// and no line of that asks to be left alone.
pub open spec fn is_unused(
    b: BindingView,
    found: Seq<(usize, Seq<char>)>,
    all: Seq<Seq<char>>,
    bytes: Seq<u8>,
) -> bool {
    !has_noqa(all, b.start_line, b.end_line) && !used_outside(
        found,
        bytes,
        b.name,
        b.start_line,
        b.end_line,
    )
}

/// The bindings of a list that are reported.
pub open spec fn unused_among(
    v: Seq<BindingView>,
    found: Seq<(usize, Seq<char>)>,
    all: Seq<Seq<char>>,
    bytes: Seq<u8>,
) -> Seq<UnusedView>
    decreases v.len(),
{
    if v.len() == 0 {
        Seq::empty()
    } else {
        let before = unused_among(v.drop_last(), found, all, bytes);
        let b = v.last();
        if is_unused(b, found, all, bytes) {
            before.push(UnusedView { name: b.name, module: b.module, line: b.start_line })
        } else {
            before
        }
    }
}

/// The unused imports of a module, given the identifiers in its source.
pub open spec fn unused_imports(
    suite: Seq<Statement>,
    source: Seq<char>,
    found: Seq<(usize, Seq<char>)>,
) -> Seq<UnusedView> {
    let bytes = encode_utf8(source);
    unused_among(all_bindings(suite, bytes), found, lines(source), bytes)
}

fn push_binding(out: &mut Vec<ImportBinding>, b: ImportBinding)
    ensures
        binding_views(final(out)@) == binding_views(old(out)@).push(b@),
{
    out.push(b);
    assert(binding_views(out@) =~= binding_views(old(out)@).push(b@));
}

/// What stands before the first dot.
fn first_segment(name: &str) -> (r: String)
    ensures
        r@ == split_on(name@, '.')[0],
{
    let parts = split(name, '.');
    proof {
        crate::text::lemma_split_nonempty(name@, '.');
        assert(views(parts@)[0] == parts@[0]@);
    }
    parts[0].clone()
}

fn reexported(n: &ImportedName) -> (r: bool)
    ensures
        r == is_reexport(*n),
{
    match &n.asname {
        Some(a) => same(a.as_str(), n.name.as_str()),
        None => false,
    }
}

fn bind_plain(names: &Vec<ImportedName>, start_line: u32, end_line: u32, out: &mut Vec<ImportBinding>)
    ensures
        binding_views(final(out)@) == binding_views(old(out)@) + plain_bindings(
            names@,
            start_line as nat,
            end_line as nat,
        ),
{
    let ghost s = start_line as nat;
    let ghost e = end_line as nat;
    let mut i: usize = 0;
    assert(names@.take(0) =~= Seq::empty());
    assert(binding_views(out@) =~= binding_views(old(out)@) + plain_bindings(names@.take(0), s, e));
    while i < names.len()
        invariant
            i <= names@.len(),
            s == start_line,
            e == end_line,
            binding_views(out@) == binding_views(old(out)@) + plain_bindings(
                names@.take(i as int),
                s,
                e,
            ),
        decreases names@.len() - i,
    {
        let n = &names[i];
        proof {
            assert(names@.take(i + 1).drop_last() =~= names@.take(i as int));
            assert(names@.take(i + 1).last() == n);
        }
        if !reexported(n) {
            let name = match &n.asname {
                Some(a) => a.clone(),
                None => first_segment(n.name.as_str()),
            };
            push_binding(out, ImportBinding { name, module: n.name.clone(), start_line, end_line });
        }
        i += 1;
        assert(binding_views(out@) =~= binding_views(old(out)@) + plain_bindings(
            names@.take(i as int),
            s,
            e,
        ));
    }
    assert(names@.take(i as int) =~= names@);
}

fn bind_from(
    module: &str,
    names: &Vec<ImportedName>,
    start_line: u32,
    end_line: u32,
    out: &mut Vec<ImportBinding>,
)
    ensures
        binding_views(final(out)@) == binding_views(old(out)@) + from_bindings(
            module@,
            names@,
            start_line as nat,
            end_line as nat,
        ),
{
    let ghost s = start_line as nat;
    let ghost e = end_line as nat;
    let mut i: usize = 0;
    assert(names@.take(0) =~= Seq::empty());
    assert(binding_views(out@) =~= binding_views(old(out)@) + from_bindings(
        module@,
        names@.take(0),
        s,
        e,
    ));
    while i < names.len()
        invariant
            i <= names@.len(),
            s == start_line,
            e == end_line,
            binding_views(out@) == binding_views(old(out)@) + from_bindings(
                module@,
                names@.take(i as int),
                s,
                e,
            ),
        decreases names@.len() - i,
    {
        let n = &names[i];
        proof {
            assert(names@.take(i + 1).drop_last() =~= names@.take(i as int));
            assert(names@.take(i + 1).last() == n);
        }
        if !same(n.name.as_str(), "*") && !reexported(n) {
            let name = match &n.asname {
                Some(a) => a.clone(),
                None => n.name.clone(),
            };
            let qualified = member_text(module, n.name.as_str());
            push_binding(out, ImportBinding { name, module: qualified, start_line, end_line });
        }
        i += 1;
        assert(binding_views(out@) =~= binding_views(old(out)@) + from_bindings(
            module@,
            names@.take(i as int),
            s,
            e,
        ));
    }
    assert(names@.take(i as int) =~= names@);
}

fn bind_stmt(stmt: &Statement, bytes: &[u8], out: &mut Vec<ImportBinding>)
    requires
        bytes@.len() < u32::MAX,
    ensures
        binding_views(final(out)@) == binding_views(old(out)@) + bindings_of(*stmt, bytes@),
{
    match stmt {
        Statement::Import { span, names } => {
            let start_line: u32 = line_in(bytes, span.start);
            let end_line: u32 = line_in(bytes, span.end);
            bind_plain(names, start_line, end_line, out);
        },
        Statement::ImportFrom { span, module, names, .. } => {
            let start_line: u32 = line_in(bytes, span.start);
            let end_line: u32 = line_in(bytes, span.end);
            let prefix = match module {
                Some(m) => m.clone(),
                None => String::new(),
            };
            proof {
                assert(prefix@ =~= text_or_empty(*module));
            }
            if !same(prefix.as_str(), "__future__") {
                bind_from(prefix.as_str(), names, start_line, end_line, out);
            }
        },
        _ => {},
    }
    assert(binding_views(out@) =~= binding_views(old(out)@) + bindings_of(*stmt, bytes@));
}

/// The bindings of a module's imports.
fn collect_import_bindings(suite: &Vec<Statement>, bytes: &[u8]) -> (out: Vec<ImportBinding>)
    requires
        bytes@.len() < u32::MAX,
    ensures
        binding_views(out@) == all_bindings(suite@, bytes@),
{
    let stmts = nested_stmts(
        suite,
        Descent { classes: true, tries: true, try_tails: true, withs: true },
    );
    let ghost flat = stmts@.unref();
    let mut out: Vec<ImportBinding> = Vec::new();
    let mut i: usize = 0;
    assert(binding_views(out@) =~= bindings_of_each(flat.take(0), bytes@));
    while i < stmts.len()
        invariant
            i <= stmts@.len(),
            flat == stmts@.unref(),
            bytes@.len() < u32::MAX,
            binding_views(out@) == bindings_of_each(flat.take(i as int), bytes@),
        decreases stmts@.len() - i,
    {
        assert(flat.take(i + 1).drop_last() =~= flat.take(i as int));
        assert(flat.take(i + 1).last() == *stmts@[i as int]);
        bind_stmt(stmts[i], bytes, &mut out);
        i += 1;
    }
    assert(flat.take(i as int) =~= flat);
    out
}

/// The lines on which a text occurs among the first `n` identifiers.
spec fn lines_with(
    found: Seq<(usize, Seq<char>)>,
    bytes: Seq<u8>,
    name: Seq<char>,
    n: int,
) -> Seq<u32>
    decreases n,
{
    if n <= 0 {
        Seq::empty()
    } else if found[n - 1].1 == name {
        lines_with(found, bytes, name, n - 1).push(line32(bytes, found[n - 1].0 as int))
    } else {
        lines_with(found, bytes, name, n - 1)
    }
}

/// The list that a text is bound to, or an empty one.
spec fn listed(m: Map<Seq<char>, Seq<u32>>, name: Seq<char>) -> Seq<u32> {
    if m.contains_key(name) {
        m[name]
    } else {
        Seq::empty()
    }
}

/// Whether `name` occurs on `line` among the first `n` identifiers.
spec fn occurs_on(
    found: Seq<(usize, Seq<char>)>,
    bytes: Seq<u8>,
    name: Seq<char>,
    n: int,
    line: nat,
) -> bool {
    exists|j: int|
        0 <= j < n && (#[trigger] found[j]).1 == name && line_of(bytes, found[j].0 as int) == line
}

/// The lines on which each identifier occurs.
fn collect_identifier_lines(found: &Vec<(usize, String)>, bytes: &[u8]) -> (m: FxHashMap<
    String,
    Vec<u32>,
>)
    requires
        bytes@.len() < u32::MAX,
    ensures
        forall|name: Seq<char>|
            #[trigger] listed(line_map_contents(m), name) == lines_with(match_views(found@), bytes@, name, found@.len() as int),
{
    let mut m = line_map_new();
    let ghost all = match_views(found@);
    let mut i: usize = 0;
    while i < found.len()
        invariant
            i <= found@.len(),
            bytes@.len() < u32::MAX,
            all == match_views(found@),
            forall|name: Seq<char>|
                #[trigger] listed(line_map_contents(m), name) == lines_with(all, bytes@, name, i as int),
        decreases found@.len() - i,
    {
        let line: u32 = line_in(bytes, found[i].0);
        let ghost before = line_map_contents(m);
        assert(all[i as int] == (found@[i as int].0, found@[i as int].1@));
        line_map_push(&mut m, found[i].1.as_str(), line);
        proof {
            let after = line_map_contents(m);
            assert forall|name: Seq<char>| #[trigger]
                listed(after, name) == lines_with(all, bytes@, name, i + 1) by {
                assert(listed(before, name) == lines_with(all, bytes@, name, i as int));
            }
        }
        i += 1;
    }
    m
}

/// A line is listed for a name if and only if the name occurs on it.
proof fn lemma_lines_with(
    found: Seq<(usize, Seq<char>)>,
    bytes: Seq<u8>,
    name: Seq<char>,
    n: int,
)
    requires
        0 <= n <= found.len(),
        bytes.len() < u32::MAX,
    ensures
        forall|i: int|
            0 <= i < lines_with(found, bytes, name, n).len() ==> occurs_on(
                found,
                bytes,
                name,
                n,
                #[trigger] lines_with(found, bytes, name, n)[i] as nat,
            ),
        forall|j: int|
            0 <= j < n && (#[trigger] found[j]).1 == name ==> lines_with(
                found,
                bytes,
                name,
                n,
            ).contains(line32(bytes, found[j].0 as int)) && line32(bytes, found[j].0 as int)
                == line_of(bytes, found[j].0 as int),
    decreases n,
{
    if n > 0 {
        lemma_lines_with(found, bytes, name, n - 1);
        let before = lines_with(found, bytes, name, n - 1);
        let after = lines_with(found, bytes, name, n);
        let off = found[n - 1].0 as int;
        lemma_line_ends_bound(
            bytes,
            if off < bytes.len() {
                off
            } else {
                bytes.len() as int
            },
        );
        assert forall|i: int| 0 <= i < after.len() implies occurs_on(
            found,
            bytes,
            name,
            n,
            #[trigger] after[i] as nat,
        ) by {
            if i < before.len() {
                assert(after[i] == before[i]);
                assert(occurs_on(found, bytes, name, n - 1, before[i] as nat));
                let j = choose|j: int|
                    0 <= j < n - 1 && (#[trigger] found[j]).1 == name && line_of(
                        bytes,
                        found[j].0 as int,
                    ) == before[i];
                assert(found[j].1 == name);
            } else {
                assert(found[n - 1].1 == name && line_of(bytes, off) == after[i]);
            }
        }
        assert forall|j: int| 0 <= j < n && (#[trigger] found[j]).1 == name implies after.contains(
            line32(bytes, found[j].0 as int),
        ) && line32(bytes, found[j].0 as int) == line_of(bytes, found[j].0 as int) by {
            if j < n - 1 {
                let l = line32(bytes, found[j].0 as int);
                let k = choose|k: int| 0 <= k < before.len() && before[k] == l;
                assert(after[k] == l);
            } else {
                assert(after[after.len() - 1] == line32(bytes, off));
            }
        }
    }
}

/// Whether one of the lines asks for its warnings to be dropped.
fn line_has_noqa(all: &Vec<String>, start_line: u32, end_line: u32) -> (r: bool)
    ensures
        r == has_noqa(views(all@), start_line as nat, end_line as nat),
{
    let mut i: usize = if start_line > 0 {
        (start_line - 1) as usize
    } else {
        0
    };
    while i < all.len() && i < end_line as usize
        invariant
            i + 1 >= start_line,
            forall|j: int|
                0 <= j < i && j < all@.len() && start_line <= j + 1 <= end_line ==> !is_noqa(
                    #[trigger] views(all@)[j],
                ),
        decreases all@.len() - i,
    {
        let lower = lowercase_ascii(all[i].as_str());
        assert(views(all@)[i as int] == all@[i as int]@);
        if contains(lower.as_str(), "# noqa") || contains(lower.as_str(), "#noqa") {
            assert(is_noqa(views(all@)[i as int]));
            return true;
        }
        i += 1;
    }
    false
}

/// Whether one of the lines lies outside those from `start` to `end`.
fn any_outside(v: &Vec<u32>, start: u32, end: u32) -> (r: bool)
    ensures
        r == exists|i: int| 0 <= i < v@.len() && !(start <= #[trigger] v@[i] <= end),
{
    let mut i: usize = 0;
    while i < v.len()
        invariant
            i <= v@.len(),
            forall|j: int| 0 <= j < i ==> start <= #[trigger] v@[j] <= end,
        decreases v@.len() - i,
    {
        if v[i] < start || v[i] > end {
            return true;
        }
        i += 1;
    }
    false
}

fn is_used_outside(
    m: &FxHashMap<String, Vec<u32>>,
    Ghost(found): Ghost<Seq<(usize, Seq<char>)>>,
    Ghost(bytes): Ghost<Seq<u8>>,
    name: &str,
    start: u32,
    end: u32,
) -> (r: bool)
    requires
        bytes.len() < u32::MAX,
        forall|name: Seq<char>|
            #[trigger] listed(line_map_contents(*m), name) == lines_with(found, bytes, name, found.len() as int),
    ensures
        r == used_outside(found, bytes, name@, start as nat, end as nat),
{
    let ghost on = lines_with(found, bytes, name@, found.len() as int);
    proof {
        assert(listed(line_map_contents(*m), name@) == on);
        lemma_lines_with(found, bytes, name@, found.len() as int);
    }
    let r = match line_map_get(m, name) {
        Some(v) => any_outside(v, start, end),
        None => false,
    };
    proof {
        if r {
            let i = choose|i: int| 0 <= i < on.len() && !(start <= #[trigger] on[i] <= end);
            assert(occurs_on(found, bytes, name@, found.len() as int, on[i] as nat));
            let j = choose|j: int|
                0 <= j < found.len() && (#[trigger] found[j]).1 == name@ && line_of(
                    bytes,
                    found[j].0 as int,
                ) == on[i];
            assert(found[j].1 == name@);
        }
        if used_outside(found, bytes, name@, start as nat, end as nat) {
            let j = choose|j: int|
                0 <= j < found.len() && (#[trigger] found[j]).1 == name@ && !(start <= line_of(
                    bytes,
                    found[j].0 as int,
                ) <= end);
            let l = line32(bytes, found[j].0 as int);
            assert(on.contains(l));
            let i = choose|i: int| 0 <= i < on.len() && on[i] == l;
            assert(!(start <= on[i] <= end));
        }
    }
    r
}

/// The unused imports of a module, given the identifiers in its source.
///
/// An import counts as used if the name that it binds occurs anywhere outside
/// the lines of the import itself.
pub fn compute_unused_imports(
    suite: &Vec<Statement>,
    source: &str,
    found: &Vec<(usize, String)>,
) -> (out: Vec<UnusedImportInfo>)
    requires
        encode_utf8(source@).len() < u32::MAX,
    ensures
        unused_views(out@) == unused_imports(suite@, source@, match_views(found@)),
{
    let bytes = source.as_bytes();
    let bindings = collect_import_bindings(suite, bytes);
    let table = collect_identifier_lines(found, bytes);
    let all = lines_of(source);
    let ghost b = binding_views(bindings@);
    let ghost f = match_views(found@);
    let mut out: Vec<UnusedImportInfo> = Vec::new();
    let mut i: usize = 0;
    assert(unused_views(out@) =~= unused_among(b.take(0), f, views(all@), bytes@));
    while i < bindings.len()
        invariant
            i <= bindings@.len(),
            b == binding_views(bindings@),
            f == match_views(found@),
            bytes@.len() < u32::MAX,
            forall|name: Seq<char>|
                #[trigger] listed(line_map_contents(table), name) == lines_with(f, bytes@, name, f.len() as int),
            unused_views(out@) == unused_among(b.take(i as int), f, views(all@), bytes@),
        decreases bindings@.len() - i,
    {
        let x = &bindings[i];
        proof {
            assert(b.take(i + 1).drop_last() =~= b.take(i as int));
            assert(b.take(i + 1).last() == x@);
        }
        if !line_has_noqa(&all, x.start_line, x.end_line) && !is_used_outside(
            &table,
            Ghost(f),
            Ghost(bytes@),
            x.name.as_str(),
            x.start_line,
            x.end_line,
        ) {
            let ghost was = unused_views(out@);
            out.push(
                UnusedImportInfo {
                    name: x.name.clone(),
                    module: x.module.clone(),
                    line: x.start_line,
                },
            );
            assert(unused_views(out@) =~= was.push(
                UnusedView { name: x.name@, module: x.module@, line: x.start_line as nat },
            ));
        }
        i += 1;
    }
    assert(b.take(i as int) =~= b);
    out
}

/// The name that `from module import n` binds.
pub open spec fn from_name(n: ImportedName) -> Seq<char> {
    match n.asname {
        Some(a) => a@,
        None => n.name@,
    }
}

/// A name of a `from` import is reported as unused, with the line on which the
/// statement starts, if no line of the statement asks to be left alone and the name
/// occurs nowhere as an identifier but between the first and the last byte of the
/// statement. It need not all stand on one line. `*`, a name that is renamed to
/// itself, and `from __future__` are left out.
pub proof fn unused_from_imports_are_reported(
    suite: Seq<Statement>,
    source: Seq<char>,
    found: Seq<(usize, Seq<char>)>,
    stmt: Statement,
    k: int,
)
    requires
        nested_in(suite, import_places()).contains(stmt),
        stmt is ImportFrom,
        stmt->ImportFrom_span.start <= stmt->ImportFrom_span.end,
        stmt->ImportFrom_module matches Some(m) ==> m@ != "__future__"@,
        0 <= k < stmt->ImportFrom_names@.len(),
        stmt->ImportFrom_names@[k].name@ != "*"@,
        stmt->ImportFrom_names@[k].asname matches Some(a) ==> a@
            != stmt->ImportFrom_names@[k].name@,
        forall|i: int|
            0 <= i < lines(source).len() && line_of(
                encode_utf8(source),
                stmt->ImportFrom_span.start as int,
            ) <= i + 1 <= line_of(encode_utf8(source), stmt->ImportFrom_span.end as int)
                ==> !is_noqa(#[trigger] lines(source)[i]),
        forall|i: int|
            0 <= i < found.len() && (#[trigger] found[i]).1 == from_name(
                stmt->ImportFrom_names@[k],
            ) ==> stmt->ImportFrom_span.start <= found[i].0 < stmt->ImportFrom_span.end,
    ensures
        exists|i: int|
            0 <= i < unused_imports(suite, source, found).len() && (#[trigger] unused_imports(
                suite,
                source,
                found,
            )[i]) == (UnusedView {
                name: from_name(stmt->ImportFrom_names@[k]),
                module: member(
                    text_or_empty(stmt->ImportFrom_module),
                    stmt->ImportFrom_names@[k].name@,
                ),
                line: line_of(encode_utf8(source), stmt->ImportFrom_span.start as int),
            }),
{
    let bytes = encode_utf8(source);
    let span = stmt->ImportFrom_span;
    let module = text_or_empty(stmt->ImportFrom_module);
    let names = stmt->ImportFrom_names@;
    let n = names[k];
    let b = BindingView {
        name: from_name(n),
        module: member(module, n.name@),
        start_line: line_of(bytes, span.start as int),
        end_line: line_of(bytes, span.end as int),
    };
    assert(module != "__future__"@) by {
        reveal_strlit("__future__");
    }
    lemma_from_binding(module, names, b.start_line, b.end_line, k);
    lemma_reported(suite, source, found, stmt, b, span);
}

/// A name of an `import` statement is reported as unused in the same way: the new
/// name, or what stands before the first dot.
pub proof fn unused_plain_imports_are_reported(
    suite: Seq<Statement>,
    source: Seq<char>,
    found: Seq<(usize, Seq<char>)>,
    stmt: Statement,
    k: int,
    name: Seq<char>,
    rest: Seq<char>,
)
    requires
        nested_in(suite, import_places()).contains(stmt),
        stmt is Import,
        stmt->Import_span.start <= stmt->Import_span.end,
        0 <= k < stmt->Import_names@.len(),
        match stmt->Import_names@[k].asname {
            Some(a) => a@ == name && name != stmt->Import_names@[k].name@,
            None => stmt->Import_names@[k].name@ == name + rest && !name.contains('.') && (
            rest.len() > 0 ==> rest[0] == '.'),
        },
        forall|i: int|
            0 <= i < lines(source).len() && line_of(
                encode_utf8(source),
                stmt->Import_span.start as int,
            ) <= i + 1 <= line_of(encode_utf8(source), stmt->Import_span.end as int) ==> !is_noqa(
                #[trigger] lines(source)[i],
            ),
        forall|i: int|
            0 <= i < found.len() && (#[trigger] found[i]).1 == name ==> stmt->Import_span.start
                <= found[i].0 < stmt->Import_span.end,
    ensures
        exists|i: int|
            0 <= i < unused_imports(suite, source, found).len() && (#[trigger] unused_imports(
                suite,
                source,
                found,
            )[i]) == (UnusedView {
                name,
                module: stmt->Import_names@[k].name@,
                line: line_of(encode_utf8(source), stmt->Import_span.start as int),
            }),
{
    let bytes = encode_utf8(source);
    let span = stmt->Import_span;
    let names = stmt->Import_names@;
    let n = names[k];
    let b = BindingView {
        name,
        module: n.name@,
        start_line: line_of(bytes, span.start as int),
        end_line: line_of(bytes, span.end as int),
    };
    if n.asname is None {
        crate::text::before_char_ends_at_the_first(name, rest, '.');
    }
    lemma_plain_binding(names, b.start_line, b.end_line, k, name);
    lemma_reported(suite, source, found, stmt, b, span);
}

proof fn lemma_from_binding(
    module: Seq<char>,
    names: Seq<ImportedName>,
    start: nat,
    end: nat,
    k: int,
)
    requires
        0 <= k < names.len(),
        names[k].name@ != "*"@,
        !is_reexport(names[k]),
    ensures
        from_bindings(module, names, start, end).contains(
            (BindingView {
                name: from_name(names[k]),
                module: member(module, names[k].name@),
                start_line: start,
                end_line: end,
            }),
        ),
    decreases names.len(),
{
    let b = BindingView {
        name: from_name(names[k]),
        module: member(module, names[k].name@),
        start_line: start,
        end_line: end,
    };
    let all = from_bindings(module, names, start, end);
    let before = from_bindings(module, names.drop_last(), start, end);
    if k < names.len() - 1 {
        lemma_from_binding(module, names.drop_last(), start, end, k);
        let i = choose|i: int| 0 <= i < before.len() && before[i] == b;
        assert(all[i] == b);
    } else {
        assert(all[before.len() as int] == b);
    }
}

proof fn lemma_plain_binding(
    names: Seq<ImportedName>,
    start: nat,
    end: nat,
    k: int,
    name: Seq<char>,
)
    requires
        0 <= k < names.len(),
        !is_reexport(names[k]),
        match names[k].asname {
            Some(a) => a@ == name,
            None => split_on(names[k].name@, '.')[0] == name,
        },
    ensures
        plain_bindings(names, start, end).contains(
            (BindingView { name, module: names[k].name@, start_line: start, end_line: end }),
        ),
    decreases names.len(),
{
    let b = BindingView { name, module: names[k].name@, start_line: start, end_line: end };
    let all = plain_bindings(names, start, end);
    let before = plain_bindings(names.drop_last(), start, end);
    if k < names.len() - 1 {
        lemma_plain_binding(names.drop_last(), start, end, k, name);
        let i = choose|i: int| 0 <= i < before.len() && before[i] == b;
        assert(all[i] == b);
    } else {
        assert(all[before.len() as int] == b);
    }
}

proof fn lemma_reported(
    suite: Seq<Statement>,
    source: Seq<char>,
    found: Seq<(usize, Seq<char>)>,
    stmt: Statement,
    b: BindingView,
    span: Span,
)
    requires
        nested_in(suite, import_places()).contains(stmt),
        bindings_of(stmt, encode_utf8(source)).contains(b),
        span.start <= span.end,
        b.start_line == line_of(encode_utf8(source), span.start as int),
        b.end_line == line_of(encode_utf8(source), span.end as int),
        forall|i: int|
            0 <= i < lines(source).len() && b.start_line <= i + 1 <= b.end_line ==> !is_noqa(
                #[trigger] lines(source)[i],
            ),
        forall|i: int|
            0 <= i < found.len() && (#[trigger] found[i]).1 == b.name ==> span.start <= found[i].0
                < span.end,
    ensures
        exists|i: int|
            0 <= i < unused_imports(suite, source, found).len() && (#[trigger] unused_imports(
                suite,
                source,
                found,
            )[i]) == (UnusedView { name: b.name, module: b.module, line: b.start_line }),
{
    let bytes = encode_utf8(source);
    let flat = nested_in(suite, import_places());
    lemma_binding_of_each(flat, bytes, stmt, b);
    assert(!has_noqa(lines(source), b.start_line, b.end_line));
    assert(!used_outside(found, bytes, b.name, b.start_line, b.end_line)) by {
        if used_outside(found, bytes, b.name, b.start_line, b.end_line) {
            let i = choose|i: int|
                0 <= i < found.len() && (#[trigger] found[i]).1 == b.name && !(b.start_line
                    <= line_of(bytes, found[i].0 as int) <= b.end_line);
            lines_differ_by_the_line_feeds_between(bytes, span.start as int, found[i].0 as int);
            lines_differ_by_the_line_feeds_between(bytes, found[i].0 as int, span.end as int);
        }
    }
    let all = all_bindings(suite, bytes);
    lemma_among(all, found, lines(source), bytes, b);
    let u = UnusedView { name: b.name, module: b.module, line: b.start_line };
    let i = choose|i: int|
        0 <= i < unused_among(all, found, lines(source), bytes).len() && (#[trigger] unused_among(
            all,
            found,
            lines(source),
            bytes,
        )[i]) == u;
    assert(unused_imports(suite, source, found)[i] == u);
}

proof fn lemma_binding_of_each(
    v: Seq<Statement>,
    bytes: Seq<u8>,
    stmt: Statement,
    b: BindingView,
)
    requires
        v.contains(stmt),
        bindings_of(stmt, bytes).contains(b),
    ensures
        bindings_of_each(v, bytes).contains(b),
    decreases v.len(),
{
    let all = bindings_of_each(v, bytes);
    let before = bindings_of_each(v.drop_last(), bytes);
    if v.last() == stmt {
        let own = bindings_of(stmt, bytes);
        let i = choose|i: int| 0 <= i < own.len() && own[i] == b;
        assert(all[before.len() + i] == b);
    } else {
        let k = choose|k: int| 0 <= k < v.len() && v[k] == stmt;
        assert(v.drop_last()[k] == stmt);
        lemma_binding_of_each(v.drop_last(), bytes, stmt, b);
        let i = choose|i: int| 0 <= i < before.len() && before[i] == b;
        assert(all[i] == b);
    }
}

proof fn lemma_among(
    v: Seq<BindingView>,
    found: Seq<(usize, Seq<char>)>,
    all: Seq<Seq<char>>,
    bytes: Seq<u8>,
    b: BindingView,
)
    requires
        v.contains(b),
        is_unused(b, found, all, bytes),
    ensures
        exists|i: int|
            0 <= i < unused_among(v, found, all, bytes).len() && (#[trigger] unused_among(
                v,
                found,
                all,
                bytes,
            )[i]) == (UnusedView { name: b.name, module: b.module, line: b.start_line }),
    decreases v.len(),
{
    let u = UnusedView { name: b.name, module: b.module, line: b.start_line };
    let whole = unused_among(v, found, all, bytes);
    let before = unused_among(v.drop_last(), found, all, bytes);
    if v.last() == b {
        assert(whole[before.len() as int] == u);
    } else {
        let k = choose|k: int| 0 <= k < v.len() && v[k] == b;
        assert(v.drop_last()[k] == b);
        lemma_among(v.drop_last(), found, all, bytes, b);
        let i = choose|i: int| 0 <= i < before.len() && (#[trigger] before[i]) == u;
        assert(whole[i] == u);
    }
}

/// Whether a statement imports something under a name, as the module `module`, and
/// not for others.
pub open spec fn binds_as(stmt: Statement, name: Seq<char>, module: Seq<char>) -> bool {
    match stmt {
        Statement::Import { names, .. } => exists|k: int|
            0 <= k < names@.len() && (#[trigger] names@[k]).name@ == module && !is_reexport(names@[k])
                && (names@[k].asname matches Some(a) ==> a@ == name) && (names@[k].asname is None
                ==> has_prefix(module, name)),
        Statement::ImportFrom { module: m, names, .. } => exists|k: int|
            0 <= k < names@.len() && member(text_or_empty(m), (#[trigger] names@[k]).name@) == module
                && names@[k].name@ != "*"@ && !is_reexport(names@[k]) && from_name(names@[k]) == name,
        _ => false,
    }
}

/// Only imports that are unused are reported: behind each report stands an import
/// statement that binds the name, that starts on the line, none of whose lines asks
/// to be left alone, and outside whose lines the name does not occur as an
/// identifier.
pub proof fn reported_imports_are_unused(
    suite: Seq<Statement>,
    source: Seq<char>,
    found: Seq<(usize, Seq<char>)>,
    i: int,
)
    requires
        0 <= i < unused_imports(suite, source, found).len(),
    ensures
        exists|s: int|
            0 <= s < nested_in(suite, import_places()).len() && stands_behind(
                #[trigger] nested_in(suite, import_places())[s],
                unused_imports(suite, source, found)[i],
                source,
                found,
            ),
{
    let bytes = encode_utf8(source);
    let flat = nested_in(suite, import_places());
    let u = unused_imports(suite, source, found)[i];
    let b = lemma_from_among(all_bindings(suite, bytes), found, lines(source), bytes, i);
    let s = lemma_from_each(flat, bytes, b);
    lemma_binds_as(flat[s], bytes, b);
    let stmt = flat[s];
    assert forall|j: int| 0 <= j < found.len() && (#[trigger] found[j]).1 == u.name implies line_of(
        bytes,
        stmt.place().start as int,
    ) <= line_of(bytes, found[j].0 as int) <= line_of(bytes, stmt.place().end as int) by {}
    assert(stands_behind(flat[s], u, source, found));
}

/// Whether a statement is the import behind a report.
pub open spec fn stands_behind(
    stmt: Statement,
    u: UnusedView,
    source: Seq<char>,
    found: Seq<(usize, Seq<char>)>,
) -> bool {
    let bytes = encode_utf8(source);
    let first = line_of(bytes, stmt.place().start as int);
    let last = line_of(bytes, stmt.place().end as int);
    &&& binds_as(stmt, u.name, u.module)
    &&& u.line == first
    &&& forall|i: int|
        0 <= i < lines(source).len() && first <= i + 1 <= last ==> !is_noqa(
            #[trigger] lines(source)[i],
        )
    &&& forall|i: int|
        0 <= i < found.len() && (#[trigger] found[i]).1 == u.name ==> first <= line_of(
            bytes,
            found[i].0 as int,
        ) <= last
}

proof fn lemma_from_among(
    v: Seq<BindingView>,
    found: Seq<(usize, Seq<char>)>,
    all: Seq<Seq<char>>,
    bytes: Seq<u8>,
    i: int,
) -> (b: BindingView)
    requires
        0 <= i < unused_among(v, found, all, bytes).len(),
    ensures
        v.contains(b),
        is_unused(b, found, all, bytes),
        unused_among(v, found, all, bytes)[i] == (UnusedView {
            name: b.name,
            module: b.module,
            line: b.start_line,
        }),
    decreases v.len(),
{
    let before = unused_among(v.drop_last(), found, all, bytes);
    if i < before.len() {
        let b = lemma_from_among(v.drop_last(), found, all, bytes, i);
        let k = choose|k: int| 0 <= k < v.drop_last().len() && v.drop_last()[k] == b;
        assert(v[k] == b);
        b
    } else {
        assert(v[v.len() - 1] == v.last());
        v.last()
    }
}

proof fn lemma_from_each(v: Seq<Statement>, bytes: Seq<u8>, b: BindingView) -> (s: int)
    requires
        bindings_of_each(v, bytes).contains(b),
    ensures
        0 <= s < v.len(),
        bindings_of(v[s], bytes).contains(b),
    decreases v.len(),
{
    let all = bindings_of_each(v, bytes);
    let before = bindings_of_each(v.drop_last(), bytes);
    let own = bindings_of(v.last(), bytes);
    let i = choose|i: int| 0 <= i < all.len() && all[i] == b;
    if i < before.len() {
        assert(before[i] == b);
        lemma_from_each(v.drop_last(), bytes, b)
    } else {
        assert(own[i - before.len()] == b);
        v.len() - 1
    }
}

proof fn lemma_binds_as(stmt: Statement, bytes: Seq<u8>, b: BindingView)
    requires
        bindings_of(stmt, bytes).contains(b),
    ensures
        binds_as(stmt, b.name, b.module),
        b.start_line == line_of(bytes, stmt.place().start as int),
        b.end_line == line_of(bytes, stmt.place().end as int),
{
    match stmt {
        Statement::Import { span, names } => {
            let k = lemma_from_plain(
                names@,
                line_of(bytes, span.start as int),
                line_of(bytes, span.end as int),
                b,
            );
            if names@[k].asname is None {
                lemma_first_part_is_prefix(b.module);
            }
        },
        Statement::ImportFrom { span, module, names, .. } => {
            let k = lemma_from_from(
                text_or_empty(module),
                names@,
                line_of(bytes, span.start as int),
                line_of(bytes, span.end as int),
                b,
            );
            assert(from_name(names@[k]) == b.name);
        },
        _ => {},
    }
}

proof fn lemma_first_part_is_prefix(s: Seq<char>)
    ensures
        split_on(s, '.').len() > 0,
        has_prefix(s, split_on(s, '.')[0]),
        split_on(s, '.').len() == 1 ==> split_on(s, '.')[0] == s,
    decreases s.len(),
{
    if s.len() > 0 {
        let rest = s.drop_last();
        lemma_first_part_is_prefix(rest);
        let p = split_on(s, '.')[0];
        let q = split_on(rest, '.')[0];
        assert(rest.push(s.last()) =~= s);
        if p == q {
            assert(s.take(p.len() as int) =~= rest.take(p.len() as int));
        } else {
            assert(p == rest.push(s.last()));
            assert(s.take(p.len() as int) =~= p);
        }
    } else {
        assert(s.take(0) =~= split_on(s, '.')[0]);
        assert(split_on(s, '.')[0] =~= s);
    }
}

proof fn lemma_from_plain(names: Seq<ImportedName>, start: nat, end: nat, b: BindingView) -> (k: int)
    requires
        plain_bindings(names, start, end).contains(b),
    ensures
        0 <= k < names.len(),
        !is_reexport(names[k]),
        names[k].name@ == b.module,
        match names[k].asname {
            Some(a) => a@ == b.name,
            None => split_on(b.module, '.')[0] == b.name,
        },
        b.start_line == start,
        b.end_line == end,
    decreases names.len(),
{
    let all = plain_bindings(names, start, end);
    let before = plain_bindings(names.drop_last(), start, end);
    let i = choose|i: int| 0 <= i < all.len() && all[i] == b;
    if i < before.len() {
        assert(before[i] == b);
        lemma_from_plain(names.drop_last(), start, end, b)
    } else {
        names.len() - 1
    }
}

proof fn lemma_from_from(
    module: Seq<char>,
    names: Seq<ImportedName>,
    start: nat,
    end: nat,
    b: BindingView,
) -> (k: int)
    requires
        from_bindings(module, names, start, end).contains(b),
    ensures
        0 <= k < names.len(),
        names[k].name@ != "*"@,
        !is_reexport(names[k]),
        member(module, names[k].name@) == b.module,
        from_name(names[k]) == b.name,
        b.start_line == start,
        b.end_line == end,
    decreases names.len(),
{
    let all = from_bindings(module, names, start, end);
    let before = from_bindings(module, names.drop_last(), start, end);
    let i = choose|i: int| 0 <= i < all.len() && all[i] == b;
    if i < before.len() {
        assert(before[i] == b);
        lemma_from_from(module, names.drop_last(), start, end, b)
    } else {
        names.len() - 1
    }
}

/// What a module with the given statements and identifiers is.
pub open spec fn describes(
    m: ParsedModule,
    path: PathView,
    source: Seq<char>,
    suite: Seq<Statement>,
    found: Seq<(usize, Seq<char>)>,
) -> bool {
    let bytes = encode_utf8(source);
    &&& m.path@ == path
    &&& m.source@ == source
    &&& m.suite@ == suite
    &&& import_views(m.imports@) == imports_in(
        suite,
        bytes,
        Setting { conditional: false, type_only: false },
    )
    &&& views(m.exports@) == exports_in(suite)
    &&& m.is_script_entry == has_main_guard(suite)
    &&& m.has_module_getattr == has_getattr(suite)
    &&& unused_views(m.unused_imports@) == unused_imports(suite, source, found)
}

/// Reads off a module what its statements say.
pub fn describe_module(
    path: &FilePath,
    source: &str,
    suite: Vec<Statement>,
    found: &Vec<(usize, String)>,
) -> (m: ParsedModule)
    requires
        encode_utf8(source@).len() < u32::MAX,
    ensures
        describes(m, path@, source@, suite@, match_views(found@)),
{
    let mut visitor = Visitor { imports: Vec::new(), exports: Vec::new() };
    assert(import_views(visitor.imports@) =~= Seq::empty());
    assert(views(visitor.exports@) =~= Seq::empty());
    visitor.walk_all(
        &suite,
        source.as_bytes(),
        Setting { conditional: false, type_only: false },
        true,
    );
    let is_script_entry = any_main_guard(&suite);
    let has_module_getattr = any_getattr(&suite);
    let unused_imports = compute_unused_imports(&suite, source, found);
    let m = ParsedModule {
        path: path.clone(),
        imports: visitor.imports,
        exports: visitor.exports,
        suite,
        is_script_entry,
        has_module_getattr,
        unused_imports,
        source: source.to_owned(),
    };
    assert(import_views(m.imports@) =~= imports_in(
        suite@,
        encode_utf8(source@),
        Setting { conditional: false, type_only: false },
    ));
    assert(views(m.exports@) =~= exports_in(suite@));
    m
}

/// Parses a module and reads off it what its statements say.
pub fn parse_source(path: &FilePath, source: &str) -> (r: Result<ParsedModule, ExtractError>)
    requires
        encode_utf8(source@).len() < u32::MAX,
    ensures
        match r {
            Ok(m) => python_suite(source@, path@.text()) is Ok && describes(
                m,
                path@,
                source@,
                python_suite(source@, path@.text())->Ok_0,
                identifiers(source@),
            ),
            Err(e) => python_suite(source@, path@.text()) is Err && (e matches ExtractError::Parse {
                path: p,
                message,
            } && p@ == path@ && message@ == python_suite(source@, path@.text())->Err_0),
        },
{
    let path_text = path.text();
    match parse_suite(source, path_text.as_str()) {
        Ok(suite) => {
            let found = match find_all(IDENTIFIER, source) {
                Some(v) => v,
                None => Vec::new(),
            };
            Ok(describe_module(path, source, suite, &found))
        },
        Err(message) => Err(ExtractError::Parse { path: path.clone(), message }),
    }
}

/// The last identifier of a name or an attribute.
pub open spec fn last_name(e: Expression) -> Option<Seq<char>> {
    match e {
        Expression::Name { id } => Some(id@),
        Expression::Attribute { attr, .. } => Some(attr@),
        _ => None,
    }
}

/// The last identifier of what is called, or of the expression itself if it is
/// no call: `foo`, `mod.foo` and `mod.foo(..)` all give `foo`.
pub open spec fn tail_name(e: Expression) -> Option<Seq<char>> {
    match e {
        Expression::Call { func, .. } => last_name(*func),
        _ => last_name(e),
    }
}

/// Like [`tail_name`], but `Generic[T]` gives `Generic`.
pub open spec fn base_name(e: Expression) -> Option<Seq<char>> {
    match e {
        Expression::Subscript { value, .. } => tail_name(*value),
        _ => tail_name(e),
    }
}

/// Whether an optional name is one of a list.
pub open spec fn is_one_of(name: Option<Seq<char>>, names: Seq<Seq<char>>) -> bool {
    name matches Some(n) && names.contains(n)
}

pub open spec fn some_is(o: Option<&str>) -> Option<Seq<char>> {
    match o {
        Some(s) => Some(s@),
        None => None,
    }
}

/// The last identifier of a name or an attribute.
pub fn last_identifier(e: &Expression) -> (r: Option<&str>)
    ensures
        some_is(r) == last_name(*e),
{
    match e {
        Expression::Name { id } => Some(id.as_str()),
        Expression::Attribute { attr, .. } => Some(attr.as_str()),
        _ => None,
    }
}

/// The last identifier of what is called, or of the expression itself.
pub fn callable_tail_name(e: &Expression) -> (r: Option<&str>)
    ensures
        some_is(r) == tail_name(*e),
{
    match e {
        Expression::Call { func, .. } => last_identifier(func),
        _ => last_identifier(e),
    }
}

/// Like [`callable_tail_name`], for a base class: subscripts are dropped.
pub fn base_class_tail_name(e: &Expression) -> (r: Option<&str>)
    ensures
        some_is(r) == base_name(*e),
{
    match e {
        Expression::Subscript { value, .. } => callable_tail_name(value),
        _ => callable_tail_name(e),
    }
}

/// Whether [`callable_tail_name`] gives one of `names`.
pub fn callable_tail_in(e: &Expression, names: &[&str]) -> (r: bool)
    ensures
        r == is_one_of(tail_name(*e), str_views(names@)),
{
    match callable_tail_name(e) {
        Some(n) => one_of(n, names),
        None => false,
    }
}

/// Whether [`base_class_tail_name`] gives one of `names`.
pub fn base_class_tail_in(e: &Expression, names: &[&str]) -> (r: bool)
    ensures
        r == is_one_of(base_name(*e), str_views(names@)),
{
    match base_class_tail_name(e) {
        Some(n) => one_of(n, names),
        None => false,
    }
}

/// Whether a dotted name is `prefix` or something below it.
pub open spec fn is_below(raw: Seq<char>, prefix: Seq<char>) -> bool {
    raw == prefix || has_prefix(raw, prefix + "."@)
}

/// Whether an absolute import leads to one of the packages or below it.
pub open spec fn imports_any(imports: Seq<ImportView>, prefixes: Seq<Seq<char>>) -> bool {
    exists|i: int, j: int|
        0 <= i < imports.len() && 0 <= j < prefixes.len() && imports[i].kind == ImportKind::Absolute
            && #[trigger] is_below(imports[i].raw, prefixes[j])
}

fn below(raw: &str, prefix: &str) -> (r: bool)
    ensures
        r == is_below(raw@, prefix@),
{
    if same(raw, prefix) {
        return true;
    }
    let mut p = prefix.to_owned();
    p.append(".");
    starts_with(raw, p.as_str())
}

/// Whether the module has an absolute import of one of the packages, or of
/// something below one.
pub fn has_top_level_import(module: &ParsedModule, prefixes: &[&str]) -> (r: bool)
    ensures
        r == imports_any(import_views(module.imports@), str_views(prefixes@)),
{
    let ghost all = import_views(module.imports@);
    let ghost pre = str_views(prefixes@);
    let mut i: usize = 0;
    while i < module.imports.len()
        invariant
            i <= module.imports@.len(),
            all == import_views(module.imports@),
            pre == str_views(prefixes@),
            forall|a: int, b: int|
                0 <= a < i && 0 <= b < pre.len() && all[a].kind == ImportKind::Absolute
                    ==> !#[trigger] is_below(all[a].raw, pre[b]),
        decreases module.imports@.len() - i,
    {
        let spec = &module.imports[i];
        assert(all[i as int] == spec@);
        if let ImportKind::Absolute = spec.kind {
            let mut j: usize = 0;
            while j < prefixes.len()
                invariant
                    i < module.imports@.len(),
                    j <= prefixes@.len(),
                    all == import_views(module.imports@),
                    pre == str_views(prefixes@),
                    spec@ == all[i as int],
                    spec.kind == ImportKind::Absolute,
                    forall|b: int| 0 <= b < j ==> !#[trigger] is_below(all[i as int].raw, pre[b]),
                decreases prefixes@.len() - j,
            {
                assert(pre[j as int] == prefixes@[j as int]@);
                if below(spec.raw.as_str(), prefixes[j]) {
                    assert(is_below(all[i as int].raw, pre[j as int]));
                    return true;
                }
                j += 1;
            }
        }
        i += 1;
    }
    false
}

/// Whether a list of imports holds one of a name, of a kind and on a line.
pub open spec fn lists_import(v: Seq<ImportView>, raw: Seq<char>, kind: ImportKind, line: u32) -> bool {
    exists|i: int|
        0 <= i < v.len() && (#[trigger] v[i]).raw == raw && v[i].kind == kind && v[i].line == line
}

proof fn lemma_lists_either(a: Seq<ImportView>, b: Seq<ImportView>, raw: Seq<char>, kind: ImportKind, line: u32)
    ensures
        lists_import(a, raw, kind, line) || lists_import(b, raw, kind, line) ==> lists_import(
            a + b,
            raw,
            kind,
            line,
        ),
{
    if lists_import(a, raw, kind, line) {
        let i = choose|i: int|
            0 <= i < a.len() && (#[trigger] a[i]).raw == raw && a[i].kind == kind && a[i].line
                == line;
        assert((a + b)[i] == a[i]);
    }
    if lists_import(b, raw, kind, line) {
        let i = choose|i: int|
            0 <= i < b.len() && (#[trigger] b[i]).raw == raw && b[i].kind == kind && b[i].line
                == line;
        assert((a + b)[a.len() + i] == b[i]);
    }
}

/// Whether a statement imports a name, as one of a kind: `import a.b` imports `a.b`;
/// `from m import a` imports the module `m`, if it is named, and its member `a`,
/// unless that is `*`, with as many dots before both as are written.
pub open spec fn imports_name(s: Statement, raw: Seq<char>, kind: ImportKind) -> bool {
    match s {
        Statement::Import { names, .. } => kind == ImportKind::Absolute && exists|k: int|
            0 <= k < names@.len() && (#[trigger] names@[k]).name@ == raw,
        Statement::ImportFrom { module, names, level, .. } => (match level {
            Some(n) => kind == (if n == 0 {
                ImportKind::Absolute
            } else {
                ImportKind::Relative { level: n }
            }),
            None => kind == ImportKind::Absolute,
        }) && ((module matches Some(m) && m@.len() > 0 && m@ == raw) || (exists|k: int|
            0 <= k < names@.len() && (#[trigger] names@[k]).name@ != "*"@ && raw == (match module {
                Some(m) => if m@.len() > 0 {
                    m@ + "."@ + names@[k].name@
                } else {
                    names@[k].name@
                },
                None => names@[k].name@,
            }))),
        _ => false,
    }
}

/// Every import statement is listed, at whatever depth it stands in functions,
/// classes, branches, `try` and `with`, and with the line on which it starts: the
/// same statements whose names are looked at for being unused.
pub proof fn every_import_is_listed(
    v: Seq<Statement>,
    bytes: Seq<u8>,
    at: Setting,
    stmt: Statement,
    raw: Seq<char>,
    kind: ImportKind,
)
    requires
        nested_in(v, import_places()).contains(stmt),
        imports_name(stmt, raw, kind),
    ensures
        lists_import(
            imports_in(v, bytes, at),
            raw,
            kind,
            line32(bytes, stmt.place().start as int),
        ),
    decreases v,
{
    let d = import_places();
    let line = line32(bytes, stmt.place().start as int);
    lemma_lists_either(
        imports_in(v.drop_last(), bytes, at),
        imports_of(v.last(), bytes, at),
        raw,
        kind,
        line,
    );
    let all = nested_in(v, d);
    let before = nested_in(v.drop_last(), d);
    let i = choose|i: int| 0 <= i < all.len() && all[i] == stmt;
    if i < before.len() {
        assert(before[i] == stmt);
        every_import_is_listed(v.drop_last(), bytes, at, stmt, raw, kind);
    } else if i == before.len() {
        assert(v.last() == stmt);
        lemma_own_imports(stmt, bytes, at, raw, kind);
    } else {
        let below = nested_below(v.last(), d);
        assert(below[i - before.len() - 1] == stmt);
        lemma_imports_below(v.last(), bytes, at, stmt, raw, kind);
    }
}

proof fn lemma_imports_in_handlers(
    v: Seq<Handler>,
    bytes: Seq<u8>,
    at: Setting,
    stmt: Statement,
    raw: Seq<char>,
    kind: ImportKind,
)
    requires
        nested_in_handlers(v, import_places()).contains(stmt),
        imports_name(stmt, raw, kind),
    ensures
        lists_import(
            imports_in_handlers(v, bytes, at),
            raw,
            kind,
            line32(bytes, stmt.place().start as int),
        ),
    decreases v,
{
    let d = import_places();
    let line = line32(bytes, stmt.place().start as int);
    lemma_lists_either(
        imports_in_handlers(v.drop_last(), bytes, at),
        imports_in(v.last().body@, bytes, at),
        raw,
        kind,
        line,
    );
    let all = nested_in_handlers(v, d);
    let before = nested_in_handlers(v.drop_last(), d);
    let own = nested_in(v.last().body@, d);
    let i = choose|i: int| 0 <= i < all.len() && all[i] == stmt;
    if i < before.len() {
        assert(before[i] == stmt);
        lemma_imports_in_handlers(v.drop_last(), bytes, at, stmt, raw, kind);
    } else {
        assert(own[i - before.len()] == stmt);
        every_import_is_listed(v.last().body@, bytes, at, stmt, raw, kind);
    }
}

proof fn lemma_imports_below(
    s: Statement,
    bytes: Seq<u8>,
    at: Setting,
    stmt: Statement,
    raw: Seq<char>,
    kind: ImportKind,
)
    requires
        nested_below(s, import_places()).contains(stmt),
        imports_name(stmt, raw, kind),
    ensures
        lists_import(
            imports_of(s, bytes, at),
            raw,
            kind,
            line32(bytes, stmt.place().start as int),
        ),
    decreases s,
{
    let d = import_places();
    let line = line32(bytes, stmt.place().start as int);
    let below = nested_below(s, d);
    let i = choose|i: int| 0 <= i < below.len() && below[i] == stmt;
    match s {
        Statement::FunctionDef(f) => every_import_is_listed(f.body@, bytes, at, stmt, raw, kind),
        Statement::AsyncFunctionDef(f) => every_import_is_listed(
            f.body@,
            bytes,
            at,
            stmt,
            raw,
            kind,
        ),
        Statement::ClassDef(c) => every_import_is_listed(c.body@, bytes, at, stmt, raw, kind),
        Statement::With(w) => every_import_is_listed(w.body@, bytes, at, stmt, raw, kind),
        Statement::AsyncWith(w) => every_import_is_listed(w.body@, bytes, at, stmt, raw, kind),
        Statement::If(b) => {
            let guarded = is_type_checking(*b.test);
            let inner = Setting {
                conditional: at.conditional || guarded,
                type_only: at.type_only || guarded,
            };
            let x = nested_in(b.body@, d);
            let y = nested_in(b.orelse@, d);
            if i < x.len() {
                assert(x[i] == stmt);
                every_import_is_listed(b.body@, bytes, inner, stmt, raw, kind);
            } else {
                assert(y[i - x.len()] == stmt);
                every_import_is_listed(b.orelse@, bytes, at, stmt, raw, kind);
            }
            lemma_lists_either(
                imports_in(b.body@, bytes, inner),
                imports_in(b.orelse@, bytes, at),
                raw,
                kind,
                line,
            );
        },
        Statement::Try(t) => {
            let inner = Setting {
                conditional: at.conditional || handles_import_error(t.handlers@),
                type_only: at.type_only,
            };
            let caught = Setting { conditional: true, type_only: at.type_only };
            let x = nested_in(t.body@, d);
            let y = nested_in_handlers(t.handlers@, d);
            let z = nested_in(t.orelse@, d);
            let e = nested_in(t.finalbody@, d);
            if i < x.len() {
                assert(x[i] == stmt);
                every_import_is_listed(t.body@, bytes, inner, stmt, raw, kind);
            } else if i < x.len() + y.len() {
                assert(y[i - x.len()] == stmt);
                lemma_imports_in_handlers(t.handlers@, bytes, caught, stmt, raw, kind);
            } else if i < x.len() + y.len() + z.len() {
                assert(z[i - x.len() - y.len()] == stmt);
                every_import_is_listed(t.orelse@, bytes, at, stmt, raw, kind);
            } else {
                assert(e[i - x.len() - y.len() - z.len()] == stmt);
                every_import_is_listed(t.finalbody@, bytes, at, stmt, raw, kind);
            }
            let a = imports_in(t.body@, bytes, inner);
            let b = imports_in_handlers(t.handlers@, bytes, caught);
            let c = imports_in(t.orelse@, bytes, at);
            let f = imports_in(t.finalbody@, bytes, at);
            lemma_lists_either(a, b, raw, kind, line);
            lemma_lists_either(a + b, c, raw, kind, line);
            lemma_lists_either(a + b + c, f, raw, kind, line);
        },
        _ => {},
    }
}

proof fn lemma_own_imports(
    s: Statement,
    bytes: Seq<u8>,
    at: Setting,
    raw: Seq<char>,
    kind: ImportKind,
)
    requires
        imports_name(s, raw, kind),
    ensures
        lists_import(
            imports_of(s, bytes, at),
            raw,
            kind,
            line32(bytes, s.place().start as int),
        ),
{
    let line = line32(bytes, s.place().start as int);
    match s {
        Statement::Import { span, names } => {
            let k = choose|k: int| 0 <= k < names@.len() && (#[trigger] names@[k]).name@ == raw;
            assert(imports_of(s, bytes, at)[k].raw == raw);
        },
        Statement::ImportFrom { span, module, names, level } => {
            let m = text_or_empty(module);
            let members = member_imports(m, names@, kind, at, line);
            let head = seq![
                ImportView {
                    raw: m,
                    kind,
                    is_conditional: at.conditional,
                    is_type_only: at.type_only,
                    line,
                },
            ];
            assert(kind == kind_of_level(level));
            if module matches Some(t) && t@.len() > 0 && t@ == raw {
                assert(imports_of(s, bytes, at)[0] == head[0]);
            } else {
                let k = choose|k: int|
                    0 <= k < names@.len() && (#[trigger] names@[k]).name@ != "*"@ && raw == (
                    match module {
                        Some(m) => if m@.len() > 0 {
                            m@ + "."@ + names@[k].name@
                        } else {
                            names@[k].name@
                        },
                        None => names@[k].name@,
                    });
                lemma_member_listed(m, names@, kind, at, line, k);
                lemma_lists_either(head, members, raw, kind, line);
            }
        },
        _ => {},
    }
}

proof fn lemma_member_listed(
    module: Seq<char>,
    names: Seq<ImportedName>,
    kind: ImportKind,
    at: Setting,
    line: u32,
    k: int,
)
    requires
        0 <= k < names.len(),
        names[k].name@ != "*"@,
    ensures
        lists_import(
            member_imports(module, names, kind, at, line),
            member(module, names[k].name@),
            kind,
            line,
        ),
    decreases names.len(),
{
    let all = member_imports(module, names, kind, at, line);
    let before = member_imports(module, names.drop_last(), kind, at, line);
    let raw = member(module, names[k].name@);
    if k < names.len() - 1 {
        lemma_member_listed(module, names.drop_last(), kind, at, line, k);
        let i = choose|i: int|
            0 <= i < before.len() && (#[trigger] before[i]).raw == raw && before[i].kind == kind
                && before[i].line == line;
        assert(all[i] == before[i]);
    } else {
        assert(all[before.len() as int].raw == raw);
    }
}

/// Whether every import of a list is marked as the setting says, and none as one that
/// never runs but may run.
pub open spec fn marked(v: Seq<ImportView>, at: Setting) -> bool {
    forall|i: int|
        0 <= i < v.len() ==> (at.conditional ==> (#[trigger] v[i]).is_conditional) && (at.type_only
            ==> v[i].is_type_only) && (v[i].is_type_only ==> at.type_only || v[i].is_conditional)
}

proof fn lemma_marked_either(a: Seq<ImportView>, b: Seq<ImportView>, at: Setting)
    requires
        marked(a, at),
        marked(b, at),
    ensures
        marked(a + b, at),
{
    assert forall|i: int| 0 <= i < (a + b).len() implies (at.conditional ==> (#[trigger] (a
        + b)[i]).is_conditional) && (at.type_only ==> (a + b)[i].is_type_only) && ((a
        + b)[i].is_type_only ==> at.type_only || (a + b)[i].is_conditional) by {
        if i < a.len() {
            assert((a + b)[i] == a[i]);
        } else {
            assert((a + b)[i] == b[i - a.len()]);
        }
    }
}

/// What holds where an import stands holds of the imports below it: where nothing
/// runs nothing below it does, what may not run makes all below it such, and an import
/// that never runs by itself is marked as one that may not.
pub proof fn imports_keep_their_setting(v: Seq<Statement>, bytes: Seq<u8>, at: Setting)
    ensures
        marked(imports_in(v, bytes, at), at),
    decreases v,
{
    if v.len() > 0 {
        imports_keep_their_setting(v.drop_last(), bytes, at);
        lemma_statement_marked(v.last(), bytes, at);
        lemma_marked_either(
            imports_in(v.drop_last(), bytes, at),
            imports_of(v.last(), bytes, at),
            at,
        );
    }
}

proof fn lemma_handlers_marked(v: Seq<Handler>, bytes: Seq<u8>, at: Setting)
    ensures
        marked(imports_in_handlers(v, bytes, at), at),
    decreases v,
{
    if v.len() > 0 {
        lemma_handlers_marked(v.drop_last(), bytes, at);
        imports_keep_their_setting(v.last().body@, bytes, at);
        lemma_marked_either(
            imports_in_handlers(v.drop_last(), bytes, at),
            imports_in(v.last().body@, bytes, at),
            at,
        );
    }
}

proof fn lemma_statement_marked(s: Statement, bytes: Seq<u8>, at: Setting)
    ensures
        marked(imports_of(s, bytes, at), at),
    decreases s,
{
    match s {
        Statement::ImportFrom { span, module, names, level } => {
            let line = line32(bytes, span.start as int);
            lemma_members_marked(text_or_empty(module), names@, kind_of_level(level), at, line);
        },
        Statement::If(b) => {
            let guarded = is_type_checking(*b.test);
            let inner = Setting {
                conditional: at.conditional || guarded,
                type_only: at.type_only || guarded,
            };
            imports_keep_their_setting(b.body@, bytes, inner);
            imports_keep_their_setting(b.orelse@, bytes, at);
            assert(marked(imports_in(b.body@, bytes, inner), at));
            lemma_marked_either(
                imports_in(b.body@, bytes, inner),
                imports_in(b.orelse@, bytes, at),
                at,
            );
        },
        Statement::Try(t) => {
            let inner = Setting {
                conditional: at.conditional || handles_import_error(t.handlers@),
                type_only: at.type_only,
            };
            let caught = Setting { conditional: true, type_only: at.type_only };
            imports_keep_their_setting(t.body@, bytes, inner);
            lemma_handlers_marked(t.handlers@, bytes, caught);
            imports_keep_their_setting(t.orelse@, bytes, at);
            imports_keep_their_setting(t.finalbody@, bytes, at);
            let a = imports_in(t.body@, bytes, inner);
            let b = imports_in_handlers(t.handlers@, bytes, caught);
            let c = imports_in(t.orelse@, bytes, at);
            let f = imports_in(t.finalbody@, bytes, at);
            assert(marked(a, at));
            assert(marked(b, at));
            lemma_marked_either(a, b, at);
            lemma_marked_either(a + b, c, at);
            lemma_marked_either(a + b + c, f, at);
        },
        Statement::FunctionDef(f) => imports_keep_their_setting(f.body@, bytes, at),
        Statement::AsyncFunctionDef(f) => imports_keep_their_setting(f.body@, bytes, at),
        Statement::ClassDef(c) => imports_keep_their_setting(c.body@, bytes, at),
        Statement::With(w) => imports_keep_their_setting(w.body@, bytes, at),
        Statement::AsyncWith(w) => imports_keep_their_setting(w.body@, bytes, at),
        _ => {},
    }
}

proof fn lemma_members_marked(
    module: Seq<char>,
    names: Seq<ImportedName>,
    kind: ImportKind,
    at: Setting,
    line: u32,
)
    ensures
        marked(member_imports(module, names, kind, at, line), at),
    decreases names.len(),
{
    if names.len() > 0 {
        lemma_members_marked(module, names.drop_last(), kind, at, line);
    }
}

/// Below `if TYPE_CHECKING:`, with or without a module before the name, no import
/// ever runs, at whatever depth; what stands in its `else` is as it is without the
/// `if`, and so is everything in an `if` with any other name as its test.
pub proof fn type_checking_imports_never_run(b: Branch, bytes: Seq<u8>, at: Setting, i: int)
    requires
        0 <= i < imports_in(b.body@, bytes, at).len(),
    ensures
        imports_of(Statement::If(b), bytes, at).len() == imports_in(b.body@, bytes, at).len()
            + imports_in(b.orelse@, bytes, at).len(),
        imports_of(Statement::If(b), bytes, at).skip(
            imports_in(b.body@, bytes, at).len() as int,
        ) == imports_in(b.orelse@, bytes, at),
        is_name(*b.test, "TYPE_CHECKING"@) || (*b.test matches Expression::Attribute { attr, .. }
            && attr@ == "TYPE_CHECKING"@) ==> imports_of(
            Statement::If(b),
            bytes,
            at,
        )[i].is_type_only && imports_of(Statement::If(b), bytes, at)[i].is_conditional,
        !is_name(*b.test, "TYPE_CHECKING"@) && !(*b.test matches Expression::Attribute { attr, .. }
            && attr@ == "TYPE_CHECKING"@) ==> imports_of(Statement::If(b), bytes, at)[i]
            == imports_in(b.body@, bytes, at)[i],
{
    let guarded = is_type_checking(*b.test);
    let inner = Setting {
        conditional: at.conditional || guarded,
        type_only: at.type_only || guarded,
    };
    lemma_same_length(b.body@, bytes, at, inner);
    imports_keep_their_setting(b.body@, bytes, inner);
    let x = imports_in(b.body@, bytes, inner);
    let y = imports_in(b.orelse@, bytes, at);
    assert((x + y).skip(x.len() as int) =~= y);
    assert((x + y)[i] == x[i]);
}

/// As many imports are found under one setting as under another.
proof fn lemma_same_length(v: Seq<Statement>, bytes: Seq<u8>, a: Setting, b: Setting)
    ensures
        imports_in(v, bytes, a).len() == imports_in(v, bytes, b).len(),
    decreases v,
{
    if v.len() > 0 {
        lemma_same_length(v.drop_last(), bytes, a, b);
        lemma_statement_same_length(v.last(), bytes, a, b);
    }
}

proof fn lemma_handlers_same_length(v: Seq<Handler>, bytes: Seq<u8>, a: Setting, b: Setting)
    ensures
        imports_in_handlers(v, bytes, a).len() == imports_in_handlers(v, bytes, b).len(),
    decreases v,
{
    if v.len() > 0 {
        lemma_handlers_same_length(v.drop_last(), bytes, a, b);
        lemma_same_length(v.last().body@, bytes, a, b);
    }
}

proof fn lemma_statement_same_length(s: Statement, bytes: Seq<u8>, a: Setting, b: Setting)
    ensures
        imports_of(s, bytes, a).len() == imports_of(s, bytes, b).len(),
    decreases s,
{
    match s {
        Statement::ImportFrom { span, module, names, level } => {
            lemma_members_same_length(
                text_or_empty(module),
                names@,
                kind_of_level(level),
                a,
                b,
                line32(bytes, span.start as int),
            );
        },
        Statement::If(f) => {
            let guarded = is_type_checking(*f.test);
            lemma_same_length(
                f.body@,
                bytes,
                Setting {
                    conditional: a.conditional || guarded,
                    type_only: a.type_only || guarded,
                },
                Setting {
                    conditional: b.conditional || guarded,
                    type_only: b.type_only || guarded,
                },
            );
            lemma_same_length(f.orelse@, bytes, a, b);
        },
        Statement::Try(t) => {
            let caught = handles_import_error(t.handlers@);
            lemma_same_length(
                t.body@,
                bytes,
                Setting { conditional: a.conditional || caught, type_only: a.type_only },
                Setting { conditional: b.conditional || caught, type_only: b.type_only },
            );
            lemma_handlers_same_length(
                t.handlers@,
                bytes,
                Setting { conditional: true, type_only: a.type_only },
                Setting { conditional: true, type_only: b.type_only },
            );
            lemma_same_length(t.orelse@, bytes, a, b);
            lemma_same_length(t.finalbody@, bytes, a, b);
        },
        Statement::FunctionDef(f) => lemma_same_length(f.body@, bytes, a, b),
        Statement::AsyncFunctionDef(f) => lemma_same_length(f.body@, bytes, a, b),
        Statement::ClassDef(c) => lemma_same_length(c.body@, bytes, a, b),
        Statement::With(w) => lemma_same_length(w.body@, bytes, a, b),
        Statement::AsyncWith(w) => lemma_same_length(w.body@, bytes, a, b),
        _ => {},
    }
}

proof fn lemma_members_same_length(
    module: Seq<char>,
    names: Seq<ImportedName>,
    kind: ImportKind,
    a: Setting,
    b: Setting,
    line: u32,
)
    ensures
        member_imports(module, names, kind, a, line).len() == member_imports(
            module,
            names,
            kind,
            b,
            line,
        ).len(),
    decreases names.len(),
{
    if names.len() > 0 {
        lemma_members_same_length(module, names.drop_last(), kind, a, b, line);
    }
}

/// The imports in the handlers of a `try` may not run, and neither may those in its
/// body if a handler catches `ImportError` or `ModuleNotFoundError`, alone or in a
/// tuple.
pub proof fn fallback_imports_may_not_run(t: TryBlock, bytes: Seq<u8>, i: int)
    requires
        0 <= i < imports_of(
            Statement::Try(t),
            bytes,
            Setting { conditional: false, type_only: false },
        ).len(),
        imports_in(t.orelse@, bytes, Setting { conditional: false, type_only: false }).len() == 0,
        imports_in(t.finalbody@, bytes, Setting { conditional: false, type_only: false }).len() == 0,
        imports_in(t.body@, bytes, Setting { conditional: false, type_only: false }).len() == 0 || (
        exists|h: int|
            0 <= h < t.handlers@.len() && (#[trigger] t.handlers@[h].type_ matches Some(e)
                && names_import_error(*e))),
    ensures
        imports_of(
            Statement::Try(t),
            bytes,
            Setting { conditional: false, type_only: false },
        )[i].is_conditional,
{
    let at = Setting { conditional: false, type_only: false };
    let inner = Setting {
        conditional: at.conditional || handles_import_error(t.handlers@),
        type_only: at.type_only,
    };
    let caught = Setting { conditional: true, type_only: at.type_only };
    lemma_same_length(t.body@, bytes, at, inner);
    imports_keep_their_setting(t.body@, bytes, inner);
    lemma_handlers_marked(t.handlers@, bytes, caught);
    let a = imports_in(t.body@, bytes, inner);
    let b = imports_in_handlers(t.handlers@, bytes, caught);
    if i < a.len() {
        assert(imports_of(Statement::Try(t), bytes, at)[i] == a[i]);
    } else {
        assert(imports_of(Statement::Try(t), bytes, at)[i] == b[i - a.len()]);
    }
}

/// A failed import is caught by name, and by a tuple one of whose members catches it.
pub proof fn tuples_catch_what_their_members_catch(v: Seq<Expression>)
    ensures
        some_names_import_error(v) <==> exists|i: int|
            0 <= i < v.len() && names_import_error(#[trigger] v[i]),
    decreases v.len(),
{
    if v.len() > 0 {
        tuples_catch_what_their_members_catch(v.drop_last());
        if some_names_import_error(v) {
            if names_import_error(v.last()) {
                assert(names_import_error(v[v.len() - 1]));
            } else {
                let i = choose|i: int|
                    0 <= i < v.drop_last().len() && names_import_error(#[trigger] v.drop_last()[i]);
                assert(names_import_error(v[i]));
            }
        }
        if exists|i: int| 0 <= i < v.len() && names_import_error(#[trigger] v[i]) {
            let i = choose|i: int| 0 <= i < v.len() && names_import_error(#[trigger] v[i]);
            if i < v.len() - 1 {
                assert(names_import_error(v.drop_last()[i]));
            }
        }
    }
}

/// A module is a script if, at top level, it compares `__name__` with `"__main__"`,
/// whichever of them stands first.
pub proof fn main_guards_work_both_ways(
    v: Seq<Statement>,
    i: int,
    b: Branch,
    left: Box<Expression>,
    ops: Vec<CompareOp>,
    comparators: Vec<Expression>,
)
    requires
        0 <= i < v.len(),
        v[i] == Statement::If(b),
        *b.test == (Expression::Compare { left, ops, comparators }),
        ops@ == seq![CompareOp::Eq],
        comparators@.len() == 1,
        (is_name(*left, "__name__"@) && is_string(comparators@[0], "__main__"@)) || (is_string(
            *left,
            "__main__"@,
        ) && is_name(comparators@[0], "__name__"@)),
    ensures
        has_main_guard(v),
{
    assert(is_main_guard(v[i]));
}

/// What a module defines at top level it exports, and nothing that stands inside a
/// function or a class.
pub proof fn definitions_are_exported(v: Seq<Statement>, i: int, name: Seq<char>)
    requires
        0 <= i < v.len(),
        match v[i] {
            Statement::FunctionDef(f) => f.name@ == name,
            Statement::AsyncFunctionDef(f) => f.name@ == name,
            Statement::ClassDef(c) => c.name@ == name,
            Statement::Assign { targets, .. } => some_name(targets@, name),
            Statement::AnnAssign { target, .. } => is_name(*target, name),
            _ => false,
        },
    ensures
        exports_in(v).contains(name),
        !(v[i] is Assign) ==> exports_of(v[i]) == seq![name],
    decreases v.len(),
{
    let before = exports_in(v.drop_last());
    let all = exports_in(v);
    lemma_own_exports(v[i], name);
    if i < v.len() - 1 {
        definitions_are_exported(v.drop_last(), i, name);
        let k = choose|k: int| 0 <= k < before.len() && before[k] == name;
        assert(all[k] == name);
    } else {
        let own = exports_of(v[i]);
        let k = choose|k: int| 0 <= k < own.len() && own[k] == name;
        assert(all[before.len() + k] == name);
    }
}

proof fn lemma_own_exports(s: Statement, name: Seq<char>)
    requires
        match s {
            Statement::FunctionDef(f) => f.name@ == name,
            Statement::AsyncFunctionDef(f) => f.name@ == name,
            Statement::ClassDef(c) => c.name@ == name,
            Statement::Assign { targets, .. } => some_name(targets@, name),
            Statement::AnnAssign { target, .. } => is_name(*target, name),
            _ => false,
        },
    ensures
        exports_of(s).contains(name),
        !(s is Assign) ==> exports_of(s) == seq![name],
{
    match s {
        Statement::Assign { targets, .. } => {
            let i = choose|i: int| 0 <= i < targets@.len() && is_name(#[trigger] targets@[i], name);
            lemma_target_named(targets@, i, name);
        },
        _ => {
            assert(exports_of(s)[0] == name);
        },
    }
}

proof fn lemma_target_named(v: Seq<Expression>, i: int, name: Seq<char>)
    requires
        0 <= i < v.len(),
        is_name(v[i], name),
    ensures
        target_names(v).contains(name),
    decreases v.len(),
{
    let before = target_names(v.drop_last());
    let all = target_names(v);
    if i < v.len() - 1 {
        lemma_target_named(v.drop_last(), i, name);
        let k = choose|k: int| 0 <= k < before.len() && before[k] == name;
        assert(all[k] == name);
    } else {
        assert(all[before.len() as int] == name);
    }
}

/// `foo`, `module.foo`, `foo(..)` and `module.foo(..)` all go by the name `foo`, and as
/// a base class so does `foo[T]`.
pub proof fn names_are_found_behind_calls_and_modules(e: Expression, name: Seq<char>)
    requires
        is_name(e, name) || (e matches Expression::Attribute { attr, .. } && attr@ == name),
    ensures
        tail_name(e) == Some(name),
        base_name(e) == Some(name),
        forall|c: Expression|
            (c matches Expression::Call { func, .. } && *func == e) ==> #[trigger] tail_name(c)
                == Some(name) && base_name(c) == Some(name),
        forall|c: Expression|
            (c matches Expression::Subscript { value, .. } && *value == e) ==> #[trigger] base_name(
                c,
            ) == Some(name),
{
}

/// A package is imported by its own name and by that of anything below it, but not by
/// a name that only starts alike, nor by a relative import.
pub proof fn packages_are_imported_with_what_is_below(
    imports: Seq<ImportView>,
    package: Seq<char>,
    rest: Seq<char>,
    i: int,
)
    requires
        0 <= i < imports.len(),
    ensures
        imports[i].kind == ImportKind::Absolute && (imports[i].raw == package || imports[i].raw
            == package + "."@ + rest) ==> imports_any(imports, seq![package]),
        (forall|k: int|
            0 <= k < imports.len() ==> (#[trigger] imports[k]).kind != ImportKind::Absolute || (
            imports[k].raw.len() > package.len() && imports[k].raw[package.len() as int] != '.')
                || imports[k].raw.len() < package.len()) ==> !imports_any(imports, seq![package]),
{
    reveal_strlit(".");
    let p = seq![package];
    if imports[i].raw == package + "."@ + rest {
        assert(imports[i].raw.take((package + "."@).len() as int) =~= package + "."@);
        assert(is_below(imports[i].raw, package));
    }
    if imports[i].kind == ImportKind::Absolute && is_below(imports[i].raw, package) {
        assert(is_below(imports[i].raw, p[0]));
    }
    if (forall|k: int|
        0 <= k < imports.len() ==> (#[trigger] imports[k]).kind != ImportKind::Absolute || (
        imports[k].raw.len() > package.len() && imports[k].raw[package.len() as int] != '.')
            || imports[k].raw.len() < package.len()) && imports_any(imports, p) {
        let (k, j) = choose|k: int, j: int|
            0 <= k < imports.len() && 0 <= j < p.len() && imports[k].kind == ImportKind::Absolute
                && #[trigger] is_below(imports[k].raw, p[j]);
        let raw = imports[k].raw;
        assert(p[j] == package);
        if has_prefix(raw, package + "."@) {
            assert(raw.take((package + "."@).len() as int)[package.len() as int] == '.');
        }
    }
}

/// A line asks to be left alone if `noqa` stands in it behind a number sign, with a
/// space between them or without, and in capitals or not.
pub proof fn noqa_comments_are_seen(before: Seq<char>, word: Seq<char>, behind: Seq<char>)
    requires
        ascii_lowercase(word) == "# noqa"@ || ascii_lowercase(word) == "#noqa"@,
    ensures
        is_noqa(before + word + behind),
{
    let line = before + word + behind;
    let low = ascii_lowercase(line);
    let n = before.len() as int;
    assert(low.subrange(n, n + word.len()) =~= ascii_lowercase(word));
    assert(occurs_at(low, ascii_lowercase(word), n));
}

/// A line feed starts a new line, and no other byte does.
pub proof fn a_line_feed_starts_a_line(bytes: Seq<u8>, n: int)
    requires
        0 <= n < bytes.len(),
    ensures
        bytes[n] == 10 ==> line_of(bytes, n + 1) == line_of(bytes, n) + 1,
        bytes[n] != 10 ==> line_of(bytes, n + 1) == line_of(bytes, n),
{
}

} // verus!
