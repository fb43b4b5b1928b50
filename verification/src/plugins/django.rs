//! Modules that django uses.
use super::common::{
    any_nested, bases, decorated_by, decorators, derives_from, discover_parallel, entries_where,
    reports, some_base_in, some_nested, some_tail_in,
};
use crate::ast::{ClassDef, Expression, FunctionDef, Statement};
use crate::extract::{
    base_name, has_top_level_import, imports_any, is_one_of, tail_name, ParsedModule,
};
use crate::path::{FilePath, PathView};
use crate::text::{has_prefix, one_of, same, starts_with, str_views};
use crate::types::{import_views, PluginResult};
use crate::walker::{nested_in, Descent};
use rustc_hash::FxHashMap;
use vstd::prelude::*;

verus! {

pub const PLUGIN_NAME: &'static str = "django";

/// Base classes of models, views, commands and admin pages.
pub const FRAMEWORK_BASES: [&'static str; 30] = [
    "Model", "AbstractUser", "AbstractBaseUser", "View", "APIView", "ViewSet", "GenericViewSet",
    "ModelViewSet", "ReadOnlyModelViewSet", "TemplateView", "ListView", "DetailView", "CreateView",
    "UpdateView", "DeleteView", "FormView", "RedirectView", "GenericAPIView", "ListAPIView",
    "RetrieveAPIView", "CreateAPIView", "DestroyAPIView", "UpdateAPIView", "BaseCommand",
    "AppCommand", "LabelCommand", "ModelAdmin", "TabularInline", "StackedInline", "Admin",
];

/// Decorators of functions that receive signals.
pub const SIGNAL_DECORATORS: [&'static str; 1] = ["receiver"];

/// Settings that django asks for.
pub const SETTINGS_KEYS: [&'static str; 6] = [
    "INSTALLED_APPS", "MIDDLEWARE", "DATABASES", "ROOT_URLCONF", "AUTH_USER_MODEL",
    "WSGI_APPLICATION",
];

pub const URLPATTERNS: [&'static str; 1] = ["urlpatterns"];

pub const PACKAGES: [&'static str; 2] = ["django", "rest_framework"];

/// Whether the file is a Python file below a directory of migrations, or is
/// called so itself: django finds these by their place.
pub open spec fn is_migration(p: PathView) -> bool {
    p.parts.contains("migrations"@) && p.is_python()
}

/// Whether a file has a name that settings and server interfaces go by.
pub open spec fn looks_like_settings(p: PathView) -> bool {
    match p.file_name() {
        Some(n) => n == "settings.py"@ || has_prefix(n, "settings_"@) || n == "asgi.py"@ || n
            == "wsgi.py"@,
        None => false,
    }
}

fn path_is_migration(path: &FilePath) -> (r: bool)
    ensures
        r == is_migration(path@),
{
    path.has_part("migrations") && path.is_python()
}

fn path_looks_like_settings(path: &FilePath) -> (r: bool)
    ensures
        r == looks_like_settings(path@),
{
    match path.file_name() {
        Some(n) => same(n, "settings.py") || starts_with(n, "settings_") || same(n, "asgi.py")
            || same(n, "wsgi.py"),
        None => false,
    }
}

/// Whether an expression is one of the names.
pub open spec fn is_name_in(e: Expression, names: Seq<Seq<char>>) -> bool {
    e matches Expression::Name { id } && names.contains(id@)
}

/// Whether a statement assigns to one of the names.
pub open spec fn assigns_to(s: Statement, names: Seq<Seq<char>>) -> bool {
    match s {
        Statement::Assign { targets, .. } => exists|i: int|
            0 <= i < targets@.len() && is_name_in(#[trigger] targets@[i], names),
        Statement::AnnAssign { target, .. } => is_name_in(*target, names),
        _ => false,
    }
}

/// Whether a statement of a list assigns to one of the names.
pub open spec fn some_assigns_to(v: Seq<Statement>, names: Seq<Seq<char>>) -> bool {
    exists|i: int| 0 <= i < v.len() && assigns_to(#[trigger] v[i], names)
}

fn name_in(e: &Expression, names: &[&str]) -> (r: bool)
    ensures
        r == is_name_in(*e, str_views(names@)),
{
    match e {
        Expression::Name { id } => one_of(id.as_str(), names),
        _ => false,
    }
}

fn any_name_in(v: &Vec<Expression>, names: &[&str]) -> (r: bool)
    ensures
        r == exists|i: int| 0 <= i < v@.len() && is_name_in(#[trigger] v@[i], str_views(names@)),
{
    let mut i: usize = 0;
    while i < v.len()
        invariant
            i <= v@.len(),
            forall|j: int| 0 <= j < i ==> !is_name_in(#[trigger] v@[j], str_views(names@)),
        decreases v@.len() - i,
    {
        if name_in(&v[i], names) {
            return true;
        }
        i += 1;
    }
    false
}

fn any_assigns_to(v: &Vec<Statement>, names: &[&str]) -> (r: bool)
    ensures
        r == some_assigns_to(v@, str_views(names@)),
{
    let mut i: usize = 0;
    while i < v.len()
        invariant
            i <= v@.len(),
            forall|j: int| 0 <= j < i ==> !assigns_to(#[trigger] v@[j], str_views(names@)),
        decreases v@.len() - i,
    {
        let hit = match &v[i] {
            Statement::Assign { targets, .. } => any_name_in(targets, names),
            Statement::AnnAssign { target, .. } => name_in(target, names),
            _ => false,
        };
        if hit {
            assert(assigns_to(v@[i as int], str_views(names@)));
            return true;
        }
        i += 1;
    }
    false
}

/// Whether a statement defines a class of the framework or a signal receiver.
pub open spec fn marks_django(s: Statement) -> bool {
    some_base_in(bases(s), str_views(FRAMEWORK_BASES@)) || some_tail_in(
        decorators(s),
        str_views(SIGNAL_DECORATORS@),
    )
}

fn stmt_marks_django_entry(s: &Statement) -> (r: bool)
    ensures
        r == marks_django(*s),
{
    derives_from(s, &FRAMEWORK_BASES) || decorated_by(s, &SIGNAL_DECORATORS)
}

/// Whether django uses the module: a migration; settings, which need not import
/// django; or, if it imports django, a list of routes, a class of the
/// framework or a signal receiver.
pub open spec fn is_django_entry(m: ParsedModule) -> bool {
    if is_migration(m.path@) {
        true
    } else if !imports_any(import_views(m.imports@), str_views(PACKAGES@)) {
        looks_like_settings(m.path@) && some_assigns_to(m.suite@, str_views(SETTINGS_KEYS@))
    } else {
        m.path@.is_named("urls.py"@) || some_assigns_to(m.suite@, str_views(URLPATTERNS@))
            || some_nested(
            m.suite@,
            Descent { classes: true, tries: true, try_tails: false, withs: true },
            |s: Statement| marks_django(s),
        )
    }
}

/// Whether django uses the module.
pub fn module_is_django_entry(module: &ParsedModule) -> (r: bool)
    ensures
        r == is_django_entry(*module),
{
    if path_is_migration(&module.path) {
        return true;
    }
    if !has_top_level_import(module, &PACKAGES) {
        return path_looks_like_settings(&module.path) && any_assigns_to(
            &module.suite,
            &SETTINGS_KEYS,
        );
    }
    module.path.is_named("urls.py") || any_assigns_to(&module.suite, &URLPATTERNS) || any_nested(
        &module.suite,
        Descent { classes: true, tries: true, try_tails: false, withs: true },
        stmt_marks_django_entry,
        Ghost(|s: Statement| marks_django(s)),
    )
}

/// The modules that django uses.
pub fn discover(parsed: &FxHashMap<u32, ParsedModule>) -> (r: PluginResult)
    ensures
        reports(r, PLUGIN_NAME@, entries_where(parsed@, |m: ParsedModule| is_django_entry(m))),
{
    discover_parallel(
        PLUGIN_NAME,
        parsed,
        module_is_django_entry,
        Ghost(|m: ParsedModule| is_django_entry(m)),
    )
}

/// A model, view, command or admin page makes its module an entry.
pub proof fn django_classes_are_entries(m: ParsedModule, c: ClassDef, i: int)
    requires
        imports_any(import_views(m.imports@), str_views(PACKAGES@)),
        nested_in(
            m.suite@,
            Descent { classes: true, tries: true, try_tails: false, withs: true },
        ).contains(Statement::ClassDef(c)),
        0 <= i < c.bases@.len(),
        is_one_of(base_name(c.bases@[i]), str_views(FRAMEWORK_BASES@)),
    ensures
        is_django_entry(m),
{
    let s = Statement::ClassDef(c);
    let all = nested_in(
        m.suite@,
        Descent { classes: true, tries: true, try_tails: false, withs: true },
    );
    let k = choose|k: int| 0 <= k < all.len() && all[k] == s;
    assert(bases(s)[i] == c.bases@[i]);
    assert(marks_django(all[k]));
    assert((|s: Statement| marks_django(s))(all[k]));
}

/// A signal receiver, plain or `async`, makes its module an entry.
pub proof fn django_receivers_are_entries(m: ParsedModule, f: FunctionDef, plain: bool, i: int)
    requires
        imports_any(import_views(m.imports@), str_views(PACKAGES@)),
        nested_in(
            m.suite@,
            Descent { classes: true, tries: true, try_tails: false, withs: true },
        ).contains(
            if plain {
                Statement::FunctionDef(f)
            } else {
                Statement::AsyncFunctionDef(f)
            },
        ),
        0 <= i < f.decorator_list@.len(),
        is_one_of(tail_name(f.decorator_list@[i]), str_views(SIGNAL_DECORATORS@)),
    ensures
        is_django_entry(m),
{
    let s = if plain {
        Statement::FunctionDef(f)
    } else {
        Statement::AsyncFunctionDef(f)
    };
    let all = nested_in(
        m.suite@,
        Descent { classes: true, tries: true, try_tails: false, withs: true },
    );
    let k = choose|k: int| 0 <= k < all.len() && all[k] == s;
    assert(decorators(s)[i] == f.decorator_list@[i]);
    assert(marks_django(all[k]));
    assert((|s: Statement| marks_django(s))(all[k]));
}

/// Migrations are entries wherever they lie below a directory of that name, whatever
/// they import; a module with routes is one if it imports django; and one that imports
/// nothing of it only with the name and the contents of settings.
pub proof fn django_finds_migrations_routes_and_settings(m: ParsedModule, i: int)
    requires
        m.path@.is_python(),
    ensures
        0 <= i < m.path@.parts.len() && m.path@.parts[i] == "migrations"@ ==> is_django_entry(m),
        imports_any(import_views(m.imports@), str_views(PACKAGES@)) && m.path@.file_name() == Some(
            "urls.py"@,
        ) ==> is_django_entry(m),
        !imports_any(import_views(m.imports@), str_views(PACKAGES@))
            && !m.path@.parts.contains("migrations"@) && is_django_entry(m)
            ==> (m.path@.file_name() matches Some(n) && (n == "settings.py"@ || n == "asgi.py"@
            || n == "wsgi.py"@ || has_prefix(n, "settings_"@))),
{
    if 0 <= i < m.path@.parts.len() && m.path@.parts[i] == "migrations"@ {
        assert(m.path@.parts.contains("migrations"@));
    }
}

} // verus!
