//! What a project configures: the settings as they are written down, and what
//! they come to.
pub mod banned;
pub mod boundaries;
pub mod error;
pub mod globs;
pub mod table;

use crate::collections::{text_set_contents, text_set_insert, text_set_new};
use crate::config::banned::{banned_error, banned_views, check_banned, names_a_rule};
use crate::config::boundaries::{
    all_rule_entries, all_zone_entries, boundaries_are_small, boundaries_error, boundaries_fit,
    first_of, resolve_boundaries, rules_view, zones_of, zones_view, BoundariesFile, BoundaryConfig,
    DirListing,
};
use crate::config::error::{ConfigError, ConfigErrorView};
use crate::config::globs::{compile_glob, glob_error, glob_fits, glob_is_small, glob_pattern};
use crate::config::table::{PluginConfig, PluginTable};
use crate::issue::path_views;
use crate::path::{path_of, FilePath, PathView};
use crate::text::{
    join, join_with, lines, lines_of, same, starts_with, str_views, texts_of,
    trim, trimmed, views,
};
use crate::types::{all_rules, BannedApi, SmellRule};
use globset::GlobMatcher;
use rustc_hash::FxHashSet;
use vstd::prelude::*;

verus! {

/// What is ignored unless a project says otherwise.
pub const DEFAULT_IGNORES: [&'static str; 17] = [
    "**/.venv/**",
    "**/venv/**",
    "**/.env/**",
    "**/__pycache__/**",
    "**/.tox/**",
    "**/.nox/**",
    "**/build/**",
    "**/dist/**",
    "**/.pytest_cache/**",
    "**/.mypy_cache/**",
    "**/.ruff_cache/**",
    "**/site-packages/**",
    "**/.git/**",
    "**/.github/**",
    "**/.gitlab/**",
    "**/.circleci/**",
    "**/node_modules/**",
];

/// The plugins that run unless a project says otherwise.
pub const DEFAULT_PLUGINS: [&'static str; 17] = [
    "fastapi",
    "fastmcp",
    "pytest",
    "prefect",
    "script",
    "click",
    "pydantic",
    "sqlalchemy",
    "django",
    "celery",
    "sqlmodel",
    "marshmallow",
    "starlette",
    "aiohttp",
    "flask",
    "beanie",
    "alembic",
];

/// Drops the issues in files that match `path_glob` whose rule is among
/// `rules`, or any if there are none, on the line `line`, or on any.
#[derive(Debug)]
pub struct SuppressEntry {
    pub path_glob: GlobMatcher,
    pub rules: FxHashSet<String>,
    pub line: Option<u32>,
    pub reason: Option<String>,
}

#[verifier::ext_equal]
pub struct SuppressView {
    pub pattern: Seq<char>,
    pub rules: Set<Seq<char>>,
    pub line: Option<u32>,
    pub reason: Option<Seq<char>>,
}

pub open spec fn text_view(s: Option<String>) -> Option<Seq<char>> {
    match s {
        Some(s) => Some(s@),
        None => None,
    }
}

impl View for SuppressEntry {
    type V = SuppressView;

    open spec fn view(&self) -> SuppressView {
        SuppressView {
            pattern: glob_pattern(self.path_glob),
            rules: text_set_contents(self.rules),
            line: self.line,
            reason: text_view(self.reason),
        }
    }
}

/// The settings in force.
#[derive(Debug)]
pub struct ResolvedConfig {
    pub project_root: FilePath,
    pub package_roots: Vec<FilePath>,
    pub ignore_patterns: Vec<String>,
    pub entry_points: Vec<FilePath>,
    pub python_version: String,
    pub plugins: PluginTable,
    pub smells_enabled: Vec<SmellRule>,
    pub smells_disabled: Vec<SmellRule>,
    pub smells_todo_density_threshold: Option<u32>,
    /// What else makes a name look like money, besides the built-in words.
    pub smells_money_extra_patterns: Vec<String>,
    /// APIs that the project prohibits.
    pub smells_banned_apis: Vec<BannedApi>,
    /// In how many files a clone has to occur to be reported.
    pub dupes_min_occurrences: usize,
    pub suppress: Vec<SuppressEntry>,
    pub boundaries: BoundaryConfig,
}

/// The settings as they are written down.
#[derive(Debug, Default)]
pub struct PyllowFile {
    pub package_roots: Option<Vec<FilePath>>,
    pub ignore_patterns: Option<Vec<String>>,
    pub entry_points: Option<Vec<FilePath>>,
    pub python_version: Option<String>,
    pub plugins: Option<PluginTable>,
    pub smells: Option<SmellsConfig>,
    pub dupes: Option<DupesConfig>,
    pub suppress: Vec<SuppressEntryFile>,
    pub boundaries: Option<BoundariesFile>,
}

#[derive(Debug, Default)]
pub struct SuppressEntryFile {
    pub path: String,
    pub rules: Vec<String>,
    pub line: Option<u32>,
    pub reason: Option<String>,
}

#[derive(Debug, Default)]
pub struct SmellsConfig {
    /// Rules to run that do not run by default.
    pub enabled: Vec<String>,
    pub disabled: Vec<String>,
    pub todo_density_threshold: Option<u32>,
    pub money_as_float: Option<MoneyAsFloatConfig>,
    pub banned_api: Vec<BannedApi>,
}

#[derive(Debug, Default)]
pub struct DupesConfig {
    pub min_occurrences: Option<usize>,
}

#[derive(Debug, Default)]
pub struct MoneyAsFloatConfig {
    pub extra_name_patterns: Vec<String>,
}

pub open spec fn suppress_views(v: Seq<SuppressEntry>) -> Seq<SuppressView> {
    v.map_values(|e: SuppressEntry| e@)
}

/// What an entry that is written down comes to.
pub open spec fn suppress_entry(entry: SuppressEntryFile) -> SuppressView {
    SuppressView {
        pattern: entry.path@,
        rules: views(entry.rules@).to_set(),
        line: entry.line,
        reason: text_view(entry.reason),
    }
}

pub open spec fn suppress_entries(v: Seq<SuppressEntryFile>) -> Seq<SuppressView> {
    v.map_values(|e: SuppressEntryFile| suppress_entry(e))
}

/// What is wrong with the first bad entry of a list.
pub open spec fn suppress_error(entries: Seq<SuppressEntryFile>) -> Option<ConfigErrorView>
    decreases entries.len(),
{
    if entries.len() == 0 {
        None
    } else {
        match suppress_error(entries.drop_last()) {
            Some(e) => Some(e),
            None => match glob_error(entries.last().path@) {
                Some(message) => Some(
                    ConfigErrorView::InvalidSuppressGlob {
                        pattern: entries.last().path@,
                        message,
                    },
                ),
                None => None,
            },
        }
    }
}

/// The names of all rules, as an error lists them.
pub open spec fn valid_rules() -> Seq<char> {
    join(all_rules().map_values(|r: SmellRule| r.key()), ", "@)
}

/// The first name in a list that no rule has.
pub open spec fn rule_names_error(names: Seq<Seq<char>>, field: Seq<char>) -> Option<
    ConfigErrorView,
>
    decreases names.len(),
{
    if names.len() == 0 {
        None
    } else {
        match rule_names_error(names.drop_last(), field) {
            Some(e) => Some(e),
            None => if names_a_rule(names.last()) {
                None
            } else {
                Some(
                    ConfigErrorView::UnknownSmellRule {
                        name: names.last(),
                        field,
                        valid: valid_rules(),
                    },
                )
            },
        }
    }
}

/// The names of a list of rules.
pub open spec fn rule_keys(rules: Seq<SmellRule>) -> Seq<Seq<char>> {
    rules.map_values(|r: SmellRule| r.key())
}

/// What is wrong with the settings of a project.
pub open spec fn file_error(file: PyllowFile, listings: Seq<DirListing>) -> Option<
    ConfigErrorView,
> {
    let smells = match file.smells {
        Some(s) => first_of(
            first_of(
                rule_names_error(views(s.enabled@), "enabled"@),
                rule_names_error(views(s.disabled@), "disabled"@),
            ),
            banned_error(banned_views(s.banned_api@), s.banned_api@.len() as int),
        ),
        None => None,
    };
    let boundaries = match file.boundaries {
        Some(b) => boundaries_error(b, listings),
        None => None,
    };
    first_of(smells, first_of(suppress_error(file.suppress@), boundaries))
}

/// Whether all patterns in the settings are small enough to be compiled.
pub open spec fn file_fits(file: PyllowFile, listings: Seq<DirListing>) -> bool {
    &&& forall|i: int|
        0 <= i < file.suppress@.len() ==> glob_fits((#[trigger] file.suppress@[i]).path@)
    &&& file.boundaries matches Some(b) ==> boundaries_fit(b, listings)
    &&& file.plugins matches Some(p) ==> p.wf()
}

/// What settings come to on top of others: paths, the version, thresholds and
/// boundaries replace what was set before; patterns to ignore, plugins and
/// suppressions are added to it.
pub open spec fn merged(
    before: ResolvedConfig,
    file: PyllowFile,
    listings: Seq<DirListing>,
    after: ResolvedConfig,
) -> bool {
    &&& after.project_root@ == before.project_root@
    &&& path_views(after.package_roots@) == (match file.package_roots {
        Some(v) => path_views(v@),
        None => path_views(before.package_roots@),
    })
    &&& views(after.ignore_patterns@) == (match file.ignore_patterns {
        Some(v) => views(before.ignore_patterns@) + views(v@),
        None => views(before.ignore_patterns@),
    })
    &&& path_views(after.entry_points@) == (match file.entry_points {
        Some(v) => path_views(v@),
        None => path_views(before.entry_points@),
    })
    &&& after.python_version@ == (match file.python_version {
        Some(v) => v@,
        None => before.python_version@,
    })
    &&& after.plugins.wf()
    &&& after.plugins@ == (match file.plugins {
        Some(p) => before.plugins@.union_prefer_right(p@),
        None => before.plugins@,
    })
    &&& match file.smells {
        Some(s) => {
            &&& rule_keys(after.smells_enabled@) == views(s.enabled@)
            &&& rule_keys(after.smells_disabled@) == views(s.disabled@)
            &&& after.smells_todo_density_threshold == s.todo_density_threshold
            &&& views(after.smells_money_extra_patterns@) == (match s.money_as_float {
                Some(m) => views(m.extra_name_patterns@),
                None => views(before.smells_money_extra_patterns@),
            })
            &&& banned_views(after.smells_banned_apis@) == banned_views(s.banned_api@)
        },
        None => {
            &&& after.smells_enabled@ == before.smells_enabled@
            &&& after.smells_disabled@ == before.smells_disabled@
            &&& after.smells_todo_density_threshold == before.smells_todo_density_threshold
            &&& views(after.smells_money_extra_patterns@) == views(
                before.smells_money_extra_patterns@,
            )
            &&& after.smells_banned_apis@ == before.smells_banned_apis@
        },
    }
    &&& after.dupes_min_occurrences == (match file.dupes {
        Some(d) => match d.min_occurrences {
            Some(n) => n,
            None => before.dupes_min_occurrences,
        },
        None => before.dupes_min_occurrences,
    })
    &&& suppress_views(after.suppress@) == suppress_views(before.suppress@) + suppress_entries(
        file.suppress@,
    )
    &&& match file.boundaries {
        Some(b) => {
            &&& zones_view(after.boundaries.zones@) == zones_of(all_zone_entries(b), listings)
            &&& rules_view(after.boundaries.rules@) == all_rule_entries(b)
        },
        None => after.boundaries == before.boundaries,
    }
}

/// What a project has without any settings.
pub open spec fn is_default(c: ResolvedConfig, project_root: PathView) -> bool {
    &&& c.project_root@ == project_root
    &&& c.package_roots@.len() == 0
    &&& views(c.ignore_patterns@) == str_views(DEFAULT_IGNORES@)
    &&& c.entry_points@.len() == 0
    &&& c.python_version@ == "3.11"@
    &&& c.plugins.wf()
    &&& c.plugins@ == default_plugins()
    &&& c.smells_enabled@.len() == 0
    &&& c.smells_disabled@.len() == 0
    &&& c.smells_todo_density_threshold is None
    &&& c.smells_money_extra_patterns@.len() == 0
    &&& c.smells_banned_apis@.len() == 0
    &&& c.dupes_min_occurrences == 2
    &&& c.suppress@.len() == 0
    &&& c.boundaries.zones@.len() == 0
    &&& c.boundaries.rules@.len() == 0
}

/// All known plugins, turned on.
pub open spec fn default_plugins() -> Map<Seq<char>, PluginConfig> {
    Map::new(
        |name: Seq<char>| str_views(DEFAULT_PLUGINS@).contains(name),
        |name: Seq<char>| PluginConfig { enabled: true },
    )
}

fn all_plugins_on() -> (r: PluginTable)
    ensures
        r.wf(),
        r@ == default_plugins(),
{
    let mut r = PluginTable::new();
    let names: [&'static str; 17] = DEFAULT_PLUGINS;
    let ghost all = str_views(DEFAULT_PLUGINS@);
    let mut i: usize = 0;
    while i < 17
        invariant
            i <= 17,
            names == DEFAULT_PLUGINS,
            all == str_views(DEFAULT_PLUGINS@),
            all.len() == 17,
            r.wf(),
            forall|name: Seq<char>|
                #[trigger] r@.contains_key(name) <==> all.take(i as int).contains(name),
            forall|name: Seq<char>| #[trigger]
                r@.contains_key(name) ==> r@[name] == (PluginConfig { enabled: true }),
        decreases 17 - i,
    {
        let ghost was = r@;
        r.insert(names[i].to_owned(), PluginConfig { enabled: true });
        proof {
            assert(all.take(i + 1) =~= all.take(i as int).push(all[i as int]));
            assert forall|name: Seq<char>| #[trigger]
                r@.contains_key(name) <==> all.take(i + 1).contains(name) by {
                crate::types::lemma_contains_push(all.take(i as int), all[i as int], name);
                assert(was.contains_key(name) <==> all.take(i as int).contains(name));
            }
            assert forall|name: Seq<char>| #[trigger] r@.contains_key(name) implies r@[name] == (
            PluginConfig { enabled: true }) by {
                if name != all[i as int] {
                    assert(was.contains_key(name));
                }
            }
        }
        i += 1;
    }
    assert(all.take(17) =~= all);
    assert(r@ =~= default_plugins());
    r
}

/// What a project at `project_root` has without any settings.
fn default_at(project_root: FilePath) -> (r: ResolvedConfig)
    ensures
        is_default(r, project_root@),
{
    ResolvedConfig {
        project_root,
        package_roots: Vec::new(),
        ignore_patterns: texts_of(&DEFAULT_IGNORES),
        entry_points: Vec::new(),
        python_version: "3.11".to_owned(),
        plugins: all_plugins_on(),
        smells_enabled: Vec::new(),
        smells_disabled: Vec::new(),
        smells_todo_density_threshold: None,
        smells_money_extra_patterns: Vec::new(),
        smells_banned_apis: Vec::new(),
        dupes_min_occurrences: 2,
        suppress: Vec::new(),
        boundaries: BoundaryConfig { zones: Vec::new(), rules: Vec::new() },
    }
}

impl Default for ResolvedConfig {
    fn default() -> (r: Self)
        ensures
            is_default(r, path_of("."@)),
    {
        default_at(FilePath::new("."))
    }
}

proof fn lemma_rule_names_take(names: Seq<Seq<char>>, field: Seq<char>, n: int)
    requires
        0 <= n <= names.len(),
        rule_names_error(names.take(n), field) is Some,
    ensures
        rule_names_error(names, field) == rule_names_error(names.take(n), field),
    decreases names.len(),
{
    if n < names.len() {
        assert(names.drop_last().take(n) =~= names.take(n));
        lemma_rule_names_take(names.drop_last(), field, n);
    } else {
        assert(names.take(n) =~= names);
    }
}

fn rule_list() -> (r: String)
    ensures
        r@ == valid_rules(),
{
    let all = SmellRule::all();
    let mut names: Vec<String> = Vec::new();
    let mut i: usize = 0;
    assert(views(names@) =~= rule_keys(all@).take(0));
    while i < all.len()
        invariant
            i <= all@.len(),
            views(names@) == rule_keys(all@).take(i as int),
        decreases all@.len() - i,
    {
        let ghost was = views(names@);
        names.push(all[i].as_str().to_owned());
        assert(views(names@) =~= was.push(all@[i as int].key()));
        i += 1;
        assert(views(names@) =~= rule_keys(all@).take(i as int));
    }
    assert(views(names@) =~= all_rules().map_values(|r: SmellRule| r.key()));
    join_with(&names, ", ")
}

/// The rules with the given names. A name that no rule has is an error, so that
/// a mistyped name does not silently select nothing.
fn parse_smell_rules(names: &Vec<String>, field: &str) -> (r: Result<Vec<SmellRule>, ConfigError>)
    ensures
        match r {
            Ok(v) => rule_names_error(views(names@), field@) is None && rule_keys(v@) == views(
                names@,
            ),
            Err(e) => rule_names_error(views(names@), field@) == Some(e@),
        },
{
    let ghost all = views(names@);
    let mut v: Vec<SmellRule> = Vec::new();
    let mut i: usize = 0;
    assert(rule_keys(v@) =~= all.take(0));
    while i < names.len()
        invariant
            i <= names@.len(),
            all == views(names@),
            rule_names_error(all.take(i as int), field@) is None,
            rule_keys(v@) == all.take(i as int),
        decreases names@.len() - i,
    {
        proof {
            assert(all.take(i + 1).drop_last() =~= all.take(i as int));
            assert(all.take(i + 1).last() == names@[i as int]@);
        }
        match SmellRule::parse(names[i].as_str()) {
            Ok(rule) => {
                let ghost was = rule_keys(v@);
                v.push(rule);
                assert(rule_keys(v@) =~= was.push(rule.key()));
                assert(all.take(i + 1) =~= was.push(rule.key()));
                assert(names_a_rule(rule.key()));
            },
            Err(_) => {
                proof {
                    lemma_rule_names_take(all, field@, i + 1);
                }
                return Err(
                    ConfigError::UnknownSmellRule {
                        name: names[i].clone(),
                        field: field.to_owned(),
                        valid: rule_list(),
                    },
                );
            },
        }
        i += 1;
    }
    assert(all.take(i as int) =~= all);
    Ok(v)
}

fn text_set(v: &Vec<String>) -> (r: FxHashSet<String>)
    ensures
        text_set_contents(r) == views(v@).to_set(),
{
    let mut r = text_set_new();
    let ghost all = views(v@);
    let mut i: usize = 0;
    while i < v.len()
        invariant
            i <= v@.len(),
            all == views(v@),
            forall|t: Seq<char>| #[trigger]
                text_set_contents(r).contains(t) <==> all.take(i as int).contains(t),
        decreases v@.len() - i,
    {
        let ghost was = text_set_contents(r);
        text_set_insert(&mut r, v[i].as_str());
        proof {
            assert(all.take(i + 1) =~= all.take(i as int).push(all[i as int]));
            assert forall|t: Seq<char>| #[trigger]
                text_set_contents(r).contains(t) <==> all.take(i + 1).contains(t) by {
                crate::types::lemma_contains_push(all.take(i as int), all[i as int], t);
                assert(was.contains(t) <==> all.take(i as int).contains(t));
            }
        }
        i += 1;
    }
    assert(all.take(i as int) =~= all);
    assert(text_set_contents(r) =~= all.to_set());
    r
}

proof fn lemma_suppress_take(entries: Seq<SuppressEntryFile>, n: int)
    requires
        0 <= n <= entries.len(),
        suppress_error(entries.take(n)) is Some,
    ensures
        suppress_error(entries) == suppress_error(entries.take(n)),
    decreases entries.len(),
{
    if n < entries.len() {
        assert(entries.drop_last().take(n) =~= entries.take(n));
        lemma_suppress_take(entries.drop_last(), n);
    } else {
        assert(entries.take(n) =~= entries);
    }
}

fn copy_text(s: &Option<String>) -> (r: Option<String>)
    ensures
        text_view(r) == text_view(*s),
{
    match s {
        Some(s) => Some(s.clone()),
        None => None,
    }
}

fn add_suppressions(suppress: &mut Vec<SuppressEntry>, entries: &Vec<SuppressEntryFile>) -> (r: Result<
    (),
    ConfigError,
>)
    requires
        forall|i: int| 0 <= i < entries@.len() ==> glob_fits((#[trigger] entries@[i]).path@),
    ensures
        match r {
            Ok(_) => suppress_error(entries@) is None && suppress_views(final(suppress)@)
                == suppress_views(old(suppress)@) + suppress_entries(entries@),
            Err(e) => suppress_error(entries@) == Some(e@),
        },
{
    let ghost start = suppress_views(suppress@);
    let ghost all = suppress_entries(entries@);
    let mut i: usize = 0;
    assert(start + all.take(0) =~= start);
    while i < entries.len()
        invariant
            i <= entries@.len(),
            all == suppress_entries(entries@),
            forall|i: int| 0 <= i < entries@.len() ==> glob_fits((#[trigger] entries@[i]).path@),
            suppress_error(entries@.take(i as int)) is None,
            suppress_views(suppress@) == start + all.take(i as int),
        decreases entries@.len() - i,
    {
        let entry = &entries[i];
        proof {
            assert(entries@.take(i + 1).drop_last() =~= entries@.take(i as int));
            assert(entries@.take(i + 1).last() == *entry);
        }
        match compile_glob(entry.path.as_str()) {
            Ok(path_glob) => {
                let ghost was = suppress_views(suppress@);
                let one = SuppressEntry {
                    path_glob,
                    rules: text_set(&entry.rules),
                    line: entry.line,
                    reason: copy_text(&entry.reason),
                };
                assert(one@ == suppress_entry(*entry));
                suppress.push(one);
                assert(suppress_views(suppress@) =~= was.push(all[i as int]));
                assert(start + all.take(i + 1) =~= was.push(all[i as int]));
            },
            Err(message) => {
                proof {
                    lemma_suppress_take(entries@, i + 1);
                }
                return Err(
                    ConfigError::InvalidSuppressGlob { pattern: entry.path.clone(), message },
                );
            },
        }
        i += 1;
    }
    assert(entries@.take(i as int) =~= entries@);
    assert(all.take(i as int) =~= all);
    Ok(())
}

fn add_plugins(plugins: &mut PluginTable, more: &PluginTable)
    requires
        old(plugins).wf(),
        more.wf(),
    ensures
        final(plugins).wf(),
        final(plugins)@ == old(plugins)@.union_prefer_right(more@),
{
    let ghost start = plugins@;
    let mut i: usize = 0;
    while i < more.entries.len()
        invariant
            i <= more.entries@.len(),
            more.wf(),
            plugins.wf(),
            forall|name: Seq<char>| #[trigger]
                plugins@.contains_key(name) <==> start.contains_key(name) || listed_before(
                    *more,
                    name,
                    i as int,
                ),
            forall|name: Seq<char>| #[trigger]
                plugins@.contains_key(name) ==> plugins@[name] == (if listed_before(
                    *more,
                    name,
                    i as int,
                ) {
                    more@[name]
                } else {
                    start[name]
                }),
        decreases more.entries@.len() - i,
    {
        let ghost was = plugins@;
        let ghost here = more.entries@[i as int].0@;
        plugins.insert(more.entries[i].0.clone(), more.entries[i].1);
        proof {
            crate::config::table::lemma_entry(*more, i as int);
            assert forall|name: Seq<char>| listed_before(*more, name, i + 1) <==> (listed_before(
                *more,
                name,
                i as int,
            ) || name == here) by {
                if name == here {
                    assert(crate::config::table::names_at(more.entries@, name, i as int));
                }
            }
            assert forall|name: Seq<char>| #[trigger]
                plugins@.contains_key(name) <==> start.contains_key(name) || listed_before(
                    *more,
                    name,
                    i + 1,
                ) by {
                assert(was.contains_key(name) <==> start.contains_key(name) || listed_before(
                    *more,
                    name,
                    i as int,
                ));
            }
            assert forall|name: Seq<char>| #[trigger]
                plugins@.contains_key(name) implies plugins@[name] == (if listed_before(
                *more,
                name,
                i + 1,
            ) {
                more@[name]
            } else {
                start[name]
            }) by {
                if name != here {
                    assert(was.contains_key(name));
                }
            }
        }
        i += 1;
    }
    proof {
        assert forall|name: Seq<char>| listed_before(*more, name, i as int) <==> more@.contains_key(
            name,
        ) by {}
        assert(plugins@ =~= start.union_prefer_right(more@));
    }
}

/// Whether a name stands in the table before place `n`.
spec fn listed_before(t: PluginTable, name: Seq<char>, n: int) -> bool {
    exists|i: int| i < n && #[trigger] crate::config::table::names_at(t.entries@, name, i)
}

impl ResolvedConfig {
    /// These settings with those of a file on top.
    pub fn merge(self, file: PyllowFile, listings: &Vec<DirListing>) -> (r: Result<
        ResolvedConfig,
        ConfigError,
    >)
        requires
            self.plugins.wf(),
            file_fits(file, listings@),
        ensures
            match r {
                Ok(c) => file_error(file, listings@) is None && merged(self, file, listings@, c),
                Err(e) => file_error(file, listings@) == Some(e@),
            },
    {
        let ghost before = self;
        let ghost given = file;
        let mut c = self;
        if let Some(v) = file.package_roots {
            c.package_roots = v;
        }
        if let Some(v) = file.ignore_patterns {
            let mut more = v;
            let ghost a = c.ignore_patterns@;
            let ghost b = more@;
            c.ignore_patterns.append(&mut more);
            assert(views(a + b) =~= views(a) + views(b));
        }
        if let Some(v) = file.entry_points {
            c.entry_points = v;
        }
        if let Some(v) = file.python_version {
            c.python_version = v;
        }
        if let Some(v) = file.plugins {
            add_plugins(&mut c.plugins, &v);
        }
        if let Some(s) = file.smells {
            match parse_smell_rules(&s.enabled, "enabled") {
                Ok(v) => {
                    c.smells_enabled = v;
                },
                Err(e) => {
                    return Err(e);
                },
            }
            match parse_smell_rules(&s.disabled, "disabled") {
                Ok(v) => {
                    c.smells_disabled = v;
                },
                Err(e) => {
                    return Err(e);
                },
            }
            if let Err(e) = check_banned(&s.banned_api) {
                return Err(e);
            }
            c.smells_banned_apis = s.banned_api;
            c.smells_todo_density_threshold = s.todo_density_threshold;
            if let Some(m) = s.money_as_float {
                c.smells_money_extra_patterns = m.extra_name_patterns;
            }
        }
        if let Some(d) = file.dupes {
            if let Some(n) = d.min_occurrences {
                c.dupes_min_occurrences = n;
            }
        }
        if let Err(e) = add_suppressions(&mut c.suppress, &file.suppress) {
            return Err(e);
        }
        if let Some(b) = file.boundaries {
            match resolve_boundaries(b, listings) {
                Ok(v) => {
                    c.boundaries = v;
                },
                Err(e) => {
                    return Err(e);
                },
            }
        }
        assert(merged(before, given, listings@, c));
        Ok(c)
    }
}

/// Whether a line of an ignore file is a pattern.
pub open spec fn is_pattern_line(line: Seq<char>) -> bool {
    trim(line).len() > 0 && trim(line)[0] != '#'
}

/// The patterns in the lines of an ignore file: each line that is neither blank
/// nor a comment, without the white space around it.
pub open spec fn ignore_patterns_in(lines: Seq<Seq<char>>) -> Seq<Seq<char>>
    decreases lines.len(),
{
    if lines.len() == 0 {
        Seq::empty()
    } else {
        let before = ignore_patterns_in(lines.drop_last());
        if is_pattern_line(lines.last()) {
            before.push(trim(lines.last()))
        } else {
            before
        }
    }
}

/// Adds the patterns of an ignore file.
pub fn merge_pyllowignore(patterns: &mut Vec<String>, text: &str)
    ensures
        views(final(patterns)@) == views(old(patterns)@) + ignore_patterns_in(lines(text@)),
{
    let all = lines_of(text);
    let ghost start = views(patterns@);
    let ghost found = views(all@);
    let mut i: usize = 0;
    assert(start + ignore_patterns_in(found.take(0)) =~= start);
    while i < all.len()
        invariant
            i <= all@.len(),
            found == views(all@),
            views(patterns@) == start + ignore_patterns_in(found.take(i as int)),
        decreases all@.len() - i,
    {
        let t = trimmed(all[i].as_str());
        proof {
            assert(found.take(i + 1).drop_last() =~= found.take(i as int));
            assert(found.take(i + 1).last() == all@[i as int]@);
            reveal_strlit("#");
            reveal_strlit("");
            if t@.len() > 0 {
                assert(t@.take(1) =~= seq![t@[0]]);
            }
        }
        let comment = starts_with(t.as_str(), "#");
        let blank = same(t.as_str(), "");
        proof {
            assert(blank == (t@.len() == 0)) by {
                assert(""@ =~= Seq::empty());
                if t@.len() == 0 {
                    assert(t@ =~= ""@);
                }
            }
            if t@.len() > 0 {
                assert("#"@ =~= seq!['#']);
                if t@[0] == '#' {
                    assert(t@.take(1) =~= "#"@);
                } else {
                    assert(t@.take(1)[0] != "#"@[0]);
                }
            }
        }
        if !blank && !comment {
            let ghost was = views(patterns@);
            patterns.push(t);
            assert(views(patterns@) =~= was.push(trim(found[i as int])));
            assert(start + ignore_patterns_in(found.take(i + 1)) =~= was.push(
                trim(found[i as int]),
            ));
        }
        i += 1;
    }
    assert(found.take(i as int) =~= found);
}

/// The settings that count: those of `pyllow.toml` if there is one, else the
/// section in `pyproject.toml`, if there is one.
pub open spec fn chosen_file(
    pyllow_toml: Option<PyllowFile>,
    section: Option<PyllowFile>,
) -> Option<PyllowFile> {
    if pyllow_toml is Some {
        pyllow_toml
    } else {
        section
    }
}

/// What a project comes to: the defaults, with the settings that count on top.
pub open spec fn configured(
    project_root: PathView,
    file: Option<PyllowFile>,
    listings: Seq<DirListing>,
    c: ResolvedConfig,
) -> bool {
    match file {
        Some(f) => exists|start: ResolvedConfig|
            is_default(start, project_root) && merged(start, f, listings, c),
        None => is_default(c, project_root),
    }
}

/// The same settings but for the patterns to ignore.
pub open spec fn same_but_ignores(a: ResolvedConfig, b: ResolvedConfig) -> bool {
    &&& a.project_root@ == b.project_root@
    &&& a.package_roots@ == b.package_roots@
    &&& a.entry_points@ == b.entry_points@
    &&& a.python_version@ == b.python_version@
    &&& a.plugins == b.plugins
    &&& a.smells_enabled@ == b.smells_enabled@
    &&& a.smells_disabled@ == b.smells_disabled@
    &&& a.smells_todo_density_threshold == b.smells_todo_density_threshold
    &&& a.smells_money_extra_patterns@ == b.smells_money_extra_patterns@
    &&& a.smells_banned_apis@ == b.smells_banned_apis@
    &&& a.dupes_min_occurrences == b.dupes_min_occurrences
    &&& a.suppress@ == b.suppress@
    &&& a.boundaries == b.boundaries
}

/// What a project comes to with an ignore file: its patterns are added last.
pub open spec fn loaded(
    project_root: PathView,
    file: Option<PyllowFile>,
    ignore: Option<Seq<char>>,
    listings: Seq<DirListing>,
    c: ResolvedConfig,
) -> bool {
    exists|start: ResolvedConfig|
        #![trigger configured(project_root, file, listings, start)]
        configured(project_root, file, listings, start) && same_but_ignores(start, c) && views(
            c.ignore_patterns@,
        ) == views(start.ignore_patterns@) + (match ignore {
            Some(text) => ignore_patterns_in(lines(text)),
            None => Seq::empty(),
        })
}

impl ResolvedConfig {
    /// Loads the settings of a project: from what its `pyllow.toml` and the
    /// section in its `pyproject.toml` say, as far as they exist, from the text
    /// of its `.pyllowignore`, and from what was found in the directories that
    /// its zones are discovered in.
    pub fn load(
        project_root: FilePath,
        pyllow_toml: Option<PyllowFile>,
        section: Option<PyllowFile>,
        ignore: Option<String>,
        listings: &Vec<DirListing>,
    ) -> (r: Result<ResolvedConfig, ConfigError>)
        requires
            chosen_file(pyllow_toml, section) matches Some(f) ==> file_fits(f, listings@),
        ensures
            match r {
                Ok(c) => {
                    &&& chosen_file(pyllow_toml, section) matches Some(f) ==> file_error(
                        f,
                        listings@,
                    ) is None
                    &&& loaded(
                        project_root@,
                        chosen_file(pyllow_toml, section),
                        text_view(ignore),
                        listings@,
                        c,
                    )
                },
                Err(e) => chosen_file(pyllow_toml, section) matches Some(f) && file_error(
                    f,
                    listings@,
                ) == Some(e@),
            },
    {
        let ghost root = project_root@;
        let ghost file = chosen_file(pyllow_toml, section);
        let start = default_at(project_root);
        let ghost fresh = start;
        let chosen = match pyllow_toml {
            Some(f) => Some(f),
            None => section,
        };
        let mut c = match chosen {
            Some(f) => match start.merge(f, listings) {
                Ok(c) => c,
                Err(e) => {
                    return Err(e);
                },
            },
            None => start,
        };
        assert(configured(root, file, listings@, c));
        let ghost before = c;
        match &ignore {
            Some(text) => {
                merge_pyllowignore(&mut c.ignore_patterns, text.as_str());
            },
            None => {
                assert(views(c.ignore_patterns@) =~= views(c.ignore_patterns@) + Seq::empty());
            },
        }
        proof {
            assert(same_but_ignores(before, c));
            assert(configured(root, file, listings@, before));
        }
        Ok(c)
    }
}

/// Whether all patterns in the settings are small enough to be compiled.
pub fn file_is_small(file: &PyllowFile, listings: &Vec<DirListing>) -> (r: bool)
    requires
        file.plugins matches Some(p) ==> p.wf(),
    ensures
        r == file_fits(*file, listings@),
{
    let mut i: usize = 0;
    while i < file.suppress.len()
        invariant
            i <= file.suppress@.len(),
            forall|j: int| 0 <= j < i ==> glob_fits((#[trigger] file.suppress@[j]).path@),
        decreases file.suppress@.len() - i,
    {
        if !glob_is_small(file.suppress[i].path.as_str()) {
            return false;
        }
        i += 1;
    }
    match &file.boundaries {
        Some(b) => boundaries_are_small(b, listings),
        None => true,
    }
}

/// What is ignored by default stays ignored: whatever a project configures only
/// adds to it.
pub proof fn default_ignores_stay(
    project_root: PathView,
    file: Option<PyllowFile>,
    ignore: Option<Seq<char>>,
    listings: Seq<DirListing>,
    c: ResolvedConfig,
)
    requires
        loaded(project_root, file, ignore, listings, c),
    ensures
        str_views(DEFAULT_IGNORES@).is_prefix_of(views(c.ignore_patterns@)),
{
    let start = choose|start: ResolvedConfig|
        #![trigger configured(project_root, file, listings, start)]
        configured(project_root, file, listings, start) && same_but_ignores(start, c) && views(
            c.ignore_patterns@,
        ) == views(start.ignore_patterns@) + (match ignore {
            Some(text) => ignore_patterns_in(lines(text)),
            None => Seq::empty(),
        });
    if let Some(f) = file {
        let first = choose|first: ResolvedConfig|
            is_default(first, project_root) && merged(first, f, listings, start);
        assert(str_views(DEFAULT_IGNORES@).is_prefix_of(views(start.ignore_patterns@)));
    }
}

/// Settings that name a rule that does not exist are never accepted.
pub proof fn accepted_rule_names_exist(names: Seq<Seq<char>>, field: Seq<char>, i: int)
    requires
        rule_names_error(names, field) is None,
        0 <= i < names.len(),
    ensures
        names_a_rule(names[i]),
    decreases names.len(),
{
    if i < names.len() - 1 {
        accepted_rule_names_exist(names.drop_last(), field, i);
    }
}

/// An ignore file never contributes a blank line or a comment.
pub proof fn ignore_lines_are_patterns(lines: Seq<Seq<char>>, i: int)
    requires
        0 <= i < ignore_patterns_in(lines).len(),
    ensures
        ignore_patterns_in(lines)[i].len() > 0,
        ignore_patterns_in(lines)[i][0] != '#',
    decreases lines.len(),
{
    let before = ignore_patterns_in(lines.drop_last());
    if i < before.len() {
        ignore_lines_are_patterns(lines.drop_last(), i);
    }
}

/// Every line of an ignore file that is neither blank nor a comment contributes its
/// pattern, without the white space around it.
pub proof fn pattern_lines_are_ignored(lines: Seq<Seq<char>>, i: int)
    requires
        0 <= i < lines.len(),
        trim(lines[i]).len() > 0,
        trim(lines[i])[0] != '#',
    ensures
        ignore_patterns_in(lines).contains(trim(lines[i])),
    decreases lines.len(),
{
    let before = ignore_patterns_in(lines.drop_last());
    let all = ignore_patterns_in(lines);
    if i < lines.len() - 1 {
        pattern_lines_are_ignored(lines.drop_last(), i);
        let k = choose|k: int| 0 <= k < before.len() && before[k] == trim(lines[i]);
        assert(all[k] == trim(lines[i]));
    } else {
        assert(all[before.len() as int] == trim(lines[i]));
    }
}

/// Settings are accepted as far as rules go if and only if every name in them is that
/// of a rule.
pub proof fn known_rule_names_are_accepted(names: Seq<Seq<char>>, field: Seq<char>)
    ensures
        rule_names_error(names, field) is None <==> forall|i: int|
            0 <= i < names.len() ==> names_a_rule(#[trigger] names[i]),
    decreases names.len(),
{
    if names.len() > 0 {
        let front = names.drop_last();
        known_rule_names_are_accepted(front, field);
        if forall|i: int| 0 <= i < names.len() ==> names_a_rule(#[trigger] names[i]) {
            assert forall|i: int| 0 <= i < front.len() implies names_a_rule(#[trigger] front[i]) by {
                assert(front[i] == names[i]);
            }
            assert(names_a_rule(names[names.len() - 1]));
        }
        if rule_names_error(names, field) is None {
            assert forall|i: int| 0 <= i < names.len() implies names_a_rule(#[trigger] names[i]) by {
                if i < front.len() {
                    assert(front[i] == names[i]);
                }
            }
        }
    }
}

/// Settings that say nothing change nothing.
pub proof fn empty_settings_change_nothing(
    before: ResolvedConfig,
    file: PyllowFile,
    listings: Seq<DirListing>,
    after: ResolvedConfig,
)
    requires
        merged(before, file, listings, after),
        file.package_roots is None,
        file.ignore_patterns is None,
        file.entry_points is None,
        file.python_version is None,
        file.plugins is None,
        file.smells is None,
        file.dupes is None,
        file.suppress@.len() == 0,
        file.boundaries is None,
    ensures
        after.project_root@ == before.project_root@,
        path_views(after.package_roots@) == path_views(before.package_roots@),
        views(after.ignore_patterns@) == views(before.ignore_patterns@),
        path_views(after.entry_points@) == path_views(before.entry_points@),
        after.python_version@ == before.python_version@,
        after.plugins@ == before.plugins@,
        after.smells_enabled@ == before.smells_enabled@,
        after.smells_disabled@ == before.smells_disabled@,
        after.smells_todo_density_threshold == before.smells_todo_density_threshold,
        after.smells_banned_apis@ == before.smells_banned_apis@,
        after.dupes_min_occurrences == before.dupes_min_occurrences,
        suppress_views(after.suppress@) == suppress_views(before.suppress@),
        after.boundaries == before.boundaries,
{
    assert(suppress_entries(file.suppress@) =~= Seq::empty());
    assert(suppress_views(before.suppress@) + suppress_entries(file.suppress@) =~= suppress_views(
        before.suppress@,
    ));
}

/// A plugin runs as the settings say if they name it, and else as before.
pub proof fn settings_decide_on_plugins(
    before: ResolvedConfig,
    file: PyllowFile,
    listings: Seq<DirListing>,
    after: ResolvedConfig,
    name: Seq<char>,
)
    requires
        merged(before, file, listings, after),
    ensures
        file.plugins matches Some(p) && p@.contains_key(name) ==> after.plugins@.contains_key(name)
            && after.plugins@[name] == (file.plugins->0)@[name],
        !(file.plugins matches Some(p) && p@.contains_key(name)) ==> (after.plugins@.contains_key(
            name,
        ) <==> before.plugins@.contains_key(name)) && (before.plugins@.contains_key(name)
            ==> after.plugins@[name] == before.plugins@[name]),
{
}

/// A plugin that is known is on unless the settings turn it off.
pub proof fn plugins_are_on_unless_turned_off(
    project_root: PathView,
    file: Option<PyllowFile>,
    listings: Seq<DirListing>,
    c: ResolvedConfig,
    name: Seq<char>,
)
    requires
        configured(project_root, file, listings, c),
        str_views(DEFAULT_PLUGINS@).contains(name),
    ensures
        c.plugins@.contains_key(name),
        c.plugins@[name].enabled <==> !(file matches Some(f) && f.plugins matches Some(p)
            && p@.contains_key(name) && !p@[name].enabled),
{
    match file {
        Some(f) => {
            let start = choose|start: ResolvedConfig|
                is_default(start, project_root) && merged(start, f, listings, c);
            assert(start.plugins@.contains_key(name));
            settings_decide_on_plugins(start, f, listings, c, name);
        },
        None => {},
    }
}

/// Lists of settings only grow: what is to be ignored and what is to be left out is
/// added behind what was there, in its order.
pub proof fn settings_add_to_lists(
    before: ResolvedConfig,
    file: PyllowFile,
    listings: Seq<DirListing>,
    after: ResolvedConfig,
    i: int,
)
    requires
        merged(before, file, listings, after),
    ensures
        0 <= i < before.ignore_patterns@.len() ==> views(after.ignore_patterns@)[i] == views(
            before.ignore_patterns@,
        )[i],
        file.ignore_patterns matches Some(v) && 0 <= i < v@.len() ==> views(
            after.ignore_patterns@,
        )[before.ignore_patterns@.len() + i] == views((file.ignore_patterns->0)@)[i],
        0 <= i < before.suppress@.len() ==> suppress_views(after.suppress@)[i] == suppress_views(
            before.suppress@,
        )[i],
        0 <= i < file.suppress@.len() ==> suppress_views(after.suppress@)[before.suppress@.len()
            + i].pattern == file.suppress@[i].path@ && suppress_views(
            after.suppress@,
        )[before.suppress@.len() + i].line == file.suppress@[i].line && forall|r: Seq<char>|
            #[trigger] suppress_views(after.suppress@)[before.suppress@.len() + i].rules.contains(r)
                <==> views(file.suppress@[i].rules@).contains(r),
{
    if 0 <= i < file.suppress@.len() {
        let entry = suppress_views(after.suppress@)[before.suppress@.len() + i];
        assert(entry == suppress_entries(file.suppress@)[i]);
    }
}

/// With a `pyllow.toml` the section in `pyproject.toml` does not count, and without
/// one it does.
pub proof fn the_own_file_wins(own: PyllowFile, section: Option<PyllowFile>)
    ensures
        chosen_file(Some(own), section) == Some(own),
        chosen_file(None, section) == section,
{
}

} // verus!
