//! Which code smells are looked for.
use crate::config::banned::{banned_view, banned_views};
use crate::config::boundaries::DirListing;
use crate::config::table::PluginConfig;
use crate::config::{
    configured, plugins_are_on_unless_turned_off, PyllowFile, ResolvedConfig, DEFAULT_PLUGINS,
};
use crate::path::{copy_texts, PathView};
use crate::text::{str_views, views};
use crate::types::{
    active_smell_rules, all_rules, default_candidates, rules_in_force, BannedApi, RuleSet, SmellRule,
};
use vstd::prelude::*;

verus! {

/// What the search for code smells is told.
#[derive(Debug)]
pub struct SmellsOptions {
    pub enabled: RuleSet,
    pub todo_density_threshold: u32,
    pub money_extra_words: Vec<String>,
    pub banned_apis: Vec<BannedApi>,
    /// Whether the idioms that FastAPI documents are left alone.
    pub fastapi_policy: bool,
}

/// The names of those rules of a list that are in a set.
pub open spec fn keys_in(rules: Seq<SmellRule>, set: Set<SmellRule>) -> Seq<Seq<char>>
    decreases rules.len(),
{
    if rules.len() == 0 {
        Seq::empty()
    } else {
        let before = keys_in(rules.drop_last(), set);
        if set.contains(rules.last()) {
            before.push(rules.last().key())
        } else {
            before
        }
    }
}

/// The names of the rules that run, in the order in which rules are listed: a
/// rule that runs and finds nothing is among them.
pub fn executed_smell_rules(enabled: &RuleSet) -> (r: Vec<String>)
    ensures
        views(r@) == keys_in(all_rules(), enabled@),
{
    let all = SmellRule::all();
    let mut r: Vec<String> = Vec::new();
    let mut i: usize = 0;
    assert(views(r@) =~= keys_in(all@.take(0), enabled@));
    while i < all.len()
        invariant
            i <= all@.len(),
            views(r@) == keys_in(all@.take(i as int), enabled@),
        decreases all@.len() - i,
    {
        assert(all@.take(i + 1).drop_last() =~= all@.take(i as int));
        let ghost was = views(r@);
        if enabled.contains(&all[i]) {
            r.push(all[i].as_str().to_owned());
            assert(views(r@) =~= was.push(all@[i as int].key()));
        }
        i += 1;
    }
    assert(all@.take(i as int) =~= all@);
    r
}

fn copy_banned(v: &Vec<BannedApi>) -> (r: Vec<BannedApi>)
    ensures
        banned_views(r@) == banned_views(v@),
{
    let mut r: Vec<BannedApi> = Vec::new();
    let mut i: usize = 0;
    while i < v.len()
        invariant
            i <= v@.len(),
            banned_views(r@) == banned_views(v@).take(i as int),
        decreases v@.len() - i,
    {
        let ghost was = banned_views(r@);
        r.push(
            BannedApi {
                id: v[i].id.clone(),
                path: v[i].path.clone(),
                message: v[i].message.clone(),
            },
        );
        assert(banned_views(r@) =~= was.push(banned_view(v@[i as int])));
        i += 1;
        assert(banned_views(r@) =~= banned_views(v@).take(i as int));
    }
    assert(banned_views(r@) =~= banned_views(v@));
    r
}

/// Whether the idioms of FastAPI are left alone.
pub open spec fn leaves_fastapi_alone(plugins: Map<Seq<char>, PluginConfig>) -> bool {
    plugins.contains_key("fastapi"@) ==> plugins["fastapi"@].enabled
}

/// What a project's settings ask of the search for code smells. The threshold
/// is the given one unless the settings have their own, and the idioms of
/// FastAPI are left alone unless its plugin is turned off.
pub fn options_from_config(config: &ResolvedConfig, todo_threshold_default: u32) -> (r: SmellsOptions)
    requires
        config.plugins.wf(),
    ensures
        r.enabled@ == rules_in_force(
            default_candidates(),
            config.smells_enabled@,
            config.smells_disabled@,
        ),
        r.todo_density_threshold == (match config.smells_todo_density_threshold {
            Some(n) => n,
            None => todo_threshold_default,
        }),
        views(r.money_extra_words@) == views(config.smells_money_extra_patterns@),
        banned_views(r.banned_apis@) == banned_views(config.smells_banned_apis@),
        r.fastapi_policy == (config.plugins@.contains_key("fastapi"@) ==>
            config.plugins@["fastapi"@].enabled),
        r.fastapi_policy == leaves_fastapi_alone(config.plugins@),
{
    let threshold: u32 = match config.smells_todo_density_threshold {
        Some(n) => n,
        None => todo_threshold_default,
    };
    let policy = match config.plugins.get("fastapi") {
        Some(p) => p.enabled,
        None => true,
    };
    SmellsOptions {
        enabled: active_smell_rules(&config.smells_enabled, &config.smells_disabled),
        todo_density_threshold: threshold,
        money_extra_words: copy_texts(&config.smells_money_extra_patterns),
        banned_apis: copy_banned(&config.smells_banned_apis),
        fastapi_policy: policy,
    }
}

/// A rule is named among those that ran if and only if it is in the set.
pub proof fn enabled_rules_are_named(rules: Seq<SmellRule>, set: Set<SmellRule>, rule: SmellRule)
    requires
        rules.contains(rule),
    ensures
        keys_in(rules, set).contains(rule.key()) <==> set.contains(rule),
{
    if set.contains(rule) {
        lemma_key_is_named(rules, set, rule);
    } else if keys_in(rules, set).contains(rule.key()) {
        let r = named_keys_have_rules(rules, set, rule.key());
        crate::types::rule_names_are_distinct(r, rule);
    }
}

proof fn lemma_key_is_named(rules: Seq<SmellRule>, set: Set<SmellRule>, rule: SmellRule)
    requires
        rules.contains(rule),
        set.contains(rule),
    ensures
        keys_in(rules, set).contains(rule.key()),
    decreases rules.len(),
{
    let before = keys_in(rules.drop_last(), set);
    let all = keys_in(rules, set);
    if rules.last() == rule {
        assert(all[before.len() as int] == rule.key());
    } else {
        let k = choose|k: int| 0 <= k < rules.len() && rules[k] == rule;
        assert(rules.drop_last()[k] == rule);
        lemma_key_is_named(rules.drop_last(), set, rule);
        let i = choose|i: int| 0 <= i < before.len() && before[i] == rule.key();
        assert(all[i] == rule.key());
    }
}

/// Behind every name stands a rule of the set.
pub proof fn named_keys_have_rules(rules: Seq<SmellRule>, set: Set<SmellRule>, key: Seq<char>) -> (r:
    SmellRule)
    requires
        keys_in(rules, set).contains(key),
    ensures
        set.contains(r),
        r.key() == key,
    decreases rules.len(),
{
    let before = keys_in(rules.drop_last(), set);
    let all = keys_in(rules, set);
    let i = choose|i: int| 0 <= i < all.len() && all[i] == key;
    if i < before.len() {
        assert(before[i] == key);
        named_keys_have_rules(rules.drop_last(), set, key)
    } else {
        rules.last()
    }
}

/// The idioms of FastAPI are left alone unless the settings turn its plugin off.
pub proof fn fastapi_idioms_are_left_alone(
    project_root: PathView,
    file: Option<PyllowFile>,
    listings: Seq<DirListing>,
    c: ResolvedConfig,
)
    requires
        configured(project_root, file, listings, c),
    ensures
        leaves_fastapi_alone(c.plugins@) <==> !(file matches Some(f) && f.plugins matches Some(p)
            && p@.contains_key("fastapi"@) && !p@["fastapi"@].enabled),
{
    let known = str_views(DEFAULT_PLUGINS@);
    assert(known[0] == "fastapi"@);
    assert(known.contains("fastapi"@));
    plugins_are_on_unless_turned_off(project_root, file, listings, c, "fastapi"@);
}

} // verus!
