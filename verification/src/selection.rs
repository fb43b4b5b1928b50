//! Which analyses an audit runs, and which of their rules count.
use crate::collections::{text_set_contains, text_set_contents, text_set_insert, text_set_new};
use crate::issue::{Issue, IssueView};
use crate::path::copy_texts;
use crate::smells::{
    enabled_rules_are_named, executed_smell_rules, keys_in, named_keys_have_rules,
};
use crate::text::{join, join_with, same, views};
use crate::types::{all_rules, lemma_contains_push, RuleSet, SmellRule};
use rustc_hash::FxHashSet;
use vstd::prelude::*;

verus! {

/// A family of analyses.
#[derive(Debug, Clone, Copy, PartialEq, Eq, Structural, Hash)]
pub enum Family {
    /// What is reachable: unused files, imports and dependencies, cycles and
    /// boundaries.
    Check,
    Dupes,
    Health,
    Smells,
}

/// All families, in order.
pub open spec fn all_families() -> Seq<Family> {
    seq![Family::Check, Family::Dupes, Family::Health, Family::Smells]
}

impl Family {
    pub open spec fn key(self) -> Seq<char> {
        match self {
            Family::Check => "check"@,
            Family::Dupes => "dupes"@,
            Family::Health => "health"@,
            Family::Smells => "smells"@,
        }
    }

    pub fn all() -> (r: Vec<Family>)
        ensures
            r@ == all_families(),
    {
        let r: Vec<Family> = vec![Family::Check, Family::Dupes, Family::Health, Family::Smells];
        assert(r@ =~= all_families());
        r
    }

    pub fn as_str(self) -> (r: &'static str)
        ensures
            r@ == self.key(),
    {
        match self {
            Family::Check => "check",
            Family::Dupes => "dupes",
            Family::Health => "health",
            Family::Smells => "smells",
        }
    }
}

/// What is asked for.
#[derive(Debug, Default)]
pub struct SelectionArgs {
    pub families: Vec<Family>,
    pub rules: Vec<String>,
}

/// The rules of the families, as far as they depend on more than this crate:
/// those of reachability, those of the health metrics, the smells that run, and
/// the prohibited APIs.
#[derive(Debug)]
pub struct RuleCatalog {
    pub check: Vec<String>,
    pub health: Vec<String>,
    pub smells: RuleSet,
    pub banned: Vec<String>,
}

/// What a selection comes to: the families that run, and the rules that count,
/// or all of them.
#[derive(Debug)]
pub struct ResolvedSelection {
    pub families: Vec<Family>,
    pub rules: Option<FxHashSet<String>>,
    pub executed_rules: Vec<String>,
    pub requested_families: Vec<String>,
    pub requested_rules: Vec<String>,
}

/// A selection that would find nothing and pass.
#[derive(Debug)]
pub enum SelectionError {
    /// The rule is turned off by the project's settings.
    Disabled { rule: String },
    /// The rule belongs to a family that is not selected.
    OtherFamily { rule: String, family: Family, selected: Vec<Family> },
    Unknown { rule: String, selected: Vec<Family>, available: Vec<String> },
}

#[allow(inconsistent_fields)]
pub enum SelectionErrorView {
    Disabled { rule: Seq<char> },
    OtherFamily { rule: Seq<char>, family: Family, selected: Seq<Family> },
    Unknown { rule: Seq<char>, selected: Seq<Family>, available: Seq<Seq<char>> },
}

impl View for SelectionError {
    type V = SelectionErrorView;

    open spec fn view(&self) -> SelectionErrorView {
        match self {
            SelectionError::Disabled { rule } => SelectionErrorView::Disabled { rule: rule@ },
            SelectionError::OtherFamily { rule, family, selected } => SelectionErrorView::OtherFamily {
                rule: rule@,
                family: *family,
                selected: selected@,
            },
            SelectionError::Unknown { rule, selected, available } => SelectionErrorView::Unknown {
                rule: rule@,
                selected: selected@,
                available: views(available@),
            },
        }
    }
}

pub open spec fn family_keys(v: Seq<Family>) -> Seq<Seq<char>> {
    v.map_values(|f: Family| f.key())
}

impl SelectionErrorView {
    /// The error in words.
    pub open spec fn words(self) -> Seq<char> {
        match self {
            SelectionErrorView::Disabled { rule } => "rule `"@ + rule
                + "` is disabled by config; add it to [smells].enabled to select it"@,
            SelectionErrorView::OtherFamily { rule, family, selected } => "rule `"@ + rule
                + "` belongs to family `"@ + family.key() + "`, which is not selected (selected: "@
                + join(family_keys(selected), ", "@) + ")"@,
            SelectionErrorView::Unknown { rule, selected, available } => "unknown rule `"@ + rule
                + "` (available in "@ + join(family_keys(selected), ", "@) + ": "@ + join(
                available,
                ", "@,
            ) + ")"@,
        }
    }
}

pub fn keys_of(v: &Vec<Family>) -> (r: Vec<String>)
    ensures
        views(r@) == family_keys(v@),
{
    let mut r: Vec<String> = Vec::new();
    let mut i: usize = 0;
    while i < v.len()
        invariant
            i <= v@.len(),
            views(r@) == family_keys(v@).take(i as int),
        decreases v@.len() - i,
    {
        let ghost was = views(r@);
        r.push(v[i].as_str().to_owned());
        assert(views(r@) =~= was.push(v@[i as int].key()));
        i += 1;
        assert(views(r@) =~= family_keys(v@).take(i as int));
    }
    assert(views(r@) =~= family_keys(v@));
    r
}

impl SelectionError {
    /// The error in words.
    pub fn describe(&self) -> (r: String)
        ensures
            r@ == self@.words(),
    {
        match self {
            SelectionError::Disabled { rule } => {
                let mut r = "rule `".to_owned();
                r.append(rule.as_str());
                r.append("` is disabled by config; add it to [smells].enabled to select it");
                r
            },
            SelectionError::OtherFamily { rule, family, selected } => {
                let mut r = "rule `".to_owned();
                r.append(rule.as_str());
                r.append("` belongs to family `");
                r.append(family.as_str());
                r.append("`, which is not selected (selected: ");
                r.append(join_with(&keys_of(selected), ", ").as_str());
                r.append(")");
                r
            },
            SelectionError::Unknown { rule, selected, available } => {
                let mut r = "unknown rule `".to_owned();
                r.append(rule.as_str());
                r.append("` (available in ");
                r.append(join_with(&keys_of(selected), ", ").as_str());
                r.append(": ");
                r.append(join_with(available, ", ").as_str());
                r.append(")");
                r
            },
        }
    }
}

/// The rules of a family.
pub open spec fn catalog(c: RuleCatalog, family: Family) -> Seq<Seq<char>> {
    match family {
        Family::Check => views(c.check@),
        Family::Dupes => seq!["duplicate"@],
        Family::Health => views(c.health@),
        Family::Smells => keys_in(all_rules(), c.smells@) + (if c.smells@.contains(
            SmellRule::BannedApi,
        ) {
            views(c.banned@)
        } else {
            Seq::empty()
        }),
    }
}

/// The rules of a list of families.
pub open spec fn available(c: RuleCatalog, families: Seq<Family>) -> Seq<Seq<char>>
    decreases families.len(),
{
    if families.len() == 0 {
        Seq::empty()
    } else {
        available(c, families.drop_last()) + catalog(c, families.last())
    }
}

/// Those of `order` that are asked for, in that order.
pub open spec fn asked_for(order: Seq<Family>, asked: Seq<Family>) -> Seq<Family>
    decreases order.len(),
{
    if order.len() == 0 {
        Seq::empty()
    } else {
        let before = asked_for(order.drop_last(), asked);
        if asked.contains(order.last()) {
            before.push(order.last())
        } else {
            before
        }
    }
}

/// The families that run: all if none is asked for, else each of those that
/// are, once, and in order.
pub open spec fn selected(asked: Seq<Family>) -> Seq<Family> {
    if asked.len() == 0 {
        all_families()
    } else {
        asked_for(all_families(), asked)
    }
}

/// The first family of a list that is not selected and has the rule.
pub open spec fn family_with(
    c: RuleCatalog,
    order: Seq<Family>,
    families: Seq<Family>,
    rule: Seq<char>,
) -> Option<Family>
    decreases order.len(),
{
    if order.len() == 0 {
        None
    } else {
        match family_with(c, order.drop_last(), families, rule) {
            Some(f) => Some(f),
            None => if !families.contains(order.last()) && catalog(c, order.last()).contains(rule) {
                Some(order.last())
            } else {
                None
            },
        }
    }
}

/// Whether the rule is a smell of the selected families that does not run.
pub open spec fn is_turned_off(c: RuleCatalog, families: Seq<Family>, rule: Seq<char>) -> bool {
    families.contains(Family::Smells) && exists|r: SmellRule| #[trigger]
        r.key() == rule && !c.smells@.contains(r)
}

/// What is wrong with selecting a rule.
pub open spec fn rule_problem(c: RuleCatalog, families: Seq<Family>, rule: Seq<char>) -> Option<
    SelectionErrorView,
> {
    if available(c, families).contains(rule) {
        None
    } else if is_turned_off(c, families, rule) {
        Some(SelectionErrorView::Disabled { rule })
    } else {
        match family_with(c, all_families(), families, rule) {
            Some(family) => Some(
                SelectionErrorView::OtherFamily { rule, family, selected: families },
            ),
            None => Some(
                SelectionErrorView::Unknown {
                    rule,
                    selected: families,
                    available: available(c, families),
                },
            ),
        }
    }
}

/// What is wrong with the first bad rule of a list.
pub open spec fn rules_problem(
    c: RuleCatalog,
    families: Seq<Family>,
    rules: Seq<Seq<char>>,
) -> Option<SelectionErrorView>
    decreases rules.len(),
{
    if rules.len() == 0 {
        None
    } else {
        match rules_problem(c, families, rules.drop_last()) {
            Some(e) => Some(e),
            None => rule_problem(c, families, rules.last()),
        }
    }
}

/// Those texts of a list that are in a set.
pub open spec fn kept_of(v: Seq<Seq<char>>, set: Set<Seq<char>>) -> Seq<Seq<char>>
    decreases v.len(),
{
    if v.len() == 0 {
        Seq::empty()
    } else {
        let before = kept_of(v.drop_last(), set);
        if set.contains(v.last()) {
            before.push(v.last())
        } else {
            before
        }
    }
}

/// The rules that run: all that are available, or those of them that are asked
/// for.
pub open spec fn executed(c: RuleCatalog, families: Seq<Family>, rules: Seq<Seq<char>>) -> Seq<
    Seq<char>,
> {
    if rules.len() == 0 {
        available(c, families)
    } else {
        kept_of(available(c, families), rules.to_set())
    }
}

/// What a selection comes to.
pub open spec fn resolves_to(
    c: RuleCatalog,
    families: Seq<Family>,
    rules: Seq<Seq<char>>,
    r: ResolvedSelection,
) -> bool {
    &&& r.families@ == selected(families)
    &&& match r.rules {
        Some(set) => rules.len() > 0 && text_set_contents(set) == rules.to_set(),
        None => rules.len() == 0,
    }
    &&& views(r.executed_rules@) == executed(c, selected(families), rules)
    &&& views(r.requested_families@) == family_keys(families)
    &&& views(r.requested_rules@) == rules
}

fn has_family(v: &Vec<Family>, family: Family) -> (r: bool)
    ensures
        r == v@.contains(family),
{
    let mut i: usize = 0;
    while i < v.len()
        invariant
            i <= v@.len(),
            forall|j: int| 0 <= j < i ==> v@[j] != family,
        decreases v@.len() - i,
    {
        if v[i] == family {
            return true;
        }
        i += 1;
    }
    false
}

fn has_text(v: &Vec<String>, text: &str) -> (r: bool)
    ensures
        r == views(v@).contains(text@),
{
    let mut i: usize = 0;
    while i < v.len()
        invariant
            i <= v@.len(),
            forall|j: int| 0 <= j < i ==> views(v@)[j] != text@,
        decreases v@.len() - i,
    {
        if same(v[i].as_str(), text) {
            assert(views(v@)[i as int] == text@);
            return true;
        }
        i += 1;
    }
    false
}

fn select(asked: &Vec<Family>) -> (r: Vec<Family>)
    ensures
        r@ == selected(asked@),
{
    let all = Family::all();
    if asked.len() == 0 {
        return all;
    }
    let mut r: Vec<Family> = Vec::new();
    let mut i: usize = 0;
    while i < all.len()
        invariant
            i <= all@.len(),
            r@ == asked_for(all@.take(i as int), asked@),
        decreases all@.len() - i,
    {
        assert(all@.take(i + 1).drop_last() =~= all@.take(i as int));
        if has_family(asked, all[i]) {
            r.push(all[i]);
        }
        i += 1;
    }
    assert(all@.take(i as int) =~= all@);
    r
}

fn catalog_of(c: &RuleCatalog, family: Family) -> (r: Vec<String>)
    ensures
        views(r@) == catalog(*c, family),
{
    match family {
        Family::Check => copy_texts(&c.check),
        Family::Dupes => {
            let r = vec!["duplicate".to_owned()];
            assert(views(r@) =~= seq!["duplicate"@]);
            r
        },
        Family::Health => copy_texts(&c.health),
        Family::Smells => {
            let mut r = executed_smell_rules(&c.smells);
            if c.smells.contains(&SmellRule::BannedApi) {
                let mut more = copy_texts(&c.banned);
                let ghost a = r@;
                let ghost b = more@;
                r.append(&mut more);
                assert(views(a + b) =~= views(a) + views(b));
            } else {
                assert(views(r@) =~= views(r@) + Seq::empty());
            }
            r
        },
    }
}

fn available_in(c: &RuleCatalog, families: &Vec<Family>) -> (r: Vec<String>)
    ensures
        views(r@) == available(*c, families@),
{
    let mut r: Vec<String> = Vec::new();
    let mut i: usize = 0;
    assert(views(r@) =~= available(*c, families@.take(0)));
    while i < families.len()
        invariant
            i <= families@.len(),
            views(r@) == available(*c, families@.take(i as int)),
        decreases families@.len() - i,
    {
        assert(families@.take(i + 1).drop_last() =~= families@.take(i as int));
        let mut more = catalog_of(c, families[i]);
        let ghost a = r@;
        let ghost b = more@;
        r.append(&mut more);
        assert(views(a + b) =~= views(a) + views(b));
        i += 1;
    }
    assert(families@.take(i as int) =~= families@);
    r
}

fn other_family(c: &RuleCatalog, families: &Vec<Family>, rule: &str) -> (r: Option<Family>)
    ensures
        r == family_with(*c, all_families(), families@, rule@),
{
    let all = Family::all();
    let mut i: usize = 0;
    while i < all.len()
        invariant
            i <= all@.len(),
            all@ == all_families(),
            family_with(*c, all@.take(i as int), families@, rule@) is None,
        decreases all@.len() - i,
    {
        assert(all@.take(i + 1).drop_last() =~= all@.take(i as int));
        if !has_family(families, all[i]) && has_text(&catalog_of(c, all[i]), rule) {
            proof {
                lemma_family_take(*c, all@, families@, rule@, i + 1);
            }
            return Some(all[i]);
        }
        i += 1;
    }
    assert(all@.take(i as int) =~= all@);
    None
}

proof fn lemma_family_take(
    c: RuleCatalog,
    order: Seq<Family>,
    families: Seq<Family>,
    rule: Seq<char>,
    n: int,
)
    requires
        0 <= n <= order.len(),
        family_with(c, order.take(n), families, rule) is Some,
    ensures
        family_with(c, order, families, rule) == family_with(c, order.take(n), families, rule),
    decreases order.len(),
{
    if n < order.len() {
        assert(order.drop_last().take(n) =~= order.take(n));
        lemma_family_take(c, order.drop_last(), families, rule, n);
    } else {
        assert(order.take(n) =~= order);
    }
}

fn turned_off(c: &RuleCatalog, families: &Vec<Family>, rule: &str) -> (r: bool)
    ensures
        r == is_turned_off(*c, families@, rule@),
{
    match SmellRule::parse(rule) {
        Ok(smell) => {
            let r = has_family(families, Family::Smells) && !c.smells.contains(&smell);
            proof {
                assert forall|other: SmellRule| #[trigger] other.key() == rule@ implies other
                    == smell by {
                    crate::types::rule_names_are_distinct(other, smell);
                }
            }
            r
        },
        Err(_) => false,
    }
}

fn problem_of(
    c: &RuleCatalog,
    families: &Vec<Family>,
    found: &Vec<String>,
    rule: &str,
) -> (r: Option<SelectionError>)
    requires
        views(found@) == available(*c, families@),
    ensures
        match r {
            Some(e) => rule_problem(*c, families@, rule@) == Some(e@),
            None => rule_problem(*c, families@, rule@) is None,
        },
{
    if has_text(found, rule) {
        return None;
    }
    if turned_off(c, families, rule) {
        return Some(SelectionError::Disabled { rule: rule.to_owned() });
    }
    match other_family(c, families, rule) {
        Some(family) => Some(
            SelectionError::OtherFamily {
                rule: rule.to_owned(),
                family,
                selected: copy_families(families),
            },
        ),
        None => Some(
            SelectionError::Unknown {
                rule: rule.to_owned(),
                selected: copy_families(families),
                available: copy_texts(found),
            },
        ),
    }
}

fn copy_families(v: &Vec<Family>) -> (r: Vec<Family>)
    ensures
        r@ == v@,
{
    let mut r: Vec<Family> = Vec::new();
    let mut i: usize = 0;
    while i < v.len()
        invariant
            i <= v@.len(),
            r@ == v@.take(i as int),
        decreases v@.len() - i,
    {
        r.push(v[i]);
        i += 1;
        assert(r@ =~= v@.take(i as int));
    }
    assert(r@ =~= v@);
    r
}

proof fn lemma_rules_problem_take(
    c: RuleCatalog,
    families: Seq<Family>,
    rules: Seq<Seq<char>>,
    n: int,
)
    requires
        0 <= n <= rules.len(),
        rules_problem(c, families, rules.take(n)) is Some,
    ensures
        rules_problem(c, families, rules) == rules_problem(c, families, rules.take(n)),
    decreases rules.len(),
{
    if n < rules.len() {
        assert(rules.drop_last().take(n) =~= rules.take(n));
        lemma_rules_problem_take(c, families, rules.drop_last(), n);
    } else {
        assert(rules.take(n) =~= rules);
    }
}

fn kept_texts(v: &Vec<String>, set: &FxHashSet<String>) -> (r: Vec<String>)
    ensures
        views(r@) == kept_of(views(v@), text_set_contents(*set)),
{
    let ghost all = views(v@);
    let mut r: Vec<String> = Vec::new();
    let mut i: usize = 0;
    assert(views(r@) =~= kept_of(all.take(0), text_set_contents(*set)));
    while i < v.len()
        invariant
            i <= v@.len(),
            all == views(v@),
            views(r@) == kept_of(all.take(i as int), text_set_contents(*set)),
        decreases v@.len() - i,
    {
        assert(all.take(i + 1).drop_last() =~= all.take(i as int));
        assert(all.take(i + 1).last() == v@[i as int]@);
        let ghost was = views(r@);
        if text_set_contains(set, v[i].as_str()) {
            r.push(v[i].clone());
            assert(views(r@) =~= was.push(v@[i as int]@));
        }
        i += 1;
    }
    assert(all.take(i as int) =~= all);
    r
}

/// Checks what is asked for against the rules that there are, before anything is
/// analysed. A rule that does not exist, that belongs to a family that is not
/// selected, or that is turned off would find nothing and pass, so each of them
/// is refused.
pub fn resolve_selection(args: SelectionArgs, c: &RuleCatalog) -> (r: Result<
    ResolvedSelection,
    SelectionError,
>)
    ensures
        match r {
            Ok(s) => rules_problem(*c, selected(args.families@), views(args.rules@)) is None
                && resolves_to(*c, args.families@, views(args.rules@), s),
            Err(e) => rules_problem(*c, selected(args.families@), views(args.rules@)) == Some(e@),
        },
{
    let families = select(&args.families);
    let found = available_in(c, &families);
    let requested_families = keys_of(&args.families);
    let requested_rules = copy_texts(&args.rules);
    let ghost asked = views(args.rules@);
    if args.rules.len() == 0 {
        assert(asked =~= Seq::empty());
        return Ok(
            ResolvedSelection {
                families,
                rules: None,
                executed_rules: found,
                requested_families,
                requested_rules,
            },
        );
    }
    let mut set = text_set_new();
    let mut i: usize = 0;
    while i < args.rules.len()
        invariant
            i <= args.rules@.len(),
            asked == views(args.rules@),
            families@ == selected(args.families@),
            views(found@) == available(*c, families@),
            rules_problem(*c, families@, asked.take(i as int)) is None,
            forall|t: Seq<char>| #[trigger]
                text_set_contents(set).contains(t) <==> asked.take(i as int).contains(t),
        decreases args.rules@.len() - i,
    {
        let rule = args.rules[i].as_str();
        proof {
            assert(asked.take(i + 1).drop_last() =~= asked.take(i as int));
            assert(asked.take(i + 1).last() == rule@);
        }
        if let Some(e) = problem_of(c, &families, &found, rule) {
            proof {
                lemma_rules_problem_take(*c, families@, asked, i + 1);
            }
            return Err(e);
        }
        let ghost was = text_set_contents(set);
        text_set_insert(&mut set, rule);
        proof {
            assert(asked.take(i + 1) =~= asked.take(i as int).push(rule@));
            assert forall|t: Seq<char>| #[trigger]
                text_set_contents(set).contains(t) <==> asked.take(i + 1).contains(t) by {
                lemma_contains_push(asked.take(i as int), rule@, t);
                assert(was.contains(t) <==> asked.take(i as int).contains(t));
            }
        }
        i += 1;
    }
    assert(asked.take(i as int) =~= asked);
    assert(text_set_contents(set) =~= asked.to_set());
    let executed_rules = kept_texts(&found, &set);
    Ok(
        ResolvedSelection {
            families,
            rules: Some(set),
            executed_rules,
            requested_families,
            requested_rules,
        },
    )
}

/// Whether a finding counts. A file that could not be parsed was left out of
/// every other analysis, so hiding it would let an incomplete one pass.
pub open spec fn keeps(rules: Option<FxHashSet<String>>, issue: IssueView) -> bool {
    issue is ParseError || match rules {
        None => true,
        Some(set) => text_set_contents(set).contains(issue.rule_key()),
    }
}

impl ResolvedSelection {
    /// Whether a family runs.
    pub fn runs(&self, family: Family) -> (r: bool)
        ensures
            r == self.families@.contains(family),
    {
        has_family(&self.families, family)
    }

    /// Whether a finding counts.
    pub fn keeps(&self, issue: &Issue) -> (r: bool)
        ensures
            r == keeps(self.rules, issue@),
    {
        if matches!(issue, Issue::ParseError { .. }) {
            return true;
        }
        match &self.rules {
            None => true,
            Some(set) => text_set_contains(set, issue.rule_key().as_str()),
        }
    }
}

/// Exactly the families that are asked for run; all of them if none is.
pub proof fn asked_families_run(asked: Seq<Family>, family: Family)
    ensures
        selected(asked).contains(family) <==> asked.len() == 0 || asked.contains(family),
        selected(asked).no_duplicates(),
{
    let all = all_families();
    assert(all[0] == Family::Check && all[1] == Family::Dupes && all[2] == Family::Health && all[3]
        == Family::Smells);
    assert(all.contains(family));
    if asked.len() > 0 {
        lemma_asked_for(all, asked);
    }
}

proof fn lemma_asked_for(order: Seq<Family>, asked: Seq<Family>)
    requires
        order.no_duplicates(),
    ensures
        asked_for(order, asked).no_duplicates(),
        forall|f: Family| #[trigger]
            asked_for(order, asked).contains(f) <==> order.contains(f) && asked.contains(f),
    decreases order.len(),
{
    if order.len() > 0 {
        let front = order.drop_last();
        let last = order.last();
        lemma_asked_for(front, asked);
        let before = asked_for(front, asked);
        assert(order =~= front.push(last));
        assert forall|f: Family| #[trigger]
            asked_for(order, asked).contains(f) <==> order.contains(f) && asked.contains(f) by {
            lemma_contains_push(front, last, f);
            lemma_contains_push(before, last, f);
        }
        if front.contains(last) {
            let i = choose|i: int| 0 <= i < front.len() && front[i] == last;
            assert(order[i] == order[order.len() - 1]);
        }
        assert(!before.contains(last));
    }
}

/// Every rule of an accepted selection runs: a selection never finds nothing
/// because its rules were left out.
pub proof fn requested_rules_run(
    c: RuleCatalog,
    families: Seq<Family>,
    rules: Seq<Seq<char>>,
    i: int,
)
    requires
        rules_problem(c, families, rules) is None,
        0 <= i < rules.len(),
    ensures
        executed(c, families, rules).contains(rules[i]),
{
    lemma_accepted_rule(c, families, rules, i);
    lemma_kept_of(available(c, families), rules.to_set(), rules[i]);
    assert(rules.contains(rules[i]));
}

proof fn lemma_accepted_rule(
    c: RuleCatalog,
    families: Seq<Family>,
    rules: Seq<Seq<char>>,
    i: int,
)
    requires
        rules_problem(c, families, rules) is None,
        0 <= i < rules.len(),
    ensures
        available(c, families).contains(rules[i]),
    decreases rules.len(),
{
    if i < rules.len() - 1 {
        lemma_accepted_rule(c, families, rules.drop_last(), i);
    } else {
        assert(rule_problem(c, families, rules.last()) is None);
    }
}

proof fn lemma_kept_of(v: Seq<Seq<char>>, set: Set<Seq<char>>, t: Seq<char>)
    ensures
        kept_of(v, set).contains(t) <==> v.contains(t) && set.contains(t),
    decreases v.len(),
{
    if v.len() > 0 {
        lemma_kept_of(v.drop_last(), set, t);
        assert(v =~= v.drop_last().push(v.last()));
        lemma_contains_push(v.drop_last(), v.last(), t);
        lemma_contains_push(kept_of(v.drop_last(), set), v.last(), t);
    }
}

/// A file that could not be parsed is reported whatever is selected.
pub proof fn parse_errors_always_count(rules: Option<FxHashSet<String>>, issue: IssueView)
    requires
        issue is ParseError,
    ensures
        keeps(rules, issue),
{
}

/// With rules selected, a finding that counts has one of their keys, or is a
/// file that could not be parsed.
pub proof fn only_requested_rules_count(set: FxHashSet<String>, rules: Seq<Seq<char>>, issue: IssueView)
    requires
        text_set_contents(set) == rules.to_set(),
        keeps(Some(set), issue),
    ensures
        issue is ParseError || rules.contains(issue.rule_key()),
{
}

/// Without rules selected everything counts; with rules, a finding of one of them
/// does.
pub proof fn requested_findings_count(set: FxHashSet<String>, rules: Seq<Seq<char>>, issue: IssueView)
    requires
        text_set_contents(set) == rules.to_set(),
        rules.contains(issue.rule_key()),
    ensures
        keeps(Some(set), issue),
        keeps(None, issue),
{
}

/// The rules of some families are the rules of each of them.
pub proof fn available_rules_are_those_of_the_families(
    c: RuleCatalog,
    families: Seq<Family>,
    rule: Seq<char>,
)
    ensures
        available(c, families).contains(rule) <==> exists|i: int|
            0 <= i < families.len() && catalog(c, #[trigger] families[i]).contains(rule),
    decreases families.len(),
{
    if families.len() > 0 {
        let front = families.drop_last();
        let before = available(c, front);
        let own = catalog(c, families.last());
        let all = available(c, families);
        available_rules_are_those_of_the_families(c, front, rule);
        if all.contains(rule) {
            let k = choose|k: int| 0 <= k < all.len() && all[k] == rule;
            if k < before.len() {
                assert(before[k] == rule);
                let i = choose|i: int|
                    0 <= i < front.len() && catalog(c, #[trigger] front[i]).contains(rule);
                assert(families[i] == front[i]);
            } else {
                assert(own[k - before.len()] == rule);
                assert(catalog(c, families[families.len() - 1]).contains(rule));
            }
        }
        if exists|i: int|
            0 <= i < families.len() && catalog(c, #[trigger] families[i]).contains(rule) {
            let i = choose|i: int|
                0 <= i < families.len() && catalog(c, #[trigger] families[i]).contains(rule);
            if i < front.len() {
                assert(front[i] == families[i]);
                assert(before.contains(rule));
                let k = choose|k: int| 0 <= k < before.len() && before[k] == rule;
                assert(all[k] == rule);
            } else {
                let k = choose|k: int| 0 <= k < own.len() && own[k] == rule;
                assert(all[before.len() + k] == rule);
            }
        }
    }
}

/// Selecting a rule is accepted if and only if a selected family has it, and where
/// it is not, what is said of it is true: a rule that is turned off is one that the
/// settings leave out; a rule of another family is one of that family, which is not
/// selected; an unknown one is in no family at all.
pub proof fn refusals_tell_the_truth(c: RuleCatalog, families: Seq<Family>, rule: Seq<char>)
    ensures
        rule_problem(c, families, rule) is None <==> exists|i: int|
            0 <= i < families.len() && catalog(c, #[trigger] families[i]).contains(rule),
        rule_problem(c, families, rule) matches Some(SelectionErrorView::Disabled { rule: t })
            ==> t == rule && families.contains(Family::Smells) && exists|r: SmellRule| #[trigger]
            r.key() == rule && !c.smells@.contains(r),
        rule_problem(c, families, rule) matches Some(
            SelectionErrorView::OtherFamily { rule: t, family, .. },
        ) ==> t == rule && !families.contains(family) && catalog(c, family).contains(rule),
        rule_problem(c, families, rule) matches Some(SelectionErrorView::Unknown { rule: t, .. })
            ==> t == rule && forall|family: Family| !#[trigger] catalog(c, family).contains(rule),
{
    available_rules_are_those_of_the_families(c, families, rule);
    lemma_family_with(c, all_families(), families, rule);
    let all = all_families();
    assert(all[0] == Family::Check && all[1] == Family::Dupes && all[2] == Family::Health && all[3]
        == Family::Smells);
    if rule_problem(c, families, rule) matches Some(SelectionErrorView::Unknown { .. }) {
        assert forall|family: Family| !#[trigger] catalog(c, family).contains(rule) by {
            assert(all.contains(family));
            if families.contains(family) {
                let i = choose|i: int| 0 <= i < families.len() && families[i] == family;
                assert(!catalog(c, families[i]).contains(rule));
            }
        }
    }
}

proof fn lemma_family_with(
    c: RuleCatalog,
    order: Seq<Family>,
    families: Seq<Family>,
    rule: Seq<char>,
)
    ensures
        family_with(c, order, families, rule) matches Some(f) ==> !families.contains(f) && catalog(
            c,
            f,
        ).contains(rule),
        family_with(c, order, families, rule) is None ==> forall|f: Family|
            order.contains(f) && !families.contains(f) ==> !#[trigger] catalog(c, f).contains(rule),
    decreases order.len(),
{
    if order.len() > 0 {
        lemma_family_with(c, order.drop_last(), families, rule);
        assert(order =~= order.drop_last().push(order.last()));
        assert forall|f: Family| order.contains(f) implies order.drop_last().contains(f) || f
            == order.last() by {
            lemma_contains_push(order.drop_last(), order.last(), f);
        }
    }
}

/// A selection is accepted if and only if each of its rules is.
pub proof fn selections_are_accepted_rule_by_rule(
    c: RuleCatalog,
    families: Seq<Family>,
    rules: Seq<Seq<char>>,
)
    ensures
        rules_problem(c, families, rules) is None <==> forall|i: int|
            0 <= i < rules.len() ==> rule_problem(c, families, #[trigger] rules[i]) is None,
    decreases rules.len(),
{
    if rules.len() > 0 {
        let front = rules.drop_last();
        selections_are_accepted_rule_by_rule(c, families, front);
        if rules_problem(c, families, rules) is None {
            assert forall|i: int| 0 <= i < rules.len() implies rule_problem(
                c,
                families,
                #[trigger] rules[i],
            ) is None by {
                if i < front.len() {
                    assert(rules[i] == front[i]);
                }
            }
        }
        if forall|i: int|
            0 <= i < rules.len() ==> rule_problem(c, families, #[trigger] rules[i]) is None {
            assert forall|i: int| 0 <= i < front.len() implies rule_problem(
                c,
                families,
                #[trigger] front[i],
            ) is None by {
                assert(rules[i] == front[i]);
            }
            assert(rule_problem(c, families, rules[rules.len() - 1]) is None);
        }
    }
}

/// Clones can be selected by the rule that they are reported under, and a smell by
/// its name if and only if it runs. The names of prohibited APIs can be selected if
/// and only if the rule against them runs.
pub proof fn what_is_reported_can_be_selected(
    c: RuleCatalog,
    clone: IssueView,
    rule: SmellRule,
    id: Seq<char>,
)
    requires
        clone is Duplicate,
        views(c.banned@).contains(id),
        !views(c.banned@).contains(rule.key()),
        forall|r: SmellRule| #[trigger] r.key() != id,
    ensures
        catalog(c, Family::Dupes).contains(clone.rule_key()),
        catalog(c, Family::Smells).contains(rule.key()) <==> c.smells@.contains(rule),
        catalog(c, Family::Smells).contains(id) <==> c.smells@.contains(SmellRule::BannedApi),
{
    assert(catalog(c, Family::Dupes)[0] == clone.rule_key());
    crate::types::lemma_rule_listed(rule);
    assert(all_rules().contains(rule));
    enabled_rules_are_named(all_rules(), c.smells@, rule);
    let own = keys_in(all_rules(), c.smells@);
    let banned = views(c.banned@);
    let all = catalog(c, Family::Smells);
    if all.contains(rule.key()) {
        let k = choose|k: int| 0 <= k < all.len() && all[k] == rule.key();
        if k < own.len() {
            assert(own[k] == rule.key());
        } else {
            assert(banned[k - own.len()] == rule.key());
        }
    }
    if own.contains(rule.key()) {
        let k = choose|k: int| 0 <= k < own.len() && own[k] == rule.key();
        assert(all[k] == rule.key());
    }
    if all.contains(id) && !c.smells@.contains(SmellRule::BannedApi) {
        let k = choose|k: int| 0 <= k < all.len() && all[k] == id;
        assert(own[k] == id);
        let r = named_keys_have_rules(all_rules(), c.smells@, id);
        assert(r.key() == id);
    }
    if c.smells@.contains(SmellRule::BannedApi) {
        let k = choose|k: int| 0 <= k < banned.len() && banned[k] == id;
        assert(all[own.len() + k] == id);
    }
}

} // verus!
