//! Agreed numbers of findings for each rule, which can only go down.
//!
//! More findings than agreed on are a regression; fewer make the agreement
//! stale, and it has to be lowered to what was found.
use crate::issue::{issue_views, Issue, IssueView};
use crate::order::{
    distinct_texts, distinct_texts_are_in_order, insert_distinct, is_increasing, sort_distinct,
    text_le, text_lt, text_order_is_antisymmetric,
};
use crate::path::FilePath;
use crate::report::markdown::{
    issue_keys, keys_of, of_rule, sections_keep_the_order, with_rule,
};
use crate::text::{decimal, decimal_text, same, views};
use vstd::prelude::*;

verus! {

/// How many findings of a rule there are, or may be.
#[derive(Debug)]
pub struct RuleCount {
    pub rule: String,
    pub count: u64,
}

#[verifier::ext_equal]
pub struct Count {
    pub rule: Seq<char>,
    pub count: nat,
}

impl View for RuleCount {
    type V = Count;

    open spec fn view(&self) -> Count {
        Count { rule: self.rule@, count: self.count as nat }
    }
}

pub open spec fn count_views(v: Seq<RuleCount>) -> Seq<Count> {
    v.map_values(|c: RuleCount| c@)
}

/// The rules of a list of counts.
pub open spec fn counted_rules(v: Seq<Count>) -> Seq<Seq<char>> {
    v.map_values(|c: Count| c.rule)
}

/// The count of a rule: that of its first entry, or none.
pub open spec fn count_of(v: Seq<Count>, rule: Seq<char>) -> nat
    decreases v.len(),
{
    if v.len() == 0 {
        0
    } else if v[0].rule == rule {
        v[0].count
    } else {
        count_of(v.skip(1), rule)
    }
}

/// The findings by rule, in the order of their names.
pub open spec fn counts_of(issues: Seq<IssueView>) -> Seq<Count> {
    distinct_texts(issue_keys(issues)).map_values(
        |r: Seq<char>| Count { rule: r, count: of_rule(issues, r).len() },
    )
}

/// How findings differ from what was agreed on.
#[derive(Debug)]
pub enum Outcome {
    /// There are more than agreed on.
    Regression { rule: String, current: u64, baseline: u64 },
    /// There are fewer than agreed on.
    Stale { rule: String, current: u64, baseline: u64 },
}

#[allow(inconsistent_fields)]
pub enum OutcomeView {
    Regression { rule: Seq<char>, current: nat, baseline: nat },
    Stale { rule: Seq<char>, current: nat, baseline: nat },
}

impl View for Outcome {
    type V = OutcomeView;

    open spec fn view(&self) -> OutcomeView {
        match self {
            Outcome::Regression { rule, current, baseline } => OutcomeView::Regression {
                rule: rule@,
                current: *current as nat,
                baseline: *baseline as nat,
            },
            Outcome::Stale { rule, current, baseline } => OutcomeView::Stale {
                rule: rule@,
                current: *current as nat,
                baseline: *baseline as nat,
            },
        }
    }
}

pub open spec fn outcome_views(v: Seq<Outcome>) -> Seq<OutcomeView> {
    v.map_values(|o: Outcome| o@)
}

/// How the findings of a list of rules differ from what was agreed on.
pub open spec fn outcomes(rules: Seq<Seq<char>>, current: Seq<Count>, baseline: Seq<Count>) -> Seq<
    OutcomeView,
>
    decreases rules.len(),
{
    if rules.len() == 0 {
        Seq::empty()
    } else {
        let before = outcomes(rules.drop_last(), current, baseline);
        let rule = rules.last();
        let c = count_of(current, rule);
        let b = count_of(baseline, rule);
        if c > b {
            before.push(OutcomeView::Regression { rule, current: c, baseline: b })
        } else if c < b {
            before.push(OutcomeView::Stale { rule, current: c, baseline: b })
        } else {
            before
        }
    }
}

/// All rules of two lists of counts, in order.
pub open spec fn rules_of(a: Seq<Count>, b: Seq<Count>) -> Seq<Seq<char>> {
    distinct_texts(counted_rules(a) + counted_rules(b))
}

/// How findings differ from what was agreed on, rule by rule.
pub open spec fn compared(current: Seq<Count>, baseline: Seq<Count>) -> Seq<OutcomeView> {
    outcomes(rules_of(current, baseline), current, baseline)
}

/// Which of a list of rules may occur more often than before.
pub open spec fn raised(rules: Seq<Seq<char>>, branch: Seq<Count>, committed: Seq<Count>) -> Seq<
    OutcomeView,
>
    decreases rules.len(),
{
    if rules.len() == 0 {
        Seq::empty()
    } else {
        let before = raised(rules.drop_last(), branch, committed);
        let rule = rules.last();
        let c = count_of(branch, rule);
        let b = count_of(committed, rule);
        if c > b {
            before.push(OutcomeView::Regression { rule, current: c, baseline: b })
        } else {
            before
        }
    }
}

/// Which rules may occur more often on a branch than was agreed on before. Where
/// nothing was agreed on, anything may be.
pub open spec fn violations(branch: Seq<Count>, committed: Option<Seq<Count>>) -> Seq<OutcomeView> {
    match committed {
        Some(c) => raised(distinct_texts(counted_rules(branch)), branch, c),
        None => Seq::empty(),
    }
}

/// How many findings of each rule there are.
pub fn count_by_rule(issues: &Vec<Issue>) -> (r: Vec<RuleCount>)
    ensures
        count_views(r@) == counts_of(issue_views(issues@)),
{
    let ghost found = issue_views(issues@);
    let rules = sort_distinct(&keys_of(issues));
    let ghost all = views(rules@);
    let ghost goal = counts_of(found);
    let mut r: Vec<RuleCount> = Vec::new();
    let mut i: usize = 0;
    while i < rules.len()
        invariant
            i <= rules@.len(),
            all == views(rules@),
            found == issue_views(issues@),
            all == distinct_texts(issue_keys(found)),
            goal == counts_of(found),
            count_views(r@) == goal.take(i as int),
        decreases rules@.len() - i,
    {
        let own = with_rule(issues, rules[i].as_str());
        assert(issue_views(own@.unref()).len() == own@.len());
        let one = RuleCount { rule: rules[i].clone(), count: own.len() as u64 };
        proof {
            assert(all[i as int] == rules@[i as int]@);
            assert(one@ == goal[i as int]);
        }
        let ghost was = count_views(r@);
        r.push(one);
        assert(count_views(r@) =~= was.push(goal[i as int]));
        i += 1;
        assert(count_views(r@) =~= goal.take(i as int));
    }
    assert(count_views(r@) =~= goal);
    r
}

fn count_in(v: &Vec<RuleCount>, rule: &str) -> (r: u64)
    ensures
        r == count_of(count_views(v@), rule@),
{
    let ghost all = count_views(v@);
    let mut i: usize = 0;
    assert(all.skip(0) =~= all);
    while i < v.len()
        invariant
            i <= v@.len(),
            all == count_views(v@),
            count_of(all, rule@) == count_of(all.skip(i as int), rule@),
        decreases v@.len() - i,
    {
        assert(all.skip(i as int)[0] == v@[i as int]@);
        assert(all.skip(i as int).skip(1) =~= all.skip(i + 1));
        if same(v[i].rule.as_str(), rule) {
            return v[i].count;
        }
        i += 1;
    }
    0
}

fn add_rules(r: &mut Vec<String>, v: &Vec<RuleCount>)
    ensures
        views(final(r)@) == views(old(r)@) + counted_rules(count_views(v@)),
{
    let ghost start = views(r@);
    let ghost all = counted_rules(count_views(v@));
    let mut i: usize = 0;
    assert(start + all.take(0) =~= start);
    while i < v.len()
        invariant
            i <= v@.len(),
            all == counted_rules(count_views(v@)),
            views(r@) == start + all.take(i as int),
        decreases v@.len() - i,
    {
        let ghost was = views(r@);
        r.push(v[i].rule.clone());
        assert(views(r@) =~= was.push(all[i as int]));
        i += 1;
        assert(views(r@) =~= start + all.take(i as int));
    }
    assert(all.take(i as int) =~= all);
}

/// How findings differ from what was agreed on, rule by rule.
pub fn compare(current: &Vec<RuleCount>, baseline: &Vec<RuleCount>) -> (r: Vec<Outcome>)
    ensures
        outcome_views(r@) == compared(count_views(current@), count_views(baseline@)),
{
    let ghost a = count_views(current@);
    let ghost b = count_views(baseline@);
    let mut names: Vec<String> = Vec::new();
    assert(views(names@) =~= Seq::empty());
    add_rules(&mut names, current);
    assert(views(names@) =~= counted_rules(a));
    add_rules(&mut names, baseline);
    let rules = sort_distinct(&names);
    let ghost all = views(rules@);
    let mut r: Vec<Outcome> = Vec::new();
    let mut i: usize = 0;
    assert(outcome_views(r@) =~= outcomes(all.take(0), a, b));
    while i < rules.len()
        invariant
            i <= rules@.len(),
            all == views(rules@),
            a == count_views(current@),
            b == count_views(baseline@),
            outcome_views(r@) == outcomes(all.take(i as int), a, b),
        decreases rules@.len() - i,
    {
        proof {
            assert(all.take(i + 1).drop_last() =~= all.take(i as int));
            assert(all.take(i + 1).last() == rules@[i as int]@);
        }
        let c: u64 = count_in(current, rules[i].as_str());
        let n: u64 = count_in(baseline, rules[i].as_str());
        let ghost was = outcome_views(r@);
        if c > n {
            let o = Outcome::Regression { rule: rules[i].clone(), current: c, baseline: n };
            r.push(o);
            assert(outcome_views(r@) =~= was.push(o@));
        } else if c < n {
            let o = Outcome::Stale { rule: rules[i].clone(), current: c, baseline: n };
            r.push(o);
            assert(outcome_views(r@) =~= was.push(o@));
        }
        i += 1;
    }
    assert(all.take(i as int) =~= all);
    r
}

pub open spec fn committed_view(c: Option<Vec<RuleCount>>) -> Option<Seq<Count>> {
    match c {
        Some(v) => Some(count_views(v@)),
        None => None,
    }
}

/// Which rules may occur more often on a branch than was agreed on before.
pub fn ratchet_violations(branch: &Vec<RuleCount>, committed: &Option<Vec<RuleCount>>) -> (r: Vec<
    Outcome,
>)
    ensures
        outcome_views(r@) == violations(count_views(branch@), committed_view(*committed)),
{
    let mut r: Vec<Outcome> = Vec::new();
    assert(outcome_views(r@) =~= Seq::empty());
    if let Some(before) = committed {
        let ghost a = count_views(branch@);
        let ghost b = count_views(before@);
        let mut names: Vec<String> = Vec::new();
        assert(views(names@) =~= Seq::empty());
        add_rules(&mut names, branch);
        assert(views(names@) =~= counted_rules(a));
        let rules = sort_distinct(&names);
        let ghost all = views(rules@);
        let mut i: usize = 0;
        assert(outcome_views(r@) =~= raised(all.take(0), a, b));
        while i < rules.len()
            invariant
                i <= rules@.len(),
                all == views(rules@),
                a == count_views(branch@),
                b == count_views(before@),
                outcome_views(r@) == raised(all.take(i as int), a, b),
            decreases rules@.len() - i,
        {
            proof {
                assert(all.take(i + 1).drop_last() =~= all.take(i as int));
                assert(all.take(i + 1).last() == rules@[i as int]@);
            }
            let c: u64 = count_in(branch, rules[i].as_str());
            let n: u64 = count_in(before, rules[i].as_str());
            let ghost was = outcome_views(r@);
            if c > n {
                let o = Outcome::Regression { rule: rules[i].clone(), current: c, baseline: n };
                r.push(o);
                assert(outcome_views(r@) =~= was.push(o@));
            }
            i += 1;
        }
        assert(all.take(i as int) =~= all);
    }
    r
}

impl OutcomeView {
    /// A difference in words.
    pub open spec fn words(self) -> Seq<char> {
        match self {
            OutcomeView::Regression { rule, current, baseline } => rule + ": "@ + decimal(current)
                + " findings exceed the allowance of "@ + decimal(baseline),
            OutcomeView::Stale { rule, current, baseline } => rule + ": allowance "@ + decimal(
                baseline,
            ) + " is stale — update it to exactly "@ + decimal(current),
        }
    }

    /// A raised number in words.
    pub open spec fn raised_words(self) -> Seq<char> {
        match self {
            OutcomeView::Regression { rule, current, baseline } => rule + ": branch allowance "@
                + decimal(current) + " exceeds "@ + decimal(baseline)
                + " committed at merge-base"@,
            OutcomeView::Stale { .. } => self.words(),
        }
    }
}

impl Outcome {
    /// A difference in words.
    pub fn describe(&self) -> (r: String)
        ensures
            r@ == self@.words(),
    {
        match self {
            Outcome::Regression { rule, current, baseline } => {
                let mut r = rule.clone();
                r.append(": ");
                r.append(decimal_text(*current).as_str());
                r.append(" findings exceed the allowance of ");
                r.append(decimal_text(*baseline).as_str());
                r
            },
            Outcome::Stale { rule, current, baseline } => {
                let mut r = rule.clone();
                r.append(": allowance ");
                r.append(decimal_text(*baseline).as_str());
                r.append(" is stale — update it to exactly ");
                r.append(decimal_text(*current).as_str());
                r
            },
        }
    }

    /// A raised number in words.
    pub fn describe_raised(&self) -> (r: String)
        ensures
            r@ == self@.raised_words(),
    {
        match self {
            Outcome::Regression { rule, current, baseline } => {
                let mut r = rule.clone();
                r.append(": branch allowance ");
                r.append(decimal_text(*current).as_str());
                r.append(" exceeds ");
                r.append(decimal_text(*baseline).as_str());
                r.append(" committed at merge-base");
                r
            },
            Outcome::Stale { .. } => self.describe(),
        }
    }
}

proof fn lemma_uncounted(v: Seq<Count>, rule: Seq<char>)
    requires
        !counted_rules(v).contains(rule),
    ensures
        count_of(v, rule) == 0,
    decreases v.len(),
{
    if v.len() > 0 {
        assert(counted_rules(v)[0] == v[0].rule);
        assert(counted_rules(v).skip(1) =~= counted_rules(v.skip(1)));
        if counted_rules(v.skip(1)).contains(rule) {
            let i = choose|i: int|
                0 <= i < counted_rules(v.skip(1)).len() && counted_rules(v.skip(1))[i] == rule;
            assert(counted_rules(v)[i + 1] == rule);
        }
        lemma_uncounted(v.skip(1), rule);
    }
}

proof fn lemma_outcomes_empty(rules: Seq<Seq<char>>, current: Seq<Count>, baseline: Seq<Count>)
    ensures
        outcomes(rules, current, baseline).len() == 0 <==> (forall|i: int|
            0 <= i < rules.len() ==> count_of(current, #[trigger] rules[i]) == count_of(
                baseline,
                rules[i],
            )),
    decreases rules.len(),
{
    if rules.len() > 0 {
        let front = rules.drop_last();
        lemma_outcomes_empty(front, current, baseline);
        if forall|i: int|
            0 <= i < rules.len() ==> count_of(current, #[trigger] rules[i]) == count_of(
                baseline,
                rules[i],
            ) {
            assert forall|i: int| 0 <= i < front.len() implies count_of(current, #[trigger] front[i])
                == count_of(baseline, front[i]) by {
                assert(rules[i] == front[i]);
            }
            assert(count_of(current, rules[rules.len() - 1]) == count_of(
                baseline,
                rules[rules.len() - 1],
            ));
        }
        if outcomes(rules, current, baseline).len() == 0 {
            assert forall|i: int| 0 <= i < rules.len() implies count_of(current, #[trigger] rules[i])
                == count_of(baseline, rules[i]) by {
                if i < front.len() {
                    assert(front[i] == rules[i]);
                }
            }
        }
    }
}

/// Findings pass exactly if of every rule there are as many as agreed on, neither
/// more nor fewer.
pub proof fn only_equal_counts_pass(current: Seq<Count>, baseline: Seq<Count>)
    ensures
        compared(current, baseline).len() == 0 <==> (forall|rule: Seq<char>|
            count_of(current, rule) == #[trigger] count_of(baseline, rule)),
{
    let names = counted_rules(current) + counted_rules(baseline);
    let rules = rules_of(current, baseline);
    lemma_outcomes_empty(rules, current, baseline);
    distinct_texts_are_in_order(names);
    if compared(current, baseline).len() == 0 {
        assert forall|rule: Seq<char>| count_of(current, rule) == #[trigger] count_of(
            baseline,
            rule,
        ) by {
            if rules.contains(rule) {
                let i = choose|i: int| 0 <= i < rules.len() && rules[i] == rule;
                assert(count_of(current, rules[i]) == count_of(baseline, rules[i]));
            } else {
                assert(!names.contains(rule));
                if counted_rules(current).contains(rule) {
                    let i = choose|i: int|
                        0 <= i < counted_rules(current).len() && counted_rules(current)[i] == rule;
                    assert(names[i] == rule);
                }
                if counted_rules(baseline).contains(rule) {
                    let i = choose|i: int|
                        0 <= i < counted_rules(baseline).len() && counted_rules(baseline)[i]
                            == rule;
                    assert(names[counted_rules(current).len() + i] == rule);
                }
                lemma_uncounted(current, rule);
                lemma_uncounted(baseline, rule);
            }
        }
    }
}

/// What was counted passes against itself: numbers that are written down from a
/// run hold for that run.
pub proof fn fresh_counts_pass(issues: Seq<IssueView>)
    ensures
        compared(counts_of(issues), counts_of(issues)).len() == 0,
{
    only_equal_counts_pass(counts_of(issues), counts_of(issues));
}

proof fn lemma_raised_empty(rules: Seq<Seq<char>>, branch: Seq<Count>, committed: Seq<Count>)
    ensures
        raised(rules, branch, committed).len() == 0 <==> (forall|i: int|
            0 <= i < rules.len() ==> count_of(branch, #[trigger] rules[i]) <= count_of(
                committed,
                rules[i],
            )),
    decreases rules.len(),
{
    if rules.len() > 0 {
        let front = rules.drop_last();
        lemma_raised_empty(front, branch, committed);
        if forall|i: int|
            0 <= i < rules.len() ==> count_of(branch, #[trigger] rules[i]) <= count_of(
                committed,
                rules[i],
            ) {
            assert forall|i: int| 0 <= i < front.len() implies count_of(branch, #[trigger] front[i])
                <= count_of(committed, front[i]) by {
                assert(rules[i] == front[i]);
            }
            assert(count_of(branch, rules[rules.len() - 1]) <= count_of(
                committed,
                rules[rules.len() - 1],
            ));
        }
        if raised(rules, branch, committed).len() == 0 {
            assert forall|i: int| 0 <= i < rules.len() implies count_of(branch, #[trigger] rules[i])
                <= count_of(committed, rules[i]) by {
                if i < front.len() {
                    assert(front[i] == rules[i]);
                }
            }
        }
    }
}

/// A branch may lower what was agreed on and never raise it: it passes exactly if
/// no rule may occur more often than before.
pub proof fn branches_only_lower(branch: Seq<Count>, committed: Seq<Count>)
    ensures
        violations(branch, Some(committed)).len() == 0 <==> (forall|rule: Seq<char>|
            #[trigger] count_of(branch, rule) <= count_of(committed, rule)),
{
    let names = counted_rules(branch);
    let rules = distinct_texts(names);
    lemma_raised_empty(rules, branch, committed);
    distinct_texts_are_in_order(names);
    if violations(branch, Some(committed)).len() == 0 {
        assert forall|rule: Seq<char>| #[trigger] count_of(branch, rule) <= count_of(
            committed,
            rule,
        ) by {
            if rules.contains(rule) {
                let i = choose|i: int| 0 <= i < rules.len() && rules[i] == rule;
                assert(count_of(branch, rules[i]) <= count_of(committed, rules[i]));
            } else {
                lemma_uncounted(branch, rule);
            }
        }
    }
}

/// How the findings of a run differ from what was agreed on, and which agreed
/// numbers were raised.
#[derive(Debug)]
pub struct CountCheck {
    pub differences: Vec<Outcome>,
    pub raised: Vec<Outcome>,
    /// Whether the run fails.
    pub failed: bool,
}

pub open spec fn base_view(base: Option<Option<Vec<RuleCount>>>) -> Option<Option<Seq<Count>>> {
    match base {
        Some(c) => Some(committed_view(c)),
        None => None,
    }
}

/// Which agreed numbers were raised, if that is asked for.
pub open spec fn raised_since(agreed: Seq<Count>, base: Option<Option<Seq<Count>>>) -> Seq<
    OutcomeView,
> {
    match base {
        Some(committed) => violations(agreed, committed),
        None => Seq::empty(),
    }
}

/// Whether a run fails on what it differs in.
pub open spec fn check_fails(differences: Seq<OutcomeView>, raised: Seq<OutcomeView>) -> bool {
    differences.len() > 0 || raised.len() > 0
}

/// Holds the findings of a run against agreed numbers, and these, if that is
/// asked for, against what was agreed on before. Any difference fails the run.
pub fn check_count_baseline(
    issues: &Vec<Issue>,
    agreed: &Vec<RuleCount>,
    base: &Option<Option<Vec<RuleCount>>>,
) -> (r: CountCheck)
    ensures
        outcome_views(r.differences@) == compared(
            counts_of(issue_views(issues@)),
            count_views(agreed@),
        ),
        outcome_views(r.raised@) == raised_since(count_views(agreed@), base_view(*base)),
        r.failed == (r.differences@.len() > 0 || r.raised@.len() > 0),
        r.failed == check_fails(outcome_views(r.differences@), outcome_views(r.raised@)),
{
    let differences = compare(&count_by_rule(issues), agreed);
    let raised = match base {
        Some(committed) => ratchet_violations(agreed, committed),
        None => {
            let none: Vec<Outcome> = Vec::new();
            assert(outcome_views(none@) =~= Seq::empty());
            none
        },
    };
    let failed = differences.len() > 0 || raised.len() > 0;
    CountCheck { differences, raised, failed }
}

/// How many findings a list of counts stands for.
pub open spec fn total(v: Seq<Count>) -> nat
    decreases v.len(),
{
    if v.len() == 0 {
        0
    } else {
        total(v.drop_last()) + v.last().count
    }
}

/// The counts of some rules.
pub open spec fn counts_for(rules: Seq<Seq<char>>, issues: Seq<IssueView>) -> Seq<Count> {
    rules.map_values(|r: Seq<char>| Count { rule: r, count: of_rule(issues, r).len() })
}

proof fn lemma_total_push(v: Seq<Count>, c: Count)
    ensures
        total(v.push(c)) == total(v) + c.count,
{
    assert(v.push(c).drop_last() =~= v);
}

proof fn lemma_of_missing_rule(issues: Seq<IssueView>, rule: Seq<char>)
    requires
        !issue_keys(issues).contains(rule),
    ensures
        of_rule(issues, rule).len() == 0,
    decreases issues.len(),
{
    if issues.len() > 0 {
        let front = issues.drop_last();
        assert(issue_keys(issues).last() == issues.last().rule_key());
        assert forall|i: int| 0 <= i < front.len() implies issue_keys(front)[i] != rule by {
            assert(issue_keys(issues)[i] == issue_keys(front)[i]);
        }
        lemma_of_missing_rule(front, rule);
    }
}

/// One more finding adds one to the count of its rule, if that is among the rules.
proof fn lemma_one_more(rules: Seq<Seq<char>>, issues: Seq<IssueView>, x: IssueView)
    requires
        is_increasing(rules),
    ensures
        total(counts_for(rules, issues.push(x))) == total(counts_for(rules, issues)) + (
        if rules.contains(x.rule_key()) {
            1nat
        } else {
            0nat
        }),
    decreases rules.len(),
{
    if rules.len() > 0 {
        let front = rules.drop_last();
        let last = rules.last();
        lemma_one_more(front, issues, x);
        assert(issues.push(x).drop_last() =~= issues);
        assert(counts_for(rules, issues) =~= counts_for(front, issues).push(
            Count { rule: last, count: of_rule(issues, last).len() },
        ));
        assert(counts_for(rules, issues.push(x)) =~= counts_for(front, issues.push(x)).push(
            Count { rule: last, count: of_rule(issues.push(x), last).len() },
        ));
        lemma_total_push(
            counts_for(front, issues),
            Count { rule: last, count: of_rule(issues, last).len() },
        );
        lemma_total_push(
            counts_for(front, issues.push(x)),
            Count { rule: last, count: of_rule(issues.push(x), last).len() },
        );
        assert(rules =~= front.push(last));
        crate::types::lemma_contains_push(front, last, x.rule_key());
        if front.contains(last) {
            let i = choose|i: int| 0 <= i < front.len() && front[i] == last;
            assert(text_lt(rules[i], rules[rules.len() - 1]));
        }
    }
}

/// A rule without findings adds nothing.
proof fn lemma_insert_total(rules: Seq<Seq<char>>, issues: Seq<IssueView>, rule: Seq<char>)
    requires
        rules.contains(rule) || of_rule(issues, rule).len() == 0,
        is_increasing(rules),
    ensures
        total(counts_for(insert_distinct(rules, rule), issues)) == total(counts_for(rules, issues)),
    decreases rules.len(),
{
    let added = Count { rule, count: of_rule(issues, rule).len() };
    if rules.len() == 0 {
        assert(counts_for(rules.push(rule), issues) =~= counts_for(rules, issues).push(added));
        lemma_total_push(counts_for(rules, issues), added);
    } else if rules.last() == rule {
    } else if text_le(rules.last(), rule) {
        if rules.contains(rule) {
            let i = choose|i: int| 0 <= i < rules.len() && rules[i] == rule;
            assert(text_lt(rules[i], rules[rules.len() - 1]));
            text_order_is_antisymmetric(rules.last(), rule);
        }
        assert(counts_for(rules.push(rule), issues) =~= counts_for(rules, issues).push(added));
        lemma_total_push(counts_for(rules, issues), added);
    } else {
        let front = rules.drop_last();
        let kept = Count { rule: rules.last(), count: of_rule(issues, rules.last()).len() };
        if rules.contains(rule) {
            let i = choose|i: int| 0 <= i < rules.len() && rules[i] == rule;
            assert(front[i] == rule);
        }
        lemma_insert_total(front, issues, rule);
        assert(counts_for(rules, issues) =~= counts_for(front, issues).push(kept));
        lemma_total_push(counts_for(front, issues), kept);
        let grown = insert_distinct(front, rule);
        assert(counts_for(grown.push(rules.last()), issues) =~= counts_for(grown, issues).push(
            kept,
        ));
        lemma_total_push(counts_for(grown, issues), kept);
    }
}

/// The counts of a run add up to the number of its findings.
pub proof fn counts_add_up(issues: Seq<IssueView>)
    ensures
        total(counts_of(issues)) == issues.len(),
    decreases issues.len(),
{
    if issues.len() > 0 {
        let front = issues.drop_last();
        let x = issues.last();
        let rules = distinct_texts(issue_keys(front));
        let all = distinct_texts(issue_keys(issues));
        counts_add_up(front);
        assert(issues =~= front.push(x));
        assert(issue_keys(issues).drop_last() =~= issue_keys(front));
        assert(issue_keys(issues).last() == x.rule_key());
        distinct_texts_are_in_order(issue_keys(front));
        distinct_texts_are_in_order(issue_keys(issues));
        if !rules.contains(x.rule_key()) {
            assert(!issue_keys(front).contains(x.rule_key()));
            lemma_of_missing_rule(front, x.rule_key());
        }
        lemma_insert_total(rules, front, x.rule_key());
        assert(issue_keys(issues).contains(x.rule_key())) by {
            assert(issue_keys(issues)[issues.len() - 1] == x.rule_key());
        }
        lemma_one_more(all, front, x);
        assert(counts_for(all, issues) =~= counts_of(issues));
        assert(counts_for(rules, front) =~= counts_of(front));
    }
}

/// The version of the files that hold agreed numbers.
pub const COUNTS_VERSION: u32 = 1;

/// Agreed numbers that were read from a file, unless the file is of a version
/// that is not known.
pub fn accept_counts(version: u32, counts: Vec<RuleCount>) -> (r: Result<Vec<RuleCount>, String>)
    ensures
        match r {
            Ok(v) => version == COUNTS_VERSION && v == counts,
            Err(m) => version != COUNTS_VERSION && m@ == "unsupported schemaVersion "@ + decimal(
                version as nat,
            ),
        },
{
    if version == COUNTS_VERSION {
        Ok(counts)
    } else {
        let mut m = "unsupported schemaVersion ".to_owned();
        m.append(decimal_text(version as u64).as_str());
        Err(m)
    }
}

/// How git is asked for a file at a commit, from where its path leads and where
/// the repository is: as seen from the repository if it lies there, else as it
/// is written.
pub fn committed_place(
    commit: &str,
    path: &FilePath,
    canonical: &FilePath,
    top: &FilePath,
) -> (r: String)
    ensures
        r@ == commit@ + ":"@ + (match canonical@.behind(top@) {
            Some(rest) => rest.text(),
            None => path@.text(),
        }),
{
    let mut r = commit.to_owned();
    r.append(":");
    match canonical.behind(top) {
        Some(rest) => r.append(rest.text().as_str()),
        None => r.append(path.text().as_str()),
    }
    r
}

/// A list of counts with each rule once counts every rule as its entry says.
proof fn lemma_count_of_entry(v: Seq<Count>, i: int)
    requires
        0 <= i < v.len(),
        forall|a: int, b: int| 0 <= a < b < v.len() ==> (#[trigger] v[a]).rule != (#[trigger] v[b]).rule,
    ensures
        count_of(v, v[i].rule) == v[i].count,
    decreases v.len(),
{
    if i > 0 {
        let rest = v.skip(1);
        assert(v[0].rule != v[i].rule);
        assert forall|a: int, b: int| 0 <= a < b < rest.len() implies (#[trigger] rest[a]).rule != (
        #[trigger] rest[b]).rule by {
            assert(v[a + 1].rule != v[b + 1].rule);
        }
        assert(rest[i - 1] == v[i]);
        lemma_count_of_entry(rest, i - 1);
    }
}

/// Counting gives for every rule the number of its findings, and zero for one without
/// any.
pub proof fn every_finding_is_counted(issues: Seq<IssueView>, rule: Seq<char>)
    ensures
        count_of(counts_of(issues), rule) == issues.filter(
            |i: IssueView| i.rule_key() == rule,
        ).len(),
{
    let keys = issue_keys(issues);
    let rules = distinct_texts(keys);
    let all = counts_of(issues);
    distinct_texts_are_in_order(keys);
    sections_keep_the_order(issues, rule);
    if rules.contains(rule) {
        let i = choose|i: int| 0 <= i < rules.len() && rules[i] == rule;
        assert forall|a: int, b: int| 0 <= a < b < all.len() implies (#[trigger] all[a]).rule != (
        #[trigger] all[b]).rule by {
            assert(all[a].rule == rules[a] && all[b].rule == rules[b]);
            assert(text_lt(rules[a], rules[b]));
        }
        assert(all[i].rule == rule);
        lemma_count_of_entry(all, i);
    } else {
        assert(counted_rules(all) =~= rules);
        lemma_uncounted(all, rule);
        lemma_of_missing_rule(issues, rule);
    }
}

/// What is said of a difference is true, and every difference is said: a rule with
/// more findings than agreed on is a regression and one with fewer is stale, with
/// both numbers.
pub proof fn differences_are_told_as_they_are(
    current: Seq<Count>,
    baseline: Seq<Count>,
    rule: Seq<char>,
)
    ensures
        ({
            let c = count_of(current, rule);
            let b = count_of(baseline, rule);
            &&& c > b ==> compared(current, baseline).contains(
                OutcomeView::Regression { rule, current: c, baseline: b },
            )
            &&& c < b ==> compared(current, baseline).contains(
                OutcomeView::Stale { rule, current: c, baseline: b },
            )
        }),
        forall|i: int|
            0 <= i < compared(current, baseline).len() ==> tells_the_truth(
                #[trigger] compared(current, baseline)[i],
                current,
                baseline,
            ),
{
    let names = counted_rules(current) + counted_rules(baseline);
    let rules = rules_of(current, baseline);
    distinct_texts_are_in_order(names);
    lemma_outcomes_are_true(rules, current, baseline);
    let c = count_of(current, rule);
    let b = count_of(baseline, rule);
    if c != b {
        assert(names.contains(rule)) by {
            if counted_rules(current).contains(rule) {
                let i = choose|i: int|
                    0 <= i < counted_rules(current).len() && counted_rules(current)[i] == rule;
                assert(names[i] == rule);
            } else if counted_rules(baseline).contains(rule) {
                let i = choose|i: int|
                    0 <= i < counted_rules(baseline).len() && counted_rules(baseline)[i] == rule;
                assert(names[counted_rules(current).len() + i] == rule);
            } else {
                lemma_uncounted(current, rule);
                lemma_uncounted(baseline, rule);
            }
        }
        assert(rules.contains(rule));
        let i = choose|i: int| 0 <= i < rules.len() && rules[i] == rule;
        lemma_outcome_listed(rules, current, baseline, i);
    }
}

/// Whether what is said of a rule holds of its numbers.
pub open spec fn tells_the_truth(o: OutcomeView, current: Seq<Count>, baseline: Seq<Count>) -> bool {
    match o {
        OutcomeView::Regression { rule, current: c, baseline: b } => c > b && c == count_of(
            current,
            rule,
        ) && b == count_of(baseline, rule),
        OutcomeView::Stale { rule, current: c, baseline: b } => c < b && c == count_of(
            current,
            rule,
        ) && b == count_of(baseline, rule),
    }
}

proof fn lemma_outcomes_are_true(
    rules: Seq<Seq<char>>,
    current: Seq<Count>,
    baseline: Seq<Count>,
)
    ensures
        forall|i: int|
            0 <= i < outcomes(rules, current, baseline).len() ==> tells_the_truth(
                #[trigger] outcomes(rules, current, baseline)[i],
                current,
                baseline,
            ),
    decreases rules.len(),
{
    if rules.len() > 0 {
        lemma_outcomes_are_true(rules.drop_last(), current, baseline);
        let before = outcomes(rules.drop_last(), current, baseline);
        let all = outcomes(rules, current, baseline);
        assert forall|i: int| 0 <= i < all.len() implies tells_the_truth(
            #[trigger] all[i],
            current,
            baseline,
        ) by {
            if i < before.len() {
                assert(all[i] == before[i]);
            }
        }
    }
}

proof fn lemma_outcome_listed(
    rules: Seq<Seq<char>>,
    current: Seq<Count>,
    baseline: Seq<Count>,
    i: int,
)
    requires
        0 <= i < rules.len(),
    ensures
        ({
            let c = count_of(current, rules[i]);
            let b = count_of(baseline, rules[i]);
            &&& c > b ==> outcomes(rules, current, baseline).contains(
                OutcomeView::Regression { rule: rules[i], current: c, baseline: b },
            )
            &&& c < b ==> outcomes(rules, current, baseline).contains(
                OutcomeView::Stale { rule: rules[i], current: c, baseline: b },
            )
        }),
    decreases rules.len(),
{
    let before = outcomes(rules.drop_last(), current, baseline);
    let all = outcomes(rules, current, baseline);
    let c = count_of(current, rules[i]);
    let b = count_of(baseline, rules[i]);
    let o = if c > b {
        OutcomeView::Regression { rule: rules[i], current: c, baseline: b }
    } else {
        OutcomeView::Stale { rule: rules[i], current: c, baseline: b }
    };
    if c != b {
        if i < rules.len() - 1 {
            lemma_outcome_listed(rules.drop_last(), current, baseline, i);
            assert(before.contains(o));
            let k = choose|k: int| 0 <= k < before.len() && before[k] == o;
            assert(all[k] == o);
        } else {
            assert(all[before.len() as int] == o);
        }
    }
}

/// A run passes against agreed numbers if and only if there are of every rule exactly
/// as many findings as agreed on and, where that is asked for, no number was raised
/// since it was committed.
pub proof fn runs_pass_with_exact_numbers(
    issues: Seq<IssueView>,
    agreed: Seq<Count>,
    committed: Seq<Count>,
)
    ensures
        !check_fails(compared(counts_of(issues), agreed), raised_since(agreed, None)) <==> (forall|
            rule: Seq<char>,
        |
            #[trigger] count_of(agreed, rule) == issues.filter(
                |i: IssueView| i.rule_key() == rule,
            ).len()),
        !check_fails(
            compared(counts_of(issues), agreed),
            raised_since(agreed, Some(Some(committed))),
        ) <==> (forall|rule: Seq<char>| #[trigger]
            count_of(agreed, rule) == issues.filter(|i: IssueView| i.rule_key() == rule).len()
                && count_of(agreed, rule) <= count_of(committed, rule)),
{
    let found = counts_of(issues);
    only_equal_counts_pass(found, agreed);
    branches_only_lower(agreed, committed);
    if compared(found, agreed).len() == 0 {
        assert forall|rule: Seq<char>| #[trigger] count_of(agreed, rule) == issues.filter(
            |i: IssueView| i.rule_key() == rule,
        ).len() by {
            every_finding_is_counted(issues, rule);
            assert(count_of(found, rule) == count_of(agreed, rule));
        }
    }
    if forall|rule: Seq<char>|
        #[trigger] count_of(agreed, rule) == issues.filter(
            |i: IssueView| i.rule_key() == rule,
        ).len() {
        assert forall|rule: Seq<char>| count_of(found, rule) == #[trigger] count_of(agreed, rule) by {
            every_finding_is_counted(issues, rule);
        }
    }
}

} // verus!
