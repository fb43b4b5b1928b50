//! What is done with the findings of an analysis before they are shown, and what
//! is said of it.
use crate::audit::{plural, plural_of, verdict_on, Verdict};
use crate::issue::{AnalysisResults, IssueView};
use crate::path::FilePath;
use crate::text::{decimal, decimal_text, decimals_read_back, number_in};
use vstd::prelude::*;

verus! {

/// What is asked for besides the analysis.
#[derive(Debug, Default)]
pub struct PostFlags {
    /// Leave out the findings that are listed in this file.
    pub baseline: Option<FilePath>,
    /// List the findings in this file.
    pub save_baseline: Option<FilePath>,
    /// Show a score.
    pub score: bool,
    /// Write the score and the numbers of findings to this file.
    pub save_snapshot: Option<FilePath>,
    /// Show how the numbers differ from those in this file.
    pub trend: Option<FilePath>,
    /// Show the findings by owner.
    pub ownership: bool,
    /// Fail if the number of findings of a rule differs from that in this file.
    pub count_baseline: Option<FilePath>,
    /// Write the numbers of findings to this file.
    pub save_count_baseline: Option<FilePath>,
    /// Fail if a number in the file of agreed numbers was raised since this
    /// revision.
    pub count_base: Option<String>,
}

/// What became of the findings.
#[derive(Debug, Clone, Copy, PartialEq, Eq, Structural)]
pub struct Applied {
    /// How many were left out because they are listed.
    pub suppressed: usize,
    /// Whether the numbers differ from those agreed on. A run fails on it even
    /// without findings.
    pub count_gate_failed: bool,
}

/// Whether a run with a number of findings fails.
pub open spec fn run_fails(found: nat, counts_differ: bool) -> bool {
    found > 0 || counts_differ
}

/// Whether a run fails: it has findings, or their numbers differ from those
/// agreed on.
pub fn fails(results: &AnalysisResults, applied: &Applied) -> (r: bool)
    ensures
        r == (results.issues@.len() > 0 || applied.count_gate_failed),
        r == run_fails(results.issues@.len(), applied.count_gate_failed),
{
    results.issues.len() > 0 || applied.count_gate_failed
}

/// How many findings were left out, and why.
pub open spec fn suppressed_words(n: nat, why: Seq<char>) -> Seq<char> {
    decimal(n) + " issue"@ + plural(n) + " suppressed by "@ + why
}

fn suppressed_line(n: usize, why: &str) -> (r: String)
    ensures
        r@ == suppressed_words(n as nat, why@),
{
    let mut r = decimal_text(n as u64);
    r.append(" issue");
    r.append(plural_of(n));
    r.append(" suppressed by ");
    r.append(why);
    r
}

/// What is said of findings that comments in the code leave out, if there are
/// any.
pub fn noqa_note(n: usize) -> (r: Option<String>)
    ensures
        match r {
            Some(s) => n > 0 && s@ == suppressed_words(n as nat, "noqa directives"@),
            None => n == 0,
        },
{
    if n == 0 {
        None
    } else {
        Some(suppressed_line(n, "noqa directives"))
    }
}

/// What is said of findings that the settings leave out, if there are any.
pub fn suppress_note(n: usize) -> (r: Option<String>)
    ensures
        match r {
            Some(s) => n > 0 && s@ == suppressed_words(n as nat, "[[suppress]] entries"@),
            None => n == 0,
        },
{
    if n == 0 {
        None
    } else {
        Some(suppressed_line(n, "[[suppress]] entries"))
    }
}

/// What is said of findings that are left out because they are listed, if there
/// are any.
pub fn note_baseline_filter(n: usize, baseline: &Option<FilePath>) -> (r: Option<String>)
    ensures
        match r {
            Some(s) => n > 0 && (baseline matches Some(p) && s@ == suppressed_words(
                n as nat,
                "baseline "@ + p@.text(),
            )),
            None => n == 0 || baseline is None,
        },
{
    match baseline {
        Some(p) => if n == 0 {
            None
        } else {
            let mut why = "baseline ".to_owned();
            why.append(p.text().as_str());
            Some(suppressed_line(n, why.as_str()))
        },
        None => None,
    }
}

/// What is said of a list of findings that was written.
pub fn saved_baseline_note(path: &FilePath, n: usize) -> (r: String)
    ensures
        r@ == path@.text() + " ("@ + decimal(n as nat) + " issue"@ + plural(n as nat)
            + " captured)"@,
{
    let mut r = path.text();
    r.append(" (");
    r.append(decimal_text(n as u64).as_str());
    r.append(" issue");
    r.append(plural_of(n));
    r.append(" captured)");
    r
}

/// How numbers have changed since an earlier run.
#[derive(Debug, Clone, Copy)]
pub struct TrendDiff {
    pub total_issues: i32,
    pub unused_files: i32,
    pub unused_imports: i32,
    pub unused_deps: i32,
    pub duplicates: i32,
    pub complexity: i32,
    pub low_maintainability: i32,
    pub hotspots: i32,
    pub smells: i32,
    pub circular_deps: i32,
    pub refactor_targets: i32,
    pub feature_flags: i32,
    pub boundary_violations: i32,
}

/// A number that has changed.
#[derive(Debug)]
pub struct TrendRow {
    pub label: String,
    pub delta: i32,
}

pub open spec fn trend_views(v: Seq<TrendRow>) -> Seq<(Seq<char>, i32)> {
    v.map_values(|r: TrendRow| (r.label@, r.delta))
}

/// All numbers, with their names.
pub open spec fn all_deltas(d: TrendDiff) -> Seq<(Seq<char>, i32)> {
    seq![
        ("total issues"@, d.total_issues),
        ("unused-file"@, d.unused_files),
        ("unused-import"@, d.unused_imports),
        ("unused-dep"@, d.unused_deps),
        ("duplicate"@, d.duplicates),
        ("complexity"@, d.complexity),
        ("low-maintainability"@, d.low_maintainability),
        ("hotspot"@, d.hotspots),
        ("smell"@, d.smells),
        ("circular-dependency"@, d.circular_deps),
        ("refactor-target"@, d.refactor_targets),
        ("feature-flag"@, d.feature_flags),
        ("boundary-violation"@, d.boundary_violations),
    ]
}

/// Those numbers of a list that have changed.
pub open spec fn changed(v: Seq<(Seq<char>, i32)>) -> Seq<(Seq<char>, i32)>
    decreases v.len(),
{
    if v.len() == 0 {
        Seq::empty()
    } else {
        let before = changed(v.drop_last());
        if v.last().1 == 0 {
            before
        } else {
            before.push(v.last())
        }
    }
}

fn add_delta(rows: &mut Vec<TrendRow>, label: &str, delta: i32, Ghost(before): Ghost<Seq<(Seq<char>, i32)>>)
    requires
        trend_views(old(rows)@) == changed(before),
    ensures
        trend_views(final(rows)@) == changed(before.push((label@, delta))),
{
    assert(before.push((label@, delta)).drop_last() =~= before);
    if delta != 0 {
        let ghost was = trend_views(rows@);
        rows.push(TrendRow { label: label.to_owned(), delta });
        assert(trend_views(rows@) =~= was.push((label@, delta)));
    }
}

/// The numbers that have changed since an earlier run.
pub fn trend_rows(d: &TrendDiff) -> (r: Vec<TrendRow>)
    ensures
        trend_views(r@) == changed(all_deltas(*d)),
{
    let ghost all = all_deltas(*d);
    let mut r: Vec<TrendRow> = Vec::new();
    assert(trend_views(r@) =~= changed(Seq::empty()));
    let ghost mut s: Seq<(Seq<char>, i32)> = Seq::empty();
    add_delta(&mut r, "total issues", d.total_issues, Ghost(s));
    proof {
        s = s.push(all[0]);
    }
    add_delta(&mut r, "unused-file", d.unused_files, Ghost(s));
    proof {
        s = s.push(all[1]);
    }
    add_delta(&mut r, "unused-import", d.unused_imports, Ghost(s));
    proof {
        s = s.push(all[2]);
    }
    add_delta(&mut r, "unused-dep", d.unused_deps, Ghost(s));
    proof {
        s = s.push(all[3]);
    }
    add_delta(&mut r, "duplicate", d.duplicates, Ghost(s));
    proof {
        s = s.push(all[4]);
    }
    add_delta(&mut r, "complexity", d.complexity, Ghost(s));
    proof {
        s = s.push(all[5]);
    }
    add_delta(&mut r, "low-maintainability", d.low_maintainability, Ghost(s));
    proof {
        s = s.push(all[6]);
    }
    add_delta(&mut r, "hotspot", d.hotspots, Ghost(s));
    proof {
        s = s.push(all[7]);
    }
    add_delta(&mut r, "smell", d.smells, Ghost(s));
    proof {
        s = s.push(all[8]);
    }
    add_delta(&mut r, "circular-dependency", d.circular_deps, Ghost(s));
    proof {
        s = s.push(all[9]);
    }
    add_delta(&mut r, "refactor-target", d.refactor_targets, Ghost(s));
    proof {
        s = s.push(all[10]);
    }
    add_delta(&mut r, "feature-flag", d.feature_flags, Ghost(s));
    proof {
        s = s.push(all[11]);
    }
    add_delta(&mut r, "boundary-violation", d.boundary_violations, Ghost(s));
    proof {
        s = s.push(all[12]);
        assert(s =~= all);
    }
    r
}

/// A change of a number with its sign; none as a zero in its column.
pub open spec fn signed(delta: i32) -> Seq<char> {
    if delta < 0 {
        "-"@ + decimal((-delta) as nat)
    } else if delta > 0 {
        "+"@ + decimal(delta as nat)
    } else {
        "  0"@
    }
}

/// A change of a number with its sign.
pub fn signed_text(delta: i32) -> (r: String)
    ensures
        r@ == signed(delta),
{
    let wide: i64 = delta as i64;
    if delta < 0 {
        let mut r = "-".to_owned();
        r.append(decimal_text((-wide) as u64).as_str());
        r
    } else if delta > 0 {
        let mut r = "+".to_owned();
        r.append(decimal_text(wide as u64).as_str());
        r
    } else {
        "  0".to_owned()
    }
}

/// An owner, and how many findings are theirs.
#[derive(Debug)]
pub struct OwnerCount {
    pub owner: String,
    pub count: usize,
}

pub open spec fn owner_views(v: Seq<OwnerCount>) -> Seq<(Seq<char>, usize)> {
    v.map_values(|o: OwnerCount| (o.owner@, o.count))
}

/// A list from the most findings to the fewest, with one more owner behind those
/// with as many.
pub open spec fn insert_owner(v: Seq<(Seq<char>, usize)>, x: (Seq<char>, usize)) -> Seq<
    (Seq<char>, usize),
>
    decreases v.len(),
{
    if v.len() == 0 || v.last().1 >= x.1 {
        v.push(x)
    } else {
        insert_owner(v.drop_last(), x).push(v.last())
    }
}

/// The owners from the one with the most findings to the one with the fewest;
/// those with as many in their order.
pub open spec fn by_count(v: Seq<(Seq<char>, usize)>) -> Seq<(Seq<char>, usize)>
    decreases v.len(),
{
    if v.len() == 0 {
        Seq::empty()
    } else {
        insert_owner(by_count(v.drop_last()), v.last())
    }
}

fn insert_one(r: &mut Vec<OwnerCount>, x: OwnerCount)
    ensures
        owner_views(final(r)@) == insert_owner(owner_views(old(r)@), (x.owner@, x.count)),
{
    let ghost s = owner_views(r@);
    let ghost one = (x.owner@, x.count);
    let mut i: usize = r.len();
    assert(s.take(i as int) =~= s);
    assert(insert_owner(s, one) =~= insert_owner(s.take(i as int), one) + s.skip(i as int));
    while i > 0 && r[i - 1].count < x.count
        invariant
            i <= r@.len(),
            s == owner_views(r@),
            one == (x.owner@, x.count),
            insert_owner(s, one) == insert_owner(s.take(i as int), one) + s.skip(i as int),
        decreases i,
    {
        proof {
            let t = s.take(i as int);
            assert(t.last() == (r@[i - 1].owner@, r@[i - 1].count));
            assert(t.drop_last() =~= s.take(i - 1));
            assert(insert_owner(s.take(i - 1), one) + s.skip(i - 1) =~= insert_owner(t, one)
                + s.skip(i as int));
        }
        i -= 1;
    }
    proof {
        let t = s.take(i as int);
        if i > 0 {
            assert(t.last() == (r@[i - 1].owner@, r@[i - 1].count));
        }
        assert(t.push(one) + s.skip(i as int) =~= s.insert(i as int, one));
    }
    r.insert(i, x);
    assert(owner_views(r@) =~= s.insert(i as int, one));
}

/// The owners from the one with the most findings to the one with the fewest.
pub fn sort_owners(v: &Vec<OwnerCount>) -> (r: Vec<OwnerCount>)
    ensures
        owner_views(r@) == by_count(owner_views(v@)),
{
    let ghost all = owner_views(v@);
    let mut r: Vec<OwnerCount> = Vec::new();
    let mut i: usize = 0;
    assert(owner_views(r@) =~= by_count(all.take(0)));
    while i < v.len()
        invariant
            i <= v@.len(),
            all == owner_views(v@),
            owner_views(r@) == by_count(all.take(i as int)),
        decreases v@.len() - i,
    {
        proof {
            assert(all.take(i + 1).drop_last() =~= all.take(i as int));
            assert(all.take(i + 1).last() == (v@[i as int].owner@, v@[i as int].count));
        }
        insert_one(&mut r, OwnerCount { owner: v[i].owner.clone(), count: v[i].count });
        i += 1;
    }
    assert(all.take(i as int) =~= all);
    r
}

/// A text with spaces before it, so that it is at least `width` long.
pub open spec fn padded(s: Seq<char>, width: nat) -> Seq<char>
    decreases width - s.len(),
{
    if s.len() >= width {
        s
    } else {
        padded(seq![' '] + s, width)
    }
}

/// A number with spaces before it, so that it takes at least four places.
pub fn count_column(n: usize) -> (r: String)
    ensures
        r@ == padded(decimal(n as nat), 4),
{
    let digits = decimal_text(n as u64);
    let mut spaces = String::new();
    let mut len: usize = crate::text::chars_of(digits.as_str()).len();
    let ghost mut s = digits@;
    assert(spaces@ + digits@ =~= s);
    while len < 4
        invariant
            len == s.len(),
            s == spaces@ + digits@,
            padded(digits@, 4) == padded(s, 4),
            forall|i: int| 0 <= i < spaces@.len() ==> spaces@[i] == ' ',
        decreases 4 - len,
    {
        let ghost was = spaces@;
        spaces.append(" ");
        proof {
            reveal_strlit(" ");
            assert(" "@ =~= seq![' ']);
            assert(spaces@ =~= seq![' '] + was);
            s = seq![' '] + s;
            assert(spaces@ + digits@ =~= s);
        }
        len += 1;
    }
    spaces.append(digits.as_str());
    spaces
}

/// The owners are listed from the most findings to the fewest, and each as often as
/// before: none is added and none is dropped.
pub proof fn owners_are_ranked(v: Seq<(Seq<char>, usize)>)
    ensures
        forall|i: int, j: int|
            0 <= i <= j < by_count(v).len() ==> (#[trigger] by_count(v)[i]).1 >= (
            #[trigger] by_count(v)[j]).1,
        by_count(v).to_multiset() == v.to_multiset(),
    decreases v.len(),
{
    broadcast use vstd::seq_lib::group_to_multiset_ensures;

    if v.len() > 0 {
        owners_are_ranked(v.drop_last());
        lemma_insert_owner(by_count(v.drop_last()), v.last());
        assert(v =~= v.drop_last().push(v.last()));
        assert(v.to_multiset() =~= v.drop_last().to_multiset().insert(v.last()));
    } else {
        assert(by_count(v) =~= v);
    }
}

proof fn lemma_insert_owner(s: Seq<(Seq<char>, usize)>, x: (Seq<char>, usize))
    requires
        forall|i: int, j: int|
            0 <= i <= j < s.len() ==> (#[trigger] s[i]).1 >= (#[trigger] s[j]).1,
    ensures
        forall|i: int, j: int|
            0 <= i <= j < insert_owner(s, x).len() ==> (#[trigger] insert_owner(s, x)[i]).1 >= (
            #[trigger] insert_owner(s, x)[j]).1,
        insert_owner(s, x).to_multiset() == s.to_multiset().insert(x),
        forall|i: int|
            0 <= i < insert_owner(s, x).len() ==> (#[trigger] insert_owner(s, x)[i]) == x
                || s.contains(insert_owner(s, x)[i]),
    decreases s.len(),
{
    broadcast use vstd::seq_lib::group_to_multiset_ensures;

    let r = insert_owner(s, x);
    if s.len() == 0 || s.last().1 >= x.1 {
        assert forall|i: int, j: int| 0 <= i <= j < r.len() implies (#[trigger] r[i]).1 >= (
        #[trigger] r[j]).1 by {
            if i < s.len() {
                assert(r[i] == s[i]);
                assert(s[i].1 >= s[s.len() - 1].1);
                if j < s.len() {
                    assert(r[j] == s[j]);
                }
            }
        }
        assert forall|i: int| 0 <= i < r.len() implies (#[trigger] r[i]) == x || s.contains(
            r[i],
        ) by {
            if i < s.len() {
                assert(s[i] == r[i]);
            }
        }
    } else {
        let rest = s.drop_last();
        let f = insert_owner(rest, x);
        assert forall|i: int, j: int| 0 <= i <= j < rest.len() implies (#[trigger] rest[i]).1 >= (
        #[trigger] rest[j]).1 by {
            assert(s[i].1 >= s[j].1);
        }
        lemma_insert_owner(rest, x);
        assert forall|i: int| 0 <= i < f.len() implies (#[trigger] f[i]).1 >= s.last().1 by {
            if f[i] != x {
                let k = choose|k: int| 0 <= k < rest.len() && rest[k] == f[i];
                assert(s[k].1 >= s[s.len() - 1].1);
            }
        }
        assert forall|i: int, j: int| 0 <= i <= j < r.len() implies (#[trigger] r[i]).1 >= (
        #[trigger] r[j]).1 by {
            if j < f.len() {
                assert(r[i] == f[i] && r[j] == f[j]);
            } else if i < f.len() {
                assert(r[i] == f[i]);
            }
        }
        assert forall|i: int| 0 <= i < r.len() implies (#[trigger] r[i]) == x || s.contains(
            r[i],
        ) by {
            if i < f.len() {
                assert(r[i] == f[i]);
                if f[i] != x {
                    let k = choose|k: int| 0 <= k < rest.len() && rest[k] == f[i];
                    assert(s[k] == r[i]);
                }
            } else {
                assert(s[s.len() - 1] == r[i]);
            }
        }
        assert(s =~= rest.push(s.last()));
        assert(s.to_multiset() =~= rest.to_multiset().insert(s.last()));
        assert(r.to_multiset() =~= s.to_multiset().insert(x));
    }
}

/// A trend shows exactly the numbers that are not zero, in their order.
pub proof fn trends_show_what_has_changed(v: Seq<(Seq<char>, i32)>)
    ensures
        changed(v) == v.filter(|row: (Seq<char>, i32)| row.1 != 0),
    decreases v.len(),
{
    reveal(Seq::filter);
    if v.len() > 0 {
        trends_show_what_has_changed(v.drop_last());
    }
}

/// Each number of a trend goes by the rule that it counts the findings of.
pub proof fn trends_go_by_the_rules(d: TrendDiff, issue: IssueView)
    ensures
        issue is UnusedFile ==> all_deltas(d).contains((issue.rule_key(), d.unused_files)),
        issue is UnusedImport ==> all_deltas(d).contains((issue.rule_key(), d.unused_imports)),
        issue is UnusedDep ==> all_deltas(d).contains((issue.rule_key(), d.unused_deps)),
        issue is Duplicate ==> all_deltas(d).contains((issue.rule_key(), d.duplicates)),
        issue is Complexity ==> all_deltas(d).contains((issue.rule_key(), d.complexity)),
        issue is LowMaintainability ==> all_deltas(d).contains(
            (issue.rule_key(), d.low_maintainability),
        ),
        issue is Hotspot ==> all_deltas(d).contains((issue.rule_key(), d.hotspots)),
        issue is CircularDependency ==> all_deltas(d).contains((issue.rule_key(), d.circular_deps)),
        issue is RefactorTarget ==> all_deltas(d).contains((issue.rule_key(), d.refactor_targets)),
        issue is FeatureFlag ==> all_deltas(d).contains((issue.rule_key(), d.feature_flags)),
        issue is BoundaryViolation ==> all_deltas(d).contains(
            (issue.rule_key(), d.boundary_violations),
        ),
{
    let all = all_deltas(d);
    assert(all[1] == ("unused-file"@, d.unused_files));
    assert(all[2] == ("unused-import"@, d.unused_imports));
    assert(all[3] == ("unused-dep"@, d.unused_deps));
    assert(all[4] == ("duplicate"@, d.duplicates));
    assert(all[5] == ("complexity"@, d.complexity));
    assert(all[6] == ("low-maintainability"@, d.low_maintainability));
    assert(all[7] == ("hotspot"@, d.hotspots));
    assert(all[9] == ("circular-dependency"@, d.circular_deps));
    assert(all[10] == ("refactor-target"@, d.refactor_targets));
    assert(all[11] == ("feature-flag"@, d.feature_flags));
    assert(all[12] == ("boundary-violation"@, d.boundary_violations));
}

/// A change of a number shows which way it goes and how far: more findings with a
/// plus sign, fewer with a minus sign, and behind the sign what reads as the
/// difference.
pub proof fn signs_show_the_direction(delta: i32)
    requires
        delta != 0,
    ensures
        signed(delta)[0] == (if delta > 0 {
            '+'
        } else {
            '-'
        }),
        number_in(signed(delta).skip(1)) == Some(
            (if delta > 0 {
                delta as int
            } else {
                -delta
            }) as u32,
        ),
{
    reveal_strlit("+");
    reveal_strlit("-");
    let n = (if delta > 0 {
        delta as int
    } else {
        -delta
    }) as nat;
    decimals_read_back(n);
    assert(signed(delta).skip(1) =~= decimal(n));
}

/// Numbers in a column end in one line: at least `width` wide, the text last, and
/// nothing but spaces before it; a text that is wide enough stays as it is.
pub proof fn columns_end_in_one_line(s: Seq<char>, width: nat)
    ensures
        padded(s, width).len() == (if s.len() >= width {
            s.len()
        } else {
            width
        }),
        padded(s, width).skip(padded(s, width).len() - s.len()) == s,
        forall|i: int|
            0 <= i < padded(s, width).len() - s.len() ==> #[trigger] padded(s, width)[i] == ' ',
    decreases width - s.len(),
{
    let p = padded(s, width);
    if s.len() >= width {
        assert(s.skip(0) =~= s);
    } else {
        let t = seq![' '] + s;
        columns_end_in_one_line(t, width);
        let n = p.len() - s.len();
        assert(p.skip(n) =~= s) by {
            assert(p.skip(n - 1) == t);
            assert forall|i: int| 0 <= i < s.len() implies p.skip(n)[i] == s[i] by {
                assert(p.skip(n - 1)[i + 1] == t[i + 1]);
            }
        }
        assert forall|i: int| 0 <= i < n implies #[trigger] p[i] == ' ' by {
            if i == n - 1 {
                assert(p.skip(n - 1)[0] == t[0]);
            }
        }
    }
}

/// A run without an allowance fails exactly where an audit does: with a finding, or
/// with numbers that differ from those agreed on, and never otherwise.
pub proof fn runs_fail_as_audits_do(found: nat, counts_differ: bool)
    ensures
        run_fails(found, counts_differ) <==> verdict_on(found, 0, counts_differ) == Verdict::Fail,
        !run_fails(0, false),
{
}

} // verus!
