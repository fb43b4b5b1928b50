//! APIs that a project prohibits.
use crate::config::error::{BannedProblem, ConfigError, ConfigErrorView};
use crate::text::{
    chars_of, is_ascii_digit, is_ascii_lower, is_ascii_upper, join, lemma_split_concat,
    lemma_split_join, lemma_split_single, one_of, same, split, split_on, str_views, trim, trimmed,
    views,
};
use crate::types::{BannedApi, SmellRule};
use vstd::prelude::*;

verus! {

/// The keys of findings that are not code smells.
pub const FINDING_RULES: [&'static str; 12] = [
    "unused-file",
    "unused-import",
    "unused-dep",
    "duplicate",
    "complexity",
    "low-maintainability",
    "hotspot",
    "circular-dependency",
    "refactor-target",
    "feature-flag",
    "parse-error",
    "boundary-violation",
];

#[verifier::ext_equal]
pub struct BannedView {
    pub id: Seq<char>,
    pub path: Seq<char>,
    pub message: Seq<char>,
}

pub open spec fn banned_view(b: BannedApi) -> BannedView {
    BannedView { id: b.id@, path: b.path@, message: b.message@ }
}

pub open spec fn banned_views(v: Seq<BannedApi>) -> Seq<BannedView> {
    v.map_values(|b: BannedApi| banned_view(b))
}

/// Whether a rule has the name.
pub open spec fn names_a_rule(name: Seq<char>) -> bool {
    exists|rule: SmellRule| #[trigger] rule.key() == name
}

/// Whether findings that are built in have the key.
pub open spec fn is_builtin_rule(name: Seq<char>) -> bool {
    names_a_rule(name) || str_views(FINDING_RULES@).contains(name)
}

pub open spec fn starts_a_name(c: char) -> bool {
    is_ascii_lower(c) || is_ascii_upper(c) || c == '_' || c as u32 >= 128
}

/// Whether a text can be a Python name, as far as its ASCII characters tell.
pub open spec fn is_name(s: Seq<char>) -> bool {
    &&& s.len() > 0
    &&& starts_a_name(s[0])
    &&& forall|i: int| 0 <= i < s.len() ==> starts_a_name(#[trigger] s[i]) || is_ascii_digit(s[i])
}

/// Whether a text is a dotted name: names with dots between them, and at least
/// one dot.
pub open spec fn is_dotted_name(s: Seq<char>) -> bool {
    let parts = split_on(s, '.');
    &&& parts.len() >= 2
    &&& forall|i: int| 0 <= i < parts.len() ==> is_name(#[trigger] parts[i])
}

/// Whether an entry before place `n` has the id.
pub open spec fn id_taken(entries: Seq<BannedView>, id: Seq<char>, n: int) -> bool {
    exists|i: int| 0 <= i < n && (#[trigger] entries[i]).id == id
}

/// What is wrong with the entry at place `n`.
pub open spec fn banned_problem(entries: Seq<BannedView>, n: int) -> Option<BannedProblem> {
    if id_taken(entries, entries[n].id, n) {
        Some(BannedProblem::DuplicateId)
    } else if is_builtin_rule(entries[n].id) {
        Some(BannedProblem::ShadowsRule)
    } else if !is_dotted_name(entries[n].path) {
        Some(BannedProblem::MalformedPath)
    } else if trim(entries[n].message).len() == 0 {
        Some(BannedProblem::EmptyMessage)
    } else {
        None
    }
}

/// What is wrong with the first bad one of the first `n` entries.
pub open spec fn banned_error(entries: Seq<BannedView>, n: int) -> Option<ConfigErrorView>
    decreases n,
{
    if n <= 0 {
        None
    } else {
        match banned_error(entries, n - 1) {
            Some(e) => Some(e),
            None => match banned_problem(entries, n - 1) {
                Some(problem) => Some(
                    ConfigErrorView::InvalidBannedApi { id: entries[n - 1].id, problem },
                ),
                None => None,
            },
        }
    }
}

fn name_start(c: char) -> (r: bool)
    ensures
        r == starts_a_name(c),
{
    ('a' <= c && c <= 'z') || ('A' <= c && c <= 'Z') || c == '_' || c as u32 >= 128
}

fn python_name(s: &str) -> (r: bool)
    ensures
        r == is_name(s@),
{
    let v = chars_of(s);
    if v.len() == 0 || !name_start(v[0]) {
        return false;
    }
    let mut i: usize = 0;
    while i < v.len()
        invariant
            i <= v@.len(),
            v@ == s@,
            forall|j: int|
                0 <= j < i ==> starts_a_name(#[trigger] v@[j]) || is_ascii_digit(v@[j]),
        decreases v@.len() - i,
    {
        if !name_start(v[i]) && !('0' <= v[i] && v[i] <= '9') {
            assert(!starts_a_name(v@[i as int]) && !is_ascii_digit(v@[i as int]));
            return false;
        }
        i += 1;
    }
    true
}

fn dotted_name(s: &str) -> (r: bool)
    ensures
        r == is_dotted_name(s@),
{
    let parts = split(s, '.');
    let ghost all = split_on(s@, '.');
    assert(views(parts@).len() == parts@.len());
    if parts.len() < 2 {
        return false;
    }
    let mut i: usize = 0;
    while i < parts.len()
        invariant
            i <= parts@.len(),
            all == views(parts@),
            all == split_on(s@, '.'),
            forall|j: int| 0 <= j < i ==> is_name(#[trigger] all[j]),
        decreases parts@.len() - i,
    {
        assert(all[i as int] == parts@[i as int]@);
        if !python_name(parts[i].as_str()) {
            return false;
        }
        i += 1;
    }
    true
}

fn builtin_rule(name: &str) -> (r: bool)
    ensures
        r == is_builtin_rule(name@),
{
    match SmellRule::parse(name) {
        Ok(rule) => {
            assert(names_a_rule(rule.key()));
            true
        },
        Err(_) => one_of(name, &FINDING_RULES),
    }
}

fn taken(entries: &Vec<BannedApi>, n: usize) -> (r: bool)
    requires
        n < entries@.len(),
    ensures
        r == id_taken(banned_views(entries@), entries@[n as int].id@, n as int),
{
    let ghost all = banned_views(entries@);
    let mut i: usize = 0;
    while i < n
        invariant
            i <= n < entries@.len(),
            all == banned_views(entries@),
            forall|j: int| 0 <= j < i ==> (#[trigger] all[j]).id != entries@[n as int].id@,
        decreases n - i,
    {
        assert(all[i as int].id == entries@[i as int].id@);
        if same(entries[i].id.as_str(), entries[n].id.as_str()) {
            return true;
        }
        i += 1;
    }
    false
}

fn problem_at(entries: &Vec<BannedApi>, n: usize) -> (r: Option<BannedProblem>)
    requires
        n < entries@.len(),
    ensures
        r == banned_problem(banned_views(entries@), n as int),
{
    if taken(entries, n) {
        Some(BannedProblem::DuplicateId)
    } else if builtin_rule(entries[n].id.as_str()) {
        Some(BannedProblem::ShadowsRule)
    } else if !dotted_name(entries[n].path.as_str()) {
        Some(BannedProblem::MalformedPath)
    } else {
        let t = trimmed(entries[n].message.as_str());
        proof {
            reveal_strlit("");
            assert((t@ == ""@) == (t@.len() == 0)) by {
                if t@.len() == 0 {
                    assert(t@ =~= ""@);
                }
            }
        }
        if same(t.as_str(), "") {
            Some(BannedProblem::EmptyMessage)
        } else {
            None
        }
    }
}

proof fn lemma_error_stays(entries: Seq<BannedView>, n: int, m: int)
    requires
        n <= m,
        banned_error(entries, n) is Some,
    ensures
        banned_error(entries, m) == banned_error(entries, n),
    decreases m - n,
{
    if n < m {
        lemma_error_stays(entries, n, m - 1);
    }
}

/// Checks the prohibited APIs of a project: no id stands twice or is that of a
/// built-in rule, every path is a dotted name, and every entry says something.
pub fn check_banned(entries: &Vec<BannedApi>) -> (r: Result<(), ConfigError>)
    ensures
        match r {
            Ok(_) => banned_error(banned_views(entries@), entries@.len() as int) is None,
            Err(e) => banned_error(banned_views(entries@), entries@.len() as int) == Some(e@),
        },
{
    let mut i: usize = 0;
    while i < entries.len()
        invariant
            i <= entries@.len(),
            banned_error(banned_views(entries@), i as int) is None,
        decreases entries@.len() - i,
    {
        if let Some(problem) = problem_at(entries, i) {
            proof {
                lemma_error_stays(banned_views(entries@), i + 1, entries@.len() as int);
            }
            return Err(ConfigError::InvalidBannedApi { id: entries[i].id.clone(), problem });
        }
        i += 1;
    }
    Ok(())
}

/// No two prohibited APIs of accepted settings have the same id.
pub proof fn accepted_ids_are_distinct(entries: Seq<BannedView>, n: int, i: int, j: int)
    requires
        banned_error(entries, n) is None,
        0 <= i < j < n <= entries.len(),
    ensures
        entries[i].id != entries[j].id,
    decreases n,
{
    if j < n - 1 {
        accepted_ids_are_distinct(entries, n - 1, i, j);
    } else {
        assert(banned_problem(entries, j) is None);
        assert(!id_taken(entries, entries[j].id, j));
    }
}

/// A prohibited API of accepted settings has an id of its own, a dotted name
/// and something to say.
pub proof fn accepted_entries_are_complete(entries: Seq<BannedView>, n: int, i: int)
    requires
        banned_error(entries, n) is None,
        0 <= i < n <= entries.len(),
    ensures
        !is_builtin_rule(entries[i].id),
        is_dotted_name(entries[i].path),
        trim(entries[i].message).len() > 0,
    decreases n,
{
    if i < n - 1 {
        accepted_entries_are_complete(entries, n - 1, i);
    } else {
        assert(banned_problem(entries, i) is None);
    }
}

/// Entries are accepted if each has an id that no other entry and no built-in rule
/// has, a dotted name, and something to say.
pub proof fn complete_entries_are_accepted(entries: Seq<BannedView>, n: int)
    requires
        0 <= n <= entries.len(),
        forall|i: int, j: int|
            0 <= i < j < n ==> (#[trigger] entries[i]).id != (#[trigger] entries[j]).id,
        forall|i: int|
            0 <= i < n ==> !is_builtin_rule((#[trigger] entries[i]).id) && is_dotted_name(
                entries[i].path,
            ) && trim(entries[i].message).len() > 0,
    ensures
        banned_error(entries, n) is None,
    decreases n,
{
    if n > 0 {
        complete_entries_are_accepted(entries, n - 1);
        if id_taken(entries, entries[n - 1].id, n - 1) {
            let i = choose|i: int| 0 <= i < n - 1 && (#[trigger] entries[i]).id == entries[n - 1].id;
            assert(entries[i].id != entries[n - 1].id);
        }
    }
}

/// Names with dots between them make a dotted name; a name alone does not, and
/// neither does one with nothing before or behind a dot.
pub proof fn dotted_names_have_dots(parts: Seq<Seq<char>>, name: Seq<char>)
    requires
        parts.len() >= 2,
        forall|i: int| 0 <= i < parts.len() ==> is_name(#[trigger] parts[i]),
        !name.contains('.'),
    ensures
        is_dotted_name(join(parts, seq!['.'])),
        !is_dotted_name(name),
        !is_dotted_name(name.push('.')),
        !is_dotted_name(seq!['.'] + name),
{
    assert forall|i: int| 0 <= i < parts.len() implies !(#[trigger] parts[i]).contains('.') by {
        if parts[i].contains('.') {
            let k = choose|k: int| 0 <= k < parts[i].len() && parts[i][k] == '.';
            assert(starts_a_name(parts[i][k]) || is_ascii_digit(parts[i][k]));
        }
    }
    lemma_split_join(parts, '.');
    lemma_split_single(name, '.');
    let e = Seq::<char>::empty();
    lemma_split_single(e, '.');
    lemma_split_concat(name, e, '.');
    assert(name.push('.') + e =~= name.push('.'));
    lemma_split_concat(e, name, '.');
    assert(e.push('.') + name =~= seq!['.'] + name);
    let a = split_on(name.push('.'), '.');
    let b = split_on(seq!['.'] + name, '.');
    assert(a[1] == e);
    assert(b[0] == e);
    assert(!is_name(a[1]));
    assert(!is_name(b[0]));
}

} // verus!
