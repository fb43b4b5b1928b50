//! The vocabulary of the analyzer: files, imports, entry points, rules.
use crate::collections::{id_set_contains, id_set_insert, id_set_new, id_set_remove};
use crate::path::FilePath;
use crate::text::{ascii_lowercase, lowercase_ascii, same};
use rustc_hash::{FxHashMap, FxHashSet};
use vstd::prelude::*;

verus! {

/// The number of a file in a registry.
#[derive(Debug, Clone, Copy, PartialEq, Eq, Structural, Hash)]
pub struct FileId(pub u32);

/// A registered file.
#[derive(Debug)]
pub struct ModuleNode {
    pub id: FileId,
    pub path: FilePath,
    pub kind: ModuleKind,
}

#[derive(Debug, Clone, Copy, PartialEq, Eq, Structural)]
pub enum ModuleKind {
    Module,
    PackageInit,
    NamespacePackage,
}

/// One import, as written.
#[derive(Debug)]
pub struct ImportSpecifier {
    pub raw: String,
    pub kind: ImportKind,
    /// In a branch that may not run: a `TYPE_CHECKING` block, a `try` body
    /// whose failed import is handled, or any `except` handler body.
    pub is_conditional: bool,
    /// Never runs: only imports below `if TYPE_CHECKING:`. Such an import does
    /// not keep a module alive, while one in a `try` does.
    pub is_type_only: bool,
    /// The line of the import statement, counted from 1; 0 if it is not known.
    pub line: u32,
}

/// What an import says.
pub struct ImportView {
    pub raw: Seq<char>,
    pub kind: ImportKind,
    pub is_conditional: bool,
    pub is_type_only: bool,
    pub line: u32,
}

impl View for ImportSpecifier {
    type V = ImportView;

    open spec fn view(&self) -> ImportView {
        ImportView {
            raw: self.raw@,
            kind: self.kind,
            is_conditional: self.is_conditional,
            is_type_only: self.is_type_only,
            line: self.line,
        }
    }
}

/// What a list of imports says.
pub open spec fn import_views(v: Seq<ImportSpecifier>) -> Seq<ImportView> {
    v.map_values(|i: ImportSpecifier| i@)
}

impl Clone for ImportSpecifier {
    fn clone(&self) -> (r: ImportSpecifier)
        ensures
            r == *self,
    {
        ImportSpecifier {
            raw: self.raw.clone(),
            kind: self.kind,
            is_conditional: self.is_conditional,
            is_type_only: self.is_type_only,
            line: self.line,
        }
    }
}

#[derive(Debug, Clone, Copy, PartialEq, Eq, Structural)]
pub enum ImportKind {
    Absolute,
    Relative { level: u32 },
    DynamicLiteral,
    DynamicOpaque,
}

/// An import that was resolved to a registered file.
#[derive(Debug)]
pub struct Edge {
    pub from: FileId,
    pub to: FileId,
    pub specifier: ImportSpecifier,
}

/// A file that is in use without being imported.
#[derive(Debug)]
pub struct EntryPoint {
    pub file: FileId,
    pub source: EntryPointSource,
}

/// Why a file is an entry point.
#[derive(Debug)]
pub enum EntryPointSource {
    Config,
    Plugin(String),
    ScriptEntryPoint,
    /// The module defines `__getattr__` at top level, so importers may use
    /// names that no reading of it shows.
    ModuleGetattr,
    /// Declared in `pyproject.toml`; the text names the table.
    PyprojectEntryPoint(String),
    /// The top-level `__init__.py` of the library itself.
    LibraryPublicApi,
}

/// An API that a project prohibits. The id becomes the key of its findings.
#[derive(Debug)]
pub struct BannedApi {
    pub id: String,
    /// Dotted name, such as `typing.cast`.
    pub path: String,
    pub message: String,
}

/// Where a feature flag is read from.
#[derive(Debug, Clone, Copy, PartialEq, Eq, Structural, Hash)]
pub enum FlagProvider {
    EnvVar,
    DjangoSettings,
    LaunchDarkly,
    Statsig,
    Unleash,
    GrowthBook,
}

impl FlagProvider {
    pub open spec fn key(self) -> Seq<char> {
        match self {
            FlagProvider::EnvVar => "env-var"@,
            FlagProvider::DjangoSettings => "django-settings"@,
            FlagProvider::LaunchDarkly => "launchdarkly"@,
            FlagProvider::Statsig => "statsig"@,
            FlagProvider::Unleash => "unleash"@,
            FlagProvider::GrowthBook => "growthbook"@,
        }
    }

    pub fn as_str(&self) -> (r: &'static str)
        ensures
            r@ == self.key(),
    {
        match self {
            FlagProvider::EnvVar => "env-var",
            FlagProvider::DjangoSettings => "django-settings",
            FlagProvider::LaunchDarkly => "launchdarkly",
            FlagProvider::Statsig => "statsig",
            FlagProvider::Unleash => "unleash",
            FlagProvider::GrowthBook => "growthbook",
        }
    }
}

/// How much work a refactoring is thought to be.
#[derive(Debug, Clone, Copy, PartialEq, Eq, Structural, Hash)]
pub enum Effort {
    Low,
    Medium,
    High,
}

/// The effort that a word names, in any mix of ASCII cases.
pub open spec fn effort_named(word: Seq<char>) -> Option<Effort> {
    let w = ascii_lowercase(word);
    if w == "low"@ {
        Some(Effort::Low)
    } else if w == "medium"@ || w == "med"@ {
        Some(Effort::Medium)
    } else if w == "high"@ {
        Some(Effort::High)
    } else {
        None
    }
}

impl Effort {
    pub open spec fn key(self) -> Seq<char> {
        match self {
            Effort::Low => "low"@,
            Effort::Medium => "medium"@,
            Effort::High => "high"@,
        }
    }

    pub fn as_str(&self) -> (r: &'static str)
        ensures
            r@ == self.key(),
    {
        match self {
            Effort::Low => "low",
            Effort::Medium => "medium",
            Effort::High => "high",
        }
    }

    /// The effort that a word names.
    pub fn parse(s: &str) -> (r: Result<Effort, String>)
        ensures
            match r {
                Ok(e) => effort_named(s@) == Some(e),
                Err(m) => effort_named(s@) is None && m@ == "unknown effort: "@ + s@
                    + " (expected low|medium|high)"@,
            },
    {
        let w = lowercase_ascii(s);
        proof {
            lemma_effort_words();
        }
        if same(w.as_str(), "low") {
            Ok(Effort::Low)
        } else if same(w.as_str(), "medium") || same(w.as_str(), "med") {
            Ok(Effort::Medium)
        } else if same(w.as_str(), "high") {
            Ok(Effort::High)
        } else {
            let mut m = "unknown effort: ".to_owned();
            m.append(s);
            m.append(" (expected low|medium|high)");
            Err(m)
        }
    }
}

proof fn lemma_effort_words()
    ensures
        "low"@ != "medium"@,
        "low"@ != "med"@,
        "low"@ != "high"@,
        "medium"@ != "high"@,
        "med"@ != "high"@,
{
    reveal_strlit("low");
    reveal_strlit("medium");
    reveal_strlit("med");
    reveal_strlit("high");
    assert("low"@.len() == 3 && "medium"@.len() == 6 && "med"@.len() == 3 && "high"@.len() == 4);
    assert("low"@[0] != "med"@[0]);
}

impl std::str::FromStr for Effort {
    type Err = String;

    fn from_str(s: &str) -> (r: Result<Effort, String>)
        ensures
            match r {
                Ok(e) => effort_named(s@) == Some(e),
                Err(m) => effort_named(s@) is None && m@ == "unknown effort: "@ + s@
                    + " (expected low|medium|high)"@,
            },
    {
        Effort::parse(s)
    }
}

/// The name of each effort names it.
pub proof fn effort_names_round_trip(e: Effort)
    ensures
        effort_named(e.key()) == Some(e),
{
    reveal_strlit("low");
    reveal_strlit("medium");
    reveal_strlit("med");
    reveal_strlit("high");
    lemma_effort_words();
    assert(ascii_lowercase("low"@) =~= "low"@);
    assert(ascii_lowercase("medium"@) =~= "medium"@);
    assert(ascii_lowercase("high"@) =~= "high"@);
}

/// The built-in smell rules.
#[derive(Debug, Clone, Copy, PartialEq, Eq, Structural, Hash)]
pub enum SmellRule {
    MutableDefault,
    BroadExcept,
    SentinelEquality,
    TruthyLengthCheck,
    UnreachableAfterExit,
    PassthroughFunction,
    StrayPrint,
    SingleMethodClass,
    HighTodoDensity,
    RaiseFromNone,
    MoneyAsFloat,
    /// Turns the prohibited APIs on. Off by default; single findings go by
    /// the id that the project gave, not by this name.
    BannedApi,
    /// `typing.Any` written in an annotation. Off by default.
    NoExplicitAny,
}

/// All rules, in the order in which they are listed.
pub open spec fn all_rules() -> Seq<SmellRule> {
    seq![
        SmellRule::MutableDefault,
        SmellRule::BroadExcept,
        SmellRule::SentinelEquality,
        SmellRule::TruthyLengthCheck,
        SmellRule::UnreachableAfterExit,
        SmellRule::PassthroughFunction,
        SmellRule::StrayPrint,
        SmellRule::SingleMethodClass,
        SmellRule::HighTodoDensity,
        SmellRule::RaiseFromNone,
        SmellRule::MoneyAsFloat,
        SmellRule::BannedApi,
        SmellRule::NoExplicitAny,
    ]
}

impl SmellRule {
    /// The stable name of the rule.
    pub open spec fn key(self) -> Seq<char> {
        match self {
            SmellRule::MutableDefault => "mutable-default"@,
            SmellRule::BroadExcept => "broad-except"@,
            SmellRule::SentinelEquality => "sentinel-equality"@,
            SmellRule::TruthyLengthCheck => "truthy-length-check"@,
            SmellRule::UnreachableAfterExit => "unreachable-after-exit"@,
            SmellRule::PassthroughFunction => "passthrough-function"@,
            SmellRule::StrayPrint => "stray-print"@,
            SmellRule::SingleMethodClass => "single-method-class"@,
            SmellRule::HighTodoDensity => "high-todo-density"@,
            SmellRule::RaiseFromNone => "raise-from-none"@,
            SmellRule::MoneyAsFloat => "money-as-float"@,
            SmellRule::BannedApi => "banned-api"@,
            SmellRule::NoExplicitAny => "no-explicit-any"@,
        }
    }

    /// Whether the rule runs without being asked for.
    pub open spec fn on_by_default(self) -> bool {
        self != SmellRule::BannedApi && self != SmellRule::NoExplicitAny
    }

    /// The place of the rule in the list of all rules.
    pub open spec fn place(self) -> u32 {
        match self {
            SmellRule::MutableDefault => 0,
            SmellRule::BroadExcept => 1,
            SmellRule::SentinelEquality => 2,
            SmellRule::TruthyLengthCheck => 3,
            SmellRule::UnreachableAfterExit => 4,
            SmellRule::PassthroughFunction => 5,
            SmellRule::StrayPrint => 6,
            SmellRule::SingleMethodClass => 7,
            SmellRule::HighTodoDensity => 8,
            SmellRule::RaiseFromNone => 9,
            SmellRule::MoneyAsFloat => 10,
            SmellRule::BannedApi => 11,
            SmellRule::NoExplicitAny => 12,
        }
    }

    pub fn as_str(&self) -> (r: &'static str)
        ensures
            r@ == self.key(),
    {
        match self {
            SmellRule::MutableDefault => "mutable-default",
            SmellRule::BroadExcept => "broad-except",
            SmellRule::SentinelEquality => "sentinel-equality",
            SmellRule::TruthyLengthCheck => "truthy-length-check",
            SmellRule::UnreachableAfterExit => "unreachable-after-exit",
            SmellRule::PassthroughFunction => "passthrough-function",
            SmellRule::StrayPrint => "stray-print",
            SmellRule::SingleMethodClass => "single-method-class",
            SmellRule::HighTodoDensity => "high-todo-density",
            SmellRule::RaiseFromNone => "raise-from-none",
            SmellRule::MoneyAsFloat => "money-as-float",
            SmellRule::BannedApi => "banned-api",
            SmellRule::NoExplicitAny => "no-explicit-any",
        }
    }

    /// All rules.
    pub fn all() -> (r: Vec<SmellRule>)
        ensures
            r@ == all_rules(),
    {
        let r: Vec<SmellRule> = vec![
            SmellRule::MutableDefault,
            SmellRule::BroadExcept,
            SmellRule::SentinelEquality,
            SmellRule::TruthyLengthCheck,
            SmellRule::UnreachableAfterExit,
            SmellRule::PassthroughFunction,
            SmellRule::StrayPrint,
            SmellRule::SingleMethodClass,
            SmellRule::HighTodoDensity,
            SmellRule::RaiseFromNone,
            SmellRule::MoneyAsFloat,
            SmellRule::BannedApi,
            SmellRule::NoExplicitAny,
        ];
        assert(r@ =~= all_rules());
        r
    }

    /// Whether this rule runs without being named in the project's settings.
    pub fn default_enabled(&self) -> (r: bool)
        ensures
            r == self.on_by_default(),
    {
        match self {
            SmellRule::BannedApi | SmellRule::NoExplicitAny => false,
            _ => true,
        }
    }

    fn number(&self) -> (r: u32)
        ensures
            r == self.place(),
    {
        match self {
            SmellRule::MutableDefault => 0,
            SmellRule::BroadExcept => 1,
            SmellRule::SentinelEquality => 2,
            SmellRule::TruthyLengthCheck => 3,
            SmellRule::UnreachableAfterExit => 4,
            SmellRule::PassthroughFunction => 5,
            SmellRule::StrayPrint => 6,
            SmellRule::SingleMethodClass => 7,
            SmellRule::HighTodoDensity => 8,
            SmellRule::RaiseFromNone => 9,
            SmellRule::MoneyAsFloat => 10,
            SmellRule::BannedApi => 11,
            SmellRule::NoExplicitAny => 12,
        }
    }

    /// The rule with the name `s`.
    pub fn parse(s: &str) -> (r: Result<SmellRule, String>)
        ensures
            match r {
                Ok(rule) => rule.key() == s@,
                Err(m) => (forall|rule: SmellRule| #[trigger] rule.key() != s@) && m@
                    == "unknown smell rule: "@ + s@,
            },
    {
        let all = SmellRule::all();
        let mut i: usize = 0;
        while i < all.len()
            invariant
                i <= all@.len(),
                all@ == all_rules(),
                forall|j: int| 0 <= j < i ==> (#[trigger] all_rules()[j]).key() != s@,
            decreases all@.len() - i,
        {
            if same(all[i].as_str(), s) {
                return Ok(all[i]);
            }
            i += 1;
        }
        proof {
            assert forall|rule: SmellRule| #[trigger] rule.key() != s@ by {
                lemma_rule_listed(rule);
                assert(all_rules()[rule.place() as int].key() != s@);
            }
        }
        let mut m = "unknown smell rule: ".to_owned();
        m.append(s);
        Err(m)
    }
}

impl std::str::FromStr for SmellRule {
    type Err = String;

    fn from_str(s: &str) -> (r: Result<SmellRule, String>)
        ensures
            match r {
                Ok(rule) => rule.key() == s@,
                Err(m) => (forall|rule: SmellRule| #[trigger] rule.key() != s@) && m@
                    == "unknown smell rule: "@ + s@,
            },
    {
        SmellRule::parse(s)
    }
}

/// Every rule is listed, at its place.
pub proof fn lemma_rule_listed(rule: SmellRule)
    ensures
        0 <= rule.place() < all_rules().len(),
        all_rules()[rule.place() as int] == rule,
{
}

/// Different rules have different names, so that a name stands for one rule.
pub proof fn rule_names_are_distinct(a: SmellRule, b: SmellRule)
    requires
        a.key() == b.key(),
    ensures
        a == b,
{
    reveal_strlit("mutable-default");
    reveal_strlit("broad-except");
    reveal_strlit("sentinel-equality");
    reveal_strlit("truthy-length-check");
    reveal_strlit("unreachable-after-exit");
    reveal_strlit("passthrough-function");
    reveal_strlit("stray-print");
    reveal_strlit("single-method-class");
    reveal_strlit("high-todo-density");
    reveal_strlit("raise-from-none");
    reveal_strlit("money-as-float");
    reveal_strlit("banned-api");
    reveal_strlit("no-explicit-any");
    assert("mutable-default"@.len() == 15 && "mutable-default"@[0] == 'm');
    assert("broad-except"@.len() == 12 && "broad-except"@[0] == 'b');
    assert("sentinel-equality"@.len() == 17 && "sentinel-equality"@[0] == 's');
    assert("truthy-length-check"@.len() == 19 && "truthy-length-check"@[0] == 't');
    assert("unreachable-after-exit"@.len() == 22 && "unreachable-after-exit"@[0] == 'u');
    assert("passthrough-function"@.len() == 20 && "passthrough-function"@[0] == 'p');
    assert("stray-print"@.len() == 11 && "stray-print"@[0] == 's');
    assert("single-method-class"@.len() == 19 && "single-method-class"@[0] == 's');
    assert("high-todo-density"@.len() == 17 && "high-todo-density"@[0] == 'h');
    assert("raise-from-none"@.len() == 15 && "raise-from-none"@[0] == 'r');
    assert("money-as-float"@.len() == 14 && "money-as-float"@[0] == 'm');
    assert("banned-api"@.len() == 10 && "banned-api"@[0] == 'b');
    assert("no-explicit-any"@.len() == 15 && "no-explicit-any"@[0] == 'n');
}

/// A set of rules.
#[derive(Debug)]
pub struct RuleSet {
    places: FxHashSet<u32>,
}

impl View for RuleSet {
    type V = Set<SmellRule>;

    closed spec fn view(&self) -> Set<SmellRule> {
        Set::new(|r: SmellRule| self.places@.contains(r.place()))
    }
}

impl RuleSet {
    fn new() -> (r: RuleSet)
        ensures
            r@ == Set::<SmellRule>::empty(),
    {
        let r = RuleSet { places: id_set_new() };
        assert(r@ =~= Set::empty());
        r
    }

    fn insert(&mut self, rule: SmellRule)
        ensures
            final(self)@ == old(self)@.insert(rule),
    {
        let n: u32 = rule.number();
        id_set_insert(&mut self.places, n);
        proof {
            assert forall|r: SmellRule| r.place() == rule.place() implies r == rule by {
                lemma_rule_listed(r);
                lemma_rule_listed(rule);
            }
            assert(self@ =~= old(self)@.insert(rule));
        }
    }

    fn remove(&mut self, rule: SmellRule)
        ensures
            final(self)@ == old(self)@.remove(rule),
    {
        let n: u32 = rule.number();
        id_set_remove(&mut self.places, n);
        proof {
            assert forall|r: SmellRule| r.place() == rule.place() implies r == rule by {
                lemma_rule_listed(r);
                lemma_rule_listed(rule);
            }
            assert(self@ =~= old(self)@.remove(rule));
        }
    }

    /// Whether the set holds the rule.
    pub fn contains(&self, rule: &SmellRule) -> (r: bool)
        ensures
            r == self@.contains(*rule),
    {
        id_set_contains(&self.places, rule.number())
    }

    /// How many rules the set holds.
    pub fn len(&self) -> (n: usize)
        ensures
            self@.finite(),
            n == self@.len(),
    {
        let all = SmellRule::all();
        let mut n: usize = 0;
        let mut i: usize = 0;
        let ghost mut seen: Set<SmellRule> = Set::empty();
        while i < all.len()
            invariant
                i <= all@.len(),
                n <= i,
                all@ == all_rules(),
                seen.finite(),
                seen.len() == n,
                forall|r: SmellRule| seen.contains(r) <==> self@.contains(r) && r.place() < i,
            decreases all@.len() - i,
        {
            let rule = all[i];
            assert(rule.place() == i);
            if self.contains(&rule) {
                n += 1;
                proof {
                    seen = seen.insert(rule);
                }
            }
            proof {
                assert forall|r: SmellRule| seen.contains(r) <==> self@.contains(r) && r.place()
                    < i + 1 by {
                    lemma_rule_listed(r);
                }
            }
            i += 1;
        }
        proof {
            assert forall|r: SmellRule| seen.contains(r) <==> self@.contains(r) by {
                lemma_rule_listed(r);
            }
            assert(seen =~= self@);
        }
        n
    }

    /// Whether the set holds no rule.
    pub fn is_empty(&self) -> (r: bool)
        ensures
            r == (forall|rule: SmellRule| !self@.contains(rule)),
    {
        let r = self.len() == 0;
        proof {
            if r {
                assert(self@ =~= Set::empty());
            }
            if forall|rule: SmellRule| !self@.contains(rule) {
                assert(self@ =~= Set::empty());
            }
        }
        r
    }
}

/// Which rules run: those that are on by default or asked for, without those
/// that are turned off.
pub open spec fn rules_in_force(
    candidates: Seq<(SmellRule, bool)>,
    enabled: Seq<SmellRule>,
    disabled: Seq<SmellRule>,
) -> Set<SmellRule> {
    Set::new(
        |r: SmellRule|
            (candidates.contains((r, true)) || enabled.contains(r)) && !disabled.contains(r),
    )
}

/// The candidates with their defaults.
pub open spec fn default_candidates() -> Seq<(SmellRule, bool)> {
    all_rules().map_values(|r: SmellRule| (r, r.on_by_default()))
}

/// Resolves which rules run.
///
/// Starts from the candidates that are on by default, adds what is enabled,
/// and takes away what is disabled: turning a rule off always wins, so that a
/// shared configuration cannot force a rule on.
pub fn resolve_smell_rules(
    candidates: &[(SmellRule, bool)],
    enabled: &[SmellRule],
    disabled: &[SmellRule],
) -> (active: RuleSet)
    ensures
        active@ == rules_in_force(candidates@, enabled@, disabled@),
{
    let mut active = RuleSet::new();
    let mut i: usize = 0;
    while i < candidates.len()
        invariant
            i <= candidates@.len(),
            forall|r: SmellRule|
                active@.contains(r) <==> candidates@.take(i as int).contains((r, true)),
        decreases candidates@.len() - i,
    {
        let c = candidates[i];
        let ghost before = candidates@.take(i as int);
        let ghost after = candidates@.take(i + 1);
        proof {
            assert(after =~= before.push(c));
        }
        if c.1 {
            active.insert(c.0);
        }
        proof {
            assert forall|r: SmellRule| active@.contains(r) <==> after.contains((r, true)) by {
                lemma_contains_push(before, c, (r, true));
            }
        }
        i += 1;
    }
    assert(candidates@.take(i as int) =~= candidates@);
    let mut j: usize = 0;
    while j < enabled.len()
        invariant
            j <= enabled@.len(),
            forall|r: SmellRule|
                active@.contains(r) <==> candidates@.contains((r, true)) || enabled@.take(
                    j as int,
                ).contains(r),
        decreases enabled@.len() - j,
    {
        let c = enabled[j];
        active.insert(c);
        proof {
            let before = enabled@.take(j as int);
            assert(enabled@.take(j + 1) =~= before.push(c));
            assert forall|r: SmellRule|
                active@.contains(r) <==> candidates@.contains((r, true)) || enabled@.take(
                    j + 1,
                ).contains(r) by {
                lemma_contains_push(before, c, r);
            }
        }
        j += 1;
    }
    assert(enabled@.take(j as int) =~= enabled@);
    let mut k: usize = 0;
    while k < disabled.len()
        invariant
            k <= disabled@.len(),
            forall|r: SmellRule|
                active@.contains(r) <==> (candidates@.contains((r, true)) || enabled@.contains(r))
                    && !disabled@.take(k as int).contains(r),
        decreases disabled@.len() - k,
    {
        let c = disabled[k];
        active.remove(c);
        proof {
            let before = disabled@.take(k as int);
            assert(disabled@.take(k + 1) =~= before.push(c));
            assert forall|r: SmellRule|
                active@.contains(r) <==> (candidates@.contains((r, true)) || enabled@.contains(r))
                    && !disabled@.take(k + 1).contains(r) by {
                lemma_contains_push(before, c, r);
            }
        }
        k += 1;
    }
    assert(disabled@.take(k as int) =~= disabled@);
    assert(active@ =~= rules_in_force(candidates@, enabled@, disabled@));
    active
}

/// What a list holds after an item was appended.
pub proof fn lemma_contains_push<T>(s: Seq<T>, x: T, y: T)
    ensures
        s.push(x).contains(y) <==> s.contains(y) || y == x,
{
    if s.contains(y) {
        let i = choose|i: int| 0 <= i < s.len() && s[i] == y;
        assert(s.push(x)[i] == y);
    }
    if y == x {
        assert(s.push(x)[s.len() as int] == y);
    }
    if s.push(x).contains(y) {
        let i = choose|i: int| 0 <= i < s.push(x).len() && s.push(x)[i] == y;
        if i < s.len() {
            assert(s[i] == y);
        }
    }
}

/// Which of all rules run, given what the project enables and disables.
pub fn active_smell_rules(enabled: &[SmellRule], disabled: &[SmellRule]) -> (active: RuleSet)
    ensures
        active@ == rules_in_force(default_candidates(), enabled@, disabled@),
{
    let all = SmellRule::all();
    let mut candidates: Vec<(SmellRule, bool)> = Vec::new();
    let mut i: usize = 0;
    while i < all.len()
        invariant
            i <= all@.len(),
            all@ == all_rules(),
            candidates@ == default_candidates().take(i as int),
        decreases all@.len() - i,
    {
        candidates.push((all[i], all[i].default_enabled()));
        i += 1;
        assert(candidates@ =~= default_candidates().take(i as int));
    }
    assert(candidates@ =~= default_candidates());
    resolve_smell_rules(&candidates, enabled, disabled)
}

/// A rule that is turned off never runs, whatever else is configured.
pub proof fn disabled_rule_never_runs(
    candidates: Seq<(SmellRule, bool)>,
    enabled: Seq<SmellRule>,
    disabled: Seq<SmellRule>,
    rule: SmellRule,
)
    requires
        disabled.contains(rule),
    ensures
        !rules_in_force(candidates, enabled, disabled).contains(rule),
{
}

/// Without any settings, exactly the rules that are on by default run.
pub proof fn defaults_without_settings(rule: SmellRule)
    ensures
        rules_in_force(default_candidates(), Seq::empty(), Seq::empty()).contains(rule)
            <==> rule.on_by_default(),
{
    let c = default_candidates();
    lemma_rule_listed(rule);
    assert(c[rule.place() as int] == (rule, rule.on_by_default()));
    if c.contains((rule, true)) {
        let i = choose|i: int| 0 <= i < c.len() && c[i] == (rule, true);
        assert(c[i] == (all_rules()[i], all_rules()[i].on_by_default()));
    }
}

/// What a framework plugin contributes to an analysis.
#[derive(Debug, Default)]
pub struct PluginResult {
    pub plugin_name: String,
    pub entry_files: FxHashSet<u32>,
    pub entry_patterns: Vec<String>,
    pub used_symbols: Vec<UsedSymbol>,
    pub implicit_dependencies: Vec<String>,
    pub path_aliases: FxHashMap<String, FilePath>,
    pub excluded_files: FxHashSet<u32>,
}

#[derive(Debug)]
pub struct UsedSymbol {
    pub file: FileId,
    pub symbol: String,
}

/// What an analysis measured of itself.
#[derive(Debug, Default)]
pub struct AnalysisStats {
    pub files_scanned: usize,
    pub entry_points: usize,
    pub plugins_run: Vec<String>,
    pub elapsed_ms: u64,
    /// What was left alone because a framework documents it as an idiom.
    pub exemptions: Vec<String>,
}

/// What an audit was asked to run, and what ran.
#[derive(Debug, Default)]
pub struct Selection {
    pub families_requested: Vec<String>,
    pub families_executed: Vec<String>,
    pub rules_requested: Vec<String>,
}

#[derive(Debug)]
pub struct InventoryEntryPoint {
    pub path: FilePath,
    pub dotted_module: String,
    pub source: EntryPointSource,
}

#[derive(Debug)]
pub struct InventoryFile {
    pub path: FilePath,
    pub dotted_module: String,
    pub kind: ModuleKind,
}

/// All that was found in a project, for listing.
#[derive(Debug, Default)]
pub struct Inventory {
    pub entry_points: Vec<InventoryEntryPoint>,
    pub files: Vec<InventoryFile>,
    pub plugins_run: Vec<String>,
}

/// A rule runs if and only if the settings do not turn it off and it is either turned
/// on by them or on by default. Only prohibited APIs and explicit `Any` wait to be
/// turned on.
pub proof fn rules_run_unless_turned_off(
    enabled: Seq<SmellRule>,
    disabled: Seq<SmellRule>,
    rule: SmellRule,
)
    ensures
        rules_in_force(default_candidates(), enabled, disabled).contains(rule)
            <==> !disabled.contains(rule) && (enabled.contains(rule) || !(rule
            == SmellRule::BannedApi || rule == SmellRule::NoExplicitAny)),
{
    let c = default_candidates();
    lemma_rule_listed(rule);
    let k = rule.place() as int;
    assert(c[k] == (rule, rule.on_by_default()));
    assert(c.contains((rule, rule.on_by_default())));
    if c.contains((rule, true)) {
        let i = choose|i: int| 0 <= i < c.len() && c[i] == (rule, true);
        assert(c[i] == (all_rules()[i], all_rules()[i].on_by_default()));
    }
}

} // verus!
