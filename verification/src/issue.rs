//! Findings, and what each says about itself.
use crate::path::{FilePath, PathView};
use crate::text::decimal;
use crate::text::decimal_text;
use crate::types::{AnalysisStats, Effort, FlagProvider, Selection, SmellRule};
use vstd::prelude::*;

verus! {

/// One place of a block of code that occurs more than once.
#[derive(Debug)]
pub struct DuplicateOccurrence {
    pub path: FilePath,
    pub start_line: u32,
    pub end_line: u32,
}

pub struct OccurrenceView {
    pub path: PathView,
    pub start_line: u32,
    pub end_line: u32,
}

impl View for DuplicateOccurrence {
    type V = OccurrenceView;

    open spec fn view(&self) -> OccurrenceView {
        OccurrenceView {
            path: self.path@,
            start_line: self.start_line,
            end_line: self.end_line,
        }
    }
}

pub open spec fn occurrence_views(v: Seq<DuplicateOccurrence>) -> Seq<OccurrenceView> {
    v.map_values(|o: DuplicateOccurrence| o@)
}

/// The paths of a list.
pub open spec fn path_views(v: Seq<FilePath>) -> Seq<PathView> {
    v.map_values(|p: FilePath| p@)
}

/// A measured number that need not be whole.
#[derive(Debug)]
pub struct Measure {
    /// The number itself: the bits of a floating-point number of 32 bits.
    pub bits: u32,
    /// The number with one decimal.
    pub shown: String,
}

#[verifier::ext_equal]
pub struct MeasureView {
    pub bits: u32,
    pub shown: Seq<char>,
}

impl View for Measure {
    type V = MeasureView;

    open spec fn view(&self) -> MeasureView {
        MeasureView { bits: self.bits, shown: self.shown@ }
    }
}

impl Clone for Measure {
    fn clone(&self) -> (r: Measure)
        ensures
            r@ == self@,
    {
        Measure { bits: self.bits, shown: self.shown.clone() }
    }
}

/// A finding.
#[allow(inconsistent_fields)]
#[derive(Debug)]
pub enum Issue {
    UnusedFile { path: FilePath },
    UnusedImport { path: FilePath, line: u32, name: String, module: String },
    UnusedDep { path: FilePath, name: String, source: String },
    Duplicate { token_count: u32, occurrences: Vec<DuplicateOccurrence> },
    Complexity {
        path: FilePath,
        line: u32,
        /// The last line of the function, counted from 1; 0 if it is not known.
        /// What is measured is the whole body, so that a change anywhere in
        /// `line..=end_line` concerns it.
        end_line: u32,
        function: String,
        cyclomatic: u32,
        cognitive: u32,
    },
    LowMaintainability {
        path: FilePath,
        score: u32,
        avg_cyclomatic: Measure,
        loc: u32,
    },
    Hotspot {
        path: FilePath,
        cyclomatic: u32,
        churn: u32,
        score: Measure,
    },
    Smell { path: FilePath, line: u32, rule: SmellRule, detail: String },
    CircularDependency {
        /// The files of the cycle, sorted; the first stands for the finding.
        cycle: Vec<FilePath>,
    },
    RefactorTarget {
        path: FilePath,
        line: u32,
        /// The last line of the function; 0 if it is not known.
        end_line: u32,
        function: String,
        cyclomatic: u32,
        cognitive: u32,
        effort: Effort,
    },
    FeatureFlag { path: FilePath, line: u32, flag: String, provider: FlagProvider },
    /// A file that could not be read or parsed. It is a finding, so that a run
    /// fails instead of leaving the file out in silence.
    ParseError { path: FilePath, message: String },
    /// An import from one zone into another that the rules do not allow.
    BoundaryViolation {
        from_path: FilePath,
        /// The line of the import; 0 if it is not known.
        from_line: u32,
        from_zone: String,
        to_path: FilePath,
        to_zone: String,
    },
    /// The use of an API that the project prohibits. The id is the key of the
    /// finding; `api` is the dotted name that was matched.
    BannedApi {
        path: FilePath,
        line: u32,
        end_line: u32,
        id: String,
        api: String,
        message: String,
    },
}

/// What a finding says.
#[allow(inconsistent_fields)]
pub enum IssueView {
    UnusedFile { path: PathView },
    UnusedImport { path: PathView, line: u32, name: Seq<char>, module: Seq<char> },
    UnusedDep { path: PathView, name: Seq<char>, source: Seq<char> },
    Duplicate { token_count: u32, occurrences: Seq<OccurrenceView> },
    Complexity {
        path: PathView,
        line: u32,
        end_line: u32,
        function: Seq<char>,
        cyclomatic: u32,
        cognitive: u32,
    },
    LowMaintainability { path: PathView, score: u32, avg_cyclomatic: MeasureView, loc: u32 },
    Hotspot { path: PathView, cyclomatic: u32, churn: u32, score: MeasureView },
    Smell { path: PathView, line: u32, rule: SmellRule, detail: Seq<char> },
    CircularDependency { cycle: Seq<PathView> },
    RefactorTarget {
        path: PathView,
        line: u32,
        end_line: u32,
        function: Seq<char>,
        cyclomatic: u32,
        cognitive: u32,
        effort: Effort,
    },
    FeatureFlag { path: PathView, line: u32, flag: Seq<char>, provider: FlagProvider },
    ParseError { path: PathView, message: Seq<char> },
    BoundaryViolation {
        from_path: PathView,
        from_line: u32,
        from_zone: Seq<char>,
        to_path: PathView,
        to_zone: Seq<char>,
    },
    BannedApi {
        path: PathView,
        line: u32,
        end_line: u32,
        id: Seq<char>,
        api: Seq<char>,
        message: Seq<char>,
    },
}

impl View for Issue {
    type V = IssueView;

    open spec fn view(&self) -> IssueView {
        match self {
            Issue::UnusedFile { path } => IssueView::UnusedFile { path: path@ },
            Issue::UnusedImport { path, line, name, module } => IssueView::UnusedImport {
                path: path@,
                line: *line,
                name: name@,
                module: module@,
            },
            Issue::UnusedDep { path, name, source } => IssueView::UnusedDep {
                path: path@,
                name: name@,
                source: source@,
            },
            Issue::Duplicate { token_count, occurrences } => IssueView::Duplicate {
                token_count: *token_count,
                occurrences: occurrence_views(occurrences@),
            },
            Issue::Complexity { path, line, end_line, function, cyclomatic, cognitive } => {
                IssueView::Complexity {
                    path: path@,
                    line: *line,
                    end_line: *end_line,
                    function: function@,
                    cyclomatic: *cyclomatic,
                    cognitive: *cognitive,
                }
            },
            Issue::LowMaintainability { path, score, avg_cyclomatic, loc } => {
                IssueView::LowMaintainability {
                    path: path@,
                    score: *score,
                    avg_cyclomatic: avg_cyclomatic@,
                    loc: *loc,
                }
            },
            Issue::Hotspot { path, cyclomatic, churn, score } => IssueView::Hotspot {
                path: path@,
                cyclomatic: *cyclomatic,
                churn: *churn,
                score: score@,
            },
            Issue::Smell { path, line, rule, detail } => IssueView::Smell {
                path: path@,
                line: *line,
                rule: *rule,
                detail: detail@,
            },
            Issue::CircularDependency { cycle } => IssueView::CircularDependency {
                cycle: path_views(cycle@),
            },
            Issue::RefactorTarget {
                path,
                line,
                end_line,
                function,
                cyclomatic,
                cognitive,
                effort,
            } => IssueView::RefactorTarget {
                path: path@,
                line: *line,
                end_line: *end_line,
                function: function@,
                cyclomatic: *cyclomatic,
                cognitive: *cognitive,
                effort: *effort,
            },
            Issue::FeatureFlag { path, line, flag, provider } => IssueView::FeatureFlag {
                path: path@,
                line: *line,
                flag: flag@,
                provider: *provider,
            },
            Issue::ParseError { path, message } => IssueView::ParseError {
                path: path@,
                message: message@,
            },
            Issue::BoundaryViolation { from_path, from_line, from_zone, to_path, to_zone } => {
                IssueView::BoundaryViolation {
                    from_path: from_path@,
                    from_line: *from_line,
                    from_zone: from_zone@,
                    to_path: to_path@,
                    to_zone: to_zone@,
                }
            },
            Issue::BannedApi { path, line, end_line, id, api, message } => IssueView::BannedApi {
                path: path@,
                line: *line,
                end_line: *end_line,
                id: id@,
                api: api@,
                message: message@,
            },
        }
    }
}

pub open spec fn issue_views(v: Seq<Issue>) -> Seq<IssueView> {
    v.map_values(|i: Issue| i@)
}

/// The path of nothing.
pub open spec fn empty_path() -> PathView {
    PathView { absolute: false, parts: Seq::empty(), written: Seq::empty() }
}

/// What a rule is about, in a few words.
pub open spec fn smell_description(rule: SmellRule) -> Seq<char> {
    match rule {
        SmellRule::MutableDefault => "Function argument has a mutable default value"@,
        SmellRule::BroadExcept => "except: or except Exception: catches too broadly"@,
        SmellRule::SentinelEquality => "Compare against True/False/None using `is` not `==`"@,
        SmellRule::TruthyLengthCheck => "Use truthy/falsy check instead of len(x) == 0 / > 0"@,
        SmellRule::UnreachableAfterExit => {
            "Statement after return/raise/break/continue is unreachable"@
        },
        SmellRule::PassthroughFunction => "Wrapper function only forwards arguments"@,
        SmellRule::StrayPrint => "print() in non-CLI module — use logging"@,
        SmellRule::SingleMethodClass => {
            "Class has one method and no state — could be a function"@
        },
        SmellRule::HighTodoDensity => "File contains many TODO/FIXME markers"@,
        SmellRule::RaiseFromNone => "raise ... from None discards the original exception"@,
        SmellRule::MoneyAsFloat => "Float type used for monetary value (use Decimal)"@,
        SmellRule::BannedApi => "Use of an API prohibited by project policy"@,
        SmellRule::NoExplicitAny => "Explicit Any annotation discards type evidence"@,
    }
}

/// How grave a rule is.
pub open spec fn smell_level(rule: SmellRule) -> Seq<char> {
    match rule {
        SmellRule::MutableDefault => "error"@,
        SmellRule::RaiseFromNone => "error"@,
        SmellRule::MoneyAsFloat => "error"@,
        SmellRule::BannedApi => "error"@,
        SmellRule::NoExplicitAny => "error"@,
        SmellRule::BroadExcept => "warning"@,
        SmellRule::UnreachableAfterExit => "warning"@,
        _ => "note"@,
    }
}

impl IssueView {
    /// The file that the finding is about; the first, if there are several.
    pub open spec fn path(self) -> PathView {
        match self {
            IssueView::UnusedFile { path } => path,
            IssueView::UnusedImport { path, .. } => path,
            IssueView::UnusedDep { path, .. } => path,
            IssueView::Duplicate { occurrences, .. } => if occurrences.len() == 0 {
                empty_path()
            } else {
                occurrences[0].path
            },
            IssueView::Complexity { path, .. } => path,
            IssueView::LowMaintainability { path, .. } => path,
            IssueView::Hotspot { path, .. } => path,
            IssueView::Smell { path, .. } => path,
            IssueView::CircularDependency { cycle } => if cycle.len() == 0 {
                empty_path()
            } else {
                cycle[0]
            },
            IssueView::RefactorTarget { path, .. } => path,
            IssueView::FeatureFlag { path, .. } => path,
            IssueView::ParseError { path, .. } => path,
            IssueView::BoundaryViolation { from_path, .. } => from_path,
            IssueView::BannedApi { path, .. } => path,
        }
    }

    /// The first and the last line that the finding is about; nothing for a
    /// finding about a whole file. An end that is not known, or stands before
    /// the start, is taken to be the start: it never makes the range wider.
    pub open spec fn range(self) -> Option<(u32, u32)> {
        match self {
            IssueView::UnusedImport { line, .. } => Some((line, line)),
            IssueView::Duplicate { occurrences, .. } => if occurrences.len() == 0 {
                None
            } else {
                Some((occurrences[0].start_line, occurrences[0].end_line))
            },
            IssueView::Complexity { line, end_line, .. } => Some(
                (line, if end_line < line { line } else { end_line }),
            ),
            IssueView::Smell { line, .. } => Some((line, line)),
            IssueView::RefactorTarget { line, end_line, .. } => Some(
                (line, if end_line < line { line } else { end_line }),
            ),
            IssueView::FeatureFlag { line, .. } => Some((line, line)),
            IssueView::BoundaryViolation { from_line, .. } => if from_line == 0 {
                None
            } else {
                Some((from_line, from_line))
            },
            IssueView::BannedApi { line, end_line, .. } => Some(
                (line, if end_line < line { line } else { end_line }),
            ),
            _ => None,
        }
    }

    /// The first line that the finding is about.
    pub open spec fn line(self) -> Option<u32> {
        match self.range() {
            Some(r) => Some(r.0),
            None => None,
        }
    }

    /// Every path that the finding mentions.
    pub open spec fn paths(self) -> Seq<PathView> {
        match self {
            IssueView::Duplicate { occurrences, .. } => occurrences.map_values(
                |o: OccurrenceView| o.path,
            ),
            IssueView::CircularDependency { cycle } => cycle,
            IssueView::BoundaryViolation { from_path, to_path, .. } => seq![from_path, to_path],
            _ => seq![self.path()],
        }
    }

    /// The finding with other paths.
    pub open spec fn with_paths(self, p: Seq<PathView>) -> IssueView {
        match self {
            IssueView::UnusedFile { path } => IssueView::UnusedFile { path: p[0] },
            IssueView::UnusedImport { path, line, name, module } => IssueView::UnusedImport {
                path: p[0],
                line,
                name,
                module,
            },
            IssueView::UnusedDep { path, name, source } => IssueView::UnusedDep {
                path: p[0],
                name,
                source,
            },
            IssueView::Duplicate { token_count, occurrences } => IssueView::Duplicate {
                token_count,
                occurrences: Seq::new(
                    occurrences.len(),
                    |i: int|
                        OccurrenceView {
                            path: p[i],
                            start_line: occurrences[i].start_line,
                            end_line: occurrences[i].end_line,
                        },
                ),
            },
            IssueView::Complexity { path, line, end_line, function, cyclomatic, cognitive } => {
                IssueView::Complexity {
                    path: p[0],
                    line,
                    end_line,
                    function,
                    cyclomatic,
                    cognitive,
                }
            },
            IssueView::LowMaintainability { path, score, avg_cyclomatic, loc } => {
                IssueView::LowMaintainability { path: p[0], score, avg_cyclomatic, loc }
            },
            IssueView::Hotspot { path, cyclomatic, churn, score } => IssueView::Hotspot {
                path: p[0],
                cyclomatic,
                churn,
                score,
            },
            IssueView::Smell { path, line, rule, detail } => IssueView::Smell {
                path: p[0],
                line,
                rule,
                detail,
            },
            IssueView::CircularDependency { cycle } => IssueView::CircularDependency { cycle: p },
            IssueView::RefactorTarget {
                path,
                line,
                end_line,
                function,
                cyclomatic,
                cognitive,
                effort,
            } => IssueView::RefactorTarget {
                path: p[0],
                line,
                end_line,
                function,
                cyclomatic,
                cognitive,
                effort,
            },
            IssueView::FeatureFlag { path, line, flag, provider } => IssueView::FeatureFlag {
                path: p[0],
                line,
                flag,
                provider,
            },
            IssueView::ParseError { path, message } => IssueView::ParseError {
                path: p[0],
                message,
            },
            IssueView::BoundaryViolation { from_path, from_line, from_zone, to_path, to_zone } => {
                IssueView::BoundaryViolation {
                    from_path: p[0],
                    from_line,
                    from_zone,
                    to_path: p[1],
                    to_zone,
                }
            },
            IssueView::BannedApi { path, line, end_line, id, api, message } => {
                IssueView::BannedApi { path: p[0], line, end_line, id, api, message }
            },
        }
    }

    /// The finding in words, with the names that it is about.
    pub open spec fn message(self) -> Seq<char> {
        match self {
            IssueView::UnusedFile { .. } => "File is not reachable from any entry point"@,
            IssueView::UnusedImport { name, module, .. } => "Imported name `"@ + name + "` from `"@
                + module + "` is never used"@,
            IssueView::UnusedDep { name, source, .. } => "Dependency `"@ + name + "` declared in "@
                + source + " is never imported"@,
            IssueView::Duplicate { token_count, occurrences } => "Duplicated block of "@ + decimal(
                token_count as nat,
            ) + " tokens repeated "@ + decimal(occurrences.len()) + " times"@,
            IssueView::Complexity { function, cyclomatic, cognitive, .. } => "Function `"@ + function
                + "` is complex (cyclomatic="@ + decimal(cyclomatic as nat) + ", cognitive="@
                + decimal(cognitive as nat) + ")"@,
            IssueView::LowMaintainability { score, loc, .. } => "Maintainability index "@ + decimal(
                score as nat,
            ) + " over "@ + decimal(loc as nat) + " lines"@,
            IssueView::Hotspot { cyclomatic, churn, .. } => "Hotspot: complexity "@ + decimal(
                cyclomatic as nat,
            ) + " combined with "@ + decimal(churn as nat) + " recent changes"@,
            IssueView::Smell { rule, detail, .. } => if detail.len() == 0 {
                rule.key()
            } else {
                rule.key() + ": "@ + detail
            },
            IssueView::CircularDependency { cycle } => "Import cycle across "@ + decimal(
                cycle.len(),
            ) + " files"@,
            IssueView::RefactorTarget { function, effort, .. } => "Function `"@ + function
                + "` is a refactor target ("@ + effort.key() + " effort)"@,
            IssueView::FeatureFlag { flag, provider, .. } => "Feature flag `"@ + flag + "` ("@
                + provider.key() + ") referenced"@,
            IssueView::ParseError { message, .. } => "Failed to parse file: "@ + message,
            IssueView::BoundaryViolation { from_zone, to_zone, .. } => "Zone `"@ + from_zone
                + "` may not import from zone `"@ + to_zone + "`"@,
            IssueView::BannedApi { api, message, .. } => "Use of banned API `"@ + api + "`: "@
                + message,
        }
    }

    /// The stable name of the rule behind the finding.
    pub open spec fn rule_key(self) -> Seq<char> {
        match self {
            IssueView::UnusedFile { .. } => "unused-file"@,
            IssueView::UnusedImport { .. } => "unused-import"@,
            IssueView::UnusedDep { .. } => "unused-dep"@,
            IssueView::Duplicate { .. } => "duplicate"@,
            IssueView::Complexity { .. } => "complexity"@,
            IssueView::LowMaintainability { .. } => "low-maintainability"@,
            IssueView::Hotspot { .. } => "hotspot"@,
            IssueView::Smell { rule, .. } => rule.key(),
            IssueView::CircularDependency { .. } => "circular-dependency"@,
            IssueView::RefactorTarget { .. } => "refactor-target"@,
            IssueView::FeatureFlag { .. } => "feature-flag"@,
            IssueView::ParseError { .. } => "parse-error"@,
            IssueView::BoundaryViolation { .. } => "boundary-violation"@,
            IssueView::BannedApi { id, .. } => id,
        }
    }

    /// The rule behind the finding, in a few words.
    pub open spec fn description(self) -> Seq<char> {
        match self {
            IssueView::UnusedFile { .. } => "File is not reachable from any entry point"@,
            IssueView::UnusedImport { .. } => "Imported name is never used in the module"@,
            IssueView::UnusedDep { .. } => "Dependency is declared but never imported"@,
            IssueView::Duplicate { .. } => "Repeated code block detected across the codebase"@,
            IssueView::Complexity { .. } => {
                "Function exceeds cyclomatic or cognitive complexity threshold"@
            },
            IssueView::LowMaintainability { .. } => {
                "File maintainability index falls below threshold"@
            },
            IssueView::Hotspot { .. } => "File has high complexity × git churn (refactor risk)"@,
            IssueView::CircularDependency { .. } => "Module import graph contains a cycle"@,
            IssueView::Smell { rule, .. } => smell_description(rule),
            IssueView::BannedApi { .. } => "Use of an API prohibited by project policy"@,
            IssueView::ParseError { .. } => "File could not be parsed (excluded from analysis)"@,
            IssueView::RefactorTarget { .. } => {
                "Refactoring candidate ranked by complexity and effort"@
            },
            IssueView::FeatureFlag { .. } => {
                "Feature flag reference (env var, settings, or SDK call)"@
            },
            IssueView::BoundaryViolation { .. } => {
                "Cross-zone import violates a [[boundaries.rules]] entry"@
            },
        }
    }

    /// How grave the finding is: error, warning or note.
    pub open spec fn level(self) -> Seq<char> {
        match self {
            IssueView::CircularDependency { .. } => "error"@,
            IssueView::UnusedFile { .. } => "error"@,
            IssueView::LowMaintainability { .. } => "error"@,
            IssueView::ParseError { .. } => "error"@,
            IssueView::BannedApi { .. } => "error"@,
            IssueView::RefactorTarget { .. } => "note"@,
            IssueView::FeatureFlag { .. } => "note"@,
            IssueView::Smell { rule, .. } => smell_level(rule),
            _ => "warning"@,
        }
    }
}

/// A range never ends before it starts, and a finding about a function whose
/// end is not known keeps to the line on which the function starts. Duplicates
/// carry ranges of their own.
pub proof fn ranges_do_not_widen(i: IssueView)
    requires
        !(i is Duplicate),
    ensures
        i.range() matches Some(r) ==> r.0 <= r.1,
        i matches IssueView::Complexity { line: l, end_line, .. } ==> (end_line == 0 ==> i.range()
            == Some((l, l))),
        i matches IssueView::RefactorTarget { line: l, end_line, .. } ==> (end_line == 0
            ==> i.range() == Some((l, l))),
{
}

/// A finding has at least one path to show, and the first of its paths is the
/// one that it goes by, unless it is a list without items.
pub proof fn first_path_is_primary(i: IssueView)
    requires
        i matches IssueView::Duplicate { occurrences, .. } ==> occurrences.len() > 0,
        i matches IssueView::CircularDependency { cycle } ==> cycle.len() > 0,
    ensures
        i.paths().len() > 0,
        i.paths()[0] == i.path(),
{
}

/// Replacing the paths of a finding replaces all of them and nothing else.
pub proof fn paths_can_be_replaced(i: IssueView, p: Seq<PathView>)
    requires
        p.len() == i.paths().len(),
    ensures
        i.with_paths(p).paths() == p,
        i.with_paths(p).range() == i.range(),
        i.with_paths(p).message() == i.message(),
        i.with_paths(p).rule_key() == i.rule_key(),
        i.with_paths(p).level() == i.level(),
        i.with_paths(p).description() == i.description(),
{
    assert(i.with_paths(p).paths() =~= p);
}

/// A copy of a list of paths.
pub fn copy_paths(v: &Vec<FilePath>) -> (r: Vec<FilePath>)
    ensures
        path_views(r@) == path_views(v@),
{
    let mut r: Vec<FilePath> = Vec::new();
    let mut i: usize = 0;
    while i < v.len()
        invariant
            i <= v@.len(),
            path_views(r@) == path_views(v@).take(i as int),
        decreases v@.len() - i,
    {
        let ghost was = path_views(r@);
        r.push(v[i].clone());
        assert(path_views(r@) =~= was.push(v@[i as int]@));
        i += 1;
        assert(path_views(r@) =~= path_views(v@).take(i as int));
    }
    assert(path_views(r@) =~= path_views(v@));
    r
}

fn copy_occurrences(v: &Vec<DuplicateOccurrence>) -> (r: Vec<DuplicateOccurrence>)
    ensures
        occurrence_views(r@) == occurrence_views(v@),
{
    let mut r: Vec<DuplicateOccurrence> = Vec::new();
    let mut i: usize = 0;
    while i < v.len()
        invariant
            i <= v@.len(),
            occurrence_views(r@) == occurrence_views(v@).take(i as int),
        decreases v@.len() - i,
    {
        let ghost was = occurrence_views(r@);
        r.push(
            DuplicateOccurrence {
                path: v[i].path.clone(),
                start_line: v[i].start_line,
                end_line: v[i].end_line,
            },
        );
        assert(occurrence_views(r@) =~= was.push(v@[i as int]@));
        i += 1;
        assert(occurrence_views(r@) =~= occurrence_views(v@).take(i as int));
    }
    assert(occurrence_views(r@) =~= occurrence_views(v@));
    r
}

impl Clone for Issue {
    fn clone(&self) -> (r: Issue)
        ensures
            r@ == self@,
    {
        match self {
            Issue::UnusedFile { path } => Issue::UnusedFile {
                path: path.clone(),
            },
            Issue::UnusedImport { path, line, name, module } => Issue::UnusedImport {
                path: path.clone(),
                line: *line,
                name: name.clone(),
                module: module.clone(),
            },
            Issue::UnusedDep { path, name, source } => Issue::UnusedDep {
                path: path.clone(),
                name: name.clone(),
                source: source.clone(),
            },
            Issue::Duplicate { token_count, occurrences } => Issue::Duplicate {
                token_count: *token_count,
                occurrences: copy_occurrences(occurrences),
            },
            Issue::Complexity { path, line, end_line, function, cyclomatic, cognitive } => Issue::Complexity {
                path: path.clone(),
                line: *line,
                end_line: *end_line,
                function: function.clone(),
                cyclomatic: *cyclomatic,
                cognitive: *cognitive,
            },
            Issue::LowMaintainability { path, score, avg_cyclomatic, loc } => Issue::LowMaintainability {
                path: path.clone(),
                score: *score,
                avg_cyclomatic: avg_cyclomatic.clone(),
                loc: *loc,
            },
            Issue::Hotspot { path, cyclomatic, churn, score } => Issue::Hotspot {
                path: path.clone(),
                cyclomatic: *cyclomatic,
                churn: *churn,
                score: score.clone(),
            },
            Issue::Smell { path, line, rule, detail } => Issue::Smell {
                path: path.clone(),
                line: *line,
                rule: *rule,
                detail: detail.clone(),
            },
            Issue::CircularDependency { cycle } => Issue::CircularDependency {
                cycle: copy_paths(cycle),
            },
            Issue::RefactorTarget { path, line, end_line, function, cyclomatic, cognitive, effort } => Issue::RefactorTarget {
                path: path.clone(),
                line: *line,
                end_line: *end_line,
                function: function.clone(),
                cyclomatic: *cyclomatic,
                cognitive: *cognitive,
                effort: *effort,
            },
            Issue::FeatureFlag { path, line, flag, provider } => Issue::FeatureFlag {
                path: path.clone(),
                line: *line,
                flag: flag.clone(),
                provider: *provider,
            },
            Issue::ParseError { path, message } => Issue::ParseError {
                path: path.clone(),
                message: message.clone(),
            },
            Issue::BoundaryViolation { from_path, from_line, from_zone, to_path, to_zone } => Issue::BoundaryViolation {
                from_path: from_path.clone(),
                from_line: *from_line,
                from_zone: from_zone.clone(),
                to_path: to_path.clone(),
                to_zone: to_zone.clone(),
            },
            Issue::BannedApi { path, line, end_line, id, api, message } => Issue::BannedApi {
                path: path.clone(),
                line: *line,
                end_line: *end_line,
                id: id.clone(),
                api: api.clone(),
                message: message.clone(),
            },
        }
    }
}

fn no_path() -> (r: FilePath)
    ensures
        r@ == empty_path(),
{
    let r = FilePath { absolute: false, parts: Vec::new(), written: String::new() };
    assert(r@ =~= empty_path());
    r
}

/// The later of two lines.
fn later(a: u32, b: u32) -> (r: u32)
    ensures
        r == (if b < a {
            a
        } else {
            b
        }),
{
    if b < a {
        a
    } else {
        b
    }
}

fn one_path(p: &FilePath) -> (r: Vec<FilePath>)
    ensures
        path_views(r@) == seq![p@],
{
    let mut r: Vec<FilePath> = Vec::new();
    r.push(p.clone());
    assert(path_views(r@) =~= seq![p@]);
    r
}

impl Issue {
    /// The file that the finding is about; the first, if there are several.
    pub fn path(&self) -> (r: FilePath)
        ensures
            r@ == self@.path(),
    {
        match self {
            Issue::UnusedFile { path } => path.clone(),
            Issue::UnusedImport { path, .. } => path.clone(),
            Issue::UnusedDep { path, .. } => path.clone(),
            Issue::Duplicate { occurrences, .. } => {
                if occurrences.len() == 0 {
                    no_path()
                } else {
                    assert(occurrence_views(occurrences@)[0] == occurrences@[0]@);
                    occurrences[0].path.clone()
                }
            },
            Issue::Complexity { path, .. } => path.clone(),
            Issue::LowMaintainability { path, .. } => path.clone(),
            Issue::Hotspot { path, .. } => path.clone(),
            Issue::Smell { path, .. } => path.clone(),
            Issue::CircularDependency { cycle } => {
                if cycle.len() == 0 {
                    no_path()
                } else {
                    assert(path_views(cycle@)[0] == cycle@[0]@);
                    cycle[0].clone()
                }
            },
            Issue::RefactorTarget { path, .. } => path.clone(),
            Issue::FeatureFlag { path, .. } => path.clone(),
            Issue::ParseError { path, .. } => path.clone(),
            Issue::BoundaryViolation { from_path, .. } => from_path.clone(),
            Issue::BannedApi { path, .. } => path.clone(),
        }
    }

    /// The first line that the finding is about.
    pub fn line(&self) -> (r: Option<u32>)
        ensures
            r == self@.line(),
    {
        match self.range() {
            Some(r) => Some(r.0),
            None => None,
        }
    }

    /// The first and the last line that the finding is about, counted from 1;
    /// nothing for a finding about a whole file.
    pub fn range(&self) -> (r: Option<(u32, u32)>)
        ensures
            r == self@.range(),
    {
        match self {
            Issue::Complexity { line, end_line, .. } => Some((*line, later(*line, *end_line))),
            Issue::RefactorTarget { line, end_line, .. } => Some((*line, later(*line, *end_line))),
            Issue::BannedApi { line, end_line, .. } => Some((*line, later(*line, *end_line))),
            Issue::Duplicate { occurrences, .. } => {
                if occurrences.len() == 0 {
                    None
                } else {
                    assert(occurrence_views(occurrences@)[0] == occurrences@[0]@);
                    Some((occurrences[0].start_line, occurrences[0].end_line))
                }
            },
            Issue::UnusedImport { line, .. } => Some((*line, *line)),
            Issue::Smell { line, .. } => Some((*line, *line)),
            Issue::FeatureFlag { line, .. } => Some((*line, *line)),
            Issue::BoundaryViolation { from_line, .. } => if *from_line == 0 {
                None
            } else {
                Some((*from_line, *from_line))
            },
            Issue::UnusedFile { .. }
            | Issue::UnusedDep { .. }
            | Issue::LowMaintainability { .. }
            | Issue::Hotspot { .. }
            | Issue::CircularDependency { .. }
            | Issue::ParseError { .. } => None,
        }
    }

    /// Every path that the finding mentions.
    pub fn paths(&self) -> (r: Vec<FilePath>)
        ensures
            path_views(r@) == self@.paths(),
    {
        match self {
            Issue::Duplicate { occurrences, .. } => {
                let mut r: Vec<FilePath> = Vec::new();
                let ghost goal = self@.paths();
                let mut i: usize = 0;
                while i < occurrences.len()
                    invariant
                        i <= occurrences@.len(),
                        goal == occurrence_views(occurrences@).map_values(
                            |o: OccurrenceView| o.path,
                        ),
                        path_views(r@) == goal.take(i as int),
                    decreases occurrences@.len() - i,
                {
                    let ghost was = path_views(r@);
                    r.push(occurrences[i].path.clone());
                    assert(goal[i as int] == occurrences@[i as int].path@);
                    assert(path_views(r@) =~= was.push(occurrences@[i as int].path@));
                    i += 1;
                    assert(path_views(r@) =~= goal.take(i as int));
                }
                assert(goal.take(i as int) =~= goal);
                r
            },
            Issue::CircularDependency { cycle } => copy_paths(cycle),
            Issue::BoundaryViolation { from_path, to_path, .. } => {
                let mut r: Vec<FilePath> = Vec::new();
                r.push(from_path.clone());
                r.push(to_path.clone());
                assert(path_views(r@) =~= self@.paths());
                r
            },
            _ => one_path(&self.path()),
        }
    }

    /// The finding with other paths, in the order of [`Issue::paths`].
    pub fn with_paths(&self, p: &Vec<FilePath>) -> (r: Issue)
        requires
            p@.len() == self@.paths().len(),
        ensures
            r@ == self@.with_paths(path_views(p@)),
    {
        proof {
            assert forall|i: int| 0 <= i < p@.len() implies #[trigger] path_views(p@)[i]
                == p@[i]@ by {}
        }
        match self {
            Issue::UnusedFile { .. } => Issue::UnusedFile {
                path: p[0].clone(),
            },
            Issue::UnusedImport { line, name, module, .. } => Issue::UnusedImport {
                path: p[0].clone(),
                line: *line,
                name: name.clone(),
                module: module.clone(),
            },
            Issue::UnusedDep { name, source, .. } => Issue::UnusedDep {
                path: p[0].clone(),
                name: name.clone(),
                source: source.clone(),
            },
            Issue::Duplicate { token_count, occurrences } => Issue::Duplicate {
                token_count: *token_count,
                occurrences: occurrences_at(occurrences, p),
            },
            Issue::Complexity { line, end_line, function, cyclomatic, cognitive, .. } => Issue::Complexity {
                path: p[0].clone(),
                line: *line,
                end_line: *end_line,
                function: function.clone(),
                cyclomatic: *cyclomatic,
                cognitive: *cognitive,
            },
            Issue::LowMaintainability { score, avg_cyclomatic, loc, .. } => Issue::LowMaintainability {
                path: p[0].clone(),
                score: *score,
                avg_cyclomatic: avg_cyclomatic.clone(),
                loc: *loc,
            },
            Issue::Hotspot { cyclomatic, churn, score, .. } => Issue::Hotspot {
                path: p[0].clone(),
                cyclomatic: *cyclomatic,
                churn: *churn,
                score: score.clone(),
            },
            Issue::Smell { line, rule, detail, .. } => Issue::Smell {
                path: p[0].clone(),
                line: *line,
                rule: *rule,
                detail: detail.clone(),
            },
            Issue::CircularDependency { .. } => Issue::CircularDependency { cycle: copy_paths(p) },
            Issue::RefactorTarget { line, end_line, function, cyclomatic, cognitive, effort, .. } => Issue::RefactorTarget {
                path: p[0].clone(),
                line: *line,
                end_line: *end_line,
                function: function.clone(),
                cyclomatic: *cyclomatic,
                cognitive: *cognitive,
                effort: *effort,
            },
            Issue::FeatureFlag { line, flag, provider, .. } => Issue::FeatureFlag {
                path: p[0].clone(),
                line: *line,
                flag: flag.clone(),
                provider: *provider,
            },
            Issue::ParseError { message, .. } => Issue::ParseError {
                path: p[0].clone(),
                message: message.clone(),
            },
            Issue::BoundaryViolation { from_line, from_zone, to_zone, .. } => Issue::BoundaryViolation {
                from_path: p[0].clone(),
                from_line: *from_line,
                from_zone: from_zone.clone(),
                to_path: p[1].clone(),
                to_zone: to_zone.clone(),
            },
            Issue::BannedApi { line, end_line, id, api, message, .. } => Issue::BannedApi {
                path: p[0].clone(),
                line: *line,
                end_line: *end_line,
                id: id.clone(),
                api: api.clone(),
                message: message.clone(),
            },
        }
    }

    /// The finding in words, with the names that it is about.
    pub fn message(&self) -> (r: String)
        ensures
            r@ == self@.message(),
    {
        match self {
            Issue::UnusedFile { .. } => "File is not reachable from any entry point".to_owned(),
            Issue::UnusedImport { name, module, .. } => {
                let mut r = "Imported name `".to_owned();
                r.append(name.as_str());
                r.append("` from `");
                r.append(module.as_str());
                r.append("` is never used");
                r
            },
            Issue::UnusedDep { name, source, .. } => {
                let mut r = "Dependency `".to_owned();
                r.append(name.as_str());
                r.append("` declared in ");
                r.append(source.as_str());
                r.append(" is never imported");
                r
            },
            Issue::Duplicate { token_count, occurrences } => {
                let mut r = "Duplicated block of ".to_owned();
                r.append(decimal_text(*token_count as u64).as_str());
                r.append(" tokens repeated ");
                r.append(decimal_text(occurrences.len() as u64).as_str());
                r.append(" times");
                r
            },
            Issue::Complexity { function, cyclomatic, cognitive, .. } => {
                let mut r = "Function `".to_owned();
                r.append(function.as_str());
                r.append("` is complex (cyclomatic=");
                r.append(decimal_text(*cyclomatic as u64).as_str());
                r.append(", cognitive=");
                r.append(decimal_text(*cognitive as u64).as_str());
                r.append(")");
                r
            },
            Issue::LowMaintainability { score, loc, .. } => {
                let mut r = "Maintainability index ".to_owned();
                r.append(decimal_text(*score as u64).as_str());
                r.append(" over ");
                r.append(decimal_text(*loc as u64).as_str());
                r.append(" lines");
                r
            },
            Issue::Hotspot { cyclomatic, churn, .. } => {
                let mut r = "Hotspot: complexity ".to_owned();
                r.append(decimal_text(*cyclomatic as u64).as_str());
                r.append(" combined with ");
                r.append(decimal_text(*churn as u64).as_str());
                r.append(" recent changes");
                r
            },
            Issue::Smell { rule, detail, .. } => {
                let mut r = rule.as_str().to_owned();
                if !detail.as_str().is_empty() {
                    r.append(": ");
                    r.append(detail.as_str());
                }
                r
            },
            Issue::CircularDependency { cycle } => {
                let mut r = "Import cycle across ".to_owned();
                r.append(decimal_text(cycle.len() as u64).as_str());
                r.append(" files");
                r
            },
            Issue::RefactorTarget { function, effort, .. } => {
                let mut r = "Function `".to_owned();
                r.append(function.as_str());
                r.append("` is a refactor target (");
                r.append(effort.as_str());
                r.append(" effort)");
                r
            },
            Issue::FeatureFlag { flag, provider, .. } => {
                let mut r = "Feature flag `".to_owned();
                r.append(flag.as_str());
                r.append("` (");
                r.append(provider.as_str());
                r.append(") referenced");
                r
            },
            Issue::ParseError { message, .. } => {
                let mut r = "Failed to parse file: ".to_owned();
                r.append(message.as_str());
                r
            },
            Issue::BoundaryViolation { from_zone, to_zone, .. } => {
                let mut r = "Zone `".to_owned();
                r.append(from_zone.as_str());
                r.append("` may not import from zone `");
                r.append(to_zone.as_str());
                r.append("`");
                r
            },
            Issue::BannedApi { api, message, .. } => {
                let mut r = "Use of banned API `".to_owned();
                r.append(api.as_str());
                r.append("`: ");
                r.append(message.as_str());
                r
            },
        }
    }

    /// The stable name of the rule behind the finding.
    pub fn rule_key(&self) -> (r: String)
        ensures
            r@ == self@.rule_key(),
    {
        let key: &str = match self {
            Issue::UnusedFile { .. } => "unused-file",
            Issue::UnusedImport { .. } => "unused-import",
            Issue::UnusedDep { .. } => "unused-dep",
            Issue::Duplicate { .. } => "duplicate",
            Issue::Complexity { .. } => "complexity",
            Issue::LowMaintainability { .. } => "low-maintainability",
            Issue::Hotspot { .. } => "hotspot",
            Issue::Smell { rule, .. } => rule.as_str(),
            Issue::CircularDependency { .. } => "circular-dependency",
            Issue::RefactorTarget { .. } => "refactor-target",
            Issue::FeatureFlag { .. } => "feature-flag",
            Issue::ParseError { .. } => "parse-error",
            Issue::BoundaryViolation { .. } => "boundary-violation",
            Issue::BannedApi { id, .. } => id.as_str(),
        };
        key.to_owned()
    }

    /// The rule behind the finding, in a few words.
    pub fn rule_short_description(&self) -> (r: &'static str)
        ensures
            r@ == self@.description(),
    {
        match self {
            Issue::UnusedFile { .. } => "File is not reachable from any entry point",
            Issue::UnusedImport { .. } => "Imported name is never used in the module",
            Issue::UnusedDep { .. } => "Dependency is declared but never imported",
            Issue::Duplicate { .. } => "Repeated code block detected across the codebase",
            Issue::Complexity { .. } => {
                "Function exceeds cyclomatic or cognitive complexity threshold"
            },
            Issue::LowMaintainability { .. } => "File maintainability index falls below threshold",
            Issue::Hotspot { .. } => "File has high complexity × git churn (refactor risk)",
            Issue::CircularDependency { .. } => "Module import graph contains a cycle",
            Issue::Smell { rule, .. } => smell_short_description(*rule),
            Issue::BannedApi { .. } => "Use of an API prohibited by project policy",
            Issue::ParseError { .. } => "File could not be parsed (excluded from analysis)",
            Issue::RefactorTarget { .. } => "Refactoring candidate ranked by complexity and effort",
            Issue::FeatureFlag { .. } => "Feature flag reference (env var, settings, or SDK call)",
            Issue::BoundaryViolation { .. } => {
                "Cross-zone import violates a [[boundaries.rules]] entry"
            },
        }
    }

    /// How grave the finding is: error, warning or note.
    pub fn sarif_level(&self) -> (r: &'static str)
        ensures
            r@ == self@.level(),
    {
        match self {
            Issue::CircularDependency { .. }
            | Issue::UnusedFile { .. }
            | Issue::LowMaintainability { .. }
            | Issue::ParseError { .. } => "error",
            Issue::UnusedImport { .. }
            | Issue::UnusedDep { .. }
            | Issue::Duplicate { .. }
            | Issue::Complexity { .. }
            | Issue::Hotspot { .. }
            | Issue::BoundaryViolation { .. } => "warning",
            Issue::RefactorTarget { .. } | Issue::FeatureFlag { .. } => "note",
            Issue::Smell { rule, .. } => smell_sarif_level(*rule),
            Issue::BannedApi { .. } => "error",
        }
    }
}

/// The places of a block, in other files.
fn occurrences_at(v: &Vec<DuplicateOccurrence>, p: &Vec<FilePath>) -> (r: Vec<DuplicateOccurrence>)
    requires
        v@.len() == p@.len(),
    ensures
        occurrence_views(r@) == Seq::new(
            v@.len(),
            |i: int|
                OccurrenceView {
                    path: path_views(p@)[i],
                    start_line: occurrence_views(v@)[i].start_line,
                    end_line: occurrence_views(v@)[i].end_line,
                },
        ),
{
    let mut r: Vec<DuplicateOccurrence> = Vec::new();
    let mut i: usize = 0;
    while i < v.len()
        invariant
            i <= v@.len(),
            v@.len() == p@.len(),
            r@.len() == i,
            forall|j: int|
                0 <= j < i ==> (#[trigger] r@[j])@ == (OccurrenceView {
                    path: p@[j]@,
                    start_line: v@[j].start_line,
                    end_line: v@[j].end_line,
                }),
        decreases v@.len() - i,
    {
        r.push(
            DuplicateOccurrence {
                path: p[i].clone(),
                start_line: v[i].start_line,
                end_line: v[i].end_line,
            },
        );
        i += 1;
    }
    assert(occurrence_views(r@) =~= Seq::new(
        v@.len(),
        |i: int|
            OccurrenceView {
                path: path_views(p@)[i],
                start_line: occurrence_views(v@)[i].start_line,
                end_line: occurrence_views(v@)[i].end_line,
            },
    ));
    r
}

fn smell_short_description(rule: SmellRule) -> (r: &'static str)
    ensures
        r@ == smell_description(rule),
{
    match rule {
        SmellRule::MutableDefault => "Function argument has a mutable default value",
        SmellRule::BroadExcept => "except: or except Exception: catches too broadly",
        SmellRule::SentinelEquality => "Compare against True/False/None using `is` not `==`",
        SmellRule::TruthyLengthCheck => "Use truthy/falsy check instead of len(x) == 0 / > 0",
        SmellRule::UnreachableAfterExit => {
            "Statement after return/raise/break/continue is unreachable"
        },
        SmellRule::PassthroughFunction => "Wrapper function only forwards arguments",
        SmellRule::StrayPrint => "print() in non-CLI module — use logging",
        SmellRule::SingleMethodClass => "Class has one method and no state — could be a function",
        SmellRule::HighTodoDensity => "File contains many TODO/FIXME markers",
        SmellRule::RaiseFromNone => "raise ... from None discards the original exception",
        SmellRule::MoneyAsFloat => "Float type used for monetary value (use Decimal)",
        SmellRule::BannedApi => "Use of an API prohibited by project policy",
        SmellRule::NoExplicitAny => "Explicit Any annotation discards type evidence",
    }
}

fn smell_sarif_level(rule: SmellRule) -> (r: &'static str)
    ensures
        r@ == smell_level(rule),
{
    match rule {
        SmellRule::MutableDefault
        | SmellRule::RaiseFromNone
        | SmellRule::MoneyAsFloat
        | SmellRule::BannedApi
        | SmellRule::NoExplicitAny => "error",
        SmellRule::BroadExcept | SmellRule::UnreachableAfterExit => "warning",
        _ => "note",
    }
}

/// What an analysis found.
#[derive(Debug, Default)]
pub struct AnalysisResults {
    pub issues: Vec<Issue>,
    pub stats: AnalysisStats,
    /// The keys of the rules that ran, whether or not they found anything:
    /// without them, a rule that found nothing looks like one that never ran.
    pub executed_rules: Vec<String>,
    /// What was selected, if the analysis takes a selection.
    pub selection: Option<Selection>,
}

/// A finding about a function or a use covers all its lines, from the first to the
/// last; one about a single place its line; one about whole files has no lines; and an
/// import across a boundary has none if the line is not known.
pub proof fn ranges_cover_what_was_found(i: IssueView)
    ensures
        i matches IssueView::Complexity { line: l, end_line, .. } ==> (l <= end_line ==> i.range()
            == Some((l, end_line))),
        i matches IssueView::RefactorTarget { line: l, end_line, .. } ==> (l <= end_line
            ==> i.range() == Some((l, end_line))),
        i matches IssueView::BannedApi { line: l, end_line, .. } ==> (l <= end_line ==> i.range()
            == Some((l, end_line))),
        i matches IssueView::UnusedImport { line: l, .. } ==> i.range() == Some((l, l)),
        i matches IssueView::Smell { line: l, .. } ==> i.range() == Some((l, l)),
        i matches IssueView::FeatureFlag { line: l, .. } ==> i.range() == Some((l, l)),
        i matches IssueView::BoundaryViolation { from_line, .. } ==> (i.range() is None
            <==> from_line == 0) && (i.range() matches Some(r) ==> r.0 == from_line && r.1
            == from_line),
        i is UnusedFile || i is UnusedDep || i is LowMaintainability || i is Hotspot
            || i is CircularDependency || i is ParseError ==> i.range() is None,
        i.line() is Some <==> i.range() is Some,
        i.range() matches Some(r) ==> i.line() == Some(r.0),
{
}

/// A finding shows every file that it involves: a clone all its places, a cycle all
/// its files, and an import across a boundary both ends, the importing file first.
pub proof fn every_file_of_a_finding_is_shown(i: IssueView)
    ensures
        i matches IssueView::Duplicate { occurrences, .. } ==> i.paths().len() == occurrences.len()
            && forall|k: int|
            0 <= k < occurrences.len() ==> i.paths()[k] == (#[trigger] occurrences[k]).path,
        i matches IssueView::CircularDependency { cycle } ==> i.paths() == cycle,
        i matches IssueView::BoundaryViolation { from_path, to_path, .. } ==> i.paths().contains(
            to_path,
        ) && i.path() == from_path,
{
    if i is BoundaryViolation {
        assert(i.paths()[1] == i->to_path);
    }
}

/// Findings that make the code wrong, or that hide others, are errors; references
/// that are no fault are notes; a smell is as grave as its rule.
pub proof fn broken_things_are_errors(i: IssueView)
    ensures
        i is ParseError || i is CircularDependency || i is UnusedFile || i is BannedApi || i
            is LowMaintainability ==> i.level() == "error"@,
        i is RefactorTarget || i is FeatureFlag ==> i.level() == "note"@,
        i matches IssueView::Smell { rule, .. } ==> (rule == SmellRule::MutableDefault || rule
            == SmellRule::RaiseFromNone || rule == SmellRule::MoneyAsFloat || rule
            == SmellRule::BannedApi || rule == SmellRule::NoExplicitAny ==> i.level() == "error"@),
        i.level() == "error"@ || i.level() == "warning"@ || i.level() == "note"@,
{
}

} // verus!
