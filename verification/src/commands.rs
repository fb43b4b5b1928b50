//! What the commands are told, and how a run ends.
use crate::issue::{issue_views, Issue, IssueView};
use crate::path::FilePath;
use crate::postprocess::PostFlags;
use crate::report::Format;
use crate::types::Effort;
use vstd::prelude::*;

verus! {

/// A run that was completed and has nothing to object to.
pub const EXIT_CLEAN: u8 = 0;

/// A run that was completed and has findings.
pub const EXIT_FINDINGS: u8 = 1;

/// A run that was not completed. It is never reported as clean, nor as one with
/// findings: whoever relies on a run has to tell apart that the code has problems
/// and that the tool broke.
pub const EXIT_OPERATIONAL: u8 = 2;

/// How a run ended.
#[derive(Debug, Clone, Copy, PartialEq, Eq, Structural)]
pub enum RunEnd {
    Completed { findings: bool },
    Broken,
}

/// The number that a run ends with.
pub open spec fn exit_number(end: RunEnd) -> u8 {
    match end {
        RunEnd::Completed { findings } => if findings {
            EXIT_FINDINGS
        } else {
            EXIT_CLEAN
        },
        RunEnd::Broken => EXIT_OPERATIONAL,
    }
}

/// The number that a run ends with.
pub fn exit_code(end: RunEnd) -> (r: u8)
    ensures
        r == exit_number(end),
{
    match end {
        RunEnd::Completed { findings } => if findings {
            EXIT_FINDINGS
        } else {
            EXIT_CLEAN
        },
        RunEnd::Broken => EXIT_OPERATIONAL,
    }
}

/// The number tells how a run ended: no two ways share one.
pub proof fn exit_codes_tell_runs_apart(a: RunEnd, b: RunEnd)
    requires
        exit_number(a) == exit_number(b),
    ensures
        a == b,
{
}

/// Those findings of a list that are cycles.
pub open spec fn cycles_of(v: Seq<IssueView>) -> Seq<IssueView>
    decreases v.len(),
{
    if v.len() == 0 {
        Seq::empty()
    } else {
        let before = cycles_of(v.drop_last());
        if v.last() is CircularDependency {
            before.push(v.last())
        } else {
            before
        }
    }
}

/// Those findings of a list that are cycles, in order.
pub fn only_cycles(issues: &Vec<Issue>) -> (r: Vec<Issue>)
    ensures
        issue_views(r@) == cycles_of(issue_views(issues@)),
{
    let ghost all = issue_views(issues@);
    let mut r: Vec<Issue> = Vec::new();
    let mut i: usize = 0;
    assert(issue_views(r@) =~= cycles_of(all.take(0)));
    while i < issues.len()
        invariant
            i <= issues@.len(),
            all == issue_views(issues@),
            issue_views(r@) == cycles_of(all.take(i as int)),
        decreases issues@.len() - i,
    {
        proof {
            assert(all.take(i + 1).drop_last() =~= all.take(i as int));
            assert(all.take(i + 1).last() == issues@[i as int]@);
        }
        if matches!(issues[i], Issue::CircularDependency { .. }) {
            let ghost was = issue_views(r@);
            r.push(issues[i].clone());
            assert(issue_views(r@) =~= was.push(issues@[i as int]@));
        }
        i += 1;
    }
    assert(all.take(i as int) =~= all);
    r
}

/// An effort, as it is asked for.
#[derive(Debug, Clone, Copy, PartialEq, Eq, Structural)]
pub enum EffortArg {
    Low,
    Medium,
    High,
}

/// The effort that is asked for.
pub open spec fn effort_of(e: EffortArg) -> Effort {
    match e {
        EffortArg::Low => Effort::Low,
        EffortArg::Medium => Effort::Medium,
        EffortArg::High => Effort::High,
    }
}

impl From<EffortArg> for Effort {
    fn from(e: EffortArg) -> (r: Effort) {
        match e {
            EffortArg::Low => Effort::Low,
            EffortArg::Medium => Effort::Medium,
            EffortArg::High => Effort::High,
        }
    }
}

impl vstd::std_specs::convert::FromSpecImpl<EffortArg> for Effort {
    open spec fn obeys_from_spec() -> bool {
        true
    }

    open spec fn from_spec(e: EffortArg) -> Effort {
        effort_of(e)
    }
}

/// What is asked of the health metrics.
#[derive(Debug)]
pub struct HealthArgs {
    pub path: FilePath,
    pub cyclomatic: u32,
    pub cognitive: u32,
    pub maintainability: u32,
    pub hotspot_top: usize,
    pub top: Option<usize>,
    pub targets: bool,
    pub target_effort: Option<EffortArg>,
    pub format: Format,
    pub post: PostFlags,
}

/// What the health metrics are told.
#[derive(Debug, Clone, Copy)]
pub struct HealthLimits {
    pub cyclomatic_threshold: u32,
    pub cognitive_threshold: u32,
    pub maintainability_threshold: u32,
    pub hotspot_top_n: usize,
    pub top: Option<usize>,
    pub targets: bool,
    pub target_effort: Option<Effort>,
}

impl HealthArgs {
    /// What the health metrics are told.
    pub fn limits(&self) -> (r: HealthLimits)
        ensures
            r.cyclomatic_threshold == self.cyclomatic,
            r.cognitive_threshold == self.cognitive,
            r.maintainability_threshold == self.maintainability,
            r.hotspot_top_n == self.hotspot_top,
            r.top == self.top,
            r.targets == self.targets,
            r.target_effort == (match self.target_effort {
                Some(e) => Some(effort_of(e)),
                None => None,
            }),
    {
        let target_effort = match self.target_effort {
            Some(e) => Some(Effort::from(e)),
            None => None,
        };
        HealthLimits {
            cyclomatic_threshold: self.cyclomatic,
            cognitive_threshold: self.cognitive,
            maintainability_threshold: self.maintainability,
            hotspot_top_n: self.hotspot_top,
            top: self.top,
            targets: self.targets,
            target_effort,
        }
    }
}

/// A service that runs checks on changes.
#[derive(Debug, Clone, Copy, PartialEq, Eq, Structural)]
pub enum Provider {
    /// GitHub Actions, with results for code scanning.
    Github,
    /// GitLab CI, with rules for merge requests.
    Gitlab,
}

impl Provider {
    /// The file that holds the template for the service.
    pub fn template(&self) -> (r: &'static str)
        ensures
            r@ == (match self {
                Provider::Github => "templates/github_actions.yml"@,
                Provider::Gitlab => "templates/gitlab_ci.yml"@,
            }),
    {
        match self {
            Provider::Github => "templates/github_actions.yml",
            Provider::Gitlab => "templates/gitlab_ci.yml",
        }
    }
}

/// How settings are shown.
#[derive(Debug, Clone, Copy, PartialEq, Eq, Structural)]
pub enum ConfigFormat {
    /// As they are written in `pyllow.toml`.
    Toml,
    Json,
}

impl Default for ConfigFormat {
    fn default() -> (r: Self)
        ensures
            r == ConfigFormat::Toml,
    {
        ConfigFormat::Toml
    }
}

/// A run exits with zero if and only if it was completed without findings, with one
/// if and only if it was completed with findings, and else with two.
pub proof fn only_clean_runs_exit_with_zero(end: RunEnd)
    ensures
        exit_number(end) == 0 <==> end == (RunEnd::Completed { findings: false }),
        exit_number(end) == 1 <==> end == (RunEnd::Completed { findings: true }),
        exit_number(end) == 2 <==> end == RunEnd::Broken,
{
}

/// Asked for cycles alone, a run keeps exactly the cycles, in their order.
pub proof fn only_cycles_are_kept(v: Seq<IssueView>)
    ensures
        cycles_of(v) == v.filter(|i: IssueView| i is CircularDependency),
    decreases v.len(),
{
    reveal(Seq::filter);
    if v.len() > 0 {
        only_cycles_are_kept(v.drop_last());
    }
}

} // verus!
