//! What can be wrong with a configuration.
use crate::path::{FilePath, PathView};
use vstd::prelude::*;

verus! {

/// What is wrong with a prohibited API.
#[derive(Debug, Clone, Copy, PartialEq, Eq, Structural)]
pub enum BannedProblem {
    DuplicateId,
    ShadowsRule,
    MalformedPath,
    EmptyMessage,
}

impl BannedProblem {
    pub open spec fn words(self) -> Seq<char> {
        match self {
            BannedProblem::DuplicateId => "the id is used twice"@,
            BannedProblem::ShadowsRule => "the id is that of a built-in rule"@,
            BannedProblem::MalformedPath => "the path is not a dotted name"@,
            BannedProblem::EmptyMessage => "the message is empty"@,
        }
    }

    fn as_str(&self) -> (r: &'static str)
        ensures
            r@ == self.words(),
    {
        match self {
            BannedProblem::DuplicateId => "the id is used twice",
            BannedProblem::ShadowsRule => "the id is that of a built-in rule",
            BannedProblem::MalformedPath => "the path is not a dotted name",
            BannedProblem::EmptyMessage => "the message is empty",
        }
    }
}

/// A configuration that cannot be used.
#[derive(Debug)]
pub enum ConfigError {
    Io { path: FilePath, message: String },
    UnknownSmellRule { name: String, field: String, valid: String },
    Toml { path: FilePath, message: String },
    InvalidSuppressGlob { pattern: String, message: String },
    InvalidBoundaryGlob { context: String, pattern: String, message: String },
    /// A boundary rule that both allows and denies.
    ConflictingBoundaryRule { from: String },
    InvalidBannedApi { id: String, problem: BannedProblem },
}

#[allow(inconsistent_fields)]
pub enum ConfigErrorView {
    Io { path: PathView, message: Seq<char> },
    UnknownSmellRule { name: Seq<char>, field: Seq<char>, valid: Seq<char> },
    Toml { path: PathView, message: Seq<char> },
    InvalidSuppressGlob { pattern: Seq<char>, message: Seq<char> },
    InvalidBoundaryGlob { context: Seq<char>, pattern: Seq<char>, message: Seq<char> },
    ConflictingBoundaryRule { from: Seq<char> },
    InvalidBannedApi { id: Seq<char>, problem: BannedProblem },
}

impl View for ConfigError {
    type V = ConfigErrorView;

    open spec fn view(&self) -> ConfigErrorView {
        match self {
            ConfigError::Io { path, message } => ConfigErrorView::Io {
                path: path@,
                message: message@,
            },
            ConfigError::UnknownSmellRule { name, field, valid } => ConfigErrorView::UnknownSmellRule {
                name: name@,
                field: field@,
                valid: valid@,
            },
            ConfigError::Toml { path, message } => ConfigErrorView::Toml {
                path: path@,
                message: message@,
            },
            ConfigError::InvalidSuppressGlob { pattern, message } => ConfigErrorView::InvalidSuppressGlob {
                pattern: pattern@,
                message: message@,
            },
            ConfigError::InvalidBoundaryGlob { context, pattern, message } => ConfigErrorView::InvalidBoundaryGlob {
                context: context@,
                pattern: pattern@,
                message: message@,
            },
            ConfigError::ConflictingBoundaryRule { from } => ConfigErrorView::ConflictingBoundaryRule {
                from: from@,
            },
            ConfigError::InvalidBannedApi { id, problem } => ConfigErrorView::InvalidBannedApi {
                id: id@,
                problem: *problem,
            },
        }
    }
}

/// A text as the standard library's `Debug` writes it: in double quotes, with
/// what cannot be shown escaped.
pub uninterp spec fn debug_text(s: Seq<char>) -> Seq<char>;

/// `Debug` of `str`, by `format!`: named, not spelled out.
#[verifier::external_body]
pub(crate) fn quoted(s: &str) -> (r: String)
    ensures
        r@ == debug_text(s@),
{
    format!("{s:?}")
}

impl ConfigErrorView {
    /// The error in words.
    pub open spec fn words(self) -> Seq<char> {
        match self {
            ConfigErrorView::Io { path, message } => "io error reading "@ + path.text() + ": "@
                + message,
            ConfigErrorView::UnknownSmellRule { name, field, valid } => "unknown smell rule `"@
                + name + "` in [smells]."@ + field + " (valid rules: "@ + valid + ")"@,
            ConfigErrorView::Toml { path, message } => "toml parse error in "@ + path.text()
                + ": "@ + message,
            ConfigErrorView::InvalidSuppressGlob { pattern, message } => "invalid glob in [[suppress]] entry path="@
                + debug_text(pattern) + ": "@ + message,
            ConfigErrorView::InvalidBoundaryGlob { context, pattern, message } => "invalid glob in [[boundaries.zones]] "@
                + context + "="@ + debug_text(pattern) + ": "@ + message,
            ConfigErrorView::ConflictingBoundaryRule { from } => "[[boundaries.rules]] with from="@
                + debug_text(from) + " sets both allow and deny — pick one"@,
            ConfigErrorView::InvalidBannedApi { id, problem } => "invalid [[smells.banned_api]] entry `"@
                + id + "`: "@ + problem.words(),
        }
    }
}

impl ConfigError {
    /// The error in words.
    pub fn describe(&self) -> (r: String)
        ensures
            r@ == self@.words(),
    {
        match self {
            ConfigError::Io { path, message } => {
                let mut r = "io error reading ".to_owned();
                r.append(path.text().as_str());
                r.append(": ");
                r.append(message.as_str());
                r
            },
            ConfigError::UnknownSmellRule { name, field, valid } => {
                let mut r = "unknown smell rule `".to_owned();
                r.append(name.as_str());
                r.append("` in [smells].");
                r.append(field.as_str());
                r.append(" (valid rules: ");
                r.append(valid.as_str());
                r.append(")");
                r
            },
            ConfigError::Toml { path, message } => {
                let mut r = "toml parse error in ".to_owned();
                r.append(path.text().as_str());
                r.append(": ");
                r.append(message.as_str());
                r
            },
            ConfigError::InvalidSuppressGlob { pattern, message } => {
                let mut r = "invalid glob in [[suppress]] entry path=".to_owned();
                r.append(quoted(pattern.as_str()).as_str());
                r.append(": ");
                r.append(message.as_str());
                r
            },
            ConfigError::InvalidBoundaryGlob { context, pattern, message } => {
                let mut r = "invalid glob in [[boundaries.zones]] ".to_owned();
                r.append(context.as_str());
                r.append("=");
                r.append(quoted(pattern.as_str()).as_str());
                r.append(": ");
                r.append(message.as_str());
                r
            },
            ConfigError::ConflictingBoundaryRule { from } => {
                let mut r = "[[boundaries.rules]] with from=".to_owned();
                r.append(quoted(from.as_str()).as_str());
                r.append(" sets both allow and deny — pick one");
                r
            },
            ConfigError::InvalidBannedApi { id, problem } => {
                let mut r = "invalid [[smells.banned_api]] entry `".to_owned();
                r.append(id.as_str());
                r.append("`: ");
                r.append(problem.as_str());
                r
            },
        }
    }
}

} // verus!
