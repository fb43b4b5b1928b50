//! Codebase intelligence for Python: what is unused, what imports what, and
//! what is shown of it.
//!
//! Modules are read by [`parse`] and [`extract`], joined by [`graph`], and kept
//! alive by what [`plugins`] know of frameworks. [`config`] holds the settings of
//! a project. [`issue`] has the findings; [`selection`], [`scope`] and [`audit`]
//! say which of them count, [`counts`] and [`postprocess`] what follows from
//! them, and [`report`] how they are shown.
pub mod ast;
pub mod audit;
pub mod collections;
pub mod commands;
pub mod config;
pub mod counts;
pub mod dupes;
pub mod extract;
pub mod fix;
pub mod graph;
pub mod init;
pub mod inventory;
pub mod issue;
pub mod migrate;
pub mod order;
pub mod parse;
pub mod path;
pub mod plugins;
pub mod postprocess;
pub mod report;
pub mod scope;
pub mod search;
pub mod selection;
pub mod smells;
pub mod text;
pub mod types;
pub mod walker;
pub mod watch;
