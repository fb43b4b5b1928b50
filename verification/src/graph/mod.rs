//! The import graph of a project: files, how imports resolve to them, what is
//! reachable, and which files import each other in circles.
pub mod dotted;
pub mod imports;
pub mod reach;
pub mod registry;
pub mod resolver;
pub mod tarjan;
pub mod tarjan_model;
