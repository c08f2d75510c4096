//! Semantic version management for the projects of a monorepo.
//!
//! Each project owns a set of paths and a version mark. Between the previous release and
//! the head, every commit is attributed to the projects that owned its paths when it was
//! made; commits are grouped by pull request, sized by their kind, lifted through the
//! dependency graph, and gathered into ordered, de-duplicated change logs. The release then
//! grows each version by its size.

pub mod errors;
pub mod text;
pub mod size;
pub mod glob;
pub mod config;
pub mod history;
pub mod slicer;
pub mod plan;
pub mod order;
pub mod planning;
pub mod laws;
pub mod last_commits;
pub mod tags;
pub mod analyze;
pub mod scan;
pub mod versions;
pub mod vcs;
pub mod mono;
pub mod commands;
