//! The library's error taxonomy.

use vstd::prelude::*;
use crate::config::ConfigError;
use crate::scan::ScanError;
use crate::slicer::PlanError;

verus! {

/// Everything that can go wrong; none of it is recovered inside the library.
#[derive(Debug, PartialEq, Eq)]
pub enum Error {
    Config(ConfigError),
    Plan(PlanError),
    Scan(ScanError),
    /// A version is not of the shape `MAJOR.MINOR.PATCH`, or a part would overflow.
    BadSemver,
    /// The version control level asked for cannot be had here.
    VcsUnavailable,
    /// A version control level is not one of `none`, `local`, `remote`, `smart`.
    UnknownVcsLevel,
    /// The working tree has changes that are not committed.
    NotClean,
    /// The remote branch cannot be merged by fast-forward.
    NotFastForward,
    /// The head does not name a local branch.
    NotOnBranch,
}

} // verus!
