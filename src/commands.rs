//! What the commands compute before they print or write.

use vstd::prelude::*;
use crate::config::{ConfigError, ConfigFile, ProjectId, has_id, name_count};
use crate::errors::Error;

verus! {

/// Facts gathered before the command line is read.
pub struct EarlyInfo {
    pub project_count: usize,
    pub working_dir: String,
}

impl EarlyInfo {
    pub fn new(project_count: usize, working_dir: String) -> (r: EarlyInfo)
        ensures
            r.project_count == project_count,
            r.working_dir == working_dir,
    {
        EarlyInfo { project_count, working_dir }
    }

    pub fn project_count(&self) -> (r: usize)
        ensures
            r == self.project_count,
    {
        self.project_count
    }

    pub fn working_dir(&self) -> (r: &str)
        ensures
            r@ == self.working_dir@,
    {
        self.working_dir.as_str()
    }
}

/// The early facts of a repository rooted at `root` with configuration `file`.
pub fn early_info(file: &ConfigFile, root: String) -> (r: EarlyInfo)
    ensures
        r.project_count == file.projects@.len(),
        r.working_dir == root,
{
    EarlyInfo::new(file.projects.len(), root)
}

/// The project a command is about: the one with `id`, else the only one named `name`, else
/// the only project of the configuration.
pub fn select_project(cfg: &ConfigFile, id: Option<ProjectId>, name: Option<&str>) -> (r: Result<ProjectId, Error>)
    requires
        cfg.wf(),
    ensures
        match id {
            Some(i) => if has_id(cfg.projects@, i) {
                r == Ok::<ProjectId, Error>(i)
            } else {
                r == Err::<ProjectId, Error>(Error::Config(ConfigError::UnknownProject))
            },
            None => match name {
                Some(n) => (r is Ok <==> name_count(cfg.projects@, n@) == 1) && (r matches Ok(i) ==> exists|j: int|
                    0 <= j < cfg.projects@.len() && cfg.projects@[j].id == i && cfg.projects@[j].name@ == n@),
                None => if cfg.projects@.len() == 1 {
                    r == Ok::<ProjectId, Error>(cfg.projects@[0].id)
                } else {
                    r == Err::<ProjectId, Error>(Error::Config(ConfigError::NoSoloProject))
                },
            },
        },
{
    match id {
        Some(i) => match cfg.index_of(i) {
            Some(_) => Ok(i),
            None => Err(Error::Config(ConfigError::UnknownProject)),
        },
        None => match name {
            Some(n) => match cfg.find_unique(n) {
                Ok(i) => Ok(i),
                Err(e) => Err(Error::Config(e)),
            },
            None => {
                if cfg.projects.len() != 1 {
                    Err(Error::Config(ConfigError::NoSoloProject))
                } else {
                    Ok(cfg.projects[0].id)
                }
            },
        },
    }
}

} // verus!
