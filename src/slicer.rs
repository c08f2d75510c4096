//! The configuration as it stood at a given commit.

use vstd::prelude::*;
use crate::config::ConfigFile;

verus! {

/// What went wrong in driving the planner.
#[derive(Debug, PartialEq, Eq)]
pub enum PlanError {
    /// An event came out of the order `start_pr (start_commit (start_file finish_file)*
    /// finish_commit)* finish_pr`.
    PlanProtocol,
    /// The configuration was asked for before any commit was sliced to.
    NotSliced,
}

/// Either the repository's own view, or the configuration read at one commit.
pub enum Slicer {
    Orig,
    Sliced(String, ConfigFile),
}

impl Slicer {
    /// The configuration the slicer yields, once sliced.
    pub open spec fn sliced_file(self) -> Option<ConfigFile> {
        match self {
            Slicer::Sliced(_, f) => Some(f),
            Slicer::Orig => None,
        }
    }

    pub fn init() -> (r: Slicer)
        ensures
            r is Orig,
    {
        Slicer::Orig
    }

    /// The configuration of the commit sliced to.
    pub fn file(&self) -> (r: Result<&ConfigFile, PlanError>)
        ensures
            match self.sliced_file() {
                None => r == Err::<&ConfigFile, PlanError>(PlanError::NotSliced),
                Some(f) => r matches Ok(g) && *g == f,
            },
    {
        match self {
            Slicer::Sliced(_, file) => Ok(file),
            Slicer::Orig => Err(PlanError::NotSliced),
        }
    }

    /// The commit sliced to, if any.
    pub fn slice(&self) -> (r: Option<&String>)
        ensures
            match self {
                Slicer::Orig => r is None,
                Slicer::Sliced(id, _) => r == Some(id),
            },
    {
        match self {
            Slicer::Sliced(id, _) => Some(id),
            Slicer::Orig => None,
        }
    }

    /// Moves the view to commit `id`, whose configuration is `file`.
    pub fn slice_to(&mut self, id: String, file: ConfigFile)
        ensures
            *final(self) == Slicer::Sliced(id, file),
    {
        *self = Slicer::Sliced(id, file);
    }
}

/// A slicer in the state that `slice_to(id, file)` leaves yields exactly `file`, the
/// configuration read at commit `id`.
pub proof fn lemma_slice_fidelity(after: Slicer, id: String, file: ConfigFile)
    requires
        after == Slicer::Sliced(id, file),
    ensures
        after.sliced_file() == Some(file),
        after matches Slicer::Sliced(i, _) && i == id,
{
}

/// The first configuration recorded for commit `oid`.
pub open spec fn book_lookup(es: Seq<(String, ConfigFile)>, oid: Seq<char>) -> Option<ConfigFile>
    decreases es.len(),
{
    if es.len() == 0 {
        None
    } else if es[0].0@ == oid {
        Some(es[0].1)
    } else {
        book_lookup(es.drop_first(), oid)
    }
}

/// Configurations read at commits, by commit id.
pub struct SliceBook {
    pub entries: Vec<(String, ConfigFile)>,
}

impl SliceBook {
    pub fn new() -> (r: SliceBook)
        ensures
            r.entries@.len() == 0,
    {
        SliceBook { entries: Vec::new() }
    }

    /// Records the configuration read at commit `oid`.
    pub fn insert(&mut self, oid: String, file: ConfigFile)
        ensures
            final(self).entries@ == old(self).entries@.push((oid, file)),
    {
        self.entries.push((oid, file));
    }

    /// The configuration recorded for commit `oid`.
    pub fn lookup(&self, oid: &String) -> (r: Option<&ConfigFile>)
        ensures
            r is None <==> book_lookup(self.entries@, oid@) is None,
            r matches Some(f) ==> book_lookup(self.entries@, oid@) == Some(*f),
    {
        let mut i: usize = 0;
        proof {
            assert(self.entries@.subrange(0, self.entries@.len() as int) =~= self.entries@);
        }
        while i < self.entries.len()
            invariant
                i <= self.entries.len(),
                book_lookup(self.entries@, oid@) == book_lookup(
                    self.entries@.subrange(i as int, self.entries@.len() as int),
                    oid@,
                ),
            decreases self.entries.len() - i,
        {
            proof {
                let rest = self.entries@.subrange(i as int, self.entries@.len() as int);
                assert(rest.drop_first() =~= self.entries@.subrange(i + 1, self.entries@.len() as int));
            }
            if self.entries[i].0 == *oid {
                return Some(&self.entries[i].1);
            }
            i = i + 1;
        }
        None
    }
}

} // verus!
