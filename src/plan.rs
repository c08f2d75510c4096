//! The release planner: attributes commits to projects, rolls sizes up per pull request,
//! lifts sizes through dependencies, and orders and de-duplicates the change logs.

use vstd::prelude::*;
use crate::config::{ConfigFile, Project, ProjectId};
use crate::history::{CommitInfo, FullPr};
use crate::size::Size;
use crate::slicer::{PlanError, Slicer};
use crate::order::{order_change_log, ordered_from, sorted_by_close};

verus! {

/// One commit as recorded in a project's change log.
pub struct LoggedCommit {
    pub oid: String,
    pub message: String,
    pub size: Size,
    /// The commit touches a path the project covered when the commit was made.
    pub applies: bool,
    /// An earlier-closed pull request already claimed the commit.
    pub duplicate: bool,
}

impl LoggedCommit {
    /// The commit counts toward the project's release.
    pub open spec fn is_included(&self) -> bool {
        self.applies && !self.duplicate
    }

    pub fn new(oid: String, message: String, size: Size) -> (r: LoggedCommit)
        ensures
            r == (LoggedCommit { oid, message, size, applies: false, duplicate: false }),
    {
        LoggedCommit { oid, message, size, applies: false, duplicate: false }
    }

    pub fn applies(&self) -> (r: bool)
        ensures
            r == self.applies,
    {
        self.applies
    }

    pub fn duplicate(&self) -> (r: bool)
        ensures
            r == self.duplicate,
    {
        self.duplicate
    }

    pub fn included(&self) -> (r: bool)
        ensures
            r == self.is_included(),
    {
        self.applies && !self.duplicate
    }

    pub fn oid(&self) -> (r: &str)
        ensures
            r@ == self.oid@,
    {
        self.oid.as_str()
    }

    pub fn message(&self) -> (r: &str)
        ensures
            r@ == self.message@,
    {
        self.message.as_str()
    }

    pub fn size(&self) -> (r: Size)
        ensures
            r == self.size,
    {
        self.size
    }
}

/// A pull request as recorded in a project's change log.
pub struct LoggedPr {
    pub number: u32,
    /// When the pull request was closed, in seconds since the epoch.
    pub closed_at: i64,
    pub commits: Vec<LoggedCommit>,
}

impl LoggedPr {
    pub fn empty(number: u32, closed_at: i64) -> (r: LoggedPr)
        ensures
            r.number == number,
            r.closed_at == closed_at,
            r.commits@.len() == 0,
    {
        LoggedPr { number, closed_at, commits: Vec::new() }
    }

    pub fn capture(pr: &FullPr) -> (r: LoggedPr)
        ensures
            r.number == pr.number,
            r.closed_at == pr.closed_at,
            r.commits@.len() == 0,
    {
        LoggedPr::empty(pr.number, pr.closed_at)
    }

    pub fn number(&self) -> (r: u32)
        ensures
            r == self.number,
    {
        self.number
    }

    pub fn closed_at(&self) -> (r: i64)
        ensures
            r == self.closed_at,
    {
        self.closed_at
    }

    pub fn commits(&self) -> (r: &Vec<LoggedCommit>)
        ensures
            r == &self.commits,
    {
        &self.commits
    }
}

/// The pull requests that count toward one project's release, each with its size.
pub struct ChangeLog {
    pub entries: Vec<(LoggedPr, Size)>,
}

impl ChangeLog {
    pub fn empty() -> (r: ChangeLog)
        ensures
            r.entries@.len() == 0,
    {
        ChangeLog { entries: Vec::new() }
    }

    pub fn entries(&self) -> (r: &Vec<(LoggedPr, Size)>)
        ensures
            r == &self.entries,
    {
        &self.entries
    }

    pub fn add_entry(&mut self, pr: LoggedPr, size: Size)
        ensures
            final(self).entries@ == old(self).entries@.push((pr, size)),
    {
        self.entries.push((pr, size));
    }

    pub fn is_empty(&self) -> (r: bool)
        ensures
            r == (self.entries@.len() == 0),
    {
        self.entries.len() == 0
    }
}

/// One project's planned increment and change log.
pub struct Incr {
    pub id: ProjectId,
    pub size: Size,
    pub change_log: ChangeLog,
}

/// The outcome of planning: an increment per current project, in configuration order,
/// and the pull requests that touched no project.
pub struct Plan {
    pub incrs: Vec<Incr>,
    pub ineffective: Vec<LoggedPr>,
}

impl Plan {
    pub fn incrs(&self) -> (r: &Vec<Incr>)
        ensures
            r == &self.incrs,
    {
        &self.incrs
    }

    pub fn ineffective(&self) -> (r: &Vec<LoggedPr>)
        ensures
            r == &self.ineffective,
    {
        &self.ineffective
    }
}

/// The largest size among the commits that apply, if any applies.
pub open spec fn applied_size(cs: Seq<LoggedCommit>) -> Option<Size>
    decreases cs.len(),
{
    if cs.len() == 0 {
        None
    } else {
        let rest = applied_size(cs.drop_last());
        if cs.last().applies {
            match rest {
                Some(s) => Some(s.join(cs.last().size)),
                None => Some(cs.last().size),
            }
        } else {
            rest
        }
    }
}

/// The largest size among the included commits, or no change when none is included.
pub open spec fn included_size(cs: Seq<LoggedCommit>) -> Size
    decreases cs.len(),
{
    if cs.len() == 0 {
        Size::NoChange
    } else if cs.last().is_included() {
        included_size(cs.drop_last()).join(cs.last().size)
    } else {
        included_size(cs.drop_last())
    }
}

/// Where the builder stands in the event protocol.
#[derive(Clone, Copy, Debug, PartialEq, Eq, Structural)]
pub enum Phase {
    Idle,
    InPr,
    InCommit,
}

/// Whether the project with this id, as the sliced configuration has it, covers `path`.
pub open spec fn attributed(sliced: ConfigFile, id: ProjectId, path: Seq<char>) -> bool {
    exists|j: int|
        0 <= j < sliced.projects@.len() && #[trigger] sliced.projects@[j].id == id
            && sliced.projects@[j].covers_path(path)
}

/// The project at position `b` depends on the project at position `a`.
pub open spec fn depends_on(ps: Seq<Project>, b: int, a: int) -> bool {
    exists|d: int| 0 <= d < ps[b].depends@.len() && #[trigger] ps[b].depends@[d] == ps[a].id
}

/// `path` lists project positions, each depending on the one before it.
pub open spec fn is_dep_chain(ps: Seq<Project>, path: Seq<int>) -> bool {
    &&& path.len() > 0
    &&& forall|i: int| 0 <= i < path.len() ==> 0 <= #[trigger] path[i] < ps.len()
    &&& forall|i: int| 0 <= i < path.len() - 1 ==> #[trigger] depends_on(ps, path[i + 1], path[i])
}

/// The size at position `k` is the size that some project upstream of `k`, or `k` itself,
/// had in `before`.
pub open spec fn size_from_upstream(ps: Seq<Project>, before: Seq<Incr>, k: int, size: Size) -> bool {
    exists|path: Seq<int>|
        #[trigger] is_dep_chain(ps, path) && path.last() == k && size == before[path[0]].size
}

/// How far the sizes stand below the top of the lattice, summed.
pub open spec fn deficit(s: Seq<Incr>) -> nat
    decreases s.len(),
{
    if s.len() == 0 {
        0
    } else {
        (4 - s.last().size.rank()) as nat + deficit(s.drop_last())
    }
}

proof fn lemma_deficit_grow(s: Seq<Incr>, k: int, x: Incr)
    requires
        0 <= k < s.len(),
        x.size.rank() > s[k].size.rank(),
    ensures
        deficit(s.update(k, x)) < deficit(s),
    decreases s.len(),
{
    if k < s.len() - 1 {
        assert(s.update(k, x).drop_last() =~= s.drop_last().update(k, x));
        lemma_deficit_grow(s.drop_last(), k, x);
    } else {
        assert(s.update(k, x).drop_last() =~= s.drop_last());
    }
}

/// Some project's record of the pull request has an applying commit.
pub open spec fn applies_somewhere(prs: Seq<LoggedPr>) -> bool {
    exists|i: int| 0 <= i < prs.len() && applied_size(#[trigger] prs[i].commits@) is Some
}

/// Consumes pull-request, commit and file events and accumulates a plan.
pub struct PlanBuilder {
    pub current: ConfigFile,
    pub prev: Slicer,
    pub phase: Phase,
    pub on_number: u32,
    pub on_closed_at: i64,
    /// The pull request in progress as each current project sees it, in configuration order.
    pub on_pr_sizes: Vec<LoggedPr>,
    /// The id of the commit in progress.
    pub on_commit: String,
    /// One entry per current project, in configuration order.
    pub incrs: Vec<Incr>,
    pub ineffective: Vec<LoggedPr>,
}

impl PlanBuilder {
    pub open spec fn wf(&self) -> bool {
        &&& self.current.wf()
        &&& self.incrs@.len() == self.current.projects@.len()
        &&& forall|k: int|
            0 <= k < self.incrs@.len() ==> #[trigger] self.incrs@[k].id == self.current.projects@[k].id
        &&& (!(self.phase is Idle) ==> self.on_pr_sizes@.len() == self.current.projects@.len())
        &&& (self.phase is InCommit ==> self.prev is Sliced)
        &&& (self.phase is InCommit ==> forall|k: int|
            0 <= k < self.on_pr_sizes@.len() ==> (#[trigger] self.on_pr_sizes@[k]).commits@.len() > 0
                && self.on_pr_sizes@[k].commits@.last().oid@ == self.on_commit@)
    }

    /// The configuration of the commit in progress.
    pub open spec fn sliced(&self) -> ConfigFile {
        match self.prev {
            Slicer::Sliced(_, f) => f,
            Slicer::Orig => self.current,
        }
    }

    pub fn create(current: ConfigFile) -> (r: PlanBuilder)
        requires
            current.wf(),
        ensures
            r.wf(),
            r.current == current,
            r.phase is Idle,
            r.prev is Orig,
            r.ineffective@.len() == 0,
            forall|k: int|
                0 <= k < r.incrs@.len() ==> (#[trigger] r.incrs@[k]).size == Size::NoChange
                    && r.incrs@[k].change_log.entries@.len() == 0,
    {
        let mut incrs: Vec<Incr> = Vec::new();
        let n = current.projects.len();
        let mut k: usize = 0;
        while k < n
            invariant
                n == current.projects@.len(),
                k <= n,
                incrs@.len() == k,
                forall|j: int| 0 <= j < k ==> (#[trigger] incrs@[j]).id == current.projects@[j].id
                    && incrs@[j].size == Size::NoChange && incrs@[j].change_log.entries@.len() == 0,
            decreases n - k,
        {
            incrs.push(Incr { id: current.projects[k].id, size: Size::NoChange, change_log: ChangeLog::empty() });
            k = k + 1;
        }
        PlanBuilder {
            current,
            prev: Slicer::init(),
            phase: Phase::Idle,
            on_number: 0,
            on_closed_at: 0,
            on_pr_sizes: Vec::new(),
            on_commit: String::new(),
            incrs,
            ineffective: Vec::new(),
        }
    }

    /// Opens a pull request: every current project starts an empty record of it.
    pub fn start_pr(&mut self, pr: &FullPr) -> (r: Result<(), PlanError>)
        requires
            old(self).wf(),
        ensures
            final(self).wf(),
            r is Err <==> !(old(self).phase is Idle),
            r is Err ==> *final(self) == *old(self),
            r is Ok ==> {
                &&& final(self).phase is InPr
                &&& final(self).on_number == pr.number
                &&& final(self).on_closed_at == pr.closed_at
                &&& final(self).current == old(self).current
                &&& final(self).prev == old(self).prev
                &&& final(self).incrs == old(self).incrs
                &&& final(self).ineffective == old(self).ineffective
                &&& forall|k: int| 0 <= k < final(self).on_pr_sizes@.len() ==> {
                    &&& (#[trigger] final(self).on_pr_sizes@[k]).number == pr.number
                    &&& final(self).on_pr_sizes@[k].closed_at == pr.closed_at
                    &&& final(self).on_pr_sizes@[k].commits@.len() == 0
                }
            },
    {
        if self.phase != Phase::Idle {
            return Err(PlanError::PlanProtocol);
        }
        let n = self.current.projects.len();
        let mut prs: Vec<LoggedPr> = Vec::new();
        let mut k: usize = 0;
        while k < n
            invariant
                n == self.current.projects@.len(),
                k <= n,
                prs@.len() == k,
                forall|j: int| 0 <= j < k ==> {
                    &&& (#[trigger] prs@[j]).number == pr.number
                    &&& prs@[j].closed_at == pr.closed_at
                    &&& prs@[j].commits@.len() == 0
                },
            decreases n - k,
        {
            prs.push(LoggedPr::capture(pr));
            k = k + 1;
        }
        self.on_pr_sizes = prs;
        self.on_number = pr.number;
        self.on_closed_at = pr.closed_at;
        self.phase = Phase::InPr;
        Ok(())
    }

    /// Opens a commit of the pull request in progress. `sliced` is the configuration as it
    /// stood at that commit; every current project records the commit, sized by its kind,
    /// as not yet applying.
    pub fn start_commit(&mut self, commit: &CommitInfo, sliced: ConfigFile) -> (r: Result<(), PlanError>)
        requires
            old(self).wf(),
        ensures
            final(self).wf(),
            r is Err <==> !(old(self).phase is InPr),
            r is Err ==> *final(self) == *old(self),
            r is Ok ==> {
                &&& final(self).phase is InCommit
                &&& final(self).prev == Slicer::Sliced(commit.oid, sliced)
                &&& final(self).on_commit == commit.oid
                &&& final(self).current == old(self).current
                &&& final(self).incrs == old(self).incrs
                &&& final(self).ineffective == old(self).ineffective
                &&& final(self).on_number == old(self).on_number
                &&& final(self).on_closed_at == old(self).on_closed_at
                &&& final(self).on_pr_sizes@.len() == old(self).on_pr_sizes@.len()
                &&& forall|k: int| 0 <= k < final(self).on_pr_sizes@.len() ==> {
                    &&& (#[trigger] final(self).on_pr_sizes@[k]).number == old(self).on_pr_sizes@[k].number
                    &&& final(self).on_pr_sizes@[k].closed_at == old(self).on_pr_sizes@[k].closed_at
                    &&& final(self).on_pr_sizes@[k].commits@ == old(self).on_pr_sizes@[k].commits@.push(
                        LoggedCommit {
                            oid: commit.oid,
                            message: commit.summary,
                            size: old(self).current.projects@[k].size_of_kind(
                                old(self).current.sizes@,
                                commit.kind@,
                            ),
                            applies: false,
                            duplicate: false,
                        },
                    )
                }
            },
    {
        if self.phase != Phase::InPr {
            return Err(PlanError::PlanProtocol);
        }
        let n = self.on_pr_sizes.len();
        let mut k: usize = 0;
        while k < n
            invariant
                self.wf(),
                self.phase is InPr,
                n == self.on_pr_sizes@.len(),
                k <= n,
                self.current == old(self).current,
                self.incrs == old(self).incrs,
                self.ineffective == old(self).ineffective,
                self.prev == old(self).prev,
                self.on_number == old(self).on_number,
                self.on_closed_at == old(self).on_closed_at,
                forall|j: int| 0 <= j < n ==> {
                    &&& (#[trigger] self.on_pr_sizes@[j]).number == old(self).on_pr_sizes@[j].number
                    &&& self.on_pr_sizes@[j].closed_at == old(self).on_pr_sizes@[j].closed_at
                    &&& self.on_pr_sizes@[j].commits@ == if j < k {
                        old(self).on_pr_sizes@[j].commits@.push(
                            LoggedCommit {
                                oid: commit.oid,
                                message: commit.summary,
                                size: old(self).current.projects@[j].size_of_kind(
                                    old(self).current.sizes@,
                                    commit.kind@,
                                ),
                                applies: false,
                                duplicate: false,
                            },
                        )
                    } else {
                        old(self).on_pr_sizes@[j].commits@
                    }
                },
            decreases n - k,
        {
            let size = self.current.projects[k].size(&self.current.sizes, &commit.kind);
            let logged = LoggedCommit::new(commit.oid.clone(), commit.summary.clone(), size);
            self.on_pr_sizes[k].commits.push(logged);
            k = k + 1;
        }
        self.prev.slice_to(commit.oid.clone(), sliced);
        self.on_commit = commit.oid.clone();
        self.phase = Phase::InCommit;
        Ok(())
    }

    /// Closes the commit in progress.
    pub fn finish_commit(&mut self) -> (r: Result<(), PlanError>)
        requires
            old(self).wf(),
        ensures
            final(self).wf(),
            r is Err <==> !(old(self).phase is InCommit),
            r is Err ==> *final(self) == *old(self),
            r is Ok ==> *final(self) == (PlanBuilder { phase: Phase::InPr, ..*old(self) }),
    {
        if self.phase != Phase::InCommit {
            return Err(PlanError::PlanProtocol);
        }
        self.phase = Phase::InPr;
        Ok(())
    }

    /// A file of the commit in progress: each current project whose namesake in the sliced
    /// configuration covers `path` marks the commit as applying.
    pub fn start_file(&mut self, path: &str) -> (r: Result<(), PlanError>)
        requires
            old(self).wf(),
        ensures
            final(self).wf(),
            r is Err <==> !(old(self).phase is InCommit),
            r is Err ==> *final(self) == *old(self),
            r is Ok ==> {
                &&& final(self).phase == old(self).phase
                &&& final(self).current == old(self).current
                &&& final(self).prev == old(self).prev
                &&& final(self).on_commit == old(self).on_commit
                &&& final(self).on_number == old(self).on_number
                &&& final(self).on_closed_at == old(self).on_closed_at
                &&& final(self).incrs == old(self).incrs
                &&& final(self).ineffective == old(self).ineffective
                &&& final(self).on_pr_sizes@.len() == old(self).on_pr_sizes@.len()
                &&& forall|k: int| 0 <= k < final(self).on_pr_sizes@.len() ==> {
                    let before = old(self).on_pr_sizes@[k];
                    let last = before.commits@.last();
                    &&& (#[trigger] final(self).on_pr_sizes@[k]).number == before.number
                    &&& final(self).on_pr_sizes@[k].closed_at == before.closed_at
                    &&& final(self).on_pr_sizes@[k].commits@ == before.commits@.update(
                        before.commits@.len() - 1,
                        LoggedCommit {
                            applies: last.applies || attributed(
                                old(self).sliced(),
                                old(self).current.projects@[k].id,
                                path@,
                            ),
                            ..last
                        },
                    )
                }
            },
    {
        if self.phase != Phase::InCommit {
            return Err(PlanError::PlanProtocol);
        }
        let sliced = match &self.prev {
            Slicer::Sliced(_, f) => f,
            Slicer::Orig => {
                return Err(PlanError::PlanProtocol);
            },
        };
        let m = sliced.projects.len();
        let n = self.on_pr_sizes.len();
        let mut j: usize = 0;
        while j < m
            invariant
                old(self).wf(),
                old(self).phase is InCommit,
                old(self).sliced() == *sliced,
                m == sliced.projects@.len(),
                n == old(self).on_pr_sizes@.len(),
                j <= m,
                self.phase == old(self).phase,
                self.current == old(self).current,
                self.prev == old(self).prev,
                self.on_commit == old(self).on_commit,
                self.on_number == old(self).on_number,
                self.on_closed_at == old(self).on_closed_at,
                self.incrs == old(self).incrs,
                self.ineffective == old(self).ineffective,
                self.on_pr_sizes@.len() == n,
                forall|k: int| 0 <= k < n ==> {
                    let before = old(self).on_pr_sizes@[k];
                    let last = before.commits@.last();
                    &&& (#[trigger] self.on_pr_sizes@[k]).number == before.number
                    &&& self.on_pr_sizes@[k].closed_at == before.closed_at
                    &&& self.on_pr_sizes@[k].commits@ == before.commits@.update(
                        before.commits@.len() - 1,
                        LoggedCommit {
                            applies: last.applies || exists|i: int|
                                0 <= i < j && #[trigger] sliced.projects@[i].id
                                    == old(self).current.projects@[k].id
                                    && sliced.projects@[i].covers_path(path@),
                            ..last
                        },
                    )
                },
            decreases m - j,
        {
            let id = sliced.projects[j].id;
            match self.current.index_of(id) {
                Some(k) => {
                    if sliced.projects[j].does_cover(path) {
                        let l = self.on_pr_sizes[k].commits.len() - 1;
                        self.on_pr_sizes[k].commits[l].applies = true;
                    }
                },
                None => {},
            }
            proof {
                assert forall|k: int| 0 <= k < n implies {
                    let before = old(self).on_pr_sizes@[k];
                    let last = before.commits@.last();
                    &&& (#[trigger] self.on_pr_sizes@[k]).number == before.number
                    &&& self.on_pr_sizes@[k].closed_at == before.closed_at
                    &&& self.on_pr_sizes@[k].commits@ == before.commits@.update(
                        before.commits@.len() - 1,
                        LoggedCommit {
                            applies: last.applies || exists|i: int|
                                0 <= i < j + 1 && #[trigger] sliced.projects@[i].id
                                    == old(self).current.projects@[k].id
                                    && sliced.projects@[i].covers_path(path@),
                            ..last
                        },
                    )
                } by {
                    let before = old(self).on_pr_sizes@[k];
                    let last = before.commits@.last();
                    let a_new = exists|i: int|
                        0 <= i < j + 1 && #[trigger] sliced.projects@[i].id
                            == old(self).current.projects@[k].id
                            && sliced.projects@[i].covers_path(path@);
                    let a_old = exists|i: int|
                        0 <= i < j && #[trigger] sliced.projects@[i].id
                            == old(self).current.projects@[k].id
                            && sliced.projects@[i].covers_path(path@);
                    let here = sliced.projects@[j as int].id == old(self).current.projects@[k].id
                        && sliced.projects@[j as int].covers_path(path@);
                    assert(a_new == (a_old || here));
                }
            }
            j = j + 1;
        }
        proof {
            assert forall|k: int| 0 <= k < n implies (exists|i: int|
                0 <= i < m && #[trigger] sliced.projects@[i].id == old(self).current.projects@[k].id
                    && sliced.projects@[i].covers_path(path@)) == attributed(
                old(self).sliced(),
                old(self).current.projects@[k].id,
                path@,
            ) by {}
        }
        Ok(())
    }

    /// Closes the pull request in progress. Each current project with an applying commit in
    /// it grows to the largest applying size and logs the pull request with that size; a pull
    /// request that applies to no project is recorded as ineffective.
    pub fn finish_pr(&mut self) -> (r: Result<(), PlanError>)
        requires
            old(self).wf(),
        ensures
            final(self).wf(),
            r is Err <==> !(old(self).phase is InPr),
            r is Err ==> *final(self) == *old(self),
            r is Ok ==> {
                &&& final(self).phase is Idle
                &&& final(self).current == old(self).current
                &&& final(self).prev == old(self).prev
                &&& final(self).incrs@.len() == old(self).incrs@.len()
                &&& forall|k: int| 0 <= k < final(self).incrs@.len() ==> {
                    let pr = old(self).on_pr_sizes@[k];
                    let before = old(self).incrs@[k];
                    &&& (#[trigger] final(self).incrs@[k]).id == before.id
                    &&& final(self).incrs@[k].size == match applied_size(pr.commits@) {
                        Some(s) => before.size.join(s),
                        None => before.size,
                    }
                    &&& final(self).incrs@[k].change_log.entries@ == match applied_size(pr.commits@) {
                        Some(s) => before.change_log.entries@.push((pr, s)),
                        None => before.change_log.entries@,
                    }
                }
                &&& if applies_somewhere(old(self).on_pr_sizes@) {
                    final(self).ineffective@ == old(self).ineffective@
                } else {
                    &&& final(self).ineffective@.len() == old(self).ineffective@.len() + 1
                    &&& final(self).ineffective@.drop_last() == old(self).ineffective@
                    &&& final(self).ineffective@.last().number == old(self).on_number
                    &&& final(self).ineffective@.last().closed_at == old(self).on_closed_at
                    &&& final(self).ineffective@.last().commits@.len() == 0
                }
            },
    {
        if self.phase != Phase::InPr {
            return Err(PlanError::PlanProtocol);
        }
        let mut prs: Vec<LoggedPr> = Vec::new();
        core::mem::swap(&mut prs, &mut self.on_pr_sizes);
        let n = prs.len();
        let mut found = false;
        let mut k: usize = n;
        while k > 0
            invariant
                old(self).wf(),
                old(self).phase is InPr,
                n == old(self).on_pr_sizes@.len(),
                k <= n,
                prs@ == old(self).on_pr_sizes@.take(k as int),
                self.current == old(self).current,
                self.prev == old(self).prev,
                self.phase == old(self).phase,
                self.ineffective == old(self).ineffective,
                self.on_number == old(self).on_number,
                self.on_closed_at == old(self).on_closed_at,
                self.incrs@.len() == n,
                found <==> exists|i: int|
                    k <= i < n && applied_size(#[trigger] old(self).on_pr_sizes@[i].commits@) is Some,
                forall|i: int| 0 <= i < n ==> {
                    let pr = old(self).on_pr_sizes@[i];
                    let before = old(self).incrs@[i];
                    &&& (#[trigger] self.incrs@[i]).id == before.id
                    &&& self.incrs@[i].size == if i < k {
                        before.size
                    } else {
                        match applied_size(pr.commits@) {
                            Some(s) => before.size.join(s),
                            None => before.size,
                        }
                    }
                    &&& self.incrs@[i].change_log.entries@ == if i < k {
                        before.change_log.entries@
                    } else {
                        match applied_size(pr.commits@) {
                            Some(s) => before.change_log.entries@.push((pr, s)),
                            None => before.change_log.entries@,
                        }
                    }
                },
            decreases k,
        {
            k = k - 1;
            let popped = prs.pop();
            proof {
                assert(old(self).on_pr_sizes@.take(k + 1).drop_last() =~= old(self).on_pr_sizes@.take(k as int));
            }
            match popped {
                Some(lp) => {
                    match applied_size_of(&lp.commits) {
                        Some(s) => {
                            found = true;
                            self.incrs[k].size = self.incrs[k].size.larger(s);
                            self.incrs[k].change_log.entries.push((lp, s));
                        },
                        None => {},
                    }
                },
                None => {},
            }
        }
        if !found {
            self.ineffective.push(LoggedPr::empty(self.on_number, self.on_closed_at));
        }
        self.phase = Phase::Idle;
        Ok(())
    }

    spec fn lifted_from(&self, before: PlanBuilder) -> bool {
        &&& self.wf()
        &&& self.current == before.current
        &&& self.prev == before.prev
        &&& self.phase == before.phase
        &&& self.on_pr_sizes == before.on_pr_sizes
        &&& self.on_commit == before.on_commit
        &&& self.on_number == before.on_number
        &&& self.on_closed_at == before.on_closed_at
        &&& self.ineffective == before.ineffective
        &&& self.incrs@.len() == before.incrs@.len()
        &&& forall|k: int| 0 <= k < self.incrs@.len() ==> {
            &&& (#[trigger] self.incrs@[k]).id == before.incrs@[k].id
            &&& self.incrs@[k].change_log == before.incrs@[k].change_log
            &&& self.incrs@[k].size.rank() >= before.incrs@[k].size.rank()
            &&& size_from_upstream(self.current.projects@, before.incrs@, k, self.incrs@[k].size)
        }
    }

    /// Lifts sizes along dependencies: afterwards no project stands below a project it
    /// depends on, no size has shrunk, and every size is one that the project itself or a
    /// project upstream of it had before.
    pub fn handle_deps(&mut self)
        requires
            old(self).wf(),
        ensures
            final(self).wf(),
            final(self).current == old(self).current,
            final(self).prev == old(self).prev,
            final(self).phase == old(self).phase,
            final(self).on_pr_sizes == old(self).on_pr_sizes,
            final(self).ineffective == old(self).ineffective,
            final(self).incrs@.len() == old(self).incrs@.len(),
            forall|k: int| 0 <= k < final(self).incrs@.len() ==> {
                &&& (#[trigger] final(self).incrs@[k]).id == old(self).incrs@[k].id
                &&& final(self).incrs@[k].change_log == old(self).incrs@[k].change_log
                &&& final(self).incrs@[k].size.rank() >= old(self).incrs@[k].size.rank()
                &&& size_from_upstream(
                    old(self).current.projects@,
                    old(self).incrs@,
                    k,
                    final(self).incrs@[k].size,
                )
            },
            forall|a: int, b: int|
                0 <= a < final(self).incrs@.len() && 0 <= b < final(self).incrs@.len()
                    && #[trigger] depends_on(final(self).current.projects@, b, a)
                    ==> final(self).incrs@[b].size.rank() >= final(self).incrs@[a].size.rank(),
    {
        let ghost before = *self;
        let ghost ps = self.current.projects@;
        let n = self.incrs.len();
        proof {
            assert forall|k: int| 0 <= k < n implies size_from_upstream(ps, before.incrs@, k, self.incrs@[k].size) by {
                let path = seq![k];
                assert(is_dep_chain(ps, path));
            }
        }
        loop
            invariant
                self.lifted_from(before),
                n == self.incrs@.len(),
                ps == self.current.projects@,
            ensures
                self.lifted_from(before),
                forall|x: int, a: int|
                    0 <= x < n && 0 <= a < n && #[trigger] depends_on(ps, x, a)
                        ==> self.incrs@[x].size.rank() >= self.incrs@[a].size.rank(),
            decreases deficit(self.incrs@),
        {
            let ghost start = self.incrs@;
            let mut changed = false;
            let mut b: usize = 0;
            while b < n
                invariant
                    self.lifted_from(before),
                    n == self.incrs@.len(),
                    ps == self.current.projects@,
                    b <= n,
                    start.len() == n,
                    changed ==> deficit(self.incrs@) < deficit(start),
                    !changed ==> self.incrs@ == start,
                    !changed ==> forall|x: int, a: int|
                        0 <= x < b && 0 <= a < n && #[trigger] depends_on(ps, x, a)
                            ==> self.incrs@[x].size.rank() >= self.incrs@[a].size.rank(),
                decreases n - b,
            {
                let nd = self.current.projects[b].depends.len();
                let mut d: usize = 0;
                while d < nd
                    invariant
                        self.lifted_from(before),
                        n == self.incrs@.len(),
                        ps == self.current.projects@,
                        b < n,
                        d <= nd,
                        nd == ps[b as int].depends@.len(),
                        start.len() == n,
                        changed ==> deficit(self.incrs@) < deficit(start),
                        !changed ==> self.incrs@ == start,
                        !changed ==> forall|x: int, a: int|
                            0 <= x < b && 0 <= a < n && #[trigger] depends_on(ps, x, a)
                                ==> self.incrs@[x].size.rank() >= self.incrs@[a].size.rank(),
                        !changed ==> forall|e: int, a: int|
                            0 <= e < d && 0 <= a < n && #[trigger] ps[a].id == #[trigger] ps[b as int].depends@[e]
                                ==> self.incrs@[b as int].size.rank() >= self.incrs@[a].size.rank(),
                    decreases nd - d,
                {
                    let dep = self.current.projects[b].depends[d];
                    match self.current.index_of(dep) {
                        Some(a) => {
                            if self.incrs[b].size.is_below(&self.incrs[a].size) {
                                proof {
                                    let sz = self.incrs@[a as int].size;
                                    let pa = choose|path: Seq<int>|
                                        #[trigger] is_dep_chain(ps, path) && path.last() == a
                                            && sz == before.incrs@[path[0]].size;
                                    let pb = pa.push(b as int);
                                    assert(depends_on(ps, b as int, a as int));
                                    assert forall|i: int| 0 <= i < pb.len() - 1 implies #[trigger] depends_on(ps, pb[i + 1], pb[i]) by {
                                        if i < pa.len() - 1 {
                                            assert(pb[i + 1] == pa[i + 1] && pb[i] == pa[i]);
                                        } else {
                                            assert(pb[i + 1] == b && pb[i] == a);
                                        }
                                    }
                                    assert forall|i: int| 0 <= i < pb.len() implies 0 <= #[trigger] pb[i] < ps.len() by {
                                        if i < pa.len() {
                                            assert(pb[i] == pa[i]);
                                        }
                                    }
                                    assert(is_dep_chain(ps, pb));
                                    assert(pb.last() == b && pb[0] == pa[0]);
                                    let x = Incr { size: sz, ..self.incrs@[b as int] };
                                    lemma_deficit_grow(self.incrs@, b as int, x);
                                    if changed {
                                    } else {
                                        assert(self.incrs@ == start);
                                    }
                                }
                                let sz = self.incrs[a].size;
                                self.incrs[b].size = sz;
                                changed = true;
                            }
                        },
                        None => {},
                    }
                    d = d + 1;
                }
                proof {
                    if !changed {
                        assert forall|x: int, a: int|
                            0 <= x < b + 1 && 0 <= a < n && #[trigger] depends_on(ps, x, a)
                                implies self.incrs@[x].size.rank() >= self.incrs@[a].size.rank() by {
                            if x == b {
                                let e = choose|e: int| 0 <= e < ps[b as int].depends@.len() && #[trigger] ps[b as int].depends@[e] == ps[a].id;
                                assert(ps[a].id == ps[b as int].depends@[e]);
                            }
                        }
                    }
                }
                b = b + 1;
            }
            if !changed {
                break;
            }
        }
    }

    /// Orders each project's change log by closing time, marks commits that an
    /// earlier-closed pull request already claimed, and recomputes each entry's size.
    pub fn sort_and_dedup(&mut self)
        requires
            old(self).wf(),
        ensures
            final(self).wf(),
            final(self).current == old(self).current,
            final(self).prev == old(self).prev,
            final(self).phase == old(self).phase,
            final(self).on_pr_sizes == old(self).on_pr_sizes,
            final(self).ineffective == old(self).ineffective,
            final(self).incrs@.len() == old(self).incrs@.len(),
            forall|k: int| 0 <= k < final(self).incrs@.len() ==> {
                &&& (#[trigger] final(self).incrs@[k]).id == old(self).incrs@[k].id
                &&& final(self).incrs@[k].size == old(self).incrs@[k].size
                &&& ordered_from(old(self).incrs@[k].change_log.entries@, final(self).incrs@[k].change_log.entries@)
                &&& sorted_by_close(final(self).incrs@[k].change_log.entries@)
            },
    {
        let n = self.incrs.len();
        let mut k: usize = 0;
        while k < n
            invariant
                old(self).wf(),
                n == old(self).incrs@.len(),
                k <= n,
                self.current == old(self).current,
                self.prev == old(self).prev,
                self.phase == old(self).phase,
                self.on_pr_sizes == old(self).on_pr_sizes,
                self.on_commit == old(self).on_commit,
                self.on_number == old(self).on_number,
                self.on_closed_at == old(self).on_closed_at,
                self.ineffective == old(self).ineffective,
                self.incrs@.len() == n,
                forall|j: int| 0 <= j < n ==> {
                    &&& (#[trigger] self.incrs@[j]).id == old(self).incrs@[j].id
                    &&& self.incrs@[j].size == old(self).incrs@[j].size
                    &&& (j < k ==> ordered_from(old(self).incrs@[j].change_log.entries@, self.incrs@[j].change_log.entries@)
                        && sorted_by_close(self.incrs@[j].change_log.entries@))
                    &&& (j >= k ==> self.incrs@[j].change_log == old(self).incrs@[j].change_log)
                },
            decreases n - k,
        {
            order_change_log(&mut self.incrs[k].change_log);
            k = k + 1;
        }
    }

    /// The plan accumulated so far.
    pub fn build(self) -> (r: Plan)
        ensures
            r.incrs == self.incrs,
            r.ineffective == self.ineffective,
    {
        Plan { incrs: self.incrs, ineffective: self.ineffective }
    }

    /// The plan accumulated so far, with the configuration handed back.
    pub fn build_with_config(self) -> (r: (Plan, ConfigFile))
        ensures
            r.0.incrs == self.incrs,
            r.0.ineffective == self.ineffective,
            r.1 == self.current,
    {
        (Plan { incrs: self.incrs, ineffective: self.ineffective }, self.current)
    }

    /// The configuration the builder was made with.
    pub fn into_config(self) -> (r: ConfigFile)
        ensures
            r == self.current,
    {
        self.current
    }

    /// Closes the file in progress.
    pub fn finish_file(&mut self) -> (r: Result<(), PlanError>)
        requires
            old(self).wf(),
        ensures
            final(self).wf(),
            r is Err <==> !(old(self).phase is InCommit),
            *final(self) == *old(self),
    {
        if self.phase != Phase::InCommit {
            return Err(PlanError::PlanProtocol);
        }
        Ok(())
    }
}

fn applied_size_of(cs: &Vec<LoggedCommit>) -> (r: Option<Size>)
    ensures
        r == applied_size(cs@),
{
    let mut best: Option<Size> = None;
    let mut i: usize = 0;
    while i < cs.len()
        invariant
            i <= cs.len(),
            best == applied_size(cs@.take(i as int)),
        decreases cs.len() - i,
    {
        proof {
            assert(cs@.take(i + 1).drop_last() =~= cs@.take(i as int));
        }
        if cs[i].applies {
            best = match best {
                Some(s) => Some(s.larger(cs[i].size)),
                None => Some(cs[i].size),
            };
        }
        i = i + 1;
    }
    proof {
        assert(cs@.take(i as int) =~= cs@);
    }
    best
}

pub(crate) fn included_size_of(cs: &Vec<LoggedCommit>) -> (r: Size)
    ensures
        r == included_size(cs@),
{
    let mut best = Size::NoChange;
    let mut i: usize = 0;
    while i < cs.len()
        invariant
            i <= cs.len(),
            best == included_size(cs@.take(i as int)),
        decreases cs.len() - i,
    {
        proof {
            assert(cs@.take(i + 1).drop_last() =~= cs@.take(i as int));
        }
        if cs[i].applies && !cs[i].duplicate {
            best = best.larger(cs[i].size);
        }
        i = i + 1;
    }
    proof {
        assert(cs@.take(i as int) =~= cs@);
    }
    best
}

} // verus!
