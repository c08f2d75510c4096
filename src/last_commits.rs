//! The most recent commit that touched each project: the anchor of its release tag.

use vstd::prelude::*;
use crate::config::{ConfigFile, ProjectId, config_same, lemma_config_same};
use crate::history::CommitInfo;
use crate::plan::attributed;
use crate::slicer::{PlanError, SliceBook, Slicer, book_lookup};

verus! {

/// Some path among the first `f` of `files` is owned, under `sliced`, by the project with
/// this id.
pub open spec fn touches_upto(sliced: ConfigFile, id: ProjectId, files: Seq<String>, f: int) -> bool {
    exists|i: int| 0 <= i < f && #[trigger] attributed(sliced, id, files[i]@)
}

/// Commit `c`, read with the configuration recorded for it, touches the project with this id.
pub open spec fn commit_touches(book: Seq<(String, ConfigFile)>, c: CommitInfo, id: ProjectId) -> bool {
    match book_lookup(book, c.oid@) {
        Some(cfg) => touches_upto(cfg, id, c.files@, c.files@.len() as int),
        None => false,
    }
}

/// The id of the first commit of `cs` (newest first) that touches the project with this id.
pub open spec fn first_touch(book: Seq<(String, ConfigFile)>, cs: Seq<CommitInfo>, id: ProjectId) -> Option<
    Seq<char>,
>
    decreases cs.len(),
{
    if cs.len() == 0 {
        None
    } else {
        match first_touch(book, cs.drop_last(), id) {
            Some(o) => Some(o),
            None => if commit_touches(book, cs.last(), id) {
                Some(cs.last().oid@)
            } else {
                None
            },
        }
    }
}

/// The view of an optional string.
pub open spec fn opt_view(o: Option<String>) -> Option<Seq<char>> {
    match o {
        Some(s) => Some(s@),
        None => None,
    }
}

/// Walks line commits, newest first, and keeps for each current project the first commit
/// that touched it.
pub struct LastCommitBuilder {
    pub on_line_commit: Option<String>,
    /// One entry per current project, in configuration order.
    pub last_commits: Vec<Option<String>>,
    pub prev: Slicer,
    pub current: ConfigFile,
}

impl LastCommitBuilder {
    pub open spec fn wf(&self) -> bool {
        &&& self.current.wf()
        &&& self.last_commits@.len() == self.current.projects@.len()
        &&& (self.on_line_commit is Some ==> self.prev is Sliced)
    }

    /// The configuration of the commit in progress.
    pub open spec fn sliced(&self) -> ConfigFile {
        match self.prev {
            Slicer::Sliced(_, f) => f,
            Slicer::Orig => self.current,
        }
    }

    pub fn create(current: ConfigFile) -> (r: LastCommitBuilder)
        requires
            current.wf(),
        ensures
            r.wf(),
            r.current == current,
            r.on_line_commit is None,
            forall|k: int| 0 <= k < r.last_commits@.len() ==> #[trigger] r.last_commits@[k] is None,
    {
        let mut last: Vec<Option<String>> = Vec::new();
        let n = current.projects.len();
        let mut k: usize = 0;
        while k < n
            invariant
                n == current.projects@.len(),
                k <= n,
                last@.len() == k,
                forall|j: int| 0 <= j < k ==> #[trigger] last@[j] is None,
            decreases n - k,
        {
            last.push(None);
            k = k + 1;
        }
        LastCommitBuilder { on_line_commit: None, last_commits: last, prev: Slicer::init(), current }
    }

    /// Opens a line commit whose configuration is `sliced`.
    pub fn start_line_commit(&mut self, commit: &CommitInfo, sliced: ConfigFile) -> (r: Result<(), PlanError>)
        requires
            old(self).wf(),
        ensures
            final(self).wf(),
            r is Ok,
            final(self).on_line_commit == Some(commit.oid),
            final(self).prev == Slicer::Sliced(commit.oid, sliced),
            final(self).last_commits == old(self).last_commits,
            final(self).current == old(self).current,
    {
        self.on_line_commit = Some(commit.oid.clone());
        self.prev.slice_to(commit.oid.clone(), sliced);
        Ok(())
    }

    pub fn finish_line_commit(&mut self) -> (r: Result<(), PlanError>)
        ensures
            r is Ok,
            *final(self) == *old(self),
    {
        Ok(())
    }

    /// A file of the line commit in progress: each current project that has no commit yet and
    /// whose namesake in the sliced configuration covers `path` takes this commit.
    pub fn start_line_file(&mut self, path: &str) -> (r: Result<(), PlanError>)
        requires
            old(self).wf(),
        ensures
            final(self).wf(),
            r is Err <==> old(self).on_line_commit is None,
            final(self).on_line_commit == old(self).on_line_commit,
            final(self).prev == old(self).prev,
            final(self).current == old(self).current,
            final(self).last_commits@.len() == old(self).last_commits@.len(),
            r is Ok ==> forall|k: int| 0 <= k < final(self).last_commits@.len() ==> #[trigger] final(self).last_commits@[k]
                == if old(self).last_commits@[k] is Some {
                    old(self).last_commits@[k]
                } else if attributed(old(self).sliced(), old(self).current.projects@[k].id, path@) {
                    old(self).on_line_commit
                } else {
                    None
                },
            r is Err ==> final(self).last_commits == old(self).last_commits,
    {
        let commit_id = match &self.on_line_commit {
            Some(c) => c.clone(),
            None => {
                return Err(PlanError::PlanProtocol);
            },
        };
        let sliced = match &self.prev {
            Slicer::Sliced(_, f) => f,
            Slicer::Orig => {
                return Err(PlanError::NotSliced);
            },
        };
        let m = sliced.projects.len();
        let n = self.last_commits.len();
        let mut j: usize = 0;
        while j < m
            invariant
                old(self).wf(),
                old(self).on_line_commit == Some(commit_id),
                old(self).sliced() == *sliced,
                m == sliced.projects@.len(),
                n == old(self).last_commits@.len(),
                j <= m,
                self.on_line_commit == old(self).on_line_commit,
                self.prev == old(self).prev,
                self.current == old(self).current,
                self.last_commits@.len() == n,
                forall|k: int| 0 <= k < n ==> #[trigger] self.last_commits@[k]
                    == if old(self).last_commits@[k] is Some {
                        old(self).last_commits@[k]
                    } else if exists|i: int|
                        0 <= i < j && #[trigger] sliced.projects@[i].id == old(self).current.projects@[k].id
                            && sliced.projects@[i].covers_path(path@) {
                        Some(commit_id)
                    } else {
                        None
                    },
            decreases m - j,
        {
            let id = sliced.projects[j].id;
            match self.current.index_of(id) {
                Some(k) => {
                    if self.last_commits[k].is_none() && sliced.projects[j].does_cover(path) {
                        self.last_commits[k] = Some(commit_id.clone());
                    }
                },
                None => {},
            }
            proof {
                assert forall|k: int| 0 <= k < n implies #[trigger] self.last_commits@[k]
                    == if old(self).last_commits@[k] is Some {
                        old(self).last_commits@[k]
                    } else if exists|i: int|
                        0 <= i < j + 1 && #[trigger] sliced.projects@[i].id == old(self).current.projects@[k].id
                            && sliced.projects@[i].covers_path(path@) {
                        Some(commit_id)
                    } else {
                        None
                    } by {
                    let a_old = exists|i: int|
                        0 <= i < j && #[trigger] sliced.projects@[i].id == old(self).current.projects@[k].id
                            && sliced.projects@[i].covers_path(path@);
                    let a_new = exists|i: int|
                        0 <= i < j + 1 && #[trigger] sliced.projects@[i].id == old(self).current.projects@[k].id
                            && sliced.projects@[i].covers_path(path@);
                    let here = sliced.projects@[j as int].id == old(self).current.projects@[k].id
                        && sliced.projects@[j as int].covers_path(path@);
                    assert(a_new == (a_old || here));
                }
            }
            j = j + 1;
        }
        Ok(())
    }

    pub fn finish_line_file(&mut self) -> (r: Result<(), PlanError>)
        ensures
            r is Ok,
            *final(self) == *old(self),
    {
        Ok(())
    }

    /// The commit found for each current project that has one, in configuration order.
    pub fn build(self) -> (r: Vec<(ProjectId, String)>)
        requires
            self.wf(),
        ensures
            r@ == found_of(self.current.projects@, self.last_commits@, self.last_commits@.len() as int),
    {
        let mut out: Vec<(ProjectId, String)> = Vec::new();
        let n = self.last_commits.len();
        let mut k: usize = 0;
        while k < n
            invariant
                self.wf(),
                n == self.last_commits@.len(),
                k <= n,
                out@ == found_of(self.current.projects@, self.last_commits@, k as int),
            decreases n - k,
        {
            match &self.last_commits[k] {
                Some(o) => {
                    out.push((self.current.projects[k].id, o.clone()));
                },
                None => {},
            }
            k = k + 1;
        }
        out
    }
}

/// The ids of the first `k` projects whose entry of `last` is set, each with that entry.
pub open spec fn found_of(ps: Seq<crate::config::Project>, last: Seq<Option<String>>, k: int) -> Seq<(ProjectId, String)>
    decreases k,
{
    if k <= 0 {
        Seq::empty()
    } else {
        let rest = found_of(ps, last, k - 1);
        match last[k - 1] {
            Some(s) => rest.push((ps[k - 1].id, s)),
            None => rest,
        }
    }
}

/// Configurations that agree in every field give every path the same owners.
pub proof fn lemma_attributed_same(a: ConfigFile, b: ConfigFile, id: ProjectId, path: Seq<char>)
    requires
        config_same(a, b),
    ensures
        attributed(a, id, path) == attributed(b, id, path),
{
    lemma_config_same(a, b);
    if attributed(a, id, path) {
        let j = choose|j: int| 0 <= j < a.projects@.len() && #[trigger] a.projects@[j].id == id
            && a.projects@[j].covers_path(path);
        assert(a.projects@[j].covers_path(path) == b.projects@[j].covers_path(path));
    }
    if attributed(b, id, path) {
        let j = choose|j: int| 0 <= j < b.projects@.len() && #[trigger] b.projects@[j].id == id
            && b.projects@[j].covers_path(path);
        assert(a.projects@[j].covers_path(path) == b.projects@[j].covers_path(path));
    }
}

/// For each current project, the newest line commit that touched it under the configuration
/// of that commit. `line_commits` runs newest first; `book` holds each one's configuration.
pub fn find_last_commits(current: ConfigFile, line_commits: &Vec<CommitInfo>, book: &SliceBook) -> (r: Result<
    Vec<(ProjectId, String)>,
    PlanError,
>)
    requires
        current.wf(),
    ensures
        r is Err <==> exists|i: int|
            0 <= i < line_commits@.len() && book_lookup(book.entries@, #[trigger] line_commits@[i].oid@) is None,
        r matches Ok(v) ==> exists|last: Seq<Option<String>>|
            {
                &&& last.len() == current.projects@.len()
                &&& forall|k: int| 0 <= k < last.len() ==> #[trigger] opt_view(last[k]) == first_touch(
                    book.entries@,
                    line_commits@,
                    current.projects@[k].id,
                )
                &&& v@ == found_of(current.projects@, last, last.len() as int)
            },
{
    let ghost ps = current.projects@;
    let ghost bk = book.entries@;
    let ghost cs = line_commits@;
    let mut b = LastCommitBuilder::create(current);
    let n = line_commits.len();
    let mut i: usize = 0;
    while i < n
        invariant
            n == cs.len(),
            cs == line_commits@,
            bk == book.entries@,
            i <= n,
            b.wf(),
            b.current.projects@ == ps,
            forall|j: int| 0 <= j < i ==> book_lookup(bk, #[trigger] cs[j].oid@) is Some,
            forall|k: int| 0 <= k < ps.len() ==> #[trigger] opt_view(b.last_commits@[k]) == first_touch(
                bk,
                cs.take(i as int),
                ps[k].id,
            ),
        decreases n - i,
    {
        let c = &line_commits[i];
        let cfg = match book.lookup(&c.oid) {
            Some(f) => f.duplicate(),
            None => {
                return Err(PlanError::NotSliced);
            },
        };
        let ghost bcfg = book_lookup(bk, c.oid@)->Some_0;
        let _ = b.start_line_commit(c, cfg);
        let m = c.files.len();
        let mut f: usize = 0;
        while f < m
            invariant
                n == cs.len(),
                i < n,
                *c == cs[i as int],
                m == c.files@.len(),
                f <= m,
                b.wf(),
                b.current.projects@ == ps,
                b.on_line_commit == Some(c.oid),
                config_same(b.sliced(), bcfg),
                forall|k: int| 0 <= k < ps.len() ==> #[trigger] opt_view(b.last_commits@[k]) == match first_touch(
                    bk,
                    cs.take(i as int),
                    ps[k].id,
                ) {
                    Some(o) => Some(o),
                    None => if touches_upto(bcfg, ps[k].id, c.files@, f as int) {
                        Some(c.oid@)
                    } else {
                        None
                    },
                },
            decreases m - f,
        {
            let ghost before = b.last_commits@;
            let ghost sl = b.sliced();
            let res = b.start_line_file(c.files[f].as_str());
            assert(res is Ok);
            assert(b.sliced() == sl);
            let _ = b.finish_line_file();
            proof {
                assert forall|k: int| 0 <= k < ps.len() implies #[trigger] opt_view(b.last_commits@[k]) == match first_touch(
                    bk,
                    cs.take(i as int),
                    ps[k].id,
                ) {
                    Some(o) => Some(o),
                    None => if touches_upto(bcfg, ps[k].id, c.files@, f + 1) {
                        Some(c.oid@)
                    } else {
                        None
                    },
                } by {
                    lemma_attributed_same(b.sliced(), bcfg, ps[k].id, c.files@[f as int]@);
                    assert(b.last_commits@[k] == if before[k] is Some {
                        before[k]
                    } else if attributed(sl, ps[k].id, c.files@[f as int]@) {
                        Some(c.oid)
                    } else {
                        None
                    });
                    if touches_upto(bcfg, ps[k].id, c.files@, f + 1) && !touches_upto(bcfg, ps[k].id, c.files@, f as int) {
                        let x = choose|x: int| 0 <= x < f + 1 && #[trigger] attributed(bcfg, ps[k].id, c.files@[x]@);
                        assert(x == f);
                    }
                    if attributed(bcfg, ps[k].id, c.files@[f as int]@) {
                        assert(touches_upto(bcfg, ps[k].id, c.files@, f + 1));
                    }
                    if touches_upto(bcfg, ps[k].id, c.files@, f as int) {
                        let x = choose|x: int| 0 <= x < f && #[trigger] attributed(bcfg, ps[k].id, c.files@[x]@);
                        assert(touches_upto(bcfg, ps[k].id, c.files@, f + 1));
                    }
                    let ft = first_touch(bk, cs.take(i as int), ps[k].id);
                    if before[k] is Some {
                        assert(ft is Some || touches_upto(bcfg, ps[k].id, c.files@, f as int));
                    } else {
                        assert(ft is None);
                        assert(!touches_upto(bcfg, ps[k].id, c.files@, f as int));
                    }
                }
            }
            f = f + 1;
        }
        let _ = b.finish_line_commit();
        proof {
            assert(cs.take(i + 1).drop_last() =~= cs.take(i as int));
            assert(cs.take(i + 1).last() == cs[i as int]);
            assert forall|k: int| 0 <= k < ps.len() implies #[trigger] opt_view(b.last_commits@[k]) == first_touch(
                bk,
                cs.take(i + 1),
                ps[k].id,
            ) by {}
        }
        i = i + 1;
    }
    proof {
        assert(cs.take(n as int) =~= cs);
    }
    let ghost last = b.last_commits@;
    let v = b.build();
    Ok(v)
}

} // verus!
