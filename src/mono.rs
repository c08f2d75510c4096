//! A monorepo: the current configuration, the anchors of its projects, and the writes
//! staged for the next release commit.

use vstd::prelude::*;
use crate::config::{ConfigError, ConfigFile, Project, ProjectId, has_id, name_count};
use crate::errors::Error;
use crate::history::{CommitInfo, FullPr};
use crate::last_commits::find_last_commits;
use crate::slicer::SliceBook;
use crate::tags::{OldTags, TagRef, find_old_tags, indexes};
use crate::plan::Plan;
use crate::planning::{missing_slice, plan_matches};

verus! {

/// The `(kind, path)` pairs of the first `f` files of a commit.
pub open spec fn commit_keys(c: CommitInfo, f: int) -> Seq<(Seq<char>, Seq<char>)>
    decreases f,
{
    if f <= 0 {
        Seq::empty()
    } else {
        commit_keys(c, f - 1).push((c.kind@, c.files@[f - 1]@))
    }
}

/// The `(kind, path)` pairs of the first `n` commits of a group, excluded commits left out.
pub open spec fn group_keys(pr: FullPr, n: int) -> Seq<(Seq<char>, Seq<char>)>
    decreases n,
{
    if n <= 0 {
        Seq::empty()
    } else {
        let c = pr.commits@[n - 1];
        if pr.excludes_oid(c.oid@) {
            group_keys(pr, n - 1)
        } else {
            group_keys(pr, n - 1) + commit_keys(c, c.files@.len() as int)
        }
    }
}

/// The `(kind, path)` pairs of the first `n` groups; a group whose boundaries are a guess,
/// or whose head is unknown, gives none.
pub open spec fn all_keys(prs: Seq<FullPr>, n: int) -> Seq<(Seq<char>, Seq<char>)>
    decreases n,
{
    if n <= 0 {
        Seq::empty()
    } else {
        let pr = prs[n - 1];
        if pr.best_guess || pr.head_oid is None {
            all_keys(prs, n - 1)
        } else {
            all_keys(prs, n - 1) + group_keys(pr, pr.commits@.len() as int)
        }
    }
}

/// The view of a list of string pairs.
pub open spec fn pairs_view(v: Seq<(String, String)>) -> Seq<(Seq<char>, Seq<char>)> {
    v.map_values(|p: (String, String)| (p.0@, p.1@))
}

/// One staged change to the working tree or the refs.
pub enum Pending {
    /// Rewrite the project's version mark to this value.
    SetValue(ProjectId, String),
    /// Move the project's release tag to its anchor commit, naming this version.
    ForwardTag(ProjectId, String),
}

/// Writes staged for the next release commit, in the order they were asked for.
pub struct StateWrite {
    pub pending: Vec<Pending>,
}

impl StateWrite {
    pub fn new() -> (r: StateWrite)
        ensures
            r.pending@.len() == 0,
    {
        StateWrite { pending: Vec::new() }
    }
}

/// The state of a monorepo as the library sees it.
pub struct Mono {
    pub current: ConfigFile,
    pub next: StateWrite,
    /// For each current project that has one, the newest commit that touched it.
    pub last_commits: Vec<(ProjectId, String)>,
    /// The release tags of earlier versions, by prefix.
    pub old_tags: OldTags,
}

impl Mono {
    pub open spec fn wf(&self) -> bool {
        self.current.wf()
    }

    /// Opens a monorepo from its current configuration and its line commits since the
    /// previous release (newest first), each with its configuration recorded in `book`.
    /// `tags` holds the release tags of each prefix of `current.tag_prefixes()`, in that
    /// order, and `walk` the commits from the head back to the previous release.
    pub fn open(
        current: ConfigFile,
        line_commits: &Vec<CommitInfo>,
        book: &SliceBook,
        tags: Vec<Vec<TagRef>>,
        walk: &Vec<String>,
    ) -> (r: Result<Mono, Error>)
        requires
            current.wf(),
            tags@.len() == crate::config::prefixes_upto(current.projects@, current.projects@.len() as int).len(),
        ensures
            r is Err <==> exists|i: int|
                0 <= i < line_commits@.len() && crate::slicer::book_lookup(book.entries@, #[trigger] line_commits@[i].oid@) is None,
            r matches Ok(m) ==> m.wf() && m.current == current && m.next.pending@.len() == 0 && indexes(
                m.old_tags,
                crate::config::prefixes_upto(current.projects@, current.projects@.len() as int),
                tags@,
                walk@,
            ),
    {
        let prefixes = current.tag_prefixes();
        let old_tags = find_old_tags(prefixes, tags, walk);
        let copy = current.duplicate();
        proof {
            crate::config::lemma_config_same(copy, current);
        }
        match find_last_commits(copy, line_commits, book) {
            Ok(last_commits) => Ok(Mono { current, next: StateWrite::new(), last_commits, old_tags }),
            Err(e) => Err(Error::Plan(e)),
        }
    }

    /// Every changed file since the previous release, keyed by the kind of the commit that
    /// changed it.
    pub fn keyed_files(&self, prs: &Vec<FullPr>) -> (r: Vec<(String, String)>)
        ensures
            pairs_view(r@) == all_keys(prs@, prs@.len() as int),
    {
        let mut out: Vec<(String, String)> = Vec::new();
        let mut i: usize = 0;
        while i < prs.len()
            invariant
                i <= prs@.len(),
                pairs_view(out@) == all_keys(prs@, i as int),
            decreases prs@.len() - i,
        {
            let pr = &prs[i];
            if !pr.best_guess && pr.head_oid.is_some() {
                let ghost base = pairs_view(out@);
                let mut j: usize = 0;
                while j < pr.commits.len()
                    invariant
                        i < prs@.len(),
                        *pr == prs@[i as int],
                        j <= pr.commits@.len(),
                        pairs_view(out@) == base + group_keys(*pr, j as int),
                    decreases pr.commits@.len() - j,
                {
                    let c = &pr.commits[j];
                    if !pr.has_exclude(&c.oid) {
                        let ghost mid = pairs_view(out@);
                        let mut f: usize = 0;
                        while f < c.files.len()
                            invariant
                                j < pr.commits@.len(),
                                *c == pr.commits@[j as int],
                                f <= c.files@.len(),
                                pairs_view(out@) == mid + commit_keys(*c, f as int),
                            decreases c.files@.len() - f,
                        {
                            let ghost o0 = out@;
                            out.push((c.kind.clone(), c.files[f].clone()));
                            proof {
                                assert(pairs_view(out@) =~= pairs_view(o0).push((c.kind@, c.files@[f as int]@)));
                                assert(mid + commit_keys(*c, f + 1) =~= (mid + commit_keys(*c, f as int)).push((c.kind@, c.files@[f as int]@)));
                            }
                            f = f + 1;
                        }
                        proof {
                            assert(base + group_keys(*pr, j + 1) =~= mid + commit_keys(*c, c.files@.len() as int));
                        }
                    }
                    j = j + 1;
                }
                proof {
                    assert(all_keys(prs@, i + 1) =~= base + group_keys(*pr, pr.commits@.len() as int));
                }
            }
            i = i + 1;
        }
        out
    }

    /// Plans the release from the groups since the previous release, each included commit's
    /// configuration recorded in `book`.
    pub fn build_plan(&mut self, prs: &Vec<FullPr>, book: &SliceBook) -> (r: Result<Plan, Error>)
        requires
            old(self).wf(),
        ensures
            *final(self) == *old(self),
            r is Err <==> missing_slice(book.entries@, prs@),
            r matches Err(e) ==> e == Error::Plan(crate::slicer::PlanError::NotSliced),
            r matches Ok(plan) ==> plan_matches(book.entries@, old(self).current, prs@, plan),
    {
        let mut current = ConfigFile { projects: Vec::new(), sizes: Vec::new(), prev_tag: String::new() };
        core::mem::swap(&mut current, &mut self.current);
        let (r, back) = crate::planning::build_plan(current, prs, book);
        self.current = back;
        match r {
            Ok(plan) => Ok(plan),
            Err(e) => Err(Error::Plan(e)),
        }
    }

    /// Compares the marks of the previous release with the current ones.
    pub fn diff(&self, prev: &Vec<crate::analyze::AnnotatedMark>, curt: &Vec<crate::analyze::AnnotatedMark>) -> (r: crate::analyze::Analysis)
        ensures
            r.older@ == crate::analyze::missing_from(prev@, curt@, prev@.len() as int),
            r.newer@ == crate::analyze::missing_from(curt@, prev@, curt@.len() as int),
            r.changes@ == crate::analyze::changes_upto(prev@, curt@, curt@.len() as int),
    {
        crate::analyze::analyze(prev, curt)
    }

    /// Hands over the staged writes and starts afresh.
    pub fn commit(&mut self) -> (r: StateWrite)
        ensures
            r == old(self).next,
            final(self).next.pending@.len() == 0,
            final(self).current == old(self).current,
            final(self).last_commits == old(self).last_commits,
    {
        let mut taken = StateWrite::new();
        core::mem::swap(&mut taken, &mut self.next);
        taken
    }

    pub fn projects(&self) -> (r: &Vec<Project>)
        ensures
            r == &self.current.projects,
    {
        &self.current.projects
    }

    pub fn get_project(&self, id: ProjectId) -> (r: Result<&Project, Error>)
        ensures
            r is Err <==> !has_id(self.current.projects@, id),
            r matches Err(e) ==> e == Error::Config(ConfigError::UnknownProject),
            r matches Ok(p) ==> p.id == id && self.current.projects@.contains(*p),
    {
        match self.current.get_project(id) {
            Some(p) => Ok(p),
            None => Err(Error::Config(ConfigError::UnknownProject)),
        }
    }

    pub fn get_named_project(&self, name: &str) -> (r: Result<&Project, Error>)
        requires
            self.wf(),
        ensures
            r is Ok <==> name_count(self.current.projects@, name@) == 1,
            name_count(self.current.projects@, name@) == 0 ==> (r matches Err(e) && e == Error::Config(
                ConfigError::UnknownProject,
            )),
            name_count(self.current.projects@, name@) > 1 ==> (r matches Err(e) && e == Error::Config(
                ConfigError::AmbiguousName,
            )),
            r matches Ok(p) ==> p.name@ == name@ && self.current.projects@.contains(*p),
    {
        match self.current.find_unique(name) {
            Ok(id) => {
                proof {
                    let i = choose|i: int|
                        0 <= i < self.current.projects@.len() && self.current.projects@[i].name@ == name@
                            && self.current.projects@[i].id == id;
                    assert(has_id(self.current.projects@, id));
                }
                let r = self.get_project(id);
                proof {
                    if r is Ok {
                        let i = choose|i: int|
                            0 <= i < self.current.projects@.len() && self.current.projects@[i].name@ == name@
                                && self.current.projects@[i].id == id;
                        let p = r->Ok_0;
                        let j = choose|j: int| 0 <= j < self.current.projects@.len() && self.current.projects@[j] == *p;
                        assert(self.current.projects@[j].id == self.current.projects@[i].id);
                    }
                }
                r
            },
            Err(e) => Err(Error::Config(e)),
        }
    }

    /// The staged writes, open for more.
    pub fn writer(&mut self) -> (r: &mut StateWrite)
        ensures
            *r == old(self).next,
            final(self).next == *final(r),
            final(self).current == old(self).current,
            final(self).last_commits == old(self).last_commits,
    {
        &mut self.next
    }

    /// The current configuration.
    pub fn reader(&self) -> (r: &ConfigFile)
        ensures
            r == &self.current,
    {
        &self.current
    }

    /// Stages a rewrite of the version mark of the project with this id.
    pub fn set_by_id(&mut self, id: ProjectId, val: &str) -> (r: Result<(), Error>)
        ensures
            r is Err <==> !has_id(old(self).current.projects@, id),
            r matches Err(e) ==> e == Error::Config(ConfigError::UnknownProject),
            final(self).current == old(self).current,
            final(self).last_commits == old(self).last_commits,
            r is Err ==> final(self).next == old(self).next,
            r is Ok ==> final(self).next.pending@.len() == old(self).next.pending@.len() + 1
                && final(self).next.pending@.drop_last() == old(self).next.pending@
                && (final(self).next.pending@.last() matches Pending::SetValue(i, v) && i == id && v@ == val@),
    {
        match self.current.index_of(id) {
            Some(_) => {
                let ghost before = self.next.pending@;
                self.next.pending.push(Pending::SetValue(id, crate::text::owned(val)));
                proof {
                    assert(self.next.pending@.drop_last() =~= before);
                }
                Ok(())
            },
            None => Err(Error::Config(ConfigError::UnknownProject)),
        }
    }

    /// Stages a rewrite of the version mark of the only project with this name.
    pub fn set_by_name(&mut self, name: &str, val: &str) -> (r: Result<(), Error>)
        requires
            old(self).wf(),
        ensures
            r is Ok <==> name_count(old(self).current.projects@, name@) == 1,
            name_count(old(self).current.projects@, name@) == 0 ==> (r matches Err(e) && e == Error::Config(
                ConfigError::UnknownProject,
            )),
            name_count(old(self).current.projects@, name@) > 1 ==> (r matches Err(e) && e == Error::Config(
                ConfigError::AmbiguousName,
            )),
            final(self).current == old(self).current,
            r is Err ==> final(self).next == old(self).next,
            r is Ok ==> final(self).next.pending@.len() == old(self).next.pending@.len() + 1
                && (final(self).next.pending@.last() matches Pending::SetValue(i, v) && v@ == val@ && exists|j: int|
                0 <= j < old(self).current.projects@.len() && old(self).current.projects@[j].id == i
                    && old(self).current.projects@[j].name@ == name@),
    {
        match self.current.find_unique(name) {
            Ok(id) => {
                proof {
                    let i = choose|i: int|
                        0 <= i < self.current.projects@.len() && self.current.projects@[i].name@ == name@
                            && self.current.projects@[i].id == id;
                    assert(has_id(self.current.projects@, id));
                }
                let r = self.set_by_id(id, val);
                r
            },
            Err(e) => Err(Error::Config(e)),
        }
    }

    /// Stages moving the release tag of the project with this id forward.
    pub fn forward_by_id(&mut self, id: ProjectId, val: &str) -> (r: Result<(), Error>)
        ensures
            r is Err <==> !has_id(old(self).current.projects@, id),
            r matches Err(e) ==> e == Error::Config(ConfigError::UnknownProject),
            final(self).current == old(self).current,
            final(self).last_commits == old(self).last_commits,
            r is Err ==> final(self).next == old(self).next,
            r is Ok ==> final(self).next.pending@.len() == old(self).next.pending@.len() + 1
                && final(self).next.pending@.drop_last() == old(self).next.pending@
                && (final(self).next.pending@.last() matches Pending::ForwardTag(i, v) && i == id && v@ == val@),
    {
        match self.current.index_of(id) {
            Some(_) => {
                let ghost before = self.next.pending@;
                self.next.pending.push(Pending::ForwardTag(id, crate::text::owned(val)));
                proof {
                    assert(self.next.pending@.drop_last() =~= before);
                }
                Ok(())
            },
            None => Err(Error::Config(ConfigError::UnknownProject)),
        }
    }
}

} // verus!
