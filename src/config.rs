//! The configuration model: projects, their covered paths, dependencies and size tables.

use vstd::prelude::*;
use crate::glob::{glob_match, glob_matches};
use crate::size::Size;
use crate::text::chars_of;
use crate::plan::depends_on;

verus! {

/// The stable identifier of a project.
pub type ProjectId = u32;

/// One project of the monorepo.
pub struct Project {
    pub id: ProjectId,
    pub name: String,
    /// Globs of the paths the project owns.
    pub covers: Vec<String>,
    /// Globs of paths carved out of `covers`.
    pub excludes: Vec<String>,
    /// The ids of the projects this one depends on.
    pub depends: Vec<ProjectId>,
    /// The prefix of the project's release tags, if any.
    pub tag_prefix: Option<String>,
    /// Commit kinds to sizes; consulted before the file-wide table.
    pub sizes: Vec<(String, Size)>,
}

/// What went wrong in building or querying a configuration.
#[derive(Debug, PartialEq, Eq)]
pub enum ConfigError {
    /// Two projects share this id.
    DuplicateProject(ProjectId),
    /// The dependency graph holds a cycle.
    CyclicDependency,
    /// No project has this id or name.
    UnknownProject,
    /// More than one project has this name.
    AmbiguousName,
    /// No project was named and the configuration does not hold exactly one.
    NoSoloProject,
}

/// Whether some glob of `globs` matches `path`.
pub open spec fn any_glob(globs: Seq<String>, path: Seq<char>) -> bool {
    exists|i: int| 0 <= i < globs.len() && glob_matches(#[trigger] globs[i]@, path)
}

/// The first size that `table` gives to `kind`.
pub open spec fn table_lookup(table: Seq<(String, Size)>, kind: Seq<char>) -> Option<Size>
    decreases table.len(),
{
    if table.len() == 0 {
        None
    } else if table[0].0@ == kind {
        Some(table[0].1)
    } else {
        table_lookup(table.drop_first(), kind)
    }
}

/// The wildcard kind, which sizes commits of every kind that no entry names.
pub open spec fn wildcard() -> Seq<char> {
    seq!['*']
}

/// The size of a commit of `kind` under `table`: its own entry, else the wildcard's,
/// else no change.
pub open spec fn size_in(table: Seq<(String, Size)>, kind: Seq<char>) -> Size {
    match table_lookup(table, kind) {
        Some(s) => s,
        None => match table_lookup(table, wildcard()) {
            Some(s) => s,
            None => Size::NoChange,
        },
    }
}

impl Project {
    /// Whether the project owns `path`: a cover glob matches it and no exclude glob does.
    pub open spec fn covers_path(&self, path: Seq<char>) -> bool {
        any_glob(self.covers@, path) && !any_glob(self.excludes@, path)
    }

    /// The size of a commit of `kind` for this project, given the file-wide table.
    pub open spec fn size_of_kind(&self, global: Seq<(String, Size)>, kind: Seq<char>) -> Size {
        size_in(self.sizes@ + global, kind)
    }

    pub fn does_cover(&self, path: &str) -> (r: bool)
        ensures
            r == self.covers_path(path@),
    {
        let p = chars_of(path);
        let covered = any_glob_match(&self.covers, &p);
        if !covered {
            return false;
        }
        !any_glob_match(&self.excludes, &p)
    }

    pub fn size(&self, global: &Vec<(String, Size)>, kind: &String) -> (r: Size)
        ensures
            r == self.size_of_kind(global@, kind@),
    {
        let star = wildcard_string();
        match lookup_two(&self.sizes, global, kind) {
            Some(s) => s,
            None => match lookup_two(&self.sizes, global, &star) {
                Some(s) => s,
                None => Size::NoChange,
            },
        }
    }
}

/// A configuration file: projects in order, the file-wide size table, and the name of the
/// tag that marks the previous release.
pub struct ConfigFile {
    pub projects: Vec<Project>,
    pub sizes: Vec<(String, Size)>,
    pub prev_tag: String,
}

/// No two projects share an id.
pub open spec fn ids_unique(ps: Seq<Project>) -> bool {
    forall|i: int, j: int|
        0 <= i < ps.len() && 0 <= j < ps.len() && i != j ==> #[trigger] ps[i].id != #[trigger] ps[j].id
}

/// Some project has this id.
pub open spec fn has_id(ps: Seq<Project>, id: ProjectId) -> bool {
    exists|i: int| 0 <= i < ps.len() && #[trigger] ps[i].id == id
}

/// How many projects carry this name.
pub open spec fn name_count(ps: Seq<Project>, name: Seq<char>) -> nat
    decreases ps.len(),
{
    if ps.len() == 0 {
        0
    } else {
        (if ps.last().name@ == name { 1nat } else { 0nat }) + name_count(ps.drop_last(), name)
    }
}

/// The name of the marker tag when the configuration names none.
pub open spec fn default_prev_tag() -> Seq<char> {
    seq!['v', 'e', 'r', 's', 'i', 'o', '-', 'p', 'r', 'e', 'v']
}

impl ConfigFile {
    /// The configuration is well formed: project ids are unique.
    pub open spec fn wf(&self) -> bool {
        ids_unique(self.projects@)
    }

    /// Validates and assembles a configuration.
    pub fn new(projects: Vec<Project>, sizes: Vec<(String, Size)>, prev_tag: String) -> (r: Result<
        ConfigFile,
        ConfigError,
    >)
        ensures
            r is Ok <==> ids_unique(projects@) && acyclic(projects@),
            r matches Ok(c) ==> c.wf() && c.projects@ == projects@ && c.sizes@ == sizes@
                && c.prev_tag@ == prev_tag@,
            !ids_unique(projects@) ==> (r matches Err(e) && exists|i: int, j: int|
                0 <= i < j < projects@.len() && projects@[i].id == projects@[j].id && e
                    == ConfigError::DuplicateProject(projects@[i].id)),
            ids_unique(projects@) && !acyclic(projects@) ==> r == Err::<ConfigFile, ConfigError>(
                ConfigError::CyclicDependency,
            ),
    {
        let n = projects.len();
        let mut j: usize = 0;
        while j < n
            invariant
                n == projects.len(),
                j <= n,
                forall|a: int, b: int|
                    0 <= a < b < j ==> #[trigger] projects@[a].id != #[trigger] projects@[b].id,
            decreases n - j,
        {
            let mut i: usize = 0;
            while i < j
                invariant
                    n == projects.len(),
                    i <= j < n,
                    forall|a: int, b: int|
                        0 <= a < b < j ==> #[trigger] projects@[a].id != #[trigger] projects@[b].id,
                    forall|a: int| 0 <= a < i ==> #[trigger] projects@[a].id != projects@[j as int].id,
                decreases j - i,
            {
                if projects[i].id == projects[j].id {
                    return Err(ConfigError::DuplicateProject(projects[i].id));
                }
                i = i + 1;
            }
            j = j + 1;
        }
        let file = ConfigFile { projects, sizes, prev_tag };
        if !file.is_acyclic() {
            return Err(ConfigError::CyclicDependency);
        }
        Ok(file)
    }

    /// A configuration with the default marker tag name.
    pub fn with_default_tag(projects: Vec<Project>, sizes: Vec<(String, Size)>) -> (r: Result<
        ConfigFile,
        ConfigError,
    >)
        ensures
            r is Ok <==> ids_unique(projects@) && acyclic(projects@),
            r matches Ok(c) ==> c.wf() && c.projects@ == projects@ && c.sizes@ == sizes@
                && c.prev_tag@ == default_prev_tag(),
    {
        let tag: Vec<char> = vec!['v', 'e', 'r', 's', 'i', 'o', '-', 'p', 'r', 'e', 'v'];
        let t = crate::text::string_of(&tag);
        proof {
            assert(tag@ =~= default_prev_tag());
        }
        ConfigFile::new(projects, sizes, t)
    }

    pub fn projects(&self) -> (r: &Vec<Project>)
        ensures
            r == &self.projects,
    {
        &self.projects
    }

    pub fn prev_tag(&self) -> (r: &String)
        ensures
            r == &self.prev_tag,
    {
        &self.prev_tag
    }

    /// The position of the project with this id.
    pub fn index_of(&self, id: ProjectId) -> (r: Option<usize>)
        ensures
            r is None <==> !has_id(self.projects@, id),
            r matches Some(i) ==> i < self.projects@.len() && self.projects@[i as int].id == id,
    {
        let mut i: usize = 0;
        while i < self.projects.len()
            invariant
                i <= self.projects.len(),
                forall|a: int| 0 <= a < i ==> #[trigger] self.projects@[a].id != id,
            decreases self.projects.len() - i,
        {
            if self.projects[i].id == id {
                return Some(i);
            }
            i = i + 1;
        }
        None
    }

    /// The project with this id.
    pub fn get_project(&self, id: ProjectId) -> (r: Option<&Project>)
        ensures
            r is None <==> !has_id(self.projects@, id),
            r matches Some(p) ==> p.id == id && self.projects@.contains(*p),
    {
        match self.index_of(id) {
            Some(i) => Some(&self.projects[i]),
            None => None,
        }
    }

    /// The id of the only project with this name.
    pub fn find_unique(&self, name: &str) -> (r: Result<ProjectId, ConfigError>)
        ensures
            name_count(self.projects@, name@) == 0 <==> r == Err::<ProjectId, ConfigError>(
                ConfigError::UnknownProject,
            ),
            name_count(self.projects@, name@) > 1 <==> r == Err::<ProjectId, ConfigError>(
                ConfigError::AmbiguousName,
            ),
            r is Ok <==> name_count(self.projects@, name@) == 1,
            r matches Ok(id) ==> name_count(self.projects@, name@) == 1 && exists|i: int|
                0 <= i < self.projects@.len() && self.projects@[i].name@ == name@
                    && self.projects@[i].id == id,
    {
        let wanted: String = crate::text::owned(name);
        let mut found: Option<ProjectId> = None;
        let mut count: usize = 0;
        let mut i: usize = 0;
        while i < self.projects.len()
            invariant
                i <= self.projects.len(),
                count <= i,
                wanted@ == name@,
                count == name_count(self.projects@.take(i as int), name@),
                found is None <==> count == 0,
                found matches Some(id) ==> exists|k: int|
                    0 <= k < i && self.projects@[k].name@ == name@ && self.projects@[k].id == id,
            decreases self.projects.len() - i,
        {
            proof {
                assert(self.projects@.take(i + 1).drop_last() =~= self.projects@.take(i as int));
                assert(self.projects@.take(i + 1).last() == self.projects@[i as int]);
            }
            if self.projects[i].name == wanted {
                if found.is_none() {
                    found = Some(self.projects[i].id);
                }
                count = count + 1;
            }
            i = i + 1;
        }
        proof {
            assert(self.projects@.take(i as int) =~= self.projects@);
        }
        if count == 0 {
            Err(ConfigError::UnknownProject)
        } else if count > 1 {
            Err(ConfigError::AmbiguousName)
        } else {
            match found {
                Some(id) => Ok(id),
                None => Err(ConfigError::UnknownProject),
            }
        }
    }
}

/// The tag prefixes of the first `n` projects that have one, in order.
pub open spec fn prefixes_upto(ps: Seq<Project>, n: int) -> Seq<String>
    decreases n,
{
    if n <= 0 {
        Seq::empty()
    } else {
        match ps[n - 1].tag_prefix {
            Some(t) => prefixes_upto(ps, n - 1).push(t),
            None => prefixes_upto(ps, n - 1),
        }
    }
}

impl ConfigFile {
    /// The tag prefixes of the projects that have one, in project order.
    pub fn tag_prefixes(&self) -> (r: Vec<String>)
        ensures
            r@ == prefixes_upto(self.projects@, self.projects@.len() as int),
    {
        let mut out: Vec<String> = Vec::new();
        let mut i: usize = 0;
        while i < self.projects.len()
            invariant
                i <= self.projects@.len(),
                out@ == prefixes_upto(self.projects@, i as int),
            decreases self.projects@.len() - i,
        {
            match &self.projects[i].tag_prefix {
                Some(t) => out.push(t.clone()),
                None => {},
            }
            i = i + 1;
        }
        out
    }
}

/// Two projects agree in every field.
pub open spec fn project_same(a: Project, b: Project) -> bool {
    &&& a.id == b.id
    &&& a.name == b.name
    &&& a.covers@ == b.covers@
    &&& a.excludes@ == b.excludes@
    &&& a.depends@ == b.depends@
    &&& a.tag_prefix == b.tag_prefix
    &&& a.sizes@ == b.sizes@
}

/// Two configurations agree in every field.
pub open spec fn config_same(a: ConfigFile, b: ConfigFile) -> bool {
    &&& a.projects@.len() == b.projects@.len()
    &&& forall|i: int| 0 <= i < a.projects@.len() ==> project_same(#[trigger] a.projects@[i], b.projects@[i])
    &&& a.sizes@ == b.sizes@
    &&& a.prev_tag == b.prev_tag
}

fn copy_strings(v: &Vec<String>) -> (r: Vec<String>)
    ensures
        r@ == v@,
{
    let mut out: Vec<String> = Vec::new();
    let mut i: usize = 0;
    while i < v.len()
        invariant
            i <= v.len(),
            out@ == v@.take(i as int),
        decreases v.len() - i,
    {
        out.push(v[i].clone());
        proof {
            assert(out@ =~= v@.take(i + 1));
        }
        i = i + 1;
    }
    proof {
        assert(v@.take(i as int) =~= v@);
    }
    out
}

fn copy_ids(v: &Vec<ProjectId>) -> (r: Vec<ProjectId>)
    ensures
        r@ == v@,
{
    let mut out: Vec<ProjectId> = Vec::new();
    let mut i: usize = 0;
    while i < v.len()
        invariant
            i <= v.len(),
            out@ == v@.take(i as int),
        decreases v.len() - i,
    {
        out.push(v[i]);
        proof {
            assert(out@ =~= v@.take(i + 1));
        }
        i = i + 1;
    }
    proof {
        assert(v@.take(i as int) =~= v@);
    }
    out
}

fn copy_table(v: &Vec<(String, Size)>) -> (r: Vec<(String, Size)>)
    ensures
        r@ == v@,
{
    let mut out: Vec<(String, Size)> = Vec::new();
    let mut i: usize = 0;
    while i < v.len()
        invariant
            i <= v.len(),
            out@ == v@.take(i as int),
        decreases v.len() - i,
    {
        out.push((v[i].0.clone(), v[i].1));
        proof {
            assert(out@ =~= v@.take(i + 1));
        }
        i = i + 1;
    }
    proof {
        assert(v@.take(i as int) =~= v@);
    }
    out
}

impl Project {
    /// A copy of the project.
    pub fn duplicate(&self) -> (r: Project)
        ensures
            project_same(r, *self),
    {
        let tag_prefix = match &self.tag_prefix {
            Some(t) => Some(t.clone()),
            None => None,
        };
        Project {
            id: self.id,
            name: self.name.clone(),
            covers: copy_strings(&self.covers),
            excludes: copy_strings(&self.excludes),
            depends: copy_ids(&self.depends),
            tag_prefix,
            sizes: copy_table(&self.sizes),
        }
    }
}

impl ConfigFile {
    /// A copy of the configuration.
    pub fn duplicate(&self) -> (r: ConfigFile)
        ensures
            config_same(r, *self),
    {
        let mut projects: Vec<Project> = Vec::new();
        let mut i: usize = 0;
        while i < self.projects.len()
            invariant
                i <= self.projects.len(),
                projects@.len() == i,
                forall|j: int| 0 <= j < i ==> project_same(#[trigger] projects@[j], self.projects@[j]),
            decreases self.projects.len() - i,
        {
            projects.push(self.projects[i].duplicate());
            i = i + 1;
        }
        ConfigFile { projects, sizes: copy_table(&self.sizes), prev_tag: self.prev_tag.clone() }
    }
}

/// Configurations that agree in every field are equally well formed and give every path
/// the same owners.
pub proof fn lemma_config_same(a: ConfigFile, b: ConfigFile)
    requires
        config_same(a, b),
    ensures
        a.wf() == b.wf(),
        forall|i: int, path: Seq<char>|
            0 <= i < a.projects@.len() ==> (#[trigger] a.projects@[i].covers_path(path)
                == b.projects@[i].covers_path(path) && a.projects@[i].id == b.projects@[i].id),
{
    assert forall|i: int, j: int|
        0 <= i < a.projects@.len() && 0 <= j < a.projects@.len() implies (a.projects@[i].id
            == a.projects@[j].id) == (b.projects@[i].id == b.projects@[j].id) by {
        assert(project_same(a.projects@[i], b.projects@[i]));
        assert(project_same(a.projects@[j], b.projects@[j]));
    }
    assert forall|i: int, path: Seq<char>|
        0 <= i < a.projects@.len() implies (#[trigger] a.projects@[i].covers_path(path)
            == b.projects@[i].covers_path(path) && a.projects@[i].id == b.projects@[i].id) by {
        assert(project_same(a.projects@[i], b.projects@[i]));
    }
}

/// `rank` orders the projects so that each stands above every project it depends on.
pub open spec fn is_ranking(ps: Seq<Project>, rank: Seq<nat>) -> bool {
    &&& rank.len() == ps.len()
    &&& forall|a: int, b: int|
        0 <= a < ps.len() && 0 <= b < ps.len() && #[trigger] depends_on(ps, b, a) ==> rank[b] > rank[a]
}

/// The dependency graph has no cycle: some ranking puts every project above its dependencies.
pub open spec fn acyclic(ps: Seq<Project>) -> bool {
    exists|rank: Seq<nat>| #[trigger] is_ranking(ps, rank)
}

/// No ranking exists when some projects each depend on another of them.
proof fn lemma_descent(ps: Seq<Project>, rank: Seq<nat>, done: Seq<bool>, i: int)
    requires
        rank.len() == ps.len(),
        done.len() == ps.len(),
        0 <= i < ps.len(),
        !done[i],
        forall|x: int| 0 <= x < ps.len() && !done[x] ==> exists|a: int|
            0 <= a < ps.len() && !done[a] && #[trigger] depends_on(ps, x, a),
    ensures
        !is_ranking(ps, rank),
    decreases rank[i],
{
    if is_ranking(ps, rank) {
        let a = choose|a: int| 0 <= a < ps.len() && !done[a] && #[trigger] depends_on(ps, i, a);
        lemma_descent(ps, rank, done, a);
    }
}

impl ConfigFile {
    /// Whether the dependency graph has no cycle; dependencies on unknown ids are ignored.
    pub fn is_acyclic(&self) -> (r: bool)
        requires
            self.wf(),
        ensures
            r == acyclic(self.projects@),
    {
        let ghost ps = self.projects@;
        let n = self.projects.len();
        let mut done: Vec<bool> = Vec::new();
        let mut rank: Vec<u64> = Vec::new();
        let mut k: usize = 0;
        while k < n
            invariant
                k <= n,
                n == ps.len(),
                done@.len() == k,
                rank@.len() == k,
                forall|x: int| 0 <= x < k ==> !done@[x] && rank@[x] == 0,
            decreases n - k,
        {
            done.push(false);
            rank.push(0);
            k = k + 1;
        }
        let mut count: usize = 0;
        proof {
            lemma_filter_none(done@);
        }
        loop
            invariant
                n == ps.len(),
                ps == self.projects@,
                self.wf(),
                done@.len() == n,
                rank@.len() == n,
                count <= n,
                forall|x: int| 0 <= x < n ==> rank@[x] <= count,
                forall|x: int, a: int|
                    0 <= x < n && 0 <= a < n && done@[x] && #[trigger] depends_on(ps, x, a) ==> done@[a] && rank@[x]
                        > rank@[a],
                count == done@.filter(|d: bool| d).len(),
            ensures
                done@.len() == n,
                rank@.len() == n,
                forall|x: int, a: int|
                    0 <= x < n && 0 <= a < n && done@[x] && #[trigger] depends_on(ps, x, a) ==> done@[a] && rank@[x]
                        > rank@[a],
                forall|x: int| 0 <= x < n && !done@[x] ==> exists|a: int|
                    0 <= a < n && !done@[a] && #[trigger] depends_on(ps, x, a),
            decreases n - count,
        {
            let mut progressed = false;
            let ghost count0 = count;
            let mut i: usize = 0;
            while i < n
                invariant
                    n == ps.len(),
                    ps == self.projects@,
                    self.wf(),
                    done@.len() == n,
                    rank@.len() == n,
                    i <= n,
                    count <= n,
                    forall|x: int| 0 <= x < n ==> rank@[x] <= count,
                    forall|x: int, a: int|
                        0 <= x < n && 0 <= a < n && done@[x] && #[trigger] depends_on(ps, x, a) ==> done@[a]
                            && rank@[x] > rank@[a],
                    count == done@.filter(|d: bool| d).len(),
                    progressed ==> count > count0,
                    !progressed ==> count == count0,
                    !progressed ==> forall|x: int| 0 <= x < i && !done@[x] ==> exists|a: int|
                        0 <= a < n && !done@[a] && #[trigger] depends_on(ps, x, a),
                decreases n - i,
            {
                if !done[i] {
                    let deps = &self.projects[i].depends;
                    let mut ready = true;
                    let mut top: u64 = 0;
                    let mut d: usize = 0;
                    while d < deps.len()
                        invariant
                            n == ps.len(),
                            ps == self.projects@,
                            self.wf(),
                            i < n,
                            *deps == ps[i as int].depends,
                            done@.len() == n,
                            rank@.len() == n,
                            d <= deps@.len(),
                            top <= count,
                            forall|x: int| 0 <= x < n ==> rank@[x] <= count,
                            ready ==> forall|e: int, a: int|
                                0 <= e < d && 0 <= a < n && #[trigger] ps[a].id == #[trigger] deps@[e] ==> done@[a] && top
                                    >= rank@[a],
                            !ready ==> exists|a: int| 0 <= a < n && !done@[a] && #[trigger] depends_on(ps, i as int, a),
                        decreases deps@.len() - d,
                    {
                        match self.index_of(deps[d]) {
                            Some(j) => {
                                if !done[j] {
                                    proof {
                                        assert(ps[i as int].depends@[d as int] == ps[j as int].id);
                                        assert(depends_on(ps, i as int, j as int));
                                    }
                                    ready = false;
                                } else if rank[j] > top {
                                    top = rank[j];
                                }
                            },
                            None => {},
                        }
                        d = d + 1;
                    }
                    if ready {
                        proof {
                            assert forall|a: int| 0 <= a < n && #[trigger] depends_on(ps, i as int, a) implies done@[a]
                                && top >= rank@[a] by {
                                let e = choose|e: int| 0 <= e < ps[i as int].depends@.len() && #[trigger] ps[i as int].depends@[e] == ps[a].id;
                                assert(ps[a].id == deps@[e]);
                            }
                            assert(!depends_on(ps, i as int, i as int) || !done@[i as int]);
                        }
                        let ghost d0 = done@;
                        proof {
                            lemma_filter_flip(d0, i as int);
                            lemma_filter_bound(d0.update(i as int, true));
                            assert(count < n);
                        }
                        done.set(i, true);
                        rank.set(i, top + 1);
                        count = count + 1;
                        progressed = true;
                    } else {
                        proof {
                            if !progressed {
                                assert forall|x: int| 0 <= x < i + 1 && !done@[x] implies exists|a: int|
                                    0 <= a < n && !done@[a] && #[trigger] depends_on(ps, x, a) by {
                                }
                            }
                        }
                    }
                }
                i = i + 1;
            }
            if !progressed {
                break;
            }
        }
        let mut all = true;
        let mut x: usize = 0;
        while x < n
            invariant
                n == ps.len(),
                done@.len() == n,
                x <= n,
                all <==> forall|y: int| 0 <= y < x ==> done@[y],
            decreases n - x,
        {
            if !done[x] {
                all = false;
            }
            x = x + 1;
        }
        proof {
            if all {
                let r = rank@.map_values(|v: u64| v as nat);
                assert(is_ranking(ps, r));
            } else {
                let i0 = choose|y: int| 0 <= y < n && !done@[y];
                if acyclic(ps) {
                    let r = choose|r: Seq<nat>| #[trigger] is_ranking(ps, r);
                    lemma_descent(ps, r, done@, i0);
                }
            }
        }
        all
    }
}

proof fn lemma_filter_flip(s: Seq<bool>, i: int)
    requires
        0 <= i < s.len(),
        !s[i],
    ensures
        s.update(i, true).filter(|d: bool| d).len() == s.filter(|d: bool| d).len() + 1,
    decreases s.len(),
{
    let t = s.update(i, true);
    if i == s.len() - 1 {
        assert(t.drop_last() =~= s.drop_last());
        reveal_with_fuel(Seq::filter, 1);
        assert(t.filter(|d: bool| d) =~= t.drop_last().filter(|d: bool| d).push(true));
        assert(s.filter(|d: bool| d) =~= s.drop_last().filter(|d: bool| d));
    } else {
        assert(t.drop_last() =~= s.drop_last().update(i, true));
        lemma_filter_flip(s.drop_last(), i);
        reveal_with_fuel(Seq::filter, 1);
        assert(t.last() == s.last());
        if s.last() {
            assert(t.filter(|d: bool| d) =~= t.drop_last().filter(|d: bool| d).push(true));
            assert(s.filter(|d: bool| d) =~= s.drop_last().filter(|d: bool| d).push(true));
        } else {
            assert(t.filter(|d: bool| d) =~= t.drop_last().filter(|d: bool| d));
            assert(s.filter(|d: bool| d) =~= s.drop_last().filter(|d: bool| d));
        }
    }
}

proof fn lemma_filter_none(s: Seq<bool>)
    requires
        forall|i: int| 0 <= i < s.len() ==> !s[i],
    ensures
        s.filter(|d: bool| d).len() == 0,
    decreases s.len(),
{
    if s.len() > 0 {
        lemma_filter_none(s.drop_last());
        reveal_with_fuel(Seq::filter, 1);
        assert(s.filter(|d: bool| d) =~= s.drop_last().filter(|d: bool| d));
    }
}

proof fn lemma_filter_bound(s: Seq<bool>)
    ensures
        s.filter(|d: bool| d).len() <= s.len(),
    decreases s.len(),
{
    if s.len() > 0 {
        lemma_filter_bound(s.drop_last());
        reveal_with_fuel(Seq::filter, 1);
        if s.last() {
            assert(s.filter(|d: bool| d) =~= s.drop_last().filter(|d: bool| d).push(true));
        } else {
            assert(s.filter(|d: bool| d) =~= s.drop_last().filter(|d: bool| d));
        }
    }
}

fn wildcard_string() -> (r: String)
    ensures
        r@ == wildcard(),
{
    let v: Vec<char> = vec!['*'];
    let r = crate::text::string_of(&v);
    proof {
        assert(v@ =~= wildcard());
    }
    r
}

proof fn lemma_lookup_append(a: Seq<(String, Size)>, b: Seq<(String, Size)>, kind: Seq<char>)
    ensures
        table_lookup(a + b, kind) == match table_lookup(a, kind) {
            Some(s) => Some(s),
            None => table_lookup(b, kind),
        },
    decreases a.len(),
{
    if a.len() > 0 {
        assert((a + b).drop_first() =~= a.drop_first() + b);
        lemma_lookup_append(a.drop_first(), b, kind);
    } else {
        assert(a + b =~= b);
    }
}

fn lookup_in(table: &Vec<(String, Size)>, kind: &String) -> (r: Option<Size>)
    ensures
        r == table_lookup(table@, kind@),
{
    let mut i: usize = 0;
    proof {
        assert(table@.subrange(0, table.len() as int) =~= table@);
    }
    while i < table.len()
        invariant
            i <= table.len(),
            table_lookup(table@, kind@) == table_lookup(table@.subrange(i as int, table.len() as int), kind@),
        decreases table.len() - i,
    {
        proof {
            let rest = table@.subrange(i as int, table.len() as int);
            assert(rest.drop_first() =~= table@.subrange(i + 1, table.len() as int));
        }
        if table[i].0 == *kind {
            return Some(table[i].1);
        }
        i = i + 1;
    }
    None
}

fn lookup_two(first: &Vec<(String, Size)>, second: &Vec<(String, Size)>, kind: &String) -> (r: Option<Size>)
    ensures
        r == table_lookup(first@ + second@, kind@),
{
    proof {
        lemma_lookup_append(first@, second@, kind@);
    }
    match lookup_in(first, kind) {
        Some(s) => Some(s),
        None => lookup_in(second, kind),
    }
}

fn any_glob_match(globs: &Vec<String>, path: &Vec<char>) -> (r: bool)
    ensures
        r == any_glob(globs@, path@),
{
    let mut i: usize = 0;
    while i < globs.len()
        invariant
            i <= globs.len(),
            forall|j: int| 0 <= j < i ==> !glob_matches(#[trigger] globs@[j]@, path@),
        decreases globs.len() - i,
    {
        let g = chars_of(globs[i].as_str());
        if glob_match(&g, path) {
            return true;
        }
        i = i + 1;
    }
    false
}

} // verus!
