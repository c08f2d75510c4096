//! Building a release plan from the pull-request groups since the previous release.

use vstd::prelude::*;
use crate::config::{ConfigFile, config_same};
use crate::history::FullPr;
use crate::last_commits::{commit_touches, lemma_attributed_same, touches_upto};
use crate::order::ordered_from;
use crate::plan::{
    LoggedCommit, LoggedPr, Plan, PlanBuilder, applied_size, attributed, depends_on, is_dep_chain,
};
use crate::size::Size;
use crate::slicer::{PlanError, SliceBook, book_lookup};

verus! {

/// Commit `n - 1` of the group, when it is not excluded.
pub open spec fn counts(pr: FullPr, n: int) -> bool {
    !pr.excludes_oid(pr.commits@[n - 1].oid@)
}

/// What project `k` records of the first `n` commits of a group: each included commit, sized
/// by its kind, applying when one of its files is the project's under the configuration
/// recorded for that commit.
pub open spec fn logged_upto(
    book: Seq<(String, ConfigFile)>,
    cur: ConfigFile,
    k: int,
    pr: FullPr,
    n: int,
) -> Seq<LoggedCommit>
    decreases n,
{
    if n <= 0 {
        Seq::empty()
    } else {
        let rest = logged_upto(book, cur, k, pr, n - 1);
        let c = pr.commits@[n - 1];
        if counts(pr, n) {
            rest.push(
                LoggedCommit {
                    oid: c.oid,
                    message: c.summary,
                    size: cur.projects@[k].size_of_kind(cur.sizes@, c.kind@),
                    applies: commit_touches(book, c, cur.projects@[k].id),
                    duplicate: false,
                },
            )
        } else {
            rest
        }
    }
}

/// What project `k` records of a whole group.
pub open spec fn logged(book: Seq<(String, ConfigFile)>, cur: ConfigFile, k: int, pr: FullPr) -> Seq<LoggedCommit> {
    logged_upto(book, cur, k, pr, pr.commits@.len() as int)
}

/// The size that project `k` gets from its own commits in the first `n` groups.
pub open spec fn direct_upto(book: Seq<(String, ConfigFile)>, cur: ConfigFile, k: int, prs: Seq<FullPr>, n: int) -> Size
    decreases n,
{
    if n <= 0 {
        Size::NoChange
    } else {
        match applied_size(logged(book, cur, k, prs[n - 1])) {
            Some(s) => direct_upto(book, cur, k, prs, n - 1).join(s),
            None => direct_upto(book, cur, k, prs, n - 1),
        }
    }
}

/// The change log of project `k` over the first `n` groups, before ordering: each group with
/// an applying commit, as (number, closing time, commits, size).
pub open spec fn entries_upto(book: Seq<(String, ConfigFile)>, cur: ConfigFile, k: int, prs: Seq<FullPr>, n: int) -> Seq<
    (u32, i64, Seq<LoggedCommit>, Size),
>
    decreases n,
{
    if n <= 0 {
        Seq::empty()
    } else {
        let pr = prs[n - 1];
        match applied_size(logged(book, cur, k, pr)) {
            Some(s) => entries_upto(book, cur, k, prs, n - 1).push((pr.number, pr.closed_at, logged(book, cur, k, pr), s)),
            None => entries_upto(book, cur, k, prs, n - 1),
        }
    }
}

/// Some current project has an applying commit in the group.
pub open spec fn effective(book: Seq<(String, ConfigFile)>, cur: ConfigFile, pr: FullPr) -> bool {
    exists|k: int| 0 <= k < cur.projects@.len() && (#[trigger] applied_size(logged(book, cur, k, pr))) is Some
}

/// The groups among the first `n` that apply to no project, as (number, closing time).
pub open spec fn ineffective_upto(book: Seq<(String, ConfigFile)>, cur: ConfigFile, prs: Seq<FullPr>, n: int) -> Seq<(u32, i64)>
    decreases n,
{
    if n <= 0 {
        Seq::empty()
    } else if effective(book, cur, prs[n - 1]) {
        ineffective_upto(book, cur, prs, n - 1)
    } else {
        ineffective_upto(book, cur, prs, n - 1).push((prs[n - 1].number, prs[n - 1].closed_at))
    }
}

/// Some included commit of some group has no recorded configuration.
pub open spec fn missing_slice(book: Seq<(String, ConfigFile)>, prs: Seq<FullPr>) -> bool {
    exists|p: int, c: int|
        0 <= p < prs.len() && 0 <= c < prs[p].commits@.len() && counts(prs[p], c + 1) && book_lookup(
            book,
            (#[trigger] prs[p].commits@[c]).oid@,
        ) is None
}

/// The view of a change-log entry.
pub open spec fn entry_view(e: (LoggedPr, Size)) -> (u32, i64, Seq<LoggedCommit>, Size) {
    (e.0.number, e.0.closed_at, e.0.commits@, e.1)
}

/// The views of change-log entries.
pub open spec fn entries_view(es: Seq<(LoggedPr, Size)>) -> Seq<(u32, i64, Seq<LoggedCommit>, Size)> {
    es.map_values(|e: (LoggedPr, Size)| entry_view(e))
}

/// The views of ineffective pull requests.
pub open spec fn prs_view(ps: Seq<LoggedPr>) -> Seq<(u32, i64)> {
    ps.map_values(|p: LoggedPr| pr_view(p))
}

/// The view of an ineffective pull request.
pub open spec fn pr_view(p: LoggedPr) -> (u32, i64) {
    (p.number, p.closed_at)
}

/// Some included commit of the group has no recorded configuration.
pub open spec fn group_missing_slice(book: Seq<(String, ConfigFile)>, pr: FullPr) -> bool {
    exists|c: int|
        0 <= c < pr.commits@.len() && counts(pr, c + 1) && book_lookup(book, (#[trigger] pr.commits@[c]).oid@) is None
}

/// Feeds one group to the builder: its included commits, each with its files, the
/// configuration of each commit taken from `book`.
fn run_group(b: &mut PlanBuilder, pr: &FullPr, book: &SliceBook) -> (r: Result<(), PlanError>)
    requires
        old(b).wf(),
        old(b).phase is Idle,
    ensures
        final(b).wf(),
        final(b).current == old(b).current,
        r is Err <==> group_missing_slice(book.entries@, *pr),
        r matches Err(e) ==> e == PlanError::NotSliced,
        r is Ok ==> {
            let bk = book.entries@;
            let cur = old(b).current;
            &&& final(b).phase is Idle
            &&& final(b).incrs@.len() == old(b).incrs@.len()
            &&& forall|k: int| 0 <= k < final(b).incrs@.len() ==> {
                let before = old(b).incrs@[k];
                &&& (#[trigger] final(b).incrs@[k]).id == before.id
                &&& final(b).incrs@[k].size == match applied_size(logged(bk, cur, k, *pr)) {
                    Some(s) => before.size.join(s),
                    None => before.size,
                }
                &&& entries_view(final(b).incrs@[k].change_log.entries@)
                    == match applied_size(logged(bk, cur, k, *pr)) {
                    Some(s) => entries_view(before.change_log.entries@).push(
                        (pr.number, pr.closed_at, logged(bk, cur, k, *pr), s),
                    ),
                    None => entries_view(before.change_log.entries@),
                }
            }
            &&& prs_view(final(b).ineffective@) == if effective(bk, cur, *pr) {
                prs_view(old(b).ineffective@)
            } else {
                prs_view(old(b).ineffective@).push((pr.number, pr.closed_at))
            }
        },
{
    let ghost bk = book.entries@;
    let ghost cur = b.current;
    let ghost b0 = *b;
    assert(cur == old(b).current);
    let _ = b.start_pr(pr);
    let n = b.on_pr_sizes.len();
    let m = pr.commits.len();
    let mut j: usize = 0;
    while j < m
        invariant
            bk == book.entries@,
            m == pr.commits@.len(),
            j <= m,
            b.wf(),
            b.phase is InPr,
            cur == old(b).current,
            b.current == cur,
            b.incrs == b0.incrs,
            b.ineffective == b0.ineffective,
            b.on_number == pr.number,
            b.on_closed_at == pr.closed_at,
            n == b.on_pr_sizes@.len(),
            n == cur.projects@.len(),
            forall|k: int| 0 <= k < n ==> {
                &&& (#[trigger] b.on_pr_sizes@[k]).number == pr.number
                &&& b.on_pr_sizes@[k].closed_at == pr.closed_at
                &&& b.on_pr_sizes@[k].commits@ == logged_upto(bk, cur, k, *pr, j as int)
            },
            forall|c: int| 0 <= c < j && counts(*pr, c + 1) ==> book_lookup(bk, (#[trigger] pr.commits@[c]).oid@) is Some,
        decreases m - j,
    {
        let c = &pr.commits[j];
        if !pr.has_exclude(&c.oid) {
            let cfg = match book.lookup(&c.oid) {
                Some(f) => f.duplicate(),
                None => {
                    proof {
                        assert(counts(*pr, j + 1) && pr.commits@[j as int] == *c);
                    }
                    return Err(PlanError::NotSliced);
                },
            };
            let ghost bcfg = book_lookup(bk, c.oid@)->Some_0;
            let _ = b.start_commit(c, cfg);
            let nf = c.files.len();
            let mut f: usize = 0;
            while f < nf
                invariant
                    bk == book.entries@,
                    m == pr.commits@.len(),
                    j < m,
                    *c == pr.commits@[j as int],
                    counts(*pr, j + 1),
                    book_lookup(bk, c.oid@) == Some(bcfg),
                    nf == c.files@.len(),
                    f <= nf,
                    b.wf(),
                    b.phase is InCommit,
                    config_same(b.sliced(), bcfg),
                    b.current == cur,
                    b.incrs == b0.incrs,
                    b.ineffective == b0.ineffective,
                    b.on_number == pr.number,
                    b.on_closed_at == pr.closed_at,
                    n == b.on_pr_sizes@.len(),
                    forall|k: int| 0 <= k < n ==> {
                        &&& (#[trigger] b.on_pr_sizes@[k]).number == pr.number
                        &&& b.on_pr_sizes@[k].closed_at == pr.closed_at
                        &&& b.on_pr_sizes@[k].commits@ == logged_upto(bk, cur, k, *pr, j as int).push(
                            LoggedCommit {
                                oid: c.oid,
                                message: c.summary,
                                size: cur.projects@[k].size_of_kind(cur.sizes@, c.kind@),
                                applies: touches_upto(bcfg, cur.projects@[k].id, c.files@, f as int),
                                duplicate: false,
                            },
                        )
                    },
                decreases nf - f,
            {
                let ghost before = b.on_pr_sizes@;
                let ghost sl = b.sliced();
                let _ = b.start_file(c.files[f].as_str());
                let _ = b.finish_file();
                proof {
                    assert forall|k: int| 0 <= k < n implies {
                        &&& (#[trigger] b.on_pr_sizes@[k]).number == pr.number
                        &&& b.on_pr_sizes@[k].closed_at == pr.closed_at
                        &&& b.on_pr_sizes@[k].commits@ == logged_upto(bk, cur, k, *pr, j as int).push(
                            LoggedCommit {
                                oid: c.oid,
                                message: c.summary,
                                size: cur.projects@[k].size_of_kind(cur.sizes@, c.kind@),
                                applies: touches_upto(bcfg, cur.projects@[k].id, c.files@, f + 1),
                                duplicate: false,
                            },
                        )
                    } by {
                        let id = cur.projects@[k].id;
                        let path = c.files@[f as int]@;
                        lemma_attributed_same(sl, bcfg, id, path);
                        if touches_upto(bcfg, id, c.files@, f as int) {
                            let x = choose|x: int| 0 <= x < f && #[trigger] attributed(bcfg, id, c.files@[x]@);
                            assert(touches_upto(bcfg, id, c.files@, f + 1));
                        }
                        if attributed(bcfg, id, path) {
                            assert(touches_upto(bcfg, id, c.files@, f + 1));
                        }
                        if touches_upto(bcfg, id, c.files@, f + 1) && !touches_upto(bcfg, id, c.files@, f as int) {
                            let x = choose|x: int| 0 <= x < f + 1 && #[trigger] attributed(bcfg, id, c.files@[x]@);
                            assert(x == f);
                        }
                        assert(before[k].commits@.update(before[k].commits@.len() - 1, LoggedCommit {
                            applies: before[k].commits@.last().applies || attributed(sl, id, path),
                            ..before[k].commits@.last()
                        }) =~= logged_upto(bk, cur, k, *pr, j as int).push(
                            LoggedCommit {
                                oid: c.oid,
                                message: c.summary,
                                size: cur.projects@[k].size_of_kind(cur.sizes@, c.kind@),
                                applies: touches_upto(bcfg, cur.projects@[k].id, c.files@, f + 1),
                                duplicate: false,
                            },
                        ));
                    }
                }
                f = f + 1;
            }
            let _ = b.finish_commit();
        }
        j = j + 1;
    }
    proof {
        assert forall|k: int| 0 <= k < n implies applied_size(#[trigger] b.on_pr_sizes@[k].commits@)
            == applied_size(logged(bk, cur, k, *pr)) by {}
        if effective(bk, cur, *pr) {
            let k = choose|k: int| 0 <= k < cur.projects@.len() && (#[trigger] applied_size(logged(bk, cur, k, *pr))) is Some;
            assert(applied_size(b.on_pr_sizes@[k].commits@) is Some);
            assert(crate::plan::applies_somewhere(b.on_pr_sizes@));
        }
        if crate::plan::applies_somewhere(b.on_pr_sizes@) {
            let k = choose|k: int| 0 <= k < b.on_pr_sizes@.len() && applied_size(#[trigger] b.on_pr_sizes@[k].commits@) is Some;
            assert(applied_size(logged(bk, cur, k, *pr)) is Some);
        }
    }
    let ghost bm = *b;
    let r = b.finish_pr();
    proof {
        assert forall|k: int| 0 <= k < b.incrs@.len() implies
            entries_view((#[trigger] b.incrs@[k]).change_log.entries@)
                    == match applied_size(logged(bk, cur, k, *pr)) {
                    Some(s) => entries_view(b0.incrs@[k].change_log.entries@).push(
                        (pr.number, pr.closed_at, logged(bk, cur, k, *pr), s),
                    ),
                    None => entries_view(b0.incrs@[k].change_log.entries@),
                } by {
            match applied_size(logged(bk, cur, k, *pr)) {
                Some(s) => {
                    assert(entries_view(b.incrs@[k].change_log.entries@) =~=
                        entries_view(b0.incrs@[k].change_log.entries@).push(
                        (pr.number, pr.closed_at, logged(bk, cur, k, *pr), s)));
                },
                None => {},
            }
        }
        if !effective(bk, cur, *pr) {
            assert(prs_view(b.ineffective@) =~=
                prs_view(b0.ineffective@).push((pr.number, pr.closed_at)));
        }
    }
    r
}

/// `plan` is what the groups `prs` give under the current configuration `cur`:
/// - one entry per current project, in configuration order;
/// - each project's size at least what its own commits ask for, and exactly what its own
///   commits, or those of some project upstream of it, ask for;
/// - no project below a project it depends on;
/// - each change log holds the groups with an applying commit, ordered by closing time and
///   with commits claimed twice marked;
/// - the ineffective groups, in order.
pub open spec fn plan_matches(book: Seq<(String, ConfigFile)>, cur: ConfigFile, prs: Seq<FullPr>, plan: Plan) -> bool {
    let ps = cur.projects@;
    let n = prs.len() as int;
    &&& plan.incrs@.len() == ps.len()
    &&& forall|k: int| 0 <= k < ps.len() ==> {
        &&& (#[trigger] plan.incrs@[k]).id == ps[k].id
        &&& plan.incrs@[k].size.rank() >= direct_upto(book, cur, k, prs, n).rank()
        &&& exists|path: Seq<int>|
            #[trigger] is_dep_chain(ps, path) && path.last() == k && plan.incrs@[k].size == direct_upto(
                book,
                cur,
                path[0],
                prs,
                n,
            )
        &&& exists|pre: Seq<(LoggedPr, Size)>|
            #[trigger] entries_view(pre) == entries_upto(book, cur, k, prs, n)
                && ordered_from(pre, plan.incrs@[k].change_log.entries@)
    }
    &&& forall|a: int, b: int|
        0 <= a < ps.len() && 0 <= b < ps.len() && #[trigger] depends_on(ps, b, a) ==> plan.incrs@[b].size.rank()
            >= plan.incrs@[a].size.rank()
    &&& prs_view(plan.ineffective@) == ineffective_upto(book, cur, prs, n)
}

/// Plans a release: feeds every group to a builder, lifts sizes through dependencies, then
/// orders and de-duplicates the change logs. Fails when an included commit has no recorded
/// configuration.
pub fn build_plan(current: ConfigFile, prs: &Vec<FullPr>, book: &SliceBook) -> (r: (Result<Plan, PlanError>, ConfigFile))
    requires
        current.wf(),
    ensures
        r.1 == current,
        r.0 is Err <==> missing_slice(book.entries@, prs@),
        r.0 matches Err(e) ==> e == PlanError::NotSliced,
        r.0 matches Ok(plan) ==> plan_matches(book.entries@, current, prs@, plan),
{
    let ghost bk = book.entries@;
    let ghost cur = current;
    let mut b = PlanBuilder::create(current);
    let np = prs.len();
    let mut i: usize = 0;
    proof {
        assert forall|k: int| 0 <= k < b.incrs@.len() implies entries_view((#[trigger] b.incrs@[k]).change_log.entries@) == entries_upto(bk, cur, k, prs@, 0) by {
            assert(entries_view(b.incrs@[k].change_log.entries@) =~= Seq::empty());
        }
        assert(prs_view(b.ineffective@) =~= Seq::empty());
    }
    while i < np
        invariant
            bk == book.entries@,
            np == prs@.len(),
            i <= np,
            b.wf(),
            b.phase is Idle,
            b.current == cur,
            cur == current,
            b.incrs@.len() == cur.projects@.len(),
            forall|k: int| 0 <= k < b.incrs@.len() ==> {
                &&& (#[trigger] b.incrs@[k]).size == direct_upto(bk, cur, k, prs@, i as int)
                &&& entries_view(b.incrs@[k].change_log.entries@) == entries_upto(
                    bk,
                    cur,
                    k,
                    prs@,
                    i as int,
                )
            },
            prs_view(b.ineffective@) == ineffective_upto(bk, cur, prs@, i as int),
            forall|p: int| 0 <= p < i ==> !group_missing_slice(bk, #[trigger] prs@[p]),
        decreases np - i,
    {
        match run_group(&mut b, &prs[i], book) {
            Ok(()) => {},
            Err(e) => {
                proof {
                    let c = choose|c: int|
                        0 <= c < prs@[i as int].commits@.len() && counts(prs@[i as int], c + 1) && book_lookup(
                            bk,
                            (#[trigger] prs@[i as int].commits@[c]).oid@,
                        ) is None;
                    assert(prs@[i as int].commits@[c] == prs@[i as int].commits@[c]);
                    assert(missing_slice(bk, prs@));
                }
                let back = b.into_config();
                return (Err(e), back);
            },
        }
        i = i + 1;
    }
    proof {
        if missing_slice(bk, prs@) {
            let (p, c) = choose|p: int, c: int|
                0 <= p < prs@.len() && 0 <= c < prs@[p].commits@.len() && counts(prs@[p], c + 1) && book_lookup(
                    bk,
                    (#[trigger] prs@[p].commits@[c]).oid@,
                ) is None;
            assert(group_missing_slice(bk, prs@[p]));
        }
    }
    let ghost before_deps = b.incrs@;
    b.handle_deps();
    let ghost before_sort = b.incrs@;
    b.sort_and_dedup();
    let (plan, cfg) = b.build_with_config();
    proof {
        let ps = cur.projects@;
        let n = np as int;
        assert forall|k: int| 0 <= k < ps.len() implies {
            &&& (#[trigger] plan.incrs@[k]).id == ps[k].id
            &&& plan.incrs@[k].size.rank() >= direct_upto(bk, cur, k, prs@, n).rank()
            &&& exists|path: Seq<int>|
                #[trigger] is_dep_chain(ps, path) && path.last() == k && plan.incrs@[k].size == direct_upto(
                    bk,
                    cur,
                    path[0],
                    prs@,
                    n,
                )
            &&& exists|pre: Seq<(LoggedPr, Size)>|
                #[trigger] entries_view(pre) == entries_upto(bk, cur, k, prs@, n)
                    && ordered_from(pre, plan.incrs@[k].change_log.entries@)
        } by {
            assert(before_deps[k].size == direct_upto(bk, cur, k, prs@, n));
            assert(crate::plan::size_from_upstream(ps, before_deps, k, before_sort[k].size));
            let path = choose|path: Seq<int>|
                #[trigger] is_dep_chain(ps, path) && path.last() == k && before_sort[k].size == before_deps[path[0]].size;
            assert(0 <= path[0] < ps.len());
            assert(before_deps[path[0]].size == direct_upto(bk, cur, path[0], prs@, n));
            let pre = before_sort[k].change_log.entries@;
            assert(pre == before_deps[k].change_log.entries@);
            assert(entries_view(pre) == entries_upto(bk, cur, k, prs@, n));
        }
    }
    (Ok(plan), cfg)
}

} // verus!
