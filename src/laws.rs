//! Properties of every plan, stated over the contracts of the planner.

use vstd::prelude::*;
use crate::config::ConfigFile;
use crate::history::FullPr;
use crate::order::{
    close_pos, commit_marked, dedup_of, entry_marked, isort_upto, lemma_included_once, ordered_from, seen_before,
    sorted_by_close,
};
use crate::plan::{LoggedPr, Plan, depends_on, is_dep_chain};
use crate::planning::{counts, direct_upto, entries_upto, entries_view, logged, logged_upto, plan_matches};
use crate::last_commits::commit_touches;
use crate::size::{Size, lemma_rank_injective};

verus! {

/// Along a dependency chain, sizes never fall.
proof fn lemma_chain_monotone(ps: Seq<crate::config::Project>, plan: Plan, path: Seq<int>, i: int)
    requires
        is_dep_chain(ps, path),
        plan.incrs@.len() == ps.len(),
        forall|a: int, b: int|
            0 <= a < ps.len() && 0 <= b < ps.len() && #[trigger] depends_on(ps, b, a) ==> plan.incrs@[b].size.rank()
                >= plan.incrs@[a].size.rank(),
        0 <= i < path.len(),
    ensures
        plan.incrs@[path.last()].size.rank() >= plan.incrs@[path[i]].size.rank(),
    decreases path.len() - i,
{
    if i < path.len() - 1 {
        assert(depends_on(ps, path[i + 1], path[i]));
        assert(0 <= path[i] < ps.len() && 0 <= path[i + 1] < ps.len());
        lemma_chain_monotone(ps, plan, path, i + 1);
    }
}

/// A project's planned size is at least what the own commits of each project upstream of it
/// ask for.
pub proof fn lemma_upstream_bound(
    book: Seq<(String, ConfigFile)>,
    cur: ConfigFile,
    prs: Seq<FullPr>,
    plan: Plan,
    path: Seq<int>,
)
    requires
        plan_matches(book, cur, prs, plan),
        is_dep_chain(cur.projects@, path),
    ensures
        plan.incrs@[path.last()].size.rank() >= direct_upto(book, cur, path[0], prs, prs.len() as int).rank(),
{
    let ps = cur.projects@;
    assert(0 <= path[0] < ps.len());
    assert(plan.incrs@[path[0]].size.rank() >= direct_upto(book, cur, path[0], prs, prs.len() as int).rank());
    lemma_chain_monotone(ps, plan, path, 0);
}

/// Planning the same groups under the same configuration twice gives every project the same
/// size and the same ineffective groups.
proof fn lemma_replan_sizes(
    book: Seq<(String, ConfigFile)>,
    cur: ConfigFile,
    prs: Seq<FullPr>,
    first: Plan,
    second: Plan,
)
    requires
        plan_matches(book, cur, prs, first),
        plan_matches(book, cur, prs, second),
    ensures
        first.incrs@.len() == second.incrs@.len(),
        forall|k: int| 0 <= k < first.incrs@.len() ==> (#[trigger] first.incrs@[k]).size == second.incrs@[k].size
            && first.incrs@[k].id == second.incrs@[k].id,
        crate::planning::prs_view(first.ineffective@) == crate::planning::prs_view(second.ineffective@),
{
    let ps = cur.projects@;
    let n = prs.len() as int;
    assert forall|k: int| 0 <= k < first.incrs@.len() implies (#[trigger] first.incrs@[k]).size == second.incrs@[k].size
        && first.incrs@[k].id == second.incrs@[k].id by {
        assert(first.incrs@[k].id == ps[k].id);
        let path1 = choose|path: Seq<int>|
            #[trigger] is_dep_chain(ps, path) && path.last() == k && first.incrs@[k].size == direct_upto(book, cur, path[0], prs, n);
        let path2 = choose|path: Seq<int>|
            #[trigger] is_dep_chain(ps, path) && path.last() == k && second.incrs@[k].size == direct_upto(book, cur, path[0], prs, n);
        lemma_upstream_bound(book, cur, prs, first, path2);
        lemma_upstream_bound(book, cur, prs, second, path1);
        lemma_rank_injective(first.incrs@[k].size, second.incrs@[k].size);
    }
}

proof fn lemma_view_index(left: Seq<(LoggedPr, Size)>, right: Seq<(LoggedPr, Size)>)
    requires
        entries_view(left) == entries_view(right),
    ensures
        left.len() == right.len(),
        forall|i: int| 0 <= i < left.len() ==> {
            &&& (#[trigger] left[i]).0.number == right[i].0.number
            &&& left[i].0.closed_at == right[i].0.closed_at
            &&& left[i].0.commits@ == right[i].0.commits@
            &&& left[i].1 == right[i].1
        },
{
    assert(entries_view(left).len() == left.len());
    assert(entries_view(right).len() == right.len());
    assert forall|i: int| 0 <= i < left.len() implies {
        &&& (#[trigger] left[i]).0.number == right[i].0.number
        &&& left[i].0.closed_at == right[i].0.closed_at
        &&& left[i].0.commits@ == right[i].0.commits@
        &&& left[i].1 == right[i].1
    } by {
        assert(entries_view(left)[i] == entries_view(right)[i]);
    }
}

proof fn lemma_view_from_index(left: Seq<(LoggedPr, Size)>, right: Seq<(LoggedPr, Size)>)
    requires
        left.len() == right.len(),
        forall|i: int| 0 <= i < left.len() ==> {
            &&& (#[trigger] left[i]).0.number == right[i].0.number
            &&& left[i].0.closed_at == right[i].0.closed_at
            &&& left[i].0.commits@ == right[i].0.commits@
            &&& left[i].1 == right[i].1
        },
    ensures
        entries_view(left) == entries_view(right),
{
    assert(entries_view(left) =~= entries_view(right));
}

proof fn lemma_close_pos_range(s: Seq<(LoggedPr, Size)>, t: i64)
    ensures
        0 <= close_pos(s, t) <= s.len(),
    decreases s.len(),
{
    if s.len() > 0 {
        lemma_close_pos_range(s.drop_last(), t);
    }
}

proof fn lemma_close_pos_view(left: Seq<(LoggedPr, Size)>, right: Seq<(LoggedPr, Size)>, t: i64)
    requires
        entries_view(left) == entries_view(right),
    ensures
        close_pos(left, t) == close_pos(right, t),
    decreases left.len(),
{
    lemma_view_index(left, right);
    if left.len() > 0 {
        lemma_view_from_index(left.drop_last(), right.drop_last());
        lemma_close_pos_view(left.drop_last(), right.drop_last(), t);
        assert(left.last().0.closed_at == right.last().0.closed_at);
    }
}

proof fn lemma_isort_view(a: Seq<(LoggedPr, Size)>, b: Seq<(LoggedPr, Size)>, i: int)
    requires
        entries_view(a) == entries_view(b),
        0 <= i <= a.len(),
    ensures
        entries_view(isort_upto(a, i)) == entries_view(isort_upto(b, i)),
        isort_upto(a, i).len() == i,
    decreases i,
{
    lemma_view_index(a, b);
    if i > 0 {
        lemma_isort_view(a, b, i - 1);
        let left = isort_upto(a, i - 1);
        let right = isort_upto(b, i - 1);
        lemma_close_pos_view(left, right, a[i - 1].0.closed_at);
        lemma_close_pos_range(left, a[i - 1].0.closed_at);
        let p = close_pos(left, a[i - 1].0.closed_at);
        lemma_view_index(left, right);
        let left_ins = left.insert(p, a[i - 1]);
        let right_ins = right.insert(p, b[i - 1]);
        left.insert_ensures(p, a[i - 1]);
        right.insert_ensures(p, b[i - 1]);
        assert forall|j: int| 0 <= j < left_ins.len() implies {
            &&& (#[trigger] left_ins[j]).0.number == right_ins[j].0.number
            &&& left_ins[j].0.closed_at == right_ins[j].0.closed_at
            &&& left_ins[j].0.commits@ == right_ins[j].0.commits@
            &&& left_ins[j].1 == right_ins[j].1
        } by {
            if j < p {
                assert(left_ins[j] == left[j] && right_ins[j] == right[j]);
            } else if j > p {
                assert(left_ins[j] == left[j - 1] && right_ins[j] == right[j - 1]);
            }
        }
        lemma_view_from_index(left_ins, right_ins);
    }
}

proof fn lemma_dedup_view(left: Seq<(LoggedPr, Size)>, right: Seq<(LoggedPr, Size)>, left_out: Seq<(LoggedPr, Size)>, right_out: Seq<(LoggedPr, Size)>)
    requires
        entries_view(left) == entries_view(right),
        dedup_of(left, left_out),
        dedup_of(right, right_out),
    ensures
        entries_view(left_out) == entries_view(right_out),
{
    lemma_view_index(left, right);
    assert forall|i: int| 0 <= i < left_out.len() implies {
        &&& (#[trigger] left_out[i]).0.number == right_out[i].0.number
        &&& left_out[i].0.closed_at == right_out[i].0.closed_at
        &&& left_out[i].0.commits@ == right_out[i].0.commits@
        &&& left_out[i].1 == right_out[i].1
    } by {
        assert(entry_marked(left, i, left_out[i]));
        assert(entry_marked(right, i, right_out[i]));
        assert forall|c: int| 0 <= c < left_out[i].0.commits@.len() implies #[trigger] left_out[i].0.commits@[c]
            == right_out[i].0.commits@[c] by {
            let x = left[i].0.commits@[c];
            assert(x == right[i].0.commits@[c]);
            assert(seen_before(left, i, c, x.oid@) == seen_before(right, i, c, x.oid@)) by {
                if seen_before(left, i, c, x.oid@) {
                    if exists|c2: int| 0 <= c2 < c && #[trigger] left[i].0.commits@[c2].oid@ == x.oid@ {
                        let c2 = choose|c2: int| 0 <= c2 < c && #[trigger] left[i].0.commits@[c2].oid@ == x.oid@;
                        assert(right[i].0.commits@[c2].oid@ == x.oid@);
                    } else {
                        let (i2, c2) = choose|i2: int, c2: int|
                            0 <= i2 < i && 0 <= c2 < left[i2].0.commits@.len() && #[trigger] left[i2].0.commits@[c2].oid@ == x.oid@;
                        assert(right[i2].0.commits@[c2].oid@ == x.oid@);
                    }
                }
                if seen_before(right, i, c, x.oid@) {
                    if exists|c2: int| 0 <= c2 < c && #[trigger] right[i].0.commits@[c2].oid@ == x.oid@ {
                        let c2 = choose|c2: int| 0 <= c2 < c && #[trigger] right[i].0.commits@[c2].oid@ == x.oid@;
                        assert(left[i].0.commits@[c2].oid@ == x.oid@);
                    } else {
                        let (i2, c2) = choose|i2: int, c2: int|
                            0 <= i2 < i && 0 <= c2 < right[i2].0.commits@.len() && #[trigger] right[i2].0.commits@[c2].oid@ == x.oid@;
                        assert(left[i2].0.commits@[c2].oid@ == x.oid@);
                    }
                }
            }
            assert(commit_marked(left, i, c) == commit_marked(right, i, c));
        }
        assert(left_out[i].0.commits@ =~= right_out[i].0.commits@);
    }
    lemma_view_from_index(left_out, right_out);
}

/// Planning the same groups under the same configuration twice gives the same change log
/// for every project, entry for entry.
proof fn lemma_replan_logs(
    book: Seq<(String, ConfigFile)>,
    cur: ConfigFile,
    prs: Seq<FullPr>,
    first: Plan,
    second: Plan,
    k: int,
)
    requires
        plan_matches(book, cur, prs, first),
        plan_matches(book, cur, prs, second),
        0 <= k < first.incrs@.len(),
    ensures
        entries_view(first.incrs@[k].change_log.entries@) == entries_view(second.incrs@[k].change_log.entries@),
{
    let n = prs.len() as int;
    let left_out = first.incrs@[k].change_log.entries@;
    let right_out = second.incrs@[k].change_log.entries@;
    let left_pre = choose|pre: Seq<(LoggedPr, Size)>|
        #[trigger] entries_view(pre) == entries_upto(book, cur, k, prs, n) && ordered_from(pre, left_out);
    let right_pre = choose|pre: Seq<(LoggedPr, Size)>|
        #[trigger] entries_view(pre) == entries_upto(book, cur, k, prs, n) && ordered_from(pre, right_out);
    let left = choose|sorted: Seq<(LoggedPr, Size)>|
        #[trigger] sorted_by_close(sorted) && sorted.to_multiset() == left_pre.to_multiset() && sorted == isort_upto(
            left_pre,
            left_pre.len() as int,
        ) && dedup_of(sorted, left_out);
    let right = choose|sorted: Seq<(LoggedPr, Size)>|
        #[trigger] sorted_by_close(sorted) && sorted.to_multiset() == right_pre.to_multiset() && sorted == isort_upto(
            right_pre,
            right_pre.len() as int,
        ) && dedup_of(sorted, right_out);
    lemma_view_index(left_pre, right_pre);
    lemma_isort_view(left_pre, right_pre, left_pre.len() as int);
    lemma_dedup_view(left, right, left_out, right_out);
}

/// Planning twice from the same repository state gives the same plan: the same projects in
/// the same order with the same sizes, the same change logs entry for entry, and the same
/// ineffective groups.
pub proof fn lemma_replan(book: Seq<(String, ConfigFile)>, cur: ConfigFile, prs: Seq<FullPr>, first: Plan, second: Plan)
    requires
        plan_matches(book, cur, prs, first),
        plan_matches(book, cur, prs, second),
    ensures
        first.incrs@.len() == second.incrs@.len(),
        forall|k: int| 0 <= k < first.incrs@.len() ==> {
            &&& (#[trigger] first.incrs@[k]).id == second.incrs@[k].id
            &&& first.incrs@[k].size == second.incrs@[k].size
            &&& entries_view(first.incrs@[k].change_log.entries@) == entries_view(second.incrs@[k].change_log.entries@)
        },
        crate::planning::prs_view(first.ineffective@) == crate::planning::prs_view(second.ineffective@),
{
    lemma_replan_sizes(book, cur, prs, first, second);
    assert forall|k: int| 0 <= k < first.incrs@.len() implies entries_view(
        (#[trigger] first.incrs@[k]).change_log.entries@,
    ) == entries_view(second.incrs@[k].change_log.entries@) by {
        lemma_replan_logs(book, cur, prs, first, second, k);
    }
}

/// In every change log of a plan, entries stand in non-decreasing order of closing time.
pub proof fn lemma_plan_ordered(book: Seq<(String, ConfigFile)>, cur: ConfigFile, prs: Seq<FullPr>, plan: Plan, k: int)
    requires
        plan_matches(book, cur, prs, plan),
        0 <= k < plan.incrs@.len(),
    ensures
        sorted_by_close(plan.incrs@[k].change_log.entries@),
{
    let out = plan.incrs@[k].change_log.entries@;
    let pre = choose|pre: Seq<(LoggedPr, Size)>|
        #[trigger] crate::planning::entries_view(pre) == crate::planning::entries_upto(book, cur, k, prs, prs.len() as int)
            && ordered_from(pre, plan.incrs@[k].change_log.entries@);
    let sorted = choose|sorted: Seq<(LoggedPr, Size)>|
        #[trigger] sorted_by_close(sorted) && sorted.to_multiset() == pre.to_multiset() && sorted == isort_upto(
            pre,
            pre.len() as int,
        ) && dedup_of(sorted, out);
    assert forall|i: int, j: int| 0 <= i <= j < out.len() implies #[trigger] out[i].0.closed_at
        <= #[trigger] out[j].0.closed_at by {
        assert(entry_marked(sorted, i, out[i]));
        assert(entry_marked(sorted, j, out[j]));
    }
}

/// Within one change log of a plan, a commit id is included in at most one place.
pub proof fn lemma_plan_included_once(
    book: Seq<(String, ConfigFile)>,
    cur: ConfigFile,
    prs: Seq<FullPr>,
    plan: Plan,
    k: int,
    i1: int,
    c1: int,
    i2: int,
    c2: int,
)
    requires
        plan_matches(book, cur, prs, plan),
        0 <= k < plan.incrs@.len(),
        0 <= i1 < plan.incrs@[k].change_log.entries@.len(),
        0 <= i2 < plan.incrs@[k].change_log.entries@.len(),
        0 <= c1 < plan.incrs@[k].change_log.entries@[i1].0.commits@.len(),
        0 <= c2 < plan.incrs@[k].change_log.entries@[i2].0.commits@.len(),
        i1 != i2 || c1 != c2,
        plan.incrs@[k].change_log.entries@[i1].0.commits@[c1].is_included(),
        plan.incrs@[k].change_log.entries@[i2].0.commits@[c2].is_included(),
    ensures
        plan.incrs@[k].change_log.entries@[i1].0.commits@[c1].oid@
            != plan.incrs@[k].change_log.entries@[i2].0.commits@[c2].oid@,
{
    let out = plan.incrs@[k].change_log.entries@;
    let pre = choose|pre: Seq<(LoggedPr, Size)>|
        #[trigger] crate::planning::entries_view(pre) == crate::planning::entries_upto(book, cur, k, prs, prs.len() as int)
            && ordered_from(pre, plan.incrs@[k].change_log.entries@);
    let sorted = choose|sorted: Seq<(LoggedPr, Size)>|
        #[trigger] sorted_by_close(sorted) && sorted.to_multiset() == pre.to_multiset() && sorted == isort_upto(
            pre,
            pre.len() as int,
        ) && dedup_of(sorted, out);
    lemma_included_once(sorted, out, i1, c1, i2, c2);
}

/// Commit `q` of group `pr` is included and touches project `k`.
pub open spec fn claims(book: Seq<(String, ConfigFile)>, cur: ConfigFile, pr: FullPr, q: int, k: int) -> bool {
    &&& 0 <= q < pr.commits@.len()
    &&& counts(pr, q + 1)
    &&& commit_touches(book, pr.commits@[q], cur.projects@[k].id)
}

/// No commit id is claimed by two different projects, in any groups.
pub open spec fn single_owner(book: Seq<(String, ConfigFile)>, cur: ConfigFile, prs: Seq<FullPr>) -> bool {
    forall|p1: int, q1: int, k1: int, p2: int, q2: int, k2: int|
        0 <= p1 < prs.len() && 0 <= p2 < prs.len() && 0 <= k1 < cur.projects@.len() && 0 <= k2
            < cur.projects@.len() && #[trigger] claims(book, cur, prs[p1], q1, k1) && #[trigger] claims(
            book,
            cur,
            prs[p2],
            q2,
            k2,
        ) && prs[p1].commits@[q1].oid@ == prs[p2].commits@[q2].oid@ ==> k1 == k2
}

proof fn lemma_logged_source(book: Seq<(String, ConfigFile)>, cur: ConfigFile, k: int, pr: FullPr, m: int, c: int)
    requires
        0 <= m <= pr.commits@.len(),
        0 <= c < logged_upto(book, cur, k, pr, m).len(),
        logged_upto(book, cur, k, pr, m)[c].applies,
    ensures
        exists|q: int|
            0 <= q < m && #[trigger] claims(book, cur, pr, q, k) && pr.commits@[q].oid@ == logged_upto(
                book,
                cur,
                k,
                pr,
                m,
            )[c].oid@,
    decreases m,
{
    if m > 0 {
        let rest = logged_upto(book, cur, k, pr, m - 1);
        if counts(pr, m) && c == rest.len() {
            assert(claims(book, cur, pr, m - 1, k));
        } else {
            lemma_logged_source(book, cur, k, pr, m - 1, c);
            let q = choose|q: int|
                0 <= q < m - 1 && #[trigger] claims(book, cur, pr, q, k) && pr.commits@[q].oid@ == rest[c].oid@;
            assert(0 <= q < m);
        }
    }
}

proof fn lemma_entry_source(book: Seq<(String, ConfigFile)>, cur: ConfigFile, k: int, prs: Seq<FullPr>, n: int, j: int)
    requires
        0 <= n <= prs.len(),
        0 <= j < entries_upto(book, cur, k, prs, n).len(),
    ensures
        exists|p: int| 0 <= p < n && entries_upto(book, cur, k, prs, n)[j].2 == #[trigger] logged(book, cur, k, prs[p]),
    decreases n,
{
    if n > 0 {
        let rest = entries_upto(book, cur, k, prs, n - 1);
        if j < rest.len() {
            lemma_entry_source(book, cur, k, prs, n - 1, j);
            let p = choose|p: int| 0 <= p < n - 1 && rest[j].2 == #[trigger] logged(book, cur, k, prs[p]);
            assert(0 <= p < n);
        } else {
            assert(entries_upto(book, cur, k, prs, n)[j].2 == logged(book, cur, k, prs[n - 1]));
        }
    }
}

/// An included commit of a project's change log is claimed by that project in some group.
proof fn lemma_included_source(
    book: Seq<(String, ConfigFile)>,
    cur: ConfigFile,
    prs: Seq<FullPr>,
    plan: Plan,
    k: int,
    i: int,
    c: int,
) -> (w: (int, int))
    requires
        plan_matches(book, cur, prs, plan),
        0 <= k < plan.incrs@.len(),
        0 <= i < plan.incrs@[k].change_log.entries@.len(),
        0 <= c < plan.incrs@[k].change_log.entries@[i].0.commits@.len(),
        plan.incrs@[k].change_log.entries@[i].0.commits@[c].is_included(),
    ensures
        0 <= w.0 < prs.len(),
        claims(book, cur, prs[w.0], w.1, k),
        prs[w.0].commits@[w.1].oid@ == plan.incrs@[k].change_log.entries@[i].0.commits@[c].oid@,
{
    let n = prs.len() as int;
    let out = plan.incrs@[k].change_log.entries@;
    let pre = choose|pre: Seq<(LoggedPr, Size)>|
        #[trigger] entries_view(pre) == entries_upto(book, cur, k, prs, n) && ordered_from(pre, out);
    let sorted = choose|sorted: Seq<(LoggedPr, Size)>|
        #[trigger] sorted_by_close(sorted) && sorted.to_multiset() == pre.to_multiset() && sorted == isort_upto(
            pre,
            pre.len() as int,
        ) && dedup_of(sorted, out);
    assert(entry_marked(sorted, i, out[i]));
    assert(out[i].0.commits@[c] == commit_marked(sorted, i, c));
    broadcast use vstd::seq_lib::group_to_multiset_ensures;
    assert(sorted.contains(sorted[i]));
    assert(sorted.to_multiset().count(sorted[i]) > 0);
    assert(pre.contains(sorted[i]));
    let j = choose|j: int| 0 <= j < pre.len() && pre[j] == sorted[i];
    assert(entries_view(pre)[j] == entries_upto(book, cur, k, prs, n)[j]);
    assert(entries_view(pre).len() == pre.len());
    lemma_entry_source(book, cur, k, prs, n, j);
    let p = choose|p: int| 0 <= p < n && entries_upto(book, cur, k, prs, n)[j].2 == #[trigger] logged(book, cur, k, prs[p]);
    let cs = logged(book, cur, k, prs[p]);
    assert(pre[j].0.commits@ == cs);
    lemma_logged_source(book, cur, k, prs[p], prs[p].commits@.len() as int, c);
    let q = choose|q: int|
        0 <= q < prs[p].commits@.len() && #[trigger] claims(book, cur, prs[p], q, k) && prs[p].commits@[q].oid@ == cs[c].oid@;
    (p, q)
}

/// Across all change logs of a plan, a commit id is included in at most one place, when no
/// commit id is claimed by two projects.
pub proof fn lemma_plan_included_once_across(
    book: Seq<(String, ConfigFile)>,
    cur: ConfigFile,
    prs: Seq<FullPr>,
    plan: Plan,
    k1: int,
    i1: int,
    c1: int,
    k2: int,
    i2: int,
    c2: int,
)
    requires
        plan_matches(book, cur, prs, plan),
        single_owner(book, cur, prs),
        0 <= k1 < plan.incrs@.len(),
        0 <= k2 < plan.incrs@.len(),
        0 <= i1 < plan.incrs@[k1].change_log.entries@.len(),
        0 <= i2 < plan.incrs@[k2].change_log.entries@.len(),
        0 <= c1 < plan.incrs@[k1].change_log.entries@[i1].0.commits@.len(),
        0 <= c2 < plan.incrs@[k2].change_log.entries@[i2].0.commits@.len(),
        k1 != k2 || i1 != i2 || c1 != c2,
        plan.incrs@[k1].change_log.entries@[i1].0.commits@[c1].is_included(),
        plan.incrs@[k2].change_log.entries@[i2].0.commits@[c2].is_included(),
    ensures
        plan.incrs@[k1].change_log.entries@[i1].0.commits@[c1].oid@
            != plan.incrs@[k2].change_log.entries@[i2].0.commits@[c2].oid@,
{
    if k1 == k2 {
        lemma_plan_included_once(book, cur, prs, plan, k1, i1, c1, i2, c2);
    } else {
        let w1 = lemma_included_source(book, cur, prs, plan, k1, i1, c1);
        let w2 = lemma_included_source(book, cur, prs, plan, k2, i2, c2);
        assert(plan.incrs@.len() == cur.projects@.len());
        if plan.incrs@[k1].change_log.entries@[i1].0.commits@[c1].oid@
            == plan.incrs@[k2].change_log.entries@[i2].0.commits@[c2].oid@ {
            assert(claims(book, cur, prs[w1.0], w1.1, k1));
            assert(claims(book, cur, prs[w2.0], w2.1, k2));
        }
    }
}

/// Whether a commit counts for a project depends on the configuration recorded for the
/// commit, not on what the current configuration covers: two current configurations that
/// agree on the project's id and size tables record the same commits.
pub proof fn lemma_attribution_local(
    book: Seq<(String, ConfigFile)>,
    cur1: ConfigFile,
    cur2: ConfigFile,
    k: int,
    pr: FullPr,
    n: int,
)
    requires
        0 <= k < cur1.projects@.len(),
        0 <= k < cur2.projects@.len(),
        cur1.projects@[k].id == cur2.projects@[k].id,
        cur1.projects@[k].sizes@ == cur2.projects@[k].sizes@,
        cur1.sizes@ == cur2.sizes@,
        n <= pr.commits@.len(),
    ensures
        logged_upto(book, cur1, k, pr, n) == logged_upto(book, cur2, k, pr, n),
    decreases n,
{
    if n > 0 {
        lemma_attribution_local(book, cur1, cur2, k, pr, n - 1);
    }
}

} // verus!
