//! Ordering a change log by closing time and marking commits claimed twice.

use vstd::prelude::*;
use vstd::multiset::Multiset;
use crate::plan::{ChangeLog, LoggedCommit, LoggedPr, included_size, included_size_of};
use crate::size::Size;

verus! {

broadcast use vstd::seq_lib::group_to_multiset_ensures;

/// Entries stand in non-decreasing order of closing time.
pub open spec fn sorted_by_close(es: Seq<(LoggedPr, Size)>) -> bool {
    forall|i: int, j: int| 0 <= i <= j < es.len() ==> #[trigger] es[i].0.closed_at <= #[trigger] es[j].0.closed_at
}

/// Where an entry closed at `t` goes among `out`: right after the last entry closed no later.
pub open spec fn close_pos(out: Seq<(LoggedPr, Size)>, t: i64) -> int
    decreases out.len(),
{
    if out.len() == 0 || out.last().0.closed_at <= t {
        out.len() as int
    } else {
        close_pos(out.drop_last(), t)
    }
}

/// The first `i` entries of `es`, each put in turn right after the entries closed no later:
/// sorted by closing time, entries closed at the same time in the order they came.
pub open spec fn isort_upto(es: Seq<(LoggedPr, Size)>, i: int) -> Seq<(LoggedPr, Size)>
    decreases i,
{
    if i <= 0 {
        Seq::empty()
    } else {
        let s = isort_upto(es, i - 1);
        s.insert(close_pos(s, es[i - 1].0.closed_at), es[i - 1])
    }
}

proof fn lemma_close_pos(out: Seq<(LoggedPr, Size)>, t: i64, p: int)
    requires
        0 <= p <= out.len(),
        forall|i: int| p <= i < out.len() ==> #[trigger] out[i].0.closed_at > t,
        p == 0 || out[p - 1].0.closed_at <= t,
    ensures
        close_pos(out, t) == p,
    decreases out.len(),
{
    if out.len() > 0 && p < out.len() {
        assert(out.last().0.closed_at > t);
        lemma_close_pos(out.drop_last(), t, p);
    }
}

/// Sorts entries by closing time; entries closed at the same time keep their order.
pub fn sort_by_closed(entries: Vec<(LoggedPr, Size)>) -> (r: Vec<(LoggedPr, Size)>)
    ensures
        sorted_by_close(r@),
        r@.to_multiset() == entries@.to_multiset(),
        r@ == isort_upto(entries@, entries@.len() as int),
{
    let ghost orig = entries@;
    let mut rest = entries;
    let mut out: Vec<(LoggedPr, Size)> = Vec::new();
    proof {
        assert(orig.skip(0) =~= orig);
    }
    while rest.len() > 0
        invariant
            sorted_by_close(out@),
            out@.to_multiset().add(rest@.to_multiset()) == orig.to_multiset(),
            out@.len() + rest@.len() == orig.len(),
            rest@ == orig.skip(out@.len() as int),
            out@ == isort_upto(orig, out@.len() as int),
        decreases rest.len(),
    {
        let ghost rest0 = rest@;
        let ghost out0 = out@;
        let x = rest.remove(0);
        let mut pos: usize = out.len();
        while pos > 0 && out[pos - 1].0.closed_at > x.0.closed_at
            invariant
                pos <= out.len(),
                forall|i: int| pos <= i < out.len() ==> #[trigger] out@[i].0.closed_at > x.0.closed_at,
            decreases pos,
        {
            pos = pos - 1;
        }
        proof {
            lemma_close_pos(out0, x.0.closed_at, pos as int);
            assert(x == orig[out0.len() as int]);
            assert(rest@ =~= orig.skip(out0.len() as int + 1));
        }
        out.insert(pos, x);
        proof {
            assert forall|i: int, j: int| 0 <= i <= j < out@.len() implies #[trigger] out@[i].0.closed_at
                <= #[trigger] out@[j].0.closed_at by {
                if i < pos && j > pos {
                    assert(out@[i] == out0[i]);
                    assert(out@[j] == out0[j - 1]);
                } else if i < pos && j == pos {
                    assert(out0[i].0.closed_at <= out0[pos - 1].0.closed_at);
                } else if i == pos && j > pos {
                    assert(out@[j] == out0[j - 1]);
                } else if i > pos {
                    assert(out@[i] == out0[i - 1]);
                    assert(out@[j] == out0[j - 1]);
                }
            }
            assert(rest0.remove(0).to_multiset() == rest0.to_multiset().remove(rest0[0]));
            assert(out0.insert(pos as int, x).to_multiset() == out0.to_multiset().insert(x));
            assert(rest0.to_multiset().count(x) > 0);
            assert(out@.to_multiset().add(rest@.to_multiset()) =~= out0.to_multiset().add(rest0.to_multiset()));
        }
    }
    proof {
        assert(rest@.to_multiset() =~= Multiset::empty());
        assert(out@.to_multiset().add(Multiset::empty()) =~= out@.to_multiset());
    }
    out
}

/// Some commit before position `c` of entry `i`, in this entry or an earlier one, has id `o`.
pub open spec fn seen_before(es: Seq<(LoggedPr, Size)>, i: int, c: int, o: Seq<char>) -> bool {
    (exists|i2: int, c2: int|
        0 <= i2 < i && 0 <= c2 < es[i2].0.commits@.len() && #[trigger] es[i2].0.commits@[c2].oid@ == o)
        || (exists|c2: int| 0 <= c2 < c && #[trigger] es[i].0.commits@[c2].oid@ == o)
}

/// Commit `c` of entry `i` once marked: a duplicate if it was one already or if its id
/// came up earlier in the log.
pub open spec fn commit_marked(es: Seq<(LoggedPr, Size)>, i: int, c: int) -> LoggedCommit {
    let x = es[i].0.commits@[c];
    LoggedCommit { duplicate: x.duplicate || seen_before(es, i, c, x.oid@), ..x }
}

/// `e` is entry `i` of `es` with its commits marked and its size recomputed from the
/// commits that remain included.
pub open spec fn entry_marked(es: Seq<(LoggedPr, Size)>, i: int, e: (LoggedPr, Size)) -> bool {
    &&& e.0.number == es[i].0.number
    &&& e.0.closed_at == es[i].0.closed_at
    &&& e.0.commits@.len() == es[i].0.commits@.len()
    &&& forall|c: int| 0 <= c < e.0.commits@.len() ==> #[trigger] e.0.commits@[c] == commit_marked(es, i, c)
    &&& e.1 == included_size(e.0.commits@)
}

/// `out` is `es` with every entry marked.
pub open spec fn dedup_of(es: Seq<(LoggedPr, Size)>, out: Seq<(LoggedPr, Size)>) -> bool {
    &&& out.len() == es.len()
    &&& forall|i: int| 0 <= i < out.len() ==> entry_marked(es, i, #[trigger] out[i])
}

fn contains_id(seen: &Vec<String>, o: &String) -> (r: bool)
    ensures
        r == exists|k: int| 0 <= k < seen@.len() && #[trigger] seen@[k]@ == o@,
{
    let mut k: usize = 0;
    while k < seen.len()
        invariant
            k <= seen.len(),
            forall|j: int| 0 <= j < k ==> #[trigger] seen@[j]@ != o@,
        decreases seen.len() - k,
    {
        if seen[k] == *o {
            return true;
        }
        k = k + 1;
    }
    false
}

/// Marks every commit whose id came up earlier in the log as a duplicate, and recomputes
/// each entry's size from its included commits.
pub fn dedup_entries(es: &mut Vec<(LoggedPr, Size)>)
    ensures
        dedup_of(old(es)@, final(es)@),
{
    let ghost orig = es@;
    let n = es.len();
    let mut seen: Vec<String> = Vec::new();
    let mut i: usize = 0;
    while i < n
        invariant
            n == orig.len(),
            es@.len() == n,
            i <= n,
            forall|j: int| 0 <= j < i ==> entry_marked(orig, j, #[trigger] es@[j]),
            forall|j: int| i <= j < n ==> #[trigger] es@[j] == orig[j],
            forall|o: Seq<char>|
                (exists|k: int| 0 <= k < seen@.len() && #[trigger] seen@[k]@ == o) <==> seen_before(
                    orig,
                    i as int,
                    0,
                    o,
                ),
        decreases n - i,
    {
        let m = es[i].0.commits.len();
        let mut c: usize = 0;
        while c < m
            invariant
                n == orig.len(),
                es@.len() == n,
                i < n,
                c <= m,
                m == orig[i as int].0.commits@.len(),
                forall|j: int| 0 <= j < i ==> entry_marked(orig, j, #[trigger] es@[j]),
                forall|j: int| i < j < n ==> #[trigger] es@[j] == orig[j],
                es@[i as int].0.number == orig[i as int].0.number,
                es@[i as int].0.closed_at == orig[i as int].0.closed_at,
                es@[i as int].0.commits@.len() == m,
                forall|d: int| 0 <= d < c ==> #[trigger] es@[i as int].0.commits@[d] == commit_marked(orig, i as int, d),
                forall|d: int| c <= d < m ==> #[trigger] es@[i as int].0.commits@[d] == orig[i as int].0.commits@[d],
                forall|o: Seq<char>|
                    (exists|k: int| 0 <= k < seen@.len() && #[trigger] seen@[k]@ == o) <==> seen_before(
                        orig,
                        i as int,
                        c as int,
                        o,
                    ),
            decreases m - c,
        {
            let o = es[i].0.commits[c].oid.clone();
            if contains_id(&seen, &o) {
                es[i].0.commits[c].duplicate = true;
            }
            let ghost seen0 = seen@;
            seen.push(o);
            proof {
                let c1 = c + 1;
                assert forall|q: Seq<char>|
                    (exists|k: int| 0 <= k < seen@.len() && #[trigger] seen@[k]@ == q) <==> #[trigger] seen_before(
                        orig,
                        i as int,
                        c1,
                        q,
                    ) by {
                    let here = orig[i as int].0.commits@[c as int].oid@;
                    assert(seen@[seen0.len() as int]@ == here);
                    if exists|k: int| 0 <= k < seen@.len() && #[trigger] seen@[k]@ == q {
                        let k = choose|k: int| 0 <= k < seen@.len() && #[trigger] seen@[k]@ == q;
                        if k < seen0.len() {
                            assert(seen0[k]@ == q);
                            assert(seen_before(orig, i as int, c as int, q));
                            if exists|c2: int| 0 <= c2 < c && #[trigger] orig[i as int].0.commits@[c2].oid@ == q {
                                let c2 = choose|c2: int| 0 <= c2 < c && #[trigger] orig[i as int].0.commits@[c2].oid@ == q;
                                assert(0 <= c2 < c1);
                            }
                        } else {
                            assert(q == here);
                            assert(0 <= c < c1 && orig[i as int].0.commits@[c as int].oid@ == q);
                        }
                    }
                    if seen_before(orig, i as int, c1, q) {
                        if seen_before(orig, i as int, c as int, q) {
                            let k = choose|k: int| 0 <= k < seen0.len() && #[trigger] seen0[k]@ == q;
                            assert(seen@[k] == seen0[k]);
                        } else {
                            let c2 = choose|c2: int| 0 <= c2 < c1 && #[trigger] orig[i as int].0.commits@[c2].oid@ == q;
                            if c2 < c {
                                assert(seen_before(orig, i as int, c as int, q));
                            }
                            assert(c2 == c);
                            assert(seen@[seen0.len() as int]@ == q);
                        }
                    }
                }
            }
            c = c + 1;
        }
        let sz = included_size_of(&es[i].0.commits);
        es[i].1 = sz;
        proof {
            let i1 = i + 1;
            assert forall|q: Seq<char>|
                (exists|k: int| 0 <= k < seen@.len() && #[trigger] seen@[k]@ == q) <==> #[trigger] seen_before(orig, i1, 0, q) by {
                assert((exists|k: int| 0 <= k < seen@.len() && #[trigger] seen@[k]@ == q) <==> seen_before(orig, i as int, c as int, q));
                if seen_before(orig, i as int, m as int, q) {
                    if exists|c2: int| 0 <= c2 < m && #[trigger] orig[i as int].0.commits@[c2].oid@ == q {
                        let c2 = choose|c2: int| 0 <= c2 < m && #[trigger] orig[i as int].0.commits@[c2].oid@ == q;
                        assert(0 <= i < i1 && 0 <= c2 < orig[i as int].0.commits@.len());
                    } else {
                        let (i2, c2) = choose|i2: int, c2: int|
                            0 <= i2 < i && 0 <= c2 < orig[i2].0.commits@.len() && #[trigger] orig[i2].0.commits@[c2].oid@ == q;
                        assert(0 <= i2 < i1);
                    }
                    assert(seen_before(orig, i1, 0, q));
                }
                if seen_before(orig, i1, 0, q) {
                    let (i2, c2) = choose|i2: int, c2: int|
                        0 <= i2 < i1 && 0 <= c2 < orig[i2].0.commits@.len() && #[trigger] orig[i2].0.commits@[c2].oid@ == q;
                    if i2 == i {
                        assert(0 <= c2 < m);
                    }
                    assert(seen_before(orig, i as int, m as int, q));
                }
            }
            assert(entry_marked(orig, i as int, es@[i as int]));
        }
        i = i + 1;
    }
}

/// `out` is `es` sorted by closing time and then marked.
pub open spec fn ordered_from(es: Seq<(LoggedPr, Size)>, out: Seq<(LoggedPr, Size)>) -> bool {
    exists|sorted: Seq<(LoggedPr, Size)>|
        #[trigger] sorted_by_close(sorted) && sorted.to_multiset() == es.to_multiset() && sorted == isort_upto(
            es,
            es.len() as int,
        ) && dedup_of(sorted, out)
}

/// Sorts a change log by closing time, then marks duplicate commits and recomputes sizes.
pub fn order_change_log(log: &mut ChangeLog)
    ensures
        ordered_from(old(log).entries@, final(log).entries@),
        sorted_by_close(final(log).entries@),
{
    let mut entries: Vec<(LoggedPr, Size)> = Vec::new();
    core::mem::swap(&mut entries, &mut log.entries);
    let mut sorted = sort_by_closed(entries);
    let ghost s0 = sorted@;
    dedup_entries(&mut sorted);
    proof {
        assert(sorted_by_close(s0));
        assert forall|i: int, j: int| 0 <= i <= j < sorted@.len() implies #[trigger] sorted@[i].0.closed_at
            <= #[trigger] sorted@[j].0.closed_at by {
            assert(entry_marked(s0, i, sorted@[i]));
            assert(entry_marked(s0, j, sorted@[j]));
        }
    }
    log.entries = sorted;
}

/// After marking, no commit id is included twice in one change log.
pub proof fn lemma_included_once(es: Seq<(LoggedPr, Size)>, out: Seq<(LoggedPr, Size)>, i1: int, c1: int, i2: int, c2: int)
    requires
        dedup_of(es, out),
        0 <= i1 < out.len(),
        0 <= i2 < out.len(),
        0 <= c1 < out[i1].0.commits@.len(),
        0 <= c2 < out[i2].0.commits@.len(),
        i1 != i2 || c1 != c2,
        out[i1].0.commits@[c1].is_included(),
        out[i2].0.commits@[c2].is_included(),
    ensures
        out[i1].0.commits@[c1].oid@ != out[i2].0.commits@[c2].oid@,
{
    assert(entry_marked(es, i1, out[i1]));
    assert(entry_marked(es, i2, out[i2]));
    assert(out[i1].0.commits@[c1] == commit_marked(es, i1, c1));
    assert(out[i2].0.commits@[c2] == commit_marked(es, i2, c2));
    if out[i1].0.commits@[c1].oid@ == out[i2].0.commits@[c2].oid@ {
        let o = es[i1].0.commits@[c1].oid@;
        if i1 < i2 || (i1 == i2 && c1 < c2) {
            if i1 < i2 {
                assert(0 <= i1 < i2 && 0 <= c1 < es[i1].0.commits@.len() && es[i1].0.commits@[c1].oid@ == o);
            } else {
                assert(0 <= c1 < c2 && es[i2].0.commits@[c1].oid@ == o);
            }
            assert(seen_before(es, i2, c2, o));
        } else {
            if i2 < i1 {
                assert(0 <= i2 < i1 && 0 <= c2 < es[i2].0.commits@.len() && es[i2].0.commits@[c2].oid@ == o);
            } else {
                assert(0 <= c2 < c1 && es[i1].0.commits@[c2].oid@ == o);
            }
            assert(seen_before(es, i1, c1, o));
        }
    }
}

} // verus!
