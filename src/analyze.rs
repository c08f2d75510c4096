//! Comparing the projects of two configurations: removed, added and changed.

use vstd::prelude::*;
use crate::config::ProjectId;

verus! {

/// A project with the version its mark holds.
pub struct AnnotatedMark {
    pub id: ProjectId,
    pub name: String,
    pub value: String,
}

/// A project present on both sides.
pub struct Change {
    pub new_mark: AnnotatedMark,
    /// The old and new name, when the name changed.
    pub name: Option<(String, String)>,
    /// The old and new version, when the version changed.
    pub value: Option<(String, String)>,
}

/// What changed from one configuration to the other.
pub struct Analysis {
    pub older: Vec<AnnotatedMark>,
    pub newer: Vec<AnnotatedMark>,
    pub changes: Vec<Change>,
}

/// The position of the first mark with this id.
pub open spec fn find_id(ms: Seq<AnnotatedMark>, id: ProjectId) -> Option<int>
    decreases ms.len(),
{
    if ms.len() == 0 {
        None
    } else {
        match find_id(ms.drop_last(), id) {
            Some(i) => Some(i),
            None => if ms.last().id == id {
                Some(ms.len() - 1)
            } else {
                None
            },
        }
    }
}

/// The first `n` marks of `ms` whose id `other` lacks.
pub open spec fn missing_from(ms: Seq<AnnotatedMark>, other: Seq<AnnotatedMark>, n: int) -> Seq<AnnotatedMark>
    decreases n,
{
    if n <= 0 {
        Seq::empty()
    } else if find_id(other, ms[n - 1].id) is None {
        missing_from(ms, other, n - 1).push(ms[n - 1])
    } else {
        missing_from(ms, other, n - 1)
    }
}

/// The change from `old` to `new`: the new mark, and each of the name and the version as
/// an old/new pair when it changed.
pub open spec fn change_of(old: AnnotatedMark, new: AnnotatedMark) -> Change {
    Change {
        new_mark: new,
        name: if old.name@ == new.name@ {
            None
        } else {
            Some((old.name, new.name))
        },
        value: if old.value@ == new.value@ {
            None
        } else {
            Some((old.value, new.value))
        },
    }
}

/// The changes of the first `n` current marks that the previous marks also hold, in order.
pub open spec fn changes_upto(prev: Seq<AnnotatedMark>, curt: Seq<AnnotatedMark>, n: int) -> Seq<Change>
    decreases n,
{
    if n <= 0 {
        Seq::empty()
    } else {
        match find_id(prev, curt[n - 1].id) {
            Some(p) => changes_upto(prev, curt, n - 1).push(change_of(prev[p], curt[n - 1])),
            None => changes_upto(prev, curt, n - 1),
        }
    }
}

fn copy_mark(m: &AnnotatedMark) -> (r: AnnotatedMark)
    ensures
        r == *m,
{
    AnnotatedMark { id: m.id, name: m.name.clone(), value: m.value.clone() }
}

fn position_of(ms: &Vec<AnnotatedMark>, id: ProjectId) -> (r: Option<usize>)
    ensures
        r matches Some(i) ==> i < ms@.len() && find_id(ms@, id) == Some(i as int),
        r is None ==> find_id(ms@, id) is None,
{
    let mut i: usize = 0;
    while i < ms.len()
        invariant
            i <= ms@.len(),
            find_id(ms@.take(i as int), id) is None,
        decreases ms@.len() - i,
    {
        proof {
            assert(ms@.take(i + 1).drop_last() =~= ms@.take(i as int));
        }
        if ms[i].id == id {
            proof {
                lemma_find_prefix(ms@, i as int + 1, id);
            }
            return Some(i);
        }
        i = i + 1;
    }
    proof {
        assert(ms@.take(i as int) =~= ms@);
    }
    None
}

proof fn lemma_find_prefix(ms: Seq<AnnotatedMark>, n: int, id: ProjectId)
    requires
        0 < n <= ms.len(),
        find_id(ms.take(n), id) is Some,
    ensures
        find_id(ms, id) == find_id(ms.take(n), id),
    decreases ms.len() - n,
{
    if n < ms.len() {
        assert(ms.take(n + 1).drop_last() =~= ms.take(n));
        lemma_find_prefix(ms, n + 1, id);
    } else {
        assert(ms.take(n) =~= ms);
    }
}

fn marks_missing(ms: &Vec<AnnotatedMark>, other: &Vec<AnnotatedMark>) -> (r: Vec<AnnotatedMark>)
    ensures
        r@ == missing_from(ms@, other@, ms@.len() as int),
{
    let mut out: Vec<AnnotatedMark> = Vec::new();
    let mut i: usize = 0;
    while i < ms.len()
        invariant
            i <= ms@.len(),
            out@ == missing_from(ms@, other@, i as int),
        decreases ms@.len() - i,
    {
        if position_of(other, ms[i].id).is_none() {
            out.push(copy_mark(&ms[i]));
        }
        i = i + 1;
    }
    out
}

/// Compares the marks of a previous and a current configuration: projects only in the
/// previous one, projects only in the current one, and for each current project also in the
/// previous one, what changed.
pub fn analyze(prev: &Vec<AnnotatedMark>, curt: &Vec<AnnotatedMark>) -> (r: Analysis)
    ensures
        r.older@ == missing_from(prev@, curt@, prev@.len() as int),
        r.newer@ == missing_from(curt@, prev@, curt@.len() as int),
        r.changes@ == changes_upto(prev@, curt@, curt@.len() as int),
{
    let older = marks_missing(prev, curt);
    let newer = marks_missing(curt, prev);
    let mut changes: Vec<Change> = Vec::new();
    let mut i: usize = 0;
    while i < curt.len()
        invariant
            i <= curt@.len(),
            changes@ == changes_upto(prev@, curt@, i as int),
        decreases curt@.len() - i,
    {
        let c = &curt[i];
        match position_of(prev, c.id) {
            Some(p) => {
                let old = &prev[p];
                let name = if old.name == c.name {
                    None
                } else {
                    Some((old.name.clone(), c.name.clone()))
                };
                let value = if old.value == c.value {
                    None
                } else {
                    Some((old.value.clone(), c.value.clone()))
                };
                changes.push(Change { new_mark: copy_mark(c), name, value });
            },
            None => {},
        }
        i = i + 1;
    }
    Analysis { older, newer, changes }
}

} // verus!
