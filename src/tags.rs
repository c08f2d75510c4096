//! Release tags of earlier versions, indexed by the commits they stand at or before.

use vstd::prelude::*;
use vstd::multiset::Multiset;

verus! {

broadcast use vstd::seq_lib::group_to_multiset_ensures;

/// A release tag, resolved to its commit, with the time it was made.
pub struct TagRef {
    pub name: String,
    pub oid: String,
    /// When the tag was made, in seconds since the epoch.
    pub time: i64,
}

/// Tags stand latest first.
pub open spec fn latest_first(ts: Seq<TagRef>) -> bool {
    forall|i: int, j: int| 0 <= i <= j < ts.len() ==> #[trigger] ts[i].time >= #[trigger] ts[j].time
}

/// Where a tag made at `t` goes among `out`: right after the last tag made no earlier.
pub open spec fn time_pos(out: Seq<TagRef>, t: i64) -> int
    decreases out.len(),
{
    if out.len() == 0 || out.last().time >= t {
        out.len() as int
    } else {
        time_pos(out.drop_last(), t)
    }
}

/// The first `i` tags, each put in turn right after the tags made no earlier: latest first,
/// tags made at the same time in the order they came.
pub open spec fn tsort_upto(ts: Seq<TagRef>, i: int) -> Seq<TagRef>
    decreases i,
{
    if i <= 0 {
        Seq::empty()
    } else {
        let s = tsort_upto(ts, i - 1);
        s.insert(time_pos(s, ts[i - 1].time), ts[i - 1])
    }
}

proof fn lemma_time_pos(out: Seq<TagRef>, t: i64, p: int)
    requires
        0 <= p <= out.len(),
        forall|i: int| p <= i < out.len() ==> #[trigger] out[i].time < t,
        p == 0 || out[p - 1].time >= t,
    ensures
        time_pos(out, t) == p,
    decreases out.len(),
{
    if out.len() > 0 && p < out.len() {
        assert(out.last().time < t);
        lemma_time_pos(out.drop_last(), t, p);
    }
}

/// Orders tags latest first; tags made at the same time keep their order.
pub fn sort_latest_first(tags: Vec<TagRef>) -> (r: Vec<TagRef>)
    ensures
        latest_first(r@),
        r@.to_multiset() == tags@.to_multiset(),
        r@ == tsort_upto(tags@, tags@.len() as int),
{
    let ghost orig = tags@;
    let mut rest = tags;
    let mut out: Vec<TagRef> = Vec::new();
    proof {
        assert(orig.skip(0) =~= orig);
    }
    while rest.len() > 0
        invariant
            latest_first(out@),
            out@.to_multiset().add(rest@.to_multiset()) == orig.to_multiset(),
            out@.len() + rest@.len() == orig.len(),
            rest@ == orig.skip(out@.len() as int),
            out@ == tsort_upto(orig, out@.len() as int),
        decreases rest.len(),
    {
        let ghost rest0 = rest@;
        let ghost out0 = out@;
        let x = rest.remove(0);
        let mut pos: usize = out.len();
        while pos > 0 && out[pos - 1].time < x.time
            invariant
                pos <= out.len(),
                forall|i: int| pos <= i < out.len() ==> #[trigger] out@[i].time < x.time,
            decreases pos,
        {
            pos = pos - 1;
        }
        proof {
            lemma_time_pos(out0, x.time, pos as int);
            assert(x == orig[out0.len() as int]);
            assert(rest@ =~= orig.skip(out0.len() as int + 1));
        }
        out.insert(pos, x);
        proof {
            assert forall|i: int, j: int| 0 <= i <= j < out@.len() implies #[trigger] out@[i].time
                >= #[trigger] out@[j].time by {
                if i < pos && j > pos {
                    assert(out@[i] == out0[i]);
                    assert(out@[j] == out0[j - 1]);
                } else if i < pos && j == pos {
                    assert(out0[i].time >= out0[pos - 1].time);
                } else if i == pos && j > pos {
                    assert(out@[j] == out0[j - 1]);
                } else if i > pos {
                    assert(out@[i] == out0[i - 1]);
                    assert(out@[j] == out0[j - 1]);
                }
            }
            assert(rest0.remove(0).to_multiset() == rest0.to_multiset().remove(rest0[0]));
            assert(out0.insert(pos as int, x).to_multiset() == out0.to_multiset().insert(x));
            assert(rest0.to_multiset().count(x) > 0);
            assert(out@.to_multiset().add(rest@.to_multiset()) =~= out0.to_multiset().add(rest0.to_multiset()));
        }
    }
    proof {
        assert(rest@.to_multiset() =~= Multiset::empty());
        assert(out@.to_multiset().add(Multiset::empty()) =~= out@.to_multiset());
    }
    out
}

/// The names of the tags, in order, that stand at commit `oid`.
pub open spec fn names_at(ts: Seq<TagRef>, oid: Seq<char>) -> Seq<Seq<char>>
    decreases ts.len(),
{
    if ts.len() == 0 {
        Seq::empty()
    } else if ts.last().oid@ == oid {
        names_at(ts.drop_last(), oid).push(ts.last().name@)
    } else {
        names_at(ts.drop_last(), oid)
    }
}

/// The names of the tags at the first `n` commits of the walk, commit by commit.
pub open spec fn names_upto(ts: Seq<TagRef>, walk: Seq<String>, n: int) -> Seq<Seq<char>>
    decreases n,
{
    if n <= 0 {
        Seq::empty()
    } else {
        names_upto(ts, walk, n - 1) + names_at(ts, walk[n - 1]@)
    }
}

/// The position of the first commit of the walk, from position `i` on, that has a tag.
pub open spec fn next_tagged(ts: Seq<TagRef>, walk: Seq<String>, i: int) -> Option<int>
    decreases walk.len() - i,
{
    if i < 0 || i >= walk.len() {
        None
    } else if names_at(ts, walk[i]@).len() > 0 {
        Some(i)
    } else {
        next_tagged(ts, walk, i + 1)
    }
}

/// For each of the first `n` commits of the walk that has a tagged commit at or after it,
/// the commit with the position of that commit's first tag among all the names.
pub open spec fn anchors_upto(ts: Seq<TagRef>, walk: Seq<String>, n: int) -> Seq<(Seq<char>, nat)>
    decreases n,
{
    if n <= 0 {
        Seq::empty()
    } else {
        match next_tagged(ts, walk, n - 1) {
            Some(j) => anchors_upto(ts, walk, n - 1).push((walk[n - 1]@, names_upto(ts, walk, j).len())),
            None => anchors_upto(ts, walk, n - 1),
        }
    }
}

/// The earlier release tags of one prefix.
pub struct PrefixTags {
    pub prefix: String,
    /// Tag names, commit by commit along the walk, latest first at each commit.
    pub tags: Vec<String>,
    /// For each commit, the position in `tags` of the nearest tag at or before it.
    pub not_after: Vec<(String, usize)>,
}

/// The earlier release tags of every prefix.
pub struct OldTags {
    pub by_prefix: Vec<PrefixTags>,
}

impl OldTags {
    /// The latest tag of `prefix` that stands at or before commit `oid`.
    pub fn latest(&self, prefix: &String, oid: &String) -> (r: Option<&String>)
        ensures
            r matches Some(t) ==> exists|i: int, e: int|
                #![trigger self.by_prefix@[i].not_after@[e]]
                0 <= i < self.by_prefix@.len() && self.by_prefix@[i].prefix@ == prefix@
                    && 0 <= e < self.by_prefix@[i].not_after@.len()
                    && self.by_prefix@[i].not_after@[e].0@ == oid@
                    && self.by_prefix@[i].not_after@[e].1 < self.by_prefix@[i].tags@.len()
                    && *t == self.by_prefix@[i].tags@[self.by_prefix@[i].not_after@[e].1 as int],
            r is None ==> forall|i: int, e: int|
                #![trigger self.by_prefix@[i].not_after@[e]]
                0 <= i < self.by_prefix@.len() && self.by_prefix@[i].prefix@ == prefix@ && 0 <= e
                    < self.by_prefix@[i].not_after@.len() && self.by_prefix@[i].not_after@[e].0@ == oid@
                    ==> self.by_prefix@[i].not_after@[e].1 >= self.by_prefix@[i].tags@.len(),
    {
        let mut i: usize = 0;
        while i < self.by_prefix.len()
            invariant
                i <= self.by_prefix@.len(),
                forall|a: int, e: int|
                    #![trigger self.by_prefix@[a].not_after@[e]]
                    0 <= a < i && self.by_prefix@[a].prefix@ == prefix@ && 0 <= e
                        < self.by_prefix@[a].not_after@.len() && self.by_prefix@[a].not_after@[e].0@ == oid@
                        ==> self.by_prefix@[a].not_after@[e].1 >= self.by_prefix@[a].tags@.len(),
            decreases self.by_prefix@.len() - i,
        {
            let pt = &self.by_prefix[i];
            if pt.prefix == *prefix {
                let mut e: usize = 0;
                while e < pt.not_after.len()
                    invariant
                        i < self.by_prefix@.len(),
                        *pt == self.by_prefix@[i as int],
                        pt.prefix@ == prefix@,
                        e <= pt.not_after@.len(),
                        forall|x: int|
                            0 <= x < e && pt.not_after@[x].0@ == oid@ ==> #[trigger] pt.not_after@[x].1
                                >= pt.tags@.len(),
                    decreases pt.not_after@.len() - e,
                {
                    if pt.not_after[e].0 == *oid && pt.not_after[e].1 < pt.tags.len() {
                        return Some(&pt.tags[pt.not_after[e].1]);
                    }
                    e = e + 1;
                }
            }
            i = i + 1;
        }
        None
    }
}

fn names_of(ts: &Vec<TagRef>, oid: &String) -> (r: Vec<String>)
    ensures
        r@.map_values(|s: String| s@) == names_at(ts@, oid@),
{
    let mut out: Vec<String> = Vec::new();
    let mut i: usize = 0;
    while i < ts.len()
        invariant
            i <= ts@.len(),
            out@.map_values(|s: String| s@) == names_at(ts@.take(i as int), oid@),
        decreases ts@.len() - i,
    {
        proof {
            assert(ts@.take(i + 1).drop_last() =~= ts@.take(i as int));
        }
        let ghost o0 = out@;
        if ts[i].oid == *oid {
            out.push(ts[i].name.clone());
            proof {
                assert(out@.map_values(|s: String| s@) =~= o0.map_values(|s: String| s@).push(ts@[i as int].name@));
            }
        }
        i = i + 1;
    }
    proof {
        assert(ts@.take(i as int) =~= ts@);
    }
    out
}

proof fn lemma_next_tagged_run(ts: Seq<TagRef>, walk: Seq<String>, k: int, i: int)
    requires
        0 <= k <= i < walk.len(),
        names_at(ts, walk[i]@).len() > 0,
        forall|m: int| k <= m < i ==> names_at(ts, #[trigger] walk[m]@).len() == 0,
    ensures
        next_tagged(ts, walk, k) == Some(i),
    decreases i - k,
{
    if k < i {
        lemma_next_tagged_run(ts, walk, k + 1, i);
    }
}

/// Indexes the tags of one prefix along a walk of commits, newest first.
pub fn index_prefix(prefix: String, tags: Vec<TagRef>, walk: &Vec<String>) -> (r: PrefixTags)
    ensures
        r.prefix == prefix,
        exists|sorted: Seq<TagRef>|
            {
                &&& #[trigger] latest_first(sorted)
                &&& sorted.to_multiset() == tags@.to_multiset()
                &&& sorted == tsort_upto(tags@, tags@.len() as int)
                &&& r.tags@.map_values(|s: String| s@) == names_upto(sorted, walk@, walk@.len() as int)
                &&& r.not_after@.map_values(|e: (String, usize)| (e.0@, e.1 as nat)) == anchors_upto(
                    sorted,
                    walk@,
                    walk@.len() as int,
                )
            },
{
    let sorted = sort_latest_first(tags);
    let ghost ss = sorted@;
    let mut names: Vec<String> = Vec::new();
    let mut anchors: Vec<(String, usize)> = Vec::new();
    let mut pending: usize = 0;
    let mut i: usize = 0;
    while i < walk.len()
        invariant
            ss == sorted@,
            i <= walk@.len(),
            pending <= i,
            names@.map_values(|s: String| s@) == names_upto(ss, walk@, i as int),
            anchors@.map_values(|e: (String, usize)| (e.0@, e.1 as nat)) == anchors_upto(ss, walk@, pending as int),
            forall|m: int| pending <= m < i ==> names_at(ss, #[trigger] walk@[m]@).len() == 0,
        decreases walk@.len() - i,
    {
        let here = names_of(&sorted, &walk[i]);
        proof {
            assert(here@.map_values(|s: String| s@).len() == here@.len());
        }
        if here.len() > 0 {
            let best = names.len();
            let mut k: usize = pending;
            while k <= i
                invariant
                    ss == sorted@,
                    i < walk.len(),
                    pending <= k <= i + 1,
                    best == names@.len(),
                    names@.map_values(|s: String| s@) == names_upto(ss, walk@, i as int),
                    names_at(ss, walk@[i as int]@).len() > 0,
                    forall|m: int| pending <= m < i ==> names_at(ss, #[trigger] walk@[m]@).len() == 0,
                    anchors@.map_values(|e: (String, usize)| (e.0@, e.1 as nat)) == anchors_upto(ss, walk@, k as int),
                decreases i + 1 - k,
            {
                proof {
                    lemma_next_tagged_run(ss, walk@, k as int, i as int);
                    assert(names@.map_values(|s: String| s@).len() == names@.len());
                }
                let ghost a0 = anchors@;
                anchors.push((walk[k].clone(), best));
                proof {
                    assert(anchors@.map_values(|e: (String, usize)| (e.0@, e.1 as nat)) =~= a0.map_values(
                        |e: (String, usize)| (e.0@, e.1 as nat),
                    ).push((walk@[k as int]@, best as nat)));
                }
                k = k + 1;
            }
            let ghost n0 = names@;
            let mut j: usize = 0;
            while j < here.len()
                invariant
                    j <= here@.len(),
                    names@.map_values(|s: String| s@) == n0.map_values(|s: String| s@) + here@.take(j as int).map_values(|s: String| s@),
                decreases here@.len() - j,
            {
                let ghost n1 = names@;
                names.push(here[j].clone());
                proof {
                    assert(names@.map_values(|s: String| s@) =~= n1.map_values(|s: String| s@).push(here@[j as int]@));
                    assert(here@.take(j + 1).map_values(|s: String| s@) =~= here@.take(j as int).map_values(|s: String| s@).push(here@[j as int]@));
                }
                j = j + 1;
            }
            proof {
                assert(here@.take(j as int) =~= here@);
            }
            pending = i + 1;
        } else {
            proof {
                assert(names_upto(ss, walk@, i + 1) =~= names_upto(ss, walk@, i as int));
            }
        }
        i = i + 1;
    }
    proof {
        assert forall|k: int| pending <= k < walk@.len() implies next_tagged(ss, walk@, k) is None by {
            lemma_no_next(ss, walk@, k);
        }
        lemma_anchors_tail(ss, walk@, pending as int, walk@.len() as int);
    }
    PrefixTags { prefix, tags: names, not_after: anchors }
}

proof fn lemma_no_next(ts: Seq<TagRef>, walk: Seq<String>, k: int)
    requires
        0 <= k <= walk.len(),
        forall|m: int| k <= m < walk.len() ==> names_at(ts, #[trigger] walk[m]@).len() == 0,
    ensures
        next_tagged(ts, walk, k) is None,
    decreases walk.len() - k,
{
    if k < walk.len() {
        lemma_no_next(ts, walk, k + 1);
    }
}

proof fn lemma_anchors_tail(ts: Seq<TagRef>, walk: Seq<String>, p: int, n: int)
    requires
        0 <= p <= n <= walk.len(),
        forall|k: int| p <= k < walk.len() ==> next_tagged(ts, walk, k) is None,
    ensures
        anchors_upto(ts, walk, n) == anchors_upto(ts, walk, p),
    decreases n - p,
{
    if n > p {
        lemma_anchors_tail(ts, walk, p, n - 1);
    }
}

/// `old` indexes, for each of `prefixes`, the tags in `tags` at the same position along
/// `walk`: the names commit by commit (latest first at each commit), and for each commit the
/// position of the nearest tag at or before it.
pub open spec fn indexes(old: OldTags, prefixes: Seq<String>, tags: Seq<Vec<TagRef>>, walk: Seq<String>) -> bool {
    &&& old.by_prefix@.len() == prefixes.len()
    &&& forall|i: int| 0 <= i < prefixes.len() ==> {
        let pt = #[trigger] old.by_prefix@[i];
        &&& pt.prefix == prefixes[i]
        &&& exists|sorted: Seq<TagRef>|
            {
                &&& #[trigger] latest_first(sorted)
                &&& sorted.to_multiset() == tags[i]@.to_multiset()
                &&& sorted == tsort_upto(tags[i]@, tags[i]@.len() as int)
                &&& pt.tags@.map_values(|s: String| s@) == names_upto(sorted, walk, walk.len() as int)
                &&& pt.not_after@.map_values(|e: (String, usize)| (e.0@, e.1 as nat)) == anchors_upto(
                    sorted,
                    walk,
                    walk.len() as int,
                )
            }
    }
}

/// Indexes the release tags of every prefix along a walk of commits from the head back to
/// the previous release. `tags[i]` holds the tags of `prefixes[i]`, each resolved to its
/// commit.
pub fn find_old_tags(prefixes: Vec<String>, tags: Vec<Vec<TagRef>>, walk: &Vec<String>) -> (r: OldTags)
    requires
        prefixes@.len() == tags@.len(),
    ensures
        indexes(r, prefixes@, tags@, walk@),
{
    let ghost ps = prefixes@;
    let ghost ts = tags@;
    let mut prefixes = prefixes;
    let mut tags = tags;
    let mut out: Vec<PrefixTags> = Vec::new();
    let n = prefixes.len();
    let mut i: usize = 0;
    while i < n
        invariant
            n == ps.len(),
            ps.len() == ts.len(),
            i <= n,
            prefixes@ == ps.subrange(i as int, n as int),
            tags@ == ts.subrange(i as int, n as int),
            out@.len() == i,
            forall|k: int| 0 <= k < i ==> {
                let pt = #[trigger] out@[k];
                &&& pt.prefix == ps[k]
                &&& exists|sorted: Seq<TagRef>|
                    {
                        &&& #[trigger] latest_first(sorted)
                        &&& sorted.to_multiset() == ts[k]@.to_multiset()
                        &&& sorted == tsort_upto(ts[k]@, ts[k]@.len() as int)
                        &&& pt.tags@.map_values(|s: String| s@) == names_upto(sorted, walk@, walk@.len() as int)
                        &&& pt.not_after@.map_values(|e: (String, usize)| (e.0@, e.1 as nat)) == anchors_upto(
                            sorted,
                            walk@,
                            walk@.len() as int,
                        )
                    }
            },
        decreases n - i,
    {
        let p = prefixes.remove(0);
        let t = tags.remove(0);
        proof {
            assert(prefixes@ =~= ps.subrange(i + 1, n as int));
            assert(tags@ =~= ts.subrange(i + 1, n as int));
        }
        out.push(index_prefix(p, t, walk));
        i = i + 1;
    }
    OldTags { by_prefix: out }
}

} // verus!
