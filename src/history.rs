//! Commits and pull-request groups, as the change collector hands them over.

use vstd::prelude::*;
use crate::text::{chars_of, string_of};

verus! {

/// Whether a character ends the kind token of a commit summary.
pub open spec fn is_kind_stop(c: char) -> bool {
    c == ':' || c == '('
}

/// Whether a character is blank for the purpose of trimming a kind.
pub open spec fn is_blank(c: char) -> bool {
    c == ' ' || c == '\t' || c == '\n' || c == '\r'
}

/// The position of the first `:` or `(`, or the length when there is none.
pub open spec fn kind_end(s: Seq<char>) -> nat
    decreases s.len(),
{
    if s.len() == 0 {
        0
    } else if is_kind_stop(s[0]) {
        0
    } else {
        1 + kind_end(s.drop_first())
    }
}

/// `s` without blanks at either end.
pub open spec fn trim_blank(s: Seq<char>) -> Seq<char>
    decreases s.len(),
{
    if s.len() == 0 {
        s
    } else if is_blank(s[0]) {
        trim_blank(s.drop_first())
    } else if is_blank(s.last()) {
        trim_blank(s.drop_last())
    } else {
        s
    }
}

/// The kind of a commit: the trimmed text before the first `:` or `(` of its summary,
/// or `-` when the summary holds neither.
pub open spec fn kind_of(summary: Seq<char>) -> Seq<char> {
    if kind_end(summary) < summary.len() {
        trim_blank(summary.take(kind_end(summary) as int))
    } else {
        seq!['-']
    }
}

proof fn lemma_kind_end_is_first(s: Seq<char>, e: int)
    requires
        0 <= e <= s.len(),
        forall|i: int| 0 <= i < e ==> !is_kind_stop(#[trigger] s[i]),
        e < s.len() ==> is_kind_stop(s[e]),
    ensures
        kind_end(s) == e,
    decreases s.len(),
{
    if s.len() > 0 && e > 0 {
        assert forall|i: int| 0 <= i < e - 1 implies !is_kind_stop(#[trigger] s.drop_first()[i]) by {
            assert(s.drop_first()[i] == s[i + 1]);
        }
        lemma_kind_end_is_first(s.drop_first(), e - 1);
    }
}

proof fn lemma_trim_range(s: Seq<char>, lo: int, hi: int)
    requires
        0 <= lo <= hi <= s.len(),
        forall|i: int| 0 <= i < lo ==> is_blank(#[trigger] s[i]),
        forall|i: int| hi <= i < s.len() ==> is_blank(#[trigger] s[i]),
        lo < hi ==> !is_blank(s[lo]) && !is_blank(s[hi - 1]),
    ensures
        trim_blank(s) == s.subrange(lo, hi),
    decreases s.len(),
{
    if s.len() == 0 {
        assert(s.subrange(lo, hi) =~= s);
    } else if is_blank(s[0]) {
        if lo == 0 {
            // then lo == hi, and every character is blank
            assert(hi == 0);
            assert forall|i: int| 0 <= i < s.len() - 1 implies is_blank(#[trigger] s.drop_first()[i]) by {
                assert(s.drop_first()[i] == s[i + 1]);
            }
            lemma_trim_range(s.drop_first(), 0, 0);
            assert(s.drop_first().subrange(0, 0) =~= s.subrange(0, 0));
        } else {
            assert forall|i: int| 0 <= i < lo - 1 implies is_blank(#[trigger] s.drop_first()[i]) by {
                assert(s.drop_first()[i] == s[i + 1]);
            }
            assert forall|i: int| hi - 1 <= i < s.len() - 1 implies is_blank(#[trigger] s.drop_first()[i]) by {
                assert(s.drop_first()[i] == s[i + 1]);
            }
            lemma_trim_range(s.drop_first(), lo - 1, hi - 1);
            assert(s.drop_first().subrange(lo - 1, hi - 1) =~= s.subrange(lo, hi));
        }
    } else if is_blank(s.last()) {
        assert(lo == 0);
        assert(hi < s.len());
        assert forall|i: int| hi <= i < s.len() - 1 implies is_blank(#[trigger] s.drop_last()[i]) by {
            assert(s.drop_last()[i] == s[i]);
        }
        lemma_trim_range(s.drop_last(), lo, hi);
        assert(s.drop_last().subrange(lo, hi) =~= s.subrange(lo, hi));
    } else {
        assert(lo == 0 && hi == s.len());
        assert(s.subrange(lo, hi) =~= s);
    }
}

fn char_is_blank(c: char) -> (r: bool)
    ensures
        r == is_blank(c),
{
    c == ' ' || c == '\t' || c == '\n' || c == '\r'
}

/// The kind of a commit, read from its summary.
pub fn commit_kind(summary: &str) -> (r: String)
    ensures
        r@ == kind_of(summary@),
{
    let cs = chars_of(summary);
    let n = cs.len();
    let mut e: usize = 0;
    while e < n && !(cs[e] == ':' || cs[e] == '(')
        invariant
            n == cs.len(),
            e <= n,
            forall|i: int| 0 <= i < e ==> !is_kind_stop(#[trigger] cs@[i]),
        decreases n - e,
    {
        e = e + 1;
    }
    proof {
        lemma_kind_end_is_first(cs@, e as int);
    }
    if e == n {
        let dash: Vec<char> = vec!['-'];
        let r = string_of(&dash);
        proof {
            assert(dash@ =~= seq!['-']);
        }
        return r;
    }
    let mut lo: usize = 0;
    while lo < e && char_is_blank(cs[lo])
        invariant
            n == cs.len(),
            e < n,
            lo <= e,
            forall|i: int| 0 <= i < lo ==> is_blank(#[trigger] cs@[i]),
        decreases e - lo,
    {
        lo = lo + 1;
    }
    let mut hi: usize = e;
    while hi > lo && char_is_blank(cs[hi - 1])
        invariant
            n == cs.len(),
            e < n,
            lo <= hi <= e,
            forall|i: int| hi <= i < e ==> is_blank(#[trigger] cs@[i]),
        decreases hi - lo,
    {
        hi = hi - 1;
    }
    let mut out: Vec<char> = Vec::new();
    let mut k: usize = lo;
    while k < hi
        invariant
            n == cs.len(),
            lo <= k <= hi <= e < n,
            out@ == cs@.subrange(lo as int, k as int),
        decreases hi - k,
    {
        out.push(cs[k]);
        proof {
            assert(out@ =~= cs@.subrange(lo as int, k + 1));
        }
        k = k + 1;
    }
    proof {
        let t = cs@.take(e as int);
        assert forall|i: int| 0 <= i < lo implies is_blank(#[trigger] t[i]) by {
            assert(t[i] == cs@[i]);
        }
        assert forall|i: int| hi <= i < t.len() implies is_blank(#[trigger] t[i]) by {
            assert(t[i] == cs@[i]);
        }
        lemma_trim_range(t, lo as int, hi as int);
        assert(t.subrange(lo as int, hi as int) =~= out@);
    }
    string_of(&out)
}

/// One entry of a diff against the parent: the path before and the path after.
pub struct Delta {
    pub old_path: Option<String>,
    pub new_path: Option<String>,
}

/// The view of an optional path.
pub open spec fn path_view(p: Option<String>) -> Option<Seq<char>> {
    match p {
        Some(s) => Some(s@),
        None => None,
    }
}

/// The paths a delta touches: the old path, then the new one when it differs.
pub open spec fn delta_paths_of(d: Delta) -> Seq<Seq<char>> {
    let first = match d.old_path {
        Some(o) => seq![o@],
        None => Seq::empty(),
    };
    if path_view(d.old_path) == path_view(d.new_path) {
        first
    } else {
        match d.new_path {
            Some(n) => first.push(n@),
            None => first,
        }
    }
}

/// The paths of the first `n` deltas, delta by delta.
pub open spec fn paths_upto(ds: Seq<Delta>, n: int) -> Seq<Seq<char>>
    decreases n,
{
    if n <= 0 {
        Seq::empty()
    } else {
        paths_upto(ds, n - 1) + delta_paths_of(ds[n - 1])
    }
}

/// The touched paths of a diff, each delta giving its old path and, when it differs, its new
/// path.
pub fn delta_paths(ds: &Vec<Delta>) -> (r: Vec<String>)
    ensures
        r@.map_values(|s: String| s@) == paths_upto(ds@, ds@.len() as int),
{
    let mut out: Vec<String> = Vec::new();
    let mut i: usize = 0;
    while i < ds.len()
        invariant
            i <= ds@.len(),
            out@.map_values(|s: String| s@) == paths_upto(ds@, i as int),
        decreases ds@.len() - i,
    {
        let d = &ds[i];
        let ghost o0 = out@.map_values(|s: String| s@);
        match &d.old_path {
            Some(o) => out.push(o.clone()),
            None => {},
        }
        let ghost o1 = out@.map_values(|s: String| s@);
        let same = match (&d.old_path, &d.new_path) {
            (Some(a), Some(b)) => *a == *b,
            (None, None) => true,
            _ => false,
        };
        if !same {
            match &d.new_path {
                Some(n) => out.push(n.clone()),
                None => {},
            }
        }
        proof {
            assert(out@.map_values(|s: String| s@) =~= o0 + delta_paths_of(*d));
        }
        i = i + 1;
    }
    out
}

/// The text that opens the summary of a merge of a pull request.
pub open spec fn merge_prefix() -> Seq<char> {
    seq!['M', 'e', 'r', 'g', 'e', ' ', 'p', 'u', 'l', 'l', ' ', 'r', 'e', 'q', 'u', 'e', 's', 't', ' ', '#']
}

/// How many digits open `s`.
pub open spec fn digit_run(s: Seq<char>) -> nat
    decreases s.len(),
{
    if s.len() > 0 && '0' <= s[0] && s[0] <= '9' {
        1 + digit_run(s.drop_first())
    } else {
        0
    }
}

/// The number of the pull request that a merge commit's summary names, when it opens with
/// `Merge pull request #` and digits that fit 32 bits.
pub open spec fn pr_number_of(summary: Seq<char>) -> Option<u32> {
    if summary.len() >= 20 && summary.take(20) == merge_prefix() {
        let ds = summary.skip(20).take(digit_run(summary.skip(20)) as int);
        if ds.len() > 0 && crate::versions::digits_value(ds) <= u32::MAX {
            Some(crate::versions::digits_value(ds) as u32)
        } else {
            None
        }
    } else {
        None
    }
}

proof fn lemma_digit_run(s: Seq<char>, k: int)
    requires
        0 <= k <= s.len(),
        forall|i: int| 0 <= i < k ==> '0' <= #[trigger] s[i] && s[i] <= '9',
        k == s.len() || !('0' <= s[k] && s[k] <= '9'),
    ensures
        digit_run(s) == k,
    decreases k,
{
    if k > 0 {
        assert forall|i: int| 0 <= i < k - 1 implies '0' <= #[trigger] s.drop_first()[i] && s.drop_first()[i] <= '9' by {
            assert(s.drop_first()[i] == s[i + 1]);
        }
        lemma_digit_run(s.drop_first(), k - 1);
    }
}

/// Reads the pull-request number from a merge commit's summary.
pub fn pr_number(summary: &str) -> (r: Option<u32>)
    ensures
        r == pr_number_of(summary@),
{
    let cs = chars_of(summary);
    let prefix: Vec<char> = vec!['M', 'e', 'r', 'g', 'e', ' ', 'p', 'u', 'l', 'l', ' ', 'r', 'e', 'q', 'u', 'e', 's', 't', ' ', '#'];
    proof {
        assert(prefix@ =~= merge_prefix());
    }
    if cs.len() < 20 {
        return None;
    }
    let mut i: usize = 0;
    while i < 20
        invariant
            i <= 20,
            cs@ == summary@,
            cs@.len() >= 20,
            prefix@ == merge_prefix(),
            forall|k: int| 0 <= k < i ==> cs@[k] == prefix@[k],
        decreases 20 - i,
    {
        if cs[i] != prefix[i] {
            proof {
                assert(cs@.take(20)[i as int] != merge_prefix()[i as int]);
            }
            return None;
        }
        i = i + 1;
    }
    proof {
        assert(cs@.take(20) =~= merge_prefix());
    }
    let mut v: u64 = 0;
    let mut k: usize = 20;
    let ghost rest = cs@.skip(20);
    while k < cs.len() && '0' <= cs[k] && cs[k] <= '9'
        invariant
            20 <= k <= cs@.len(),
            cs@ == summary@,
            cs@.take(20) == merge_prefix(),
            rest == cs@.skip(20),
            forall|x: int| 0 <= x < k - 20 ==> '0' <= #[trigger] rest[x] && rest[x] <= '9',
            v <= u32::MAX,
            v as nat == crate::versions::digits_value(rest.take(k - 20)),
        decreases cs@.len() - k,
    {
        let d = (cs[k] as u32 - '0' as u32) as u64;
        proof {
            assert(rest.take(k + 1 - 20).drop_last() =~= rest.take(k - 20));
            assert(rest[k - 20] == cs@[k as int]);
        }
        if v * 10 + d > u32::MAX as u64 {
            proof {
                lemma_digit_run_total(rest, k + 1 - 20);
            }
            return None;
        }
        v = v * 10 + d;
        k = k + 1;
    }
    proof {
        lemma_digit_run(rest, k - 20);
    }
    if k == 20 {
        None
    } else {
        Some(v as u32)
    }
}

/// A run of digits that already spells more than 32 bits hold keeps doing so as it grows.
proof fn lemma_digit_run_total(s: Seq<char>, k: int)
    requires
        0 < k <= s.len(),
        forall|x: int| 0 <= x < k ==> '0' <= #[trigger] s[x] && s[x] <= '9',
        crate::versions::digits_value(s.take(k)) > u32::MAX,
    ensures
        crate::versions::digits_value(s.take(digit_run(s) as int)) > u32::MAX,
        digit_run(s) >= k,
    decreases s.len() - k,
{
    let n = digit_run_at(s, k);
    lemma_digit_run(s, n);
    lemma_digits_monotone(s, k, n);
}

/// The end of the run of digits of `s` that covers its first `k` characters.
proof fn digit_run_at(s: Seq<char>, k: int) -> (n: int)
    requires
        0 <= k <= s.len(),
        forall|x: int| 0 <= x < k ==> '0' <= #[trigger] s[x] && s[x] <= '9',
    ensures
        k <= n <= s.len(),
        forall|x: int| 0 <= x < n ==> '0' <= #[trigger] s[x] && s[x] <= '9',
        n == s.len() || !('0' <= s[n] && s[n] <= '9'),
    decreases s.len() - k,
{
    if k < s.len() && '0' <= s[k] && s[k] <= '9' {
        digit_run_at(s, k + 1)
    } else {
        k
    }
}

proof fn lemma_digits_monotone(s: Seq<char>, k: int, n: int)
    requires
        0 <= k <= n <= s.len(),
    ensures
        crate::versions::digits_value(s.take(n)) >= crate::versions::digits_value(s.take(k)),
    decreases n - k,
{
    if n > k {
        lemma_digits_monotone(s, k, n - 1);
        assert(s.take(n).drop_last() =~= s.take(n - 1));
    }
}

/// One commit: its id, summary line, kind, and the paths its diff touches.
pub struct CommitInfo {
    pub oid: String,
    pub summary: String,
    pub kind: String,
    pub files: Vec<String>,
}

impl CommitInfo {
    pub fn new(oid: String, summary: String, files: Vec<String>) -> (r: CommitInfo)
        ensures
            r.oid == oid,
            r.summary == summary,
            r.kind@ == kind_of(summary@),
            r.files == files,
    {
        let kind = commit_kind(summary.as_str());
        CommitInfo { oid, summary, kind, files }
    }

    pub fn id(&self) -> (r: &String)
        ensures
            r == &self.oid,
    {
        &self.oid
    }

    pub fn files(&self) -> (r: &Vec<String>)
        ensures
            r == &self.files,
    {
        &self.files
    }
}

/// A group of commits that landed together through one pull request.
///
/// Commits that no merge brought in form the group numbered zero.
pub struct FullPr {
    pub number: u32,
    pub base_oid: String,
    pub head_oid: Option<String>,
    /// When the group was closed, in seconds since the epoch.
    pub closed_at: i64,
    pub commits: Vec<CommitInfo>,
    /// Commits that belong to the group's range but are attributed elsewhere.
    pub excludes: Vec<String>,
    /// The group's boundaries are a guess.
    pub best_guess: bool,
}

impl FullPr {
    /// Whether the commit with this id is excluded from the group.
    pub open spec fn excludes_oid(&self, oid: Seq<char>) -> bool {
        exists|i: int| 0 <= i < self.excludes@.len() && #[trigger] self.excludes@[i]@ == oid
    }

    pub fn has_exclude(&self, oid: &String) -> (r: bool)
        ensures
            r == self.excludes_oid(oid@),
    {
        let mut i: usize = 0;
        while i < self.excludes.len()
            invariant
                i <= self.excludes.len(),
                forall|k: int| 0 <= k < i ==> #[trigger] self.excludes@[k]@ != oid@,
            decreases self.excludes.len() - i,
        {
            if self.excludes[i] == *oid {
                return true;
            }
            i = i + 1;
        }
        false
    }
}

/// A merge commit and the commits it brought in: those reachable from its second parent but
/// not from its first.
pub struct MergeCommit {
    pub summary: String,
    pub base_oid: String,
    pub head_oid: String,
    pub closed_at: i64,
    pub members: Vec<CommitInfo>,
}

/// Some member of an earlier merge, or an earlier member of merge `i`, has id `oid`.
pub open spec fn claimed_before(ms: Seq<MergeCommit>, i: int, j: int, oid: Seq<char>) -> bool {
    (exists|i2: int, j2: int|
        0 <= i2 < i && 0 <= j2 < ms[i2].members@.len() && #[trigger] ms[i2].members@[j2].oid@ == oid)
        || (exists|j2: int| 0 <= j2 < j && #[trigger] ms[i].members@[j2].oid@ == oid)
}

/// The ids of the first `j` members of merge `i` that an earlier member already claimed.
pub open spec fn excludes_upto(ms: Seq<MergeCommit>, i: int, j: int) -> Seq<Seq<char>>
    decreases j,
{
    if j <= 0 {
        Seq::empty()
    } else if claimed_before(ms, i, j - 1, ms[i].members@[j - 1].oid@) {
        excludes_upto(ms, i, j - 1).push(ms[i].members@[j - 1].oid@)
    } else {
        excludes_upto(ms, i, j - 1)
    }
}

/// Some merge brought in a commit with id `oid`.
pub open spec fn merged(ms: Seq<MergeCommit>, oid: Seq<char>) -> bool {
    exists|i: int, j: int| 0 <= i < ms.len() && 0 <= j < ms[i].members@.len() && #[trigger] ms[i].members@[j].oid@ == oid
}

/// The first `n` commits of `all` that no merge brought in.
pub open spec fn loose_upto(ms: Seq<MergeCommit>, all: Seq<(CommitInfo, i64)>, n: int) -> Seq<(CommitInfo, i64)>
    decreases n,
{
    if n <= 0 {
        Seq::empty()
    } else if merged(ms, all[n - 1].0.oid@) {
        loose_upto(ms, all, n - 1)
    } else {
        loose_upto(ms, all, n - 1).push(all[n - 1])
    }
}

/// The number of the group of merge `i`: the one its summary names, else one counted down
/// from the largest.
pub open spec fn group_number(m: MergeCommit, i: int) -> u32 {
    match pr_number_of(m.summary@) {
        Some(n) => n,
        None => (u32::MAX - i) as u32,
    }
}

/// The latest time among the first `n` commits, or the earliest time there is.
pub open spec fn latest_upto(cs: Seq<(CommitInfo, i64)>, n: int) -> i64
    decreases n,
{
    if n <= 0 {
        i64::MIN
    } else if cs[n - 1].1 > latest_upto(cs, n - 1) {
        cs[n - 1].1
    } else {
        latest_upto(cs, n - 1)
    }
}

proof fn lemma_latest_prefix(s: Seq<(CommitInfo, i64)>, x: (CommitInfo, i64), n: int)
    requires
        0 <= n <= s.len(),
    ensures
        latest_upto(s.push(x), n) == latest_upto(s, n),
    decreases n,
{
    if n > 0 {
        lemma_latest_prefix(s, x, n - 1);
    }
}

fn claimed_earlier(ms: &Vec<MergeCommit>, i: usize, j: usize, oid: &String) -> (r: bool)
    requires
        i < ms@.len(),
        j <= ms@[i as int].members@.len(),
    ensures
        r == claimed_before(ms@, i as int, j as int, oid@),
{
    let mut a: usize = 0;
    while a < i
        invariant
            a <= i < ms@.len(),
            forall|a2: int, b2: int|
                0 <= a2 < a && 0 <= b2 < ms@[a2].members@.len() ==> #[trigger] ms@[a2].members@[b2].oid@ != oid@,
        decreases i - a,
    {
        let mut b: usize = 0;
        while b < ms[a].members.len()
            invariant
                a < i < ms@.len(),
                b <= ms@[a as int].members@.len(),
                forall|a2: int, b2: int|
                    0 <= a2 < a && 0 <= b2 < ms@[a2].members@.len() ==> #[trigger] ms@[a2].members@[b2].oid@ != oid@,
                forall|b2: int| 0 <= b2 < b ==> #[trigger] ms@[a as int].members@[b2].oid@ != oid@,
            decreases ms@[a as int].members@.len() - b,
        {
            if ms[a].members[b].oid == *oid {
                return true;
            }
            b = b + 1;
        }
        a = a + 1;
    }
    let mut b: usize = 0;
    while b < j
        invariant
            i < ms@.len(),
            j <= ms@[i as int].members@.len(),
            b <= j,
            forall|a2: int, b2: int|
                0 <= a2 < i && 0 <= b2 < ms@[a2].members@.len() ==> #[trigger] ms@[a2].members@[b2].oid@ != oid@,
            forall|b2: int| 0 <= b2 < b ==> #[trigger] ms@[i as int].members@[b2].oid@ != oid@,
        decreases j - b,
    {
        if ms[i].members[b].oid == *oid {
            return true;
        }
        b = b + 1;
    }
    false
}

fn excludes_of(ms: &Vec<MergeCommit>, i: usize) -> (r: Vec<String>)
    requires
        i < ms@.len(),
    ensures
        r@.map_values(|s: String| s@) == excludes_upto(ms@, i as int, ms@[i as int].members@.len() as int),
{
    let mut out: Vec<String> = Vec::new();
    let mut j: usize = 0;
    while j < ms[i].members.len()
        invariant
            i < ms@.len(),
            j <= ms@[i as int].members@.len(),
            out@.map_values(|s: String| s@) == excludes_upto(ms@, i as int, j as int),
        decreases ms@[i as int].members@.len() - j,
    {
        let oid = &ms[i].members[j].oid;
        if claimed_earlier(ms, i, j, oid) {
            let ghost o0 = out@;
            out.push(oid.clone());
            proof {
                assert(out@.map_values(|s: String| s@) =~= o0.map_values(|s: String| s@).push(oid@));
            }
        }
        j = j + 1;
    }
    out
}

/// Groups the commits since the previous release: one group per merge commit, in order,
/// with the members an earlier member already claimed listed as excludes; then, when any
/// commit of `all` came in through no merge, a group numbered zero holding those commits,
/// closed at the latest of their times. `base_oid` and `head_oid` bound the whole range.
pub fn group_changes(merges: Vec<MergeCommit>, all: Vec<(CommitInfo, i64)>, base_oid: String, head_oid: String) -> (r: Vec<FullPr>)
    requires
        merges@.len() < u32::MAX,
    ensures
        ({
            let ms = merges@;
            let loose = loose_upto(ms, all@, all@.len() as int);
            &&& r@.len() == ms.len() + if loose.len() > 0 { 1int } else { 0int }
            &&& forall|i: int| 0 <= i < ms.len() ==> {
                &&& (#[trigger] r@[i]).number == group_number(ms[i], i)
                &&& r@[i].base_oid == ms[i].base_oid
                &&& r@[i].head_oid == Some(ms[i].head_oid)
                &&& r@[i].closed_at == ms[i].closed_at
                &&& r@[i].commits@ == ms[i].members@
                &&& r@[i].excludes@.map_values(|s: String| s@) == excludes_upto(ms, i, ms[i].members@.len() as int)
                &&& !r@[i].best_guess
            }
            &&& loose.len() > 0 ==> {
                let z = r@[ms.len() as int];
                &&& z.number == 0
                &&& z.base_oid == base_oid
                &&& z.head_oid == Some(head_oid)
                &&& z.closed_at == latest_upto(loose, loose.len() as int)
                &&& z.commits@ == loose.map_values(|c: (CommitInfo, i64)| c.0)
                &&& z.excludes@.len() == 0
                &&& !z.best_guess
            }
        }),
{
    let ghost ms = merges@;
    let ghost al = all@;
    let nm = merges.len();
    let mut excl: Vec<Vec<String>> = Vec::new();
    let mut i: usize = 0;
    while i < nm
        invariant
            nm == merges@.len(),
            ms == merges@,
            i <= nm,
            excl@.len() == i,
            forall|k: int| 0 <= k < i ==> (#[trigger] excl@[k])@.map_values(|s: String| s@) == excludes_upto(
                ms,
                k,
                ms[k].members@.len() as int,
            ),
        decreases nm - i,
    {
        excl.push(excludes_of(&merges, i));
        i = i + 1;
    }
    let mut loose: Vec<CommitInfo> = Vec::new();
    let mut latest: i64 = i64::MIN;
    let mut rest = all;
    let mut k: usize = 0;
    let na = rest.len();
    while k < na
        invariant
            na == al.len(),
            ms == merges@,
            k <= na,
            rest@ == al.skip(k as int),
            loose@ == loose_upto(ms, al, k as int).map_values(|c: (CommitInfo, i64)| c.0),
            latest == latest_upto(loose_upto(ms, al, k as int), loose_upto(ms, al, k as int).len() as int),
        decreases na - k,
    {
        let (c, t) = rest.remove(0);
        proof {
            assert(rest@ =~= al.skip(k + 1));
            assert((c, t) == al[k as int]);
        }
        let ghost before = loose_upto(ms, al, k as int);
        if !merged_any(&merges, &c.oid) {
            loose.push(c);
            if t > latest {
                latest = t;
            }
            proof {
                let after = loose_upto(ms, al, k + 1);
                assert(after == before.push((c, t)));
                assert(after.drop_last() =~= before);
                assert(loose@ =~= after.map_values(|c: (CommitInfo, i64)| c.0));
                lemma_latest_prefix(before, (c, t), before.len() as int);
            }
        }
        k = k + 1;
    }
    let mut out: Vec<FullPr> = Vec::new();
    let mut ms_rest = merges;
    let mut ex_rest = excl;
    let mut j: usize = 0;
    while j < nm
        invariant
            nm == ms.len(),
            nm < u32::MAX,
            j <= nm,
            ms_rest@ == ms.skip(j as int),
            ex_rest@.len() == nm - j,
            forall|x: int| 0 <= x < nm - j ==> (#[trigger] ex_rest@[x])@.map_values(|s: String| s@) == excludes_upto(
                ms,
                x + j,
                ms[x + j].members@.len() as int,
            ),
            out@.len() == j,
            forall|x: int| 0 <= x < j ==> {
                &&& (#[trigger] out@[x]).number == group_number(ms[x], x)
                &&& out@[x].base_oid == ms[x].base_oid
                &&& out@[x].head_oid == Some(ms[x].head_oid)
                &&& out@[x].closed_at == ms[x].closed_at
                &&& out@[x].commits@ == ms[x].members@
                &&& out@[x].excludes@.map_values(|s: String| s@) == excludes_upto(ms, x, ms[x].members@.len() as int)
                &&& !out@[x].best_guess
            },
        decreases nm - j,
    {
        let m = ms_rest.remove(0);
        let ex = ex_rest.remove(0);
        proof {
            assert(m == ms[j as int]);
            assert(ms_rest@ =~= ms.skip(j + 1));
        }
        let number = match pr_number(m.summary.as_str()) {
            Some(n) => n,
            None => u32::MAX - j as u32,
        };
        out.push(FullPr {
            number,
            base_oid: m.base_oid,
            head_oid: Some(m.head_oid),
            closed_at: m.closed_at,
            commits: m.members,
            excludes: ex,
            best_guess: false,
        });
        j = j + 1;
    }
    if loose.len() > 0 {
        out.push(FullPr {
            number: 0,
            base_oid,
            head_oid: Some(head_oid),
            closed_at: latest,
            commits: loose,
            excludes: Vec::new(),
            best_guess: false,
        });
    }
    out
}

fn merged_any(ms: &Vec<MergeCommit>, oid: &String) -> (r: bool)
    ensures
        r == merged(ms@, oid@),
{
    let mut a: usize = 0;
    while a < ms.len()
        invariant
            a <= ms@.len(),
            forall|a2: int, b2: int|
                0 <= a2 < a && 0 <= b2 < ms@[a2].members@.len() ==> #[trigger] ms@[a2].members@[b2].oid@ != oid@,
        decreases ms@.len() - a,
    {
        let mut b: usize = 0;
        while b < ms[a].members.len()
            invariant
                a < ms@.len(),
                b <= ms@[a as int].members@.len(),
                forall|a2: int, b2: int|
                    0 <= a2 < a && 0 <= b2 < ms@[a2].members@.len() ==> #[trigger] ms@[a2].members@[b2].oid@ != oid@,
                forall|b2: int| 0 <= b2 < b ==> #[trigger] ms@[a as int].members@[b2].oid@ != oid@,
            decreases ms@[a as int].members@.len() - b,
        {
            if ms[a].members[b].oid == *oid {
                return true;
            }
            b = b + 1;
        }
        a = a + 1;
    }
    false
}

} // verus!
