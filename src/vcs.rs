//! How much version control the tool may use.

use vstd::prelude::*;
use crate::errors::Error;
use crate::text::{chars_of, string_of};

verus! {

/// A level of version control: nothing, the local repository, the remote, or the remote with
/// a fetch and fast-forward before reading.
#[derive(Clone, Copy, Debug, PartialEq, Eq, Structural)]
pub enum VcsLevel {
    NoVcs,
    Local,
    Remote,
    Smart,
}

impl VcsLevel {
    pub open spec fn rank(self) -> nat {
        match self {
            VcsLevel::NoVcs => 0,
            VcsLevel::Local => 1,
            VcsLevel::Remote => 2,
            VcsLevel::Smart => 3,
        }
    }

    pub fn rank_of(&self) -> (r: u8)
        ensures
            r as nat == self.rank(),
    {
        match self {
            VcsLevel::NoVcs => 0,
            VcsLevel::Local => 1,
            VcsLevel::Remote => 2,
            VcsLevel::Smart => 3,
        }
    }

    /// The level's name.
    pub fn name_string(&self) -> (r: String)
        ensures
            r@ == level_name(*self),
    {
        let cs: Vec<char> = match self {
            VcsLevel::NoVcs => vec!['n', 'o', 'n', 'e'],
            VcsLevel::Local => vec!['l', 'o', 'c', 'a', 'l'],
            VcsLevel::Remote => vec!['r', 'e', 'm', 'o', 't', 'e'],
            VcsLevel::Smart => vec!['s', 'm', 'a', 'r', 't'],
        };
        proof {
            assert(cs@ =~= level_name(*self));
        }
        string_of(&cs)
    }
}

/// The name of a level on the command line.
pub open spec fn level_name(l: VcsLevel) -> Seq<char> {
    match l {
        VcsLevel::NoVcs => seq!['n', 'o', 'n', 'e'],
        VcsLevel::Local => seq!['l', 'o', 'c', 'a', 'l'],
        VcsLevel::Remote => seq!['r', 'e', 'm', 'o', 't', 'e'],
        VcsLevel::Smart => seq!['s', 'm', 'a', 'r', 't'],
    }
}

/// The level with this name.
pub open spec fn level_of(s: Seq<char>) -> Option<VcsLevel> {
    if s == level_name(VcsLevel::NoVcs) {
        Some(VcsLevel::NoVcs)
    } else if s == level_name(VcsLevel::Local) {
        Some(VcsLevel::Local)
    } else if s == level_name(VcsLevel::Remote) {
        Some(VcsLevel::Remote)
    } else if s == level_name(VcsLevel::Smart) {
        Some(VcsLevel::Smart)
    } else {
        None
    }
}

/// The position of the first `..` in `s` at or after `i`.
pub open spec fn dots_from(s: Seq<char>, i: int) -> Option<int>
    decreases s.len() - i,
{
    if i < 0 || i + 1 >= s.len() {
        None
    } else if s[i] == '.' && s[i + 1] == '.' {
        Some(i)
    } else {
        dots_from(s, i + 1)
    }
}

/// The range that a command-line value names: `low..high`, or one level for both ends.
pub open spec fn range_of(s: Seq<char>) -> Option<VcsRange> {
    match dots_from(s, 0) {
        Some(i) => match (level_of(s.take(i)), level_of(s.skip(i + 2))) {
            (Some(lo), Some(hi)) => Some(VcsRange { min: lo, max: hi }),
            _ => None,
        },
        None => match level_of(s) {
            Some(l) => Some(VcsRange { min: l, max: l }),
            None => None,
        },
    }
}

fn level_named(cs: &Vec<char>) -> (r: Option<VcsLevel>)
    ensures
        r == level_of(cs@),
{
    let text = string_of(cs);
    let all = [VcsLevel::NoVcs, VcsLevel::Local, VcsLevel::Remote, VcsLevel::Smart];
    let mut i: usize = 0;
    while i < 4
        invariant
            i <= 4,
            text@ == cs@,
            all@ == seq![VcsLevel::NoVcs, VcsLevel::Local, VcsLevel::Remote, VcsLevel::Smart],
            forall|j: int| 0 <= j < i ==> level_name(all@[j]) != cs@,
        decreases 4 - i,
    {
        let name = all[i].name_string();
        if name == text {
            proof {
                if i >= 1 {
                    assert(level_name(all@[0]) != cs@);
                }
                if i >= 2 {
                    assert(level_name(all@[1]) != cs@);
                }
                if i >= 3 {
                    assert(level_name(all@[2]) != cs@);
                }
            }
            return Some(all[i]);
        }
        i = i + 1;
    }
    proof {
        assert(level_name(all@[0]) != cs@);
        assert(level_name(all@[1]) != cs@);
        assert(level_name(all@[2]) != cs@);
        assert(level_name(all@[3]) != cs@);
    }
    None
}

/// The lower of two levels.
pub open spec fn level_min(a: VcsLevel, b: VcsLevel) -> VcsLevel {
    if a.rank() <= b.rank() { a } else { b }
}

/// The higher of two levels.
pub open spec fn level_max(a: VcsLevel, b: VcsLevel) -> VcsLevel {
    if a.rank() >= b.rank() { a } else { b }
}

fn lower(a: VcsLevel, b: VcsLevel) -> (r: VcsLevel)
    ensures
        r == level_min(a, b),
{
    if a.rank_of() <= b.rank_of() { a } else { b }
}

fn higher(a: VcsLevel, b: VcsLevel) -> (r: VcsLevel)
    ensures
        r == level_max(a, b),
{
    if a.rank_of() >= b.rank_of() { a } else { b }
}

/// An inclusive range of levels.
#[derive(Clone, Copy, Debug, PartialEq, Eq, Structural)]
pub struct VcsRange {
    pub min: VcsLevel,
    pub max: VcsLevel,
}

impl VcsRange {
    pub fn new(min: VcsLevel, max: VcsLevel) -> (r: VcsRange)
        ensures
            r == (VcsRange { min, max }),
    {
        VcsRange { min, max }
    }

    pub fn max(&self) -> (r: VcsLevel)
        ensures
            r == self.max,
    {
        self.max
    }

    pub fn min(&self) -> (r: VcsLevel)
        ensures
            r == self.min,
    {
        self.min
    }

    /// Reads a range from the command line: `low..high`, or a single level.
    pub fn parse(text: &str) -> (r: Result<VcsRange, Error>)
        ensures
            match range_of(text@) {
                Some(v) => r == Ok::<VcsRange, Error>(v),
                None => r == Err::<VcsRange, Error>(Error::UnknownVcsLevel),
            },
    {
        let cs = chars_of(text);
        let n = cs.len();
        let mut i: usize = 0;
        while i < n && i + 1 < n && !(cs[i] == '.' && cs[i + 1] == '.')
            invariant
                i <= n,
                n == cs@.len(),
                cs@ == text@,
                dots_from(cs@, 0) == dots_from(cs@, i as int),
            decreases n - i,
        {
            i = i + 1;
        }
        if i < n && i + 1 < n {
            let mut lo: Vec<char> = Vec::new();
            let mut k: usize = 0;
            while k < i
                invariant
                    k <= i,
                    i + 1 < n,
                    n == cs@.len(),
                    lo@ == cs@.take(k as int),
                decreases i - k,
            {
                lo.push(cs[k]);
                proof {
                    assert(lo@ =~= cs@.take(k + 1));
                }
                k = k + 1;
            }
            let mut hi: Vec<char> = Vec::new();
            let mut k: usize = i + 2;
            while k < n
                invariant
                    i + 2 <= k <= n,
                    n == cs@.len(),
                    hi@ == cs@.subrange(i + 2, k as int),
                decreases n - k,
            {
                hi.push(cs[k]);
                proof {
                    assert(hi@ =~= cs@.subrange(i + 2, k + 1));
                }
                k = k + 1;
            }
            proof {
                assert(hi@ =~= cs@.skip(i + 2));
            }
            match (level_named(&lo), level_named(&hi)) {
                (Some(a), Some(b)) => Ok(VcsRange { min: a, max: b }),
                _ => Err(Error::UnknownVcsLevel),
            }
        } else {
            match level_named(&cs) {
                Some(l) => Ok(VcsRange { min: l, max: l }),
                None => Err(Error::UnknownVcsLevel),
            }
        }
    }

    /// The levels both preferred and required, capped by what was detected: at least both
    /// lower bounds, at most both upper bounds and the detected level. Fails when no level
    /// qualifies.
    pub fn combine(pref: &VcsRange, reqd: &VcsRange, detected: VcsLevel) -> (r: Result<VcsRange, Error>)
        ensures
            ({
                let lo = level_max(pref.min, reqd.min);
                let hi = level_min(level_min(pref.max, reqd.max), detected);
                if hi.rank() < lo.rank() {
                    r == Err::<VcsRange, Error>(Error::VcsUnavailable)
                } else {
                    r == Ok::<VcsRange, Error>(VcsRange { min: lo, max: hi })
                }
            }),
    {
        let lo = higher(pref.min, reqd.min);
        let hi = lower(lower(pref.max, reqd.max), detected);
        if hi.rank_of() < lo.rank_of() {
            Err(Error::VcsUnavailable)
        } else {
            Ok(VcsRange { min: lo, max: hi })
        }
    }
}

/// The range a command runs at: the user's preference, else the command's own, combined with
/// what the command requires and what was detected.
pub fn combine_vcs(
    user_pref_vcs: Option<VcsRange>,
    my_pref_lo: VcsLevel,
    my_pref_hi: VcsLevel,
    my_reqd_lo: VcsLevel,
    my_reqd_hi: VcsLevel,
    detected: VcsLevel,
) -> (r: Result<VcsRange, Error>)
    ensures
        ({
            let pref = match user_pref_vcs {
                Some(p) => p,
                None => VcsRange { min: my_pref_lo, max: my_pref_hi },
            };
            let lo = level_max(pref.min, my_reqd_lo);
            let hi = level_min(level_min(pref.max, my_reqd_hi), detected);
            if hi.rank() < lo.rank() {
                r == Err::<VcsRange, Error>(Error::VcsUnavailable)
            } else {
                r == Ok::<VcsRange, Error>(VcsRange { min: lo, max: hi })
            }
        }),
{
    let pref = match user_pref_vcs {
        Some(p) => p,
        None => VcsRange::new(my_pref_lo, my_pref_hi),
    };
    let reqd = VcsRange::new(my_reqd_lo, my_reqd_hi);
    VcsRange::combine(&pref, &reqd, detected)
}

/// What a fetch leaves to do with the local branch.
#[derive(Debug, PartialEq, Eq)]
pub enum MergeStep {
    /// Move the branch forward to the fetched commit.
    FastForward,
    /// The branch already holds the fetched commit.
    UpToDate,
}

/// Decides how to take in fetched work: nothing moves over uncommitted changes, only a
/// fast-forward is accepted, and work that would need a merge commit fails.
pub fn merge_step(clean: bool, fast_forward: bool, normal: bool) -> (r: Result<MergeStep, Error>)
    ensures
        !clean ==> r == Err::<MergeStep, Error>(Error::NotClean),
        clean && fast_forward ==> r == Ok::<MergeStep, Error>(MergeStep::FastForward),
        clean && !fast_forward && normal ==> r == Err::<MergeStep, Error>(Error::NotFastForward),
        clean && !fast_forward && !normal ==> r == Ok::<MergeStep, Error>(MergeStep::UpToDate),
{
    if !clean {
        Err(Error::NotClean)
    } else if fast_forward {
        Ok(MergeStep::FastForward)
    } else if normal {
        Err(Error::NotFastForward)
    } else {
        Ok(MergeStep::UpToDate)
    }
}

/// The prefix of the references to local branches.
pub open spec fn heads_prefix() -> Seq<char> {
    seq!['r', 'e', 'f', 's', '/', 'h', 'e', 'a', 'd', 's', '/']
}

/// The branch that a symbolic reference names: the text after `refs/heads/`; a reference
/// elsewhere is not a branch.
pub fn branch_of_ref(target: &str) -> (r: Result<String, Error>)
    ensures
        target@.len() >= 11 && target@.take(11) == heads_prefix() ==> (r matches Ok(b) && b@ == target@.skip(11)),
        !(target@.len() >= 11 && target@.take(11) == heads_prefix()) ==> r == Err::<String, Error>(Error::NotOnBranch),
{
    let cs = chars_of(target);
    let prefix: Vec<char> = vec!['r', 'e', 'f', 's', '/', 'h', 'e', 'a', 'd', 's', '/'];
    proof {
        assert(prefix@ =~= heads_prefix());
    }
    if cs.len() < 11 {
        return Err(Error::NotOnBranch);
    }
    let mut i: usize = 0;
    while i < 11
        invariant
            i <= 11,
            cs@ == target@,
            cs@.len() >= 11,
            prefix@ == heads_prefix(),
            forall|k: int| 0 <= k < i ==> cs@[k] == prefix@[k],
        decreases 11 - i,
    {
        if cs[i] != prefix[i] {
            proof {
                assert(cs@.take(11)[i as int] != heads_prefix()[i as int]);
                assert(cs@ == target@);
                assert(target@.take(11) != heads_prefix());
            }
            return Err(Error::NotOnBranch);
        }
        i = i + 1;
    }
    proof {
        assert(cs@.take(11) =~= heads_prefix());
    }
    let mut rest: Vec<char> = Vec::new();
    let mut k: usize = 11;
    while k < cs.len()
        invariant
            11 <= k <= cs@.len(),
            rest@ == cs@.subrange(11, k as int),
        decreases cs@.len() - k,
    {
        rest.push(cs[k]);
        proof {
            assert(rest@ =~= cs@.subrange(11, k + 1));
        }
        k = k + 1;
    }
    proof {
        assert(rest@ =~= cs@.skip(11));
    }
    Ok(string_of(&rest))
}

} // verus!
