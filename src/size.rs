//! The increment lattice used to accumulate release intent.

use vstd::prelude::*;

verus! {

/// How much a version must grow: `NoChange < Empty < Patch < Minor < Major`.
///
/// `Empty` marks a relevant change that bumps nothing; `NoChange` marks no change at all.
#[derive(Clone, Copy, Debug, PartialEq, Eq, Structural)]
pub enum Size {
    NoChange,
    Empty,
    Patch,
    Minor,
    Major,
}

impl Size {
    /// The position of a size in the lattice.
    pub open spec fn rank(self) -> nat {
        match self {
            Size::NoChange => 0,
            Size::Empty => 1,
            Size::Patch => 2,
            Size::Minor => 3,
            Size::Major => 4,
        }
    }

    /// The larger of two sizes.
    pub open spec fn join(self, other: Size) -> Size {
        if self.rank() >= other.rank() {
            self
        } else {
            other
        }
    }

    pub fn rank_of(&self) -> (r: u8)
        ensures
            r as nat == self.rank(),
    {
        match self {
            Size::NoChange => 0,
            Size::Empty => 1,
            Size::Patch => 2,
            Size::Minor => 3,
            Size::Major => 4,
        }
    }

    /// Whether `self` stands strictly below `other`.
    pub fn is_below(&self, other: &Size) -> (r: bool)
        ensures
            r == (self.rank() < other.rank()),
    {
        self.rank_of() < other.rank_of()
    }

    /// The larger of two sizes.
    pub fn larger(self, other: Size) -> (r: Size)
        ensures
            r == self.join(other),
    {
        if self.rank_of() >= other.rank_of() {
            self
        } else {
            other
        }
    }
}

/// The name of a size in configuration files and output.
pub open spec fn size_name(s: Size) -> Seq<char> {
    match s {
        Size::NoChange => seq!['n', 'o', 'n', 'e'],
        Size::Empty => seq!['e', 'm', 'p', 't', 'y'],
        Size::Patch => seq!['p', 'a', 't', 'c', 'h'],
        Size::Minor => seq!['m', 'i', 'n', 'o', 'r'],
        Size::Major => seq!['m', 'a', 'j', 'o', 'r'],
    }
}

impl Size {
    /// The size's name.
    pub fn name(&self) -> (r: &'static str)
        ensures
            r@ == size_name(*self),
    {
        match self {
            Size::NoChange => {
                proof {
                    reveal_strlit("none");
                }
                "none"
            },
            Size::Empty => {
                proof {
                    reveal_strlit("empty");
                }
                "empty"
            },
            Size::Patch => {
                proof {
                    reveal_strlit("patch");
                }
                "patch"
            },
            Size::Minor => {
                proof {
                    reveal_strlit("minor");
                }
                "minor"
            },
            Size::Major => {
                proof {
                    reveal_strlit("major");
                }
                "major"
            },
        }
    }

    /// The size with this name.
    pub fn named(name: &str) -> (r: Option<Size>)
        ensures
            r matches Some(s) ==> size_name(s) == name@,
            r is None ==> forall|s: Size| size_name(s) != name@,
    {
        let all = [Size::NoChange, Size::Empty, Size::Patch, Size::Minor, Size::Major];
        let wanted = crate::text::owned(name);
        let mut i: usize = 0;
        while i < 5
            invariant
                i <= 5,
                all@ == seq![Size::NoChange, Size::Empty, Size::Patch, Size::Minor, Size::Major],
                wanted@ == name@,
                forall|j: int| 0 <= j < i ==> size_name(all@[j]) != name@,
            decreases 5 - i,
        {
            let candidate = crate::text::owned(all[i].name());
            if candidate == wanted {
                return Some(all[i]);
            }
            i = i + 1;
        }
        proof {
            assert forall|s: Size| size_name(s) != name@ by {
                match s {
                    Size::NoChange => assert(size_name(all@[0]) != name@),
                    Size::Empty => assert(size_name(all@[1]) != name@),
                    Size::Patch => assert(size_name(all@[2]) != name@),
                    Size::Minor => assert(size_name(all@[3]) != name@),
                    Size::Major => assert(size_name(all@[4]) != name@),
                }
            }
        }
        None
    }
}

/// Ranks tell sizes apart.
pub proof fn lemma_rank_injective(a: Size, b: Size)
    ensures
        a.rank() == b.rank() ==> a == b,
{
}

} // verus!
