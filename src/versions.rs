//! Versions of the shape `MAJOR.MINOR.PATCH`, how sizes grow them, and what a release does
//! to each project.

use vstd::prelude::*;
use crate::errors::Error;
use crate::text::{split_dots, split_on_dots};
use crate::size::Size;

verus! {

/// A parsed version.
#[derive(Clone, Copy, Debug, PartialEq, Eq, Structural)]
pub struct Version {
    pub major: u64,
    pub minor: u64,
    pub patch: u64,
}

/// Whether a character is an ASCII digit.
pub open spec fn is_digit(c: char) -> bool {
    '0' <= c && c <= '9'
}

/// A non-empty run of digits.
pub open spec fn is_digits(s: Seq<char>) -> bool {
    s.len() > 0 && forall|i: int| 0 <= i < s.len() ==> is_digit(#[trigger] s[i])
}

/// The number a run of digits spells.
pub open spec fn digits_value(s: Seq<char>) -> nat
    decreases s.len(),
{
    if s.len() == 0 {
        0
    } else {
        digits_value(s.drop_last()) * 10 + (s.last() as nat - '0' as nat) as nat
    }
}

/// The decimal spelling of a number.
pub open spec fn decimal(n: nat) -> Seq<char>
    decreases n,
{
    if n < 10 {
        seq![(n + '0' as nat) as char]
    } else {
        decimal(n / 10).push(((n % 10) + '0' as nat) as char)
    }
}

/// The text of a version.
pub open spec fn version_text(v: Version) -> Seq<char> {
    decimal(v.major as nat) + seq!['.'] + decimal(v.minor as nat) + seq!['.'] + decimal(v.patch as nat)
}

/// The version that `s` spells: three runs of digits split by dots, each fitting 64 bits.
pub open spec fn parse_spec(s: Seq<char>) -> Option<Version> {
    let parts = split_dots(s);
    if parts.len() == 3 && is_digits(parts[0]) && is_digits(parts[1]) && is_digits(parts[2])
        && digits_value(parts[0]) <= u64::MAX && digits_value(parts[1]) <= u64::MAX
        && digits_value(parts[2]) <= u64::MAX {
        Some(
            Version {
                major: digits_value(parts[0]) as u64,
                minor: digits_value(parts[1]) as u64,
                patch: digits_value(parts[2]) as u64,
            },
        )
    } else {
        None
    }
}

/// `a` comes strictly before `b`.
pub open spec fn version_lt(a: Version, b: Version) -> bool {
    a.major < b.major || (a.major == b.major && (a.minor < b.minor || (a.minor == b.minor
        && a.patch < b.patch)))
}

/// What growing `v` by `size` gives, when no part overflows.
pub open spec fn grow(size: Size, v: Version) -> Option<Version> {
    match size {
        Size::Major => if v.major < u64::MAX {
            Some(Version { major: (v.major + 1) as u64, minor: 0, patch: 0 })
        } else {
            None
        },
        Size::Minor => if v.minor < u64::MAX {
            Some(Version { minor: (v.minor + 1) as u64, patch: 0, ..v })
        } else {
            None
        },
        Size::Patch => if v.patch < u64::MAX {
            Some(Version { patch: (v.patch + 1) as u64, ..v })
        } else {
            None
        },
        _ => Some(v),
    }
}

/// Relies on `format!` with `{}` on `u64`, which writes each number in decimal.
#[verifier::external_body]
fn render(v: Version) -> (r: String)
    ensures
        r@ == version_text(v),
{
    format!("{}.{}.{}", v.major, v.minor, v.patch)
}

/// The number a run of digits spells, if it is one and fits 64 bits.
fn digits_number(cs: &Vec<char>) -> (r: Option<u64>)
    ensures
        r is Some <==> is_digits(cs@) && digits_value(cs@) <= u64::MAX,
        r matches Some(v) ==> v as nat == digits_value(cs@),
{
    if cs.len() == 0 {
        return None;
    }
    let mut v: u64 = 0;
    let mut i: usize = 0;
    while i < cs.len()
        invariant
            i <= cs.len(),
            cs@.len() > 0,
            v as nat == digits_value(cs@.take(i as int)),
            forall|k: int| 0 <= k < i ==> is_digit(#[trigger] cs@[k]),
        decreases cs.len() - i,
    {
        proof {
            assert(cs@.take(i + 1).drop_last() =~= cs@.take(i as int));
        }
        let c = cs[i];
        if !('0' <= c && c <= '9') {
            return None;
        }
        let d = (c as u32 - '0' as u32) as u64;
        if v > (u64::MAX - d) / 10 {
            proof {
                if is_digits(cs@) {
                    lemma_digits_grow(cs@, i as int);
                }
            }
            return None;
        }
        v = v * 10 + d;
        i = i + 1;
    }
    proof {
        assert(cs@.take(i as int) =~= cs@);
    }
    Some(v)
}

/// Once a prefix of digits spells more than what still fits, so does the whole run.
proof fn lemma_digits_grow(s: Seq<char>, i: int)
    requires
        0 <= i < s.len(),
        forall|k: int| 0 <= k < s.len() ==> is_digit(#[trigger] s[k]),
    ensures
        digits_value(s) >= digits_value(s.take(i + 1)),
    decreases s.len(),
{
    if i + 1 < s.len() {
        assert(s.drop_last().take(i + 1) =~= s.take(i + 1));
        lemma_digits_grow(s.drop_last(), i);
    } else {
        assert(s.take(i + 1) =~= s);
    }
}

impl Version {
    /// Reads a version from its text.
    pub fn parse(s: &str) -> (r: Result<Version, Error>)
        ensures
            match parse_spec(s@) {
                Some(v) => r == Ok::<Version, Error>(v),
                None => r == Err::<Version, Error>(Error::BadSemver),
            },
    {
        let parts = split_on_dots(s);
        proof {
            assert(parts@.map_values(|p: Vec<char>| p@).len() == parts@.len());
        }
        if parts.len() != 3 {
            return Err(Error::BadSemver);
        }
        proof {
            assert(parts@.map_values(|p: Vec<char>| p@)[0] == parts@[0]@);
            assert(parts@.map_values(|p: Vec<char>| p@)[1] == parts@[1]@);
            assert(parts@.map_values(|p: Vec<char>| p@)[2] == parts@[2]@);
        }
        let major = digits_number(&parts[0]);
        let minor = digits_number(&parts[1]);
        let patch = digits_number(&parts[2]);
        match (major, minor, patch) {
            (Some(major), Some(minor), Some(patch)) => Ok(Version { major, minor, patch }),
            _ => Err(Error::BadSemver),
        }
    }

    /// The text of the version.
    pub fn text(&self) -> (r: String)
        ensures
            r@ == version_text(*self),
    {
        render(*self)
    }
}

/// Every character of `s` differs from `.`.
pub open spec fn no_dot(s: Seq<char>) -> bool {
    forall|i: int| 0 <= i < s.len() ==> s[i] != '.'
}

proof fn lemma_decimal(n: nat)
    ensures
        is_digits(decimal(n)),
        no_dot(decimal(n)),
        digits_value(decimal(n)) == n,
    decreases n,
{
    if n < 10 {
        let c = (n + '0' as nat) as char;
        assert(c as nat == n + '0' as nat);
        assert(decimal(n).drop_last() =~= Seq::<char>::empty());
        assert(decimal(n).last() == c);
        assert(digits_value(decimal(n)) == digits_value(Seq::<char>::empty()) * 10 + (c as nat - '0' as nat) as nat);
    } else {
        lemma_decimal(n / 10);
        let c = ((n % 10) + '0' as nat) as char;
        assert(c as nat == (n % 10) + '0' as nat);
        assert(decimal(n).drop_last() =~= decimal(n / 10));
        assert(n == (n / 10) * 10 + n % 10) by (nonlinear_arith);
        assert(decimal(n).last() == c);
        assert(digits_value(decimal(n)) == digits_value(decimal(n / 10)) * 10 + (c as nat - '0' as nat) as nat);
    }
}

proof fn lemma_split_append(x: Seq<char>, y: Seq<char>)
    requires
        no_dot(y),
    ensures
        split_dots(x + y) == split_dots(x).update(
            split_dots(x).len() - 1,
            split_dots(x).last() + y,
        ),
    decreases y.len(),
{
    crate::text::lemma_split_nonempty(x);
    if y.len() == 0 {
        assert(x + y =~= x);
        assert(split_dots(x).last() + y =~= split_dots(x).last());
        assert(split_dots(x).update(split_dots(x).len() - 1, split_dots(x).last()) =~= split_dots(x));
    } else {
        let y0 = y.drop_last();
        assert(no_dot(y0));
        lemma_split_append(x, y0);
        assert((x + y).drop_last() =~= x + y0);
        assert((x + y).last() == y.last());
        assert(y.last() != '.');
        let rest = split_dots(x + y0);
        let l = split_dots(x).len() - 1;
        assert(rest.len() == split_dots(x).len());
        assert(rest.last() == split_dots(x).last() + y0);
        assert(split_dots(x + y) == rest.update(l, rest.last().push(y.last())));
        assert((split_dots(x).last() + y0).push(y.last()) =~= split_dots(x).last() + y);
        assert(split_dots(x + y) =~= split_dots(x).update(
            split_dots(x).len() - 1,
            split_dots(x).last() + y,
        ));
    }
}

proof fn lemma_split_dot(x: Seq<char>)
    ensures
        split_dots(x + seq!['.']) == split_dots(x).push(Seq::empty()),
{
    assert((x + seq!['.']).drop_last() =~= x);
}

/// The text of a version reads back as that version.
pub proof fn lemma_text_parses(v: Version)
    ensures
        parse_spec(version_text(v)) == Some(v),
{
    let a = decimal(v.major as nat);
    let b = decimal(v.minor as nat);
    let c = decimal(v.patch as nat);
    lemma_decimal(v.major as nat);
    lemma_decimal(v.minor as nat);
    lemma_decimal(v.patch as nat);
    let e = Seq::<char>::empty();
    lemma_split_append(e, a);
    assert(e + a =~= a);
    assert(split_dots(e) =~= seq![e]);
    assert(split_dots(a) =~= seq![a]);
    lemma_split_dot(a);
    lemma_split_append(a + seq!['.'], b);
    assert(split_dots(a + seq!['.'] + b) =~= seq![a, b]);
    lemma_split_dot(a + seq!['.'] + b);
    lemma_split_append(a + seq!['.'] + b + seq!['.'], c);
    assert(split_dots(version_text(v)) =~= seq![a, b, c]);
}

impl Size {
    /// The text of `vers` grown by this size.
    pub fn apply(&self, vers: &str) -> (r: Result<String, Error>)
        ensures
            match parse_spec(vers@) {
                Some(v) => match grow(*self, v) {
                    Some(t) => r matches Ok(s) && s@ == version_text(t),
                    None => r == Err::<String, Error>(Error::BadSemver),
                },
                None => r == Err::<String, Error>(Error::BadSemver),
            },
    {
        let v = Version::parse(vers)?;
        let t = match self {
            Size::Major => {
                if v.major == u64::MAX {
                    return Err(Error::BadSemver);
                }
                Version { major: v.major + 1, minor: 0, patch: 0 }
            },
            Size::Minor => {
                if v.minor == u64::MAX {
                    return Err(Error::BadSemver);
                }
                Version { major: v.major, minor: v.minor + 1, patch: 0 }
            },
            Size::Patch => {
                if v.patch == u64::MAX {
                    return Err(Error::BadSemver);
                }
                Version { major: v.major, minor: v.minor, patch: v.patch + 1 }
            },
            _ => v,
        };
        Ok(t.text())
    }

    /// Whether version `a` comes strictly before version `b`.
    pub fn less_than(a: &str, b: &str) -> (r: Result<bool, Error>)
        ensures
            match (parse_spec(a@), parse_spec(b@)) {
                (Some(x), Some(y)) => r == Ok::<bool, Error>(version_lt(x, y)),
                _ => r == Err::<bool, Error>(Error::BadSemver),
            },
    {
        let x = Version::parse(a)?;
        let y = Version::parse(b)?;
        Ok(x.major < y.major || (x.major == y.major && (x.minor < y.minor || (x.minor == y.minor
            && x.patch < y.patch))))
    }
}

/// What a release does to one project.
#[derive(Debug, PartialEq, Eq)]
pub enum Release {
    /// The project changed without asking for a bump: nothing is written.
    NoChange,
    /// The mark is rewritten to this version.
    Change(String),
    /// The current version already reaches the computed one (given here): the mark is kept
    /// and the release tag moves forward.
    Forward(String),
    /// The project is new since the previous release: the mark is kept and the release tag
    /// moves forward.
    New,
}

/// Decides the release of one project from its planned size, its version at the previous
/// release (absent for a new project), and its current version.
pub fn plan_release(size: Size, prev_vers: Option<&str>, curt_vers: &str) -> (r: Result<Release, Error>)
    ensures
        size == Size::Empty ==> r == Ok::<Release, Error>(Release::NoChange),
        size != Size::Empty && prev_vers is None ==> r == Ok::<Release, Error>(Release::New),
        size != Size::Empty && prev_vers is Some ==> match (parse_spec(prev_vers->Some_0@), parse_spec(curt_vers@)) {
            (Some(p), Some(c)) => match grow(size, p) {
                Some(t) => if version_lt(c, t) {
                    r matches Ok(Release::Change(s)) && s@ == version_text(t)
                } else {
                    r matches Ok(Release::Forward(s)) && s@ == version_text(t)
                },
                None => r == Err::<Release, Error>(Error::BadSemver),
            },
            _ => r == Err::<Release, Error>(Error::BadSemver),
        },
{
    if size == Size::Empty {
        return Ok(Release::NoChange);
    }
    match prev_vers {
        None => Ok(Release::New),
        Some(prev) => {
            let target = size.apply(prev)?;
            proof {
                let p = parse_spec(prev@)->Some_0;
                let t = grow(size, p)->Some_0;
                lemma_text_parses(t);
                assert(parse_spec(target@) == Some(t));
            }
            if Size::less_than(curt_vers, target.as_str())? {
                Ok(Release::Change(target))
            } else {
                Ok(Release::Forward(target))
            }
        },
    }
}

} // verus!
