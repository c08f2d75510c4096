//! Small helpers to move between strings and their characters.

use vstd::prelude::*;

verus! {

/// The characters of a string, in order.
pub fn chars_of(s: &str) -> (r: Vec<char>)
    ensures
        r@ == s@,
{
    let mut out: Vec<char> = Vec::new();
    for c in it: s.chars()
        invariant
            it.seq() == s@,
            out@ == it.seq().take(it.index() as int),
    {
        out.push(c);
        proof {
            assert(it.seq().take(it.index() + 1 as int) =~= out@);
        }
    }
    proof {
        assert(out@ =~= s@);
    }
    out
}

/// An owned copy of a string.
pub fn owned(s: &str) -> (r: String)
    ensures
        r@ == s@,
{
    broadcast use vstd::string::to_string_from_display_ensures_for_str;

    s.to_string()
}

/// Relies on `FromIterator<char>` for `String`: the string holds the given characters in order.
#[verifier::external_body]
pub(crate) fn string_of(cs: &Vec<char>) -> (r: String)
    ensures
        r@ == cs@,
{
    cs.iter().collect()
}

/// The parts of a dotted path: the text between dots.
pub open spec fn split_dots(s: Seq<char>) -> Seq<Seq<char>>
    decreases s.len(),
{
    if s.len() == 0 {
        seq![Seq::empty()]
    } else {
        let rest = split_dots(s.drop_last());
        if s.last() == '.' {
            rest.push(Seq::empty())
        } else {
            rest.update(rest.len() - 1, rest.last().push(s.last()))
        }
    }
}

pub proof fn lemma_split_nonempty(s: Seq<char>)
    ensures
        split_dots(s).len() > 0,
    decreases s.len(),
{
    if s.len() > 0 {
        lemma_split_nonempty(s.drop_last());
    }
}

/// The text between the dots of `s`, in order.
pub fn split_on_dots(s: &str) -> (r: Vec<Vec<char>>)
    ensures
        r@.map_values(|p: Vec<char>| p@) == split_dots(s@),
{
    let cs = chars_of(s);
    let mut parts: Vec<Vec<char>> = Vec::new();
    let mut cur: Vec<char> = Vec::new();
    let mut i: usize = 0;
    while i < cs.len()
        invariant
            i <= cs.len(),
            parts@.map_values(|p: Vec<char>| p@).push(cur@) == split_dots(cs@.take(i as int)),
        decreases cs.len() - i,
    {
        proof {
            assert(cs@.take(i + 1).drop_last() =~= cs@.take(i as int));
            lemma_split_nonempty(cs@.take(i as int));
        }
        let ghost before = parts@.map_values(|p: Vec<char>| p@);
        if cs[i] == '.' {
            let mut done: Vec<char> = Vec::new();
            core::mem::swap(&mut done, &mut cur);
            parts.push(done);
            proof {
                assert(parts@.map_values(|p: Vec<char>| p@) =~= before.push(done@));
                assert(parts@.map_values(|p: Vec<char>| p@).push(cur@) =~= before.push(done@).push(Seq::empty()));
            }
        } else {
            let ghost c0 = cur@;
            cur.push(cs[i]);
            proof {
                assert(parts@.map_values(|p: Vec<char>| p@).push(cur@) =~= before.push(c0).update(
                    before.len() as int,
                    c0.push(cs@[i as int]),
                ));
            }
        }
        i = i + 1;
    }
    let ghost before = parts@.map_values(|p: Vec<char>| p@);
    let ghost last = cur@;
    parts.push(cur);
    proof {
        assert(cs@.take(cs@.len() as int) =~= cs@);
        assert(parts@.map_values(|p: Vec<char>| p@) =~= before.push(last));
    }
    parts
}

} // verus!
