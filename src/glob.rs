//! Path globs for the files that a project covers.
//!
//! `**` matches any run of characters, `/` included; `*` matches any run without `/`;
//! `?` matches one character other than `/`; every other character matches itself.

use vstd::prelude::*;

verus! {

/// Whether the pattern from position `pi` on matches the path from position `si` on.
pub open spec fn glob_at(p: Seq<char>, pi: nat, s: Seq<char>, si: nat) -> bool
    decreases p.len() - pi, s.len() - si,
{
    if pi >= p.len() {
        si >= s.len()
    } else if p[pi as int] == '*' && pi + 1 < p.len() && p[(pi + 1) as int] == '*' {
        glob_at(p, pi + 2, s, si) || (si < s.len() && glob_at(p, pi, s, si + 1))
    } else if p[pi as int] == '*' {
        glob_at(p, pi + 1, s, si) || (si < s.len() && s[si as int] != '/' && glob_at(
            p,
            pi,
            s,
            si + 1,
        ))
    } else if p[pi as int] == '?' {
        si < s.len() && s[si as int] != '/' && glob_at(p, pi + 1, s, si + 1)
    } else {
        si < s.len() && s[si as int] == p[pi as int] && glob_at(p, pi + 1, s, si + 1)
    }
}

/// Whether the whole path matches the whole pattern.
pub open spec fn glob_matches(p: Seq<char>, s: Seq<char>) -> bool {
    glob_at(p, 0, s, 0)
}

fn match_from(p: &Vec<char>, pi: usize, s: &Vec<char>, si: usize) -> (r: bool)
    requires
        pi <= p.len(),
        si <= s.len(),
    ensures
        r == glob_at(p@, pi as nat, s@, si as nat),
    decreases p.len() - pi, s.len() - si,
{
    if pi >= p.len() {
        si >= s.len()
    } else if p[pi] == '*' && pi + 1 < p.len() && p[pi + 1] == '*' {
        match_from(p, pi + 2, s, si) || (si < s.len() && match_from(p, pi, s, si + 1))
    } else if p[pi] == '*' {
        match_from(p, pi + 1, s, si) || (si < s.len() && s[si] != '/' && match_from(
            p,
            pi,
            s,
            si + 1,
        ))
    } else if p[pi] == '?' {
        si < s.len() && s[si] != '/' && match_from(p, pi + 1, s, si + 1)
    } else {
        si < s.len() && s[si] == p[pi] && match_from(p, pi + 1, s, si + 1)
    }
}

/// Whether `path` matches the glob `pattern`.
pub fn glob_match(pattern: &Vec<char>, path: &Vec<char>) -> (r: bool)
    ensures
        r == glob_matches(pattern@, path@),
{
    match_from(pattern, 0, path, 0)
}

} // verus!
