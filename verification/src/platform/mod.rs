//! The sandbox back ends of each operating system.
pub mod linux;
pub mod macos;
pub mod seccomp;
pub mod windows;

use vstd::prelude::*;

use crate::text::strs_view;

verus! {

/// What the file system says of a configured path that exists: its
/// canonical form and whether it is a directory. A path with no fact does
/// not exist (or cannot be resolved).
#[derive(Debug)]
pub struct PathFact {
    pub path: String,
    pub canonical: String,
    pub is_dir: bool,
}

/// The fact recorded for `p`: the first one whose path is `p`.
pub open spec fn fact_of(facts: Seq<PathFact>, p: Seq<char>) -> Option<PathFact>
    decreases facts.len(),
{
    if facts.len() == 0 {
        None
    } else if facts[0].path@ == p {
        Some(facts[0])
    } else {
        fact_of(facts.drop_first(), p)
    }
}

/// The index of the fact recorded for `p` (see [`fact_of`]).
pub fn find_fact(facts: &Vec<PathFact>, p: &str) -> (res: Option<usize>)
    ensures
        match res {
            Some(i) => i < facts@.len() && fact_of(facts@, p@) == Some(facts@[i as int]),
            None => fact_of(facts@, p@) is None,
        },
{
    let mut i: usize = 0;
    proof {
        assert(facts@.skip(0) =~= facts@);
    }
    while i < facts.len()
        invariant
            i <= facts@.len(),
            fact_of(facts@, p@) == fact_of(facts@.skip(i as int), p@),
        decreases facts@.len() - i,
    {
        proof {
            assert(facts@.skip(i as int).drop_first() =~= facts@.skip(i + 1));
            assert(facts@.skip(i as int)[0] == facts@[i as int]);
        }
        if crate::text::str_eq(facts[i].path.as_str(), p) {
            return Some(i);
        }
        i = i + 1;
    }
    None
}

/// The string list `v` with `extra` appended.
pub fn append_owned(v: &mut Vec<String>, extra: Vec<String>)
    ensures
        strs_view(final(v)@) == strs_view(old(v)@) + strs_view(extra@),
{
    let mut e = extra;
    v.append(&mut e);
    proof {
        assert(strs_view(v@) =~= strs_view(old(v)@) + strs_view(extra@));
    }
}

/// The list of the three given strings.
pub fn triple(a: &str, b: &str, c: &str) -> (res: Vec<String>)
    ensures
        strs_view(res@) == seq![a@, b@, c@],
{
    let mut v: Vec<String> = Vec::new();
    v.push(crate::text::owned(a));
    v.push(crate::text::owned(b));
    v.push(crate::text::owned(c));
    proof {
        assert(strs_view(v@) =~= seq![a@, b@, c@]);
    }
    v
}

} // verus!
