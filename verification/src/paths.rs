//! Unix path text: joining, and the home directory.
use vstd::prelude::*;

use crate::text::{chars_of, owned, push_char, push_str, string_of};

verus! {

/// Whether a path is absolute: on Unix, it starts at the root.
pub open spec fn is_absolute(p: Seq<char>) -> bool {
    p.len() > 0 && p[0] == '/'
}

/// `base` joined with `p` as `Path::join` does on Unix: an absolute `p`
/// replaces `base`, otherwise a separator goes between them unless `base` is
/// empty or already ends in one.
pub open spec fn path_join(base: Seq<char>, p: Seq<char>) -> Seq<char> {
    if is_absolute(p) {
        p
    } else if base.len() > 0 && base.last() != '/' {
        base + seq!['/'] + p
    } else {
        base + p
    }
}

/// Joins two paths (see [`path_join`]).
pub fn join_path(base: &str, p: &str) -> (res: String)
    ensures
        res@ == path_join(base@, p@),
{
    let pc = crate::text::chars_of(p);
    if pc.len() > 0 && pc[0] == '/' {
        return owned(p);
    }
    let bc = crate::text::chars_of(base);
    let mut res = owned(base);
    if bc.len() > 0 && bc[bc.len() - 1] != '/' {
        push_char(&mut res, '/');
    }
    push_str(&mut res, p);
    res
}

/// The home directory of the user, as text (`dirs::home_dir`). It depends on
/// the environment and the user database, so nothing is stated of it.
#[verifier::external_body]
pub(crate) fn home_dir() -> Option<String> {
    dirs::home_dir().map(|p| p.to_string_lossy().to_string())
}

/// The position of the last `/` before position `i`, or -1 when there is none.
pub open spec fn last_slash(s: Seq<char>, i: int) -> int
    decreases i,
{
    if i <= 0 {
        -1
    } else if s[i - 1] == '/' {
        i - 1
    } else {
        last_slash(s, i - 1)
    }
}

pub proof fn lemma_last_slash(s: Seq<char>, i: int)
    requires
        0 <= i <= s.len(),
    ensures
        -1 <= last_slash(s, i) < i,
        last_slash(s, i) >= 0 ==> s[last_slash(s, i)] == '/',
        forall|t: int| last_slash(s, i) < t < i ==> s[t] != '/',
    decreases i,
{
    if i > 0 && s[i - 1] != '/' {
        lemma_last_slash(s, i - 1);
    }
}

/// A piece between slashes, kept as a component unless it is empty or `.`.
pub open spec fn keep_piece(p: Seq<char>) -> Seq<Seq<char>> {
    if p.len() == 0 || p == seq!['.'] { Seq::empty() } else { seq![p] }
}

/// The components of a Unix path that `Path::components` yields as names or
/// `..`: the pieces between slashes, without empty ones and `.`.
#[verifier::opaque]
pub open spec fn path_pieces(s: Seq<char>) -> Seq<Seq<char>>
    decreases s.len(),
{
    let j = last_slash(s, s.len() as int);
    if j < 0 {
        keep_piece(s)
    } else {
        proof {
            lemma_last_slash(s, s.len() as int);
        }
        path_pieces(s.take(j)) + keep_piece(s.skip(j + 1))
    }
}

/// What `Path::file_name` gives: the last component, when it is a name
/// (not `..`, and the path is not the root or `.`).
pub open spec fn path_file_name(s: Seq<char>) -> Option<Seq<char>> {
    let c = path_pieces(s);
    if c.len() > 0 && c.last() != seq!['.', '.'] { Some(c.last()) } else { None }
}

/// The position of the last `.` in `s`, or -1.
pub open spec fn last_dot(s: Seq<char>, i: int) -> int
    decreases i,
{
    if i <= 0 {
        -1
    } else if s[i - 1] == '.' {
        i - 1
    } else {
        last_dot(s, i - 1)
    }
}

/// The stem of a file name: the part before its last `.`, or the whole name
/// when it has no `.` or its only `.` leads.
pub open spec fn name_stem(n: Seq<char>) -> Seq<char> {
    let d = last_dot(n, n.len() as int);
    if d <= 0 { n } else { n.take(d) }
}

/// What `Path::file_stem` gives for a Unix path, as text: the stem of its
/// file name, if it has one.
pub open spec fn path_file_stem(path: Seq<char>) -> Option<Seq<char>> {
    match path_file_name(path) {
        Some(n) => Some(name_stem(n)),
        None => None,
    }
}

/// The last piece of a path, when it has one.
pub open spec fn last_piece(s: Seq<char>) -> Option<Seq<char>> {
    let c = path_pieces(s);
    if c.len() > 0 { Some(c.last()) } else { None }
}

proof fn lemma_last_slash_prefix(s: Seq<char>, e: int, i: int)
    requires
        0 <= i <= e <= s.len(),
    ensures
        last_slash(s.take(e), i) == last_slash(s, i),
    decreases i,
{
    if i > 0 {
        assert(s.take(e)[i - 1] == s[i - 1]);
        lemma_last_slash_prefix(s, e, i - 1);
    }
}

fn sub_chars(s: &Vec<char>, a: usize, b: usize) -> (res: Vec<char>)
    requires
        a <= b <= s@.len(),
    ensures
        res@ == s@.subrange(a as int, b as int),
{
    let mut res: Vec<char> = Vec::new();
    let mut i = a;
    while i < b
        invariant
            a <= i <= b,
            b <= s@.len(),
            res@ == s@.subrange(a as int, i as int),
        decreases b - i,
    {
        res.push(s[i]);
        proof {
            assert(res@ =~= s@.subrange(a as int, i + 1));
        }
        i = i + 1;
    }
    res
}

proof fn lemma_last_piece_step(s: Seq<char>, e: int, j: int)
    requires
        0 <= j <= e <= s.len(),
        last_slash(s, e) == j - 1,
    ensures
        last_piece(s.take(e)) == if keep_piece(s.subrange(j, e)).len() > 0 {
            Some(s.subrange(j, e))
        } else if j == 0 {
            None
        } else {
            last_piece(s.take(j - 1))
        },
{
    reveal(path_pieces);
    let pre = s.take(e);
    lemma_last_slash_prefix(s, e, e);
    assert(pre.len() == e);
    if j == 0 {
        assert(pre =~= s.subrange(0, e));
    } else {
        assert(pre.take(j - 1) =~= s.take(j - 1));
        assert(pre.skip(j) =~= s.subrange(j, e));
    }
}

/// Where the last piece of a path lies, if it has one.
fn last_piece_range(cs: &Vec<char>) -> (res: Option<(usize, usize)>)
    ensures
        match res {
            Some((a, b)) => a < b <= cs@.len() && last_piece(cs@) == Some(cs@.subrange(a as int, b as int)),
            None => last_piece(cs@) is None,
        },
{
    let ghost s = cs@;
    let mut e: usize = cs.len();
    proof {
        assert(s.take(e as int) =~= s);
    }
    loop
        invariant
            s == cs@,
            e <= s.len(),
            last_piece(s) == last_piece(s.take(e as int)),
        decreases e,
    {
        let mut j: usize = e;
        while j > 0 && cs[j - 1] != '/'
            invariant
                j <= e <= s.len(),
                s == cs@,
                forall|t: int| j <= t < e ==> s[t] != '/',
            decreases j,
        {
            j = j - 1;
        }
        proof {
            lemma_last_slash_j(s, e as int, j as int);
            lemma_last_piece_step(s, e as int, j as int);
        }
        let piece_len = e - j;
        if piece_len > 1 || (piece_len == 1 && cs[j] != '.') {
            proof {
                let p = s.subrange(j as int, e as int);
                if piece_len == 1 {
                    assert(p[0] == s[j as int]);
                    assert(p[0] != seq!['.'][0]);
                }
                assert(p.len() != 0);
                assert(p != seq!['.']);
                assert(keep_piece(p).len() > 0);
            }
            return Some((j, e));
        }
        proof {
            if piece_len == 1 {
                assert(s.subrange(j as int, e as int) =~= seq!['.']);
            }
        }
        if j == 0 {
            return None;
        }
        e = j - 1;
    }
}

/// The stem of a file name (see [`name_stem`]).
fn stem_of_name(name: &Vec<char>) -> (res: Vec<char>)
    ensures
        res@ == name_stem(name@),
{
    let mut d: usize = name.len();
    while d > 0 && name[d - 1] != '.'
        invariant
            d <= name@.len(),
            last_dot(name@, name@.len() as int) == last_dot(name@, d as int),
        decreases d,
    {
        d = d - 1;
    }
    if d <= 1 {
        sub_chars(name, 0, name.len())
    } else {
        let stem = sub_chars(name, 0, d - 1);
        proof {
            assert(stem@ =~= name@.take(d - 1));
        }
        stem
    }
}

/// The file stem of a Unix path, as `Path::file_stem` gives it (see
/// [`path_file_stem`]).
pub fn file_stem(path: &str) -> (res: Option<String>)
    ensures
        match res {
            Some(t) => path_file_stem(path@) == Some(t@),
            None => path_file_stem(path@) is None,
        },
{
    let cs = chars_of(path);
    let (a, b) = match last_piece_range(&cs) {
        Some(r) => r,
        None => return None,
    };
    let name = sub_chars(&cs, a, b);
    if name.len() == 2 && name[0] == '.' && name[1] == '.' {
        proof {
            assert(name@ =~= seq!['.', '.']);
        }
        return None;
    }
    proof {
        if name@ == seq!['.', '.'] {
            assert(name@.len() == 2 && name@[0] == '.' && name@[1] == '.');
        }
        assert(last_piece(path@) == Some(name@));
        assert(path_file_name(path@) == Some(name@));
        assert(name@.take(name@.len() as int) =~= name@);
    }
    let stem = stem_of_name(&name);
    Some(string_of(&stem))
}

proof fn lemma_last_slash_j(s: Seq<char>, e: int, j: int)
    requires
        0 <= j <= e <= s.len(),
        forall|t: int| j <= t < e ==> s[t] != '/',
        j > 0 ==> s[j - 1] == '/',
    ensures
        last_slash(s, e) == j - 1,
    decreases e - j,
{
    if e > j {
        lemma_last_slash_j(s, e - 1, j);
    }
}

} // verus!
