//! Glob patterns over names: `*` for any run of characters, `?` for one.
use vstd::prelude::*;

use crate::text::chars_of;

verus! {

/// One pattern character against one name character: `?` accepts any character,
/// every other character only itself.
pub open spec fn char_accepts(pc: char, nc: char) -> bool {
    pc == '?' || pc == nc
}

/// `p[i..]` matches `n[j..]`, where `*` matches any run of characters (also the
/// empty one) and `?` exactly one character.
pub open spec fn matches_from(p: Seq<char>, n: Seq<char>, i: int, j: int) -> bool
    decreases (p.len() - i) + (n.len() - j),
    when 0 <= i <= p.len() && 0 <= j <= n.len()
{
    if i >= p.len() {
        j >= n.len()
    } else if p[i] == '*' {
        matches_from(p, n, i + 1, j) || (j < n.len() && matches_from(p, n, i, j + 1))
    } else {
        j < n.len() && char_accepts(p[i], n[j]) && matches_from(p, n, i + 1, j + 1)
    }
}

/// The whole of `name` matches the whole of `pattern`.
pub open spec fn glob_matches(pattern: Seq<char>, name: Seq<char>) -> bool {
    matches_from(pattern, name, 0, 0)
}

/// A `*` at `i - 1` lets the rest of the pattern start at any later position.
proof fn lemma_star(p: Seq<char>, n: Seq<char>, i: int, j: int)
    requires
        1 <= i <= p.len(),
        p[i - 1] == '*',
        0 <= j <= n.len(),
    ensures
        matches_from(p, n, i - 1, j) <==> exists|k: int| j <= k <= n.len() && #[trigger] matches_from(p, n, i, k),
    decreases n.len() - j,
{
    assert(matches_from(p, n, i - 1, j) == (matches_from(p, n, i, j) || (j < n.len()
        && matches_from(p, n, i - 1, j + 1))));
    if matches_from(p, n, i, j) {
        assert(j <= j <= n.len() && matches_from(p, n, i, j));
    }
    if j < n.len() {
        lemma_star(p, n, i, j + 1);
        if exists|k: int| j <= k <= n.len() && #[trigger] matches_from(p, n, i, k) {
            let k = choose|k: int| j <= k <= n.len() && #[trigger] matches_from(p, n, i, k);
            if k > j {
                assert(j + 1 <= k <= n.len() && matches_from(p, n, i, k));
            }
        }
        if matches_from(p, n, i - 1, j + 1) {
            let k = choose|k: int| j + 1 <= k <= n.len() && #[trigger] matches_from(p, n, i, k);
            assert(j <= k <= n.len() && matches_from(p, n, i, k));
        }
    } else {
        if exists|k: int| j <= k <= n.len() && #[trigger] matches_from(p, n, i, k) {
            let k = choose|k: int| j <= k <= n.len() && #[trigger] matches_from(p, n, i, k);
            assert(k == j);
        }
    }
}

/// `p[a..b]` holds no `*` and accepts `n[k..k + (b - a)]` character by character.
pub open spec fn segment_accepts(p: Seq<char>, n: Seq<char>, a: int, b: int, k: int) -> bool {
    &&& 0 <= k
    &&& k + (b - a) <= n.len()
    &&& forall|t: int| 0 <= t < b - a ==> p[a + t] != '*' && #[trigger] char_accepts(p[a + t], n[k + t])
}

/// A star-free stretch of the pattern consumes exactly as many characters as it is long.
proof fn lemma_segment(p: Seq<char>, n: Seq<char>, a: int, b: int, k: int)
    requires
        0 <= a <= b <= p.len(),
        0 <= k <= n.len(),
        forall|t: int| a <= t < b ==> p[t] != '*',
    ensures
        matches_from(p, n, a, k) <==> (segment_accepts(p, n, a, b, k) && matches_from(p, n, b, k + (b - a))),
    decreases b - a,
{
    if a < b {
        if k < n.len() {
            lemma_segment(p, n, a + 1, b, k + 1);
            if segment_accepts(p, n, a, b, k) {
                assert(char_accepts(p[a + 0], n[k + 0]));
                assert forall|t: int| 0 <= t < b - (a + 1) implies p[a + 1 + t] != '*' && #[trigger] char_accepts(p[a + 1 + t], n[k + 1 + t]) by {
                    assert(char_accepts(p[a + (t + 1)], n[k + (t + 1)]));
                }
            }
            if char_accepts(p[a], n[k]) && segment_accepts(p, n, a + 1, b, k + 1) {
                assert forall|t: int| 0 <= t < b - a implies p[a + t] != '*' && #[trigger] char_accepts(p[a + t], n[k + t]) by {
                    if t > 0 {
                        assert(char_accepts(p[a + 1 + (t - 1)], n[k + 1 + (t - 1)]));
                    }
                }
            }
        }
    }
}

/// With the name used up, only stars can remain in the pattern.
proof fn lemma_end_of_name(p: Seq<char>, n: Seq<char>, i: int)
    requires
        0 <= i <= p.len(),
    ensures
        matches_from(p, n, i, n.len() as int) <==> forall|t: int| i <= t < p.len() ==> p[t] == '*',
    decreases p.len() - i,
{
    if i < p.len() {
        lemma_end_of_name(p, n, i + 1);
    }
}

/// Matches `name` against the glob `pattern`, in which `*` matches any run of
/// characters (also the empty one) and `?` exactly one character; every other
/// character matches only itself, case included.
///
/// The matching walks both strings once, remembering the last `*` seen and
/// letting it absorb one more character whenever the rest fails.
pub fn glob_match(pattern: &str, name: &str) -> (res: bool)
    ensures
        res == glob_matches(pattern@, name@),
{
    let p = chars_of(pattern);
    let n = chars_of(name);
    let plen = p.len();
    let nlen = n.len();
    let ghost ps = p@;
    let ghost ns = n@;

    let mut pi: usize = 0;
    let mut ni: usize = 0;
    let mut has_star = false;
    let mut star_pi: usize = 0;
    let mut star_ni: usize = 0;

    while ni < nlen
        invariant
            ps == p@,
            ns == n@,
            ps == pattern@,
            ns == name@,
            plen == ps.len(),
            nlen == ns.len(),
            pi <= plen,
            ni <= nlen,
            star_ni <= ni,
            !has_star ==> (glob_matches(ps, ns) == matches_from(ps, ns, pi as int, ni as int)),
            has_star ==> {
                &&& 1 <= star_pi <= pi
                &&& ps[star_pi - 1] == '*'
                &&& ni - star_ni == pi - star_pi
                &&& forall|t: int| star_pi <= t < pi ==> ps[t] != '*'
                &&& segment_accepts(ps, ns, star_pi as int, pi as int, star_ni as int)
                &&& (glob_matches(ps, ns) <==> exists|k: int|
                    star_ni <= k <= nlen && #[trigger] matches_from(ps, ns, star_pi as int, k))
            },
        decreases nlen - star_ni, (plen - pi) + (nlen - ni),
    {
        if pi < plen && p[pi] == '*' {
            proof {
                lemma_star(ps, ns, pi + 1, ni as int);
                if has_star {
                    lemma_segment(ps, ns, star_pi as int, pi as int, star_ni as int);
                    let seg = pi - star_pi;
                    if glob_matches(ps, ns) {
                        let k = choose|k: int| star_ni <= k <= nlen && #[trigger] matches_from(ps, ns, star_pi as int, k);
                        lemma_segment(ps, ns, star_pi as int, pi as int, k);
                        lemma_star(ps, ns, pi + 1, k + seg);
                        let k2 = choose|k2: int| k + seg <= k2 <= nlen && #[trigger] matches_from(ps, ns, pi + 1, k2);
                        assert(ni <= k2 <= nlen && matches_from(ps, ns, pi + 1, k2));
                    }
                    if exists|k: int| ni <= k <= nlen && #[trigger] matches_from(ps, ns, pi + 1, k) {
                        assert(matches_from(ps, ns, pi as int, ni as int));
                        assert(star_ni <= star_ni <= nlen && matches_from(ps, ns, star_pi as int, star_ni as int));
                    }
                }
            }
            has_star = true;
            star_pi = pi + 1;
            star_ni = ni;
            pi = pi + 1;
            proof {
                assert(segment_accepts(ps, ns, star_pi as int, pi as int, star_ni as int));
            }
        } else if pi < plen && (p[pi] == '?' || p[pi] == n[ni]) {
            proof {
                if has_star {
                    assert forall|t: int| 0 <= t < (pi + 1) - star_pi implies ps[star_pi + t] != '*'
                        && #[trigger] char_accepts(ps[star_pi + t], ns[star_ni + t]) by {
                        if t < pi - star_pi {
                            assert(char_accepts(ps[star_pi + t], ns[star_ni + t]));
                        }
                    }
                }
            }
            pi = pi + 1;
            ni = ni + 1;
        } else if has_star {
            proof {
                lemma_segment(ps, ns, star_pi as int, pi as int, star_ni as int);
                assert(!matches_from(ps, ns, star_pi as int, star_ni as int));
                if glob_matches(ps, ns) {
                    let k = choose|k: int| star_ni <= k <= nlen && #[trigger] matches_from(ps, ns, star_pi as int, k);
                    assert(star_ni + 1 <= k <= nlen && matches_from(ps, ns, star_pi as int, k));
                }
            }
            star_ni = star_ni + 1;
            pi = star_pi;
            ni = star_ni;
        } else {
            proof {
                assert(!matches_from(ps, ns, pi as int, ni as int));
            }
            return false;
        }
    }

    proof {
        if has_star {
            lemma_segment(ps, ns, star_pi as int, pi as int, star_ni as int);
            if glob_matches(ps, ns) {
                let k = choose|k: int| star_ni <= k <= nlen && #[trigger] matches_from(ps, ns, star_pi as int, k);
                lemma_segment(ps, ns, star_pi as int, pi as int, k);
            }
            if matches_from(ps, ns, pi as int, nlen as int) {
                assert(star_ni <= star_ni <= nlen && matches_from(ps, ns, star_pi as int, star_ni as int));
            }
        }
        assert(glob_matches(ps, ns) == matches_from(ps, ns, pi as int, nlen as int));
    }

    let ghost pi0 = pi;
    while pi < plen && p[pi] == '*'
        invariant
            ps == p@,
            plen == ps.len(),
            pi0 <= pi <= plen,
            forall|t: int| pi0 <= t < pi ==> ps[t] == '*',
        decreases plen - pi,
    {
        pi = pi + 1;
    }
    proof {
        lemma_end_of_name(ps, ns, pi0 as int);
    }
    pi == plen
}

/// `*` matches every name, the empty one included.
pub proof fn law_star_matches_everything(name: Seq<char>)
    ensures
        glob_matches(seq!['*'], name),
{
    lemma_star(seq!['*'], name, 1, 0);
    lemma_end_of_name(seq!['*'], name, 1);
    assert(0 <= name.len() <= name.len() && matches_from(seq!['*'], name, 1, name.len() as int));
}

/// `?` matches exactly the names of one character.
pub proof fn law_question_matches_one(name: Seq<char>)
    ensures
        glob_matches(seq!['?'], name) <==> name.len() == 1,
{
    if name.len() >= 1 {
        lemma_end_of_name(seq!['?'], name, 1);
        assert(matches_from(seq!['?'], name, 1, 1) <==> 1 >= name.len());
    }
}

/// A pattern without `*` and `?` matches exactly itself (case included).
pub proof fn law_literal_pattern(pattern: Seq<char>, name: Seq<char>)
    requires
        forall|i: int| 0 <= i < pattern.len() ==> pattern[i] != '*' && pattern[i] != '?',
    ensures
        glob_matches(pattern, name) <==> pattern == name,
{
    lemma_segment(pattern, name, 0, pattern.len() as int, 0);
    if glob_matches(pattern, name) {
        assert(segment_accepts(pattern, name, 0, pattern.len() as int, 0));
        assert(matches_from(pattern, name, pattern.len() as int, pattern.len() as int));
        assert forall|t: int| 0 <= t < pattern.len() implies pattern[t] == name[t] by {
            assert(char_accepts(pattern[0 + t], name[0 + t]));
        }
        assert(pattern =~= name);
    }
    if pattern == name {
        assert forall|t: int| 0 <= t < pattern.len() - 0 implies pattern[0 + t] != '*' && #[trigger] char_accepts(pattern[0 + t], name[0 + t]) by {}
        assert(matches_from(pattern, name, pattern.len() as int, pattern.len() as int));
    }
}

proof fn lemma_matches_itself_from(n: Seq<char>, i: int)
    requires
        0 <= i <= n.len(),
    ensures
        matches_from(n, n, i, i),
    decreases n.len() - i,
{
    if i < n.len() {
        lemma_matches_itself_from(n, i + 1);
        if n[i] == '*' {
            assert(matches_from(n, n, i, i + 1));
        }
    }
}

/// Every name matches itself taken as a pattern.
pub proof fn law_name_matches_itself(n: Seq<char>)
    ensures
        glob_matches(n, n),
{
    lemma_matches_itself_from(n, 0);
}

} // verus!
