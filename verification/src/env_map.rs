//! Lists of `NAME=value` pairs read as maps: a later pair overrides an earlier
//! one with the same name.
use vstd::prelude::*;

verus! {

/// The map that a list of pairs denotes; of two pairs with one name, the later wins.
pub open spec fn pairs_map(s: Seq<(String, String)>) -> Map<Seq<char>, Seq<char>>
    decreases s.len(),
{
    if s.len() == 0 {
        Map::empty()
    } else {
        pairs_map(s.drop_last()).insert(s.last().0@, s.last().1@)
    }
}

/// No name occurs twice in the list.
pub open spec fn keys_distinct(s: Seq<(String, String)>) -> bool {
    forall|i: int, j: int| 0 <= i < j < s.len() ==> s[i].0@ != s[j].0@
}

/// The names in a list of pairs.
pub proof fn lemma_pairs_map_dom(s: Seq<(String, String)>, k: Seq<char>)
    ensures
        pairs_map(s).contains_key(k) <==> exists|i: int| 0 <= i < s.len() && #[trigger] s[i].0@ == k,
    decreases s.len(),
{
    if s.len() > 0 {
        lemma_pairs_map_dom(s.drop_last(), k);
        if pairs_map(s).contains_key(k) && k != s.last().0@ {
            let i = choose|i: int| 0 <= i < s.drop_last().len() && #[trigger] s.drop_last()[i].0@ == k;
            assert(s[i].0@ == k);
        }
        if exists|i: int| 0 <= i < s.len() && #[trigger] s[i].0@ == k {
            let i = choose|i: int| 0 <= i < s.len() && #[trigger] s[i].0@ == k;
            if i < s.len() - 1 {
                assert(s.drop_last()[i].0@ == k);
            }
        }
    }
}

/// Without later pairs of the same name, a pair gives its name's value.
pub proof fn lemma_pairs_map_last(s: Seq<(String, String)>, i: int)
    requires
        0 <= i < s.len(),
        forall|j: int| i < j < s.len() ==> s[j].0@ != s[i].0@,
    ensures
        pairs_map(s).contains_key(s[i].0@),
        pairs_map(s)[s[i].0@] == s[i].1@,
    decreases s.len(),
{
    if i < s.len() - 1 {
        lemma_pairs_map_last(s.drop_last(), i);
    }
}

/// Replacing the value of the last pair with name `k` sets `k` in the map.
proof fn lemma_pairs_map_update(s: Seq<(String, String)>, i: int, p: (String, String))
    requires
        0 <= i < s.len(),
        p.0@ == s[i].0@,
        forall|j: int| i < j < s.len() ==> s[j].0@ != s[i].0@,
    ensures
        pairs_map(s.update(i, p)) == pairs_map(s).insert(p.0@, p.1@),
    decreases s.len(),
{
    if i == s.len() - 1 {
        assert(s.update(i, p).drop_last() =~= s.drop_last());
    } else {
        lemma_pairs_map_update(s.drop_last(), i, p);
        assert(s.update(i, p).drop_last() =~= s.drop_last().update(i, p));
        assert(pairs_map(s.update(i, p)) =~= pairs_map(s).insert(p.0@, p.1@));
    }
}

/// Sets `k` to `v`: the last pair named `k` takes the new value, or the pair is added.
pub fn insert_or_replace(s: &mut Vec<(String, String)>, k: String, v: String)
    ensures
        pairs_map(final(s)@) == pairs_map(old(s)@).insert(k@, v@),
        keys_distinct(old(s)@) ==> keys_distinct(final(s)@),
{
    let mut i = s.len();
    while i > 0
        invariant
            i <= s.len(),
            s@ == old(s)@,
            forall|j: int| i <= j < s.len() ==> s@[j].0@ != k@,
        decreases i,
    {
        if s[i - 1].0 == k {
            let ghost before = s@;
            proof {
                lemma_pairs_map_update(before, i - 1, (k, v));
            }
            s.set(i - 1, (k, v));
            proof {
                assert(s@ == before.update(i - 1, (k, v)));
            }
            return;
        }
        i = i - 1;
    }
    let ghost before = s@;
    s.push((k, v));
    proof {
        assert(s@.drop_last() =~= before);
    }
}

/// One more pair of a list sets its name in the map of the shorter prefix.
pub proof fn lemma_pairs_map_prefix(s: Seq<(String, String)>, i: int)
    requires
        0 <= i < s.len(),
    ensures
        pairs_map(s.take(i + 1)) == pairs_map(s.take(i)).insert(s[i].0@, s[i].1@),
{
    assert(s.take(i + 1).drop_last() =~= s.take(i));
}

/// Inserting into the right operand of a union is inserting into the union.
pub proof fn lemma_union_insert(a: Map<Seq<char>, Seq<char>>, b: Map<Seq<char>, Seq<char>>, k: Seq<char>, v: Seq<char>)
    ensures
        a.union_prefer_right(b.insert(k, v)) == a.union_prefer_right(b).insert(k, v),
{
    assert(a.union_prefer_right(b.insert(k, v)) =~= a.union_prefer_right(b).insert(k, v));
}

/// Sets every pair of `other` in `s`, in order.
pub fn insert_all(s: &mut Vec<(String, String)>, other: &Vec<(String, String)>)
    ensures
        pairs_map(final(s)@) == pairs_map(old(s)@).union_prefer_right(pairs_map(other@)),
        keys_distinct(old(s)@) ==> keys_distinct(final(s)@),
{
    let mut i: usize = 0;
    while i < other.len()
        invariant
            i <= other.len(),
            pairs_map(s@) == pairs_map(old(s)@).union_prefer_right(pairs_map(other@.take(i as int))),
            keys_distinct(old(s)@) ==> keys_distinct(s@),
        decreases other.len() - i,
    {
        let k = other[i].0.clone();
        let v = other[i].1.clone();
        insert_or_replace(s, k, v);
        proof {
            lemma_pairs_map_prefix(other@, i as int);
            lemma_union_insert(pairs_map(old(s)@), pairs_map(other@.take(i as int)), other@[i as int].0@, other@[i as int].1@);
        }
        i = i + 1;
    }
    proof {
        assert(other@.take(other@.len() as int) =~= other@);
    }
}

/// Whether the list names `key`.
pub fn contains_key(s: &Vec<(String, String)>, key: &str) -> (res: bool)
    ensures
        res == pairs_map(s@).contains_key(key@),
{
    proof {
        lemma_pairs_map_dom(s@, key@);
    }
    let mut i: usize = 0;
    while i < s.len()
        invariant
            i <= s@.len(),
            forall|j: int| 0 <= j < i ==> s@[j].0@ != key@,
        decreases s@.len() - i,
    {
        if crate::text::str_eq(s[i].0.as_str(), key) {
            proof {
                lemma_pairs_map_dom(s@, key@);
            }
            return true;
        }
        i = i + 1;
    }
    false
}

} // verus!
