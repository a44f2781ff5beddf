use vstd::prelude::*;

verus! {

/// The map that a sequence of `(key, value)` pairs stands for: later pairs
/// overwrite earlier ones with the same key.
pub open spec fn pairs_map<K, V>(s: Seq<(K, V)>) -> Map<K, V>
    decreases s.len(),
{
    if s.len() == 0 {
        Map::empty()
    } else {
        pairs_map(s.drop_last()).insert(s.last().0, s.last().1)
    }
}

/// Pairs at positions `i..` that do not carry key `k` do not change what `k`
/// maps to.
pub proof fn lemma_pairs_map_prefix<K, V>(s: Seq<(K, V)>, i: int, k: K)
    requires
        0 <= i <= s.len(),
        forall|j: int| i <= j < s.len() ==> s[j].0 != k,
    ensures
        pairs_map(s).contains_key(k) == pairs_map(s.take(i)).contains_key(k),
        pairs_map(s).contains_key(k) ==> pairs_map(s)[k] == pairs_map(s.take(i))[k],
    decreases s.len(),
{
    if s.len() > i {
        assert(s.drop_last().take(i) =~= s.take(i));
        lemma_pairs_map_prefix(s.drop_last(), i, k);
    } else {
        assert(s.take(i) =~= s);
    }
}

/// Overwriting the last pair that carries key `k` is an insertion of `k`.
pub proof fn lemma_pairs_map_update<K, V>(s: Seq<(K, V)>, j: int, k: K, v: V)
    requires
        0 <= j < s.len(),
        s[j].0 == k,
        forall|i: int| j < i < s.len() ==> s[i].0 != k,
    ensures
        pairs_map(s.update(j, (k, v))) == pairs_map(s).insert(k, v),
    decreases s.len(),
{
    let t = s.update(j, (k, v));
    if j == s.len() - 1 {
        assert(t.drop_last() =~= s.drop_last());
        assert(pairs_map(t) =~= pairs_map(s).insert(k, v));
    } else {
        assert(t.drop_last() =~= s.drop_last().update(j, (k, v)));
        lemma_pairs_map_update(s.drop_last(), j, k, v);
        assert(pairs_map(t) =~= pairs_map(s).insert(k, v));
    }
}

/// Appending a pair is an insertion.
pub proof fn lemma_pairs_map_push<K, V>(s: Seq<(K, V)>, k: K, v: V)
    ensures
        pairs_map(s.push((k, v))) == pairs_map(s).insert(k, v),
{
    assert(s.push((k, v)).drop_last() =~= s);
}

/// The value of `key` among the request's key/value pairs, as `pairs_map`
/// defines it (the last pair with that key wins).
pub fn lookup(pairs: &Vec<(String, String)>, key: &String) -> (r: Option<String>)
    ensures
        r.deep_view() == (if pairs_map(pairs.deep_view()).contains_key(key@) {
            Some(pairs_map(pairs.deep_view())[key@])
        } else {
            None::<Seq<char>>
        }),
{
    let ghost s = pairs.deep_view();
    let mut i: usize = pairs.len();
    while i > 0
        invariant
            i <= pairs.len(),
            s == pairs.deep_view(),
            forall|j: int| i <= j < s.len() ==> s[j].0 != key@,
        decreases i,
    {
        let p = &pairs[i - 1];
        if p.0 == *key {
            proof {
                lemma_pairs_map_prefix(s, i as int, key@);
                assert(s.take(i as int).drop_last() =~= s.take(i - 1));
            }
            return Some(p.1.clone());
        }
        i = i - 1;
    }
    proof {
        lemma_pairs_map_prefix(s, 0, key@);
        assert(s.take(0) =~= Seq::<(Seq<char>, Seq<char>)>::empty());
    }
    None
}

} // verus!
