use vstd::prelude::*;

verus! {

/// Reads a list of `(key, value)` entries as a map; a later entry for a key
/// overrides an earlier one.
pub open spec fn table_map<K, V>(s: Seq<(K, V)>) -> Map<K, V>
    decreases s.len(),
{
    if s.len() == 0 {
        Map::empty()
    } else {
        table_map(s.drop_last()).insert(s.last().0, s.last().1)
    }
}

/// `i` is the last entry of `s` whose key is `k`.
pub open spec fn last_with_key<K, V>(s: Seq<(K, V)>, i: int, k: K) -> bool {
    &&& 0 <= i < s.len()
    &&& s[i].0 == k
    &&& forall|j: int| i < j < s.len() ==> s[j].0 != k
}

pub proof fn lemma_table_push<K, V>(s: Seq<(K, V)>, e: (K, V))
    ensures
        table_map(s.push(e)) == table_map(s).insert(e.0, e.1),
{
    assert(s.push(e).drop_last() =~= s);
}

pub proof fn lemma_table_absent<K, V>(s: Seq<(K, V)>, k: K)
    requires
        forall|j: int| 0 <= j < s.len() ==> s[j].0 != k,
    ensures
        !table_map(s).contains_key(k),
    decreases s.len(),
{
    if s.len() > 0 {
        lemma_table_absent(s.drop_last(), k);
    }
}

pub proof fn lemma_table_lookup<K, V>(s: Seq<(K, V)>, i: int, k: K)
    requires
        last_with_key(s, i, k),
    ensures
        table_map(s).contains_key(k),
        table_map(s)[k] == s[i].1,
    decreases s.len(),
{
    if i < s.len() - 1 {
        lemma_table_lookup(s.drop_last(), i, k);
    }
}

pub proof fn lemma_table_update<K, V>(s: Seq<(K, V)>, i: int, v: V)
    requires
        last_with_key(s, i, s[i].0),
    ensures
        table_map(s.update(i, (s[i].0, v))) == table_map(s).insert(s[i].0, v),
    decreases s.len(),
{
    let k = s[i].0;
    let t = s.update(i, (k, v));
    if i == s.len() - 1 {
        assert(t.drop_last() =~= s.drop_last());
        assert(table_map(t) =~= table_map(s).insert(k, v));
    } else {
        assert(t.drop_last() =~= s.drop_last().update(i, (k, v)));
        lemma_table_update(s.drop_last(), i, v);
        assert(table_map(t) =~= table_map(s).insert(k, v));
    }
}

} // verus!
