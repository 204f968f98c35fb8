//! Association sequences of key/value pairs, read as maps in which the
//! last entry for a key wins. Both the lexer's reserved-word table and
//! the symbol table's scopes are stored this way.

use vstd::prelude::*;

verus! {

/// The map denoted by an association sequence: an entry overrides all
/// earlier entries under the same key.
pub open spec fn kv_map<V>(s: Seq<(Seq<char>, V)>) -> Map<Seq<char>, V>
    decreases s.len(),
{
    if s.len() == 0 {
        Map::empty()
    } else {
        kv_map(s.drop_last()).insert(s.last().0, s.last().1)
    }
}

/// Appending an entry updates the denoted map at the entry's key.
pub proof fn lemma_kv_map_push<V>(s: Seq<(Seq<char>, V)>, k: Seq<char>, v: V)
    ensures
        kv_map(s.push((k, v))) == kv_map(s).insert(k, v),
{
    assert(s.push((k, v)).drop_last() =~= s);
}

/// The denoted map holds a key exactly when some entry carries it.
pub proof fn lemma_kv_map_contains<V>(s: Seq<(Seq<char>, V)>, k: Seq<char>)
    ensures
        kv_map(s).contains_key(k) <==> exists|i: int| 0 <= i < s.len() && s[i].0 == k,
    decreases s.len(),
{
    if s.len() > 0 {
        lemma_kv_map_contains(s.drop_last(), k);
        if s.last().0 == k {
            assert(s[s.len() - 1].0 == k);
        } else if kv_map(s).contains_key(k) {
            let i = choose|i: int| 0 <= i < s.drop_last().len() && s.drop_last()[i].0 == k;
            assert(s[i].0 == k);
        } else {
            assert forall|i: int| 0 <= i < s.len() implies s[i].0 != k by {
                if i < s.len() - 1 {
                    assert(s.drop_last()[i].0 != k);
                }
            }
        }
    }
}

/// The value at a key is that of the last entry carrying the key.
pub proof fn lemma_kv_map_index<V>(s: Seq<(Seq<char>, V)>, k: Seq<char>, i: int)
    requires
        0 <= i < s.len(),
        s[i].0 == k,
        forall|j: int| i < j < s.len() ==> s[j].0 != k,
    ensures
        kv_map(s).contains_key(k),
        kv_map(s)[k] == s[i].1,
    decreases s.len(),
{
    if i == s.len() - 1 {
    } else {
        assert(s.last().0 != k);
        assert(s.drop_last()[i].0 == k);
        lemma_kv_map_index(s.drop_last(), k, i);
    }
}

} // verus!
