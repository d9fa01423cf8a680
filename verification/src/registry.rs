//! Association tables keyed by state identifier.
//!
//! The state registry and the superstate table are both stored as vectors of
//! `(key, value)` pairs.  Their mathematical content is the finite map
//! [`map_of_pairs`], under which a later pair with the same key replaces an
//! earlier one, exactly as repeated insertion into a map would.

use vstd::prelude::*;

verus! {

/// The finite map described by a sequence of `(key, value)` pairs, where a
/// later pair with the same key shadows an earlier one.
pub open spec fn map_of_pairs<V>(s: Seq<(u64, V)>) -> Map<u64, V>
    decreases s.len(),
{
    if s.len() == 0 {
        Map::empty()
    } else {
        map_of_pairs(s.drop_last()).insert(s.last().0, s.last().1)
    }
}

/// A key is in the map of a pair sequence exactly when some pair carries it.
pub proof fn lemma_map_of_pairs_contains<V>(s: Seq<(u64, V)>, k: u64)
    ensures
        map_of_pairs(s).contains_key(k) <==> exists|i: int| 0 <= i < s.len() && s[i].0 == k,
    decreases s.len(),
{
    if s.len() > 0 {
        lemma_map_of_pairs_contains(s.drop_last(), k);
        if s.last().0 == k {
            assert(s[s.len() - 1].0 == k);
        } else {
            if map_of_pairs(s).contains_key(k) {
                let i = choose|i: int| 0 <= i < s.drop_last().len() && s.drop_last()[i].0 == k;
                assert(s[i].0 == k);
            }
            if exists|i: int| 0 <= i < s.len() && s[i].0 == k {
                let i = choose|i: int| 0 <= i < s.len() && s[i].0 == k;
                assert(s.drop_last()[i].0 == k);
            }
        }
    }
}

/// The map of a pair sequence sends a key to the value of the key's last
/// occurrence.
pub proof fn lemma_map_of_pairs_last<V>(s: Seq<(u64, V)>, i: int)
    requires
        0 <= i < s.len(),
        forall|j: int| i < j < s.len() ==> s[j].0 != s[i].0,
    ensures
        map_of_pairs(s).contains_key(s[i].0),
        map_of_pairs(s)[s[i].0] == s[i].1,
    decreases s.len(),
{
    if i == s.len() - 1 {
    } else {
        assert(s.drop_last()[i] == s[i]);
        lemma_map_of_pairs_last(s.drop_last(), i);
    }
}

/// Replacing the value at a key's last occurrence updates the map at that key
/// and nothing else.
pub proof fn lemma_map_of_pairs_update<V>(s: Seq<(u64, V)>, i: int, w: V)
    requires
        0 <= i < s.len(),
        forall|j: int| i < j < s.len() ==> s[j].0 != s[i].0,
    ensures
        map_of_pairs(s.update(i, (s[i].0, w))) == map_of_pairs(s).insert(s[i].0, w),
    decreases s.len(),
{
    let k = s[i].0;
    let t = s.update(i, (k, w));
    if i == s.len() - 1 {
        assert(t.drop_last() =~= s.drop_last());
        assert(map_of_pairs(t) =~= map_of_pairs(s).insert(k, w));
    } else {
        assert(s.drop_last()[i] == s[i]);
        lemma_map_of_pairs_update(s.drop_last(), i, w);
        assert(t.drop_last() =~= s.drop_last().update(i, (k, w)));
        assert(t.last() == s.last());
        assert(map_of_pairs(t) =~= map_of_pairs(s).insert(k, w));
    }
}

/// Appending a pair inserts it into the map.
pub proof fn lemma_map_of_pairs_push<V>(s: Seq<(u64, V)>, k: u64, v: V)
    ensures
        map_of_pairs(s.push((k, v))) == map_of_pairs(s).insert(k, v),
{
    assert(s.push((k, v)).drop_last() =~= s);
}

/// Finds the index of the last pair carrying `key`, the occurrence that
/// [`map_of_pairs`] lets win.
pub fn find_key<V>(v: &Vec<(u64, V)>, key: u64) -> (r: Option<usize>)
    ensures
        match r {
            Some(i) => i < v@.len() && v@[i as int].0 == key && (forall|j: int|
                i < j < v@.len() ==> v@[j].0 != key),
            None => forall|j: int| 0 <= j < v@.len() ==> v@[j].0 != key,
        },
{
    let mut i: usize = v.len();
    while i > 0
        invariant
            i <= v@.len(),
            forall|j: int| i <= j < v@.len() ==> v@[j].0 != key,
        decreases i,
    {
        i = i - 1;
        if v[i].0 == key {
            return Some(i);
        }
    }
    None
}

} // verus!
