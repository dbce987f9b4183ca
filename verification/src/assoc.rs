//! Association lists as maps: a sequence of keys without repeats, beside a
//! sequence of values of the same length, read as the map that sends each
//! key to the value at its index.

use vstd::prelude::*;

verus! {

/// No key occurs twice.
pub open spec fn distinct_keys<K>(keys: Seq<K>) -> bool {
    forall|i: int, j: int| 0 <= i < j < keys.len() ==> keys[i] != keys[j]
}

/// `keys[i]` is `k`.
pub open spec fn key_at<K>(keys: Seq<K>, k: K, i: int) -> bool {
    0 <= i < keys.len() && keys[i] == k
}

/// The map from each key to the value at its index.
pub open spec fn map_of<K, V>(keys: Seq<K>, values: Seq<V>) -> Map<K, V>
    decreases keys.len(),
{
    if keys.len() == 0 {
        Map::empty()
    } else {
        map_of(keys.drop_last(), values.drop_last()).insert(keys.last(), values.last())
    }
}

pub proof fn lemma_distinct_prefix<K>(keys: Seq<K>)
    requires
        distinct_keys(keys),
        keys.len() > 0,
    ensures
        distinct_keys(keys.drop_last()),
{
    let init = keys.drop_last();
    assert forall|i: int, j: int| 0 <= i < j < init.len() implies init[i] != init[j] by {
        assert(init[i] == keys[i]);
        assert(init[j] == keys[j]);
    }
}

/// What `map_of` holds: exactly the keys of the list, each with the value
/// at its index.
pub proof fn lemma_map_of<K, V>(keys: Seq<K>, values: Seq<V>)
    requires
        distinct_keys(keys),
        keys.len() == values.len(),
    ensures
        map_of(keys, values).dom().finite(),
        forall|k: K|
            #![trigger map_of(keys, values).contains_key(k)]
            map_of(keys, values).contains_key(k) <==> exists|i: int| key_at(keys, k, i),
        forall|k: K, i: int|
            key_at(keys, k, i) ==> map_of(keys, values).contains_key(k) && map_of(keys, values)[k]
                == values[i],
    decreases keys.len(),
{
    if keys.len() > 0 {
        let kinit = keys.drop_last();
        let vinit = values.drop_last();
        lemma_distinct_prefix(keys);
        lemma_map_of(kinit, vinit);
        assert forall|k: K|
            #![trigger map_of(keys, values).contains_key(k)]
            map_of(keys, values).contains_key(k) <==> exists|i: int| key_at(keys, k, i) by {
            if map_of(keys, values).contains_key(k) {
                if k == keys.last() {
                    assert(key_at(keys, k, keys.len() - 1));
                } else {
                    assert(map_of(kinit, vinit).contains_key(k));
                    let i = choose|i: int| key_at(kinit, k, i);
                    assert(key_at(keys, k, i));
                }
            }
            if exists|i: int| key_at(keys, k, i) {
                let i = choose|i: int| key_at(keys, k, i);
                if i < kinit.len() {
                    assert(key_at(kinit, k, i));
                }
            }
        }
        assert forall|k: K, i: int| key_at(keys, k, i) implies map_of(keys, values).contains_key(k)
            && map_of(keys, values)[k] == values[i] by {
            if i < kinit.len() {
                assert(key_at(kinit, k, i));
                assert(keys[i] != keys[keys.len() - 1]);
                assert(vinit[i] == values[i]);
            }
        }
    }
}

/// The number of keys of `map_of` is the length of the list.
pub proof fn lemma_map_of_len<K, V>(keys: Seq<K>, values: Seq<V>)
    requires
        distinct_keys(keys),
        keys.len() == values.len(),
    ensures
        map_of(keys, values).dom().finite(),
        map_of(keys, values).dom().len() == keys.len(),
    decreases keys.len(),
{
    lemma_map_of(keys, values);
    if keys.len() > 0 {
        let kinit = keys.drop_last();
        let vinit = values.drop_last();
        lemma_distinct_prefix(keys);
        lemma_map_of_len(kinit, vinit);
        lemma_map_of(kinit, vinit);
        if map_of(kinit, vinit).contains_key(keys.last()) {
            let i = choose|i: int| key_at(kinit, keys.last(), i);
            assert(kinit[i] == keys[i]);
            assert(keys[i] != keys[keys.len() - 1]);
        }
    }
}

/// A key that no index holds is not in the map.
pub proof fn lemma_map_of_missing<K, V>(keys: Seq<K>, values: Seq<V>, k: K)
    requires
        distinct_keys(keys),
        keys.len() == values.len(),
        forall|i: int| 0 <= i < keys.len() ==> !key_at(keys, k, i),
    ensures
        !map_of(keys, values).contains_key(k),
{
    lemma_map_of(keys, values);
    if map_of(keys, values).contains_key(k) {
        let i = choose|i: int| key_at(keys, k, i);
        assert(!key_at(keys, k, i));
    }
}

/// Writing a new value at an index is `insert` under that index's key.
pub proof fn lemma_map_of_update<K, V>(keys: Seq<K>, values: Seq<V>, at: int, v: V)
    requires
        distinct_keys(keys),
        keys.len() == values.len(),
        0 <= at < keys.len(),
    ensures
        map_of(keys, values.update(at, v)) == map_of(keys, values).insert(keys[at], v),
{
    let after = values.update(at, v);
    let goal = map_of(keys, values).insert(keys[at], v);
    lemma_map_of(keys, values);
    lemma_map_of(keys, after);
    assert forall|k: K| #[trigger]
        map_of(keys, after).contains_key(k) implies goal.contains_key(k) && map_of(keys, after)[k]
        == goal[k] by {
        let i = choose|i: int| key_at(keys, k, i);
        assert(key_at(keys, k, i));
        if i != at {
            assert(keys[i] != keys[at]);
        }
    }
    assert forall|k: K| #[trigger] goal.contains_key(k) implies map_of(keys, after).contains_key(
        k,
    ) by {
        if k == keys[at] {
            assert(key_at(keys, k, at));
        } else {
            let i = choose|i: int| key_at(keys, k, i);
            assert(key_at(keys, k, i));
        }
    }
    assert(map_of(keys, after) =~= goal);
}

/// Appending a fresh key is `insert`.
pub proof fn lemma_map_of_push<K, V>(keys: Seq<K>, values: Seq<V>, k: K, v: V)
    requires
        distinct_keys(keys),
        keys.len() == values.len(),
        !map_of(keys, values).contains_key(k),
    ensures
        distinct_keys(keys.push(k)),
        map_of(keys.push(k), values.push(v)) == map_of(keys, values).insert(k, v),
{
    lemma_map_of(keys, values);
    let after = keys.push(k);
    assert forall|i: int, j: int| 0 <= i < j < after.len() implies after[i] != after[j] by {
        assert(after[i] == keys[i]);
        if j < keys.len() {
            assert(after[j] == keys[j]);
        } else {
            assert(key_at(keys, keys[i], i));
        }
    }
    assert(after.drop_last() =~= keys);
    assert(values.push(v).drop_last() =~= values);
}

/// Taking an index out is `remove` under that index's key.
pub proof fn lemma_map_of_remove<K, V>(keys: Seq<K>, values: Seq<V>, at: int)
    requires
        distinct_keys(keys),
        keys.len() == values.len(),
        0 <= at < keys.len(),
    ensures
        distinct_keys(keys.remove(at)),
        map_of(keys.remove(at), values.remove(at)) == map_of(keys, values).remove(keys[at]),
{
    let kafter = keys.remove(at);
    let vafter = values.remove(at);
    let goal = map_of(keys, values).remove(keys[at]);
    assert forall|i: int, j: int| 0 <= i < j < kafter.len() implies kafter[i] != kafter[j] by {
        let a = if i < at { i } else { i + 1 };
        let b = if j < at { j } else { j + 1 };
        assert(kafter[i] == keys[a]);
        assert(kafter[j] == keys[b]);
    }
    lemma_map_of(keys, values);
    lemma_map_of(kafter, vafter);
    assert forall|k: K| #[trigger]
        map_of(kafter, vafter).contains_key(k) implies goal.contains_key(k) && map_of(
        kafter,
        vafter,
    )[k] == goal[k] by {
        let i = choose|i: int| key_at(kafter, k, i);
        let a = if i < at { i } else { i + 1 };
        assert(kafter[i] == keys[a]);
        assert(vafter[i] == values[a]);
        assert(key_at(keys, k, a));
        assert(keys[a] != keys[at]);
    }
    assert forall|k: K| #[trigger] goal.contains_key(k) implies map_of(kafter, vafter).contains_key(
        k,
    ) by {
        let a = choose|a: int| key_at(keys, k, a);
        let i = if a < at { a } else { a - 1 };
        assert(kafter[i] == keys[a]);
        assert(key_at(kafter, k, i));
    }
    assert(map_of(kafter, vafter) =~= goal);
}

} // verus!
