//! Association lists as maps: the model that the stores share.
//!
//! A store keeps its entries in a vector. Its model is the map from each
//! entry's key to that entry's value, which is well defined as long as no key
//! occurs twice.

use vstd::prelude::*;

verus! {

/// Whether no key occurs twice in `keys`.
pub open spec fn distinct<K>(keys: Seq<K>) -> bool {
    forall|i: int, j: int| 0 <= i < j < keys.len() ==> keys[i] != keys[j]
}

/// Whether `k` occurs in `keys`.
pub open spec fn has_key<K>(keys: Seq<K>, k: K) -> bool {
    exists|i: int| 0 <= i < keys.len() && keys[i] == k
}

/// The map that sends each key to the value at the same index.
pub open spec fn table<K, V>(keys: Seq<K>, values: Seq<V>) -> Map<K, V>
    recommends
        keys.len() == values.len(),
{
    Map::new(
        |k: K| has_key(keys, k),
        |k: K| values[choose|i: int| 0 <= i < keys.len() && keys[i] == k],
    )
}

/// An entry found at index `i` is what the table holds for its key.
pub proof fn lemma_table_at<K, V>(keys: Seq<K>, values: Seq<V>, i: int)
    requires
        keys.len() == values.len(),
        distinct(keys),
        0 <= i < keys.len(),
    ensures
        table(keys, values).dom().contains(keys[i]),
        table(keys, values)[keys[i]] == values[i],
{
    let k = keys[i];
    let j = choose|j: int| 0 <= j < keys.len() && keys[j] == k;
    assert(j == i);
}

/// The empty list is the empty map.
pub proof fn lemma_table_empty<K, V>()
    ensures
        table(Seq::<K>::empty(), Seq::<V>::empty()) == Map::<K, V>::empty(),
{
    assert(table(Seq::<K>::empty(), Seq::<V>::empty()) =~= Map::<K, V>::empty());
}

/// Appending an entry under a new key inserts it.
pub proof fn lemma_table_push<K, V>(keys: Seq<K>, values: Seq<V>, k: K, v: V)
    requires
        keys.len() == values.len(),
        distinct(keys),
        !has_key(keys, k),
    ensures
        distinct(keys.push(k)),
        table(keys.push(k), values.push(v)) == table(keys, values).insert(k, v),
{
    let keys2 = keys.push(k);
    let values2 = values.push(v);
    assert(distinct(keys2)) by {
        assert forall|i: int, j: int| 0 <= i < j < keys2.len() implies keys2[i] != keys2[j] by {
            if j == keys.len() {
                assert(keys2[i] == keys[i]);
                if keys[i] == k {
                    assert(has_key(keys, k));
                }
            }
        }
    }
    let left = table(keys2, values2);
    let right = table(keys, values).insert(k, v);
    assert forall|x: K| left.dom().contains(x) <==> right.dom().contains(x) by {
        if left.dom().contains(x) {
            let i = choose|i: int| 0 <= i < keys2.len() && keys2[i] == x;
            if i < keys.len() {
                assert(keys[i] == x);
            }
        }
        if right.dom().contains(x) {
            if x == k {
                assert(keys2[keys.len() as int] == k);
            } else {
                let i = choose|i: int| 0 <= i < keys.len() && keys[i] == x;
                assert(keys2[i] == x);
            }
        }
    }
    assert forall|x: K| left.dom().contains(x) implies left[x] == right[x] by {
        let i = choose|i: int| 0 <= i < keys2.len() && keys2[i] == x;
        lemma_table_at(keys2, values2, i);
        if i < keys.len() {
            assert(keys[i] == x);
            lemma_table_at(keys, values, i);
        }
    }
    assert(left =~= right);
}

/// Replacing the value at index `i` replaces what the table holds for that
/// entry's key.
pub proof fn lemma_table_update<K, V>(keys: Seq<K>, values: Seq<V>, i: int, v: V)
    requires
        keys.len() == values.len(),
        distinct(keys),
        0 <= i < keys.len(),
    ensures
        table(keys, values.update(i, v)) == table(keys, values).insert(keys[i], v),
{
    let values2 = values.update(i, v);
    let left = table(keys, values2);
    let right = table(keys, values).insert(keys[i], v);
    assert forall|x: K| left.dom().contains(x) <==> right.dom().contains(x) by {
        if x == keys[i] {
            assert(has_key(keys, x));
        }
    }
    assert forall|x: K| left.dom().contains(x) implies left[x] == right[x] by {
        let j = choose|j: int| 0 <= j < keys.len() && keys[j] == x;
        lemma_table_at(keys, values2, j);
        lemma_table_at(keys, values, j);
    }
    assert(left =~= right);
}

} // verus!
