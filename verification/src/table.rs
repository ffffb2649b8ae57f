//! A sequence of keyed entries read as a map.
//!
//! The executable state keeps its outputs and rings in vectors and finds an
//! entry by walking them. Where no key occurs twice, such a vector is a map;
//! the lemmas here say how pushing and replacing an entry change that map.

use vstd::prelude::*;

verus! {

/// The map that sends each key to the value at the key's position.
pub open spec fn table<K, V>(keys: Seq<K>, values: Seq<V>) -> Map<K, V> {
    Map::new(|k: K| keys.contains(k), |k: K| values[keys.index_of(k)])
}

/// With distinct keys, the map holds at each key the value at its position.
pub proof fn lemma_table_entry<K, V>(keys: Seq<K>, values: Seq<V>, i: int)
    requires
        keys.no_duplicates(),
        0 <= i < keys.len(),
    ensures
        keys.contains(keys[i]),
        keys.index_of(keys[i]) == i,
        table(keys, values).contains_key(keys[i]),
        table(keys, values)[keys[i]] == values[i],
{
    assert(keys.contains(keys[i]));
}

/// Pushing an entry under a key not yet present inserts it into the map.
pub proof fn lemma_table_push<K, V>(keys: Seq<K>, values: Seq<V>, key: K, value: V)
    requires
        keys.no_duplicates(),
        keys.len() == values.len(),
        !keys.contains(key),
    ensures
        keys.push(key).no_duplicates(),
        table(keys.push(key), values.push(value)) == table(keys, values).insert(key, value),
{
    let keys2 = keys.push(key);
    let values2 = values.push(value);
    assert(keys2.no_duplicates()) by {
        assert forall|i: int, j: int|
            0 <= i < keys2.len() && 0 <= j < keys2.len() && i != j implies keys2[i] != keys2[j] by {
            if i < keys.len() && j < keys.len() {
                assert(keys2[i] == keys[i] && keys2[j] == keys[j]);
            } else if i < keys.len() {
                assert(keys.contains(keys2[i]));
            } else {
                assert(keys.contains(keys2[j]));
            }
        }
    }
    assert forall|k: K| #[trigger] keys2.contains(k) <==> (keys.contains(k) || k == key) by {
        if keys.contains(k) {
            let i = keys.index_of(k);
            assert(keys2[i] == k);
        }
        if k == key {
            assert(keys2[keys.len() as int] == k);
        }
        if keys2.contains(k) {
            let i = keys2.index_of(k);
            if i < keys.len() {
                assert(keys[i] == k);
            }
        }
    }
    assert forall|k: K| #[trigger] keys2.contains(k) implies table(keys2, values2)[k] == table(
        keys,
        values,
    ).insert(key, value)[k] by {
        let i = keys2.index_of(k);
        if i < keys.len() {
            assert(keys[i] == k);
            lemma_table_entry(keys, values, i);
        }
    }
    assert(table(keys2, values2) =~= table(keys, values).insert(key, value));
}

/// Replacing the value at a position replaces the map's value at that key.
pub proof fn lemma_table_update<K, V>(keys: Seq<K>, values: Seq<V>, i: int, value: V)
    requires
        keys.no_duplicates(),
        keys.len() == values.len(),
        0 <= i < keys.len(),
    ensures
        table(keys, values.update(i, value)) == table(keys, values).insert(keys[i], value),
{
    let values2 = values.update(i, value);
    lemma_table_entry(keys, values, i);
    assert forall|k: K| #[trigger] keys.contains(k) implies table(keys, values2)[k] == table(
        keys,
        values,
    ).insert(keys[i], value)[k] by {
        let j = keys.index_of(k);
        lemma_table_entry(keys, values, j);
    }
    assert(table(keys, values2) =~= table(keys, values).insert(keys[i], value));
}

} // verus!
