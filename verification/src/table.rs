//! A finite map held as two sequences of one length: keys, none of which
//! occurs twice, and the value of each key at the key's position.

use vstd::prelude::*;

verus! {

/// The map that sends each key to the value at its position.
pub open spec fn table<K, V>(keys: Seq<K>, values: Seq<V>) -> Map<K, V> {
    Map::new(|k: K| keys.contains(k), |k: K| values[keys.index_of(k)])
}

/// Whether the two sequences make a table.
pub open spec fn is_table<K, V>(keys: Seq<K>, values: Seq<V>) -> bool {
    keys.no_duplicates() && keys.len() == values.len()
}

/// The key at position `i` is in the table, with the value at position `i`.
pub proof fn lemma_table_at<K, V>(keys: Seq<K>, values: Seq<V>, i: int)
    requires
        is_table(keys, values),
        0 <= i < keys.len(),
    ensures
        table(keys, values).dom().contains(keys[i]),
        table(keys, values)[keys[i]] == values[i],
{
    assert(keys.contains(keys[i]));
    assert(keys.index_of(keys[i]) == i);
}

/// A key that stands at no position is not in the table.
pub proof fn lemma_table_absent<K, V>(keys: Seq<K>, values: Seq<V>, k: K)
    requires
        forall|i: int| 0 <= i < keys.len() ==> keys[i] != k,
    ensures
        !table(keys, values).dom().contains(k),
{
}

/// Appending a fresh key and its value inserts the pair.
pub proof fn lemma_table_push<K, V>(keys: Seq<K>, values: Seq<V>, k: K, v: V)
    requires
        is_table(keys, values),
        !keys.contains(k),
    ensures
        is_table(keys.push(k), values.push(v)),
        table(keys.push(k), values.push(v)) == table(keys, values).insert(k, v),
{
    let keys2 = keys.push(k);
    let values2 = values.push(v);
    assert(keys2.no_duplicates()) by {
        assert forall|i: int, j: int|
            0 <= i < keys2.len() && 0 <= j < keys2.len() && i != j implies keys2[i] != keys2[j] by {
            if i < keys.len() && j < keys.len() {
                assert(keys[i] != keys[j]);
            } else if i < keys.len() {
                assert(keys.contains(keys[i]));
            } else {
                assert(keys.contains(keys[j]));
            }
        }
    }
    let a = table(keys2, values2);
    let b = table(keys, values).insert(k, v);
    assert forall|x: K| a.dom().contains(x) == b.dom().contains(x) by {
        if keys2.contains(x) {
            let i = choose|i: int| 0 <= i < keys2.len() && keys2[i] == x;
            if i < keys.len() {
                assert(keys[i] == x);
            }
        }
        if keys.contains(x) {
            let i = choose|i: int| 0 <= i < keys.len() && keys[i] == x;
            assert(keys2[i] == x);
        }
        if x == k {
            assert(keys2[keys.len() as int] == k);
        }
    }
    assert forall|x: K| a.dom().contains(x) implies a[x] == b[x] by {
        let i = keys2.index_of(x);
        lemma_table_at(keys2, values2, i);
        if i < keys.len() {
            assert(keys[i] == x);
            lemma_table_at(keys, values, i);
        }
    }
    assert(a =~= b);
}

/// Replacing the value at position `i` replaces the value of the key there.
pub proof fn lemma_table_update<K, V>(keys: Seq<K>, values: Seq<V>, i: int, v: V)
    requires
        is_table(keys, values),
        0 <= i < keys.len(),
    ensures
        is_table(keys, values.update(i, v)),
        table(keys, values.update(i, v)) == table(keys, values).insert(keys[i], v),
{
    let values2 = values.update(i, v);
    let a = table(keys, values2);
    let b = table(keys, values).insert(keys[i], v);
    assert forall|x: K| a.dom().contains(x) == b.dom().contains(x) by {
        assert(keys.contains(keys[i]));
    }
    assert forall|x: K| a.dom().contains(x) implies a[x] == b[x] by {
        let j = keys.index_of(x);
        lemma_table_at(keys, values2, j);
        lemma_table_at(keys, values, j);
    }
    assert(a =~= b);
}

/// Deleting position `i` deletes the key there, and nothing else.
pub proof fn lemma_table_remove<K, V>(keys: Seq<K>, values: Seq<V>, i: int)
    requires
        is_table(keys, values),
        0 <= i < keys.len(),
    ensures
        is_table(keys.remove(i), values.remove(i)),
        table(keys.remove(i), values.remove(i)) == table(keys, values).remove(keys[i]),
{
    let keys2 = keys.remove(i);
    let values2 = values.remove(i);
    assert(keys2.no_duplicates()) by {
        assert forall|a: int, b: int|
            0 <= a < keys2.len() && 0 <= b < keys2.len() && a != b implies keys2[a] != keys2[b] by {
            let a0 = if a < i { a } else { a + 1 };
            let b0 = if b < i { b } else { b + 1 };
            assert(keys2[a] == keys[a0]);
            assert(keys2[b] == keys[b0]);
        }
    }
    let m2 = table(keys2, values2);
    let m = table(keys, values).remove(keys[i]);
    assert forall|x: K| m2.dom().contains(x) == m.dom().contains(x) by {
        if keys2.contains(x) {
            let a = choose|a: int| 0 <= a < keys2.len() && keys2[a] == x;
            let a0 = if a < i { a } else { a + 1 };
            assert(keys[a0] == x);
            assert(keys.contains(x));
        }
        if keys.contains(x) && x != keys[i] {
            let a0 = choose|a0: int| 0 <= a0 < keys.len() && keys[a0] == x;
            let a = if a0 < i { a0 } else { a0 - 1 };
            assert(keys2[a] == x);
        }
    }
    assert forall|x: K| m2.dom().contains(x) implies m2[x] == m[x] by {
        let a = keys2.index_of(x);
        lemma_table_at(keys2, values2, a);
        let a0 = if a < i { a } else { a + 1 };
        assert(keys[a0] == x);
        lemma_table_at(keys, values, a0);
    }
    assert(m2 =~= m);
}

} // verus!
