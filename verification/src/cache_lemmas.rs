//! Facts about the entries of a cache.

use crate::caches::{refreshed, stored, value_of, without};
use vstd::prelude::*;

verus! {

/// No key has two entries.
pub open spec fn distinct_keys<K, V>(entries: Seq<(K, V)>) -> bool {
    forall|i: int, j: int|
        #![trigger entries[i], entries[j]]
        0 <= i < j < entries.len() ==> entries[i].0 != entries[j].0
}

/// Whether there is an entry for `key`.
pub open spec fn has_key<K, V>(entries: Seq<(K, V)>, key: K) -> bool {
    exists|i: int| 0 <= i < entries.len() && (#[trigger] entries[i]).0 == key
}

/// A key has a value exactly if it has an entry.
pub proof fn lemma_value_of<K, V>(entries: Seq<(K, V)>, key: K)
    ensures
        value_of(entries, key) is Some <==> has_key(entries, key),
        distinct_keys(entries) ==> forall|i: int|
            0 <= i < entries.len() && (#[trigger] entries[i]).0 == key ==> value_of(entries, key)
                == Some(entries[i].1),
    decreases entries.len(),
{
    if entries.len() > 0 {
        let rest = entries.drop_last();
        lemma_value_of(rest, key);
        if entries.last().0 == key {
            assert(entries[entries.len() - 1].0 == key);
        } else if has_key(rest, key) {
            let i = choose|i: int| 0 <= i < rest.len() && (#[trigger] rest[i]).0 == key;
            assert(entries[i].0 == key);
        } else if has_key(entries, key) {
            let i = choose|i: int| 0 <= i < entries.len() && (#[trigger] entries[i]).0 == key;
            assert(rest[i].0 == key);
        }
        assert forall|i: int|
            distinct_keys(entries) && 0 <= i < entries.len() && (#[trigger] entries[i]).0
                == key implies value_of(entries, key) == Some(entries[i].1) by {
            if i < rest.len() {
                assert(rest[i] == entries[i]);
            }
        }
    }
}

/// The values after an entry is added at the young end.
pub proof fn lemma_value_of_push<K, V>(entries: Seq<(K, V)>, entry: (K, V))
    ensures
        forall|other: K| #[trigger]
            value_of(entries.push(entry), other) == if other == entry.0 {
                Some(entry.1)
            } else {
                value_of(entries, other)
            },
{
    assert(entries.push(entry).drop_last() =~= entries);
}

/// What is left of the entries without `key`.
pub proof fn lemma_without<K, V>(entries: Seq<(K, V)>, key: K)
    ensures
        without(entries, key).len() <= entries.len(),
        value_of(entries, key) is Some ==> without(entries, key).len() < entries.len(),
        forall|i: int| 0 <= i < without(entries, key).len() ==> (#[trigger] without(entries, key)[i]).0 != key
            && entries.contains(without(entries, key)[i]),
        value_of(without(entries, key), key) is None,
        forall|other: K|
            other != key ==> #[trigger] value_of(without(entries, key), other) == value_of(
                entries,
                other,
            ),
        distinct_keys(entries) ==> distinct_keys(without(entries, key)),
    decreases entries.len(),
{
    reveal(Seq::filter);
    let left = without(entries, key);
    if entries.len() > 0 {
        let rest = entries.drop_last();
        lemma_without(rest, key);
        let left_rest = without(rest, key);
        assert(entries =~= rest.push(entries.last()));
        lemma_value_of_push(rest, entries.last());
        if entries.last().0 != key {
            assert(left == left_rest.push(entries.last()));
            lemma_value_of_push(left_rest, entries.last());
        } else {
            assert(left == left_rest);
        }
        assert forall|i: int| 0 <= i < left.len() implies (#[trigger] left[i]).0 != key
            && entries.contains(left[i]) by {
            if i < left_rest.len() {
                assert(left[i] == left_rest[i]);
                let k = choose|k: int| 0 <= k < rest.len() && rest[k] == left_rest[i];
                assert(entries[k] == left[i]);
            } else {
                assert(entries[entries.len() - 1] == left[i]);
            }
        }
        if distinct_keys(entries) {
            assert(distinct_keys(rest)) by {
                assert forall|i: int, j: int|
                    #![trigger rest[i], rest[j]]
                    0 <= i < j < rest.len() implies rest[i].0 != rest[j].0 by {
                    assert(rest[i] == entries[i] && rest[j] == entries[j]);
                }
            }
            assert forall|i: int, j: int|
                #![trigger left[i], left[j]]
                0 <= i < j < left.len() implies left[i].0 != left[j].0 by {
                assert(left[i] == left_rest[i]);
                if j < left_rest.len() {
                    assert(left[j] == left_rest[j]);
                } else {
                    let k = choose|k: int| 0 <= k < rest.len() && rest[k] == left_rest[i];
                    assert(entries[k] == left[i]);
                    assert(left[j] == entries[entries.len() - 1]);
                }
            }
        }
    }
}

/// To take a key out twice is to take it out once.
pub proof fn lemma_without_twice<K, V>(entries: Seq<(K, V)>, key: K)
    ensures
        without(without(entries, key), key) == without(entries, key),
    decreases entries.len(),
{
    reveal(Seq::filter);
    if entries.len() > 0 {
        let left = without(entries.drop_last(), key);
        lemma_without_twice(entries.drop_last(), key);
        if entries.last().0 != key {
            assert(left.push(entries.last()).drop_last() =~= left);
        }
    }
}

/// A read of a key matters to nothing but its entry.
pub proof fn lemma_without_refreshed<K, V>(entries: Seq<(K, V)>, key: K)
    ensures
        without(refreshed(entries, key), key) == without(entries, key),
{
    reveal(Seq::filter);
    if let Some(value) = value_of(entries, key) {
        let left = without(entries, key);
        assert(left.push((key, value)).drop_last() =~= left);
        lemma_without_twice(entries, key);
    }
}

/// A read moves an entry and changes no value.
pub proof fn lemma_refreshed<K, V>(entries: Seq<(K, V)>, key: K)
    ensures
        forall|other: K| #[trigger]
            value_of(refreshed(entries, key), other) == value_of(entries, other),
        distinct_keys(entries) ==> distinct_keys(refreshed(entries, key)),
        refreshed(entries, key).len() <= entries.len(),
{
    lemma_without(entries, key);
    if let Some(value) = value_of(entries, key) {
        lemma_value_of_push(without(entries, key), (key, value));
    }
}

/// What a write stores.
pub proof fn lemma_stored<K, V>(entries: Seq<(K, V)>, capacity: nat, key: K, value: V)
    requires
        distinct_keys(entries),
        entries.len() <= capacity,
    ensures
        distinct_keys(stored(entries, capacity, key, value)),
        stored(entries, capacity, key, value).len() <= capacity,
        capacity > 0 ==> value_of(stored(entries, capacity, key, value), key) == Some(value),
        forall|other: K|
            other != key ==> #[trigger] value_of(stored(entries, capacity, key, value), other) == value_of(
                entries,
                other,
            ) || value_of(stored(entries, capacity, key, value), other) is None,
        value_of(entries, key) is Some || entries.len() < capacity ==> forall|other: K|
            other != key ==> #[trigger] value_of(stored(entries, capacity, key, value), other) == value_of(
                entries,
                other,
            ),
{
    lemma_without(entries, key);
    let left = without(entries, key);
    let longer = left.push((key, value));
    lemma_value_of_push(left, (key, value));
    let result = stored(entries, capacity, key, value);
    assert(distinct_keys(longer));
    assert forall|other: K| other != key implies #[trigger] value_of(result, other) == value_of(
        entries,
        other,
    ) || value_of(result, other) is None by {
        lemma_value_of(longer, other);
        lemma_value_of(result, other);
        if has_key(result, other) && longer.len() > capacity {
            let i = choose|i: int| 0 <= i < result.len() && (#[trigger] result[i]).0 == other;
            assert(longer[i + 1] == result[i]);
        }
        if longer.len() <= capacity {
            assert(value_of(longer, other) == value_of(left, other));
        }
    }
    if capacity > 0 {
        assert(result.last() == (key, value));
    }
    if value_of(entries, key) is Some || entries.len() < capacity {
        assert(result == longer);
    }
}

} // verus!
