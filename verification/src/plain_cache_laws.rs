//! What the caches hold, entry by entry.

use crate::cache_lemmas::{distinct_keys, lemma_value_of};
use crate::caches::{refreshed, stored, value_of, without};
use vstd::prelude::*;

verus! {

/// Where one entry has the key, to leave the key out is to take that entry out.
proof fn lemma_without_is_remove<K, V>(entries: Seq<(K, V)>, key: K, i: int)
    requires
        distinct_keys(entries),
        0 <= i < entries.len(),
        entries[i].0 == key,
    ensures
        without(entries, key) == entries.remove(i),
    decreases entries.len(),
{
    reveal(Seq::filter);
    let rest = entries.drop_last();
    assert forall|a: int, b: int|
        #![trigger rest[a], rest[b]]
        0 <= a < b < rest.len() implies rest[a].0 != rest[b].0 by {
        assert(rest[a] == entries[a] && rest[b] == entries[b]);
    }
    if i == entries.len() - 1 {
        assert forall|k: int| 0 <= k < rest.len() implies (#[trigger] rest[k]).0 != key by {
            assert(entries[k].0 != entries[i].0);
        }
        lemma_without_absent(rest, key);
        assert(entries.remove(i) =~= rest);
    } else {
        assert(rest[i] == entries[i]);
        lemma_without_is_remove(rest, key, i);
        assert(entries[i].0 != entries[entries.len() - 1].0);
        assert(rest.remove(i).push(entries.last()) =~= entries.remove(i));
    }
}

/// Where no entry has the key, to leave the key out changes nothing.
proof fn lemma_without_absent<K, V>(entries: Seq<(K, V)>, key: K)
    requires
        forall|k: int| 0 <= k < entries.len() ==> (#[trigger] entries[k]).0 != key,
    ensures
        without(entries, key) == entries,
    decreases entries.len(),
{
    reveal(Seq::filter);
    if entries.len() > 0 {
        let rest = entries.drop_last();
        assert forall|k: int| 0 <= k < rest.len() implies (#[trigger] rest[k]).0 != key by {
            assert(rest[k] == entries[k]);
        }
        lemma_without_absent(rest, key);
        assert(entries[entries.len() - 1].0 != key);
        assert(rest.push(entries.last()) =~= entries);
    }
}

/// What a cache does with a key that it has an entry for, at `i`: the value is that of the entry; a
/// read moves the entry to the young end, a write replaces it by one there, and a removal takes it
/// out. All other entries stay, in their order.
pub proof fn law_known_key<K, V>(entries: Seq<(K, V)>, capacity: nat, key: K, value: V, i: int)
    requires
        forall|a: int, b: int|
            #![trigger entries[a], entries[b]]
            0 <= a < b < entries.len() ==> entries[a].0 != entries[b].0,
        entries.len() <= capacity,
        0 <= i < entries.len(),
        entries[i].0 == key,
    ensures
        value_of(entries, key) == Some(entries[i].1),
        without(entries, key) == entries.remove(i),
        refreshed(entries, key) == entries.remove(i).push(entries[i]),
        stored(entries, capacity, key, value) == entries.remove(i).push((key, value)),
{
    lemma_value_of(entries, key);
    lemma_without_is_remove(entries, key, i);
}

/// What a cache does with a key that it has no entry for: there is no value; a read and a removal
/// change nothing, and a write adds an entry at the young end. Where there would be too many, the
/// oldest goes.
pub proof fn law_unknown_key<K, V>(entries: Seq<(K, V)>, capacity: nat, key: K, value: V)
    requires
        entries.len() <= capacity,
        forall|k: int| 0 <= k < entries.len() ==> (#[trigger] entries[k]).0 != key,
    ensures
        value_of(entries, key) is None,
        without(entries, key) == entries,
        refreshed(entries, key) == entries,
        entries.len() < capacity ==> stored(entries, capacity, key, value) == entries.push(
            (key, value),
        ),
        0 < entries.len() == capacity ==> stored(entries, capacity, key, value) == entries.remove(
            0,
        ).push((key, value)),
        capacity == 0 ==> stored(entries, capacity, key, value).len() == 0,
{
    lemma_value_of(entries, key);
    lemma_without_absent(entries, key);
    if 0 < entries.len() == capacity {
        assert(entries.push((key, value)).drop_first() =~= entries.remove(0).push((key, value)));
    }
}

} // verus!
