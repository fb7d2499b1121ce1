//! The two bounded caches of the mempool, and what is trusted of the crates that provide them.

use crate::metrics::{MetricsEntry, METRICS_TTL_SECS};
use crate::types::{AccountAddress, TxnPointer};
use lru_cache::LruCache;
use std::hash::{BuildHasher, Hash};
use std::time::Duration;
use ttl_cache::TtlCache;
use vstd::prelude::*;

verus! {

// ---------------------------------------------------------------------------------------------
// The model: a cache is the sequence of its entries, oldest first.
// ---------------------------------------------------------------------------------------------

/// The value that `entries` holds for `key`.
pub open spec fn value_of<K, V>(entries: Seq<(K, V)>, key: K) -> Option<V>
    decreases entries.len(),
{
    if entries.len() == 0 {
        None
    } else if entries.last().0 == key {
        Some(entries.last().1)
    } else {
        value_of(entries.drop_last(), key)
    }
}

/// `entries` without the one for `key`.
pub open spec fn without<K, V>(entries: Seq<(K, V)>, key: K) -> Seq<(K, V)> {
    entries.filter(|entry: (K, V)| entry.0 != key)
}

/// `entries` with the one for `key`, if there is one, moved to the young end.
pub open spec fn refreshed<K, V>(entries: Seq<(K, V)>, key: K) -> Seq<(K, V)> {
    match value_of(entries, key) {
        Some(value) => without(entries, key).push((key, value)),
        None => entries,
    }
}

/// `entries` with `value` for `key` at the young end, and without the oldest entry where that
/// would make more than `capacity` of them.
pub open spec fn stored<K, V>(entries: Seq<(K, V)>, capacity: nat, key: K, value: V) -> Seq<
    (K, V),
> {
    let longer = without(entries, key).push((key, value));
    if longer.len() > capacity {
        longer.drop_first()
    } else {
        longer
    }
}

// ---------------------------------------------------------------------------------------------
// lru_cache
// ---------------------------------------------------------------------------------------------

/// `lru_cache::LruCache`, of which nothing is seen but through the two names below.
#[verifier::external_type_specification]
#[verifier::external_body]
#[verifier::reject_recursive_types(K)]
#[verifier::reject_recursive_types(V)]
#[verifier::reject_recursive_types(S)]
pub struct ExLruCache<K: Eq + Hash, V, S: BuildHasher>(LruCache<K, V, S>);

/// The entries of the cache, least recently used first.
pub uninterp spec fn lru_entries(cache: LruCache<AccountAddress, u64>) -> Seq<
    (AccountAddress, u64),
>;

/// The number of entries that the cache was made for.
pub uninterp spec fn lru_capacity(cache: LruCache<AccountAddress, u64>) -> nat;

/// `LruCache::new`: an empty cache for `capacity` entries.
#[verifier::external_body]
pub(crate) fn lru_new(capacity: usize) -> (cache: LruCache<AccountAddress, u64>)
    ensures
        lru_entries(cache) == Seq::<(AccountAddress, u64)>::empty(),
        lru_capacity(cache) == capacity,
{
    LruCache::new(capacity)
}

/// `LruCache::insert`: the entry becomes the most recently used one, the least recently used
/// entry is dropped if the cache then holds more than its capacity, and the value that the key
/// had before is returned.
#[verifier::external_body]
pub(crate) fn lru_insert(
    cache: &mut LruCache<AccountAddress, u64>,
    key: AccountAddress,
    value: u64,
) -> (previous: Option<u64>)
    ensures
        lru_entries(*final(cache)) == stored(
            lru_entries(*old(cache)),
            lru_capacity(*old(cache)),
            key,
            value,
        ),
        lru_capacity(*final(cache)) == lru_capacity(*old(cache)),
        previous == value_of(lru_entries(*old(cache)), key),
{
    cache.insert(key, value)
}

/// `LruCache::get_mut`, with the value copied out: the value of the key, whose entry becomes the
/// most recently used one.
#[verifier::external_body]
pub(crate) fn lru_get(cache: &mut LruCache<AccountAddress, u64>, key: &AccountAddress) -> (value:
    Option<u64>)
    ensures
        lru_entries(*final(cache)) == refreshed(lru_entries(*old(cache)), *key),
        lru_capacity(*final(cache)) == lru_capacity(*old(cache)),
        value == value_of(lru_entries(*old(cache)), *key),
{
    cache.get_mut(key).copied()
}

/// `LruCache::remove`: the entry of the key is taken out, and its value is returned.
#[verifier::external_body]
pub(crate) fn lru_remove(cache: &mut LruCache<AccountAddress, u64>, key: &AccountAddress) -> (value:
    Option<u64>)
    ensures
        lru_entries(*final(cache)) == without(lru_entries(*old(cache)), *key),
        lru_capacity(*final(cache)) == lru_capacity(*old(cache)),
        value == value_of(lru_entries(*old(cache)), *key),
{
    cache.remove(key)
}

// ---------------------------------------------------------------------------------------------
// ttl_cache
// ---------------------------------------------------------------------------------------------

/// `ttl_cache::TtlCache`, of which nothing is seen but through the two names below.
#[verifier::external_type_specification]
#[verifier::external_body]
#[verifier::reject_recursive_types(K)]
#[verifier::reject_recursive_types(V)]
#[verifier::reject_recursive_types(S)]
pub struct ExTtlCache<K: Eq + Hash, V, S: BuildHasher>(TtlCache<K, V, S>);

/// The entries that the cache stores, oldest first. An entry whose time to live is over is
/// stored until it is removed or pushed out; it is only no longer handed out.
pub uninterp spec fn ttl_entries(cache: TtlCache<TxnPointer, i64>) -> Seq<(TxnPointer, i64)>;

/// The number of entries that the cache was made for.
pub uninterp spec fn ttl_capacity(cache: TtlCache<TxnPointer, i64>) -> nat;

/// `TtlCache::new`: an empty cache for `capacity` entries.
#[verifier::external_body]
pub(crate) fn ttl_new(capacity: usize) -> (cache: TtlCache<TxnPointer, i64>)
    ensures
        ttl_entries(cache) == Seq::<(TxnPointer, i64)>::empty(),
        ttl_capacity(cache) == capacity,
{
    TtlCache::new(capacity)
}

/// `TtlCache::insert`: the entry becomes the youngest one, and the oldest entry is dropped if the
/// cache then stores more than its capacity. The value returned is the one that the key had
/// before; whether it is returned depends on the time, as does until when the new entry is
/// handed out: `ttl_secs` seconds from the call.
///
/// All entries get the same time to live, which is short enough for its end to be within what
/// `std::time::Instant` can hold.
#[verifier::external_body]
pub(crate) fn ttl_insert(
    cache: &mut TtlCache<TxnPointer, i64>,
    entry: MetricsEntry,
) -> (previous: Option<i64>)
    requires
        entry.ttl_secs == METRICS_TTL_SECS,
    ensures
        ttl_entries(*final(cache)) == stored(
            ttl_entries(*old(cache)),
            ttl_capacity(*old(cache)),
            entry.txn,
            entry.creation_time,
        ),
        ttl_capacity(*final(cache)) == ttl_capacity(*old(cache)),
        previous is Some ==> previous == value_of(ttl_entries(*old(cache)), entry.txn),
{
    cache.insert(entry.txn, entry.creation_time, Duration::from_secs(entry.ttl_secs))
}

/// `TtlCache::get`, with the value copied out: the stored value of the key, unless its time to
/// live is over.
#[verifier::external_body]
pub(crate) fn ttl_get(cache: &TtlCache<TxnPointer, i64>, key: &TxnPointer) -> (value: Option<i64>)
    ensures
        value is Some ==> value == value_of(ttl_entries(*cache), *key),
{
    cache.get(key).copied()
}

/// `TtlCache::remove`: the entry of the key is taken out. The value returned is the stored one;
/// whether it is returned depends on the time.
#[verifier::external_body]
pub(crate) fn ttl_remove(cache: &mut TtlCache<TxnPointer, i64>, key: &TxnPointer) -> (value: Option<
    i64,
>)
    ensures
        ttl_entries(*final(cache)) == without(ttl_entries(*old(cache)), *key),
        ttl_capacity(*final(cache)) == ttl_capacity(*old(cache)),
        value is Some ==> value == value_of(ttl_entries(*old(cache)), *key),
{
    cache.remove(key)
}

} // verus!
