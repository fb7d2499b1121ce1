//! The choice of the transactions for the next block.

use crate::caches::{lru_capacity, lru_entries, lru_get, refreshed, value_of};
use crate::types::{AccountAddress, TxnPointer};
use lru_cache::LruCache;
use std::collections::BTreeSet;
use vstd::prelude::*;

verus! {

broadcast use {vstd::laws_cmp::group_laws_cmp, vstd::std_specs::btree::group_btree_axioms};

/// Where the choice stands after a part of the queue.
#[verifier::ext_equal]
pub struct Selection {
    /// What goes into the block, in order.
    pub picked: Seq<TxnPointer>,
    /// What was met in the queue before it could go in.
    pub skipped: Set<TxnPointer>,
    /// The entries of the cache of sequence numbers, least recently used first.
    pub entries: Seq<(AccountAddress, u64)>,
}

/// Whether a block of `batch_size` transactions is complete.
pub open spec fn is_full(picked: Seq<TxnPointer>, batch_size: u64) -> bool {
    picked.len() >= batch_size
}

/// The transaction after `txn` of the same sender.
pub open spec fn successor(txn: TxnPointer) -> TxnPointer {
    (txn.0, (txn.1 + 1) as u64)
}

/// The transaction before `txn` of the same sender.
pub open spec fn predecessor(txn: TxnPointer) -> TxnPointer {
    (txn.0, (txn.1 - 1) as u64)
}

/// Whether the transaction before `txn` has gone to consensus: it was `seen` or is `picked`.
pub open spec fn follows(txn: TxnPointer, seen: Set<TxnPointer>, picked: Seq<TxnPointer>) -> bool {
    txn.1 > 0 && (seen.contains(predecessor(txn)) || picked.contains(predecessor(txn)))
}

/// `picked`, which ends with `txn`, with those that were skipped and come right after it.
pub open spec fn with_followers(
    picked: Seq<TxnPointer>,
    skipped: Set<TxnPointer>,
    txn: TxnPointer,
    batch_size: u64,
) -> Seq<TxnPointer>
    decreases u64::MAX - txn.1,
{
    if is_full(picked, batch_size) || txn.1 == u64::MAX || !skipped.contains(successor(txn)) {
        picked
    } else {
        with_followers(picked.push(successor(txn)), skipped, successor(txn), batch_size)
    }
}

impl Selection {
    /// The choice before the first transaction of the queue.
    pub open spec fn start(entries: Seq<(AccountAddress, u64)>) -> Selection {
        Selection { picked: Seq::empty(), skipped: Set::empty(), entries }
    }

    /// The choice after `txn`, the next transaction of the queue: it is passed over if it was
    /// seen or picked before, goes in if it is the next one of its sender or its predecessor has
    /// gone to consensus, and waits for its predecessor otherwise.
    pub open spec fn step(self, txn: TxnPointer, seen: Set<TxnPointer>, batch_size: u64) -> Selection {
        if is_full(self.picked, batch_size) || seen.contains(txn) || self.picked.contains(txn) {
            self
        } else {
            let entries = refreshed(self.entries, txn.0);
            if follows(txn, seen, self.picked) || value_of(self.entries, txn.0) == Some(txn.1) {
                Selection {
                    picked: with_followers(
                        self.picked.push(txn),
                        self.skipped,
                        txn,
                        batch_size,
                    ),
                    skipped: self.skipped,
                    entries,
                }
            } else {
                Selection { picked: self.picked, skipped: self.skipped.insert(txn), entries }
            }
        }
    }
}

/// The choice of at most `batch_size` transactions from `queue`, where `seen` have gone to
/// consensus before and `entries` are the cached sequence numbers.
pub open spec fn selection(
    queue: Seq<TxnPointer>,
    seen: Set<TxnPointer>,
    entries: Seq<(AccountAddress, u64)>,
    batch_size: u64,
) -> Selection
    decreases queue.len(),
{
    if queue.len() == 0 {
        Selection::start(entries)
    } else {
        selection(queue.drop_last(), seen, entries, batch_size).step(
            queue.last(),
            seen,
            batch_size,
        )
    }
}

/// A full block stays as it is for the rest of the queue.
pub proof fn lemma_full_is_final(
    queue: Seq<TxnPointer>,
    n: int,
    seen: Set<TxnPointer>,
    entries: Seq<(AccountAddress, u64)>,
    batch_size: u64,
)
    requires
        0 <= n <= queue.len(),
        is_full(selection(queue.take(n), seen, entries, batch_size).picked, batch_size),
    ensures
        selection(queue, seen, entries, batch_size) == selection(
            queue.take(n),
            seen,
            entries,
            batch_size,
        ),
    decreases queue.len() - n,
{
    if n == queue.len() {
        assert(queue.take(n) =~= queue);
    } else {
        assert(queue.take(n + 1).drop_last() =~= queue.take(n));
        lemma_full_is_final(queue, n + 1, seen, entries, batch_size);
    }
}

/// What a sequence contains after a push.
pub proof fn lemma_push_contains<A>(s: Seq<A>, x: A)
    ensures
        forall|y: A| #[trigger] s.push(x).contains(y) <==> s.contains(y) || y == x,
{
    assert forall|y: A| s.contains(y) || y == x implies #[trigger] s.push(x).contains(y) by {
        if s.contains(y) {
            let i = choose|i: int| 0 <= i < s.len() && s[i] == y;
            assert(s.push(x)[i] == y);
        } else {
            assert(s.push(x)[s.len() as int] == y);
        }
    }
}

/// Adds to `picked`, which ends with `first`, those of `skipped` that come right after it.
fn pick_followers(
    picked: &mut Vec<TxnPointer>,
    seen: &mut BTreeSet<TxnPointer>,
    skipped: &BTreeSet<TxnPointer>,
    first: TxnPointer,
    batch_size: u64,
)
    requires
        forall|txn: TxnPointer| old(picked)@.contains(txn) ==> #[trigger] old(seen)@.contains(txn),
    ensures
        final(picked)@ == with_followers(old(picked)@, skipped@, first, batch_size),
        forall|txn: TxnPointer| #[trigger]
            final(seen)@.contains(txn) <==> old(seen)@.contains(txn) || final(picked)@.contains(txn),
        forall|txn: TxnPointer| old(picked)@.contains(txn) ==> #[trigger] final(picked)@.contains(txn),
{
    let mut last: TxnPointer = first;
    while (picked.len() as u64) < batch_size && last.1 < u64::MAX && skipped.contains(
        &(last.0, last.1 + 1),
    )
        invariant
            with_followers(picked@, skipped@, last, batch_size) == with_followers(
                old(picked)@,
                skipped@,
                first,
                batch_size,
            ),
            forall|txn: TxnPointer| #[trigger]
                seen@.contains(txn) <==> old(seen)@.contains(txn) || picked@.contains(txn),
            forall|txn: TxnPointer| old(picked)@.contains(txn) ==> #[trigger] picked@.contains(txn),
        decreases u64::MAX - last.1,
    {
        last = (last.0, last.1 + 1);
        proof {
            lemma_push_contains(picked@, last);
        }
        seen.insert(last);
        picked.push(last);
    }
}

/// Chooses at most `batch_size` transactions from `queue` for the next block.
pub(crate) fn select_block(
    queue: &Vec<TxnPointer>,
    seen: BTreeSet<TxnPointer>,
    cache: &mut LruCache<AccountAddress, u64>,
    batch_size: u64,
) -> (picked: Vec<TxnPointer>)
    ensures
        picked@ == selection(queue@, seen@, lru_entries(*old(cache)), batch_size).picked,
        lru_entries(*final(cache)) == selection(
            queue@,
            seen@,
            lru_entries(*old(cache)),
            batch_size,
        ).entries,
        lru_capacity(*final(cache)) == lru_capacity(*old(cache)),
{
    let ghost entries = lru_entries(*cache);
    let ghost given = seen@;
    let mut seen = seen;
    let mut picked: Vec<TxnPointer> = Vec::new();
    // A sender may raise the gas price with each of its transactions. The later ones are then met
    // first, but cannot go in before the earlier ones: they wait here for their predecessors.
    let mut skipped: BTreeSet<TxnPointer> = BTreeSet::new();
    let mut i: usize = 0;
    assert(queue@.take(0) =~= Seq::<TxnPointer>::empty());
    while i < queue.len() && (picked.len() as u64) < batch_size
        invariant
            i <= queue@.len(),
            (Selection { picked: picked@, skipped: skipped@, entries: lru_entries(*cache) })
                == selection(queue@.take(i as int), given, entries, batch_size),
            lru_capacity(*cache) == lru_capacity(*old(cache)),
            forall|txn: TxnPointer| #[trigger]
                seen@.contains(txn) <==> given.contains(txn) || picked@.contains(txn),
        decreases queue@.len() - i,
    {
        let txn: TxnPointer = queue[i];
        proof {
            assert(queue@.take(i + 1).drop_last() =~= queue@.take(i as int));
            lemma_push_contains(picked@, txn);
        }
        if !seen.contains(&txn) {
            let account_sequence_number = lru_get(cache, &txn.0);
            let seen_previous = txn.1 > 0 && seen.contains(&(txn.0, txn.1 - 1));
            let is_next = match account_sequence_number {
                Some(sequence_number) => sequence_number == txn.1,
                None => false,
            };
            if seen_previous || is_next {
                seen.insert(txn);
                picked.push(txn);
                pick_followers(&mut picked, &mut seen, &skipped, txn, batch_size);
            } else {
                skipped.insert(txn);
            }
        }
        i += 1;
    }
    proof {
        if i < queue.len() {
            lemma_full_is_final(queue@, i as int, given, entries, batch_size);
        } else {
            assert(queue@.take(i as int) =~= queue@);
        }
    }
    picked
}

} // verus!
