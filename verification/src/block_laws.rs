//! What holds of every choice of transactions for a block.

use crate::block::{
    follows, is_full, lemma_push_contains, predecessor, selection, successor, with_followers,
    Selection,
};
use crate::cache_lemmas::{distinct_keys, lemma_refreshed};
use crate::caches::value_of;
use crate::model::MempoolView;
use crate::pool::{by_price, holds, is_queued, lookup, position, queue, queued, StoreView};
use crate::pool_lemmas::{lemma_filter_wf, lemma_position};
use crate::types::{AccountAddress, MempoolTransactionView, TxnPointer};
use vstd::prelude::*;

verus! {

/// Whether `txn` can go into a block at once: it is the next one of its sender, or its
/// predecessor went to consensus with an earlier block.
pub open spec fn goes_first(
    txn: TxnPointer,
    seen: Set<TxnPointer>,
    entries: Seq<(AccountAddress, u64)>,
) -> bool {
    value_of(entries, txn.0) == Some(txn.1) || (txn.1 > 0 && seen.contains(predecessor(txn)))
}

/// Whether `txn` can be the first of a block.
pub open spec fn is_eligible(
    txn: TxnPointer,
    seen: Set<TxnPointer>,
    entries: Seq<(AccountAddress, u64)>,
) -> bool {
    !seen.contains(txn) && goes_first(txn, seen, entries)
}

/// Whether `picked[i]` comes behind its predecessor in the block.
pub open spec fn comes_behind_predecessor(picked: Seq<TxnPointer>, i: int) -> bool {
    picked[i].1 > 0 && exists|j: int| 0 <= j < i && #[trigger] picked[j] == predecessor(picked[i])
}

/// Whether `a` stands before `b` in `queue`.
pub open spec fn stands_before(queue: Seq<TxnPointer>, a: TxnPointer, b: TxnPointer) -> bool {
    exists|m: int, n: int|
        0 <= m < n < queue.len() && #[trigger] queue[m] == a && #[trigger] queue[n] == b
}

/// What is kept while the queue is walked.
spec fn selection_inv(
    queue: Seq<TxnPointer>,
    seen: Set<TxnPointer>,
    entries: Seq<(AccountAddress, u64)>,
    batch_size: u64,
    sel: Selection,
) -> bool {
    let picked = sel.picked;
    &&& picked.len() <= batch_size
    &&& forall|key: AccountAddress| #[trigger]
        value_of(sel.entries, key) == value_of(entries, key)
    &&& forall|i: int|
        0 <= i < picked.len() ==> queue.contains(#[trigger] picked[i]) && !seen.contains(picked[i])
    &&& forall|i: int|
        0 <= i < picked.len() ==> goes_first(#[trigger] picked[i], seen, entries)
            || comes_behind_predecessor(picked, i)
    &&& forall|txn: TxnPointer| #[trigger]
        sel.skipped.contains(txn) ==> queue.contains(txn) && !seen.contains(txn) && !goes_first(
            txn,
            seen,
            entries,
        )
    &&& forall|txn: TxnPointer| #[trigger]
        sel.skipped.contains(txn) && picked.contains(txn) ==> picked.contains(predecessor(txn))
    &&& !is_full(picked, batch_size) ==> forall|txn: TxnPointer| #[trigger]
        queue.contains(txn) && !seen.contains(txn) && !picked.contains(txn) ==> {
            &&& sel.skipped.contains(txn)
            &&& !follows(txn, seen, picked)
        }
    &&& queue.no_duplicates() ==> picked.no_duplicates()
    &&& queue.no_duplicates() ==> forall|i: int, j: int|
        #![trigger picked[i], picked[j]]
        0 <= i < j < picked.len() && goes_first(picked[j], seen, entries) ==> stands_before(
            queue,
            picked[i],
            picked[j],
        )
    &&& queue.no_duplicates() ==> forall|txn: TxnPointer, i: int|
        #![trigger queue.contains(txn), picked[i]]
        0 <= i < picked.len() && queue.contains(txn) && !picked.contains(txn) && is_eligible(
            txn,
            seen,
            entries,
        ) ==> stands_before(queue, picked[i], txn)
}

/// The followers of `txn` are a run of consecutive sequence numbers.
pub proof fn lemma_with_followers(
    picked: Seq<TxnPointer>,
    skipped: Set<TxnPointer>,
    txn: TxnPointer,
    batch_size: u64,
)
    requires
        picked.len() > 0,
        picked.last() == txn,
        picked.len() <= batch_size,
    ensures
        ({
            let all = with_followers(picked, skipped, txn, batch_size);
            &&& all.len() >= picked.len()
            &&& all.len() <= batch_size
            &&& forall|i: int| 0 <= i < picked.len() ==> #[trigger] all[i] == picked[i]
            &&& forall|i: int|
                picked.len() <= i < all.len() ==> {
                    &&& skipped.contains(#[trigger] all[i])
                    &&& all[i].0 == txn.0
                    &&& all[i].1 == txn.1 + (i - picked.len() + 1)
                }
            &&& !is_full(all, batch_size) ==> all.last().1 == u64::MAX || !skipped.contains(
                successor(all.last()),
            )
        }),
    decreases u64::MAX - txn.1,
{
    if is_full(picked, batch_size) || txn.1 == u64::MAX || !skipped.contains(successor(txn)) {
    } else {
        let longer = picked.push(successor(txn));
        lemma_with_followers(longer, skipped, successor(txn), batch_size);
        let all = with_followers(longer, skipped, successor(txn), batch_size);
        assert forall|i: int| 0 <= i < picked.len() implies #[trigger] all[i] == picked[i] by {
            assert(longer[i] == picked[i]);
        }
        assert(all[picked.len() as int] == longer[picked.len() as int]);
    }
}

/// None of the followers of `txn` was picked before it.
proof fn lemma_followers_are_new(
    before: Seq<TxnPointer>,
    skipped: Set<TxnPointer>,
    txn: TxnPointer,
    all: Seq<TxnPointer>,
    i: int,
)
    requires
        !before.contains(txn),
        before.len() < i < all.len(),
        all[before.len() as int] == txn,
        forall|k: int|
            before.len() < k < all.len() ==> {
                &&& skipped.contains(#[trigger] all[k])
                &&& all[k].0 == txn.0
                &&& all[k].1 == txn.1 + (k - before.len())
            },
        forall|q: TxnPointer| #[trigger]
            skipped.contains(q) && before.contains(q) ==> before.contains(predecessor(q)),
    ensures
        !before.contains(all[i]),
    decreases i,
{
    assert(predecessor(all[i]) == all[i - 1]);
    if i - 1 > before.len() {
        lemma_followers_are_new(before, skipped, txn, all, i - 1);
    }
    assert(skipped.contains(all[i]));
}

/// The next transaction of the queue keeps the invariant.
proof fn lemma_step_inv(
    queue: Seq<TxnPointer>,
    seen: Set<TxnPointer>,
    entries: Seq<(AccountAddress, u64)>,
    batch_size: u64,
    sel: Selection,
    txn: TxnPointer,
)
    requires
        selection_inv(queue, seen, entries, batch_size, sel),
    ensures
        selection_inv(
            queue.push(txn),
            seen,
            entries,
            batch_size,
            sel.step(txn, seen, batch_size),
        ),
{
    let longer = queue.push(txn);
    let next = sel.step(txn, seen, batch_size);
    lemma_push_contains(queue, txn);
    lemma_refreshed(sel.entries, txn.0);
    if longer.no_duplicates() {
        assert(queue.no_duplicates()) by {
            assert forall|i: int, j: int|
                0 <= i < queue.len() && 0 <= j < queue.len() && i != j implies queue[i]
                != queue[j] by {
                assert(longer[i] == queue[i] && longer[j] == queue[j]);
            }
        }
        assert(!queue.contains(txn)) by {
            if queue.contains(txn) {
                let k = choose|k: int| 0 <= k < queue.len() && queue[k] == txn;
                assert(longer[k] == longer[queue.len() as int]);
            }
        }
        assert forall|a: TxnPointer, b: TxnPointer| #[trigger]
            stands_before(queue, a, b) implies stands_before(longer, a, b) by {
            let (m, n) = choose|m: int, n: int|
                0 <= m < n < queue.len() && #[trigger] queue[m] == a && #[trigger] queue[n] == b;
            assert(longer[m] == a && longer[n] == b);
        }
    }
    if is_full(sel.picked, batch_size) || seen.contains(txn) || sel.picked.contains(txn) {
        if longer.no_duplicates() {
            assert forall|q: TxnPointer, i: int|
                #![trigger longer.contains(q), sel.picked[i]]
                0 <= i < sel.picked.len() && longer.contains(q) && !sel.picked.contains(q)
                    && is_eligible(q, seen, entries) implies stands_before(
                longer,
                sel.picked[i],
                q,
            ) by {
                assert(queue.contains(sel.picked[i]));
                if q == txn {
                    let m = choose|m: int| 0 <= m < queue.len() && queue[m] == sel.picked[i];
                    assert(longer[m] == sel.picked[i]);
                    assert(longer[queue.len() as int] == txn);
                } else {
                    assert(queue.contains(q));
                    assert(stands_before(queue, sel.picked[i], q));
                }
            }
        }
        assert(selection_inv(longer, seen, entries, batch_size, next));
    } else if follows(txn, seen, sel.picked) || value_of(sel.entries, txn.0) == Some(txn.1) {
        lemma_step_picks(queue, seen, entries, batch_size, sel, txn);
    } else {
        assert(selection_inv(longer, seen, entries, batch_size, next));
    }
}

/// The next transaction of the queue keeps the invariant where it goes into the block.
proof fn lemma_step_picks(
    queue: Seq<TxnPointer>,
    seen: Set<TxnPointer>,
    entries: Seq<(AccountAddress, u64)>,
    batch_size: u64,
    sel: Selection,
    txn: TxnPointer,
)
    requires
        selection_inv(queue, seen, entries, batch_size, sel),
        !is_full(sel.picked, batch_size),
        !seen.contains(txn),
        !sel.picked.contains(txn),
        follows(txn, seen, sel.picked) || value_of(sel.entries, txn.0) == Some(txn.1),
        queue.push(txn).no_duplicates() ==> queue.no_duplicates() && !queue.contains(txn),
        queue.push(txn).no_duplicates() ==> forall|a: TxnPointer, b: TxnPointer| #[trigger]
            stands_before(queue, a, b) ==> stands_before(queue.push(txn), a, b),
    ensures
        selection_inv(
            queue.push(txn),
            seen,
            entries,
            batch_size,
            sel.step(txn, seen, batch_size),
        ),
{
    let longer = queue.push(txn);
    let next = sel.step(txn, seen, batch_size);
    let before = sel.picked;
    let all = next.picked;
    lemma_push_contains(queue, txn);
    lemma_push_contains(before, txn);
    lemma_refreshed(sel.entries, txn.0);
    lemma_with_followers(before.push(txn), sel.skipped, txn, batch_size);
    let n = before.len() as int;
    assert(forall|i: int| 0 <= i < n ==> #[trigger] all[i] == before.push(txn)[i]);
    assert(all[n] == before.push(txn)[n]);
    assert forall|i: int| n < i < all.len() implies !before.contains(#[trigger] all[i]) by {
        lemma_followers_are_new(before, sel.skipped, txn, all, i);
    }
    assert forall|i: int| 0 <= i < all.len() implies longer.contains(#[trigger] all[i])
        && !seen.contains(all[i]) by {
        if i < n {
            assert(all[i] == before[i]);
        }
    }
    assert forall|i: int| 0 <= i < all.len() implies goes_first(#[trigger] all[i], seen, entries)
        || comes_behind_predecessor(all, i) by {
        if i < n {
            assert(all[i] == before[i]);
            if !goes_first(before[i], seen, entries) {
                let j = choose|j: int|
                    0 <= j < i && #[trigger] before[j] == predecessor(before[i]);
                assert(all[j] == predecessor(all[i]));
            }
        } else if i == n {
            if !goes_first(txn, seen, entries) {
                let j = choose|j: int| 0 <= j < n && before[j] == predecessor(txn);
                assert(all[j] == predecessor(all[i]));
            }
        } else {
            assert(all[i - 1] == predecessor(all[i]));
        }
    }
    assert forall|q: TxnPointer| #[trigger]
        next.skipped.contains(q) && all.contains(q) implies all.contains(predecessor(q)) by {
        let i = choose|i: int| 0 <= i < all.len() && all[i] == q;
        assert(!goes_first(q, seen, entries));
        assert(comes_behind_predecessor(all, i));
    }
    if !is_full(all, batch_size) {
        assert forall|q: TxnPointer| #[trigger]
            longer.contains(q) && !seen.contains(q) && !all.contains(q) implies {
            &&& next.skipped.contains(q)
            &&& !follows(q, seen, all)
        } by {
            assert(all[n] == txn);
            assert(q != txn);
            assert(!before.contains(q)) by {
                if before.contains(q) {
                    let k = choose|k: int| 0 <= k < before.len() && before[k] == q;
                    assert(all[k] == q);
                }
            }
            assert(queue.contains(q));
            if follows(q, seen, all) {
                let k = choose|k: int| 0 <= k < all.len() && all[k] == predecessor(q);
                if k < n {
                    assert(before[k] == predecessor(q));
                } else if k < all.len() - 1 {
                    assert(all[k + 1] == q);
                } else {
                    assert(successor(all.last()) == q);
                }
            }
        }
    }
    if longer.no_duplicates() {
        assert forall|i: int, j: int|
            0 <= i < all.len() && 0 <= j < all.len() && i != j implies all[i] != all[j] by {
            if i < n && j < n {
                assert(all[i] == before[i] && all[j] == before[j]);
            } else if i < n {
                assert(all[i] == before[i]);
                assert(!before.contains(all[j]));
            } else if j < n {
                assert(all[j] == before[j]);
                assert(!before.contains(all[i]));
            }
        }
        assert forall|i: int, j: int|
            #![trigger all[i], all[j]]
            0 <= i < j < all.len() && goes_first(all[j], seen, entries) implies stands_before(
            longer,
            all[i],
            all[j],
        ) by {
            if j < n {
                assert(all[i] == before[i] && all[j] == before[j]);
                assert(stands_before(queue, before[i], before[j]));
            } else if j == n {
                assert(all[i] == before[i]);
                let m = choose|m: int| 0 <= m < queue.len() && queue[m] == before[i];
                assert(longer[m] == all[i]);
                assert(longer[queue.len() as int] == txn);
            }
        }
        // The block was not full before, so that none of the queue that could go in was left out.
        assert forall|q: TxnPointer| #[trigger]
            longer.contains(q) && !all.contains(q) implies !is_eligible(q, seen, entries) by {
            assert(all[n] == txn);
            assert(q != txn);
            assert(!before.contains(q)) by {
                if before.contains(q) {
                    let k = choose|k: int| 0 <= k < before.len() && before[k] == q;
                    assert(all[k] == q);
                }
            }
            assert(queue.contains(q));
            if !seen.contains(q) {
                assert(queue.contains(q) && !seen.contains(q) && !before.contains(q));
                assert(sel.skipped.contains(q));
            }
        }
    }
}

/// The invariant holds of the choice from any queue.
proof fn lemma_selection_inv(
    queue: Seq<TxnPointer>,
    seen: Set<TxnPointer>,
    entries: Seq<(AccountAddress, u64)>,
    batch_size: u64,
)
    ensures
        selection_inv(
            queue,
            seen,
            entries,
            batch_size,
            selection(queue, seen, entries, batch_size),
        ),
    decreases queue.len(),
{
    if queue.len() > 0 {
        let rest = queue.drop_last();
        lemma_selection_inv(rest, seen, entries, batch_size);
        lemma_step_inv(
            rest,
            seen,
            entries,
            batch_size,
            selection(rest, seen, entries, batch_size),
            queue.last(),
        );
        assert(rest.push(queue.last()) =~= queue);
    }
}

/// What is chosen comes from the queue.
pub proof fn lemma_picks_of_queue(
    queue: Seq<TxnPointer>,
    seen: Set<TxnPointer>,
    entries: Seq<(AccountAddress, u64)>,
    batch_size: u64,
    n: int,
)
    requires
        0 <= n < selection(queue, seen, entries, batch_size).picked.len(),
    ensures
        queue.contains(selection(queue, seen, entries, batch_size).picked[n]),
        selection(queue, seen, entries, batch_size).picked.len() <= batch_size,
{
    lemma_selection_inv(queue, seen, entries, batch_size);
}

/// The queue lists pooled transactions, each once, in the order of the pool.
pub proof fn lemma_queue(store: StoreView)
    requires
        store.wf(),
    ensures
        queue(store.pool).no_duplicates(),
        queue(store.pool).len() == queued(store.pool).len(),
        by_price(queued(store.pool)),
        forall|i: int|
            0 <= i < queue(store.pool).len() ==> {
                &&& #[trigger] queue(store.pool)[i] == queued(store.pool)[i].pointer()
                &&& queued(store.pool)[i].ready
                &&& holds(store.pool, queue(store.pool)[i])
                &&& lookup(store.pool, queue(store.pool)[i]) == Some(queued(store.pool)[i])
            },
        forall|pointer: TxnPointer|
            holds(store.pool, pointer) && lookup(store.pool, pointer)->0.ready ==> #[trigger] queue(
                store.pool,
            ).contains(pointer),
{
    let pool = store.pool;
    let ready = queued(pool);
    lemma_filter_wf(store, |t: MempoolTransactionView| t.ready);
    assert forall|i: int| 0 <= i < queue(pool).len() implies {
        &&& #[trigger] queue(pool)[i] == ready[i].pointer()
        &&& ready[i].ready
        &&& holds(pool, queue(pool)[i])
        &&& lookup(pool, queue(pool)[i]) == Some(ready[i])
    } by {
        let k = choose|k: int| 0 <= k < pool.len() && pool[k] == ready[i];
        lemma_position(pool, k);
    }
    assert forall|i: int, j: int|
        0 <= i < queue(pool).len() && 0 <= j < queue(pool).len() && i != j implies queue(pool)[i]
        != queue(pool)[j] by {
        if i < j {
            assert(ready[i].pointer() != ready[j].pointer());
        } else {
            assert(ready[j].pointer() != ready[i].pointer());
        }
    }
    assert forall|pointer: TxnPointer|
        holds(pool, pointer) && lookup(pool, pointer)->0.ready implies #[trigger] queue(
        pool,
    ).contains(pointer) by {
        let k = position(pool, pointer);
        assert(pool[k].is_at(pointer));
        assert(pool.contains(pool[k]));
        assert(ready.contains(pool[k]));
        let i = choose|i: int| 0 <= i < ready.len() && ready[i] == pool[k];
        assert(queue(pool)[i] == pointer);
    }
}

/// What goes into a block is in the pool, and the block leaves the invariant alone.
pub proof fn lemma_block(mempool: MempoolView, batch_size: u64, seen: Set<TxnPointer>)
    requires
        mempool.wf(),
    ensures
        forall|i: int|
            0 <= i < mempool.selection(batch_size, seen).picked.len() ==> holds(
                mempool.store.pool,
                #[trigger] mempool.selection(batch_size, seen).picked[i],
            ),
        mempool.get_block(batch_size, seen).wf(),
{
    let queue = queue(mempool.store.pool);
    lemma_queue(mempool.store);
    lemma_selection_inv(queue, seen, mempool.sequence_numbers, batch_size);
    lemma_selection_entries(queue, seen, mempool.sequence_numbers, batch_size);
    assert forall|i: int| 0 <= i < mempool.selection(batch_size, seen).picked.len() implies holds(
        mempool.store.pool,
        #[trigger] mempool.selection(batch_size, seen).picked[i],
    ) by {
        let k = choose|k: int|
            0 <= k < queue.len() && queue[k] == mempool.selection(batch_size, seen).picked[i];
        assert(holds(mempool.store.pool, queue[k]));
    }
}

/// The choice only reorders the entries of the cache.
pub proof fn lemma_selection_entries(
    queue: Seq<TxnPointer>,
    seen: Set<TxnPointer>,
    entries: Seq<(AccountAddress, u64)>,
    batch_size: u64,
)
    requires
        distinct_keys(entries),
    ensures
        distinct_keys(selection(queue, seen, entries, batch_size).entries),
        selection(queue, seen, entries, batch_size).entries.len() <= entries.len(),
    decreases queue.len(),
{
    if queue.len() > 0 {
        let sel = selection(queue.drop_last(), seen, entries, batch_size);
        lemma_selection_entries(queue.drop_last(), seen, entries, batch_size);
        lemma_refreshed(sel.entries, queue.last().0);
    }
}

// ---------------------------------------------------------------------------------------------
// The laws
// ---------------------------------------------------------------------------------------------

/// A block holds at most as many transactions as were asked for.
pub proof fn law_block_size(mempool: MempoolView, batch_size: u64, seen: Set<TxnPointer>)
    ensures
        mempool.block(batch_size, seen).len() <= batch_size,
{
    lemma_selection_inv(queue(mempool.store.pool), seen, mempool.sequence_numbers, batch_size);
}

/// Each transaction of a block is a queued transaction of the mempool, as the mempool holds it.
pub proof fn law_block_holds_queued_transactions(
    mempool: MempoolView,
    batch_size: u64,
    seen: Set<TxnPointer>,
    i: int,
)
    requires
        mempool.wf(),
        0 <= i < mempool.block(batch_size, seen).len(),
    ensures
        ({
            let t = mempool.block(batch_size, seen)[i];
            &&& mempool.picks(batch_size, seen)[i] == t.pointer()
            &&& holds(mempool.store.pool, t.pointer())
            &&& lookup(mempool.store.pool, t.pointer())->0.txn == t
            &&& lookup(mempool.store.pool, t.pointer())->0.ready
        }),
{
    let queue = queue(mempool.store.pool);
    lemma_queue(mempool.store);
    lemma_selection_inv(queue, seen, mempool.sequence_numbers, batch_size);
    let pointer = mempool.picks(batch_size, seen)[i];
    assert(queue.contains(pointer));
    let k = choose|k: int| 0 <= k < queue.len() && queue[k] == pointer;
    assert(holds(mempool.store.pool, queue[k]));
}

/// What consensus has seen is left out of a block.
pub proof fn law_block_leaves_out_seen(
    mempool: MempoolView,
    batch_size: u64,
    seen: Set<TxnPointer>,
    i: int,
)
    requires
        mempool.wf(),
        0 <= i < mempool.block(batch_size, seen).len(),
    ensures
        !seen.contains(mempool.block(batch_size, seen)[i].pointer()),
{
    law_block_holds_queued_transactions(mempool, batch_size, seen, i);
    lemma_selection_inv(queue(mempool.store.pool), seen, mempool.sequence_numbers, batch_size);
    assert(!seen.contains(mempool.picks(batch_size, seen)[i]));
}

/// No transaction is twice in a block.
pub proof fn law_block_has_no_duplicates(
    mempool: MempoolView,
    batch_size: u64,
    seen: Set<TxnPointer>,
    i: int,
    j: int,
)
    requires
        mempool.wf(),
        0 <= i < j < mempool.block(batch_size, seen).len(),
    ensures
        mempool.block(batch_size, seen)[i].pointer() != mempool.block(
            batch_size,
            seen,
        )[j].pointer(),
{
    law_block_holds_queued_transactions(mempool, batch_size, seen, i);
    law_block_holds_queued_transactions(mempool, batch_size, seen, j);
    lemma_queue(mempool.store);
    lemma_selection_inv(queue(mempool.store.pool), seen, mempool.sequence_numbers, batch_size);
}

/// A block can be executed in its order: each transaction is the next one of its sender, or its
/// predecessor went to consensus before, or stands before it in the block.
pub proof fn law_block_is_executable(
    mempool: MempoolView,
    batch_size: u64,
    seen: Set<TxnPointer>,
    i: int,
)
    requires
        mempool.wf(),
        0 <= i < mempool.block(batch_size, seen).len(),
    ensures
        ({
            let block = mempool.block(batch_size, seen);
            ||| goes_first(block[i].pointer(), seen, mempool.sequence_numbers)
            ||| block[i].sequence_number > 0 && exists|j: int|
                0 <= j < i && (#[trigger] block[j]).pointer() == predecessor(block[i].pointer())
        }),
{
    let block = mempool.block(batch_size, seen);
    let picks = mempool.picks(batch_size, seen);
    lemma_selection_inv(queue(mempool.store.pool), seen, mempool.sequence_numbers, batch_size);
    law_block_holds_queued_transactions(mempool, batch_size, seen, i);
    if !goes_first(picks[i], seen, mempool.sequence_numbers) {
        assert(comes_behind_predecessor(picks, i));
        let j = choose|j: int| 0 <= j < i && #[trigger] picks[j] == predecessor(picks[i]);
        law_block_holds_queued_transactions(mempool, batch_size, seen, j);
        assert(block[j].pointer() == predecessor(block[i].pointer()));
    }
}

/// A block that could take more leaves nothing out: a queued transaction that consensus has not
/// seen and that is not in the block is neither the next one of its sender, nor did its
/// predecessor go to consensus before or with this block.
pub proof fn law_block_is_complete(
    mempool: MempoolView,
    batch_size: u64,
    seen: Set<TxnPointer>,
    pointer: TxnPointer,
)
    requires
        mempool.wf(),
        mempool.block(batch_size, seen).len() < batch_size,
        holds(mempool.store.pool, pointer),
        lookup(mempool.store.pool, pointer)->0.ready,
        !seen.contains(pointer),
        !mempool.picks(batch_size, seen).contains(pointer),
    ensures
        !goes_first(pointer, seen, mempool.sequence_numbers),
        !follows(pointer, seen, mempool.picks(batch_size, seen)),
{
    let queue = queue(mempool.store.pool);
    lemma_queue(mempool.store);
    lemma_selection_inv(queue, seen, mempool.sequence_numbers, batch_size);
    assert(queue.contains(pointer));
}

/// A block lists the transactions of a sender in the order of their sequence numbers, from each
/// one on that can go in at once up to the next such.
pub proof fn law_block_keeps_sender_order(
    mempool: MempoolView,
    batch_size: u64,
    seen: Set<TxnPointer>,
    i: int,
    j: int,
)
    requires
        mempool.wf(),
        0 <= i < mempool.block(batch_size, seen).len(),
        0 <= j < mempool.block(batch_size, seen).len(),
        mempool.block(batch_size, seen)[i].sender == mempool.block(batch_size, seen)[j].sender,
        mempool.block(batch_size, seen)[i].sequence_number < mempool.block(
            batch_size,
            seen,
        )[j].sequence_number,
        forall|n: u64|
            mempool.block(batch_size, seen)[i].sequence_number < n <= mempool.block(
                batch_size,
                seen,
            )[j].sequence_number ==> !#[trigger] goes_first(
                (mempool.block(batch_size, seen)[j].sender, n),
                seen,
                mempool.sequence_numbers,
            ),
    ensures
        i < j,
    decreases mempool.block(batch_size, seen)[j].sequence_number,
{
    let block = mempool.block(batch_size, seen);
    law_block_is_executable(mempool, batch_size, seen, j);
    assert(!goes_first(
        (block[j].sender, block[j].sequence_number),
        seen,
        mempool.sequence_numbers,
    ));
    let k = choose|k: int|
        0 <= k < j && (#[trigger] block[k]).pointer() == predecessor(block[j].pointer());
    if block[k].sequence_number == block[i].sequence_number {
        if i < k {
            law_block_has_no_duplicates(mempool, batch_size, seen, i, k);
        } else if k < i {
            law_block_has_no_duplicates(mempool, batch_size, seen, k, i);
        }
    } else {
        law_block_keeps_sender_order(mempool, batch_size, seen, i, k);
    }
}

/// Whether what consensus has seen of each account has no gap behind the account's sequence number.
pub open spec fn is_gapless(seen: Set<TxnPointer>, entries: Seq<(AccountAddress, u64)>) -> bool {
    forall|txn: TxnPointer| #[trigger]
        seen.contains(txn) && value_of(entries, txn.0) is Some && txn.1 > value_of(entries, txn.0)->0
            ==> seen.contains(predecessor(txn))
}

/// Without a gap, what was seen goes back to the account's sequence number.
proof fn lemma_gapless(
    seen: Set<TxnPointer>,
    entries: Seq<(AccountAddress, u64)>,
    txn: TxnPointer,
    first: u64,
)
    requires
        is_gapless(seen, entries),
        seen.contains(txn),
        value_of(entries, txn.0) is Some,
        value_of(entries, txn.0)->0 <= first <= txn.1,
    ensures
        seen.contains((txn.0, first)),
    decreases txn.1,
{
    if first < txn.1 {
        lemma_gapless(seen, entries, predecessor(txn), first);
    }
}

/// Where consensus has not left out a transaction of an account, a block lists the transactions of
/// the account in the order of their sequence numbers, whatever they pay.
pub proof fn law_block_orders_each_account(
    mempool: MempoolView,
    batch_size: u64,
    seen: Set<TxnPointer>,
    i: int,
    j: int,
)
    requires
        mempool.wf(),
        is_gapless(seen, mempool.sequence_numbers),
        0 <= i < mempool.block(batch_size, seen).len(),
        0 <= j < mempool.block(batch_size, seen).len(),
        mempool.block(batch_size, seen)[i].sender == mempool.block(batch_size, seen)[j].sender,
        mempool.block(batch_size, seen)[i].sequence_number < mempool.block(
            batch_size,
            seen,
        )[j].sequence_number,
        ({
            let number = value_of(
                mempool.sequence_numbers,
                mempool.block(batch_size, seen)[i].sender,
            );
            number is Some && number->0 <= mempool.block(batch_size, seen)[i].sequence_number
        }),
    ensures
        i < j,
{
    let block = mempool.block(batch_size, seen);
    let first = block[i].sequence_number;
    assert forall|n: u64| first < n <= block[j].sequence_number implies !#[trigger] goes_first(
        (block[j].sender, n),
        seen,
        mempool.sequence_numbers,
    ) by {
        if seen.contains(predecessor((block[j].sender, n))) {
            lemma_gapless(
                seen,
                mempool.sequence_numbers,
                predecessor((block[j].sender, n)),
                first,
            );
            law_block_leaves_out_seen(mempool, batch_size, seen, i);
        }
    }
    law_block_keeps_sender_order(mempool, batch_size, seen, i, j);
}

/// Who pays more goes first: a transaction that can go in at once never stands behind one that
/// pays less.
pub proof fn law_block_prefers_price(
    mempool: MempoolView,
    batch_size: u64,
    seen: Set<TxnPointer>,
    i: int,
    j: int,
)
    requires
        mempool.wf(),
        0 <= i < j < mempool.block(batch_size, seen).len(),
        goes_first(
            mempool.block(batch_size, seen)[j].pointer(),
            seen,
            mempool.sequence_numbers,
        ),
    ensures
        mempool.block(batch_size, seen)[i].gas_unit_price >= mempool.block(
            batch_size,
            seen,
        )[j].gas_unit_price,
{
    let queue = queue(mempool.store.pool);
    let picks = mempool.picks(batch_size, seen);
    lemma_queue(mempool.store);
    lemma_selection_inv(queue, seen, mempool.sequence_numbers, batch_size);
    law_block_holds_queued_transactions(mempool, batch_size, seen, i);
    law_block_holds_queued_transactions(mempool, batch_size, seen, j);
    assert(stands_before(queue, picks[i], picks[j]));
    let (m, n) = choose|m: int, n: int|
        0 <= m < n < queue.len() && #[trigger] queue[m] == picks[i] && #[trigger] queue[n]
            == picks[j];
    let ready = queued(mempool.store.pool);
    assert(ready[m].txn.gas_unit_price >= ready[n].txn.gas_unit_price);
}

/// Nothing that pays more is left out: a queued transaction that could go in at once and is not in
/// the block pays no more than any that is.
pub proof fn law_block_leaves_out_none_that_pays_more(
    mempool: MempoolView,
    batch_size: u64,
    seen: Set<TxnPointer>,
    pointer: TxnPointer,
    i: int,
)
    requires
        mempool.wf(),
        0 <= i < mempool.block(batch_size, seen).len(),
        is_queued(mempool.store, pointer),
        !seen.contains(pointer),
        !mempool.picks(batch_size, seen).contains(pointer),
        goes_first(pointer, seen, mempool.sequence_numbers),
    ensures
        mempool.block(batch_size, seen)[i].gas_unit_price >= lookup(
            mempool.store.pool,
            pointer,
        )->0.txn.gas_unit_price,
{
    let queue = queue(mempool.store.pool);
    let picks = mempool.picks(batch_size, seen);
    lemma_queue(mempool.store);
    lemma_selection_inv(queue, seen, mempool.sequence_numbers, batch_size);
    law_block_holds_queued_transactions(mempool, batch_size, seen, i);
    assert(queue.contains(pointer));
    assert(stands_before(queue, picks[i], pointer));
    let (m, n) = choose|m: int, n: int|
        0 <= m < n < queue.len() && #[trigger] queue[m] == picks[i] && #[trigger] queue[n]
            == pointer;
    let ready = queued(mempool.store.pool);
    assert(ready[m].txn.gas_unit_price >= ready[n].txn.gas_unit_price);
}

/// The choice depends on the values of the cache, not on the order of its entries.
proof fn lemma_selection_by_values(
    queue: Seq<TxnPointer>,
    seen: Set<TxnPointer>,
    a: Seq<(AccountAddress, u64)>,
    b: Seq<(AccountAddress, u64)>,
    batch_size: u64,
)
    requires
        forall|key: AccountAddress| #[trigger] value_of(a, key) == value_of(b, key),
    ensures
        selection(queue, seen, a, batch_size).picked == selection(
            queue,
            seen,
            b,
            batch_size,
        ).picked,
        selection(queue, seen, a, batch_size).skipped == selection(
            queue,
            seen,
            b,
            batch_size,
        ).skipped,
    decreases queue.len(),
{
    if queue.len() > 0 {
        let rest = queue.drop_last();
        lemma_selection_by_values(rest, seen, a, b, batch_size);
        lemma_selection_inv(rest, seen, a, batch_size);
        lemma_selection_inv(rest, seen, b, batch_size);
        let account = queue.last().0;
        assert(value_of(selection(rest, seen, a, batch_size).entries, account) == value_of(
            a,
            account,
        ));
        assert(value_of(selection(rest, seen, b, batch_size).entries, account) == value_of(
            b,
            account,
        ));
    }
}

/// The mempool does not keep track of what it sends to consensus: forming a block changes neither
/// the transactions nor the known sequence numbers, and any block asked for afterwards is the one
/// that would have been formed before.
pub proof fn law_block_leaves_no_trace(
    mempool: MempoolView,
    batch_size: u64,
    seen: Set<TxnPointer>,
    later_batch_size: u64,
    later_seen: Set<TxnPointer>,
)
    ensures
        mempool.get_block(batch_size, seen).store == mempool.store,
        forall|account: AccountAddress| #[trigger]
            value_of(mempool.get_block(batch_size, seen).sequence_numbers, account) == value_of(
                mempool.sequence_numbers,
                account,
            ),
        mempool.get_block(batch_size, seen).block(later_batch_size, later_seen) == mempool.block(
            later_batch_size,
            later_seen,
        ),
{
    let queue = queue(mempool.store.pool);
    lemma_selection_inv(queue, seen, mempool.sequence_numbers, batch_size);
    lemma_selection_by_values(
        queue,
        later_seen,
        mempool.get_block(batch_size, seen).sequence_numbers,
        mempool.sequence_numbers,
        later_batch_size,
    );
}

// ---------------------------------------------------------------------------------------------
// One block after the other
// ---------------------------------------------------------------------------------------------

/// What consensus has seen once it has got `picked` too.
pub open spec fn seen_with(seen: Set<TxnPointer>, picked: Seq<TxnPointer>) -> Set<TxnPointer> {
    seen.union(picked.to_set())
}

/// The first transaction of the queue that can be the first of a block.
pub open spec fn first_eligible(
    queue: Seq<TxnPointer>,
    seen: Set<TxnPointer>,
    entries: Seq<(AccountAddress, u64)>,
) -> Option<TxnPointer>
    decreases queue.len(),
{
    if queue.len() == 0 {
        None
    } else if first_eligible(queue.drop_last(), seen, entries) is Some {
        first_eligible(queue.drop_last(), seen, entries)
    } else if is_eligible(queue.last(), seen, entries) {
        Some(queue.last())
    } else {
        None
    }
}

/// What the first eligible transaction is where there is only one, or none.
proof fn lemma_only_eligible(
    queue: Seq<TxnPointer>,
    seen: Set<TxnPointer>,
    entries: Seq<(AccountAddress, u64)>,
    only: Option<TxnPointer>,
)
    requires
        forall|txn: TxnPointer| #[trigger]
            queue.contains(txn) && is_eligible(txn, seen, entries) ==> only == Some(txn),
        only is Some ==> is_eligible(only->0, seen, entries),
    ensures
        first_eligible(queue, seen, entries) == if only is Some && queue.contains(only->0) {
            only
        } else {
            None
        },
    decreases queue.len(),
{
    if queue.len() > 0 {
        let rest = queue.drop_last();
        lemma_push_contains(rest, queue.last());
        assert(rest.push(queue.last()) =~= queue);
        assert(queue.contains(queue.last()));
        assert forall|txn: TxnPointer| #[trigger]
            rest.contains(txn) && is_eligible(txn, seen, entries) implies only == Some(txn) by {
            assert(queue.contains(txn));
        }
        lemma_only_eligible(rest, seen, entries, only);
    }
}

/// A block with room for one more gets at most the next follower.
proof fn lemma_one_more_follower(
    picked: Seq<TxnPointer>,
    skipped: Set<TxnPointer>,
    txn: TxnPointer,
    batch_size: u64,
)
    requires
        picked.len() > 0,
        picked.last() == txn,
        picked.len() <= batch_size < u64::MAX,
    ensures
        ({
            let all = with_followers(picked, skipped, txn, batch_size);
            let more = with_followers(picked, skipped, txn, (batch_size + 1) as u64);
            ||| more == all
            ||| {
                &&& all.len() == batch_size
                &&& all.last().1 < u64::MAX
                &&& skipped.contains(successor(all.last()))
                &&& more == all.push(successor(all.last()))
            }
        }),
    decreases u64::MAX - txn.1,
{
    if txn.1 == u64::MAX || !skipped.contains(successor(txn)) {
    } else if picked.len() == batch_size {
        let longer = picked.push(successor(txn));
        assert(with_followers(longer, skipped, successor(txn), (batch_size + 1) as u64) == longer);
    } else {
        lemma_one_more_follower(picked.push(successor(txn)), skipped, successor(txn), batch_size);
    }
}

/// The next transaction of the queue goes into a block that is not full, and into one with room for
/// one more: the larger block gets at most what can be the first of the block after the smaller.
proof fn lemma_one_more_picked(
    rest: Seq<TxnPointer>,
    seen: Set<TxnPointer>,
    entries: Seq<(AccountAddress, u64)>,
    batch_size: u64,
    txn: TxnPointer,
)
    requires
        rest.push(txn).no_duplicates(),
        batch_size < u64::MAX,
        ({
            let sel = selection(rest, seen, entries, batch_size);
            &&& sel == selection(rest, seen, entries, (batch_size + 1) as u64)
            &&& !is_full(sel.picked, batch_size)
            &&& !seen.contains(txn)
            &&& !sel.picked.contains(txn)
            &&& follows(txn, seen, sel.picked) || value_of(sel.entries, txn.0) == Some(txn.1)
        }),
    ensures
        ({
            let queue = rest.push(txn);
            let small = selection(queue, seen, entries, batch_size);
            let large = selection(queue, seen, entries, (batch_size + 1) as u64);
            &&& large.picked == match first_eligible(
                queue,
                seen_with(seen, small.picked),
                entries,
            ) {
                Some(next) => small.picked.push(next),
                None => small.picked,
            }
            &&& !is_full(small.picked, batch_size) ==> small == large
        }),
{
    let more_size = (batch_size + 1) as u64;
    let queue = rest.push(txn);
    assert(queue.drop_last() =~= rest);
    let sel = selection(rest, seen, entries, batch_size);
    let small = selection(queue, seen, entries, batch_size);
    let large = selection(queue, seen, entries, more_size);
    let before = sel.picked;
    let all = small.picked;
    let taken = seen_with(seen, all);
    lemma_selection_inv(rest, seen, entries, batch_size);
    lemma_selection_inv(queue, seen, entries, batch_size);
    lemma_selection_inv(queue, seen, entries, more_size);
    lemma_push_contains(rest, txn);
    lemma_with_followers(before.push(txn), sel.skipped, txn, batch_size);
    lemma_one_more_follower(before.push(txn), sel.skipped, txn, batch_size);
    assert(small == sel.step(txn, seen, batch_size));
    assert(large == sel.step(txn, seen, more_size));
    assert forall|k: int| 0 <= k < before.len() implies #[trigger] all[k] == before[k] by {
        assert(before.push(txn)[k] == before[k]);
    }
    assert(all[before.len() as int] == before.push(txn)[before.len() as int]);
    if large.picked == all {
        assert forall|q: TxnPointer| #[trigger] queue.contains(q) implies !is_eligible(
            q,
            taken,
            entries,
        ) by {
            if !taken.contains(q) {
                assert(queue.contains(q) && !seen.contains(q) && !large.picked.contains(q));
                assert(large.skipped.contains(q));
                assert(!follows(q, seen, large.picked));
            }
        }
        lemma_only_eligible(queue, taken, entries, None);
    } else {
        let next = successor(all.last());
        assert(large.picked == all.push(next));
        assert(sel.skipped.contains(next));
        assert(queue.contains(next));
        assert(!all.contains(next)) by {
            if all.contains(next) {
                let k = choose|k: int| 0 <= k < all.len() && all[k] == next;
                assert(large.picked[k] == large.picked[all.len() as int]);
            }
        }
        assert(predecessor(next) == all.last());
        assert(all.contains(all.last()));
        assert(is_eligible(next, taken, entries));
        assert forall|q: TxnPointer| #[trigger]
            queue.contains(q) && is_eligible(q, taken, entries) implies Some(next) == Some(q) by {
            assert(all.contains(txn)) by {
                assert(all[before.len() as int] == txn);
            }
            assert(q != txn);
            assert(!before.contains(q)) by {
                if before.contains(q) {
                    let k = choose|k: int| 0 <= k < before.len() && before[k] == q;
                    assert(all[k] == q);
                }
            }
            assert(rest.contains(q) && !seen.contains(q) && !before.contains(q));
            assert(sel.skipped.contains(q));
            assert(!follows(q, seen, before));
            assert(!goes_first(q, seen, entries));
            assert(all.contains(predecessor(q)));
            let k = choose|k: int| 0 <= k < all.len() && all[k] == predecessor(q);
            if k < before.len() {
                assert(before[k] == predecessor(q));
            } else if k < all.len() - 1 {
                assert(all[k + 1] == q);
            }
        }
        lemma_only_eligible(queue, taken, entries, Some(next));
    }
}

/// A block with room for one more gets the first transaction, if any, that can be the first of the
/// block after the smaller one.
pub proof fn lemma_one_more(
    queue: Seq<TxnPointer>,
    seen: Set<TxnPointer>,
    entries: Seq<(AccountAddress, u64)>,
    batch_size: u64,
)
    requires
        queue.no_duplicates(),
        batch_size < u64::MAX,
    ensures
        ({
            let small = selection(queue, seen, entries, batch_size);
            let large = selection(queue, seen, entries, (batch_size + 1) as u64);
            &&& large.picked == match first_eligible(
                queue,
                seen_with(seen, small.picked),
                entries,
            ) {
                Some(next) => small.picked.push(next),
                None => small.picked,
            }
            &&& !is_full(small.picked, batch_size) ==> small == large
        }),
    decreases queue.len(),
{
    if queue.len() > 0 {
        let more_size = (batch_size + 1) as u64;
        let rest = queue.drop_last();
        let txn = queue.last();
        assert(rest.push(txn) =~= queue);
        lemma_one_more(rest, seen, entries, batch_size);
        lemma_selection_inv(rest, seen, entries, batch_size);
        lemma_selection_inv(rest, seen, entries, more_size);
        let small = selection(rest, seen, entries, batch_size);
        let large = selection(rest, seen, entries, more_size);
        let taken = seen_with(seen, small.picked);
        assert(value_of(large.entries, txn.0) == value_of(entries, txn.0));
        if is_full(large.picked, more_size) {
        } else if is_full(small.picked, batch_size) {
            assert(large.picked == small.picked);
            assert(first_eligible(rest, taken, entries) is None);
            assert(is_eligible(txn, taken, entries) <==> !seen.contains(txn)
                && !large.picked.contains(txn) && (follows(txn, seen, large.picked) || value_of(
                large.entries,
                txn.0,
            ) == Some(txn.1)));
        } else if seen.contains(txn) || small.picked.contains(txn) || !(follows(
            txn,
            seen,
            small.picked,
        ) || value_of(small.entries, txn.0) == Some(txn.1)) {
            assert(first_eligible(rest, taken, entries) is None);
            assert(!is_eligible(txn, taken, entries));
        } else {
            lemma_one_more_picked(rest, seen, entries, batch_size, txn);
        }
    }
}

/// The choice goes on where a smaller one has stopped.
pub proof fn lemma_selection_continues(
    queue: Seq<TxnPointer>,
    seen: Set<TxnPointer>,
    entries: Seq<(AccountAddress, u64)>,
    first: u64,
    second: u64,
)
    requires
        queue.no_duplicates(),
        first + second <= u64::MAX,
    ensures
        ({
            let picked = selection(queue, seen, entries, first).picked;
            picked + selection(queue, seen_with(seen, picked), entries, second).picked == selection(
                queue,
                seen,
                entries,
                (first + second) as u64,
            ).picked
        }),
    decreases second,
{
    let picked = selection(queue, seen, entries, first).picked;
    let taken = seen_with(seen, picked);
    if second == 0 {
        lemma_selection_inv(queue, taken, entries, 0);
        assert(picked + selection(queue, taken, entries, 0).picked =~= picked);
    } else {
        let less = (second - 1) as u64;
        let more = selection(queue, taken, entries, less).picked;
        lemma_selection_continues(queue, seen, entries, first, less);
        lemma_one_more(queue, seen, entries, (first + less) as u64);
        lemma_one_more(queue, taken, entries, less);
        assert(seen_with(seen, picked + more) =~= seen_with(taken, more)) by {
            assert forall|txn: TxnPointer| (picked + more).contains(txn) <==> picked.contains(txn)
                || more.contains(txn) by {
                if picked.contains(txn) {
                    let k = choose|k: int| 0 <= k < picked.len() && picked[k] == txn;
                    assert((picked + more)[k] == txn);
                }
                if more.contains(txn) {
                    let k = choose|k: int| 0 <= k < more.len() && more[k] == txn;
                    assert((picked + more)[picked.len() + k] == txn);
                }
            }
        }
        if let Some(next) = first_eligible(queue, seen_with(taken, more), entries) {
            assert(picked + more.push(next) =~= (picked + more).push(next));
        }
    }
}

/// One block after the other: a block, followed by the next one for which the first is handed back
/// as seen, is the one large block.
pub proof fn law_next_block_continues(
    mempool: MempoolView,
    first: u64,
    second: u64,
    seen: Set<TxnPointer>,
)
    requires
        mempool.wf(),
        first + second <= u64::MAX,
    ensures
        mempool.block(first, seen) + mempool.get_block(first, seen).block(
            second,
            seen_with(seen, mempool.picks(first, seen)),
        ) == mempool.block((first + second) as u64, seen),
{
    let queue = queue(mempool.store.pool);
    let taken = seen_with(seen, mempool.picks(first, seen));
    lemma_queue(mempool.store);
    lemma_selection_continues(queue, seen, mempool.sequence_numbers, first, second);
    law_block_leaves_no_trace(mempool, first, seen, second, taken);
    assert(mempool.block(first, seen) + mempool.block(second, taken) =~= mempool.block(
        (first + second) as u64,
        seen,
    ));
}

} // verus!
