//! What a block is made of, transaction by transaction: each time the first one of the store that
//! can go in.

use crate::block::{is_full, lemma_full_is_final, predecessor, selection};
use crate::block_laws::{
    first_eligible, is_eligible, law_block_holds_queued_transactions, law_block_leaves_no_trace,
    law_block_size, lemma_block, lemma_one_more, lemma_picks_of_queue, lemma_queue,
    lemma_selection_continues, lemma_selection_entries, lemma_with_followers, seen_with,
};
use crate::cache_lemmas::{distinct_keys, has_key, lemma_refreshed, lemma_value_of};
use crate::caches::{refreshed, value_of};
use crate::model::MempoolView;
use crate::plain_cache_laws::law_known_key;
use crate::plain_laws::lemma_value_is_entry;
use crate::pool::{lookup, position, queue, queued, StoreView};
use crate::pool_lemmas::{lemma_filter_keeps_pairs, lemma_position};
use crate::types::{AccountAddress, MempoolTransactionView, TxnPointer};
use vstd::prelude::*;

verus! {

/// A block that is not full does not grow with its size.
proof fn lemma_not_full(
    queue: Seq<TxnPointer>,
    seen: Set<TxnPointer>,
    entries: Seq<(AccountAddress, u64)>,
    small: u64,
    large: u64,
)
    requires
        queue.no_duplicates(),
        small <= large,
        !is_full(selection(queue, seen, entries, small).picked, small),
    ensures
        selection(queue, seen, entries, large).picked == selection(
            queue,
            seen,
            entries,
            small,
        ).picked,
    decreases large,
{
    if small < large {
        let less = (large - 1) as u64;
        lemma_not_full(queue, seen, entries, small, less);
        lemma_one_more(queue, seen, entries, less);
    }
}

/// The first transactions of a block are those of a smaller block.
proof fn lemma_prefix(
    queue: Seq<TxnPointer>,
    seen: Set<TxnPointer>,
    entries: Seq<(AccountAddress, u64)>,
    small: u64,
    large: u64,
)
    requires
        queue.no_duplicates(),
        small <= large,
        selection(queue, seen, entries, large).picked.len() >= small,
    ensures
        selection(queue, seen, entries, small).picked == selection(
            queue,
            seen,
            entries,
            large,
        ).picked.take(small as int),
        selection(queue, seen, entries, small).picked.len() == small,
{
    let picked = selection(queue, seen, entries, small).picked;
    let all = selection(queue, seen, entries, large).picked;
    lemma_selection_continues(queue, seen, entries, small, (large - small) as u64);
    if !is_full(picked, small) {
        lemma_not_full(queue, seen, entries, small, large);
    }
    lemma_picks_bound(queue, seen, entries, small);
    assert(all.take(small as int) =~= picked);
}

/// What the first eligible transaction is.
proof fn lemma_first_eligible(
    queue: Seq<TxnPointer>,
    seen: Set<TxnPointer>,
    entries: Seq<(AccountAddress, u64)>,
) -> (at: int)
    ensures
        first_eligible(queue, seen, entries) is Some ==> {
            &&& 0 <= at < queue.len()
            &&& first_eligible(queue, seen, entries) == Some(queue[at])
            &&& is_eligible(queue[at], seen, entries)
            &&& forall|b: int| 0 <= b < at ==> !is_eligible(#[trigger] queue[b], seen, entries)
        },
        first_eligible(queue, seen, entries) is None ==> forall|b: int|
            0 <= b < queue.len() ==> !is_eligible(#[trigger] queue[b], seen, entries),
    decreases queue.len(),
{
    if queue.len() == 0 {
        0
    } else {
        let rest = queue.drop_last();
        let at = lemma_first_eligible(rest, seen, entries);
        assert forall|b: int| 0 <= b < rest.len() implies #[trigger] queue[b] == rest[b] by {}
        if first_eligible(rest, seen, entries) is Some {
            at
        } else {
            queue.len() - 1
        }
    }
}

/// The queue has the order of the store.
proof fn lemma_queue_order(store: StoreView)
    requires
        store.wf(),
    ensures
        forall|a: int, b: int|
            #![trigger queue(store.pool)[a], queue(store.pool)[b]]
            0 <= a < b < queue(store.pool).len() ==> position(store.pool, queue(store.pool)[a])
                < position(store.pool, queue(store.pool)[b]),
{
    let pool = store.pool;
    let ready = queued(pool);
    let before = |a: MempoolTransactionView, b: MempoolTransactionView|
        position(pool, a.pointer()) < position(pool, b.pointer());
    assert forall|i: int, j: int|
        #![trigger pool[i], pool[j]]
        0 <= i < j < pool.len() implies before(pool[i], pool[j]) by {
        lemma_position(pool, i);
        lemma_position(pool, j);
    }
    lemma_filter_keeps_pairs(pool, |t: MempoolTransactionView| t.ready, before);
    assert forall|a: int, b: int|
        #![trigger queue(pool)[a], queue(pool)[b]]
        0 <= a < b < queue(pool).len() implies position(pool, queue(pool)[a]) < position(
        pool,
        queue(pool)[b],
    ) by {
        assert(before(ready[a], ready[b]));
    }
}

/// Whether `txn` is eligible once the first `i` of a block are handed out, in terms of the block.
proof fn lemma_eligible_in_block(
    mempool: MempoolView,
    batch_size: u64,
    seen: Set<TxnPointer>,
    i: int,
    txn: TxnPointer,
)
    requires
        mempool.wf(),
        0 <= i <= mempool.block(batch_size, seen).len(),
    ensures
        ({
            let block = mempool.block(batch_size, seen);
            let taken = seen_with(seen, mempool.picks(batch_size, seen).take(i));
            is_eligible(txn, taken, mempool.sequence_numbers) <==> {
                &&& !seen.contains(txn)
                &&& forall|j: int|
                    0 <= j < i ==> (#[trigger] block[j]).sender != txn.0 || block[j].sequence_number
                        != txn.1
                &&& mempool.sequence_numbers.contains(txn) || (txn.1 > 0 && (seen.contains(
                    (txn.0, (txn.1 - 1) as u64),
                ) || exists|j: int|
                    0 <= j < i && (#[trigger] block[j]).sender == txn.0 && block[j].sequence_number
                        == txn.1 - 1))
            }
        }),
{
    let block = mempool.block(batch_size, seen);
    let picks = mempool.picks(batch_size, seen);
    let first = picks.take(i);
    let taken = seen_with(seen, first);
    lemma_value_is_entry(mempool.sequence_numbers, txn.0);
    assert(mempool.sequence_numbers.contains((txn.0, txn.1)) <==> value_of(
        mempool.sequence_numbers,
        txn.0,
    ) == Some(txn.1));
    assert forall|j: int| 0 <= j < block.len() implies #[trigger] block[j].pointer()
        == picks[j] by {
        law_block_holds_queued_transactions(mempool, batch_size, seen, j);
    }
    assert forall|q: TxnPointer| #[trigger] first.contains(q) <==> exists|j: int|
        0 <= j < i && (#[trigger] block[j]).sender == q.0 && block[j].sequence_number == q.1 by {
        if first.contains(q) {
            let j = choose|j: int| 0 <= j < first.len() && first[j] == q;
            assert(block[j].pointer() == picks[j]);
            assert(block[j].sender == q.0);
        }
        if exists|j: int|
            0 <= j < i && (#[trigger] block[j]).sender == q.0 && block[j].sequence_number == q.1 {
            let j = choose|j: int|
                0 <= j < i && (#[trigger] block[j]).sender == q.0 && block[j].sequence_number
                    == q.1;
            assert(block[j].pointer() == picks[j]);
            assert(first[j] == q);
        }
    }
    assert(taken.contains(txn) <==> seen.contains(txn) || first.contains(txn));
    assert(taken.contains(predecessor(txn)) <==> seen.contains(predecessor(txn))
        || first.contains(predecessor(txn)));
}

/// Each transaction of a block is one that the store holds in the queue, that consensus has not
/// seen, that is not in the block before, and that can go in at its place: it is the next of its
/// sender, or the one before it went to consensus or stands before it in the block.
pub proof fn law_block_member(mempool: MempoolView, batch_size: u64, seen: Set<TxnPointer>, i: int)
    requires
        mempool.wf(),
        0 <= i < mempool.block(batch_size, seen).len(),
    ensures
        ({
            let block = mempool.block(batch_size, seen);
            let txn = block[i];
            &&& i < batch_size
            &&& exists|k: int|
                0 <= k < mempool.store.pool.len() && (#[trigger] mempool.store.pool[k]).txn == txn
                    && mempool.store.pool[k].ready
            &&& !seen.contains((txn.sender, txn.sequence_number))
            &&& forall|j: int|
                0 <= j < i ==> (#[trigger] block[j]).sender != txn.sender
                    || block[j].sequence_number != txn.sequence_number
            &&& mempool.sequence_numbers.contains((txn.sender, txn.sequence_number)) || (
            txn.sequence_number > 0 && (seen.contains(
                (txn.sender, (txn.sequence_number - 1) as u64),
            ) || exists|j: int|
                0 <= j < i && (#[trigger] block[j]).sender == txn.sender && block[j].sequence_number
                    == txn.sequence_number - 1))
        }),
{
    let entries = mempool.sequence_numbers;
    let queue = queue(mempool.store.pool);
    let picks = mempool.picks(batch_size, seen);
    let txn = mempool.block(batch_size, seen)[i];
    let pointer = txn.pointer();
    lemma_queue(mempool.store);
    law_block_size(mempool, batch_size, seen);
    law_block_holds_queued_transactions(mempool, batch_size, seen, i);
    let k = position(mempool.store.pool, pointer);
    assert(mempool.store.pool[k].is_at(pointer));
    assert(mempool.store.pool[k].txn == txn);
    lemma_prefix(queue, seen, entries, i as u64, batch_size);
    lemma_prefix(queue, seen, entries, (i + 1) as u64, batch_size);
    lemma_one_more(queue, seen, entries, i as u64);
    let at = lemma_first_eligible(queue, seen_with(seen, picks.take(i)), entries);
    assert(picks.take(i + 1)[i] == picks[i]);
    lemma_eligible_in_block(mempool, batch_size, seen, i, pointer);
}

/// Nothing that could go in at the `i`-th place of a block stands before what does go in there, and
/// a block ends early only where nothing is left that could go in.
pub proof fn law_block_takes_the_first(
    mempool: MempoolView,
    batch_size: u64,
    seen: Set<TxnPointer>,
    i: int,
    k: int,
)
    requires
        mempool.wf(),
        0 <= i <= mempool.block(batch_size, seen).len(),
        i < batch_size,
        0 <= k < mempool.store.pool.len(),
        mempool.store.pool[k].ready,
        ({
            let block = mempool.block(batch_size, seen);
            let txn = mempool.store.pool[k].txn;
            &&& !seen.contains((txn.sender, txn.sequence_number))
            &&& forall|j: int|
                0 <= j < i ==> (#[trigger] block[j]).sender != txn.sender
                    || block[j].sequence_number != txn.sequence_number
            &&& mempool.sequence_numbers.contains((txn.sender, txn.sequence_number)) || (
            txn.sequence_number > 0 && (seen.contains(
                (txn.sender, (txn.sequence_number - 1) as u64),
            ) || exists|j: int|
                0 <= j < i && (#[trigger] block[j]).sender == txn.sender && block[j].sequence_number
                    == txn.sequence_number - 1))
        }),
    ensures
        i < mempool.block(batch_size, seen).len(),
        exists|m: int|
            0 <= m <= k && (#[trigger] mempool.store.pool[m]).txn == mempool.block(
                batch_size,
                seen,
            )[i],
{
    let entries = mempool.sequence_numbers;
    let pool = mempool.store.pool;
    let queue = queue(pool);
    let picks = mempool.picks(batch_size, seen);
    let block = mempool.block(batch_size, seen);
    let pointer = (pool[k].txn.sender, pool[k].txn.sequence_number);
    let taken = seen_with(seen, picks.take(i));
    lemma_queue(mempool.store);
    lemma_queue_order(mempool.store);
    lemma_position(pool, k);
    assert(pool[k].pointer() == pointer);
    assert(queue.contains(pointer));
    let b = choose|b: int| 0 <= b < queue.len() && queue[b] == pointer;
    lemma_eligible_in_block(mempool, batch_size, seen, i, pointer);
    assert(is_eligible(queue[b], taken, entries));
    lemma_prefix(queue, seen, entries, i as u64, batch_size);
    lemma_one_more(queue, seen, entries, i as u64);
    let at = lemma_first_eligible(queue, taken, entries);
    assert(first_eligible(queue, taken, entries) is Some);
    let more = selection(queue, seen, entries, (i + 1) as u64).picked;
    assert(more == picks.take(i).push(queue[at]));
    lemma_selection_continues(
        queue,
        seen,
        entries,
        (i + 1) as u64,
        (batch_size - (i + 1)) as u64,
    );
    assert(picks.len() >= more.len());
    assert(picks[i] == more[i]);
    law_block_holds_queued_transactions(mempool, batch_size, seen, i);
    let m = position(pool, block[i].pointer());
    assert(pool[m].is_at(block[i].pointer()));
    assert(pool[m].txn == block[i]);
    assert(at <= b);
    assert(m <= k) by {
        if at < b {
            assert(position(pool, queue[at]) < position(pool, queue[b]));
        }
    }
}

/// What forming a block leaves as it was: everything but the order in which the accounts were last
/// looked at.
pub proof fn law_block_touches_only_the_order(
    mempool: MempoolView,
    batch_size: u64,
    seen: Set<TxnPointer>,
)
    requires
        mempool.wf(),
    ensures
        ({
            let next = mempool.get_block(batch_size, seen);
            &&& next.store == mempool.store
            &&& next.metrics == mempool.metrics
            &&& next.metrics_capacity == mempool.metrics_capacity
            &&& next.sequence_number_capacity == mempool.sequence_number_capacity
            &&& next.system_transaction_timeout == mempool.system_transaction_timeout
            &&& forall|entry: (AccountAddress, u64)| #[trigger]
                next.sequence_numbers.contains(entry) <==> mempool.sequence_numbers.contains(entry)
            &&& batch_size == 0 ==> next.sequence_numbers == mempool.sequence_numbers
        }),
{
    let next = mempool.get_block(batch_size, seen);
    law_block_leaves_no_trace(mempool, batch_size, seen, batch_size, seen);
    lemma_block(mempool, batch_size, seen);
    assert forall|entry: (AccountAddress, u64)| #[trigger]
        next.sequence_numbers.contains(entry) <==> mempool.sequence_numbers.contains(entry) by {
        lemma_value_is_entry(next.sequence_numbers, entry.0);
        lemma_value_is_entry(mempool.sequence_numbers, entry.0);
        assert(next.sequence_numbers.contains((entry.0, entry.1))
            <==> mempool.sequence_numbers.contains((entry.0, entry.1))) by {
            assert(value_of(next.sequence_numbers, entry.0) == value_of(
                mempool.sequence_numbers,
                entry.0,
            ));
        }
    }
    if batch_size == 0 {
        lemma_nothing_looked_up(queue(mempool.store.pool), seen, mempool.sequence_numbers);
    }
}

/// For an empty block no account is looked up.
proof fn lemma_nothing_looked_up(
    queue: Seq<TxnPointer>,
    seen: Set<TxnPointer>,
    entries: Seq<(AccountAddress, u64)>,
)
    ensures
        selection(queue, seen, entries, 0).entries == entries,
    decreases queue.len(),
{
    if queue.len() > 0 {
        lemma_nothing_looked_up(queue.drop_last(), seen, entries);
    }
}

/// Whether the entry of `a` is older than that of `b`.
spec fn is_older(entries: Seq<(AccountAddress, u64)>, a: AccountAddress, b: AccountAddress) -> bool {
    exists|i: int, j: int|
        #![trigger entries[i], entries[j]]
        0 <= i < j < entries.len() && entries[i].0 == a && entries[j].0 == b
}

/// A look at another account leaves an account older than those it was older than, and makes the
/// other one younger.
proof fn lemma_look(
    entries: Seq<(AccountAddress, u64)>,
    account: AccountAddress,
    a: AccountAddress,
    b: AccountAddress,
)
    requires
        distinct_keys(entries),
        account != a,
        value_of(entries, a) is Some,
    ensures
        is_older(entries, a, b) ==> is_older(refreshed(entries, account), a, b),
        account == b && value_of(entries, b) is Some ==> is_older(
            refreshed(entries, account),
            a,
            b,
        ),
{
    let next = refreshed(entries, account);
    lemma_value_of(entries, account);
    lemma_value_of(entries, a);
    if has_key(entries, account) {
        let k = choose|k: int| 0 <= k < entries.len() && (#[trigger] entries[k]).0 == account;
        law_known_key(entries, entries.len(), account, entries[k].1, k);
        let moved = |i: int|
            if i < k {
                i
            } else {
                i - 1
            };
        let m = choose|m: int| 0 <= m < entries.len() && (#[trigger] entries[m]).0 == a;
        assert(next[moved(m)] == entries[m]);
        assert(next[next.len() - 1] == entries[k]);
        if is_older(entries, a, b) {
            let (i, j) = choose|i: int, j: int|
                #![trigger entries[i], entries[j]]
                0 <= i < j < entries.len() && entries[i].0 == a && entries[j].0 == b;
            assert(next[moved(i)] == entries[i]);
            if j == k {
                assert(next[next.len() - 1].0 == b);
            } else {
                assert(next[moved(j)] == entries[j]);
            }
        }
    }
}

/// Which accounts are looked at: those of the transactions that are met before the block is full
/// and that consensus has not seen.
proof fn lemma_selection_order(
    queue: Seq<TxnPointer>,
    seen: Set<TxnPointer>,
    entries: Seq<(AccountAddress, u64)>,
    batch_size: u64,
    a: AccountAddress,
    b: AccountAddress,
)
    requires
        distinct_keys(entries),
        value_of(entries, a) is Some,
        forall|i: int|
            0 <= i < queue.len() && (#[trigger] queue[i]).0 == a ==> seen.contains(queue[i])
                || is_full(selection(queue.take(i), seen, entries, batch_size).picked, batch_size),
    ensures
        ({
            let sel = selection(queue, seen, entries, batch_size);
            &&& is_older(entries, a, b) ==> is_older(sel.entries, a, b)
            &&& value_of(entries, b) is Some ==> forall|i: int|
                0 <= i < sel.picked.len() && (#[trigger] sel.picked[i]).0 == b && b != a
                    ==> is_older(sel.entries, a, b)
            &&& value_of(entries, b) is Some && b != a ==> forall|i: int|
                0 <= i < queue.len() && (#[trigger] queue[i]).0 == b && !seen.contains(queue[i])
                    && !is_full(
                    selection(queue.take(i), seen, entries, batch_size).picked,
                    batch_size,
                ) ==> is_older(sel.entries, a, b)
        }),
    decreases queue.len(),
{
    if queue.len() > 0 {
        let rest = queue.drop_last();
        let txn = queue.last();
        let before = selection(rest, seen, entries, batch_size);
        let sel = selection(queue, seen, entries, batch_size);
        assert(queue.take(queue.len() - 1) =~= rest);
        assert forall|i: int| 0 <= i < rest.len() implies #[trigger] rest[i] == queue[i]
            && rest.take(i) == queue.take(i) by {
            assert(rest.take(i) =~= queue.take(i));
        }
        assert(queue[queue.len() - 1] == txn);
        lemma_selection_order(rest, seen, entries, batch_size, a, b);
        lemma_selection_entries(rest, seen, entries, batch_size);
        lemma_selection_values(rest, seen, entries, batch_size);
        assert(value_of(before.entries, a) == value_of(entries, a));
        assert(value_of(before.entries, b) == value_of(entries, b));
        if txn.0 != a {
            lemma_look(before.entries, txn.0, a, b);
        }
        if sel.picked != before.picked {
            lemma_with_followers(before.picked.push(txn), before.skipped, txn, batch_size);
        }
        if value_of(entries, b) is Some && b != a {
            assert forall|i: int|
                0 <= i < sel.picked.len() && (#[trigger] sel.picked[i]).0 == b implies is_older(
                sel.entries,
                a,
                b,
            ) by {
                if sel.picked != before.picked {
                    if i < before.picked.len() {
                        assert(sel.picked[i] == before.picked.push(txn)[i]);
                        assert(before.picked[i].0 == b);
                    } else if i == before.picked.len() {
                        assert(sel.picked[i] == before.picked.push(txn)[i]);
                    }
                } else {
                    assert(before.picked[i].0 == b);
                }
            }
            assert forall|i: int|
                0 <= i < queue.len() && (#[trigger] queue[i]).0 == b && !seen.contains(queue[i])
                    && !is_full(
                    selection(queue.take(i), seen, entries, batch_size).picked,
                    batch_size,
                ) implies is_older(sel.entries, a, b) by {
                if i < rest.len() {
                    assert(rest[i] == queue[i]);
                    assert(is_older(before.entries, a, b));
                } else if before.picked.contains(txn) {
                    assert(sel == before);
                    let k = choose|k: int| 0 <= k < before.picked.len() && before.picked[k] == txn;
                    assert(before.picked[k].0 == b);
                }
            }
        }
    }
}

/// What a part of the queue has chosen stays, and what comes in addition is with something of the
/// rest.
proof fn lemma_growth(
    queue: Seq<TxnPointer>,
    seen: Set<TxnPointer>,
    entries: Seq<(AccountAddress, u64)>,
    batch_size: u64,
    n: int,
)
    requires
        0 <= n <= queue.len(),
    ensures
        ({
            let picked = selection(queue, seen, entries, batch_size).picked;
            let part = selection(queue.take(n), seen, entries, batch_size).picked;
            &&& picked.len() >= part.len()
            &&& picked != part ==> exists|j: int|
                n <= j < queue.len() && picked.contains(#[trigger] queue[j])
        }),
    decreases queue.len(),
{
    if n == queue.len() {
        assert(queue.take(n) =~= queue);
    } else {
        let rest = queue.drop_last();
        let txn = queue.last();
        let before = selection(rest, seen, entries, batch_size);
        let sel = selection(queue, seen, entries, batch_size);
        let part = selection(queue.take(n), seen, entries, batch_size).picked;
        assert(rest.take(n) =~= queue.take(n));
        lemma_growth(rest, seen, entries, batch_size, n);
        assert(queue[queue.len() - 1] == txn);
        if sel.picked != before.picked {
            lemma_picks_bound(rest, seen, entries, batch_size);
            lemma_with_followers(before.picked.push(txn), before.skipped, txn, batch_size);
            assert(sel.picked[before.picked.len() as int] == before.picked.push(
                txn,
            )[before.picked.len() as int]);
            assert(sel.picked.contains(txn));
            assert(sel.picked.contains(queue[queue.len() - 1]));
        } else if before.picked != part {
            let j = choose|j: int| n <= j < rest.len() && before.picked.contains(#[trigger] rest[j]);
            assert(queue[j] == rest[j]);
            assert(sel.picked.contains(queue[j]));
        }
    }
}

/// A choice is not larger than asked for.
proof fn lemma_picks_bound(
    queue: Seq<TxnPointer>,
    seen: Set<TxnPointer>,
    entries: Seq<(AccountAddress, u64)>,
    batch_size: u64,
)
    ensures
        selection(queue, seen, entries, batch_size).picked.len() <= batch_size,
    decreases queue.len(),
{
    if queue.len() > 0 {
        let before = selection(queue.drop_last(), seen, entries, batch_size);
        let txn = queue.last();
        lemma_picks_bound(queue.drop_last(), seen, entries, batch_size);
        if !is_full(before.picked, batch_size) {
            lemma_with_followers(before.picked.push(txn), before.skipped, txn, batch_size);
        }
    }
}

/// The choice changes no value.
proof fn lemma_selection_values(
    queue: Seq<TxnPointer>,
    seen: Set<TxnPointer>,
    entries: Seq<(AccountAddress, u64)>,
    batch_size: u64,
)
    ensures
        forall|account: AccountAddress| #[trigger]
            value_of(selection(queue, seen, entries, batch_size).entries, account) == value_of(
                entries,
                account,
            ),
    decreases queue.len(),
{
    if queue.len() > 0 {
        let before = selection(queue.drop_last(), seen, entries, batch_size);
        lemma_selection_values(queue.drop_last(), seen, entries, batch_size);
        lemma_refreshed(before.entries, queue.last().0);
    }
}

/// Which accounts forming a block looks at, so that they become younger than the others. It does
/// not look at `a` if consensus has seen all that `a` has in the queue, but for what stands behind
/// a block that is full. It looks at `b` if something of `b` in the queue that consensus has not
/// seen stands before the end of the block, or the block is not full. Then `a` is older than `b`;
/// and it stays older than what it was older than.
pub proof fn law_block_looks_at_accounts(
    mempool: MempoolView,
    batch_size: u64,
    seen: Set<TxnPointer>,
    a: AccountAddress,
    b: AccountAddress,
)
    requires
        mempool.wf(),
        a != b,
        exists|c: u64| #[trigger] mempool.sequence_numbers.contains((a, c)),
        exists|c: u64| #[trigger] mempool.sequence_numbers.contains((b, c)),
        ({
            let pool = mempool.store.pool;
            let block = mempool.block(batch_size, seen);
            let entries = mempool.sequence_numbers;
            &&& forall|k: int|
                0 <= k < pool.len() && (#[trigger] pool[k]).txn.sender == a && pool[k].ready
                    ==> seen.contains((a, pool[k].txn.sequence_number)) || (block.len()
                    == batch_size && forall|m: int|
                    k <= m < pool.len() ==> !block.contains((#[trigger] pool[m]).txn))
            &&& (exists|i: int, j: int|
                #![trigger entries[i], entries[j]]
                0 <= i < j < entries.len() && entries[i].0 == a && entries[j].0 == b) || (exists|
                k: int,
            |
                0 <= k < pool.len() && (#[trigger] pool[k]).txn.sender == b && pool[k].ready
                    && !seen.contains((b, pool[k].txn.sequence_number)) && (block.len() < batch_size
                    || exists|m: int|
                    k <= m < pool.len() && block.contains((#[trigger] pool[m]).txn)))
        }),
    ensures
        ({
            let numbers = mempool.get_block(batch_size, seen).sequence_numbers;
            exists|i: int, j: int|
                #![trigger numbers[i], numbers[j]]
                0 <= i < j < numbers.len() && numbers[i].0 == a && numbers[j].0 == b
        }),
{
    let entries = mempool.sequence_numbers;
    let pool = mempool.store.pool;
    let block = mempool.block(batch_size, seen);
    let picks = mempool.picks(batch_size, seen);
    let queue = queue(pool);
    lemma_value_is_entry(entries, a);
    lemma_value_is_entry(entries, b);
    lemma_queue(mempool.store);
    lemma_queue_order(mempool.store);
    lemma_picks_bound(queue, seen, entries, batch_size);
    assert forall|q: int| 0 <= q < queue.len() implies {
        let k = position(pool, #[trigger] queue[q]);
        &&& 0 <= k < pool.len()
        &&& pool[k].is_at(queue[q])
        &&& pool[k].ready
    } by {
        let k = position(pool, queue[q]);
        assert(pool[k].is_at(queue[q]));
        lemma_position(pool, k);
    }
    assert forall|i: int|
        0 <= i < queue.len() && (#[trigger] queue[i]).0 == a implies seen.contains(queue[i])
        || is_full(selection(queue.take(i), seen, entries, batch_size).picked, batch_size) by {
        let k = position(pool, queue[i]);
        assert(pool[k].is_at(queue[i]));
        if !seen.contains(queue[i]) {
            let part = selection(queue.take(i), seen, entries, batch_size).picked;
            lemma_growth(queue, seen, entries, batch_size, i);
            if part != picks {
                let j = choose|j: int| i <= j < queue.len() && picks.contains(#[trigger] queue[j]);
                let m = position(pool, queue[j]);
                assert(pool[m].is_at(queue[j]));
                assert(k <= m);
                lemma_in_block(mempool, batch_size, seen, queue[j]);
                lemma_position(pool, m);
                assert(block.contains(pool[m].txn));
            }
        }
    }
    lemma_selection_order(queue, seen, entries, batch_size, a, b);
    if !is_older(entries, a, b) {
        let k = choose|k: int|
            0 <= k < pool.len() && (#[trigger] pool[k]).txn.sender == b && pool[k].ready
                && !seen.contains((b, pool[k].txn.sequence_number)) && (block.len() < batch_size
                || exists|m: int|
                k <= m < pool.len() && block.contains((#[trigger] pool[m]).txn));
        let pointer = pool[k].pointer();
        lemma_position(pool, k);
        assert(queue.contains(pointer));
        let i = choose|i: int| 0 <= i < queue.len() && queue[i] == pointer;
        let part = selection(queue.take(i), seen, entries, batch_size).picked;
        lemma_growth(queue, seen, entries, batch_size, i);
        if is_full(part, batch_size) {
            let m = choose|m: int|
                k <= m < pool.len() && block.contains((#[trigger] pool[m]).txn);
            lemma_full_is_final(queue, i, seen, entries, batch_size);
            let n = choose|n: int| 0 <= n < block.len() && block[n] == pool[m].txn;
            law_block_holds_queued_transactions(mempool, batch_size, seen, n);
            lemma_position(pool, m);
            lemma_picks_of_queue(queue.take(i), seen, entries, batch_size, n);
            let q = choose|q: int| 0 <= q < queue.take(i).len() && queue.take(i)[q] == part[n];
            assert(queue[q] == pool[m].pointer());
            assert(position(pool, queue[q]) < position(pool, queue[i]));
        }
        assert(queue[i].0 == b);
    }
    assert(is_older(mempool.get_block(batch_size, seen).sequence_numbers, a, b));
}

/// What is chosen is in the block, as the store holds it.
proof fn lemma_in_block(
    mempool: MempoolView,
    batch_size: u64,
    seen: Set<TxnPointer>,
    pointer: TxnPointer,
)
    requires
        mempool.wf(),
        mempool.picks(batch_size, seen).contains(pointer),
    ensures
        mempool.block(batch_size, seen).contains(lookup(mempool.store.pool, pointer)->0.txn),
{
    let picks = mempool.picks(batch_size, seen);
    let n = choose|n: int| 0 <= n < picks.len() && picks[n] == pointer;
    assert(mempool.block(batch_size, seen)[n] == lookup(mempool.store.pool, pointer)->0.txn);
}

} // verus!
