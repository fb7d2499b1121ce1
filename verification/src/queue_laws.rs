//! The queue holds what can be executed next: the transactions that follow the current sequence
//! number of their account without a gap.

use crate::block_laws::law_block_leaves_no_trace;
use crate::cache_lemmas::lemma_stored;
use crate::caches::value_of;
use crate::laws::{
    law_accepted_request, law_commit, law_refused_request_changes_no_transaction,
    law_timeline_order, lemma_evicted,
};
use crate::model::{queue_is_sequential, MempoolView, Request};
use crate::pool::{
    cut_off, holds, is_queued, lookup, position, queue_follows, sequential, timeline, Eviction,
    StoreView,
};
use crate::pool_lemmas::lemma_position;
use crate::status::MempoolAddTransactionStatusCode;
use crate::types::{AccountAddress, TxnPointer};
use vstd::prelude::*;

verus! {

/// Where the transactions of an account are as they were, so is its queue.
proof fn lemma_queue_follows_same(
    before: StoreView,
    after: StoreView,
    account: AccountAddress,
    number: u64,
)
    requires
        queue_follows(before, account, number),
        forall|n: u64| #[trigger]
            lookup(after.pool, (account, n)) == lookup(before.pool, (account, n)),
    ensures
        queue_follows(after, account, number),
{
    assert forall|n: u64| #[trigger]
        is_queued(after, (account, n)) <==> sequential(
            after.pool,
            account,
            number as int,
            n as int,
        ) by {
        assert(lookup(after.pool, (account, n)) == lookup(before.pool, (account, n)));
        assert(is_queued(before, (account, n)) <==> sequential(
            before.pool,
            account,
            number as int,
            n as int,
        ));
        assert forall|m: u64| #[trigger]
            holds(after.pool, (account, m)) == holds(before.pool, (account, m)) by {
            assert(lookup(after.pool, (account, m)) == lookup(before.pool, (account, m)));
        }
        if sequential(before.pool, account, number as int, n as int) {
            assert forall|m: u64| number <= m <= n implies #[trigger] holds(
                after.pool,
                (account, m),
            ) by {
                assert(holds(before.pool, (account, m)));
            }
        }
        if sequential(after.pool, account, number as int, n as int) {
            assert forall|m: u64| number <= m <= n implies #[trigger] holds(
                before.pool,
                (account, m),
            ) by {
                assert(holds(after.pool, (account, m)));
            }
        }
    }
}

/// An empty mempool has nothing in the queue.
pub proof fn law_empty_queue_is_sequential(mempool: MempoolView)
    requires
        mempool.store.pool.len() == 0,
    ensures
        queue_is_sequential(mempool),
{
}

/// After a request, accepted or refused, what can be executed next is queued, and nothing else.
pub proof fn law_request_keeps_queue_sequential(
    mempool: MempoolView,
    request: Request,
    now: u128,
    now_millis: i64,
)
    requires
        mempool.wf(),
        queue_is_sequential(mempool),
    ensures
        queue_is_sequential(mempool.add_txn(request, now, now_millis)),
{
    let next = mempool.add_txn(request, now, now_millis);
    let sender = request.txn.sender;
    let number = mempool.current_sequence_number(request);
    let accepted = mempool.answer(request).code == MempoolAddTransactionStatusCode::Valid;
    lemma_stored(mempool.sequence_numbers, mempool.sequence_number_capacity, sender, number);
    if mempool.is_unaffordable(request) {
        assert(next == mempool);
    } else {
        assert forall|account: AccountAddress| #[trigger]
            value_of(next.sequence_numbers, account) is Some implies queue_follows(
            next.store,
            account,
            value_of(next.sequence_numbers, account)->0,
        ) by {
            if account == sender {
                assert forall|n: u64| #[trigger]
                    is_queued(next.store, (account, n)) <==> sequential(
                        next.store.pool,
                        account,
                        number as int,
                        n as int,
                    ) by {
                    if accepted {
                        law_accepted_request(mempool, request, now, now_millis, (account, n));
                    } else {
                        law_refused_request_changes_no_transaction(
                            mempool,
                            request,
                            now,
                            now_millis,
                            (account, n),
                        );
                    }
                }
            } else {
                assert(value_of(mempool.sequence_numbers, account) is Some);
                assert forall|n: u64| #[trigger]
                    lookup(next.store.pool, (account, n)) == lookup(
                        mempool.store.pool,
                        (account, n),
                    ) by {
                    if accepted {
                        law_accepted_request(mempool, request, now, now_millis, (account, n));
                    } else {
                        law_refused_request_changes_no_transaction(
                            mempool,
                            request,
                            now,
                            now_millis,
                            (account, n),
                        );
                    }
                }
                lemma_queue_follows_same(
                    mempool.store,
                    next.store,
                    account,
                    value_of(mempool.sequence_numbers, account)->0,
                );
            }
        }
    }
}

/// Once a transaction is committed, what can be executed next is queued, and nothing else.
pub proof fn law_commit_keeps_queue_sequential(
    mempool: MempoolView,
    sender: AccountAddress,
    sequence_number: u64,
)
    requires
        mempool.wf(),
        sequence_number < u64::MAX,
        queue_is_sequential(mempool),
    ensures
        queue_is_sequential(mempool.remove_transaction(sender, sequence_number, false)),
{
    let next = mempool.remove_transaction(sender, sequence_number, false);
    let number = mempool.committed_up_to(sender, sequence_number);
    lemma_stored(mempool.sequence_numbers, mempool.sequence_number_capacity, sender, number);
    assert forall|account: AccountAddress| #[trigger]
        value_of(next.sequence_numbers, account) is Some implies queue_follows(
        next.store,
        account,
        value_of(next.sequence_numbers, account)->0,
    ) by {
        if account == sender {
            assert forall|n: u64| #[trigger]
                is_queued(next.store, (account, n)) <==> sequential(
                    next.store.pool,
                    account,
                    number as int,
                    n as int,
                ) by {
                law_commit(mempool, sender, sequence_number, (account, n));
            }
        } else {
            assert(value_of(mempool.sequence_numbers, account) is Some);
            assert forall|n: u64| #[trigger]
                lookup(next.store.pool, (account, n)) == lookup(
                    mempool.store.pool,
                    (account, n),
                ) by {
                law_commit(mempool, sender, sequence_number, (account, n));
            }
            lemma_queue_follows_same(
                mempool.store,
                next.store,
                account,
                value_of(mempool.sequence_numbers, account)->0,
            );
        }
    }
}

/// What a drop means for the queue of one account.
proof fn lemma_eviction_keeps_queue(
    store: StoreView,
    eviction: Eviction,
    account: AccountAddress,
    number: u64,
)
    requires
        store.wf(),
        queue_follows(store, account, number),
    ensures
        queue_follows(store.evict(eviction), account, number),
{
    let next = store.evict(eviction);
    assert forall|m: u64| #[trigger] holds(next.pool, (account, m)) implies holds(
        store.pool,
        (account, m),
    ) by {
        lemma_evicted(store, eviction, (account, m));
    }
    assert forall|n: u64| #[trigger]
        is_queued(next, (account, n)) <==> sequential(
            next.pool,
            account,
            number as int,
            n as int,
        ) by {
        let pointer = (account, n);
        lemma_evicted(store, eviction, pointer);
        if is_queued(next, pointer) {
            assert(is_queued(store, pointer));
            let k = position(store.pool, pointer);
            assert(store.pool[k].is_at(pointer));
            assert forall|m: u64| number <= m <= n implies #[trigger] holds(
                next.pool,
                (account, m),
            ) by {
                assert(holds(store.pool, (account, m)));
                assert(is_queued(store, (account, m)));
                lemma_evicted(store, eviction, (account, m));
                let i = position(store.pool, (account, m));
                assert(store.pool[i].is_at((account, m)));
            }
        }
        if sequential(next.pool, account, number as int, n as int) {
            assert(holds(next.pool, pointer));
            assert forall|m: u64| number <= m <= n implies #[trigger] holds(
                store.pool,
                (account, m),
            ) by {
                assert(holds(next.pool, (account, m)));
            }
            assert(is_queued(store, pointer));
            let before = lookup(store.pool, pointer)->0;
            let k = position(store.pool, pointer);
            assert(store.pool[k].is_at(pointer));
            if cut_off(store.pool, eviction, before) {
                let i = choose|i: int|
                    0 <= i < store.pool.len() && eviction.takes(#[trigger] store.pool[i])
                        && store.pool[i].ready && store.pool[i].txn.sender == before.txn.sender
                        && store.pool[i].txn.sequence_number < before.txn.sequence_number;
                let m = store.pool[i].txn.sequence_number;
                lemma_position(store.pool, i);
                assert(is_queued(store, (account, m)));
                assert(holds(next.pool, (account, m)));
                lemma_evicted(store, eviction, (account, m));
            }
        }
    }
}

/// After a drop, what can be executed next is queued, and nothing else.
pub proof fn law_eviction_keeps_queue_sequential(mempool: MempoolView, eviction: Eviction)
    requires
        mempool.wf(),
        queue_is_sequential(mempool),
    ensures
        queue_is_sequential(mempool.evict(eviction)),
{
    let next = mempool.evict(eviction);
    assert forall|account: AccountAddress| #[trigger]
        value_of(next.sequence_numbers, account) is Some implies queue_follows(
        next.store,
        account,
        value_of(next.sequence_numbers, account)->0,
    ) by {
        assert(value_of(mempool.sequence_numbers, account) is Some);
        lemma_eviction_keeps_queue(
            mempool.store,
            eviction,
            account,
            value_of(mempool.sequence_numbers, account)->0,
        );
    }
}

/// After a rejection, what can be executed next is queued, and nothing else.
pub proof fn law_rejection_keeps_queue_sequential(
    mempool: MempoolView,
    sender: AccountAddress,
    sequence_number: u64,
)
    requires
        mempool.wf(),
        queue_is_sequential(mempool),
    ensures
        queue_is_sequential(mempool.remove_transaction(sender, sequence_number, true)),
{
    let eviction = Eviction::Rejected((sender, sequence_number));
    let next = mempool.remove_transaction(sender, sequence_number, true);
    law_eviction_keeps_queue_sequential(mempool, eviction);
    assert(next.sequence_numbers == mempool.evict(eviction).sequence_numbers);
    assert(next.store == mempool.evict(eviction).store);
}

/// Forming a block changes nothing about the queue.
pub proof fn law_block_keeps_queue_sequential(
    mempool: MempoolView,
    batch_size: u64,
    seen: Set<TxnPointer>,
)
    requires
        queue_is_sequential(mempool),
    ensures
        queue_is_sequential(mempool.get_block(batch_size, seen)),
{
    let next = mempool.get_block(batch_size, seen);
    law_block_leaves_no_trace(mempool, batch_size, seen, batch_size, seen);
    assert forall|account: AccountAddress| #[trigger]
        value_of(next.sequence_numbers, account) is Some implies queue_follows(
        next.store,
        account,
        value_of(next.sequence_numbers, account)->0,
    ) by {
        assert(value_of(mempool.sequence_numbers, account) is Some);
    }
}

/// Only transactions that may be in the next block are broadcast: one that a read of the timeline
/// gives follows the current sequence number of its account without a gap, where that is known.
pub proof fn law_broadcast_is_sequential(mempool: MempoolView, after: u64, count: nat, i: int)
    requires
        mempool.wf(),
        queue_is_sequential(mempool),
        0 <= i < timeline(mempool.store.pool, after, count).len(),
    ensures
        ({
            let t = timeline(mempool.store.pool, after, count)[i].txn;
            value_of(mempool.sequence_numbers, t.sender) matches Some(number) ==> sequential(
                mempool.store.pool,
                t.sender,
                number as int,
                t.sequence_number as int,
            )
        }),
{
    let t = timeline(mempool.store.pool, after, count)[i];
    law_timeline_order(mempool.store, after, count);
    let k = choose|k: int| 0 <= k < mempool.store.pool.len() && mempool.store.pool[k] == t;
    lemma_position(mempool.store.pool, k);
    assert(is_queued(mempool.store, (t.txn.sender, t.txn.sequence_number)));
    assert(value_of(mempool.sequence_numbers, t.txn.sender) is Some ==> queue_follows(
        mempool.store,
        t.txn.sender,
        value_of(mempool.sequence_numbers, t.txn.sender)->0,
    ));
}

} // verus!
