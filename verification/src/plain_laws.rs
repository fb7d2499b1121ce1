//! What the operations of the mempool mean for the transactions, the sequence numbers and the entry
//! times themselves.

use crate::cache_lemmas::{lemma_stored, lemma_value_of, lemma_without};
use crate::caches::{stored, value_of, without};
use crate::model::{MempoolView, Request};
use crate::plain_store_laws::{
    law_commit_drops, law_evict, law_insert_new, law_lookup, law_required, law_requeue,
    lemma_filter_same,
};
use crate::plain_text_laws::law_texts;
use crate::pool::{lookup, place, Eviction, StoreView};
use crate::pool_lemmas::{lemma_filter_wf, lemma_insert_wf, lemma_place, lemma_placed_wf};
use crate::status::{decimal, MempoolAddTransactionStatusCode};
use crate::types::{AccountAddress, MempoolTransactionView, TimelineState, TxnPointer};
use vstd::prelude::*;

verus! {

/// A value is what an entry says.
pub proof fn lemma_value_is_entry<K, V>(entries: Seq<(K, V)>, key: K)
    requires
        forall|a: int, b: int|
            #![trigger entries[a], entries[b]]
            0 <= a < b < entries.len() ==> entries[a].0 != entries[b].0,
    ensures
        forall|value: V| #[trigger]
            entries.contains((key, value)) <==> value_of(entries, key) == Some(value),
{
    lemma_value_of(entries, key);
    assert forall|value: V| #[trigger]
        entries.contains((key, value)) <==> value_of(entries, key) == Some(value) by {
        if entries.contains((key, value)) {
            let i = choose|i: int| 0 <= i < entries.len() && entries[i] == (key, value);
            assert(entries[i].0 == key);
        }
        if value_of(entries, key) == Some(value) {
            let i = choose|i: int| 0 <= i < entries.len() && (#[trigger] entries[i]).0 == key;
            assert(entries[i] == (key, value));
        }
    }
}

/// What a write to a cache means for the entries.
proof fn lemma_stored_entries<K, V>(entries: Seq<(K, V)>, capacity: nat, key: K, value: V)
    requires
        forall|a: int, b: int|
            #![trigger entries[a], entries[b]]
            0 <= a < b < entries.len() ==> entries[a].0 != entries[b].0,
        entries.len() <= capacity,
    ensures
        ({
            let next = stored(entries, capacity, key, value);
            &&& capacity > 0 ==> next.contains((key, value))
            &&& forall|other: V| #[trigger] next.contains((key, other)) ==> other == value
            &&& forall|entry: (K, V)|
                entry.0 != key && #[trigger] next.contains(entry) ==> entries.contains(entry)
            &&& forall|entry: (K, V)|
                entry.0 != key && entries.contains(entry) && (entries.len() < capacity || exists|
                    known: V,
                | #[trigger] entries.contains((key, known))) ==> #[trigger] next.contains(entry)
        }),
{
    let next = stored(entries, capacity, key, value);
    lemma_stored(entries, capacity, key, value);
    lemma_value_is_entry(entries, key);
    lemma_value_is_entry(next, key);
    assert forall|entry: (K, V)|
        entry.0 != key && #[trigger] next.contains(entry) implies entries.contains(entry) by {
        lemma_value_is_entry(next, entry.0);
        lemma_value_is_entry(entries, entry.0);
        assert(next.contains((entry.0, entry.1)));
        assert(entries.contains((entry.0, entry.1)));
    }
    assert forall|entry: (K, V)|
        entry.0 != key && entries.contains(entry) && (entries.len() < capacity || exists|known: V|
         #[trigger] entries.contains((key, known))) implies #[trigger] next.contains(entry) by {
        lemma_value_is_entry(next, entry.0);
        lemma_value_is_entry(entries, entry.0);
        assert(entries.contains((entry.0, entry.1)));
        assert(next.contains((entry.0, entry.1)));
    }
    assert forall|other: V| #[trigger] next.contains((key, other)) implies other == value by {
        if capacity == 0 {
            assert(next.len() == 0);
        }
    }
}

/// The current sequence number of a sender is the largest of what is known of it.
proof fn lemma_current_number(mempool: MempoolView, request: Request, number: u64)
    requires
        mempool.wf(),
        request.db_sequence_number <= number,
        forall|c: u64| #[trigger]
            mempool.sequence_numbers.contains((request.txn.sender, c)) ==> c <= number,
        number == request.db_sequence_number || mempool.sequence_numbers.contains(
            (request.txn.sender, number),
        ),
    ensures
        mempool.current_sequence_number(request) == number,
{
    lemma_value_is_entry(mempool.sequence_numbers, request.txn.sender);
    match value_of(mempool.sequence_numbers, request.txn.sender) {
        Some(cached) => {
            assert(mempool.sequence_numbers.contains((request.txn.sender, cached)));
        },
        None => {},
    }
}

// ---------------------------------------------------------------------------------------------
// Requests
// ---------------------------------------------------------------------------------------------

/// What a request is answered. Its sender owes the price times the gas of the transaction and of
/// all that it has in the mempool; who owns less is refused. The current sequence number is the
/// largest one that storage reports or the mempool knows; what is below is refused. Of two
/// transactions with one sender and one sequence number the one that pays more is taken, and a new
/// one as long as there is room.
pub proof fn law_answer(mempool: MempoolView, request: Request, number: u64)
    requires
        mempool.wf(),
        request.db_sequence_number <= number,
        forall|c: u64| #[trigger]
            mempool.sequence_numbers.contains((request.txn.sender, c)) ==> c <= number,
        number == request.db_sequence_number || mempool.sequence_numbers.contains(
            (request.txn.sender, number),
        ),
    ensures
        ({
            let pool = mempool.store.pool;
            let txn = request.txn;
            let answer = mempool.answer(request);
            let owed = txn.gas_unit_price * request.gas_amount + pool.fold_left(
                0int,
                |sum: int, t: MempoolTransactionView|
                    if t.txn.sender == request.txn.sender {
                        sum + t.txn.gas_unit_price * t.gas_amount
                    } else {
                        sum
                    },
            );
            let passes = request.balance >= owed && txn.sequence_number >= number;
            let dearer = exists|i: int|
                0 <= i < pool.len() && (#[trigger] pool[i]).txn.sender == txn.sender
                    && pool[i].txn.sequence_number == txn.sequence_number
                    && pool[i].txn.gas_unit_price >= txn.gas_unit_price;
            let cheaper = exists|i: int|
                0 <= i < pool.len() && (#[trigger] pool[i]).txn.sender == txn.sender
                    && pool[i].txn.sequence_number == txn.sequence_number
                    && pool[i].txn.gas_unit_price < txn.gas_unit_price;
            &&& mempool.required_balance(txn.sender, txn.gas_unit_price, request.gas_amount) == owed
            &&& request.balance < owed ==> {
                &&& answer.code == MempoolAddTransactionStatusCode::InsufficientBalance
                &&& answer.message == "balance: "@ + decimal(request.balance as nat)
                    + ", required_balance: "@ + decimal(owed as nat) + ", gas_amount: "@ + decimal(
                    request.gas_amount as nat,
                )
            }
            &&& request.balance >= owed && txn.sequence_number < number ==> {
                &&& answer.code == MempoolAddTransactionStatusCode::InvalidSeqNumber
                &&& answer.message == "transaction sequence number is "@ + decimal(
                    txn.sequence_number as nat,
                ) + ", current sequence number is  "@ + decimal(number as nat)
            }
            &&& passes && dearer ==> {
                &&& answer.code == MempoolAddTransactionStatusCode::InvalidUpdate
                &&& answer.message == "Failed to update gas price to "@ + decimal(
                    txn.gas_unit_price as nat,
                )
            }
            &&& passes && !dearer && !cheaper && pool.len() >= mempool.store.capacity ==> {
                &&& answer.code == MempoolAddTransactionStatusCode::MempoolIsFull
                &&& answer.message == "mempool size: "@ + decimal(pool.len()) + ", capacity: "@
                    + decimal(mempool.store.capacity)
            }
            &&& passes && (cheaper || (!dearer && pool.len() < mempool.store.capacity)) ==> {
                &&& answer.code == MempoolAddTransactionStatusCode::Valid
                &&& answer.message.len() == 0
            }
        }),
{
    let pool = mempool.store.pool;
    let txn = request.txn;
    lemma_current_number(mempool, request, number);
    law_required(pool, txn.sender);
    law_lookup(mempool.store, txn.pointer());
    assert(txn.gas_unit_price * request.gas_amount >= 0) by (nonlinear_arith);
    law_texts(
        request.balance,
        mempool.required_balance(txn.sender, txn.gas_unit_price, request.gas_amount),
        request.gas_amount,
        txn.sequence_number,
        number,
        pool.len(),
        mempool.store.capacity,
        txn.gas_unit_price,
    );
    if let Some(t) = lookup(pool, txn.pointer()) {
        let i = choose|i: int| 0 <= i < pool.len() && pool[i] == t;
        assert(pool[i].txn.sender == txn.sender);
    }
}

/// What a request does to the mempool as a whole. One whose sender cannot pay does nothing. Any
/// other makes the mempool know the current sequence number of the sender. One with a number that
/// is used up does no more than tell the queue of it. All others go to the store, with the time at
/// which the system drops them: the configured timeout after `now`, as far as that can be held.
/// When they came in is kept, unless they came from another validator.
pub proof fn law_request(
    mempool: MempoolView,
    request: Request,
    now: u128,
    now_millis: i64,
    number: u64,
    end: u128,
)
    requires
        mempool.wf(),
        request.db_sequence_number <= number,
        forall|c: u64| #[trigger]
            mempool.sequence_numbers.contains((request.txn.sender, c)) ==> c <= number,
        number == request.db_sequence_number || mempool.sequence_numbers.contains(
            (request.txn.sender, number),
        ),
        end == now + mempool.system_transaction_timeout || (end == u128::MAX && now
            + mempool.system_transaction_timeout > u128::MAX),
    ensures
        ({
            let next = mempool.add_txn(request, now, now_millis);
            let txn = request.txn;
            let owed = txn.gas_unit_price * request.gas_amount + mempool.store.pool.fold_left(
                0int,
                |sum: int, t: MempoolTransactionView|
                    if t.txn.sender == request.txn.sender {
                        sum + t.txn.gas_unit_price * t.gas_amount
                    } else {
                        sum
                    },
            );
            let known = exists|c: u64| #[trigger]
                mempool.sequence_numbers.contains((txn.sender, c));
            &&& request.balance < owed ==> next == mempool
            &&& next.sequence_number_capacity == mempool.sequence_number_capacity
            &&& next.metrics_capacity == mempool.metrics_capacity
            &&& next.system_transaction_timeout == mempool.system_transaction_timeout
            &&& request.balance >= owed ==> {
                let numbers = next.sequence_numbers;
                &&& mempool.sequence_number_capacity > 0 ==> numbers.contains((txn.sender, number))
                &&& forall|c: u64| #[trigger] numbers.contains((txn.sender, c)) ==> c == number
                &&& forall|entry: (AccountAddress, u64)|
                    entry.0 != txn.sender && #[trigger] numbers.contains(entry)
                        ==> mempool.sequence_numbers.contains(entry)
                &&& forall|entry: (AccountAddress, u64)|
                    entry.0 != txn.sender && mempool.sequence_numbers.contains(entry) && (known
                        || mempool.sequence_numbers.len() < mempool.sequence_number_capacity)
                        ==> #[trigger] numbers.contains(entry)
                &&& numbers == stored(
                    mempool.sequence_numbers,
                    mempool.sequence_number_capacity,
                    txn.sender,
                    number,
                )
            }
            &&& request.balance >= owed && txn.sequence_number < number ==> {
                &&& next.store == mempool.store.requeue(txn.sender, number)
                &&& next.metrics == mempool.metrics
            }
            &&& request.balance >= owed && txn.sequence_number >= number ==> {
                &&& next.store == mempool.store.insert(
                    MempoolTransactionView {
                        txn,
                        expiration_time: end,
                        gas_amount: request.gas_amount,
                        timeline_state: request.timeline_state,
                        ready: false,
                    },
                    number,
                )
                &&& request.timeline_state == TimelineState::NonQualified ==> next.metrics
                    == mempool.metrics
                &&& request.timeline_state != TimelineState::NonQualified ==> {
                    let pointer = (txn.sender, txn.sequence_number);
                    &&& mempool.metrics_capacity > 0 ==> next.metrics.contains(
                        (pointer, now_millis),
                    )
                    &&& forall|time: i64| #[trigger]
                        next.metrics.contains((pointer, time)) ==> time == now_millis
                    &&& next.metrics == stored(
                        mempool.metrics,
                        mempool.metrics_capacity,
                        pointer,
                        now_millis,
                    )
                }
            }
        }),
{
    let txn = request.txn;
    lemma_current_number(mempool, request, number);
    law_required(mempool.store.pool, txn.sender);
    assert(txn.gas_unit_price * request.gas_amount >= 0) by (nonlinear_arith);
    lemma_stored_entries(
        mempool.sequence_numbers,
        mempool.sequence_number_capacity,
        txn.sender,
        number,
    );
    lemma_stored_entries(
        mempool.metrics,
        mempool.metrics_capacity,
        (txn.sender, txn.sequence_number),
        now_millis,
    );
}

/// What the checks of a request find, and what they leave of the mempool for one that passes them:
/// it knows the current sequence number of the sender, and all else is as it was.
pub proof fn law_checks(mempool: MempoolView, request: Request, number: u64)
    requires
        mempool.wf(),
        request.db_sequence_number <= number,
        forall|c: u64| #[trigger]
            mempool.sequence_numbers.contains((request.txn.sender, c)) ==> c <= number,
        number == request.db_sequence_number || mempool.sequence_numbers.contains(
            (request.txn.sender, number),
        ),
    ensures
        ({
            let checked = mempool.checked(request);
            let owed = request.txn.gas_unit_price * request.gas_amount
                + mempool.store.pool.fold_left(
                0int,
                |sum: int, t: MempoolTransactionView|
                    if t.txn.sender == request.txn.sender {
                        sum + t.txn.gas_unit_price * t.gas_amount
                    } else {
                        sum
                    },
            );
            &&& mempool.is_unaffordable(request) <==> request.balance < owed
            &&& mempool.is_outdated(request) <==> request.txn.sequence_number < number
            &&& request.balance < owed ==> checked == mempool
            &&& request.balance >= owed && request.txn.sequence_number >= number ==> {
                &&& checked.store == mempool.store
                &&& checked.metrics == mempool.metrics
                &&& checked.metrics_capacity == mempool.metrics_capacity
                &&& checked.sequence_number_capacity == mempool.sequence_number_capacity
                &&& checked.system_transaction_timeout == mempool.system_transaction_timeout
                &&& checked.sequence_numbers == stored(
                    mempool.sequence_numbers,
                    mempool.sequence_number_capacity,
                    request.txn.sender,
                    number,
                )
            }
        }),
{
    lemma_current_number(mempool, request, number);
    law_required(mempool.store.pool, request.txn.sender);
    assert(request.txn.gas_unit_price * request.gas_amount >= 0) by (nonlinear_arith);
}

/// What an accepted transaction that was not there before means for the others, in full. They are
/// all still there, in their order, and it stands between those that pay as much or more and those
/// that pay less. It stays for the configured timeout. Of its sender's transactions those are
/// queued that follow the current sequence number without a gap.
pub proof fn law_taken_in(
    mempool: MempoolView,
    request: Request,
    now: u128,
    now_millis: i64,
    number: u64,
    end: u128,
) -> (at: int)
    requires
        mempool.wf(),
        request.db_sequence_number <= number <= request.txn.sequence_number,
        forall|c: u64| #[trigger]
            mempool.sequence_numbers.contains((request.txn.sender, c)) ==> c <= number,
        number == request.db_sequence_number || mempool.sequence_numbers.contains(
            (request.txn.sender, number),
        ),
        end == now + mempool.system_transaction_timeout || (end == u128::MAX && now
            + mempool.system_transaction_timeout > u128::MAX),
        request.balance >= request.txn.gas_unit_price * request.gas_amount
            + mempool.store.pool.fold_left(
            0int,
            |sum: int, t: MempoolTransactionView|
                if t.txn.sender == request.txn.sender {
                    sum + t.txn.gas_unit_price * t.gas_amount
                } else {
                    sum
                },
        ),
        mempool.store.pool.len() < mempool.store.capacity,
        forall|i: int|
            0 <= i < mempool.store.pool.len() ==> (
            #[trigger] mempool.store.pool[i]).txn.sender != request.txn.sender
                || mempool.store.pool[i].txn.sequence_number != request.txn.sequence_number,
    ensures
        ({
            let pool = mempool.store.pool;
            let next = mempool.add_txn(request, now, now_millis).store.pool;
            let ids = next.map_values(
                |t: MempoolTransactionView| (t.txn.sender, t.txn.sequence_number),
            );
            &&& 0 <= at <= pool.len()
            &&& forall|i: int|
                0 <= i < at ==> (#[trigger] pool[i]).txn.gas_unit_price
                    >= request.txn.gas_unit_price
            &&& forall|i: int|
                at <= i < pool.len() ==> (#[trigger] pool[i]).txn.gas_unit_price
                    < request.txn.gas_unit_price
            &&& next.map_values(
                |t: MempoolTransactionView| (t.txn, t.gas_amount, t.expiration_time),
            ) == pool.map_values(
                |t: MempoolTransactionView| (t.txn, t.gas_amount, t.expiration_time),
            ).insert(at, (request.txn, request.gas_amount, end))
            &&& forall|j: int|
                0 <= j < next.len() && (#[trigger] next[j]).txn.sender == request.txn.sender ==> (
                next[j].ready <==> number <= next[j].txn.sequence_number && forall|m: u64|
                    number <= m <= next[j].txn.sequence_number ==> #[trigger] ids.contains(
                        (request.txn.sender, m),
                    ))
            &&& forall|i: int|
                0 <= i < pool.len() && (#[trigger] pool[i]).txn.sender != request.txn.sender
                    ==> next.contains(pool[i])
        }),
{
    let pool = mempool.store.pool;
    let sender = request.txn.sender;
    let t = MempoolTransactionView {
        txn: request.txn,
        expiration_time: end,
        gas_amount: request.gas_amount,
        timeline_state: request.timeline_state,
        ready: false,
    };
    law_request(mempool, request, now, now_millis, number, end);
    let at = law_insert_new(mempool.store, t, number);
    let next = mempool.add_txn(request, now, now_millis).store;
    let entered = StoreView {
        pool: pool.insert(
            at,
            MempoolTransactionView {
                txn: t.txn,
                gas_amount: t.gas_amount,
                expiration_time: t.expiration_time,
                timeline_state: if t.timeline_state == TimelineState::NonQualified {
                    TimelineState::NonQualified
                } else {
                    TimelineState::NotReady
                },
                ready: false,
            },
        ),
        capacity: mempool.store.capacity,
        next_timeline_id: mempool.store.next_timeline_id,
    };
    assert(next == entered.requeue(sender, number));
    law_required(pool, sender);
    assert(t.txn.gas_unit_price * t.gas_amount >= 0) by (nonlinear_arith);
    law_lookup(mempool.store, t.pointer());
    assert(entered.wf()) by {
        lemma_placed_wf(mempool.store, StoreView::newcomer(t));
        lemma_same_place(mempool.store, t.txn.gas_unit_price, at);
    }
    lemma_requeued_in_full(entered, sender, number);
    assert(next.pool.map_values(
        |t: MempoolTransactionView| (t.txn, t.gas_amount, t.expiration_time),
    ) =~= pool.map_values(
        |t: MempoolTransactionView| (t.txn, t.gas_amount, t.expiration_time),
    ).insert(at, (request.txn, request.gas_amount, end)));
    assert forall|i: int|
        0 <= i < pool.len() && (#[trigger] pool[i]).txn.sender
            != request.txn.sender implies next.pool.contains(pool[i]) by {
        let j = if i < at {
            i
        } else {
            i + 1
        };
        assert(entered.pool[j] == pool[i]);
        assert(next.pool[j] == entered.pool[j]);
    }
    at
}

/// There is one place between those that pay as much or more and those that pay less.
proof fn lemma_same_place(store: StoreView, price: u64, at: int)
    requires
        store.wf(),
        0 <= at <= store.pool.len(),
        forall|i: int| 0 <= i < at ==> (#[trigger] store.pool[i]).txn.gas_unit_price >= price,
        forall|i: int|
            at <= i < store.pool.len() ==> (#[trigger] store.pool[i]).txn.gas_unit_price < price,
    ensures
        at == place(store.pool, price),
{
    lemma_place(store.pool, price);
    let other = place(store.pool, price);
    if at < other {
        assert(store.pool[at].txn.gas_unit_price < price);
    } else if other < at {
        assert(store.pool[other].txn.gas_unit_price >= price);
    }
}

/// What a new current sequence number does, over what the store then holds.
proof fn lemma_requeued_in_full(store: StoreView, sender: AccountAddress, number: u64)
    requires
        store.wf(),
    ensures
        ({
            let next = store.requeue(sender, number).pool;
            let ids = next.map_values(
                |t: MempoolTransactionView| (t.txn.sender, t.txn.sequence_number),
            );
            &&& next.len() == store.pool.len()
            &&& forall|i: int|
                #![trigger next[i]]
                0 <= i < next.len() ==> {
                    &&& next[i].txn == store.pool[i].txn
                    &&& next[i].gas_amount == store.pool[i].gas_amount
                    &&& next[i].expiration_time == store.pool[i].expiration_time
                    &&& next[i].txn.sender != sender ==> next[i] == store.pool[i]
                    &&& next[i].txn.sender == sender ==> (next[i].ready <==> number
                        <= next[i].txn.sequence_number && forall|m: u64|
                        number <= m <= next[i].txn.sequence_number ==> #[trigger] ids.contains(
                            (sender, m),
                        ))
                }
        }),
{
    let next = store.requeue(sender, number).pool;
    let ids = next.map_values(|t: MempoolTransactionView| (t.txn.sender, t.txn.sequence_number));
    let before = store.pool.map_values(
        |t: MempoolTransactionView| (t.txn.sender, t.txn.sequence_number),
    );
    law_requeue(store, sender, number);
    assert(ids =~= before) by {
        assert forall|i: int| 0 <= i < next.len() implies ids[i] == before[i] by {
            assert(next[i].txn == store.pool[i].txn);
        }
    }
}

/// How long a new transaction stays: the system's garbage collection drops it exactly if it runs
/// when the configured timeout since it came in is over, as far as that time can be held.
pub proof fn law_stay(
    mempool: MempoolView,
    request: Request,
    now: u128,
    now_millis: i64,
    gc_time: u128,
)
    requires
        mempool.wf(),
        mempool.answer(request).code == MempoolAddTransactionStatusCode::Valid,
        forall|i: int|
            0 <= i < mempool.store.pool.len() ==> (
            #[trigger] mempool.store.pool[i]).txn.sender != request.txn.sender
                || mempool.store.pool[i].txn.sequence_number != request.txn.sequence_number,
    ensures
        ({
            let later = mempool.add_txn(request, now, now_millis).evict(
                Eviction::SystemTtl(gc_time),
            );
            let stays = later.store.pool.map_values(
                |t: MempoolTransactionView| t.txn,
            ).contains(request.txn);
            &&& now + mempool.system_transaction_timeout <= u128::MAX ==> (stays <==> gc_time < now
                + mempool.system_transaction_timeout)
            &&& now + mempool.system_transaction_timeout > u128::MAX ==> (stays <==> gc_time
                < u128::MAX)
        }),
{
    let number = mempool.current_sequence_number(request);
    let end = if now + mempool.system_transaction_timeout <= u128::MAX {
        (now + mempool.system_transaction_timeout) as u128
    } else {
        u128::MAX
    };
    lemma_value_is_entry(mempool.sequence_numbers, request.txn.sender);
    assert(mempool.sequence_numbers.contains((request.txn.sender, number)) || number
        == request.db_sequence_number) by {
        if let Some(cached) = value_of(mempool.sequence_numbers, request.txn.sender) {
            assert(mempool.sequence_numbers.contains((request.txn.sender, cached)));
        }
    }
    law_answer(mempool, request, number);
    let at = law_taken_in(mempool, request, now, now_millis, number, end);
    let next = mempool.add_txn(request, now, now_millis).store;
    let cores = next.pool.map_values(
        |t: MempoolTransactionView| (t.txn, t.gas_amount, t.expiration_time),
    );
    assert(cores.len() == mempool.store.pool.len() + 1);
    assert(cores[at] == (request.txn, request.gas_amount, end));
    assert(next.pool[at].txn == request.txn && next.pool[at].expiration_time == end);
    lemma_insert_wf(
        mempool.store,
        request.entry(now, mempool.system_transaction_timeout),
        number,
    );
    let eviction = Eviction::SystemTtl(gc_time);
    let gone = |t: MempoolTransactionView| t.expiration_time <= gc_time;
    law_evict(next, eviction, gone);
    lemma_filter_wf(next, |t: MempoolTransactionView| !gone(t));
    let left = next.pool.filter(|t: MempoolTransactionView| !gone(t));
    let after = next.evict(eviction).pool;
    let txns = after.map_values(|t: MempoolTransactionView| t.txn);
    if gc_time < end {
        assert(next.pool.contains(next.pool[at]));
        assert(left.contains(next.pool[at]));
        let j = choose|j: int| 0 <= j < left.len() && left[j] == next.pool[at];
        assert(after[j].txn == request.txn);
        assert(txns[j] == request.txn);
    } else if txns.contains(request.txn) {
        let j = choose|j: int| 0 <= j < txns.len() && txns[j] == request.txn;
        assert(after[j].txn == left[j].txn);
        assert(next.pool.contains(left[j]));
        let k = choose|k: int| 0 <= k < next.pool.len() && next.pool[k] == left[j];
        assert(k == at) by {
            if k < at {
                assert(next.pool[k].pointer() != next.pool[at].pointer());
            } else if at < k {
                assert(next.pool[at].pointer() != next.pool[k].pointer());
            }
        }
    }
}

// ---------------------------------------------------------------------------------------------
// Removals
// ---------------------------------------------------------------------------------------------

/// What a commit does. The sender's next sequence number becomes the one after the committed
/// transaction, unless a larger one is known, which then stays. The sender's transactions below
/// that number go, and all others stay, in their order. Of those of the sender the ones are queued
/// that follow the number without a gap; those of other senders are as they were. The entry time
/// of the transaction goes, and all others stay.
pub proof fn law_committed(
    mempool: MempoolView,
    sender: AccountAddress,
    sequence_number: u64,
    number: u64,
)
    requires
        mempool.wf(),
        sequence_number < number,
        forall|c: u64| #[trigger] mempool.sequence_numbers.contains((sender, c)) ==> c <= number,
        number == sequence_number + 1 || mempool.sequence_numbers.contains((sender, number)),
    ensures
        ({
            let pool = mempool.store.pool;
            let next = mempool.remove_transaction(sender, sequence_number, false);
            let numbers = next.sequence_numbers;
            let ids = next.store.pool.map_values(
                |t: MempoolTransactionView| (t.txn.sender, t.txn.sequence_number),
            );
            let known = exists|c: u64| #[trigger] mempool.sequence_numbers.contains((sender, c));
            &&& mempool.sequence_number_capacity > 0 ==> numbers.contains((sender, number))
            &&& forall|c: u64| #[trigger] numbers.contains((sender, c)) ==> c == number
            &&& forall|entry: (AccountAddress, u64)|
                entry.0 != sender && #[trigger] numbers.contains(entry)
                    ==> mempool.sequence_numbers.contains(entry)
            &&& forall|entry: (AccountAddress, u64)|
                entry.0 != sender && mempool.sequence_numbers.contains(entry) && (known
                    || mempool.sequence_numbers.len() < mempool.sequence_number_capacity)
                    ==> #[trigger] numbers.contains(entry)
            &&& numbers == stored(
                mempool.sequence_numbers,
                mempool.sequence_number_capacity,
                sender,
                number,
            )
            &&& next.store.pool.map_values(
                |t: MempoolTransactionView| (t.txn, t.gas_amount, t.expiration_time),
            ) == pool.filter(
                |t: MempoolTransactionView|
                    t.txn.sender != sender || t.txn.sequence_number >= number,
            ).map_values(|t: MempoolTransactionView| (t.txn, t.gas_amount, t.expiration_time))
            &&& forall|i: int|
                0 <= i < pool.len() && (#[trigger] pool[i]).txn.sender == sender
                    && pool[i].txn.sequence_number > sequence_number && (forall|c: u64| #[trigger]
                    mempool.sequence_numbers.contains((sender, c)) ==> c
                        <= pool[i].txn.sequence_number) ==> ids.contains(
                    (sender, pool[i].txn.sequence_number),
                )
            &&& forall|j: int|
                0 <= j < next.store.pool.len() && (#[trigger] next.store.pool[j]).txn.sender
                    == sender ==> (next.store.pool[j].ready <==> forall|m: u64|
                    number <= m <= next.store.pool[j].txn.sequence_number
                        ==> #[trigger] ids.contains((sender, m)))
            &&& forall|i: int|
                0 <= i < pool.len() && (#[trigger] pool[i]).txn.sender != sender
                    ==> next.store.pool.contains(pool[i])
            &&& forall|entry: (TxnPointer, i64)| #[trigger]
                next.metrics.contains(entry) <==> mempool.metrics.contains(entry) && entry.0 != (
                sender,
                sequence_number,
            )
            &&& next.store.capacity == mempool.store.capacity
            &&& next.sequence_number_capacity == mempool.sequence_number_capacity
            &&& next.metrics_capacity == mempool.metrics_capacity
            &&& next.system_transaction_timeout == mempool.system_transaction_timeout
        }),
{
    let pool = mempool.store.pool;
    let next = mempool.remove_transaction(sender, sequence_number, false);
    let ids = next.store.pool.map_values(
        |t: MempoolTransactionView| (t.txn.sender, t.txn.sequence_number),
    );
    lemma_value_is_entry(mempool.sequence_numbers, sender);
    match value_of(mempool.sequence_numbers, sender) {
        Some(cached) => {
            assert(mempool.sequence_numbers.contains((sender, cached)));
        },
        None => {},
    }
    assert(mempool.committed_up_to(sender, sequence_number) == number);
    lemma_stored_entries(
        mempool.sequence_numbers,
        mempool.sequence_number_capacity,
        sender,
        number,
    );
    let pred = |t: MempoolTransactionView|
        t.txn.sender != sender || t.txn.sequence_number >= number;
    let left = StoreView {
        pool: pool.filter(pred),
        capacity: mempool.store.capacity,
        next_timeline_id: mempool.store.next_timeline_id,
    };
    law_commit_drops(mempool.store, sender, number);
    lemma_filter_wf(mempool.store, pred);
    law_requeue(left, sender, number);
    lemma_requeued_in_full(left, sender, number);
    assert(next.store == left.requeue(sender, number));
    assert(next.store.pool.map_values(
        |t: MempoolTransactionView| (t.txn, t.gas_amount, t.expiration_time),
    ) =~= left.pool.map_values(
        |t: MempoolTransactionView| (t.txn, t.gas_amount, t.expiration_time),
    ));
    assert forall|i: int|
        0 <= i < pool.len() && (#[trigger] pool[i]).txn.sender == sender
            && pool[i].txn.sequence_number > sequence_number && (forall|c: u64| #[trigger]
            mempool.sequence_numbers.contains((sender, c)) ==> c
                <= pool[i].txn.sequence_number) implies ids.contains(
        (sender, pool[i].txn.sequence_number),
    ) by {
        assert(pool.contains(pool[i]));
        assert(left.pool.contains(pool[i]));
        let j = choose|j: int| 0 <= j < left.pool.len() && left.pool[j] == pool[i];
        assert(next.store.pool[j].txn == left.pool[j].txn);
        assert(ids[j] == (sender, pool[i].txn.sequence_number));
    }
    assert forall|j: int|
        0 <= j < next.store.pool.len() && (#[trigger] next.store.pool[j]).txn.sender
            == sender implies next.store.pool[j].txn.sequence_number >= number by {
        assert(next.store.pool[j].txn == left.pool[j].txn);
        assert(pred(left.pool[j]));
    }
    assert forall|i: int|
        0 <= i < pool.len() && (#[trigger] pool[i]).txn.sender
            != sender implies next.store.pool.contains(pool[i]) by {
        assert(pool.contains(pool[i]));
        assert(left.pool.contains(pool[i]));
        let j = choose|j: int| 0 <= j < left.pool.len() && left.pool[j] == pool[i];
        assert(next.store.pool[j] == left.pool[j]);
    }
    lemma_forgotten(mempool, sender, sequence_number);
}

/// The entry times without that of one transaction.
proof fn lemma_forgotten(mempool: MempoolView, sender: AccountAddress, sequence_number: u64)
    requires
        mempool.wf(),
    ensures
        forall|entry: (TxnPointer, i64)| #[trigger]
            without(mempool.metrics, (sender, sequence_number)).contains(entry)
                <==> mempool.metrics.contains(entry) && entry.0 != (sender, sequence_number),
{
    let pointer = (sender, sequence_number);
    let left = without(mempool.metrics, pointer);
    lemma_without(mempool.metrics, pointer);
    assert forall|entry: (TxnPointer, i64)| #[trigger]
        left.contains(entry) <==> mempool.metrics.contains(entry) && entry.0 != pointer by {
        lemma_value_is_entry(mempool.metrics, entry.0);
        lemma_value_is_entry(left, entry.0);
        assert(left.contains((entry.0, entry.1)) || !left.contains((entry.0, entry.1)));
        assert(mempool.metrics.contains((entry.0, entry.1)) || !mempool.metrics.contains(
            (entry.0, entry.1),
        ));
    }
}

/// What a rejection does: it drops the transaction and its entry time from the mempool, and no
/// other; what is known of the sequence numbers stays.
pub proof fn law_rejected(mempool: MempoolView, sender: AccountAddress, sequence_number: u64)
    requires
        mempool.wf(),
    ensures
        ({
            let next = mempool.remove_transaction(sender, sequence_number, true);
            &&& next.store == mempool.store.evict(Eviction::Rejected((sender, sequence_number)))
            &&& next.store.pool.map_values(
                |t: MempoolTransactionView| (t.txn, t.gas_amount, t.expiration_time),
            ) == mempool.store.pool.filter(
                |t: MempoolTransactionView|
                    !(t.txn.sender == sender && t.txn.sequence_number == sequence_number),
            ).map_values(|t: MempoolTransactionView| (t.txn, t.gas_amount, t.expiration_time))
            &&& next.sequence_numbers == mempool.sequence_numbers
            &&& forall|entry: (TxnPointer, i64)| #[trigger]
                next.metrics.contains(entry) <==> mempool.metrics.contains(entry) && entry.0 != (
                sender,
                sequence_number,
            )
            &&& next.sequence_number_capacity == mempool.sequence_number_capacity
            &&& next.metrics_capacity == mempool.metrics_capacity
            &&& next.system_transaction_timeout == mempool.system_transaction_timeout
        }),
{
    let next = mempool.remove_transaction(sender, sequence_number, true);
    let gone = |t: MempoolTransactionView|
        t.txn.sender == sender && t.txn.sequence_number == sequence_number;
    law_evict(mempool.store, Eviction::Rejected((sender, sequence_number)), gone);
    lemma_forgotten(mempool, sender, sequence_number);
    let left = mempool.store.pool.filter(|t: MempoolTransactionView| !gone(t));
    assert(left == mempool.store.pool.filter(
        |t: MempoolTransactionView|
            !(t.txn.sender == sender && t.txn.sequence_number == sequence_number),
    )) by {
        lemma_filter_same(
            mempool.store.pool,
            |t: MempoolTransactionView| !gone(t),
            |t: MempoolTransactionView|
                !(t.txn.sender == sender && t.txn.sequence_number == sequence_number),
        );
    }
    assert(next.store.pool.map_values(
        |t: MempoolTransactionView| (t.txn, t.gas_amount, t.expiration_time),
    ) =~= left.map_values(
        |t: MempoolTransactionView| (t.txn, t.gas_amount, t.expiration_time),
    ));
}

/// A drop is a matter of the store alone.
pub proof fn law_eviction_touches_only_the_store(mempool: MempoolView, eviction: Eviction)
    ensures
        mempool.evict(eviction) == (MempoolView {
            store: mempool.store.evict(eviction),
            sequence_numbers: mempool.sequence_numbers,
            sequence_number_capacity: mempool.sequence_number_capacity,
            metrics: mempool.metrics,
            metrics_capacity: mempool.metrics_capacity,
            system_transaction_timeout: mempool.system_transaction_timeout,
        }),
{
}

/// A latency that is observed of a transaction is the time from its entry to one that a clock can
/// read.
pub proof fn law_observed(mempool: MempoolView, pointer: TxnPointer, latency: u64)
    requires
        mempool.wf(),
        mempool.may_observe(pointer, Some(latency)),
    ensures
        exists|time: i64| #[trigger]
            mempool.metrics.contains((pointer, time)) && time + latency <= i64::MAX,
{
    lemma_value_is_entry(mempool.metrics, pointer);
    let time = value_of(mempool.metrics, pointer)->0;
    assert(mempool.metrics.contains((pointer, time)));
}

} // verus!
