//! What holds of the mempool as a whole.

use crate::cache_lemmas::{lemma_stored, lemma_without};
use crate::caches::value_of;
use crate::model::{expiration, queue_is_sequential, MempoolView, Request};
use crate::pool::{
    after_eviction, cut_off, distinct, from_sequence_number, holds, is_next_on_timeline, is_queued,
    lookup, parked, place, position, queue_follows, required, sequential, signed, spared, timeline,
    timeline_end, timeline_id, Eviction, Pool, StoreView,
};
use crate::pool_lemmas::{
    lemma_commit_wf, lemma_evict_wf, lemma_filter_wf, lemma_insert_wf, lemma_lookup_insert,
    lemma_lookup_remove, lemma_place, lemma_position, lemma_remove_wf, lemma_requeue,
    lemma_requeue_again, lemma_required_insert, lemma_required_remove, lemma_required_same, lemma_sequential_same,
    same_transactions,
};
use crate::status::MempoolAddTransactionStatusCode;
use crate::types::{
    AccountAddress, MempoolTransactionView, SignedTransactionView, TimelineState, TxnPointer,
};
use vstd::prelude::*;

verus! {

// ---------------------------------------------------------------------------------------------
// Steps between the laws
// ---------------------------------------------------------------------------------------------

/// Where the transactions are the same, so are the positions.
proof fn lemma_same_positions(a: Pool, b: Pool, pointer: TxnPointer)
    requires
        distinct(a),
        distinct(b),
        same_transactions(a, b),
    ensures
        holds(a, pointer) == holds(b, pointer),
        holds(a, pointer) ==> {
            &&& 0 <= position(a, pointer) < a.len()
            &&& a[position(a, pointer)].is_at(pointer)
            &&& position(a, pointer) == position(b, pointer)
            &&& lookup(a, pointer)->0.txn == lookup(b, pointer)->0.txn
            &&& lookup(a, pointer)->0.gas_amount == lookup(b, pointer)->0.gas_amount
            &&& lookup(a, pointer)->0.expiration_time == lookup(b, pointer)->0.expiration_time
        },
{
    if holds(a, pointer) {
        let i = position(a, pointer);
        assert(a[i].is_at(pointer));
        assert(b[i].is_at(pointer));
        lemma_position(a, i);
        lemma_position(b, i);
    }
    if holds(b, pointer) {
        let i = position(b, pointer);
        assert(b[i].is_at(pointer));
        assert(a[i].is_at(pointer));
    }
}

/// What a new current sequence number of `sender` means for one transaction.
proof fn lemma_requeued(
    store: StoreView,
    sender: AccountAddress,
    sequence_number: u64,
    pointer: TxnPointer,
)
    requires
        store.wf(),
    ensures
        ({
            let next = store.requeue(sender, sequence_number);
            let in_run = sequential(
                next.pool,
                sender,
                sequence_number as int,
                pointer.1 as int,
            );
            &&& next.wf()
            &&& next.capacity == store.capacity
            &&& next.next_timeline_id >= store.next_timeline_id
            &&& holds(next.pool, pointer) == holds(store.pool, pointer)
            &&& required(next.pool, sender) == required(store.pool, sender)
            &&& holds(store.pool, pointer) ==> {
                let before = lookup(store.pool, pointer)->0;
                let after = lookup(next.pool, pointer)->0;
                &&& after.txn == before.txn
                &&& after.gas_amount == before.gas_amount
                &&& after.expiration_time == before.expiration_time
                &&& pointer.0 != sender ==> after == before
                &&& pointer.0 == sender ==> after.ready == in_run
                &&& after.timeline_state == TimelineState::NonQualified <==> before.timeline_state
                    == TimelineState::NonQualified
                &&& timeline_id(after) is Some ==> timeline_id(after) == timeline_id(before)
                    || timeline_id(after)->0 >= store.next_timeline_id
            }
        }),
{
    let next = store.requeue(sender, sequence_number);
    lemma_requeue(store, sender, sequence_number);
    assert forall|p: TxnPointer| #[trigger] holds(next.pool, p) == holds(store.pool, p) by {
        lemma_same_positions(store.pool, next.pool, p);
    }
    lemma_sequential_same(
        next.pool,
        store.pool,
        sender,
        sequence_number as int,
        pointer.1 as int,
    );
    lemma_required_same(store.pool, next.pool, sender);
    lemma_same_positions(store.pool, next.pool, pointer);
    if holds(store.pool, pointer) {
        let i = position(store.pool, pointer);
        assert(next.pool[i].txn == store.pool[i].txn);
    }
}

/// What a filter means for one transaction.
proof fn lemma_filtered(
    store: StoreView,
    pred: spec_fn(MempoolTransactionView) -> bool,
    pointer: TxnPointer,
)
    requires
        store.wf(),
    ensures
        holds(store.pool.filter(pred), pointer) <==> holds(store.pool, pointer) && pred(
            lookup(store.pool, pointer)->0,
        ),
        holds(store.pool.filter(pred), pointer) ==> lookup(store.pool.filter(pred), pointer)
            == lookup(store.pool, pointer),
{
    let pool = store.pool;
    let left = pool.filter(pred);
    lemma_filter_wf(store, pred);
    if holds(left, pointer) {
        let i = position(left, pointer);
        assert(0 <= i < left.len() && left[i].is_at(pointer));
        lemma_position(left, i);
        let k = choose|k: int| 0 <= k < pool.len() && pool[k] == left[i];
        lemma_position(pool, k);
    }
    if holds(pool, pointer) && pred(lookup(pool, pointer)->0) {
        let k = position(pool, pointer);
        assert(pool[k].is_at(pointer));
        assert(pool.contains(pool[k]));
        assert(left.contains(pool[k]));
        let i = choose|i: int| 0 <= i < left.len() && left[i] == pool[k];
        assert(left[i].is_at(pointer));
    }
}

/// What a drop means for one transaction.
pub proof fn lemma_evicted(store: StoreView, eviction: Eviction, pointer: TxnPointer)
    requires
        store.wf(),
    ensures
        ({
            let next = store.evict(eviction);
            &&& next.wf()
            &&& holds(next.pool, pointer) <==> holds(store.pool, pointer) && !eviction.takes(
                lookup(store.pool, pointer)->0,
            )
            &&& holds(next.pool, pointer) ==> {
                let before = lookup(store.pool, pointer)->0;
                let after = lookup(next.pool, pointer)->0;
                after == if cut_off(store.pool, eviction, before) {
                    parked(before)
                } else {
                    before
                }
            }
        }),
{
    let left = spared(store.pool, eviction);
    let next = after_eviction(store.pool, eviction);
    lemma_evict_wf(store, eviction);
    lemma_filtered(store, |t: MempoolTransactionView| !eviction.takes(t), pointer);
    lemma_same_positions(left, next, pointer);
}

/// What the entry of a transaction into the pool means for each transaction.
proof fn lemma_taken_in(store: StoreView, t: MempoolTransactionView, pointer: TxnPointer)
    requires
        store.wf(),
        store.admits(t.txn),
        required(store.pool, t.txn.sender) + t.cost() <= u64::MAX,
    ensures
        ({
            let next = store.taken_in(t);
            &&& next.wf()
            &&& holds(next.pool, pointer) <==> holds(store.pool, pointer) || pointer == t.pointer()
            &&& pointer != t.pointer() ==> lookup(next.pool, pointer) == lookup(
                store.pool,
                pointer,
            )
            &&& lookup(next.pool, t.pointer()) == Some(
                match lookup(store.pool, t.pointer()) {
                    Some(present) => StoreView::replacement(present, t),
                    None => StoreView::newcomer(t),
                },
            )
            &&& required(next.pool, t.txn.sender) <= required(store.pool, t.txn.sender) + t.cost()
        }),
{
    lemma_insert_wf(store, t, 0);
    let next = store.taken_in(t);
    let less = if holds(store.pool, t.pointer()) {
        store.pool.remove(position(store.pool, t.pointer()))
    } else {
        store.pool
    };
    let entry = match lookup(store.pool, t.pointer()) {
        Some(present) => StoreView::replacement(present, t),
        None => StoreView::newcomer(t),
    };
    let at = place(less, entry.txn.gas_unit_price);
    if holds(store.pool, t.pointer()) {
        let i = position(store.pool, t.pointer());
        assert(0 <= i < store.pool.len() && store.pool[i].is_at(t.pointer()));
        lemma_remove_wf(store, i);
        lemma_required_remove(store.pool, i, t.txn.sender);
        lemma_lookup_remove(store.pool, i, pointer);
    }
    lemma_place(less, entry.txn.gas_unit_price);
    lemma_required_insert(less, at, entry, t.txn.sender);
    assert(next.pool == less.insert(at, entry));
    lemma_lookup_insert(less, at, entry, pointer);
    lemma_lookup_insert(less, at, entry, t.pointer());
}

// ---------------------------------------------------------------------------------------------
// Commits and rejections
// ---------------------------------------------------------------------------------------------

/// Once a transaction is committed, neither it nor an earlier one of its sender is in the mempool,
/// and all other transactions still are. Of those of the sender the ones are in the queue that come
/// next without a gap; those of the other accounts are as they were.
pub proof fn law_commit(
    mempool: MempoolView,
    sender: AccountAddress,
    sequence_number: u64,
    pointer: TxnPointer,
)
    requires
        mempool.wf(),
        sequence_number < u64::MAX,
    ensures
        ({
            let next = mempool.remove_transaction(sender, sequence_number, false);
            let number = mempool.committed_up_to(sender, sequence_number);
            let before = lookup(mempool.store.pool, pointer);
            let after = lookup(next.store.pool, pointer);
            &&& next.wf()
            &&& number > sequence_number
            &&& after is Some <==> before is Some && !(pointer.0 == sender && pointer.1 < number)
            &&& pointer.0 == sender && pointer.1 <= sequence_number ==> after is None
            &&& after is Some ==> after->0.txn == before->0.txn
            &&& after is Some && pointer.0 == sender ==> (after->0.ready <==> sequential(
                next.store.pool,
                sender,
                number as int,
                pointer.1 as int,
            ))
            &&& pointer.0 != sender ==> after == before
        }),
{
    let number = mempool.committed_up_to(sender, sequence_number);
    let pred = |t: MempoolTransactionView|
        !(t.txn.sender == sender && t.txn.sequence_number < number);
    let left = StoreView {
        pool: from_sequence_number(mempool.store.pool, sender, number),
        ..mempool.store
    };
    lemma_commit_wf(mempool.store, sender, number);
    lemma_filtered(mempool.store, pred, pointer);
    lemma_requeued(left, sender, number, pointer);
    lemma_stored(mempool.sequence_numbers, mempool.sequence_number_capacity, sender, number);
    lemma_without(mempool.metrics, (sender, sequence_number));
    if holds(mempool.store.pool, pointer) {
        let i = position(mempool.store.pool, pointer);
        assert(mempool.store.pool[i].is_at(pointer));
    }
}

/// After a commit the mempool knows the next sequence number of the sender: behind the committed
/// one, and not before what was known. It can only forget it of other accounts.
pub proof fn law_commit_advances_sequence_number(
    mempool: MempoolView,
    sender: AccountAddress,
    sequence_number: u64,
    account: AccountAddress,
)
    requires
        mempool.wf(),
        sequence_number < u64::MAX,
        mempool.sequence_number_capacity > 0,
    ensures
        ({
            let next = mempool.remove_transaction(sender, sequence_number, false);
            let before = value_of(mempool.sequence_numbers, account);
            let after = value_of(next.sequence_numbers, account);
            &&& account == sender ==> {
                &&& after == Some(mempool.committed_up_to(sender, sequence_number))
                &&& after->0 > sequence_number
                &&& before is Some ==> after->0 >= before->0
            }
            &&& account != sender ==> after == before || after is None
        }),
{
    lemma_stored(
        mempool.sequence_numbers,
        mempool.sequence_number_capacity,
        sender,
        mempool.committed_up_to(sender, sequence_number),
    );
}

/// Once a transaction is rejected it is not in the mempool, and all other transactions still are.
/// If it was in the queue, no later one of its sender is there any more; the others are as they
/// were.
pub proof fn law_reject(
    mempool: MempoolView,
    sender: AccountAddress,
    sequence_number: u64,
    pointer: TxnPointer,
)
    requires
        mempool.wf(),
    ensures
        ({
            let next = mempool.remove_transaction(sender, sequence_number, true);
            let before = lookup(mempool.store.pool, pointer);
            let after = lookup(next.store.pool, pointer);
            &&& next.wf()
            &&& next.sequence_numbers == mempool.sequence_numbers
            &&& after is Some <==> before is Some && pointer != (sender, sequence_number)
            &&& after is Some ==> after->0.txn == before->0.txn
            &&& after is Some && pointer.0 == sender && pointer.1 > sequence_number && is_queued(
                mempool.store,
                (sender, sequence_number),
            ) ==> !after->0.ready && timeline_id(after->0) is None
            &&& pointer.0 != sender || pointer.1 < sequence_number || (pointer.1 > sequence_number
                && !is_queued(mempool.store, (sender, sequence_number))) ==> after == before
        }),
{
    let eviction = Eviction::Rejected((sender, sequence_number));
    lemma_evicted(mempool.store, eviction, pointer);
    lemma_without(mempool.metrics, (sender, sequence_number));
    if holds(mempool.store.pool, pointer) {
        let i = position(mempool.store.pool, pointer);
        assert(mempool.store.pool[i].is_at(pointer));
        lemma_position(mempool.store.pool, i);
    }
    if holds(mempool.store.pool, (sender, sequence_number)) {
        let k = position(mempool.store.pool, (sender, sequence_number));
        assert(mempool.store.pool[k].is_at((sender, sequence_number)));
        assert(eviction.takes(mempool.store.pool[k]));
        lemma_position(mempool.store.pool, k);
    }
    if cut_off(mempool.store.pool, eviction, lookup(mempool.store.pool, pointer)->0) {
        let k = choose|k: int|
            0 <= k < mempool.store.pool.len() && eviction.takes(#[trigger] mempool.store.pool[k])
                && mempool.store.pool[k].ready && mempool.store.pool[k].txn.sender
                == lookup(mempool.store.pool, pointer)->0.txn.sender
                && mempool.store.pool[k].txn.sequence_number < lookup(
                mempool.store.pool,
                pointer,
            )->0.txn.sequence_number;
        lemma_position(mempool.store.pool, k);
    }
}

/// The time at which a transaction came in is known from its request on, and forgotten once
/// consensus is done with it. It is not kept of transactions that came from another validator.
pub proof fn law_entry_time(
    mempool: MempoolView,
    request: Request,
    now: u128,
    now_millis: i64,
    is_rejected: bool,
)
    requires
        mempool.wf(),
        mempool.metrics_capacity > 0,
        !mempool.is_unaffordable(request),
        !mempool.is_outdated(request),
    ensures
        ({
            let next = mempool.add_txn(request, now, now_millis);
            let pointer = request.txn.pointer();
            let done = next.remove_transaction(pointer.0, pointer.1, is_rejected);
            &&& request.timeline_state != TimelineState::NonQualified ==> value_of(
                next.metrics,
                pointer,
            ) == Some(now_millis)
            &&& request.timeline_state == TimelineState::NonQualified ==> next.metrics
                == mempool.metrics
            &&& value_of(done.metrics, pointer) is None
        }),
{
    let next = mempool.add_txn(request, now, now_millis);
    let pointer = request.txn.pointer();
    lemma_stored(mempool.metrics, mempool.metrics_capacity, pointer, now_millis);
    lemma_without(next.metrics, pointer);
}

// ---------------------------------------------------------------------------------------------
// Garbage collection
// ---------------------------------------------------------------------------------------------

/// Once the system's garbage collection has run, no transaction is in the mempool whose time is
/// over, and all others still are.
pub proof fn law_gc_by_system_ttl(mempool: MempoolView, now: u128, pointer: TxnPointer)
    requires
        mempool.wf(),
    ensures
        ({
            let next = mempool.evict(Eviction::SystemTtl(now));
            let before = lookup(mempool.store.pool, pointer);
            let after = lookup(next.store.pool, pointer);
            &&& next.wf()
            &&& after is Some <==> before is Some && before->0.expiration_time > now
            &&& after is Some ==> after->0.txn == before->0.txn
        }),
{
    lemma_evicted(mempool.store, Eviction::SystemTtl(now), pointer);
}

/// No transaction stays in the mempool for longer than the settings allow, whether or not consensus
/// gets on: the garbage collection drops one that came in at `now` exactly if it runs when the time
/// of that transaction is over.
pub proof fn law_stay_is_limited(
    mempool: MempoolView,
    request: Request,
    now: u128,
    now_millis: i64,
    gc_time: u128,
)
    requires
        mempool.wf(),
        mempool.answer(request).code == MempoolAddTransactionStatusCode::Valid,
        !holds(mempool.store.pool, request.txn.pointer()),
    ensures
        ({
            let next = mempool.add_txn(request, now, now_millis);
            let later = next.evict(Eviction::SystemTtl(gc_time));
            holds(later.store.pool, request.txn.pointer()) <==> gc_time < expiration(
                now,
                mempool.system_transaction_timeout,
            )
        }),
{
    let next = mempool.add_txn(request, now, now_millis);
    law_accepted_request(mempool, request, now, now_millis, request.txn.pointer());
    law_gc_by_system_ttl(next, gc_time, request.txn.pointer());
}

/// Once the garbage collection for a block has run, no transaction is in the mempool whose client
/// wanted it dropped by then, and all others still are.
pub proof fn law_gc_by_expiration_time(mempool: MempoolView, block_time: u128, pointer: TxnPointer)
    requires
        mempool.wf(),
    ensures
        ({
            let next = mempool.evict(Eviction::ClientExpiration(block_time));
            let before = lookup(mempool.store.pool, pointer);
            let after = lookup(next.store.pool, pointer);
            &&& next.wf()
            &&& after is Some <==> before is Some && before->0.txn.expiration_time > block_time
            &&& after is Some ==> after->0.txn == before->0.txn
        }),
{
    lemma_evicted(mempool.store, Eviction::ClientExpiration(block_time), pointer);
}

// ---------------------------------------------------------------------------------------------
// Requests
// ---------------------------------------------------------------------------------------------

/// A refused request drops, adds and replaces no transaction, and leaves those of the other
/// accounts as they were. One that is refused for the balance leaves everything as it was. Any
/// other makes the queue follow the current sequence number of the account that it brings to
/// light; where that was known before, the queue stays as it was.
pub proof fn law_refused_request_changes_no_transaction(
    mempool: MempoolView,
    request: Request,
    now: u128,
    now_millis: i64,
    pointer: TxnPointer,
)
    requires
        mempool.wf(),
        mempool.answer(request).code != MempoolAddTransactionStatusCode::Valid,
    ensures
        ({
            let next = mempool.add_txn(request, now, now_millis);
            let sender = request.txn.sender;
            let number = mempool.current_sequence_number(request);
            let for_balance = mempool.answer(request).code
                == MempoolAddTransactionStatusCode::InsufficientBalance;
            let before = lookup(mempool.store.pool, pointer);
            let after = lookup(next.store.pool, pointer);
            &&& next.wf()
            &&& for_balance ==> next == mempool
            &&& after is Some <==> before is Some
            &&& after is Some ==> {
                &&& after->0.txn == before->0.txn
                &&& after->0.gas_amount == before->0.gas_amount
                &&& after->0.expiration_time == before->0.expiration_time
                &&& after->0.timeline_state == TimelineState::NonQualified
                    <==> before->0.timeline_state == TimelineState::NonQualified
            }
            &&& pointer.0 != sender ==> after == before
            &&& after is Some && pointer.0 == sender && !for_balance ==> (after->0.ready
                <==> sequential(next.store.pool, sender, number as int, pointer.1 as int))
            &&& queue_is_sequential(mempool) && value_of(mempool.sequence_numbers, sender) == Some(
                number,
            ) ==> next.store == mempool.store
            &&& is_appended(mempool.store, next.store, pointer)
        }),
{
    let sender = request.txn.sender;
    let number = mempool.current_sequence_number(request);
    lemma_requeued(mempool.store, sender, number, pointer);
    lemma_stored(mempool.sequence_numbers, mempool.sequence_number_capacity, sender, number);
    lemma_stored(mempool.metrics, mempool.metrics_capacity, request.txn.pointer(), now_millis);
    if holds(mempool.store.pool, pointer) {
        let i = position(mempool.store.pool, pointer);
        assert(mempool.store.pool[i].is_at(pointer));
    }
    if queue_is_sequential(mempool) && value_of(mempool.sequence_numbers, sender) == Some(number) {
        assert(queue_follows(mempool.store, sender, number));
        lemma_requeue_again(mempool.store, sender, number);
    }
}

/// When each answer is given.
pub proof fn law_answers(mempool: MempoolView, request: Request)
    ensures
        ({
            let code = mempool.answer(request).code;
            let present = lookup(mempool.store.pool, request.txn.pointer());
            let can_pay = request.balance >= mempool.required_balance(
                request.txn.sender,
                request.txn.gas_unit_price,
                request.gas_amount,
            );
            let is_current = request.txn.sequence_number >= mempool.current_sequence_number(
                request,
            );
            &&& code == MempoolAddTransactionStatusCode::InsufficientBalance <==> !can_pay
            &&& code == MempoolAddTransactionStatusCode::InvalidSeqNumber <==> can_pay
                && !is_current
            &&& code == MempoolAddTransactionStatusCode::InvalidUpdate <==> can_pay && is_current
                && present is Some && request.txn.gas_unit_price <= present->0.txn.gas_unit_price
            &&& code == MempoolAddTransactionStatusCode::MempoolIsFull <==> can_pay && is_current
                && present is None && mempool.store.pool.len() >= mempool.store.capacity
        }),
{
}

/// An accepted transaction is in the mempool, and all others still are. Its sender can pay for all
/// it has there. Of the sender's transactions those are in the queue that follow its current
/// sequence number without a gap; those of the other accounts are as they were. The accepted one is
/// not broadcast if it came from another validator; otherwise it is as soon as it is queued, at a
/// position behind all that were given before, as long as there is one left.
pub proof fn law_accepted_request(
    mempool: MempoolView,
    request: Request,
    now: u128,
    now_millis: i64,
    pointer: TxnPointer,
)
    requires
        mempool.wf(),
        mempool.answer(request).code == MempoolAddTransactionStatusCode::Valid,
    ensures
        ({
            let next = mempool.add_txn(request, now, now_millis);
            let sender = request.txn.sender;
            let number = mempool.current_sequence_number(request);
            let before = lookup(mempool.store.pool, pointer);
            let after = lookup(next.store.pool, pointer);
            &&& after is Some <==> before is Some || pointer == request.txn.pointer()
            &&& pointer == request.txn.pointer() ==> after->0.txn == request.txn
                && after->0.gas_amount == request.gas_amount && after->0.expiration_time
                == match before {
                Some(present) => present.expiration_time,
                None => expiration(now, mempool.system_transaction_timeout),
            }
            &&& pointer != request.txn.pointer() && before is Some ==> after->0.txn
                == before->0.txn
            &&& after is Some && pointer.0 == sender ==> (after->0.ready <==> sequential(
                next.store.pool,
                sender,
                number as int,
                pointer.1 as int,
            ))
            &&& pointer.0 != sender ==> after == before
            &&& pointer == request.txn.pointer() && request.timeline_state
                == TimelineState::NonQualified ==> after->0.timeline_state
                == TimelineState::NonQualified
            &&& pointer == request.txn.pointer() && request.timeline_state
                != TimelineState::NonQualified && after->0.ready && next.store.next_timeline_id
                < u64::MAX ==> timeline_id(after->0) is Some && timeline_id(after->0)->0
                >= mempool.store.next_timeline_id
            &&& pointer != request.txn.pointer() && before is Some ==> (after->0.timeline_state
                == TimelineState::NonQualified <==> before->0.timeline_state
                == TimelineState::NonQualified)
            &&& next.store.next_timeline_id >= mempool.store.next_timeline_id
            &&& required(next.store.pool, sender) <= request.balance
            &&& next.wf()
        }),
{
    let next = mempool.add_txn(request, now, now_millis);
    let sender = request.txn.sender;
    let number = mempool.current_sequence_number(request);
    let t = request.entry(now, mempool.system_transaction_timeout);
    let entered = mempool.store.taken_in(t);
    lemma_taken_in(mempool.store, t, pointer);
    lemma_requeued(entered, sender, number, pointer);
    lemma_stored(mempool.sequence_numbers, mempool.sequence_number_capacity, sender, number);
    lemma_stored(mempool.metrics, mempool.metrics_capacity, request.txn.pointer(), now_millis);
    if holds(mempool.store.pool, t.pointer()) {
        let i = position(mempool.store.pool, t.pointer());
        assert(mempool.store.pool[i].is_at(t.pointer()));
    }
    if holds(next.store.pool, pointer) && next.store.next_timeline_id < u64::MAX {
        let i = position(next.store.pool, pointer);
        assert(next.store.pool[i].is_at(pointer));
        law_timeline_is_queue(next.store, i);
    }
}

/// Of two transactions with one sender and one sequence number the mempool keeps the one that pays
/// more: what it holds is never dropped for a new one, and never replaced by a cheaper one.
pub proof fn law_request_never_lowers_a_price(
    mempool: MempoolView,
    request: Request,
    now: u128,
    now_millis: i64,
    pointer: TxnPointer,
)
    requires
        mempool.wf(),
        holds(mempool.store.pool, pointer),
    ensures
        ({
            let next = mempool.add_txn(request, now, now_millis);
            let before = lookup(mempool.store.pool, pointer)->0;
            let after = lookup(next.store.pool, pointer)->0;
            &&& holds(next.store.pool, pointer)
            &&& after.txn == before.txn || (after.txn == request.txn
                && after.txn.gas_unit_price > before.txn.gas_unit_price)
        }),
{
    if mempool.answer(request).code == MempoolAddTransactionStatusCode::Valid {
        law_accepted_request(mempool, request, now, now_millis, pointer);
    } else {
        law_refused_request_changes_no_transaction(mempool, request, now, now_millis, pointer);
    }
}

/// What is known of an account's next sequence number never goes back with a request.
pub proof fn law_request_advances_sequence_number(
    mempool: MempoolView,
    request: Request,
    now: u128,
    now_millis: i64,
    account: AccountAddress,
)
    requires
        mempool.wf(),
        mempool.sequence_number_capacity > 0,
    ensures
        ({
            let next = mempool.add_txn(request, now, now_millis);
            let before = value_of(mempool.sequence_numbers, account);
            let after = value_of(next.sequence_numbers, account);
            &&& before is Some && after is Some ==> after->0 >= before->0
            &&& account == request.txn.sender && !mempool.is_unaffordable(request) ==> after is Some
                && after->0 >= request.db_sequence_number
        }),
{
    lemma_stored(
        mempool.sequence_numbers,
        mempool.sequence_number_capacity,
        request.txn.sender,
        mempool.current_sequence_number(request),
    );
}

/// The mempool never holds more transactions than its settings allow, and no sender has more in it
/// than a balance can cover.
pub proof fn law_limits(mempool: MempoolView, sender: AccountAddress)
    requires
        mempool.wf(),
    ensures
        mempool.store.pool.len() <= mempool.store.capacity,
        required(mempool.store.pool, sender) <= u64::MAX,
{
}

// ---------------------------------------------------------------------------------------------
// The broadcast
// ---------------------------------------------------------------------------------------------

/// What is broadcast are the queued transactions, but for those that came from another validator,
/// as long as the timeline has positions left.
pub proof fn law_timeline_is_queue(store: StoreView, i: int)
    requires
        store.wf(),
        0 <= i < store.pool.len(),
        store.next_timeline_id < u64::MAX,
    ensures
        timeline_id(store.pool[i]) is Some <==> store.pool[i].ready
            && store.pool[i].timeline_state != TimelineState::NonQualified,
{
}

/// A read of the timeline gives queued transactions, behind the position where it starts, in the
/// order of the timeline, and not more than were asked for.
pub proof fn law_timeline_order(store: StoreView, after: u64, count: nat)
    requires
        store.wf(),
    ensures
        ({
            let read = timeline(store.pool, after, count);
            &&& read.len() <= count
            &&& forall|i: int|
                0 <= i < read.len() ==> {
                    &&& store.pool.contains(#[trigger] read[i])
                    &&& read[i].ready
                    &&& timeline_id(read[i]) is Some
                    &&& timeline_id(read[i])->0 > after
                }
            &&& forall|i: int, j: int|
                #![trigger read[i], read[j]]
                0 <= i < j < read.len() ==> timeline_id(read[i])->0 < timeline_id(read[j])->0
        }),
    decreases count,
{
    let read = timeline(store.pool, after, count);
    if count > 0 && exists|i: int| is_next_on_timeline(store.pool, after, i) {
        let k = choose|k: int| is_next_on_timeline(store.pool, after, k);
        let first = store.pool[k];
        assert(store.pool.contains(first));
        let rest = timeline(store.pool, timeline_id(first)->0, (count - 1) as nat);
        law_timeline_order(store, timeline_id(first)->0, (count - 1) as nat);
        assert(read == seq![first] + rest);
        assert forall|i: int| 0 <= i < read.len() implies {
            &&& store.pool.contains(#[trigger] read[i])
            &&& read[i].ready
            &&& timeline_id(read[i]) is Some
            &&& timeline_id(read[i])->0 > after
        } by {
            if i > 0 {
                assert(read[i] == rest[i - 1]);
            }
        }
        assert forall|i: int, j: int|
            #![trigger read[i], read[j]]
            0 <= i < j < read.len() implies timeline_id(read[i])->0 < timeline_id(read[j])->0 by {
            assert(read[j] == rest[j - 1]);
            if i > 0 {
                assert(read[i] == rest[i - 1]);
            }
        }
    }
}

/// A read of the timeline passes nothing over: a transaction with a position behind the start of
/// the read is read, unless the read stopped at `count` before it.
pub proof fn law_timeline_is_complete(store: StoreView, after: u64, count: nat, i: int)
    requires
        store.wf(),
        0 <= i < store.pool.len(),
        timeline_id(store.pool[i]) is Some,
        timeline_id(store.pool[i])->0 > after,
    ensures
        ({
            let read = timeline(store.pool, after, count);
            ||| read.contains(store.pool[i])
            ||| read.len() == count && timeline_end(read, after) < timeline_id(store.pool[i])->0
        }),
    decreases count,
{
    if count > 0 {
        lemma_some_next_on_timeline(store.pool, after, i);
        let read = timeline(store.pool, after, count);
        let k = choose|k: int| is_next_on_timeline(store.pool, after, k);
        let first = store.pool[k];
        let rest = timeline(store.pool, timeline_id(first)->0, (count - 1) as nat);
        assert(read == seq![first] + rest);
        assert(read[0] == first);
        if timeline_id(first)->0 == timeline_id(store.pool[i])->0 {
            assert(k == i);
        } else {
            law_timeline_is_complete(
                store,
                timeline_id(first)->0,
                (count - 1) as nat,
                i,
            );
            if rest.contains(store.pool[i]) {
                let m = choose|m: int| 0 <= m < rest.len() && rest[m] == store.pool[i];
                assert(read[m + 1] == store.pool[i]);
            } else if rest.len() > 0 {
                assert(read.last() == rest.last());
            } else {
                assert(read.last() == first);
            }
        }
    }
}

/// If any transaction is behind a position of the timeline, one is next.
proof fn lemma_some_next_on_timeline(pool: Pool, after: u64, i: int)
    requires
        0 <= i < pool.len(),
        timeline_id(pool[i]) is Some,
        timeline_id(pool[i])->0 > after,
    ensures
        exists|k: int| is_next_on_timeline(pool, after, k),
    decreases timeline_id(pool[i])->0,
{
    if !is_next_on_timeline(pool, after, i) {
        let j = choose|j: int|
            0 <= j < pool.len() && timeline_id(#[trigger] pool[j]) is Some && timeline_id(
                pool[j],
            )->0 > after && timeline_id(pool[j])->0 < timeline_id(pool[i])->0;
        lemma_some_next_on_timeline(pool, after, j);
    }
}

/// A reader that goes on from the position where it stopped gets what one read would have given:
/// nothing twice, and nothing left out.
pub proof fn law_timeline_resumes(store: StoreView, after: u64, first: nat, second: nat)
    requires
        store.wf(),
    ensures
        ({
            let read = timeline(store.pool, after, first);
            let more = timeline(store.pool, timeline_end(read, after), second);
            read.len() == first || more.len() == 0
        }),
        timeline(store.pool, after, first) + timeline(
            store.pool,
            timeline_end(timeline(store.pool, after, first), after),
            second,
        ) == timeline(store.pool, after, first + second),
    decreases first,
{
    let read = timeline(store.pool, after, first);
    if first == 0 {
        assert(read + timeline(store.pool, after, second) =~= timeline(store.pool, after, second));
    } else if !exists|i: int| is_next_on_timeline(store.pool, after, i) {
        assert(read + timeline(store.pool, after, second) =~= Seq::empty());
    } else {
        let next = store.pool[choose|i: int| is_next_on_timeline(store.pool, after, i)];
        let id = timeline_id(next)->0;
        let rest = timeline(store.pool, id, (first - 1) as nat);
        law_timeline_resumes(store, id, (first - 1) as nat, second);
        assert(read == seq![next] + rest);
        assert(timeline_end(read, after) == timeline_end(rest, id)) by {
            if rest.len() > 0 {
                assert(read.last() == rest.last());
            } else {
                assert(read.last() == next);
            }
        }
        let more = timeline(store.pool, timeline_end(rest, id), second);
        assert((seq![next] + rest) + more =~= seq![next] + (rest + more));
        assert((first + second - 1) as nat == (first - 1) as nat + second);
    }
}

/// The position of the transaction in the timeline, if it is in the mempool and has one.
pub open spec fn timeline_position(store: StoreView, pointer: TxnPointer) -> Option<u64> {
    match lookup(store.pool, pointer) {
        Some(t) => timeline_id(t),
        None => None,
    }
}

/// Whether the transaction has kept its position in the timeline, has left it, or has got a
/// position behind all that were given before.
pub open spec fn is_appended(before: StoreView, after: StoreView, pointer: TxnPointer) -> bool {
    &&& after.next_timeline_id >= before.next_timeline_id
    &&& timeline_position(before, pointer) is Some ==> timeline_position(before, pointer)->0
        < before.next_timeline_id
    &&& timeline_position(after, pointer) is Some ==> timeline_position(after, pointer)
        == timeline_position(before, pointer) || timeline_position(after, pointer)->0
        >= before.next_timeline_id
}

/// The timeline only grows at its end, whatever is done with the mempool: a reader that has come to
/// a position misses nothing that gets a position later.
pub proof fn law_timeline_only_grows(
    mempool: MempoolView,
    request: Request,
    now: u128,
    now_millis: i64,
    sender: AccountAddress,
    sequence_number: u64,
    is_rejected: bool,
    eviction: Eviction,
    pointer: TxnPointer,
)
    requires
        mempool.wf(),
        !is_rejected ==> sequence_number < u64::MAX,
    ensures
        is_appended(mempool.store, mempool.add_txn(request, now, now_millis).store, pointer),
        is_appended(
            mempool.store,
            mempool.remove_transaction(sender, sequence_number, is_rejected).store,
            pointer,
        ),
        is_appended(mempool.store, mempool.evict(eviction).store, pointer),
{
    if holds(mempool.store.pool, pointer) {
        let i = position(mempool.store.pool, pointer);
        assert(mempool.store.pool[i].is_at(pointer));
    }
    lemma_evicted(mempool.store, eviction, pointer);
    if is_rejected {
        lemma_evicted(mempool.store, Eviction::Rejected((sender, sequence_number)), pointer);
    } else {
        let number = mempool.committed_up_to(sender, sequence_number);
        let left = StoreView {
            pool: from_sequence_number(mempool.store.pool, sender, number),
            ..mempool.store
        };
        lemma_commit_wf(mempool.store, sender, number);
        lemma_filtered(
            mempool.store,
            |t: MempoolTransactionView|
                !(t.txn.sender == sender && t.txn.sequence_number < number),
            pointer,
        );
        lemma_requeued(left, sender, number, pointer);
    }
    if mempool.answer(request).code == MempoolAddTransactionStatusCode::Valid {
        let t = request.entry(now, mempool.system_transaction_timeout);
        lemma_taken_in(mempool.store, t, pointer);
        lemma_requeued(
            mempool.store.taken_in(t),
            request.txn.sender,
            mempool.current_sequence_number(request),
            pointer,
        );
    } else {
        law_refused_request_changes_no_transaction(mempool, request, now, now_millis, pointer);
    }
}

/// Whether `txn` stands in the mempool, if at all, as one that is never broadcast.
pub open spec fn is_foreign(store: StoreView, txn: SignedTransactionView) -> bool {
    lookup(store.pool, txn.pointer()) is Some && lookup(store.pool, txn.pointer())->0.txn == txn
        ==> lookup(store.pool, txn.pointer())->0.timeline_state == TimelineState::NonQualified
}

/// A transaction that comes from other validators alone is never one that is broadcast, whatever is
/// done with the mempool.
pub proof fn law_foreign_transactions_stay_foreign(
    mempool: MempoolView,
    txn: SignedTransactionView,
    request: Request,
    now: u128,
    now_millis: i64,
    sender: AccountAddress,
    sequence_number: u64,
    is_rejected: bool,
    eviction: Eviction,
)
    requires
        mempool.wf(),
        is_foreign(mempool.store, txn),
        request.txn == txn ==> request.timeline_state == TimelineState::NonQualified,
        !is_rejected ==> sequence_number < u64::MAX,
    ensures
        is_foreign(mempool.add_txn(request, now, now_millis).store, txn),
        is_foreign(
            mempool.remove_transaction(sender, sequence_number, is_rejected).store,
            txn,
        ),
        is_foreign(mempool.evict(eviction).store, txn),
{
    let pointer = txn.pointer();
    lemma_evicted(mempool.store, eviction, pointer);
    if is_rejected {
        lemma_evicted(mempool.store, Eviction::Rejected((sender, sequence_number)), pointer);
    } else {
        let number = mempool.committed_up_to(sender, sequence_number);
        let left = StoreView {
            pool: from_sequence_number(mempool.store.pool, sender, number),
            ..mempool.store
        };
        lemma_commit_wf(mempool.store, sender, number);
        lemma_filtered(
            mempool.store,
            |t: MempoolTransactionView|
                !(t.txn.sender == sender && t.txn.sequence_number < number),
            pointer,
        );
        lemma_requeued(left, sender, number, pointer);
    }
    if mempool.answer(request).code == MempoolAddTransactionStatusCode::Valid {
        law_accepted_request(mempool, request, now, now_millis, pointer);
    } else {
        law_refused_request_changes_no_transaction(mempool, request, now, now_millis, pointer);
    }
}

/// A transaction that comes from other validators alone is in no read of the timeline.
pub proof fn law_foreign_transactions_are_not_broadcast(
    mempool: MempoolView,
    txn: SignedTransactionView,
    after: u64,
    count: nat,
)
    requires
        mempool.wf(),
        is_foreign(mempool.store, txn),
    ensures
        !signed(timeline(mempool.store.pool, after, count)).contains(txn),
{
    let pool = mempool.store.pool;
    let read = timeline(pool, after, count);
    law_timeline_order(mempool.store, after, count);
    if signed(read).contains(txn) {
        let i = choose|i: int| 0 <= i < signed(read).len() && signed(read)[i] == txn;
        assert(pool.contains(read[i]));
        let k = choose|k: int| 0 <= k < pool.len() && pool[k] == read[i];
        lemma_position(pool, k);
    }
}

/// A read of the timeline never comes to a position that has not been given yet.
pub proof fn law_read_stays_behind(store: StoreView, after: u64, count: nat)
    requires
        store.wf(),
        after < store.next_timeline_id,
    ensures
        timeline_end(timeline(store.pool, after, count), after) < store.next_timeline_id,
{
    let read = timeline(store.pool, after, count);
    law_timeline_order(store, after, count);
    if read.len() > 0 {
        assert(store.pool.contains(read[read.len() - 1]));
        let k = choose|k: int| 0 <= k < store.pool.len() && store.pool[k] == read.last();
        assert(timeline_id(store.pool[k]) is Some);
    }
}

/// A read of the timeline that asks for as many transactions as the mempool holds gets all that
/// have a position behind the start of the read.
proof fn lemma_large_read(store: StoreView, after: u64, count: nat, i: int)
    requires
        store.wf(),
        count >= store.pool.len(),
        0 <= i < store.pool.len(),
        timeline_id(store.pool[i]) is Some,
        timeline_id(store.pool[i])->0 > after,
    ensures
        timeline(store.pool, after, count).contains(store.pool[i]),
{
    let read = timeline(store.pool, after, count);
    law_timeline_is_complete(store, after, count, i);
    law_timeline_order(store, after, count);
    if !read.contains(store.pool[i]) {
        let longer = read.push(store.pool[i]);
        assert(longer.no_duplicates());
        longer.unique_seq_to_set();
        assert(longer.to_set().subset_of(store.pool.to_set())) by {
            assert forall|t: MempoolTransactionView| longer.to_set().contains(
                t,
            ) implies store.pool.to_set().contains(t) by {
                let k = choose|k: int| 0 <= k < longer.len() && longer[k] == t;
                if k < read.len() {
                    assert(store.pool.contains(read[k]));
                }
            }
        }
        store.pool.lemma_cardinality_of_set();
        vstd::set_lib::lemma_len_subset(longer.to_set(), store.pool.to_set());
    }
}

/// A new transaction is shared: one that did not come from another validator and is the next of its
/// sender is read by every reader, wherever it had come to before, that asks for enough, as long as
/// the timeline has positions left.
pub proof fn law_new_transaction_is_shared(
    mempool: MempoolView,
    request: Request,
    now: u128,
    now_millis: i64,
    after: u64,
    count: nat,
)
    requires
        mempool.wf(),
        mempool.answer(request).code == MempoolAddTransactionStatusCode::Valid,
        request.timeline_state != TimelineState::NonQualified,
        request.txn.sequence_number == mempool.current_sequence_number(request),
        after < mempool.store.next_timeline_id,
        mempool.add_txn(request, now, now_millis).store.next_timeline_id < u64::MAX,
        count >= mempool.add_txn(request, now, now_millis).store.pool.len(),
    ensures
        signed(
            timeline(mempool.add_txn(request, now, now_millis).store.pool, after, count),
        ).contains(request.txn),
{
    let next = mempool.add_txn(request, now, now_millis);
    let pool = next.store.pool;
    let pointer = request.txn.pointer();
    let number = request.txn.sequence_number;
    law_accepted_request(mempool, request, now, now_millis, pointer);
    assert forall|n: u64| number <= n <= number implies #[trigger] holds(
        pool,
        (pointer.0, n),
    ) by {}
    let i = position(pool, pointer);
    assert(pool[i].is_at(pointer));
    lemma_large_read(next.store, after, count, i);
    let read = timeline(pool, after, count);
    let k = choose|k: int| 0 <= k < read.len() && read[k] == pool[i];
    assert(signed(read)[k] == request.txn);
}

} // verus!
