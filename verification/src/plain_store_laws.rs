//! What the operations of the transaction store mean for the transactions themselves.

use crate::laws::{law_timeline_is_complete, law_timeline_order};
use crate::pool::{
    cut_off, holds, lookup, place, position, queue, required, sequential, signed, spared, timeline,
    timeline_end, timeline_id, Eviction, Pool, StoreView,
};
use crate::pool_lemmas::{
    lemma_commit_wf, lemma_evict_wf, lemma_park_outside, lemma_place, lemma_position, lemma_promote,
    lemma_promote_at, lemma_remove_wf, lemma_requeue, same_transactions,
};
use crate::types::{AccountAddress, MempoolTransactionView, TimelineState, TxnPointer};
use vstd::prelude::*;

verus! {

// ---------------------------------------------------------------------------------------------
// What the store holds
// ---------------------------------------------------------------------------------------------

/// What every store keeps: no two transactions have a sender and a sequence number in common, who
/// pays more stands first, there are not too many, and the positions of the timeline differ, belong
/// to queued transactions, and have been given.
pub proof fn law_store_invariant(store: StoreView, i: int, j: int)
    requires
        store.wf(),
        0 <= i < j < store.pool.len(),
    ensures
        ({
            let a = store.pool[i];
            let b = store.pool[j];
            &&& a.txn.sender != b.txn.sender || a.txn.sequence_number != b.txn.sequence_number
            &&& a.txn.gas_unit_price >= b.txn.gas_unit_price
            &&& a.timeline_state is Ready ==> a.timeline_state != b.timeline_state
            &&& a.timeline_state matches TimelineState::Ready(id) ==> a.ready && id
                < store.next_timeline_id
            &&& b.timeline_state matches TimelineState::Ready(id) ==> b.ready && id
                < store.next_timeline_id
            &&& store.pool.len() <= store.capacity
        }),
{
    assert(timeline_id(store.pool[i]) is Some ==> store.pool[i].ready);
    assert(timeline_id(store.pool[j]) is Some ==> store.pool[j].ready);
}

/// What a sender owes at most is the sum, over its transactions, of the price times the gas.
pub proof fn law_required(pool: Pool, sender: AccountAddress)
    ensures
        required(pool, sender) == pool.fold_left(
            0int,
            |sum: int, t: MempoolTransactionView|
                if t.txn.sender == sender {
                    sum + t.txn.gas_unit_price * t.gas_amount
                } else {
                    sum
                },
        ),
    decreases pool.len(),
{
    if pool.len() > 0 {
        law_required(pool.drop_last(), sender);
        let t = pool.last();
        assert(t.txn.gas_unit_price * t.gas_amount >= 0) by (nonlinear_arith);
    }
}

/// The queue lists the sender and the sequence number of each transaction that is ready, in the
/// order of the store.
pub proof fn law_queue(pool: Pool)
    ensures
        queue(pool) == pool.filter(|t: MempoolTransactionView| t.ready).map_values(
            |t: MempoolTransactionView| (t.txn.sender, t.txn.sequence_number),
        ),
{
    assert(queue(pool) =~= pool.filter(|t: MempoolTransactionView| t.ready).map_values(
        |t: MempoolTransactionView| (t.txn.sender, t.txn.sequence_number),
    ));
}

/// A transaction is found where it is.
pub proof fn law_lookup(store: StoreView, pointer: TxnPointer)
    requires
        store.wf(),
    ensures
        forall|i: int|
            0 <= i < store.pool.len() && (#[trigger] store.pool[i]).txn.sender == pointer.0
                && store.pool[i].txn.sequence_number == pointer.1 ==> lookup(store.pool, pointer)
                == Some(store.pool[i]),
        lookup(store.pool, pointer) matches Some(t) ==> t.txn.sender == pointer.0
            && t.txn.sequence_number == pointer.1 && store.pool.contains(t),
{
    assert forall|i: int|
        0 <= i < store.pool.len() && (#[trigger] store.pool[i]).txn.sender == pointer.0
            && store.pool[i].txn.sequence_number == pointer.1 implies lookup(store.pool, pointer)
        == Some(store.pool[i]) by {
        lemma_position(store.pool, i);
    }
    if holds(store.pool, pointer) {
        let i = position(store.pool, pointer);
        assert(store.pool[i].is_at(pointer));
    }
}

/// What it means that no transaction is missing.
pub proof fn law_run(pool: Pool, sender: AccountAddress, first: u64, last: u64)
    ensures
        ({
            let ids = pool.map_values(
                |t: MempoolTransactionView| (t.txn.sender, t.txn.sequence_number),
            );
            sequential(pool, sender, first as int, last as int) <==> first <= last && forall|m: u64|
                first <= m <= last ==> #[trigger] ids.contains((sender, m))
        }),
{
    let ids = pool.map_values(|t: MempoolTransactionView| (t.txn.sender, t.txn.sequence_number));
    assert forall|m: u64| #[trigger] ids.contains((sender, m)) == holds(pool, (sender, m)) by {
        if ids.contains((sender, m)) {
            let i = choose|i: int| 0 <= i < ids.len() && ids[i] == (sender, m);
            assert(pool[i].is_at((sender, m)));
        }
        if holds(pool, (sender, m)) {
            let i = position(pool, (sender, m));
            assert(pool[i].is_at((sender, m)));
            assert(ids[i] == (sender, m));
        }
    }
    if first <= last && forall|m: u64| first <= m <= last ==> #[trigger] ids.contains((sender, m)) {
        assert forall|m: u64| first <= m <= last implies #[trigger] holds(pool, (sender, m)) by {
            assert(ids.contains((sender, m)));
        }
    }
    if sequential(pool, sender, first as int, last as int) {
        assert forall|m: u64| first <= m <= last implies #[trigger] ids.contains((sender, m)) by {
            assert(holds(pool, (sender, m)));
        }
    }
}

// ---------------------------------------------------------------------------------------------
// A new current sequence number
// ---------------------------------------------------------------------------------------------

/// A promotion gives the next positions of the timeline without a gap, in the order of the sequence
/// numbers.
proof fn lemma_promote_numbers(store: StoreView, sender: AccountAddress, sequence_number: u64)
    requires
        store.wf(),
    ensures
        ({
            let next = store.promote(sender, sequence_number);
            let states = next.pool.map_values(|t: MempoolTransactionView| t.timeline_state);
            &&& forall|id: u64|
                store.next_timeline_id <= id < next.next_timeline_id ==> #[trigger] states.contains(
                    TimelineState::Ready(id),
                )
            &&& forall|i: int|
                0 <= i < next.pool.len() && (#[trigger] next.pool[i]).timeline_state is Ready
                    && next.pool[i].timeline_state->0 >= store.next_timeline_id
                    ==> next.pool[i].txn.sender == sender && next.pool[i].txn.sequence_number
                    >= sequence_number
            &&& forall|i: int, j: int|
                #![trigger next.pool[i], next.pool[j]]
                0 <= i < next.pool.len() && 0 <= j < next.pool.len()
                    && next.pool[i].timeline_state is Ready && next.pool[j].timeline_state is Ready
                    && next.pool[i].timeline_state->0 >= store.next_timeline_id
                    && next.pool[j].timeline_state->0 >= store.next_timeline_id
                    && next.pool[i].txn.sequence_number < next.pool[j].txn.sequence_number
                    ==> next.pool[i].timeline_state->0 < next.pool[j].timeline_state->0
        }),
    decreases u64::MAX - sequence_number,
{
    let next = store.promote(sender, sequence_number);
    let states = next.pool.map_values(|t: MempoolTransactionView| t.timeline_state);
    let pointer = (sender, sequence_number);
    if !holds(store.pool, pointer) {
        assert forall|i: int|
            0 <= i < next.pool.len() && (#[trigger] next.pool[i]).timeline_state
                is Ready implies next.pool[i].timeline_state->0 < store.next_timeline_id by {
            assert(timeline_id(store.pool[i]) is Some);
        }
    } else {
        let at = position(store.pool, pointer);
        assert(0 <= at < store.pool.len() && store.pool[at].is_at(pointer));
        let one = store.promote_at(at);
        lemma_promote_at(store, at);
        assert forall|i: int|
            0 <= i < store.pool.len() && (#[trigger] store.pool[i]).timeline_state
                is Ready implies store.pool[i].timeline_state->0 < store.next_timeline_id by {
            assert(timeline_id(store.pool[i]) is Some);
        }
        if sequence_number < u64::MAX {
            let more = (sequence_number + 1) as u64;
            lemma_promote_numbers(one, sender, more);
            lemma_promote(one, sender, more);
            assert(one.pool[at].timeline_state is Ready ==> next.pool[at].timeline_state
                == one.pool[at].timeline_state) by {
                assert(next.pool[at].txn == one.pool[at].txn);
            }
            assert forall|id: u64|
                store.next_timeline_id <= id < next.next_timeline_id implies #[trigger]
                states.contains(TimelineState::Ready(id)) by {
                if id < one.next_timeline_id {
                    assert(one.pool[at].timeline_state == TimelineState::Ready(id));
                    assert(states[at] == TimelineState::Ready(id));
                }
            }
            assert forall|i: int|
                0 <= i < next.pool.len() && (#[trigger] next.pool[i]).timeline_state is Ready
                    && next.pool[i].timeline_state->0 >= store.next_timeline_id implies i == at
                || next.pool[i].timeline_state->0 >= one.next_timeline_id by {
                assert(one.pool[i].txn == next.pool[i].txn);
                if i != at {
                    assert(one.pool[i] == store.pool[i]);
                    assert(timeline_id(next.pool[i]) is Some);
                }
            }
            assert forall|i: int|
                0 <= i < next.pool.len() && (#[trigger] next.pool[i]).timeline_state is Ready
                    && next.pool[i].timeline_state->0
                    >= store.next_timeline_id implies next.pool[i].txn.sender == sender
                && next.pool[i].txn.sequence_number >= sequence_number by {
                assert(one.pool[i].txn == next.pool[i].txn);
                assert(one.pool[i].txn == store.pool[i].txn);
            }
            assert(next.pool[at].txn.sequence_number == sequence_number) by {
                assert(one.pool[at].txn == next.pool[at].txn);
            }
            assert forall|i: int, j: int|
                #![trigger next.pool[i], next.pool[j]]
                0 <= i < next.pool.len() && 0 <= j < next.pool.len()
                    && next.pool[i].timeline_state is Ready && next.pool[j].timeline_state is Ready
                    && next.pool[i].timeline_state->0 >= store.next_timeline_id
                    && next.pool[j].timeline_state->0 >= store.next_timeline_id
                    && next.pool[i].txn.sequence_number
                    < next.pool[j].txn.sequence_number implies next.pool[i].timeline_state->0
                < next.pool[j].timeline_state->0 by {
                assert(j != at);
                assert(next.pool[j].timeline_state->0 >= one.next_timeline_id);
                if i == at {
                    assert(one.pool[at].timeline_state is Ready) by {
                        assert(one.pool[i].txn == next.pool[i].txn);
                        if one.pool[at].timeline_state !is Ready {
                            assert(one.next_timeline_id == store.next_timeline_id);
                            assert(timeline_id(next.pool[at]) is Some);
                            assert(next.pool[at].timeline_state->0 >= one.next_timeline_id);
                        }
                    }
                }
            }
        } else {
            assert(next == one);
            assert forall|id: u64|
                store.next_timeline_id <= id < next.next_timeline_id implies #[trigger]
                states.contains(TimelineState::Ready(id)) by {
                assert(states[at] == TimelineState::Ready(id));
            }
        }
    }
}

/// What a new current sequence number of `sender` does, transaction by transaction. None is lost
/// or changed, and those of other senders are as they were. Of those of the sender the ones are
/// queued that follow the number without a gap. A queued one keeps its position in the timeline;
/// one that waited for a position gets one, if there is one left; one that leaves the queue loses
/// it; and one that came from another validator has none. The new positions follow those given
/// before without a gap, in the order of the sequence numbers.
pub proof fn law_requeue(store: StoreView, sender: AccountAddress, number: u64)
    requires
        store.wf(),
    ensures
        ({
            let next = store.requeue(sender, number);
            let states = next.pool.map_values(|t: MempoolTransactionView| t.timeline_state);
            let ids = store.pool.map_values(
                |t: MempoolTransactionView| (t.txn.sender, t.txn.sequence_number),
            );
            &&& next.wf()
            &&& next.capacity == store.capacity
            &&& next.next_timeline_id >= store.next_timeline_id
            &&& next.pool.len() == store.pool.len()
            &&& forall|i: int|
                #![trigger next.pool[i]]
                0 <= i < next.pool.len() ==> {
                    let before = store.pool[i];
                    let after = next.pool[i];
                    let n = before.txn.sequence_number;
                    &&& after.txn == before.txn
                    &&& after.gas_amount == before.gas_amount
                    &&& after.expiration_time == before.expiration_time
                    &&& before.txn.sender != sender ==> after == before
                    &&& before.txn.sender == sender ==> (after.ready <==> number <= n && forall|
                        m: u64,
                    |
                        number <= m <= n ==> #[trigger] ids.contains((sender, m)))
                    &&& after.timeline_state == TimelineState::NonQualified
                        <==> before.timeline_state == TimelineState::NonQualified
                    &&& before.txn.sender == sender && !after.ready ==> after.timeline_state
                        !is Ready
                    &&& after.ready && before.timeline_state is Ready ==> after.timeline_state
                        == before.timeline_state
                    &&& after.timeline_state is Ready && after.timeline_state
                        != before.timeline_state ==> after.timeline_state->0
                        >= store.next_timeline_id
                    &&& before.txn.sender == sender && after.ready && before.timeline_state
                        == TimelineState::NotReady && next.next_timeline_id < u64::MAX
                        ==> after.timeline_state is Ready
                }
            &&& forall|id: u64|
                store.next_timeline_id <= id < next.next_timeline_id ==> #[trigger] states.contains(
                    TimelineState::Ready(id),
                )
            &&& forall|i: int, j: int|
                #![trigger next.pool[i], next.pool[j]]
                0 <= i < next.pool.len() && 0 <= j < next.pool.len()
                    && next.pool[i].timeline_state is Ready && next.pool[j].timeline_state is Ready
                    && next.pool[i].timeline_state->0 >= store.next_timeline_id
                    && next.pool[j].timeline_state->0 >= store.next_timeline_id
                    && next.pool[i].txn.sequence_number < next.pool[j].txn.sequence_number
                    ==> next.pool[i].timeline_state->0 < next.pool[j].timeline_state->0
        }),
{
    let next = store.requeue(sender, number);
    let left = store.park_outside(sender, number);
    let ids = store.pool.map_values(
        |t: MempoolTransactionView| (t.txn.sender, t.txn.sequence_number),
    );
    lemma_requeue(store, sender, number);
    lemma_park_outside(store, sender, number);
    lemma_promote_numbers(left, sender, number);
    assert forall|i: int|
        #![trigger next.pool[i]]
        0 <= i < next.pool.len() implies {
        let before = store.pool[i];
        let after = next.pool[i];
        let n = before.txn.sequence_number;
        &&& after.txn == before.txn
        &&& after.gas_amount == before.gas_amount
        &&& after.expiration_time == before.expiration_time
        &&& before.txn.sender != sender ==> after == before
        &&& before.txn.sender == sender ==> (after.ready <==> number <= n && forall|m: u64|
            number <= m <= n ==> #[trigger] ids.contains((sender, m)))
        &&& after.timeline_state == TimelineState::NonQualified <==> before.timeline_state
            == TimelineState::NonQualified
        &&& before.txn.sender == sender && !after.ready ==> after.timeline_state !is Ready
        &&& after.ready && before.timeline_state is Ready ==> after.timeline_state
            == before.timeline_state
        &&& after.timeline_state is Ready && after.timeline_state != before.timeline_state
            ==> after.timeline_state->0 >= store.next_timeline_id
        &&& before.txn.sender == sender && after.ready && before.timeline_state
            == TimelineState::NotReady && next.next_timeline_id < u64::MAX
            ==> after.timeline_state is Ready
    } by {
        assert(same_transactions(store.pool, next.pool));
        assert(next.pool[i].txn == store.pool[i].txn);
        law_run(store.pool, sender, number, store.pool[i].txn.sequence_number);
        assert(timeline_id(next.pool[i]) is Some <==> next.pool[i].timeline_state is Ready);
        assert(timeline_id(store.pool[i]) is Some <==> store.pool[i].timeline_state is Ready);
    }
}

// ---------------------------------------------------------------------------------------------
// The operations
// ---------------------------------------------------------------------------------------------

/// Where a new transaction goes: behind all that pay as much or more, before all that pay less. All
/// others keep their order. It waits outside the queue and the timeline for what the current
/// sequence number of its sender makes of it.
pub proof fn law_insert_new(store: StoreView, t: MempoolTransactionView, number: u64) -> (at: int)
    requires
        store.wf(),
        store.pool.len() < store.capacity,
        forall|i: int|
            0 <= i < store.pool.len() ==> (#[trigger] store.pool[i]).txn.sender != t.txn.sender
                || store.pool[i].txn.sequence_number != t.txn.sequence_number,
    ensures
        0 <= at <= store.pool.len(),
        forall|i: int|
            0 <= i < at ==> (#[trigger] store.pool[i]).txn.gas_unit_price >= t.txn.gas_unit_price,
        forall|i: int|
            at <= i < store.pool.len() ==> (#[trigger] store.pool[i]).txn.gas_unit_price
                < t.txn.gas_unit_price,
        store.insert(t, number) == (StoreView {
            pool: store.pool.insert(
                at,
                MempoolTransactionView {
                    txn: t.txn,
                    gas_amount: t.gas_amount,
                    expiration_time: t.expiration_time,
                    timeline_state: if t.timeline_state == TimelineState::NonQualified {
                        TimelineState::NonQualified
                    } else {
                        TimelineState::NotReady
                    },
                    ready: false,
                },
            ),
            capacity: store.capacity,
            next_timeline_id: store.next_timeline_id,
        }).requeue(t.txn.sender, number),
{
    assert(!holds(store.pool, t.pointer())) by {
        if holds(store.pool, t.pointer()) {
            let i = position(store.pool, t.pointer());
            assert(store.pool[i].is_at(t.pointer()));
        }
    }
    let at = place(store.pool, t.txn.gas_unit_price);
    lemma_place(store.pool, t.txn.gas_unit_price);
    at
}

/// Where a transaction goes that pays more than the one it replaces, at `k`: as a new one goes,
/// once that is out. It keeps the time by which the system drops it.
pub proof fn law_insert_replaces(store: StoreView, t: MempoolTransactionView, number: u64, k: int) -> (at:
    int)
    requires
        store.wf(),
        0 <= k < store.pool.len(),
        store.pool[k].txn.sender == t.txn.sender,
        store.pool[k].txn.sequence_number == t.txn.sequence_number,
        store.pool[k].txn.gas_unit_price < t.txn.gas_unit_price,
    ensures
        0 <= at < store.pool.len(),
        forall|i: int|
            0 <= i < at ==> (#[trigger] store.pool.remove(k)[i]).txn.gas_unit_price
                >= t.txn.gas_unit_price,
        forall|i: int|
            at <= i < store.pool.len() - 1 ==> (#[trigger] store.pool.remove(
                k,
            )[i]).txn.gas_unit_price < t.txn.gas_unit_price,
        store.insert(t, number) == (StoreView {
            pool: store.pool.remove(k).insert(
                at,
                MempoolTransactionView {
                    txn: t.txn,
                    gas_amount: t.gas_amount,
                    expiration_time: store.pool[k].expiration_time,
                    timeline_state: if t.timeline_state == TimelineState::NonQualified {
                        TimelineState::NonQualified
                    } else {
                        TimelineState::NotReady
                    },
                    ready: false,
                },
            ),
            capacity: store.capacity,
            next_timeline_id: store.next_timeline_id,
        }).requeue(t.txn.sender, number),
{
    lemma_position(store.pool, k);
    assert(store.pool[k].pointer() == t.pointer());
    lemma_remove_wf(store, k);
    let less = store.pool.remove(k);
    let at = place(less, t.txn.gas_unit_price);
    lemma_place(less, t.txn.gas_unit_price);
    at
}

/// A transaction that is not taken in, because one like it pays as much or more or because the
/// store holds as many as it may, changes nothing but what the current sequence number of its
/// sender does.
pub proof fn law_insert_refused(store: StoreView, t: MempoolTransactionView, number: u64)
    requires
        store.wf(),
        (exists|i: int|
            0 <= i < store.pool.len() && (#[trigger] store.pool[i]).txn.sender == t.txn.sender
                && store.pool[i].txn.sequence_number == t.txn.sequence_number
                && store.pool[i].txn.gas_unit_price >= t.txn.gas_unit_price) || (
        store.pool.len() >= store.capacity && forall|i: int|
            0 <= i < store.pool.len() ==> (#[trigger] store.pool[i]).txn.sender != t.txn.sender
                || store.pool[i].txn.sequence_number != t.txn.sequence_number),
    ensures
        store.insert(t, number) == store.requeue(t.txn.sender, number),
{
    law_lookup(store, t.pointer());
}

/// A commit drops the transactions of the sender below the number, and no others.
pub proof fn law_commit_drops(store: StoreView, sender: AccountAddress, number: u64)
    requires
        store.wf(),
    ensures
        ({
            let next = store.commit(sender, number);
            let left = store.pool.filter(
                |t: MempoolTransactionView|
                    t.txn.sender != sender || t.txn.sequence_number >= number,
            );
            &&& next == (StoreView {
                pool: left,
                capacity: store.capacity,
                next_timeline_id: store.next_timeline_id,
            }).requeue(sender, number)
            &&& (StoreView {
                pool: left,
                capacity: store.capacity,
                next_timeline_id: store.next_timeline_id,
            }).wf()
        }),
{
    lemma_commit_wf(store, sender, number);
    lemma_filter_same(
        store.pool,
        |t: MempoolTransactionView| !(t.txn.sender == sender && t.txn.sequence_number < number),
        |t: MempoolTransactionView| t.txn.sender != sender || t.txn.sequence_number >= number,
    );
}

/// Filters that leave the same leave the same.
pub proof fn lemma_filter_same<A>(s: Seq<A>, p: spec_fn(A) -> bool, q: spec_fn(A) -> bool)
    requires
        forall|x: A| #[trigger] p(x) == q(x),
    ensures
        s.filter(p) == s.filter(q),
    decreases s.len(),
{
    reveal(Seq::filter);
    if s.len() > 0 {
        lemma_filter_same(s.drop_last(), p, q);
        assert(p(s.last()) == q(s.last()));
    }
}

/// What is dropped, and what becomes of the others: those of which an earlier queued one of the
/// same sender is dropped leave the queue and the timeline, and all others are as they were.
pub proof fn law_evict(
    store: StoreView,
    eviction: Eviction,
    gone: spec_fn(MempoolTransactionView) -> bool,
)
    requires
        store.wf(),
        forall|t: MempoolTransactionView| #[trigger]
            gone(t) <==> match eviction {
                Eviction::Rejected(pointer) => t.txn.sender == pointer.0 && t.txn.sequence_number
                    == pointer.1,
                Eviction::SystemTtl(now) => t.expiration_time <= now,
                Eviction::ClientExpiration(now) => t.txn.expiration_time <= now,
            },
    ensures
        ({
            let next = store.evict(eviction);
            let left = store.pool.filter(|t: MempoolTransactionView| !gone(t));
            &&& next.wf()
            &&& next.capacity == store.capacity
            &&& next.next_timeline_id == store.next_timeline_id
            &&& next.pool.len() == left.len()
            &&& forall|i: int|
                #![trigger next.pool[i]]
                0 <= i < left.len() ==> {
                    let before = left[i];
                    let after = next.pool[i];
                    let is_cut_off = exists|k: int|
                        0 <= k < store.pool.len() && gone(#[trigger] store.pool[k])
                            && store.pool[k].ready && store.pool[k].txn.sender
                            == before.txn.sender && store.pool[k].txn.sequence_number
                            < before.txn.sequence_number;
                    &&& after.txn == before.txn
                    &&& after.gas_amount == before.gas_amount
                    &&& after.expiration_time == before.expiration_time
                    &&& !is_cut_off ==> after == before
                    &&& is_cut_off ==> !after.ready && after.timeline_state == (
                    if before.timeline_state == TimelineState::NonQualified {
                        TimelineState::NonQualified
                    } else {
                        TimelineState::NotReady
                    })
                }
        }),
{
    let next = store.evict(eviction);
    let left = store.pool.filter(|t: MempoolTransactionView| !gone(t));
    lemma_evict_wf(store, eviction);
    lemma_filter_same(
        store.pool,
        |t: MempoolTransactionView| !eviction.takes(t),
        |t: MempoolTransactionView| !gone(t),
    );
    assert(left == spared(store.pool, eviction));
    assert forall|t: MempoolTransactionView| #[trigger]
        cut_off(store.pool, eviction, t) <==> exists|k: int|
            0 <= k < store.pool.len() && gone(#[trigger] store.pool[k]) && store.pool[k].ready
                && store.pool[k].txn.sender == t.txn.sender && store.pool[k].txn.sequence_number
                < t.txn.sequence_number by {
        if cut_off(store.pool, eviction, t) {
            let k = choose|k: int|
                0 <= k < store.pool.len() && eviction.takes(#[trigger] store.pool[k])
                    && store.pool[k].ready && store.pool[k].txn.sender == t.txn.sender
                    && store.pool[k].txn.sequence_number < t.txn.sequence_number;
            assert(gone(store.pool[k]));
        }
        if exists|k: int|
            0 <= k < store.pool.len() && gone(#[trigger] store.pool[k]) && store.pool[k].ready
                && store.pool[k].txn.sender == t.txn.sender && store.pool[k].txn.sequence_number
                < t.txn.sequence_number {
            let k = choose|k: int|
                0 <= k < store.pool.len() && gone(#[trigger] store.pool[k]) && store.pool[k].ready
                    && store.pool[k].txn.sender == t.txn.sender
                    && store.pool[k].txn.sequence_number < t.txn.sequence_number;
            assert(eviction.takes(store.pool[k]));
        }
    }
    assert forall|i: int| #![trigger next.pool[i]] 0 <= i < left.len() implies {
        let before = left[i];
        let after = next.pool[i];
        let is_cut_off = exists|k: int|
            0 <= k < store.pool.len() && gone(#[trigger] store.pool[k]) && store.pool[k].ready
                && store.pool[k].txn.sender == before.txn.sender
                && store.pool[k].txn.sequence_number < before.txn.sequence_number;
        &&& after.txn == before.txn
        &&& after.gas_amount == before.gas_amount
        &&& after.expiration_time == before.expiration_time
        &&& !is_cut_off ==> after == before
        &&& is_cut_off ==> !after.ready && after.timeline_state == (if before.timeline_state
            == TimelineState::NonQualified {
            TimelineState::NonQualified
        } else {
            TimelineState::NotReady
        })
    } by {
        assert(cut_off(store.pool, eviction, left[i]) || !cut_off(store.pool, eviction, left[i]));
    }
}

/// What a read of the timeline hands out: at most `count` transactions, none twice, each with a
/// position behind the start of the read, in the order of the positions. None is passed over that
/// has a position up to where the read has come to, and the read stops early only where nothing is
/// left.
pub proof fn law_read_timeline(store: StoreView, after: u64, count: nat)
    requires
        store.wf(),
    ensures
        ({
            let read = timeline(store.pool, after, count);
            let handed_out = signed(read);
            let end = timeline_end(read, after);
            &&& handed_out.len() == read.len() <= count
            &&& handed_out.no_duplicates()
            &&& forall|i: int|
                #![trigger read[i]]
                #![trigger handed_out[i]]
                0 <= i < read.len() ==> {
                    &&& handed_out[i] == read[i].txn
                    &&& store.pool.contains(read[i])
                    &&& read[i].timeline_state is Ready
                    &&& after < read[i].timeline_state->0 <= end
                }
            &&& forall|i: int, j: int|
                #![trigger read[i], read[j]]
                0 <= i < j < read.len() ==> read[i].timeline_state->0 < read[j].timeline_state->0
            &&& read.len() == 0 ==> end == after
            &&& read.len() > 0 ==> read[read.len() - 1].timeline_state == TimelineState::Ready(end)
            &&& forall|k: int|
                0 <= k < store.pool.len() && (#[trigger] store.pool[k]).timeline_state is Ready
                    && after < store.pool[k].timeline_state->0 && (
                store.pool[k].timeline_state->0 <= end || read.len() < count) ==> read.contains(
                    store.pool[k],
                ) && handed_out.contains(store.pool[k].txn)
        }),
{
    let read = timeline(store.pool, after, count);
    let handed_out = signed(read);
    let end = timeline_end(read, after);
    law_timeline_order(store, after, count);
    assert forall|i: int|
        #![trigger read[i]]
        #![trigger handed_out[i]]
        0 <= i < read.len() implies {
        &&& handed_out[i] == read[i].txn
        &&& store.pool.contains(read[i])
        &&& read[i].timeline_state is Ready
        &&& after < read[i].timeline_state->0 <= end
    } by {
        assert(timeline_id(read[i]) is Some);
        if i < read.len() - 1 {
            assert(timeline_id(read[i])->0 < timeline_id(read[read.len() - 1])->0);
        }
    }
    assert forall|i: int, j: int|
        #![trigger read[i], read[j]]
        0 <= i < j < read.len() implies read[i].timeline_state->0 < read[j].timeline_state->0 by {
        assert(timeline_id(read[i])->0 < timeline_id(read[j])->0);
    }
    assert forall|i: int, j: int|
        0 <= i < handed_out.len() && 0 <= j < handed_out.len() && i != j implies handed_out[i]
        != handed_out[j] by {
        assert(store.pool.contains(read[i]) && store.pool.contains(read[j]));
        let k = choose|k: int| 0 <= k < store.pool.len() && store.pool[k] == read[i];
        let l = choose|l: int| 0 <= l < store.pool.len() && store.pool[l] == read[j];
        assert(read[i].timeline_state->0 != read[j].timeline_state->0) by {
            if i < j {
            } else {
                assert(read[j].timeline_state->0 < read[i].timeline_state->0);
            }
        }
        assert(k != l);
        assert(store.pool[k].pointer() != store.pool[l].pointer());
    }
    assert forall|k: int|
        0 <= k < store.pool.len() && (#[trigger] store.pool[k]).timeline_state is Ready && after
            < store.pool[k].timeline_state->0 && (store.pool[k].timeline_state->0 <= end
            || read.len() < count) implies read.contains(store.pool[k]) && handed_out.contains(
        store.pool[k].txn,
    ) by {
        assert(timeline_id(store.pool[k]) is Some);
        law_timeline_is_complete(store, after, count, k);
        let m = choose|m: int| 0 <= m < read.len() && read[m] == store.pool[k];
        assert(handed_out[m] == store.pool[k].txn);
    }
}

} // verus!
