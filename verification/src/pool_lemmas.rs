//! The operations of the transaction store keep its invariant.

use crate::pool::{
    affordable, after_eviction, by_price, distinct, from_sequence_number, holds, is_queued, lookup,
    parked, place, placed, position, queue_follows, required, sequential, spared, timeline_id,
    Eviction, Pool, StoreView,
};
use crate::types::{AccountAddress, MempoolTransactionView, TimelineState, TxnPointer};
use vstd::prelude::*;

verus! {

/// A relation between the members of a sequence, in order, is kept by a filter, and what the
/// filter leaves was there before.
pub proof fn lemma_filter_keeps_pairs<A>(
    s: Seq<A>,
    pred: spec_fn(A) -> bool,
    related: spec_fn(A, A) -> bool,
)
    requires
        forall|i: int, j: int|
            #![trigger s[i], s[j]]
            0 <= i < j < s.len() ==> related(s[i], s[j]),
    ensures
        s.filter(pred).len() <= s.len(),
        forall|i: int|
            0 <= i < s.filter(pred).len() ==> pred(#[trigger] s.filter(pred)[i]) && s.contains(
                s.filter(pred)[i],
            ),
        forall|x: A| s.contains(x) && pred(x) ==> #[trigger] s.filter(pred).contains(x),
        forall|i: int, j: int|
            #![trigger s.filter(pred)[i], s.filter(pred)[j]]
            0 <= i < j < s.filter(pred).len() ==> related(s.filter(pred)[i], s.filter(pred)[j]),
    decreases s.len(),
{
    reveal(Seq::filter);
    let left = s.filter(pred);
    if s.len() > 0 {
        let rest = s.drop_last();
        assert forall|i: int, j: int|
            #![trigger rest[i], rest[j]]
            0 <= i < j < rest.len() implies related(rest[i], rest[j]) by {
            assert(rest[i] == s[i] && rest[j] == s[j]);
        }
        lemma_filter_keeps_pairs(rest, pred, related);
        let left_rest = rest.filter(pred);
        assert forall|i: int| 0 <= i < left.len() implies pred(#[trigger] left[i]) && s.contains(
            left[i],
        ) by {
            if i < left_rest.len() {
                assert(left[i] == left_rest[i]);
                let k = choose|k: int| 0 <= k < rest.len() && rest[k] == left_rest[i];
                assert(s[k] == left[i]);
            } else {
                assert(left[i] == s[s.len() - 1]);
            }
        }
        assert forall|x: A| s.contains(x) && pred(x) implies #[trigger] left.contains(x) by {
            if rest.contains(x) {
                assert(left_rest.contains(x));
                let k = choose|k: int| 0 <= k < left_rest.len() && left_rest[k] == x;
                assert(left[k] == x);
            } else {
                let k = choose|k: int| 0 <= k < s.len() && s[k] == x;
                assert(k == s.len() - 1) by {
                    if k < rest.len() {
                        assert(rest[k] == x);
                    }
                }
                assert(left[left_rest.len() as int] == x);
            }
        }
        assert forall|i: int, j: int|
            #![trigger left[i], left[j]]
            0 <= i < j < left.len() implies related(left[i], left[j]) by {
            assert(left[i] == left_rest[i]);
            if j < left_rest.len() {
                assert(left[j] == left_rest[j]);
            } else {
                let k = choose|k: int| 0 <= k < rest.len() && rest[k] == left_rest[i];
                assert(s[k] == left[i]);
                assert(left[j] == s[s.len() - 1]);
            }
        }
    }
}

/// A filter of one member more.
pub proof fn lemma_filter_take<A>(s: Seq<A>, n: int, pred: spec_fn(A) -> bool)
    requires
        0 <= n < s.len(),
    ensures
        s.take(n + 1).filter(pred) == if pred(s[n]) {
            s.take(n).filter(pred).push(s[n])
        } else {
            s.take(n).filter(pred)
        },
{
    reveal(Seq::filter);
    assert(s.take(n + 1).drop_last() =~= s.take(n));
}

/// In a pool without duplicates a transaction has one position.
pub proof fn lemma_position(pool: Pool, i: int)
    requires
        distinct(pool),
        0 <= i < pool.len(),
    ensures
        holds(pool, pool[i].pointer()),
        position(pool, pool[i].pointer()) == i,
        lookup(pool, pool[i].pointer()) == Some(pool[i]),
{
    assert(pool[i].is_at(pool[i].pointer()));
    let k = position(pool, pool[i].pointer());
    assert(0 <= k < pool.len() && pool[k].is_at(pool[i].pointer()));
}

/// What one more transaction means for the others.
pub proof fn lemma_lookup_insert(pool: Pool, at: int, t: MempoolTransactionView, pointer: TxnPointer)
    requires
        0 <= at <= pool.len(),
        distinct(pool),
        distinct(pool.insert(at, t)),
    ensures
        holds(pool.insert(at, t), pointer) <==> holds(pool, pointer) || pointer == t.pointer(),
        pointer == t.pointer() ==> lookup(pool.insert(at, t), pointer) == Some(t),
        pointer != t.pointer() ==> lookup(pool.insert(at, t), pointer) == lookup(pool, pointer),
{
    let longer = pool.insert(at, t);
    assert(longer[at] == t);
    lemma_position(longer, at);
    if holds(pool, pointer) {
        let k = position(pool, pointer);
        assert(0 <= k < pool.len() && pool[k].is_at(pointer));
        let m = if k < at {
            k
        } else {
            k + 1
        };
        assert(longer[m] == pool[k]);
        lemma_position(longer, m);
    }
    if holds(longer, pointer) && pointer != t.pointer() {
        let m = position(longer, pointer);
        assert(0 <= m < longer.len() && longer[m].is_at(pointer));
        let k = if m < at {
            m
        } else {
            m - 1
        };
        assert(longer[m] == pool[k]);
        assert(pool[k].is_at(pointer));
    }
}

/// What one transaction less means for the others.
pub proof fn lemma_lookup_remove(pool: Pool, at: int, pointer: TxnPointer)
    requires
        0 <= at < pool.len(),
        distinct(pool),
        distinct(pool.remove(at)),
    ensures
        holds(pool.remove(at), pointer) <==> holds(pool, pointer) && pointer != pool[at].pointer(),
        pointer != pool[at].pointer() ==> lookup(pool.remove(at), pointer) == lookup(pool, pointer),
{
    let less = pool.remove(at);
    assert(less.insert(at, pool[at]) =~= pool);
    lemma_lookup_insert(less, at, pool[at], pointer);
    if holds(less, pool[at].pointer()) {
        let k = position(less, pool[at].pointer());
        assert(0 <= k < less.len() && less[k].is_at(pool[at].pointer()));
        let m = if k < at {
            k
        } else {
            k + 1
        };
        assert(less[k] == pool[m]);
        assert(pool[m].pointer() == pool[at].pointer());
    }
}

// ---------------------------------------------------------------------------------------------
// What is owed
// ---------------------------------------------------------------------------------------------

/// One more transaction adds its cost to what its sender owes.
pub proof fn lemma_required_insert(
    pool: Pool,
    i: int,
    t: MempoolTransactionView,
    sender: AccountAddress,
)
    requires
        0 <= i <= pool.len(),
    ensures
        required(pool.insert(i, t), sender) == required(pool, sender) + if t.txn.sender == sender {
            t.cost()
        } else {
            0
        },
    decreases pool.len(),
{
    let longer = pool.insert(i, t);
    if i == pool.len() {
        assert(longer.drop_last() =~= pool);
    } else {
        assert(longer.drop_last() =~= pool.drop_last().insert(i, t));
        assert(longer.last() == pool.last());
        lemma_required_insert(pool.drop_last(), i, t, sender);
    }
}

/// One transaction less takes its cost off what its sender owes.
pub proof fn lemma_required_remove(pool: Pool, i: int, sender: AccountAddress)
    requires
        0 <= i < pool.len(),
    ensures
        required(pool, sender) == required(pool.remove(i), sender) + if pool[i].txn.sender
            == sender {
            pool[i].cost()
        } else {
            0
        },
{
    assert(pool.remove(i).insert(i, pool[i]) =~= pool);
    lemma_required_insert(pool.remove(i), i, pool[i], sender);
}

/// A part of the pool is owed no more than the whole.
pub proof fn lemma_required_take(pool: Pool, n: int, sender: AccountAddress)
    requires
        0 <= n <= pool.len(),
    ensures
        required(pool.take(n), sender) <= required(pool, sender),
    decreases pool.len(),
{
    if n == pool.len() {
        assert(pool.take(n) =~= pool);
    } else {
        assert(pool.drop_last().take(n) =~= pool.take(n));
        lemma_required_take(pool.drop_last(), n, sender);
    }
}

/// What is owed depends on the senders and the costs alone.
pub proof fn lemma_required_same(a: Pool, b: Pool, sender: AccountAddress)
    requires
        a.len() == b.len(),
        forall|i: int|
            #![trigger a[i]]
            #![trigger b[i]]
            0 <= i < a.len() ==> a[i].txn == b[i].txn && a[i].gas_amount == b[i].gas_amount,
    ensures
        required(a, sender) == required(b, sender),
    decreases a.len(),
{
    if a.len() > 0 {
        lemma_required_same(a.drop_last(), b.drop_last(), sender);
        assert(a[a.len() - 1].txn == b[b.len() - 1].txn);
    }
}

/// Nobody owes more for less.
pub proof fn lemma_required_filter(
    pool: Pool,
    pred: spec_fn(MempoolTransactionView) -> bool,
    sender: AccountAddress,
)
    ensures
        required(pool.filter(pred), sender) <= required(pool, sender),
    decreases pool.len(),
{
    reveal(Seq::filter);
    if pool.len() > 0 {
        let left = pool.drop_last().filter(pred);
        lemma_required_filter(pool.drop_last(), pred, sender);
        if pred(pool.last()) {
            assert(left.push(pool.last()).drop_last() =~= left);
        }
    }
}

// ---------------------------------------------------------------------------------------------
// Promotion
// ---------------------------------------------------------------------------------------------

/// What a promotion leaves as it is.
pub open spec fn same_transactions(a: Pool, b: Pool) -> bool {
    &&& a.len() == b.len()
    &&& forall|i: int|
        #![trigger a[i]]
        #![trigger b[i]]
        0 <= i < a.len() ==> {
            &&& a[i].txn == b[i].txn
            &&& a[i].gas_amount == b[i].gas_amount
            &&& a[i].expiration_time == b[i].expiration_time
        }
}

proof fn lemma_same_transactions(a: Pool, b: Pool)
    requires
        same_transactions(a, b),
    ensures
        distinct(a) ==> distinct(b),
        by_price(a) ==> by_price(b),
        affordable(a) ==> affordable(b),
        forall|pointer: TxnPointer| #[trigger] holds(a, pointer) == holds(b, pointer),
{
    if distinct(a) {
        assert forall|i: int, j: int|
            #![trigger b[i], b[j]]
            0 <= i < j < b.len() implies b[i].pointer() != b[j].pointer() by {
            assert(a[i].pointer() != a[j].pointer());
        }
    }
    if by_price(a) {
        assert forall|i: int, j: int|
            #![trigger b[i], b[j]]
            0 <= i < j < b.len() implies b[i].txn.gas_unit_price >= b[j].txn.gas_unit_price by {
            assert(a[i].txn.gas_unit_price >= a[j].txn.gas_unit_price);
        }
    }
    assert forall|sender: AccountAddress| affordable(a) implies #[trigger] required(b, sender)
        <= u64::MAX by {
        lemma_required_same(a, b, sender);
        assert(required(a, sender) <= u64::MAX);
    }
    assert forall|pointer: TxnPointer| #[trigger] holds(a, pointer) == holds(b, pointer) by {
        if holds(a, pointer) {
            let i = position(a, pointer);
            assert(b[i].is_at(pointer));
        }
        if holds(b, pointer) {
            let i = position(b, pointer);
            assert(a[i].is_at(pointer));
        }
    }
}

/// The same gaps give the same runs.
pub proof fn lemma_sequential_same(a: Pool, b: Pool, sender: AccountAddress, first: int, last: int)
    requires
        forall|pointer: TxnPointer| #[trigger] holds(a, pointer) == holds(b, pointer),
    ensures
        sequential(a, sender, first, last) == sequential(b, sender, first, last),
{
    if sequential(a, sender, first, last) {
        assert forall|n: u64| first <= n <= last implies #[trigger] holds(b, (sender, n)) by {
            assert(holds(a, (sender, n)));
        }
    }
    if sequential(b, sender, first, last) {
        assert forall|n: u64| first <= n <= last implies #[trigger] holds(a, (sender, n)) by {
            assert(holds(b, (sender, n)));
        }
    }
}

/// A promotion of one transaction keeps the invariant.
pub proof fn lemma_promote_at(store: StoreView, i: int)
    requires
        0 <= i < store.pool.len(),
    ensures
        same_transactions(store.pool, store.promote_at(i).pool),
        store.promote_at(i).capacity == store.capacity,
        forall|pointer: TxnPointer| #[trigger]
            holds(store.promote_at(i).pool, pointer) == holds(store.pool, pointer),
        distinct(store.pool) ==> distinct(store.promote_at(i).pool),
        store.wf() ==> store.promote_at(i).wf(),
{
    let next = store.promote_at(i);
    assert forall|k: int|
        0 <= k < store.pool.len() implies {
        &&& (#[trigger] store.pool[k]).txn == next.pool[k].txn
        &&& store.pool[k].gas_amount == next.pool[k].gas_amount
        &&& store.pool[k].expiration_time == next.pool[k].expiration_time
    } by {}
    lemma_same_transactions(store.pool, next.pool);
    if store.wf() {
        assert forall|k: int, l: int|
            #![trigger next.pool[k], next.pool[l]]
            0 <= k < l < next.pool.len() && timeline_id(next.pool[k])
                is Some implies timeline_id(next.pool[k]) != timeline_id(next.pool[l]) by {
            assert(timeline_id(store.pool[k]) is Some ==> timeline_id(store.pool[k])
                != timeline_id(store.pool[l]));
        }
    }
}

/// What a promotion does: the transactions of `sender` from `sequence_number` up to the first gap
/// go into the queue, and those that wait for the broadcast get the next positions of the
/// timeline.
pub proof fn lemma_promote(store: StoreView, sender: AccountAddress, sequence_number: u64)
    requires
        distinct(store.pool),
    ensures
        ({
            let next = store.promote(sender, sequence_number);
            &&& same_transactions(store.pool, next.pool)
            &&& next.capacity == store.capacity
            &&& next.next_timeline_id >= store.next_timeline_id
            &&& store.wf() ==> next.wf()
            &&& forall|i: int|
                #![trigger next.pool[i]]
                0 <= i < store.pool.len() ==> {
                    let is_promoted = store.pool[i].txn.sender == sender && sequential(
                        store.pool,
                        sender,
                        sequence_number as int,
                        store.pool[i].txn.sequence_number as int,
                    );
                    &&& next.pool[i].ready == (store.pool[i].ready || is_promoted)
                    &&& next.pool[i].timeline_state == TimelineState::NonQualified
                        <==> store.pool[i].timeline_state == TimelineState::NonQualified
                    &&& !is_promoted || store.pool[i].timeline_state != TimelineState::NotReady
                        ==> next.pool[i].timeline_state == store.pool[i].timeline_state
                    &&& is_promoted && store.pool[i].timeline_state == TimelineState::NotReady
                        && next.next_timeline_id < u64::MAX ==> timeline_id(next.pool[i]) is Some
                    &&& timeline_id(next.pool[i]) is Some ==> timeline_id(next.pool[i])
                        == timeline_id(store.pool[i]) || timeline_id(next.pool[i])->0
                        >= store.next_timeline_id
                }
        }),
    decreases u64::MAX - sequence_number,
{
    let next = store.promote(sender, sequence_number);
    if !holds(store.pool, (sender, sequence_number)) {
        assert forall|i: int| #![trigger next.pool[i]] 0 <= i < store.pool.len() implies !sequential(
            store.pool,
            sender,
            sequence_number as int,
            store.pool[i].txn.sequence_number as int,
        ) by {}
    } else {
        let at = position(store.pool, (sender, sequence_number));
        assert(0 <= at < store.pool.len() && store.pool[at].is_at((sender, sequence_number)));
        let one = store.promote_at(at);
        lemma_promote_at(store, at);
        if sequence_number < u64::MAX {
            lemma_promote(one, sender, (sequence_number + 1) as u64);
        }
        assert forall|i: int|
            #![trigger next.pool[i]]
            0 <= i < store.pool.len() implies {
            let is_promoted = store.pool[i].txn.sender == sender && sequential(
                store.pool,
                sender,
                sequence_number as int,
                store.pool[i].txn.sequence_number as int,
            );
            &&& next.pool[i].ready == (store.pool[i].ready || is_promoted)
            &&& next.pool[i].timeline_state == TimelineState::NonQualified
                <==> store.pool[i].timeline_state == TimelineState::NonQualified
            &&& !is_promoted || store.pool[i].timeline_state != TimelineState::NotReady
                ==> next.pool[i].timeline_state == store.pool[i].timeline_state
            &&& is_promoted && store.pool[i].timeline_state == TimelineState::NotReady
                && next.next_timeline_id < u64::MAX ==> timeline_id(next.pool[i]) is Some
            &&& timeline_id(next.pool[i]) is Some ==> timeline_id(next.pool[i]) == timeline_id(
                store.pool[i],
            ) || timeline_id(next.pool[i])->0 >= store.next_timeline_id
        } by {
            assert(one.pool[i].txn == store.pool[i].txn);
            let n = store.pool[i].txn.sequence_number as int;
            if i == at {
                assert(sequential(store.pool, sender, sequence_number as int, n));
            } else {
                assert(one.pool[i] == store.pool[i]);
                if store.pool[i].txn.sender == sender {
                    assert(n != sequence_number) by {
                        assert(store.pool[i].pointer() != store.pool[at].pointer());
                    }
                    if sequential(store.pool, sender, sequence_number as int, n) {
                        assert forall|m: u64| sequence_number + 1 <= m <= n implies #[trigger] holds(
                            one.pool,
                            (sender, m),
                        ) by {
                            assert(holds(store.pool, (sender, m)));
                        }
                    }
                    if sequence_number < n && sequential(one.pool, sender, sequence_number + 1, n) {
                        assert forall|m: u64| sequence_number <= m <= n implies #[trigger] holds(
                            store.pool,
                            (sender, m),
                        ) by {
                            if m > sequence_number {
                                assert(holds(one.pool, (sender, m)));
                            }
                        }
                    }
                }
            }
        }
    }
}

/// Who leaves the queue because of a gap leaves the invariant as it is.
pub proof fn lemma_park_outside(store: StoreView, sender: AccountAddress, sequence_number: u64)
    ensures
        ({
            let next = store.park_outside(sender, sequence_number);
            &&& same_transactions(store.pool, next.pool)
            &&& distinct(store.pool) ==> distinct(next.pool)
            &&& store.wf() ==> next.wf()
            &&& forall|pointer: TxnPointer| #[trigger]
                holds(next.pool, pointer) == holds(store.pool, pointer)
        }),
{
    let next = store.park_outside(sender, sequence_number);
    assert(same_transactions(store.pool, next.pool));
    lemma_same_transactions(store.pool, next.pool);
    if store.wf() {
        assert forall|i: int, j: int|
            #![trigger next.pool[i], next.pool[j]]
            0 <= i < j < next.pool.len() && timeline_id(next.pool[i])
                is Some implies timeline_id(next.pool[i]) != timeline_id(next.pool[j]) by {
            assert(timeline_id(store.pool[i]) != timeline_id(store.pool[j]));
        }
        assert forall|i: int|
            0 <= i < next.pool.len() && timeline_id(#[trigger] next.pool[i])
                is Some implies next.pool[i].ready && timeline_id(next.pool[i])->0
            < store.next_timeline_id by {
            assert(next.pool[i] == store.pool[i]);
        }
    }
}

/// What a new current sequence number does: of the transactions of `sender` those are queued that
/// follow it without a gap, and those of them that wait for the broadcast get the next positions
/// of the timeline.
pub proof fn lemma_requeue(store: StoreView, sender: AccountAddress, sequence_number: u64)
    requires
        distinct(store.pool),
    ensures
        ({
            let next = store.requeue(sender, sequence_number);
            &&& same_transactions(store.pool, next.pool)
            &&& next.capacity == store.capacity
            &&& next.next_timeline_id >= store.next_timeline_id
            &&& store.wf() ==> next.wf()
            &&& forall|i: int|
                #![trigger next.pool[i]]
                0 <= i < store.pool.len() ==> {
                    let in_run = sequential(
                        store.pool,
                        sender,
                        sequence_number as int,
                        store.pool[i].txn.sequence_number as int,
                    );
                    &&& store.pool[i].txn.sender != sender ==> next.pool[i] == store.pool[i]
                    &&& store.pool[i].txn.sender == sender ==> next.pool[i].ready == in_run
                    &&& store.pool[i].txn.sender == sender && !in_run ==> next.pool[i] == parked(
                        store.pool[i],
                    )
                    &&& next.pool[i].timeline_state == TimelineState::NonQualified
                        <==> store.pool[i].timeline_state == TimelineState::NonQualified
                    &&& in_run && store.pool[i].timeline_state != TimelineState::NotReady
                        ==> next.pool[i].timeline_state == store.pool[i].timeline_state
                    &&& store.pool[i].txn.sender == sender && in_run
                        && store.pool[i].timeline_state == TimelineState::NotReady
                        && next.next_timeline_id < u64::MAX ==> timeline_id(next.pool[i]) is Some
                    &&& timeline_id(next.pool[i]) is Some ==> timeline_id(next.pool[i])
                        == timeline_id(store.pool[i]) || timeline_id(next.pool[i])->0
                        >= store.next_timeline_id
                }
        }),
{
    let left = store.park_outside(sender, sequence_number);
    let next = store.requeue(sender, sequence_number);
    lemma_park_outside(store, sender, sequence_number);
    lemma_promote(left, sender, sequence_number);
    assert forall|n: int| #[trigger]
        sequential(left.pool, sender, sequence_number as int, n) == sequential(
            store.pool,
            sender,
            sequence_number as int,
            n,
        ) by {
        lemma_sequential_same(left.pool, store.pool, sender, sequence_number as int, n);
    }
    assert forall|i: int| #![trigger next.pool[i]] 0 <= i < store.pool.len() implies
        next.pool[i].txn == store.pool[i].txn && left.pool[i].txn == store.pool[i].txn by {
        assert(same_transactions(left.pool, next.pool));
        assert(left.pool[i].txn == store.pool[i].txn);
    }
}

/// A promotion of what is queued changes nothing.
proof fn lemma_promote_again(store: StoreView, sender: AccountAddress, sequence_number: u64)
    requires
        store.wf(),
        forall|n: u64| #[trigger]
            sequential(store.pool, sender, sequence_number as int, n as int) ==> is_queued(
                store,
                (sender, n),
            ),
    ensures
        store.promote(sender, sequence_number) == store,
    decreases u64::MAX - sequence_number,
{
    let pointer = (sender, sequence_number);
    if holds(store.pool, pointer) {
        let i = position(store.pool, pointer);
        assert(0 <= i < store.pool.len() && store.pool[i].is_at(pointer));
        assert(sequential(
            store.pool,
            sender,
            sequence_number as int,
            sequence_number as int,
        ));
        assert(store.promote_at(i).pool =~= store.pool);
        if sequence_number < u64::MAX {
            assert forall|n: u64| #[trigger]
                sequential(store.pool, sender, sequence_number + 1, n as int) implies is_queued(
                store,
                (sender, n),
            ) by {
                assert(sequential(store.pool, sender, sequence_number as int, n as int));
            }
            lemma_promote_again(store, sender, (sequence_number + 1) as u64);
        }
    }
}

/// The current sequence number that the queue follows already changes nothing.
pub proof fn lemma_requeue_again(store: StoreView, sender: AccountAddress, sequence_number: u64)
    requires
        store.wf(),
        queue_follows(store, sender, sequence_number),
    ensures
        store.requeue(sender, sequence_number) == store,
{
    let left = store.park_outside(sender, sequence_number);
    assert forall|i: int| 0 <= i < store.pool.len() implies #[trigger] left.pool[i]
        == store.pool[i] by {
        let t = store.pool[i];
        lemma_position(store.pool, i);
        assert(t.txn.sender == sender ==> (is_queued(store, (sender, t.txn.sequence_number))
            <==> sequential(
            store.pool,
            sender,
            sequence_number as int,
            t.txn.sequence_number as int,
        )));
    }
    assert(left.pool =~= store.pool);
    assert forall|n: u64| #[trigger]
        sequential(store.pool, sender, sequence_number as int, n as int) implies is_queued(
        store,
        (sender, n),
    ) by {
        assert(is_queued(store, (sender, n)) || !is_queued(store, (sender, n)));
    }
    lemma_promote_again(store, sender, sequence_number);
}

// ---------------------------------------------------------------------------------------------
// The operations
// ---------------------------------------------------------------------------------------------

/// A pool with some of its transactions left out is as good as before.
pub proof fn lemma_filter_wf(
    store: StoreView,
    pred: spec_fn(MempoolTransactionView) -> bool,
)
    requires
        store.wf(),
    ensures
        (StoreView { pool: store.pool.filter(pred), ..store }).wf(),
        forall|i: int|
            0 <= i < store.pool.filter(pred).len() ==> pred(#[trigger] store.pool.filter(pred)[i])
                && store.pool.contains(store.pool.filter(pred)[i]),
        forall|t: MempoolTransactionView|
            store.pool.contains(t) && pred(t) ==> #[trigger] store.pool.filter(pred).contains(t),
{
    let pool = store.pool;
    let left = pool.filter(pred);
    lemma_filter_keeps_pairs(
        pool,
        pred,
        |a: MempoolTransactionView, b: MempoolTransactionView| a.pointer() != b.pointer(),
    );
    lemma_filter_keeps_pairs(
        pool,
        pred,
        |a: MempoolTransactionView, b: MempoolTransactionView|
            a.txn.gas_unit_price >= b.txn.gas_unit_price,
    );
    lemma_filter_keeps_pairs(
        pool,
        pred,
        |a: MempoolTransactionView, b: MempoolTransactionView|
            timeline_id(a) is Some ==> timeline_id(a) != timeline_id(b),
    );
    assert forall|i: int| 0 <= i < left.len() && timeline_id(#[trigger] left[i]) is Some implies left[i].ready
        && timeline_id(left[i])->0 < store.next_timeline_id by {
        let k = choose|k: int| 0 <= k < pool.len() && pool[k] == left[i];
        assert(timeline_id(pool[k]) is Some);
    }
    assert forall|sender: AccountAddress| #[trigger] required(left, sender) <= u64::MAX by {
        lemma_required_filter(pool, pred, sender);
        assert(required(pool, sender) <= u64::MAX);
    }
}

/// A commit keeps the invariant.
pub proof fn lemma_commit_wf(store: StoreView, sender: AccountAddress, sequence_number: u64)
    requires
        store.wf(),
    ensures
        (StoreView {
            pool: from_sequence_number(store.pool, sender, sequence_number),
            ..store
        }).wf(),
        store.commit(sender, sequence_number).wf(),
{
    let left = StoreView {
        pool: from_sequence_number(store.pool, sender, sequence_number),
        ..store
    };
    lemma_filter_wf(
        store,
        |t: MempoolTransactionView|
            !(t.txn.sender == sender && t.txn.sequence_number < sequence_number),
    );
    lemma_requeue(left, sender, sequence_number);
}

/// A drop keeps the invariant.
pub proof fn lemma_evict_wf(store: StoreView, eviction: Eviction)
    requires
        store.wf(),
    ensures
        (StoreView { pool: spared(store.pool, eviction), ..store }).wf(),
        store.evict(eviction).wf(),
        same_transactions(spared(store.pool, eviction), after_eviction(store.pool, eviction)),
{
    lemma_filter_wf(store, |t: MempoolTransactionView| !eviction.takes(t));
    let left = spared(store.pool, eviction);
    let next = after_eviction(store.pool, eviction);
    assert(same_transactions(left, next));
    lemma_same_transactions(left, next);
    assert forall|i: int, j: int|
        #![trigger next[i], next[j]]
        0 <= i < j < next.len() && timeline_id(next[i]) is Some implies timeline_id(next[i])
        != timeline_id(next[j]) by {
        assert(timeline_id(left[i]) != timeline_id(left[j]));
    }
    assert forall|i: int| 0 <= i < next.len() && timeline_id(#[trigger] next[i]) is Some implies next[i].ready
        && timeline_id(next[i])->0 < store.next_timeline_id by {
        assert(next[i] == left[i]);
    }
}

/// The place of a transaction in the order of the prices.
pub proof fn lemma_place(pool: Pool, gas_unit_price: u64)
    requires
        by_price(pool),
    ensures
        0 <= place(pool, gas_unit_price) <= pool.len(),
        forall|i: int|
            0 <= i < place(pool, gas_unit_price) ==> (#[trigger] pool[i]).txn.gas_unit_price
                >= gas_unit_price,
        forall|i: int|
            place(pool, gas_unit_price) <= i < pool.len() ==> (
            #[trigger] pool[i]).txn.gas_unit_price < gas_unit_price,
    decreases pool.len(),
{
    if pool.len() == 0 || pool.last().txn.gas_unit_price >= gas_unit_price {
        assert forall|i: int| 0 <= i < pool.len() implies (#[trigger] pool[i]).txn.gas_unit_price
            >= gas_unit_price by {
            if i < pool.len() - 1 {
                assert(pool[i].txn.gas_unit_price >= pool[pool.len() - 1].txn.gas_unit_price);
            }
        }
    } else {
        let rest = pool.drop_last();
        assert(by_price(rest)) by {
            assert forall|i: int, j: int|
                #![trigger rest[i], rest[j]]
                0 <= i < j < rest.len() implies rest[i].txn.gas_unit_price
                >= rest[j].txn.gas_unit_price by {
                assert(rest[i] == pool[i] && rest[j] == pool[j]);
            }
        }
        lemma_place(rest, gas_unit_price);
        assert forall|i: int| 0 <= i < place(rest, gas_unit_price) implies (
        #[trigger] pool[i]).txn.gas_unit_price >= gas_unit_price by {
            assert(rest[i] == pool[i]);
        }
        assert forall|i: int| place(rest, gas_unit_price) <= i < pool.len() implies (
        #[trigger] pool[i]).txn.gas_unit_price < gas_unit_price by {
            if i < rest.len() {
                assert(rest[i] == pool[i]);
            }
        }
    }
}

/// One more transaction outside the queue keeps the invariant, if it is not there yet and its
/// sender can pay for it.
pub proof fn lemma_placed_wf(store: StoreView, t: MempoolTransactionView)
    requires
        store.wf(),
        store.pool.len() < store.capacity,
        !holds(store.pool, t.pointer()),
        !t.ready,
        timeline_id(t) is None,
        required(store.pool, t.txn.sender) + t.cost() <= u64::MAX,
    ensures
        (StoreView { pool: placed(store.pool, t), ..store }).wf(),
{
    let pool = store.pool;
    let at = place(pool, t.txn.gas_unit_price);
    let next = placed(pool, t);
    lemma_place(pool, t.txn.gas_unit_price);
    assert forall|i: int| 0 <= i < next.len() implies #[trigger] next[i] == (if i < at {
        pool[i]
    } else if i == at {
        t
    } else {
        pool[i - 1]
    }) by {}
    assert forall|i: int, j: int|
        #![trigger next[i], next[j]]
        0 <= i < j < next.len() implies {
        &&& next[i].pointer() != next[j].pointer()
        &&& next[i].txn.gas_unit_price >= next[j].txn.gas_unit_price
        &&& timeline_id(next[i]) is Some ==> timeline_id(next[i]) != timeline_id(next[j])
    } by {
        let k = if i < at {
            i
        } else {
            i - 1
        };
        let l = if j < at {
            j
        } else {
            j - 1
        };
        if i == at {
            assert(next[j] == pool[l]);
            assert(!pool[l].is_at(t.pointer()));
        } else if j == at {
            assert(next[i] == pool[k]);
            assert(!pool[k].is_at(t.pointer()));
        } else {
            assert(next[i] == pool[k] && next[j] == pool[l]);
        }
    }
    assert forall|i: int| 0 <= i < next.len() && timeline_id(#[trigger] next[i]) is Some implies next[i].ready
        && timeline_id(next[i])->0 < store.next_timeline_id by {
        if i < at {
            assert(timeline_id(pool[i]) is Some);
        } else if i > at {
            assert(timeline_id(pool[i - 1]) is Some);
        }
    }
    assert forall|i: int|
        0 <= i < next.len() && (#[trigger] next[i]).ready && next[i].timeline_state
            == TimelineState::NotReady implies store.next_timeline_id == u64::MAX by {
        if i < at {
            assert(pool[i].ready);
        } else if i > at {
            assert(pool[i - 1].ready);
        }
    }
    assert forall|sender: AccountAddress| #[trigger] required(next, sender) <= u64::MAX by {
        lemma_required_insert(pool, at, t, sender);
        assert(required(pool, sender) <= u64::MAX);
    }
}

/// One transaction less keeps the invariant.
pub proof fn lemma_remove_wf(store: StoreView, at: int)
    requires
        store.wf(),
        0 <= at < store.pool.len(),
    ensures
        (StoreView { pool: store.pool.remove(at), ..store }).wf(),
        !holds(store.pool.remove(at), store.pool[at].pointer()),
{
    let pool = store.pool;
    let next = pool.remove(at);
    assert forall|i: int| 0 <= i < next.len() implies #[trigger] next[i] == (if i < at {
        pool[i]
    } else {
        pool[i + 1]
    }) by {}
    assert forall|i: int, j: int|
        #![trigger next[i], next[j]]
        0 <= i < j < next.len() implies {
        &&& next[i].pointer() != next[j].pointer()
        &&& next[i].txn.gas_unit_price >= next[j].txn.gas_unit_price
        &&& timeline_id(next[i]) is Some ==> timeline_id(next[i]) != timeline_id(next[j])
    } by {
        let k = if i < at {
            i
        } else {
            i + 1
        };
        let l = if j < at {
            j
        } else {
            j + 1
        };
        assert(next[i] == pool[k] && next[j] == pool[l]);
    }
    assert forall|i: int| 0 <= i < next.len() implies {
        &&& timeline_id(#[trigger] next[i]) is Some ==> next[i].ready && timeline_id(next[i])->0
            < store.next_timeline_id
        &&& !next[i].is_at(pool[at].pointer())
    } by {
        let k = if i < at {
            i
        } else {
            i + 1
        };
        assert(next[i] == pool[k]);
        assert(pool[k].pointer() != pool[at].pointer());
    }
    assert forall|sender: AccountAddress| #[trigger] required(next, sender) <= u64::MAX by {
        lemma_required_remove(pool, at, sender);
        assert(required(pool, sender) <= u64::MAX);
    }
}

/// A request to take a transaction in keeps the invariant.
pub proof fn lemma_insert_wf(store: StoreView, t: MempoolTransactionView, sequence_number: u64)
    requires
        store.wf(),
        required(store.pool, t.txn.sender) + t.cost() <= u64::MAX,
    ensures
        store.insert(t, sequence_number).wf(),
        store.admits(t.txn) ==> store.taken_in(t).wf(),
{
    if store.admits(t.txn) {
        let next = store.taken_in(t);
        if holds(store.pool, t.pointer()) {
            let at = position(store.pool, t.pointer());
            let present = store.pool[at];
            assert(0 <= at < store.pool.len() && present.is_at(t.pointer()));
            lemma_remove_wf(store, at);
            lemma_required_remove(store.pool, at, t.txn.sender);
            let less = StoreView { pool: store.pool.remove(at), ..store };
            lemma_placed_wf(less, StoreView::replacement(present, t));
        } else {
            lemma_placed_wf(store, StoreView::newcomer(t));
        }
        lemma_requeue(next, t.txn.sender, sequence_number);
    } else {
        lemma_requeue(store, t.txn.sender, sequence_number);
    }
}

} // verus!
