//! The mathematical model of the transaction store.

use crate::status::{
    invalid_update_text, mempool_is_full_text, MempoolAddTransactionStatusCode, StatusView,
};
use crate::types::{
    AccountAddress, MempoolTransactionView, SignedTransactionView, TimelineState, TxnPointer,
};
use vstd::prelude::*;

verus! {

/// All transactions of the mempool, best paying first; of two that pay the same, the one that
/// came first.
pub type Pool = Seq<MempoolTransactionView>;

/// What makes the store drop single transactions.
#[derive(Clone, Copy)]
pub enum Eviction {
    /// Consensus rejected the transaction.
    Rejected(TxnPointer),
    /// The system's expiration times up to this one are reached.
    SystemTtl(u128),
    /// The clients' expiration times up to this one are reached.
    ClientExpiration(u128),
}

impl Eviction {
    /// Whether the transaction is dropped.
    pub open spec fn takes(self, t: MempoolTransactionView) -> bool {
        match self {
            Eviction::Rejected(pointer) => t.is_at(pointer),
            Eviction::SystemTtl(now) => t.expiration_time <= now,
            Eviction::ClientExpiration(now) => t.txn.expiration_time <= now,
        }
    }
}

/// Whether the pool holds the transaction that `pointer` names.
pub open spec fn holds(pool: Pool, pointer: TxnPointer) -> bool {
    exists|i: int| 0 <= i < pool.len() && (#[trigger] pool[i]).is_at(pointer)
}

/// Where the pool holds the transaction that `pointer` names.
pub open spec fn position(pool: Pool, pointer: TxnPointer) -> int {
    choose|i: int| 0 <= i < pool.len() && (#[trigger] pool[i]).is_at(pointer)
}

/// The transaction that `pointer` names.
pub open spec fn lookup(pool: Pool, pointer: TxnPointer) -> Option<MempoolTransactionView> {
    if holds(pool, pointer) {
        Some(pool[position(pool, pointer)])
    } else {
        None
    }
}

/// No two transactions share a sender and a sequence number.
pub open spec fn distinct(pool: Pool) -> bool {
    forall|i: int, j: int|
        #![trigger pool[i], pool[j]]
        0 <= i < j < pool.len() ==> pool[i].pointer() != pool[j].pointer()
}

/// None pays less than one behind it.
pub open spec fn by_price(pool: Pool) -> bool {
    forall|i: int, j: int|
        #![trigger pool[i], pool[j]]
        0 <= i < j < pool.len() ==> pool[i].txn.gas_unit_price >= pool[j].txn.gas_unit_price
}

/// The position of the transaction in the timeline of the broadcast.
pub open spec fn timeline_id(t: MempoolTransactionView) -> Option<u64> {
    match t.timeline_state {
        TimelineState::Ready(id) => Some(id),
        _ => None,
    }
}

/// Only queued transactions have a place in the timeline; the places differ and are below
/// `next_id`. A queued transaction waits for a place only where there is none left.
pub open spec fn timeline_ok(pool: Pool, next_id: u64) -> bool {
    &&& forall|i: int|
        0 <= i < pool.len() && timeline_id(#[trigger] pool[i]) is Some ==> pool[i].ready
            && timeline_id(pool[i])->0 < next_id
    &&& forall|i: int|
        0 <= i < pool.len() && (#[trigger] pool[i]).ready && pool[i].timeline_state
            == TimelineState::NotReady ==> next_id == u64::MAX
    &&& forall|i: int, j: int|
        #![trigger pool[i], pool[j]]
        0 <= i < j < pool.len() && timeline_id(pool[i]) is Some ==> timeline_id(pool[i])
            != timeline_id(pool[j])
}

/// What `sender` owes at most for all its transactions in the pool.
pub open spec fn required(pool: Pool, sender: AccountAddress) -> nat
    decreases pool.len(),
{
    if pool.len() == 0 {
        0
    } else {
        required(pool.drop_last(), sender) + if pool.last().txn.sender == sender {
            pool.last().cost()
        } else {
            0
        }
    }
}

/// Every sender could pay for what it has in the pool out of a balance.
pub open spec fn affordable(pool: Pool) -> bool {
    forall|sender: AccountAddress| #[trigger] required(pool, sender) <= u64::MAX
}

/// Whether the pool holds all transactions of `sender` from `first` to `last`.
pub open spec fn sequential(pool: Pool, sender: AccountAddress, first: int, last: int) -> bool {
    &&& first <= last
    &&& forall|n: u64| first <= n <= last ==> #[trigger] holds(pool, (sender, n))
}

/// The queued transactions, best paying first.
pub open spec fn queued(pool: Pool) -> Pool {
    pool.filter(|t: MempoolTransactionView| t.ready)
}

/// The queue for the next blocks.
pub open spec fn queue(pool: Pool) -> Seq<TxnPointer> {
    queued(pool).map_values(|t: MempoolTransactionView| t.pointer())
}

/// Whether the transaction that `pointer` names is queued.
pub open spec fn is_queued(store: StoreView, pointer: TxnPointer) -> bool {
    holds(store.pool, pointer) && lookup(store.pool, pointer)->0.ready
}

/// Whether those transactions of `account` are queued, and no others, that follow `number` without
/// a gap.
pub open spec fn queue_follows(store: StoreView, account: AccountAddress, number: u64) -> bool {
    forall|n: u64| #[trigger]
        is_queued(store, (account, n)) <==> sequential(
            store.pool,
            account,
            number as int,
            n as int,
        )
}

/// Behind how many transactions one with the given price is placed.
pub open spec fn place(pool: Pool, gas_unit_price: u64) -> int
    decreases pool.len(),
{
    if pool.len() == 0 || pool.last().txn.gas_unit_price >= gas_unit_price {
        pool.len() as int
    } else {
        place(pool.drop_last(), gas_unit_price)
    }
}

/// The pool with one more transaction, at its place.
pub open spec fn placed(pool: Pool, t: MempoolTransactionView) -> Pool {
    pool.insert(place(pool, t.txn.gas_unit_price), t)
}

/// A transaction that leaves the queue, and with it the timeline.
pub open spec fn parked(t: MempoolTransactionView) -> MempoolTransactionView {
    MempoolTransactionView {
        ready: false,
        timeline_state: match t.timeline_state {
            TimelineState::Ready(_) => TimelineState::NotReady,
            state => state,
        },
        ..t
    }
}

/// Whether a transaction stays behind a gap in the queue: an earlier one of its sender is dropped
/// from there.
pub open spec fn cut_off(pool: Pool, eviction: Eviction, t: MempoolTransactionView) -> bool {
    exists|i: int|
        0 <= i < pool.len() && eviction.takes(#[trigger] pool[i]) && pool[i].ready
            && pool[i].txn.sender == t.txn.sender && pool[i].txn.sequence_number
            < t.txn.sequence_number
}

/// The transactions that are not dropped.
pub open spec fn spared(pool: Pool, eviction: Eviction) -> Pool {
    pool.filter(|t: MempoolTransactionView| !eviction.takes(t))
}

/// The pool after a drop: those behind a gap are parked.
pub open spec fn after_eviction(pool: Pool, eviction: Eviction) -> Pool {
    spared(pool, eviction).map_values(
        |t: MempoolTransactionView|
            if cut_off(pool, eviction, t) {
                parked(t)
            } else {
                t
            },
    )
}

/// The pool without the transactions of `sender` below `sequence_number`.
pub open spec fn from_sequence_number(
    pool: Pool,
    sender: AccountAddress,
    sequence_number: u64,
) -> Pool {
    pool.filter(
        |t: MempoolTransactionView|
            !(t.txn.sender == sender && t.txn.sequence_number < sequence_number),
    )
}

/// Where the pool holds the transaction that is broadcast next after the position `after`.
pub open spec fn is_next_on_timeline(pool: Pool, after: u64, i: int) -> bool {
    &&& 0 <= i < pool.len()
    &&& timeline_id(pool[i]) is Some
    &&& timeline_id(pool[i])->0 > after
    &&& forall|j: int|
        0 <= j < pool.len() && timeline_id(#[trigger] pool[j]) is Some && timeline_id(pool[j])->0
            > after ==> timeline_id(pool[i])->0 <= timeline_id(pool[j])->0
}

/// The first `count` transactions of the timeline after the position `after`.
pub open spec fn timeline(pool: Pool, after: u64, count: nat) -> Pool
    decreases count,
{
    if count == 0 || !exists|i: int| is_next_on_timeline(pool, after, i) {
        Seq::empty()
    } else {
        let next = pool[choose|i: int| is_next_on_timeline(pool, after, i)];
        seq![next] + timeline(pool, timeline_id(next)->0, (count - 1) as nat)
    }
}

/// The position that a read of the timeline has come to.
pub open spec fn timeline_end(read: Pool, after: u64) -> u64 {
    if read.len() == 0 {
        after
    } else {
        timeline_id(read.last())->0
    }
}

/// The transactions proper.
pub open spec fn signed(pool: Pool) -> Seq<SignedTransactionView> {
    pool.map_values(|t: MempoolTransactionView| t.txn)
}

/// The model of the transaction store.
#[verifier::ext_equal]
pub struct StoreView {
    /// What it holds.
    pub pool: Pool,
    /// How many transactions it holds at most.
    pub capacity: nat,
    /// The next free position of the timeline.
    pub next_timeline_id: u64,
}

impl StoreView {
    /// What every operation keeps.
    pub open spec fn wf(self) -> bool {
        &&& distinct(self.pool)
        &&& by_price(self.pool)
        &&& timeline_ok(self.pool, self.next_timeline_id)
        &&& affordable(self.pool)
        &&& self.pool.len() <= self.capacity
        &&& self.next_timeline_id >= 1
    }

    /// The store after the transaction at `i` has gone into the queue and, if it waits for the
    /// broadcast and the timeline has a position left, into the timeline.
    pub open spec fn promote_at(self, i: int) -> StoreView {
        let t = self.pool[i];
        let broadcast_it = t.timeline_state == TimelineState::NotReady && self.next_timeline_id
            < u64::MAX;
        StoreView {
            pool: self.pool.update(
                i,
                MempoolTransactionView {
                    ready: true,
                    timeline_state: if broadcast_it {
                        TimelineState::Ready(self.next_timeline_id)
                    } else {
                        t.timeline_state
                    },
                    ..t
                },
            ),
            next_timeline_id: if broadcast_it {
                (self.next_timeline_id + 1) as u64
            } else {
                self.next_timeline_id
            },
            ..self
        }
    }

    /// The store after the transactions of `sender` from `sequence_number` up to the first gap
    /// have gone into the queue.
    pub open spec fn promote(self, sender: AccountAddress, sequence_number: u64) -> StoreView
        decreases u64::MAX - sequence_number,
    {
        if !holds(self.pool, (sender, sequence_number)) {
            self
        } else {
            let next = self.promote_at(position(self.pool, (sender, sequence_number)));
            if sequence_number == u64::MAX {
                next
            } else {
                next.promote(sender, (sequence_number + 1) as u64)
            }
        }
    }

    /// The store after the transactions of `sender` that do not follow `sequence_number` without
    /// a gap have left the queue.
    pub open spec fn park_outside(self, sender: AccountAddress, sequence_number: u64) -> StoreView {
        StoreView {
            pool: self.pool.map_values(
                |t: MempoolTransactionView|
                    if t.txn.sender == sender && !sequential(
                        self.pool,
                        sender,
                        sequence_number as int,
                        t.txn.sequence_number as int,
                    ) {
                        parked(t)
                    } else {
                        t
                    },
            ),
            ..self
        }
    }

    /// The store after `sequence_number` has become the current one of `sender`: those of its
    /// transactions are queued that follow it without a gap.
    pub open spec fn requeue(self, sender: AccountAddress, sequence_number: u64) -> StoreView {
        self.park_outside(sender, sequence_number).promote(sender, sequence_number)
    }

    /// The store after all transactions of `sender` below `sequence_number` have been committed.
    pub open spec fn commit(self, sender: AccountAddress, sequence_number: u64) -> StoreView {
        StoreView {
            pool: from_sequence_number(self.pool, sender, sequence_number),
            ..self
        }.requeue(sender, sequence_number)
    }

    /// The store after a drop.
    pub open spec fn evict(self, eviction: Eviction) -> StoreView {
        StoreView { pool: after_eviction(self.pool, eviction), ..self }
    }

    /// The transaction as it enters the store: outside the queue and the timeline.
    pub open spec fn newcomer(t: MempoolTransactionView) -> MempoolTransactionView {
        parked(t)
    }

    /// What `t` becomes where it replaces `present`: it pays more, and keeps the time by which the
    /// system drops it. It is broadcast as its own request says, and at a position of its own.
    pub open spec fn replacement(
        present: MempoolTransactionView,
        t: MempoolTransactionView,
    ) -> MempoolTransactionView {
        MempoolTransactionView { expiration_time: present.expiration_time, ..parked(t) }
    }

    /// Whether the store takes `txn` in.
    pub open spec fn admits(self, txn: SignedTransactionView) -> bool {
        match lookup(self.pool, txn.pointer()) {
            Some(present) => txn.gas_unit_price > present.txn.gas_unit_price,
            None => self.pool.len() < self.capacity,
        }
    }

    /// The answer to the request to take `txn` in.
    pub open spec fn answer(self, txn: SignedTransactionView) -> StatusView {
        if self.admits(txn) {
            StatusView { code: MempoolAddTransactionStatusCode::Valid, message: Seq::empty() }
        } else if holds(self.pool, txn.pointer()) {
            StatusView {
                code: MempoolAddTransactionStatusCode::InvalidUpdate,
                message: invalid_update_text(txn.gas_unit_price),
            }
        } else {
            StatusView {
                code: MempoolAddTransactionStatusCode::MempoolIsFull,
                message: mempool_is_full_text(self.pool.len(), self.capacity),
            }
        }
    }

    /// The store with `t` in it, outside the queue.
    pub open spec fn taken_in(self, t: MempoolTransactionView) -> StoreView {
        StoreView {
            pool: match lookup(self.pool, t.pointer()) {
                Some(present) => placed(
                    self.pool.remove(position(self.pool, t.pointer())),
                    Self::replacement(present, t),
                ),
                None => placed(self.pool, Self::newcomer(t)),
            },
            ..self
        }
    }

    /// The store after the request to take `t` in, where `sequence_number` is the current one of
    /// its sender.
    pub open spec fn insert(self, t: MempoolTransactionView, sequence_number: u64) -> StoreView {
        if self.admits(t.txn) {
            self.taken_in(t).requeue(t.txn.sender, sequence_number)
        } else {
            self.requeue(t.txn.sender, sequence_number)
        }
    }
}

} // verus!
