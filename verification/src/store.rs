//! The store of all transactions in the mempool.

use crate::laws::law_timeline_order;
use crate::pool::{
    after_eviction, cut_off, distinct, from_sequence_number, holds, is_next_on_timeline, lookup,
    parked, place, placed, position, queue, required, sequential, signed, spared, timeline,
    timeline_end, timeline_id, Eviction, Pool, StoreView,
};
use crate::plain_store_laws::law_lookup;
use crate::pool_lemmas::{
    lemma_commit_wf, lemma_evict_wf, lemma_filter_take, lemma_insert_wf, lemma_park_outside,
    lemma_promote_at, lemma_required_take,
};
use crate::status::{invalid_update, mempool_is_full, valid, MempoolAddTransactionStatus};
use crate::types::{
    AccountAddress, MempoolTransaction, MempoolTransactionView, SignedTransaction,
    SignedTransactionView, TimelineState, TxnPointer,
};
use std::collections::BTreeMap;
use vstd::prelude::*;

verus! {

broadcast use {vstd::laws_cmp::group_laws_cmp, vstd::std_specs::btree::group_btree_axioms};

/// All transactions of the mempool.
pub struct TransactionStore {
    /// Best paying first; of two that pay the same, the one that came first.
    transactions: Vec<MempoolTransaction>,
    capacity: usize,
    next_timeline_id: u64,
}

/// The models of the given transactions.
spec fn models(transactions: Seq<MempoolTransaction>) -> Pool {
    transactions.map_values(|t: MempoolTransaction| t@)
}

impl View for TransactionStore {
    type V = StoreView;

    closed spec fn view(&self) -> StoreView {
        StoreView {
            pool: models(self.transactions@),
            capacity: self.capacity as nat,
            next_timeline_id: self.next_timeline_id,
        }
    }
}

/// Whether two addresses are the same.
fn same_address(a: &AccountAddress, b: &AccountAddress) -> (same: bool)
    ensures
        same == (*a == *b),
{
    a.0 == b.0 && a.1 == b.1
}

impl TransactionStore {
    /// An empty store for at most `capacity` transactions. The timeline starts at position 1.
    pub fn new(capacity: usize) -> (store: Self)
        ensures
            store@ == (StoreView {
                pool: Seq::empty(),
                capacity: capacity as nat,
                next_timeline_id: 1,
            }),
            store@.wf(),
    {
        let store = TransactionStore { transactions: Vec::new(), capacity, next_timeline_id: 1 };
        assert(store@.pool =~= Seq::empty());
        store
    }

    /// Where the transaction stands that `pointer` names.
    fn find(&self, pointer: TxnPointer) -> (found: Option<usize>)
        requires
            distinct(self@.pool),
        ensures
            match found {
                Some(i) => i < self@.pool.len() && holds(self@.pool, pointer) && i == position(
                    self@.pool,
                    pointer,
                ),
                None => !holds(self@.pool, pointer),
            },
    {
        let mut i: usize = 0;
        while i < self.transactions.len()
            invariant
                distinct(self@.pool),
                i <= self@.pool.len() == self.transactions@.len(),
                forall|j: int| 0 <= j < i ==> !(#[trigger] self@.pool[j]).is_at(pointer),
            decreases self.transactions@.len() - i,
        {
            let t = &self.transactions[i];
            assert(self@.pool[i as int] == t@);
            if t.txn.sequence_number == pointer.1 && same_address(&t.txn.sender, &pointer.0) {
                assert(self@.pool[i as int].is_at(pointer));
                assert(position(self@.pool, pointer) == i);
                return Some(i);
            }
            i += 1;
        }
        None
    }

    /// The transaction of `address` with `sequence_number`.
    pub fn get(&self, address: &AccountAddress, sequence_number: u64) -> (txn: Option<
        SignedTransaction,
    >)
        requires
            self@.wf(),
        ensures
            match lookup(self@.pool, (*address, sequence_number)) {
                Some(t) => txn matches Some(found) && found@ == t.txn,
                None => txn is None,
            },
            txn is Some <==> exists|i: int|
                0 <= i < self@.pool.len() && (#[trigger] self@.pool[i]).txn.sender == *address
                    && self@.pool[i].txn.sequence_number == sequence_number,
            forall|i: int|
                0 <= i < self@.pool.len() && (#[trigger] self@.pool[i]).txn.sender == *address
                    && self@.pool[i].txn.sequence_number == sequence_number ==> txn->0@
                    == self@.pool[i].txn,
    {
        proof {
            law_lookup(self@, (*address, sequence_number));
        }
        match self.find((*address, sequence_number)) {
            Some(i) => {
                assert(self@.pool[i as int].is_at((*address, sequence_number)));
                assert(self@.pool[i as int] == self.transactions@[i as int]@);
                Some(self.transactions[i].txn.clone())
            },
            None => None,
        }
    }

    /// Puts the transaction at its place: behind those that pay as much or more.
    fn put(&mut self, t: MempoolTransaction)
        ensures
            final(self)@ == (StoreView {
                pool: placed(old(self)@.pool, t@),
                ..old(self)@
            }),
    {
        let price: u64 = t.txn.gas_unit_price;
        let mut i: usize = self.transactions.len();
        assert(self@.pool.take(i as int) =~= self@.pool);
        while i > 0 && self.transactions[i - 1].txn.gas_unit_price < price
            invariant
                i <= self.transactions@.len() == self@.pool.len(),
                place(self@.pool, price) == place(self@.pool.take(i as int), price),
            decreases i,
        {
            assert(self@.pool.take(i as int).last() == self.transactions@[i - 1]@);
            assert(self@.pool.take(i as int).drop_last() =~= self@.pool.take(i - 1));
            i -= 1;
        }
        assert(place(self@.pool, price) == i) by {
            if i > 0 {
                assert(self@.pool.take(i as int).last() == self.transactions@[i - 1]@);
            }
        }
        self.transactions.insert(i, t);
        assert(self@.pool =~= old(self)@.pool.insert(i as int, t@));
    }

    /// Moves the transaction at `i` into the queue and, where it waits for the broadcast, into the
    /// timeline.
    fn promote_at(&mut self, i: usize)
        requires
            i < old(self)@.pool.len(),
        ensures
            final(self)@ == old(self)@.promote_at(i as int),
    {
        let t = &mut self.transactions[i];
        t.ready = true;
        if t.timeline_state == TimelineState::NotReady && self.next_timeline_id < u64::MAX {
            t.timeline_state = TimelineState::Ready(self.next_timeline_id);
            self.next_timeline_id += 1;
        }
        assert(self@.pool =~= old(self)@.promote_at(i as int).pool);
    }

    /// Moves the transactions of `sender` from `sequence_number` up to the first gap into the
    /// queue.
    fn promote(&mut self, sender: AccountAddress, sequence_number: u64)
        requires
            old(self)@.wf(),
        ensures
            final(self)@ == old(self)@.promote(sender, sequence_number),
            final(self)@.wf(),
    {
        let mut next: u64 = sequence_number;
        loop
            invariant
                self@.wf(),
                self@.promote(sender, next) == old(self)@.promote(sender, sequence_number),
            ensures
                self@.wf(),
                self@ == old(self)@.promote(sender, sequence_number),
            decreases u64::MAX - next,
        {
            match self.find((sender, next)) {
                Some(i) => {
                    proof {
                        lemma_promote_at(self@, i as int);
                    }
                    self.promote_at(i);
                    if next == u64::MAX {
                        break;
                    }
                    next += 1;
                },
                None => {
                    break;
                },
            }
        }
    }

    /// The first sequence number from `sequence_number` on that the transactions of `sender` lack.
    fn first_gap(&self, sender: AccountAddress, sequence_number: u64) -> (gap: Option<u64>)
        requires
            distinct(self@.pool),
        ensures
            forall|n: u64| #[trigger]
                sequential(self@.pool, sender, sequence_number as int, n as int)
                    <==> sequence_number <= n && match gap {
                    Some(first) => n < first,
                    None => true,
                },
    {
        let mut next: u64 = sequence_number;
        loop
            invariant
                distinct(self@.pool),
                sequence_number <= next,
                forall|n: u64|
                    sequence_number <= n < next ==> #[trigger] holds(self@.pool, (sender, n)),
            decreases u64::MAX - next,
        {
            if self.find((sender, next)).is_none() {
                return Some(next);
            }
            if next == u64::MAX {
                return None;
            }
            next += 1;
        }
    }

    /// Takes the transactions of `sender` that do not follow `sequence_number` without a gap out
    /// of the queue.
    fn park_outside(&mut self, sender: AccountAddress, sequence_number: u64)
        requires
            distinct(old(self)@.pool),
        ensures
            final(self)@ == old(self)@.park_outside(sender, sequence_number),
    {
        let gap = self.first_gap(sender, sequence_number);
        let ghost pool = self@.pool;
        let ghost next = self@.park_outside(sender, sequence_number).pool;
        let mut i: usize = 0;
        assert(next.take(0) + pool.skip(0) =~= pool);
        while i < self.transactions.len()
            invariant
                i <= pool.len() == next.len() == self.transactions@.len(),
                self@.pool == next.take(i as int) + pool.skip(i as int),
                self@.capacity == old(self)@.capacity,
                self@.next_timeline_id == old(self)@.next_timeline_id,
                pool == old(self)@.pool,
                next == old(self)@.park_outside(sender, sequence_number).pool,
                forall|n: u64| #[trigger]
                    sequential(pool, sender, sequence_number as int, n as int)
                        <==> sequence_number <= n && match gap {
                        Some(first) => n < first,
                        None => true,
                    },
            decreases self.transactions@.len() - i,
        {
            let ghost held = self@.pool;
            let t = &mut self.transactions[i];
            assert(held[i as int] == t@);
            assert(pool[i as int] == t@);
            let ghost number = t.txn.sequence_number;
            assert(sequential(pool, sender, sequence_number as int, number as int)
                <==> sequence_number <= number && match gap {
                Some(first) => number < first,
                None => true,
            });
            let follows = sequence_number <= t.txn.sequence_number && match gap {
                Some(first) => t.txn.sequence_number < first,
                None => true,
            };
            if same_address(&t.txn.sender, &sender) && !follows {
                park(t);
            }
            assert(self@.pool =~= held.update(i as int, next[i as int]));
            assert(held.update(i as int, next[i as int]) =~= next.take(i + 1) + pool.skip(i + 1));
            i += 1;
        }
        assert(self@.pool =~= next);
    }

    /// Makes `sequence_number` the current one of `sender`: those of its transactions are queued
    /// that follow it without a gap.
    pub(crate) fn requeue(&mut self, sender: AccountAddress, sequence_number: u64)
        requires
            old(self)@.wf(),
        ensures
            final(self)@ == old(self)@.requeue(sender, sequence_number),
            final(self)@.wf(),
    {
        proof {
            lemma_park_outside(self@, sender, sequence_number);
        }
        self.park_outside(sender, sequence_number);
        self.promote(sender, sequence_number);
    }

    /// Takes a transaction in, where `sequence_number` is the current one of its sender. One with
    /// the sender and the sequence number of another takes its place if it pays more.
    pub fn insert(&mut self, txn: MempoolTransaction, sequence_number: u64) -> (status:
        MempoolAddTransactionStatus)
        requires
            old(self)@.wf(),
            required(old(self)@.pool, txn@.txn.sender) + txn@.cost() <= u64::MAX,
        ensures
            final(self)@ == old(self)@.insert(txn@, sequence_number),
            final(self)@.wf(),
            status@ == old(self)@.answer(txn@.txn),
    {
        proof {
            lemma_insert_wf(self@, txn@, sequence_number);
        }
        let sender: AccountAddress = txn.txn.sender;
        let gas_unit_price: u64 = txn.txn.gas_unit_price;
        let entry = match self.find((sender, txn.txn.sequence_number)) {
            Some(i) => {
                assert(self@.pool[i as int] == self.transactions@[i as int]@);
                if gas_unit_price <= self.transactions[i].txn.gas_unit_price {
                    self.requeue(sender, sequence_number);
                    return invalid_update(gas_unit_price);
                }
                let present = self.transactions.remove(i);
                assert(self@.pool =~= old(self)@.pool.remove(i as int));
                MempoolTransaction {
                    txn: txn.txn,
                    expiration_time: present.expiration_time,
                    gas_amount: txn.gas_amount,
                    timeline_state: off_timeline(txn.timeline_state),
                    ready: false,
                }
            },
            None => {
                if self.transactions.len() >= self.capacity {
                    let status = mempool_is_full(self.transactions.len(), self.capacity);
                    self.requeue(sender, sequence_number);
                    return status;
                }
                MempoolTransaction {
                    txn: txn.txn,
                    expiration_time: txn.expiration_time,
                    gas_amount: txn.gas_amount,
                    timeline_state: off_timeline(txn.timeline_state),
                    ready: false,
                }
            },
        };
        self.put(entry);
        assert(self@ == old(self)@.taken_in(txn@));
        self.requeue(sender, sequence_number);
        valid()
    }

    /// Drops the transactions of `account` below `sequence_number`, which have been committed,
    /// and moves those that were waiting for them into the queue.
    pub fn commit_transaction(&mut self, account: &AccountAddress, sequence_number: u64)
        requires
            old(self)@.wf(),
        ensures
            final(self)@ == old(self)@.commit(*account, sequence_number),
            final(self)@.wf(),
    {
        proof {
            lemma_commit_wf(self@, *account, sequence_number);
        }
        let ghost pool = self@.pool;
        let ghost mut n: int = 0;
        let mut i: usize = 0;
        assert(pool.take(0) =~= Seq::empty());
        assert(pool.skip(0) =~= pool);
        assert(from_sequence_number(Seq::empty(), *account, sequence_number) =~= Seq::empty());
        while i < self.transactions.len()
            invariant
                0 <= n <= pool.len(),
                i == from_sequence_number(pool.take(n), *account, sequence_number).len(),
                self@.pool == from_sequence_number(pool.take(n), *account, sequence_number)
                    + pool.skip(n),
                self@.capacity == old(self)@.capacity,
                self@.next_timeline_id == old(self)@.next_timeline_id,
                self@.pool.len() == self.transactions@.len(),
            decreases self.transactions@.len() - i,
        {
            let t = &self.transactions[i];
            let ghost before = from_sequence_number(pool.take(n), *account, sequence_number);
            proof {
                assert(self@.pool[i as int] == t@);
                assert(pool.skip(n)[0] == t@);
                assert(pool[n] == t@);
                lemma_filter_take(
                    pool,
                    n,
                    |t: MempoolTransactionView|
                        !(t.txn.sender == *account && t.txn.sequence_number < sequence_number),
                );
                n = n + 1;
            }
            if t.txn.sequence_number < sequence_number && same_address(&t.txn.sender, account) {
                let ghost held = self@.pool;
                let _ = self.transactions.remove(i);
                assert(self@.pool =~= held.remove(i as int));
                assert(held.remove(i as int) =~= before + pool.skip(n));
            } else {
                assert(self@.pool =~= before.push(t@) + pool.skip(n));
                i += 1;
            }
        }
        assert(pool.skip(n).len() == 0);
        assert(pool.take(n) =~= pool);
        assert(self@.pool =~= from_sequence_number(pool, *account, sequence_number));
        self.requeue(*account, sequence_number);
    }

    /// For each sender, the first of its transactions that is dropped from the queue.
    fn first_dropped(&self, eviction: Eviction) -> (first: BTreeMap<AccountAddress, u64>)
        ensures
            forall|t: MempoolTransactionView| #[trigger]
                cut_off(self@.pool, eviction, t) <==> first@.contains_key(t.txn.sender)
                    && first@[t.txn.sender] < t.txn.sequence_number,
    {
        let mut first: BTreeMap<AccountAddress, u64> = BTreeMap::new();
        let mut i: usize = 0;
        while i < self.transactions.len()
            invariant
                i <= self.transactions@.len() == self@.pool.len(),
                forall|j: int|
                    0 <= j < i && eviction.takes(#[trigger] self@.pool[j]) && self@.pool[j].ready
                        ==> first@.contains_key(self@.pool[j].txn.sender)
                        && first@[self@.pool[j].txn.sender] <= self@.pool[j].txn.sequence_number,
                forall|sender: AccountAddress| #[trigger]
                    first@.contains_key(sender) ==> exists|j: int|
                        0 <= j < i && eviction.takes(#[trigger] self@.pool[j])
                            && self@.pool[j].ready && self@.pool[j].txn.sender == sender
                            && self@.pool[j].txn.sequence_number == first@[sender],
            decreases self.transactions@.len() - i,
        {
            let t = &self.transactions[i];
            assert(self@.pool[i as int] == t@);
            if t.ready && takes(eviction, t) {
                let is_first = match first.get(&t.txn.sender) {
                    Some(sequence_number) => t.txn.sequence_number < *sequence_number,
                    None => true,
                };
                if is_first {
                    first.insert(t.txn.sender, t.txn.sequence_number);
                }
            }
            i += 1;
        }
        first
    }

    /// Drops the transactions that `eviction` takes, and takes those behind a gap out of the
    /// queue.
    fn evict(&mut self, eviction: Eviction)
        requires
            old(self)@.wf(),
        ensures
            final(self)@ == old(self)@.evict(eviction),
            final(self)@.wf(),
    {
        proof {
            lemma_evict_wf(self@, eviction);
        }
        let first = self.first_dropped(eviction);
        let ghost pool = self@.pool;
        let ghost mut n: int = 0;
        let mut i: usize = 0;
        assert(pool.take(0) =~= Seq::empty());
        assert(pool.skip(0) =~= pool);
        assert(after_eviction_of(pool, Seq::empty(), eviction) =~= Seq::empty());
        while i < self.transactions.len()
            invariant
                0 <= n <= pool.len(),
                i == spared(pool.take(n), eviction).len(),
                self@.pool == after_eviction_of(pool, pool.take(n), eviction) + pool.skip(n),
                self@.capacity == old(self)@.capacity,
                self@.next_timeline_id == old(self)@.next_timeline_id,
                self@.pool.len() == self.transactions@.len(),
                forall|t: MempoolTransactionView| #[trigger]
                    cut_off(pool, eviction, t) <==> first@.contains_key(t.txn.sender)
                        && first@[t.txn.sender] < t.txn.sequence_number,
            decreases self.transactions@.len() - i,
        {
            let ghost before = after_eviction_of(pool, pool.take(n), eviction);
            let ghost held = self@.pool;
            let t = &mut self.transactions[i];
            let ghost found = t@;
            proof {
                assert(held[i as int] == t@);
                assert(pool.skip(n)[0] == t@);
                assert(pool[n] == t@);
                lemma_filter_take(pool, n, |t: MempoolTransactionView| !eviction.takes(t));
                n = n + 1;
            }
            if takes(eviction, t) {
                let _ = self.transactions.remove(i);
                assert(self@.pool =~= held.remove(i as int));
                assert(held.remove(i as int) =~= before + pool.skip(n));
                assert(after_eviction_of(pool, pool.take(n), eviction) =~= before);
            } else {
                let is_cut_off = match first.get(&t.txn.sender) {
                    Some(sequence_number) => *sequence_number < t.txn.sequence_number,
                    None => false,
                };
                if is_cut_off {
                    park(t);
                }
                proof {
                    let kept = if cut_off(pool, eviction, found) {
                        parked(found)
                    } else {
                        found
                    };
                    assert(self@.pool =~= held.update(i as int, kept));
                    assert(after_eviction_of(pool, pool.take(n), eviction) =~= before.push(kept));
                    assert(held.update(i as int, kept) =~= before.push(kept) + pool.skip(n));
                }
                i += 1;
            }
        }
        assert(pool.take(n) =~= pool);
        assert(self@.pool =~= after_eviction(pool, eviction));
    }

    /// Drops the transaction, which consensus has rejected, and takes the later ones of its sender
    /// out of the queue.
    pub fn reject_transaction(&mut self, account: &AccountAddress, sequence_number: u64)
        requires
            old(self)@.wf(),
        ensures
            final(self)@ == old(self)@.evict(Eviction::Rejected((*account, sequence_number))),
            final(self)@.wf(),
    {
        self.evict(Eviction::Rejected((*account, sequence_number)));
    }

    /// Drops the transactions that have been in the mempool for too long at `now`.
    pub fn gc_by_system_ttl(&mut self, now: u128)
        requires
            old(self)@.wf(),
        ensures
            final(self)@ == old(self)@.evict(Eviction::SystemTtl(now)),
            final(self)@.wf(),
    {
        self.evict(Eviction::SystemTtl(now));
    }

    /// Drops the transactions that their clients wanted executed before `block_time`.
    pub fn gc_by_expiration_time(&mut self, block_time: u128)
        requires
            old(self)@.wf(),
        ensures
            final(self)@ == old(self)@.evict(Eviction::ClientExpiration(block_time)),
            final(self)@.wf(),
    {
        self.evict(Eviction::ClientExpiration(block_time));
    }

    /// What `address` owes at most for all its transactions.
    pub fn get_required_balance(&self, address: &AccountAddress) -> (sum: u64)
        requires
            self@.wf(),
        ensures
            sum == required(self@.pool, *address),
    {
        let ghost pool = self@.pool;
        let mut sum: u64 = 0;
        let mut i: usize = 0;
        while i < self.transactions.len()
            invariant
                i <= self.transactions@.len() == pool.len(),
                pool == self@.pool,
                self@.wf(),
                sum == required(pool.take(i as int), *address),
            decreases self.transactions@.len() - i,
        {
            let t = &self.transactions[i];
            proof {
                assert(pool[i as int] == t@);
                assert(pool.take(i + 1).drop_last() =~= pool.take(i as int));
                lemma_required_take(pool, i + 1, *address);
                assert(required(pool, *address) <= u64::MAX);
            }
            if same_address(&t.txn.sender, address) {
                assert(sum + t@.cost() <= u64::MAX);
                assert(t.txn.gas_unit_price * t.gas_amount >= 0) by (nonlinear_arith);
                sum = sum + t.txn.gas_unit_price * t.gas_amount;
            }
            i += 1;
        }
        assert(pool.take(i as int) =~= pool);
        sum
    }

    /// The queue for the next blocks, best paying first.
    pub fn iter_queue(&self) -> (pointers: Vec<TxnPointer>)
        ensures
            pointers@ == queue(self@.pool),
    {
        let ghost pool = self@.pool;
        let mut pointers: Vec<TxnPointer> = Vec::new();
        let mut i: usize = 0;
        assert(queue(pool.take(0)) =~= Seq::empty());
        while i < self.transactions.len()
            invariant
                i <= self.transactions@.len() == pool.len(),
                pool == self@.pool,
                pointers@ == queue(pool.take(i as int)),
            decreases self.transactions@.len() - i,
        {
            let t = &self.transactions[i];
            proof {
                assert(pool[i as int] == t@);
                lemma_filter_take(pool, i as int, |t: MempoolTransactionView| t.ready);
            }
            if t.ready {
                pointers.push((t.txn.sender, t.txn.sequence_number));
            }
            i += 1;
            assert(pointers@ =~= queue(pool.take(i as int)));
        }
        assert(pool.take(i as int) =~= pool);
        pointers
    }

    /// Where the transaction stands that is broadcast next after the position `after`.
    fn find_next_on_timeline(&self, after: u64) -> (found: Option<usize>)
        ensures
            match found {
                Some(i) => is_next_on_timeline(self@.pool, after, i as int),
                None => forall|i: int| !is_next_on_timeline(self@.pool, after, i),
            },
    {
        let ghost pool = self@.pool;
        let mut found: Option<usize> = None;
        let mut best: u64 = 0;
        let mut i: usize = 0;
        while i < self.transactions.len()
            invariant
                i <= self.transactions@.len() == pool.len(),
                pool == self@.pool,
                match found {
                    Some(k) => k < i && timeline_id(pool[k as int]) == Some(best) && best > after,
                    None => true,
                },
                forall|j: int|
                    0 <= j < i && timeline_id(#[trigger] pool[j]) is Some && timeline_id(
                        pool[j],
                    )->0 > after ==> found is Some && best <= timeline_id(pool[j])->0,
            decreases self.transactions@.len() - i,
        {
            let t = &self.transactions[i];
            assert(pool[i as int] == t@);
            match t.timeline_state {
                TimelineState::Ready(id) => {
                    if id > after && (found.is_none() || id < best) {
                        found = Some(i);
                        best = id;
                    }
                },
                _ => {},
            }
            i += 1;
        }
        found
    }

    /// The first `count` transactions of the timeline after the position `after`, and the
    /// position of the last of them.
    pub fn read_timeline(&self, after: u64, count: usize) -> (read: (
        Vec<SignedTransaction>,
        u64,
    ))
        requires
            self@.wf(),
        ensures
            signed_models(read.0@) == signed(timeline(self@.pool, after, count as nat)),
            read.1 == timeline_end(timeline(self@.pool, after, count as nat), after),
            read.0@.len() == timeline(self@.pool, after, count as nat).len(),
            read.0@.len() <= count,
            forall|i: int|
                0 <= i < read.0@.len() ==> (#[trigger] read.0@[i])@ == timeline(
                    self@.pool,
                    after,
                    count as nat,
                )[i].txn,
    {
        let ghost pool = self@.pool;
        let ghost all = timeline(pool, after, count as nat);
        let ghost mut done: Pool = Seq::empty();
        let mut batch: Vec<SignedTransaction> = Vec::new();
        let mut last: u64 = after;
        let mut left: usize = count;
        assert(done + all =~= all);
        loop
            invariant
                pool == self@.pool,
                self@.wf(),
                done + timeline(pool, last, left as nat) == all,
                last == timeline_end(done, after),
                signed_models(batch@) == signed(done),
            ensures
                signed_models(batch@) == signed(all),
                last == timeline_end(all, after),
            decreases left,
        {
            if left == 0 {
                assert(done =~= all);
                break;
            }
            match self.find_next_on_timeline(last) {
                Some(i) => {
                    let t = &self.transactions[i];
                    assert(pool[i as int] == t@);
                    proof {
                        let k = choose|k: int| is_next_on_timeline(pool, last, k);
                        assert(timeline_id(pool[k]) == timeline_id(pool[i as int]));
                        assert(k == i);
                    }
                    let ghost read_before = batch@;
                    batch.push(t.txn.clone());
                    match t.timeline_state {
                        TimelineState::Ready(id) => {
                            last = id;
                        },
                        _ => {},
                    }
                    left -= 1;
                    proof {
                        let rest = timeline(pool, last, left as nat);
                        assert(done + (seq![t@] + rest) =~= done.push(t@) + rest);
                        assert(signed_models(batch@) =~= signed_models(read_before).push(t@.txn));
                        assert(signed(done.push(t@)) =~= signed(done).push(t@.txn));
                        done = done.push(t@);
                    }
                },
                None => {
                    assert(done =~= all);
                    break;
                },
            }
        }
        proof {
            law_timeline_order(self@, after, count as nat);
            assert(signed(all).len() == all.len());
            assert forall|i: int| 0 <= i < batch@.len() implies (#[trigger] batch@[i])@
                == all[i].txn by {
                assert(signed_models(batch@)[i] == batch@[i]@);
                assert(signed(all)[i] == all[i].txn);
            }
        }
        (batch, last)
    }

    /// Whether the store is within its capacity.
    pub fn health_check(&self) -> (healthy: bool)
        ensures
            healthy == (self@.pool.len() <= self@.capacity),
    {
        self.transactions.len() <= self.capacity
    }
}

/// The state of a transaction that has no position in the timeline.
fn off_timeline(state: TimelineState) -> (off: TimelineState)
    ensures
        off == match state {
            TimelineState::Ready(_) => TimelineState::NotReady,
            state => state,
        },
{
    match state {
        TimelineState::Ready(_) => TimelineState::NotReady,
        state => state,
    }
}

/// Takes the transaction out of the queue and the timeline.
fn park(t: &mut MempoolTransaction)
    ensures
        final(t)@ == parked(old(t)@),
{
    t.ready = false;
    t.timeline_state = off_timeline(t.timeline_state);
}

/// What a drop from `pool` makes of the part `part` of it.
spec fn after_eviction_of(pool: Pool, part: Pool, eviction: Eviction) -> Pool {
    spared(part, eviction).map_values(
        |t: MempoolTransactionView|
            if cut_off(pool, eviction, t) {
                parked(t)
            } else {
                t
            },
    )
}

/// The models of the given transactions.
pub open spec fn signed_models(transactions: Seq<SignedTransaction>) -> Seq<SignedTransactionView> {
    transactions.map_values(|t: SignedTransaction| t@)
}

/// Whether `eviction` takes the transaction.
fn takes(eviction: Eviction, t: &MempoolTransaction) -> (taken: bool)
    ensures
        taken == eviction.takes(t@),
{
    match eviction {
        Eviction::Rejected(pointer) => t.txn.sequence_number == pointer.1 && same_address(
            &t.txn.sender,
            &pointer.0,
        ),
        Eviction::SystemTtl(now) => t.expiration_time <= now,
        Eviction::ClientExpiration(now) => t.txn.expiration_time <= now,
    }
}

} // verus!
