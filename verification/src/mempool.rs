//! The mempool, which tracks the transactions that have been submitted but not agreed upon yet.

use crate::block::select_block;
use crate::block_laws::{law_block_size, lemma_block};
use crate::cache_lemmas::{
    lemma_stored, lemma_without, lemma_without_refreshed, lemma_without_twice,
};
use crate::caches::{
    lru_capacity, lru_entries, lru_get, lru_insert, lru_new, lru_remove, ttl_capacity, ttl_entries,
    ttl_get, ttl_insert, ttl_new, ttl_remove,
};
use crate::clock::{millis_of, observed_latency, observed_millis, system_now, utc_now_millis};
use crate::config::NodeConfig;
use crate::metrics::metrics_entry;
use crate::model::{MempoolView, Request};
use crate::pool::{holds, lookup, position, signed, timeline, timeline_end, Eviction, StoreView};
use crate::status::{insufficient_balance, invalid_seq_number, MempoolAddTransactionStatus};
use crate::store::{signed_models, TransactionStore};
use crate::types::{
    AccountAddress, MempoolTransaction, SignedTransaction, TimelineState, TxnPointer,
};
use lru_cache::LruCache;
use std::collections::BTreeSet;
use ttl_cache::TtlCache;
use vstd::prelude::*;

verus! {

/// The buffer of the transactions that wait to be executed.
pub struct Mempool {
    /// All transactions of the mempool, of all states.
    transactions: TransactionStore,
    /// For each account, the sequence number of its next transaction.
    sequence_number_cache: LruCache<AccountAddress, u64>,
    /// For each transaction, when it came in, in milliseconds since the Unix epoch. It serves to
    /// measure how long a transaction takes through the system, and until consensus picks it up.
    metrics_cache: TtlCache<TxnPointer, i64>,
    /// For how many nanoseconds a transaction stays in the mempool at most.
    pub system_transaction_timeout: u128,
}

/// The time in milliseconds at which a transaction comes in. Of one that came from another
/// validator it is not kept, so that the clock is not read.
fn entry_millis(timeline_state: TimelineState) -> (now: Option<i64>)
    ensures
        timeline_state == TimelineState::NonQualified ==> now is Some,
        now is Some ==> exists|since_epoch: u128| now == #[trigger] millis_of(since_epoch),
{
    if timeline_state == TimelineState::NonQualified {
        assert(millis_of(0) == Some(0i64));
        Some(0)
    } else {
        utc_now_millis()
    }
}

impl View for Mempool {
    type V = MempoolView;

    closed spec fn view(&self) -> MempoolView {
        MempoolView {
            store: self.transactions@,
            sequence_numbers: lru_entries(self.sequence_number_cache),
            sequence_number_capacity: lru_capacity(self.sequence_number_cache),
            metrics: ttl_entries(self.metrics_cache),
            metrics_capacity: ttl_capacity(self.metrics_cache),
            system_transaction_timeout: self.system_transaction_timeout,
        }
    }
}

impl Mempool {
    /// An empty mempool with the given settings.
    pub fn new(config: &NodeConfig) -> (mempool: Self)
        ensures
            mempool@ == (MempoolView {
                store: StoreView {
                    pool: Seq::empty(),
                    capacity: config.mempool.capacity as nat,
                    next_timeline_id: 1,
                },
                sequence_numbers: Seq::empty(),
                sequence_number_capacity: config.mempool.capacity as nat,
                metrics: Seq::empty(),
                metrics_capacity: config.mempool.capacity as nat,
                system_transaction_timeout: (config.mempool.system_transaction_timeout_secs
                    * 1_000_000_000) as u128,
            }),
            mempool@.wf(),
            mempool@.system_transaction_timeout == config.mempool.system_transaction_timeout_secs
                * 1_000_000_000,
    {
        Mempool {
            transactions: TransactionStore::new(config.mempool.capacity),
            sequence_number_cache: lru_new(config.mempool.capacity),
            metrics_cache: ttl_new(config.mempool.capacity),
            system_transaction_timeout: config.mempool.system_transaction_timeout_secs as u128
                * 1_000_000_000,
        }
    }

    /// Drops a transaction that consensus is done with. One that was not rejected has been
    /// committed, and with it all earlier ones of its sender. Returns the milliseconds that the
    /// transaction spent in the system, if they are known.
    pub fn remove_transaction(
        &mut self,
        sender: &AccountAddress,
        sequence_number: u64,
        is_rejected: bool,
    ) -> (latency: Option<u64>)
        requires
            old(self)@.wf(),
            !is_rejected ==> sequence_number < u64::MAX,
        ensures
            final(self)@ == old(self)@.remove_transaction(*sender, sequence_number, is_rejected),
            final(self)@.wf(),
            old(self)@.may_observe((*sender, sequence_number), latency),
    {
        let creation_time = ttl_get(&self.metrics_cache, &(*sender, sequence_number));
        self.remove_transaction_at(
            sender,
            sequence_number,
            is_rejected,
            creation_time,
            utc_now_millis(),
        )
    }

    /// Drops a transaction as [`Mempool::remove_transaction`] does, where `creation_time` is what
    /// has been looked up of when it came in, and `now_millis` what the clock reads, both in
    /// milliseconds since the Unix epoch.
    pub fn remove_transaction_at(
        &mut self,
        sender: &AccountAddress,
        sequence_number: u64,
        is_rejected: bool,
        creation_time: Option<i64>,
        now_millis: Option<i64>,
    ) -> (latency: Option<u64>)
        requires
            old(self)@.wf(),
            !is_rejected ==> sequence_number < u64::MAX,
        ensures
            final(self)@ == old(self)@.remove_transaction(*sender, sequence_number, is_rejected),
            final(self)@.wf(),
            latency == observed_millis(creation_time, now_millis),
            latency is Some <==> creation_time is Some && now_millis is Some && creation_time->0
                <= now_millis->0,
            latency matches Some(millis) ==> millis == now_millis->0 - creation_time->0,
    {
        let pointer: TxnPointer = (*sender, sequence_number);
        let latency = observed_latency(creation_time, now_millis);
        let _ = ttl_remove(&mut self.metrics_cache, &pointer);
        proof {
            lemma_without(old(self)@.metrics, pointer);
        }
        if is_rejected {
            self.transactions.reject_transaction(sender, sequence_number);
        } else {
            // The cached sequence number of the account moves on.
            let current_seq_number: u64 = match lru_remove(&mut self.sequence_number_cache, sender) {
                Some(cached) => cached,
                None => 0,
            };
            let new_seq_number: u64 = if current_seq_number >= sequence_number + 1 {
                current_seq_number
            } else {
                sequence_number + 1
            };
            let _ = lru_insert(&mut self.sequence_number_cache, *sender, new_seq_number);
            proof {
                let entries = old(self)@.sequence_numbers;
                lemma_without_twice(entries, *sender);
                lemma_stored(
                    entries,
                    old(self)@.sequence_number_capacity,
                    *sender,
                    new_seq_number,
                );
            }
            self.transactions.commit_transaction(sender, new_seq_number);
        }
        latency
    }

    /// The milliseconds since the transaction came in, if that time is known.
    pub fn log_latency(&self, account: &AccountAddress, sequence_number: u64) -> (latency: Option<
        u64,
    >)
        ensures
            self@.may_observe((*account, sequence_number), latency),
    {
        let creation_time = ttl_get(&self.metrics_cache, &(*account, sequence_number));
        observed_latency(creation_time, utc_now_millis())
    }

    /// What the sender would owe at most with `txn` beside its transactions that already wait.
    pub fn get_required_balance(&self, txn: &SignedTransaction, gas_amount: u64) -> (required: u128)
        requires
            self@.wf(),
        ensures
            required == self@.required_balance(txn@.sender, txn@.gas_unit_price, gas_amount),
    {
        let waiting: u64 = self.transactions.get_required_balance(&txn.sender);
        let price: u64 = txn.gas_unit_price;
        assert(0 <= price * gas_amount <= u64::MAX * u64::MAX) by (nonlinear_arith)
            requires
                0 <= price <= u64::MAX,
                0 <= gas_amount <= u64::MAX,
        ;
        price as u128 * gas_amount as u128 + waiting as u128
    }

    /// Checks whether the sender of `txn` can pay for it and the sequence number is not used up,
    /// and notes the next sequence number of the sender, which is returned.
    fn check_txn(
        &mut self,
        txn: &SignedTransaction,
        gas_amount: u64,
        db_sequence_number: u64,
        balance: u64,
        Ghost(request): Ghost<Request>,
    ) -> (sequence_number: Result<u64, MempoolAddTransactionStatus>)
        requires
            old(self)@.wf(),
            request.txn == txn@,
            request.gas_amount == gas_amount,
            request.db_sequence_number == db_sequence_number,
            request.balance == balance,
        ensures
            final(self)@ == old(self)@.checked(request),
            final(self)@.wf(),
            match sequence_number {
                Ok(number) => {
                    &&& !old(self)@.is_unaffordable(request)
                    &&& !old(self)@.is_outdated(request)
                    &&& number == old(self)@.current_sequence_number(request)
                },
                Err(status) => {
                    &&& old(self)@.is_unaffordable(request) || old(self)@.is_outdated(request)
                    &&& status@ == old(self)@.answer(request)
                },
            },
    {
        let required_balance: u128 = self.get_required_balance(txn, gas_amount);
        if (balance as u128) < required_balance {
            return Err(insufficient_balance(balance, required_balance, gas_amount));
        }
        let sequence_number: u64 = match lru_get(&mut self.sequence_number_cache, &txn.sender) {
            Some(cached) => if cached >= db_sequence_number {
                cached
            } else {
                db_sequence_number
            },
            None => db_sequence_number,
        };
        let _ = lru_insert(&mut self.sequence_number_cache, txn.sender, sequence_number);
        proof {
            let entries = old(self)@.sequence_numbers;
            lemma_without_refreshed(entries, txn.sender);
            lemma_stored(
                entries,
                old(self)@.sequence_number_capacity,
                txn.sender,
                sequence_number,
            );
        }
        // Old transactions are not accepted, but what they bring of the account moves the queue on.
        if txn.sequence_number < sequence_number {
            self.transactions.requeue(txn.sender, sequence_number);
            return Err(invalid_seq_number(txn.sequence_number, sequence_number));
        }
        Ok(sequence_number)
    }

    /// Takes in a transaction that has passed the checks, at `now` and `now_millis`.
    fn enter_txn(
        &mut self,
        txn: SignedTransaction,
        gas_amount: u64,
        sequence_number: u64,
        timeline_state: TimelineState,
        now: u128,
        now_millis: i64,
        Ghost(before): Ghost<MempoolView>,
        Ghost(request): Ghost<Request>,
    ) -> (status: MempoolAddTransactionStatus)
        requires
            before.wf(),
            old(self)@.wf(),
            old(self)@ == before.checked(request),
            !before.is_unaffordable(request),
            !before.is_outdated(request),
            sequence_number == before.current_sequence_number(request),
            request.txn == txn@,
            request.gas_amount == gas_amount,
            request.timeline_state == timeline_state,
        ensures
            final(self)@ == before.add_txn(request, now, now_millis),
            final(self)@.wf(),
            status@ == before.answer(request),
    {
        let timeout: u128 = self.system_transaction_timeout;
        let expiration_time: u128 = if now <= u128::MAX - timeout {
            now + timeout
        } else {
            u128::MAX
        };
        let ghost pointer = txn@.pointer();
        match metrics_entry(&txn, timeline_state, now_millis) {
            Some(entry) => {
                let _ = ttl_insert(&mut self.metrics_cache, entry);
                proof {
                    lemma_stored(before.metrics, before.metrics_capacity, pointer, now_millis);
                }
            },
            None => {},
        }
        let txn_info = MempoolTransaction::new(txn, expiration_time, gas_amount, timeline_state);
        self.transactions.insert(txn_info, sequence_number)
    }

    /// Adds a transaction, after basic checks of the account's balance and sequence number.
    /// Returns `None` where the transaction passed the checks but the system clock reads a time
    /// before the Unix epoch, so that no expiration time can be given to it, or beyond the
    /// calendar, where the time in milliseconds is to be kept.
    pub fn add_txn(
        &mut self,
        txn: SignedTransaction,
        gas_amount: u64,
        db_sequence_number: u64,
        balance: u64,
        timeline_state: TimelineState,
    ) -> (status: Option<MempoolAddTransactionStatus>)
        requires
            old(self)@.wf(),
        ensures
            final(self)@.wf(),
            ({
                let request = Request {
                    txn: txn@,
                    gas_amount,
                    db_sequence_number,
                    balance,
                    timeline_state,
                };
                match status {
                    Some(answer) => {
                        &&& answer@ == old(self)@.answer(request)
                        &&& exists|now: u128, now_millis: i64|
                            final(self)@ == #[trigger] old(self)@.add_txn(request, now, now_millis)
                    },
                    None => {
                        &&& !old(self)@.is_unaffordable(request)
                        &&& !old(self)@.is_outdated(request)
                        &&& final(self)@ == old(self)@.checked(request)
                    },
                }
            }),
    {
        let ghost before = self@;
        let ghost request = Request {
            txn: txn@,
            gas_amount,
            db_sequence_number,
            balance,
            timeline_state,
        };
        match self.check_txn(&txn, gas_amount, db_sequence_number, balance, Ghost(request)) {
            Err(status) => {
                assert(self@ == before.add_txn(request, 0, 0));
                Some(status)
            },
            Ok(sequence_number) => match (system_now(), entry_millis(timeline_state)) {
                (Some(now), Some(now_millis)) => Some(
                    self.enter_txn(
                        txn,
                        gas_amount,
                        sequence_number,
                        timeline_state,
                        now,
                        now_millis,
                        Ghost(before),
                        Ghost(request),
                    ),
                ),
                _ => None,
            },
        }
    }

    /// Adds a transaction as [`Mempool::add_txn`] does, at the given time since the Unix epoch, in
    /// nanoseconds and in milliseconds.
    pub fn add_txn_at(
        &mut self,
        txn: SignedTransaction,
        gas_amount: u64,
        db_sequence_number: u64,
        balance: u64,
        timeline_state: TimelineState,
        now: u128,
        now_millis: i64,
    ) -> (status: MempoolAddTransactionStatus)
        requires
            old(self)@.wf(),
        ensures
            final(self)@.wf(),
            ({
                let request = Request {
                    txn: txn@,
                    gas_amount,
                    db_sequence_number,
                    balance,
                    timeline_state,
                };
                &&& status@ == old(self)@.answer(request)
                &&& final(self)@ == old(self)@.add_txn(request, now, now_millis)
            }),
    {
        let ghost before = self@;
        let ghost request = Request {
            txn: txn@,
            gas_amount,
            db_sequence_number,
            balance,
            timeline_state,
        };
        match self.check_txn(&txn, gas_amount, db_sequence_number, balance, Ghost(request)) {
            Err(status) => status,
            Ok(sequence_number) => self.enter_txn(
                txn,
                gas_amount,
                sequence_number,
                timeline_state,
                now,
                now_millis,
                Ghost(before),
                Ghost(request),
            ),
        }
    }

    /// The next block of transactions for consensus, of at most `batch_size` ones, and for each the
    /// milliseconds since it came in, if they are known. Those that went to consensus before
    /// without being committed yet are `seen`: they are left out, and their successors can go in.
    pub fn get_block(&mut self, batch_size: u64, seen: BTreeSet<TxnPointer>) -> (block: (
        Vec<SignedTransaction>,
        Vec<Option<u64>>,
    ))
        requires
            old(self)@.wf(),
        ensures
            signed_models(block.0@) == old(self)@.block(batch_size, seen@),
            block.0@.len() == old(self)@.block(batch_size, seen@).len(),
            forall|i: int|
                0 <= i < block.0@.len() ==> (#[trigger] block.0@[i])@ == old(self)@.block(
                    batch_size,
                    seen@,
                )[i],
            block.0@.len() <= batch_size,
            block.1@.len() == block.0@.len(),
            forall|i: int|
                0 <= i < block.1@.len() ==> old(self)@.may_observe(
                    block.0@[i]@.pointer(),
                    #[trigger] block.1@[i],
                ),
            final(self)@ == old(self)@.get_block(batch_size, seen@),
            final(self)@.wf(),
    {
        let ghost before = self@;
        let ghost given = seen@;
        let queue = self.transactions.iter_queue();
        let picked = select_block(&queue, seen, &mut self.sequence_number_cache, batch_size);
        proof {
            lemma_block(before, batch_size, given);
        }
        let mut transactions: Vec<SignedTransaction> = Vec::new();
        let mut latencies: Vec<Option<u64>> = Vec::new();
        let mut i: usize = 0;
        while i < picked.len()
            invariant
                i <= picked@.len(),
                before.wf(),
                self@ == before.get_block(batch_size, given),
                picked@ == before.selection(batch_size, given).picked,
                forall|k: int|
                    0 <= k < picked@.len() ==> holds(before.store.pool, #[trigger] picked@[k]),
                signed_models(transactions@) == before.block(batch_size, given).take(i as int),
                transactions@.len() == i,
                latencies@.len() == i,
                forall|k: int|
                    0 <= k < i ==> before.may_observe(
                        transactions@[k]@.pointer(),
                        #[trigger] latencies@[k],
                    ),
            decreases picked@.len() - i,
        {
            let pointer: TxnPointer = picked[i];
            let ghost found_before = transactions@;
            proof {
                assert(holds(before.store.pool, pointer));
                let k = position(before.store.pool, pointer);
                assert(before.store.pool[k].is_at(pointer));
                assert(before.block(batch_size, given)[i as int] == lookup(
                    before.store.pool,
                    pointer,
                )->0.txn);
            }
            match self.transactions.get(&pointer.0, pointer.1) {
                Some(transaction) => {
                    let latency = self.log_latency(&transaction.sender, transaction.sequence_number);
                    latencies.push(latency);
                    transactions.push(transaction);
                },
                None => {
                    assert(false);
                },
            }
            i += 1;
            assert(signed_models(transactions@) =~= before.block(batch_size, given).take(i as int));
        }
        assert(before.block(batch_size, given).take(i as int) =~= before.block(batch_size, given));
        proof {
            law_block_size(before, batch_size, given);
            assert forall|k: int| 0 <= k < transactions@.len() implies (
            #[trigger] transactions@[k])@ == before.block(batch_size, given)[k] by {
                assert(signed_models(transactions@)[k] == transactions@[k]@);
            }
        }
        (transactions, latencies)
    }

    /// Garbage collection by the time that transactions have spent in the mempool: drops those
    /// whose time is over. Returns the time at which it ran, in nanoseconds since the Unix epoch;
    /// `None` where the system clock reads a time before the epoch, so that nothing was dropped.
    pub fn gc_by_system_ttl(&mut self) -> (ran_at: Option<u128>)
        requires
            old(self)@.wf(),
        ensures
            final(self)@.wf(),
            match ran_at {
                Some(now) => final(self)@ == old(self)@.evict(Eviction::SystemTtl(now)),
                None => final(self)@ == old(self)@,
            },
    {
        match system_now() {
            Some(now) => {
                self.gc_by_system_ttl_at(now);
                Some(now)
            },
            None => None,
        }
    }

    /// Garbage collection as [`Mempool::gc_by_system_ttl`] does it, at the given time in
    /// nanoseconds since the Unix epoch.
    pub fn gc_by_system_ttl_at(&mut self, now: u128)
        requires
            old(self)@.wf(),
        ensures
            final(self)@.wf(),
            final(self)@ == old(self)@.evict(Eviction::SystemTtl(now)),
    {
        self.transactions.gc_by_system_ttl(now);
    }

    /// Garbage collection by the expiration times that the clients gave: drops the transactions
    /// that cannot be executed any more in a block at `block_time`, in nanoseconds since the Unix
    /// epoch.
    pub fn gc_by_expiration_time(&mut self, block_time: u128)
        requires
            old(self)@.wf(),
        ensures
            final(self)@.wf(),
            final(self)@ == old(self)@.evict(Eviction::ClientExpiration(block_time)),
    {
        self.transactions.gc_by_expiration_time(block_time);
    }

    /// Reads at most `count` transactions from the timeline after the position `timeline_id`.
    /// Returns them and the position that the read has come to.
    pub fn read_timeline(&self, timeline_id: u64, count: usize) -> (read: (
        Vec<SignedTransaction>,
        u64,
    ))
        requires
            self@.wf(),
        ensures
            signed_models(read.0@) == signed(
                timeline(self@.store.pool, timeline_id, count as nat),
            ),
            read.1 == timeline_end(
                timeline(self@.store.pool, timeline_id, count as nat),
                timeline_id,
            ),
            read.0@.len() == timeline(self@.store.pool, timeline_id, count as nat).len(),
            read.0@.len() <= count,
            forall|i: int|
                0 <= i < read.0@.len() ==> (#[trigger] read.0@[i])@ == timeline(
                    self@.store.pool,
                    timeline_id,
                    count as nat,
                )[i].txn,
    {
        self.transactions.read_timeline(timeline_id, count)
    }

    /// Whether the mempool is within its capacity.
    pub fn health_check(&self) -> (healthy: bool)
        ensures
            healthy == (self@.store.pool.len() <= self@.store.capacity),
    {
        self.transactions.health_check()
    }
}

} // verus!
