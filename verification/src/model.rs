//! The mathematical model of the mempool: its state, and what each operation makes of it.

use crate::block::{selection, Selection};
use crate::cache_lemmas::distinct_keys;
use crate::caches::{stored, value_of, without};
use crate::clock::elapsed_millis;
use crate::pool::{lookup, queue, queue_follows, required, Eviction, StoreView};
use crate::status::{
    insufficient_balance_text, invalid_seq_number_text, MempoolAddTransactionStatusCode, StatusView,
};
use crate::types::{
    AccountAddress, MempoolTransactionView, SignedTransactionView, TimelineState, TxnPointer,
};
use vstd::prelude::*;

verus! {

/// The state of the mempool.
#[verifier::ext_equal]
pub struct MempoolView {
    /// The transactions.
    pub store: StoreView,
    /// For each account, the sequence number of its next transaction, least recently used first.
    pub sequence_numbers: Seq<(AccountAddress, u64)>,
    /// How many accounts that is kept for at most.
    pub sequence_number_capacity: nat,
    /// When each transaction came in, in milliseconds since the Unix epoch, oldest first.
    pub metrics: Seq<(TxnPointer, i64)>,
    /// How many transactions that is kept for at most.
    pub metrics_capacity: nat,
    /// For how many nanoseconds a transaction stays at most.
    pub system_transaction_timeout: u128,
}

/// When a transaction that comes in at `now` is dropped.
pub open spec fn expiration(now: u128, timeout: u128) -> u128 {
    if now + timeout <= u128::MAX {
        (now + timeout) as u128
    } else {
        u128::MAX
    }
}

/// The larger of two sequence numbers.
pub open spec fn later(a: u64, b: u64) -> u64 {
    if a >= b {
        a
    } else {
        b
    }
}

/// A request to add a transaction.
pub struct Request {
    /// The transaction.
    pub txn: SignedTransactionView,
    /// The gas that it is expected to use.
    pub gas_amount: u64,
    /// The sequence number of its sender's next transaction, as far as storage knows.
    pub db_sequence_number: u64,
    /// What its sender owns.
    pub balance: u64,
    /// How it stands with respect to the broadcast.
    pub timeline_state: TimelineState,
}

impl Request {
    /// The transaction as the store gets it at `now`.
    pub open spec fn entry(self, now: u128, timeout: u128) -> MempoolTransactionView {
        MempoolTransactionView {
            txn: self.txn,
            expiration_time: expiration(now, timeout),
            gas_amount: self.gas_amount,
            timeline_state: self.timeline_state,
            ready: false,
        }
    }
}

impl MempoolView {
    /// What every operation keeps.
    pub open spec fn wf(self) -> bool {
        &&& self.store.wf()
        &&& distinct_keys(self.sequence_numbers)
        &&& self.sequence_numbers.len() <= self.sequence_number_capacity
        &&& distinct_keys(self.metrics)
        &&& self.metrics.len() <= self.metrics_capacity
    }

    /// What `sender` would owe at most with one more transaction at the given price and gas.
    pub open spec fn required_balance(
        self,
        sender: AccountAddress,
        gas_unit_price: u64,
        gas_amount: u64,
    ) -> nat {
        (gas_unit_price * gas_amount + required(self.store.pool, sender)) as nat
    }

    /// The sequence number of the next transaction of the request's sender: the later one of what
    /// the cache and what storage know.
    pub open spec fn current_sequence_number(self, request: Request) -> u64 {
        match value_of(self.sequence_numbers, request.txn.sender) {
            Some(cached) => later(cached, request.db_sequence_number),
            None => request.db_sequence_number,
        }
    }

    /// Whether the sender cannot pay.
    pub open spec fn is_unaffordable(self, request: Request) -> bool {
        request.balance < self.required_balance(
            request.txn.sender,
            request.txn.gas_unit_price,
            request.gas_amount,
        )
    }

    /// Whether the sequence number has been used up.
    pub open spec fn is_outdated(self, request: Request) -> bool {
        request.txn.sequence_number < self.current_sequence_number(request)
    }

    /// The mempool after it has noted the next sequence number of `sender`.
    pub open spec fn note(self, sender: AccountAddress, sequence_number: u64) -> MempoolView {
        MempoolView {
            sequence_numbers: stored(
                self.sequence_numbers,
                self.sequence_number_capacity,
                sender,
                sequence_number,
            ),
            ..self
        }
    }

    /// The mempool after the checks of a request, before the transaction goes to the store.
    pub open spec fn checked(self, request: Request) -> MempoolView {
        let sender = request.txn.sender;
        let number = self.current_sequence_number(request);
        if self.is_unaffordable(request) {
            self
        } else if self.is_outdated(request) {
            MempoolView { store: self.store.requeue(sender, number), ..self }.note(sender, number)
        } else {
            self.note(sender, number)
        }
    }

    /// The mempool after a request at `now`, in nanoseconds, and `now_millis`, both since the Unix
    /// epoch.
    pub open spec fn add_txn(self, request: Request, now: u128, now_millis: i64) -> MempoolView {
        let checked = self.checked(request);
        if self.is_unaffordable(request) || self.is_outdated(request) {
            checked
        } else {
            MempoolView {
                store: self.store.insert(
                    request.entry(now, self.system_transaction_timeout),
                    self.current_sequence_number(request),
                ),
                metrics: if request.timeline_state == TimelineState::NonQualified {
                    self.metrics
                } else {
                    stored(self.metrics, self.metrics_capacity, request.txn.pointer(), now_millis)
                },
                ..checked
            }
        }
    }

    /// The answer to a request.
    pub open spec fn answer(self, request: Request) -> StatusView {
        if self.is_unaffordable(request) {
            StatusView {
                code: MempoolAddTransactionStatusCode::InsufficientBalance,
                message: insufficient_balance_text(
                    request.balance,
                    self.required_balance(
                        request.txn.sender,
                        request.txn.gas_unit_price,
                        request.gas_amount,
                    ),
                    request.gas_amount,
                ),
            }
        } else if self.is_outdated(request) {
            StatusView {
                code: MempoolAddTransactionStatusCode::InvalidSeqNumber,
                message: invalid_seq_number_text(
                    request.txn.sequence_number,
                    self.current_sequence_number(request),
                ),
            }
        } else {
            self.store.answer(request.txn)
        }
    }

    /// The sequence number of the next transaction of `sender` once the one with
    /// `sequence_number` is committed.
    pub open spec fn committed_up_to(self, sender: AccountAddress, sequence_number: u64) -> u64 {
        later(
            match value_of(self.sequence_numbers, sender) {
                Some(cached) => cached,
                None => 0,
            },
            (sequence_number + 1) as u64,
        )
    }

    /// The mempool after consensus is done with a transaction.
    pub open spec fn remove_transaction(
        self,
        sender: AccountAddress,
        sequence_number: u64,
        is_rejected: bool,
    ) -> MempoolView {
        let forgotten = MempoolView {
            metrics: without(self.metrics, (sender, sequence_number)),
            ..self
        };
        if is_rejected {
            MempoolView {
                store: self.store.evict(Eviction::Rejected((sender, sequence_number))),
                ..forgotten
            }
        } else {
            let next = self.committed_up_to(sender, sequence_number);
            MempoolView { store: self.store.commit(sender, next), ..forgotten }.note(sender, next)
        }
    }

    /// The choice of at most `batch_size` transactions for the next block.
    pub open spec fn selection(self, batch_size: u64, seen: Set<TxnPointer>) -> Selection {
        selection(queue(self.store.pool), seen, self.sequence_numbers, batch_size)
    }

    /// The identities of the transactions of the next block.
    pub open spec fn picks(self, batch_size: u64, seen: Set<TxnPointer>) -> Seq<TxnPointer> {
        self.selection(batch_size, seen).picked
    }

    /// The next block.
    pub open spec fn block(self, batch_size: u64, seen: Set<TxnPointer>) -> Seq<
        SignedTransactionView,
    > {
        self.picks(batch_size, seen).map_values(
            |pointer: TxnPointer| lookup(self.store.pool, pointer)->0.txn,
        )
    }

    /// The mempool after the next block has been formed: the accounts that were looked up are the
    /// most recently used ones.
    pub open spec fn get_block(self, batch_size: u64, seen: Set<TxnPointer>) -> MempoolView {
        MempoolView { sequence_numbers: self.selection(batch_size, seen).entries, ..self }
    }

    /// The mempool after a drop.
    pub open spec fn evict(self, eviction: Eviction) -> MempoolView {
        MempoolView { store: self.store.evict(eviction), ..self }
    }

    /// Whether `latency` can be observed of a transaction: it is the time from when the transaction
    /// came in to some reading of the clock. None is observed where that time is not known any
    /// more or the clock went backwards.
    pub open spec fn may_observe(self, txn: TxnPointer, latency: Option<u64>) -> bool {
        latency is Some ==> exists|now: i64|
            value_of(self.metrics, txn) is Some && latency == #[trigger] elapsed_millis(
                value_of(self.metrics, txn)->0,
                now,
            )
    }
}

/// Whether of every account whose current sequence number is known those transactions are queued,
/// and no others, that follow it without a gap.
pub open spec fn queue_is_sequential(mempool: MempoolView) -> bool {
    forall|account: AccountAddress| #[trigger]
        value_of(mempool.sequence_numbers, account) is Some ==> queue_follows(
            mempool.store,
            account,
            value_of(mempool.sequence_numbers, account)->0,
        )
}

} // verus!
