//! The transactions that the mempool holds, and their mathematical models.

use vstd::prelude::*;

verus! {

/// The address of an account, as the high and the low half of its 32 bytes (big-endian).
pub type AccountAddress = (u128, u128);

/// A transaction's identity in the mempool: its sender and its sequence number.
pub type TxnPointer = (AccountAddress, u64);

/// What the mempool reads of a signed transaction, beside the rest of it as raw bytes.
#[derive(Debug)]
pub struct SignedTransaction {
    /// The account that sends the transaction.
    pub sender: AccountAddress,
    /// The position of the transaction among those of its sender.
    pub sequence_number: u64,
    /// What the sender pays for one unit of gas.
    pub gas_unit_price: u64,
    /// When the client wants the transaction dropped, in nanoseconds since the Unix epoch.
    pub expiration_time: u128,
    /// The signed bytes, which the mempool hands on without looking at them.
    pub payload: Vec<u8>,
}

/// The model of a [`SignedTransaction`].
#[verifier::ext_equal]
pub struct SignedTransactionView {
    pub sender: AccountAddress,
    pub sequence_number: u64,
    pub gas_unit_price: u64,
    pub expiration_time: u128,
    pub payload: Seq<u8>,
}

impl SignedTransactionView {
    /// The identity of the transaction.
    pub open spec fn pointer(self) -> TxnPointer {
        (self.sender, self.sequence_number)
    }
}

impl View for SignedTransaction {
    type V = SignedTransactionView;

    open spec fn view(&self) -> SignedTransactionView {
        SignedTransactionView {
            sender: self.sender,
            sequence_number: self.sequence_number,
            gas_unit_price: self.gas_unit_price,
            expiration_time: self.expiration_time,
            payload: self.payload@,
        }
    }
}

impl Clone for SignedTransaction {
    fn clone(&self) -> (res: Self)
        ensures
            res@ == self@,
            res.sender == self.sender,
            res.sequence_number == self.sequence_number,
            res.gas_unit_price == self.gas_unit_price,
            res.expiration_time == self.expiration_time,
            res.payload@ == self.payload@,
    {
        let payload = self.payload.clone();
        assert(payload@ =~= self.payload@);
        SignedTransaction {
            sender: self.sender,
            sequence_number: self.sequence_number,
            gas_unit_price: self.gas_unit_price,
            expiration_time: self.expiration_time,
            payload,
        }
    }
}

/// Where a transaction stands with respect to the broadcast to the other validators.
#[derive(Debug, Clone, Copy, PartialEq, Eq, Structural)]
pub enum TimelineState {
    /// Ready for broadcast, at the given position of the timeline.
    Ready(u64),
    /// Not ready for broadcast yet; that may change.
    NotReady,
    /// Never broadcast: the transaction came from another validator.
    NonQualified,
}

/// A transaction in the mempool, with what the mempool keeps beside it.
#[derive(Debug)]
pub struct MempoolTransaction {
    /// The transaction itself.
    pub txn: SignedTransaction,
    /// When the system drops the transaction, in nanoseconds since the Unix epoch.
    pub expiration_time: u128,
    /// The gas that the transaction is expected to use.
    pub gas_amount: u64,
    /// Its place in the broadcast.
    pub timeline_state: TimelineState,
    /// Whether it is in the queue for the next blocks; if not, it is parked.
    pub ready: bool,
}

/// The model of a [`MempoolTransaction`].
#[verifier::ext_equal]
pub struct MempoolTransactionView {
    pub txn: SignedTransactionView,
    pub expiration_time: u128,
    pub gas_amount: u64,
    pub timeline_state: TimelineState,
    pub ready: bool,
}

impl View for MempoolTransaction {
    type V = MempoolTransactionView;

    open spec fn view(&self) -> MempoolTransactionView {
        MempoolTransactionView {
            txn: self.txn@,
            expiration_time: self.expiration_time,
            gas_amount: self.gas_amount,
            timeline_state: self.timeline_state,
            ready: self.ready,
        }
    }
}

impl MempoolTransactionView {
    /// The identity of the transaction.
    pub open spec fn pointer(self) -> TxnPointer {
        self.txn.pointer()
    }

    /// Whether the transaction is the one that `pointer` names.
    pub open spec fn is_at(self, pointer: TxnPointer) -> bool {
        self.pointer() == pointer
    }

    /// What the sender owes at most for the transaction.
    pub open spec fn cost(self) -> nat {
        (self.txn.gas_unit_price * self.gas_amount) as nat
    }
}

impl MempoolTransaction {
    /// A transaction that enters the mempool; it starts outside the queue.
    pub fn new(
        txn: SignedTransaction,
        expiration_time: u128,
        gas_amount: u64,
        timeline_state: TimelineState,
    ) -> (res: Self)
        ensures
            res@ == (MempoolTransactionView {
                txn: txn@,
                expiration_time,
                gas_amount,
                timeline_state,
                ready: false,
            }),
    {
        MempoolTransaction { txn, expiration_time, gas_amount, timeline_state, ready: false }
    }
}

} // verus!
