//! What a request to add a transaction is answered, and the texts of the answers.

use vstd::prelude::*;
use vstd::string::StringExecFns;

verus! {

/// The outcome of a request to add a transaction.
#[derive(Debug, Clone, Copy, PartialEq, Eq, Structural)]
pub enum MempoolAddTransactionStatusCode {
    /// The transaction is in the mempool.
    Valid,
    /// The sender cannot pay for the transaction beside those that already wait.
    InsufficientBalance,
    /// The sequence number has been used up.
    InvalidSeqNumber,
    /// The mempool holds as many transactions as it may.
    MempoolIsFull,
    /// The mempool holds a transaction with that sequence number that pays at least as much.
    InvalidUpdate,
}

/// The answer to a request to add a transaction.
#[derive(Debug)]
pub struct MempoolAddTransactionStatus {
    /// The outcome.
    pub code: MempoolAddTransactionStatusCode,
    /// Why a request was refused; empty where it was not.
    pub message: String,
}

/// The model of a [`MempoolAddTransactionStatus`].
#[verifier::ext_equal]
pub struct StatusView {
    pub code: MempoolAddTransactionStatusCode,
    pub message: Seq<char>,
}

impl View for MempoolAddTransactionStatus {
    type V = StatusView;

    open spec fn view(&self) -> StatusView {
        StatusView { code: self.code, message: self.message@ }
    }
}

impl MempoolAddTransactionStatus {
    /// The answer with the given outcome and text.
    pub fn new(code: MempoolAddTransactionStatusCode, message: String) -> (res: Self)
        ensures
            res@ == (StatusView { code, message: message@ }),
    {
        MempoolAddTransactionStatus { code, message }
    }
}

/// The text of a decimal digit.
pub open spec fn digit_text(digit: nat) -> Seq<char> {
    if digit == 0 {
        "0"@
    } else if digit == 1 {
        "1"@
    } else if digit == 2 {
        "2"@
    } else if digit == 3 {
        "3"@
    } else if digit == 4 {
        "4"@
    } else if digit == 5 {
        "5"@
    } else if digit == 6 {
        "6"@
    } else if digit == 7 {
        "7"@
    } else if digit == 8 {
        "8"@
    } else {
        "9"@
    }
}

/// A number in decimal notation.
pub open spec fn decimal(number: nat) -> Seq<char>
    decreases number,
{
    if number < 10 {
        digit_text(number)
    } else {
        decimal(number / 10) + digit_text(number % 10)
    }
}

/// A decimal digit as text.
fn digit_str(digit: u128) -> (text: &'static str)
    requires
        digit < 10,
    ensures
        text@ == digit_text(digit as nat),
{
    if digit == 0 {
        "0"
    } else if digit == 1 {
        "1"
    } else if digit == 2 {
        "2"
    } else if digit == 3 {
        "3"
    } else if digit == 4 {
        "4"
    } else if digit == 5 {
        "5"
    } else if digit == 6 {
        "6"
    } else if digit == 7 {
        "7"
    } else if digit == 8 {
        "8"
    } else {
        "9"
    }
}

/// Writes `number` in decimal notation at the end of `text`.
pub fn append_decimal(text: &mut String, number: u128)
    ensures
        final(text)@ == old(text)@ + decimal(number as nat),
    decreases number,
{
    if number >= 10 {
        append_decimal(text, number / 10);
    }
    text.append(digit_str(number % 10));
    assert(final(text)@ =~= old(text)@ + decimal(number as nat));
}

/// The text for a sender that cannot pay.
pub open spec fn insufficient_balance_text(
    balance: u64,
    required_balance: nat,
    gas_amount: u64,
) -> Seq<char> {
    "balance: "@ + decimal(balance as nat) + ", required_balance: "@ + decimal(required_balance)
        + ", gas_amount: "@ + decimal(gas_amount as nat)
}

/// The text for a sequence number that has been used up.
pub open spec fn invalid_seq_number_text(txn_sequence_number: u64, sequence_number: u64) -> Seq<
    char,
> {
    "transaction sequence number is "@ + decimal(txn_sequence_number as nat)
        + ", current sequence number is  "@ + decimal(sequence_number as nat)
}

/// The text for a mempool that can take no more.
pub open spec fn mempool_is_full_text(size: nat, capacity: nat) -> Seq<char> {
    "mempool size: "@ + decimal(size) + ", capacity: "@ + decimal(capacity)
}

/// The text for a transaction that does not pay more than the one it would replace.
pub open spec fn invalid_update_text(gas_unit_price: u64) -> Seq<char> {
    "Failed to update gas price to "@ + decimal(gas_unit_price as nat)
}

/// The answer to a sender that cannot pay.
pub fn insufficient_balance(balance: u64, required_balance: u128, gas_amount: u64) -> (status:
    MempoolAddTransactionStatus)
    ensures
        status@ == (StatusView {
            code: MempoolAddTransactionStatusCode::InsufficientBalance,
            message: insufficient_balance_text(balance, required_balance as nat, gas_amount),
        }),
{
    let mut message = String::from_str("balance: ");
    append_decimal(&mut message, balance as u128);
    message.append(", required_balance: ");
    append_decimal(&mut message, required_balance);
    message.append(", gas_amount: ");
    append_decimal(&mut message, gas_amount as u128);
    MempoolAddTransactionStatus::new(
        MempoolAddTransactionStatusCode::InsufficientBalance,
        message,
    )
}

/// The answer to a sequence number that has been used up.
pub fn invalid_seq_number(txn_sequence_number: u64, sequence_number: u64) -> (status:
    MempoolAddTransactionStatus)
    ensures
        status@ == (StatusView {
            code: MempoolAddTransactionStatusCode::InvalidSeqNumber,
            message: invalid_seq_number_text(txn_sequence_number, sequence_number),
        }),
{
    let mut message = String::from_str("transaction sequence number is ");
    append_decimal(&mut message, txn_sequence_number as u128);
    message.append(", current sequence number is  ");
    append_decimal(&mut message, sequence_number as u128);
    MempoolAddTransactionStatus::new(MempoolAddTransactionStatusCode::InvalidSeqNumber, message)
}

/// The answer of a mempool that can take no more.
pub fn mempool_is_full(size: usize, capacity: usize) -> (status: MempoolAddTransactionStatus)
    ensures
        status@ == (StatusView {
            code: MempoolAddTransactionStatusCode::MempoolIsFull,
            message: mempool_is_full_text(size as nat, capacity as nat),
        }),
{
    let mut message = String::from_str("mempool size: ");
    append_decimal(&mut message, size as u128);
    message.append(", capacity: ");
    append_decimal(&mut message, capacity as u128);
    MempoolAddTransactionStatus::new(MempoolAddTransactionStatusCode::MempoolIsFull, message)
}

/// The answer to a transaction that does not pay more than the one it would replace.
pub fn invalid_update(gas_unit_price: u64) -> (status: MempoolAddTransactionStatus)
    ensures
        status@ == (StatusView {
            code: MempoolAddTransactionStatusCode::InvalidUpdate,
            message: invalid_update_text(gas_unit_price),
        }),
{
    let mut message = String::from_str("Failed to update gas price to ");
    append_decimal(&mut message, gas_unit_price as u128);
    MempoolAddTransactionStatus::new(MempoolAddTransactionStatusCode::InvalidUpdate, message)
}

/// The answer to a transaction that was taken in.
pub fn valid() -> (status: MempoolAddTransactionStatus)
    ensures
        status@ == (StatusView {
            code: MempoolAddTransactionStatusCode::Valid,
            message: Seq::empty(),
        }),
{
    MempoolAddTransactionStatus::new(MempoolAddTransactionStatusCode::Valid, String::new())
}

} // verus!
