//! What the texts, the times and the views say, character by character and field by field.

use crate::clock::{elapsed_millis, millis_of, observed_millis};
use crate::status::{
    decimal, digit_text, insufficient_balance_text, invalid_seq_number_text, invalid_update_text,
    mempool_is_full_text, MempoolAddTransactionStatus,
};
use crate::store::signed_models;
use crate::types::{MempoolTransaction, SignedTransaction};
use vstd::prelude::*;

verus! {

/// A digit is one character.
proof fn lemma_digit(digit: nat)
    requires
        digit < 10,
    ensures
        digit_text(digit).len() == 1,
        digit_text(digit)[0] as int == '0' as int + digit,
{
    reveal_strlit("0");
    reveal_strlit("1");
    reveal_strlit("2");
    reveal_strlit("3");
    reveal_strlit("4");
    reveal_strlit("5");
    reveal_strlit("6");
    reveal_strlit("7");
    reveal_strlit("8");
    reveal_strlit("9");
}

/// A number in decimal notation is read back as that number, has digits alone, and no leading zero.
pub proof fn law_decimal(number: nat)
    ensures
        decimal(number).len() > 0,
        decimal(number).fold_left(
            0int,
            |value: int, digit: char| 10 * value + (digit as int - '0' as int),
        ) == number,
        forall|i: int| 0 <= i < decimal(number).len() ==> '0' <= #[trigger] decimal(number)[i] <= '9',
        number > 0 ==> decimal(number)[0] != '0',
        number == 0 ==> decimal(number).len() == 1,
    decreases number,
{
    let read = |value: int, digit: char| 10 * value + (digit as int - '0' as int);
    let text = decimal(number);
    lemma_digit(number % 10);
    if number < 10 {
        assert(text.drop_last() =~= Seq::empty());
        reveal_with_fuel(Seq::fold_left, 2);
    } else {
        let rest = decimal(number / 10);
        law_decimal(number / 10);
        assert(text =~= rest.push(digit_text(number % 10)[0]));
        assert(text.drop_last() =~= rest);
        assert(text.fold_left(0int, read) == read(rest.fold_left(0int, read), text.last()));
        assert(text[0] == rest[0]);
        assert forall|i: int| 0 <= i < text.len() implies '0' <= #[trigger] text[i] <= '9' by {
            if i < rest.len() {
                assert(text[i] == rest[i]);
            }
        }
    }
}

/// What the answers to refused requests say.
pub proof fn law_texts(
    balance: u64,
    required_balance: nat,
    gas_amount: u64,
    txn_sequence_number: u64,
    sequence_number: u64,
    size: nat,
    capacity: nat,
    gas_unit_price: u64,
)
    ensures
        insufficient_balance_text(balance, required_balance, gas_amount) == "balance: "@ + decimal(
            balance as nat,
        ) + ", required_balance: "@ + decimal(required_balance) + ", gas_amount: "@ + decimal(
            gas_amount as nat,
        ),
        invalid_seq_number_text(txn_sequence_number, sequence_number)
            == "transaction sequence number is "@ + decimal(txn_sequence_number as nat)
            + ", current sequence number is  "@ + decimal(sequence_number as nat),
        mempool_is_full_text(size, capacity) == "mempool size: "@ + decimal(size) + ", capacity: "@
            + decimal(capacity),
        invalid_update_text(gas_unit_price) == "Failed to update gas price to "@ + decimal(
            gas_unit_price as nat,
        ),
{
}

/// Latencies add up: the time from one moment to another is what has to be added to the first to
/// come to the second, and there is one exactly if the second is not the earlier.
pub proof fn law_latency(creation_time: i64, now: i64)
    ensures
        elapsed_millis(creation_time, now) is Some <==> creation_time <= now,
        creation_time <= now ==> creation_time + elapsed_millis(creation_time, now)->0 == now,
        observed_millis(Some(creation_time), Some(now)) == elapsed_millis(creation_time, now),
        observed_millis(None, Some(now)) is None,
        observed_millis(Some(creation_time), None) is None,
        observed_millis(None, None) is None,
{
}

/// A time in milliseconds is within a millisecond of the time in nanoseconds, and is had up to the
/// end of the calendar.
pub proof fn law_millis(since_epoch: u128)
    ensures
        millis_of(since_epoch) is Some <==> since_epoch < 8_210_266_876_800 * 1_000_000_000,
        millis_of(since_epoch) matches Some(millis) ==> 0 <= since_epoch - millis * 1_000_000
            < 1_000_000,
{
}

/// What is said of a transaction or an answer is said of its own fields.
pub proof fn law_views(
    txn: SignedTransaction,
    entry: MempoolTransaction,
    status: MempoolAddTransactionStatus,
    txns: Seq<SignedTransaction>,
)
    ensures
        txn@.sender == txn.sender,
        txn@.sequence_number == txn.sequence_number,
        txn@.gas_unit_price == txn.gas_unit_price,
        txn@.expiration_time == txn.expiration_time,
        txn@.payload == txn.payload@,
        entry@.txn == entry.txn@,
        entry@.expiration_time == entry.expiration_time,
        entry@.gas_amount == entry.gas_amount,
        entry@.timeline_state == entry.timeline_state,
        entry@.ready == entry.ready,
        status@.code == status.code,
        status@.message == status.message@,
        signed_models(txns).len() == txns.len(),
        forall|i: int| 0 <= i < txns.len() ==> #[trigger] signed_models(txns)[i] == txns[i]@,
{
}

} // verus!
