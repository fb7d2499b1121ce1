use mempool::clock::{latency_millis, observed_latency, utc_millis, LAST_SECOND};
use mempool::config::{MempoolConfig, NodeConfig, StorageConfig};
use mempool::mempool::Mempool;
use mempool::metrics::{metrics_entry, MetricsEntry};
use mempool::status::MempoolAddTransactionStatusCode;
use mempool::types::{AccountAddress, SignedTransaction, TimelineState, TxnPointer};
use std::collections::BTreeSet;

const ALICE: AccountAddress = (0, 1);
const BOB: AccountAddress = (0, 2);
const CAROL: AccountAddress = (7, 1);

fn mempool_for(capacity: usize) -> Mempool {
    Mempool::new(&NodeConfig {
        mempool: MempoolConfig {
            capacity,
            system_transaction_timeout_secs: 60,
            address: "localhost".to_string(),
            mempool_service_port: 6182,
        },
        storage: StorageConfig { port: 6184 },
    })
}

fn put(pool: &mut Mempool, sender: AccountAddress, sequence_number: u64, gas_unit_price: u64, db: u64) {
    let txn = SignedTransaction {
        sender,
        sequence_number,
        gas_unit_price,
        expiration_time: u128::MAX,
        payload: vec![],
    };
    let status = pool.add_txn_at(txn, 1, db, 1_000_000, TimelineState::NotReady, 0, 0);
    assert_eq!(status.code, MempoolAddTransactionStatusCode::Valid);
}

fn block(pool: &mut Mempool, batch_size: u64, seen: &[TxnPointer]) -> Vec<TxnPointer> {
    let (transactions, latencies) = pool.get_block(batch_size, seen.iter().copied().collect());
    assert_eq!(transactions.len(), latencies.len());
    transactions.iter().map(|t| (t.sender, t.sequence_number)).collect()
}

#[test]
fn best_paying_goes_first() {
    let mut pool = mempool_for(10);
    put(&mut pool, ALICE, 0, 3, 0);
    put(&mut pool, BOB, 0, 5, 0);
    put(&mut pool, CAROL, 0, 4, 0);
    assert_eq!(block(&mut pool, 10, &[]), vec![(BOB, 0), (CAROL, 0), (ALICE, 0)]);
}

#[test]
fn equal_prices_go_in_the_order_of_arrival() {
    let mut pool = mempool_for(10);
    put(&mut pool, BOB, 0, 3, 0);
    put(&mut pool, ALICE, 0, 3, 0);
    assert_eq!(block(&mut pool, 10, &[]), vec![(BOB, 0), (ALICE, 0)]);
}

#[test]
fn rising_prices_keep_the_order_of_the_sender() {
    let mut pool = mempool_for(10);
    put(&mut pool, ALICE, 1, 1, 1);
    put(&mut pool, ALICE, 2, 10, 1);
    put(&mut pool, ALICE, 3, 20, 1);
    put(&mut pool, BOB, 0, 5, 0);
    assert_eq!(
        block(&mut pool, 10, &[]),
        vec![(BOB, 0), (ALICE, 1), (ALICE, 2), (ALICE, 3)]
    );
}

#[test]
fn batch_size_is_respected() {
    let mut pool = mempool_for(10);
    for sequence_number in 0..5 {
        put(&mut pool, ALICE, sequence_number, 10 + sequence_number, 0);
    }
    assert_eq!(block(&mut pool, 0, &[]), Vec::<TxnPointer>::new());
    assert_eq!(block(&mut pool, 1, &[]), vec![(ALICE, 0)]);
    assert_eq!(block(&mut pool, 3, &[]), vec![(ALICE, 0), (ALICE, 1), (ALICE, 2)]);
    assert_eq!(block(&mut pool, 5, &[]).len(), 5);
    assert_eq!(block(&mut pool, u64::MAX, &[]).len(), 5);
}

#[test]
fn seen_transactions_are_left_out_and_unblock_their_successors() {
    let mut pool = mempool_for(10);
    for sequence_number in 0..4 {
        put(&mut pool, ALICE, sequence_number, 1, 0);
    }
    let first = block(&mut pool, 2, &[]);
    assert_eq!(first, vec![(ALICE, 0), (ALICE, 1)]);
    assert_eq!(block(&mut pool, 2, &first), vec![(ALICE, 2), (ALICE, 3)]);
    // Without what was seen the mempool gives the same block again.
    assert_eq!(block(&mut pool, 2, &[]), first);
}

#[test]
fn parked_transactions_stay_out() {
    let mut pool = mempool_for(10);
    put(&mut pool, ALICE, 5, 9, 3);
    put(&mut pool, ALICE, 3, 1, 3);
    assert_eq!(block(&mut pool, 10, &[]), vec![(ALICE, 3)]);
}

#[test]
fn commit_unblocks_the_next_transaction() {
    let mut pool = mempool_for(10);
    put(&mut pool, ALICE, 4, 1, 3);
    assert_eq!(block(&mut pool, 10, &[]), Vec::<TxnPointer>::new());
    pool.remove_transaction(&ALICE, 3, false);
    assert_eq!(block(&mut pool, 10, &[]), vec![(ALICE, 4)]);
}

#[test]
fn commit_drops_all_earlier_transactions_of_the_sender() {
    let mut pool = mempool_for(10);
    for sequence_number in 0..4 {
        put(&mut pool, ALICE, sequence_number, 1, 0);
    }
    put(&mut pool, BOB, 0, 1, 0);
    pool.remove_transaction(&ALICE, 2, false);
    assert_eq!(block(&mut pool, 10, &[]), vec![(ALICE, 3), (BOB, 0)]);
    // A late commit of an earlier one changes nothing.
    pool.remove_transaction(&ALICE, 0, false);
    assert_eq!(block(&mut pool, 10, &[]), vec![(ALICE, 3), (BOB, 0)]);
}

#[test]
fn commit_moves_the_sequence_number_on() {
    let mut pool = mempool_for(10);
    pool.remove_transaction(&ALICE, 6, false);
    let txn = SignedTransaction {
        sender: ALICE,
        sequence_number: 6,
        gas_unit_price: 1,
        expiration_time: 0,
        payload: vec![],
    };
    let status = pool.add_txn_at(txn, 1, 0, 10, TimelineState::NotReady, 0, 0);
    assert_eq!(
        status.message,
        "transaction sequence number is 6, current sequence number is  7"
    );
}

#[test]
fn rejection_drops_one_and_blocks_the_later_ones() {
    let mut pool = mempool_for(10);
    for sequence_number in 0..4 {
        put(&mut pool, ALICE, sequence_number, 1, 0);
    }
    pool.remove_transaction(&ALICE, 1, true);
    assert_eq!(block(&mut pool, 10, &[]), vec![(ALICE, 0)]);
    put(&mut pool, ALICE, 1, 1, 0);
    assert_eq!(
        block(&mut pool, 10, &[]),
        vec![(ALICE, 0), (ALICE, 1), (ALICE, 2), (ALICE, 3)]
    );
}

#[test]
fn rejection_of_an_unknown_transaction_changes_nothing() {
    let mut pool = mempool_for(10);
    put(&mut pool, ALICE, 0, 1, 0);
    put(&mut pool, ALICE, 1, 1, 0);
    assert_eq!(pool.remove_transaction(&ALICE, 9, true), None);
    assert_eq!(pool.remove_transaction(&ALICE, u64::MAX, true), None);
    assert_eq!(block(&mut pool, 10, &[]), vec![(ALICE, 0), (ALICE, 1)]);
}

#[test]
fn last_sequence_number_has_no_successor() {
    let mut pool = mempool_for(10);
    put(&mut pool, ALICE, u64::MAX, 1, u64::MAX);
    put(&mut pool, BOB, 0, 1, 0);
    assert_eq!(block(&mut pool, 10, &[]), vec![(ALICE, u64::MAX), (BOB, 0)]);
}

#[test]
fn least_recently_used_account_is_forgotten() {
    let mut pool = mempool_for(2);
    put(&mut pool, ALICE, 0, 1, 0);
    put(&mut pool, BOB, 0, 2, 0);
    // Alice becomes the most recently used account; Carol then pushes Bob out.
    pool.remove_transaction(&ALICE, 0, false);
    pool.remove_transaction(&CAROL, 0, false);
    assert_eq!(block(&mut pool, 10, &[]), Vec::<TxnPointer>::new());
    // What storage knows makes the account known again.
    put(&mut pool, BOB, 1, 2, 0);
    assert_eq!(block(&mut pool, 10, &[]), vec![(BOB, 0), (BOB, 1)]);
}

#[test]
fn forming_a_block_refreshes_the_accounts() {
    let mut pool = mempool_for(2);
    put(&mut pool, ALICE, 0, 2, 0);
    put(&mut pool, BOB, 0, 1, 0);
    // A block of one transaction looks at Alice only, so Bob is the one to be forgotten.
    assert_eq!(block(&mut pool, 1, &[]), vec![(ALICE, 0)]);
    pool.remove_transaction(&CAROL, 0, false);
    assert_eq!(block(&mut pool, 10, &[]), vec![(ALICE, 0)]);
}

#[test]
fn latency_is_the_time_between() {
    assert_eq!(latency_millis(1_000, 1_234), Some(234));
    assert_eq!(latency_millis(5, 5), Some(0));
    assert_eq!(latency_millis(6, 5), None);
    assert_eq!(latency_millis(i64::MIN, i64::MAX), Some(u64::MAX));
}

#[test]
fn latency_is_observed_and_forgotten() {
    let mut pool = mempool_for(4);
    let txn = SignedTransaction {
        sender: ALICE,
        sequence_number: 0,
        gas_unit_price: 1,
        expiration_time: 0,
        payload: vec![],
    };
    // It came in at the epoch, so that it took all the time since.
    pool.add_txn_at(txn, 1, 0, 10, TimelineState::NotReady, 0, 0);
    let now = std::time::UNIX_EPOCH.elapsed().unwrap().as_millis() as u64;
    let latency = pool.log_latency(&ALICE, 0).unwrap();
    assert!(latency >= now && latency < now + 60_000);
    let (_, latencies) = pool.get_block(1, BTreeSet::new());
    assert!(latencies[0].unwrap() >= latency);
    assert!(pool.remove_transaction(&ALICE, 0, false).unwrap() >= latency);
    assert_eq!(pool.remove_transaction(&ALICE, 0, false), None);
    assert_eq!(pool.log_latency(&ALICE, 0), None);
}

#[test]
fn latency_of_other_validators_transactions_is_not_kept() {
    let mut pool = mempool_for(4);
    let txn = SignedTransaction {
        sender: ALICE,
        sequence_number: 0,
        gas_unit_price: 1,
        expiration_time: 0,
        payload: vec![],
    };
    pool.add_txn_at(txn, 1, 0, 10, TimelineState::NonQualified, 0, 0);
    let (transactions, latencies) = pool.get_block(1, BTreeSet::new());
    assert_eq!(transactions.len(), 1);
    assert_eq!(latencies, vec![None]);
}

#[test]
fn entry_times_are_bounded_in_number() {
    let mut pool = mempool_for(1);
    put(&mut pool, ALICE, 0, 1, 0);
    pool.remove_transaction(&ALICE, 0, true);
    put(&mut pool, ALICE, 1, 1, 1);
    assert!(pool.log_latency(&ALICE, 1).is_some());
    // The mempool is full: the request is refused, but its time pushes out the older one.
    let txn = SignedTransaction {
        sender: BOB,
        sequence_number: 0,
        gas_unit_price: 1,
        expiration_time: 0,
        payload: vec![],
    };
    let status = pool.add_txn_at(txn, 1, 0, 10, TimelineState::NotReady, 0, 0);
    assert_eq!(status.code, MempoolAddTransactionStatusCode::MempoolIsFull);
    assert!(pool.log_latency(&BOB, 0).is_some());
    assert_eq!(pool.log_latency(&ALICE, 1), None);
}

#[test]
fn recorded_creation_time_in_the_future_gives_no_latency() {
    let mut pool = mempool_for(4);
    let txn = SignedTransaction {
        sender: ALICE,
        sequence_number: 0,
        gas_unit_price: 1,
        expiration_time: 0,
        payload: vec![],
    };
    pool.add_txn_at(txn, 1, 0, 10, TimelineState::NotReady, 0, i64::MAX);
    assert_eq!(pool.log_latency(&ALICE, 0), None);
}

#[test]
fn gaps_in_what_was_seen_let_later_transactions_go_first() {
    let mut pool = mempool_for(10);
    for sequence_number in 0..6 {
        put(&mut pool, ALICE, sequence_number, 1 + sequence_number, 0);
    }
    // Without a gap the order is that of the sequence numbers.
    assert_eq!(
        block(&mut pool, 10, &[(ALICE, 0), (ALICE, 1)]),
        vec![(ALICE, 2), (ALICE, 3), (ALICE, 4), (ALICE, 5)]
    );
    // With one, each run starts by itself, the better paying one first.
    assert_eq!(
        block(&mut pool, 10, &[(ALICE, 0), (ALICE, 3)]),
        vec![(ALICE, 4), (ALICE, 5), (ALICE, 1), (ALICE, 2)]
    );
}

#[test]
fn next_block_continues_where_the_first_stopped() {
    let mut pool = mempool_for(20);
    for sequence_number in 0..4 {
        put(&mut pool, ALICE, sequence_number, 9 - 2 * sequence_number, 0);
        put(&mut pool, BOB, sequence_number, 1 + 3 * sequence_number, 0);
    }
    put(&mut pool, CAROL, 5, 4, 5);
    let all = block(&mut pool, 20, &[]);
    assert_eq!(all.len(), 9);
    for size in 0..10 {
        let first = block(&mut pool, size, &[]);
        let second = block(&mut pool, 20 - size, &first);
        assert_eq!([first, second].concat(), all);
    }
}

#[test]
fn removal_measures_with_what_was_looked_up() {
    let mut pool = mempool_for(4);
    put(&mut pool, ALICE, 0, 1, 0);
    put(&mut pool, ALICE, 1, 1, 0);
    let latency = pool.remove_transaction_at(&ALICE, 0, false, Some(1_000), Some(1_250));
    assert_eq!(latency, Some(250));
    assert_eq!(pool.log_latency(&ALICE, 0), None);
    assert_eq!(block(&mut pool, 10, &[]), vec![(ALICE, 1)]);
    assert_eq!(pool.remove_transaction_at(&ALICE, 1, true, None, Some(1)), None);
    assert_eq!(block(&mut pool, 10, &[]), Vec::<TxnPointer>::new());
}

#[test]
fn nothing_is_observed_without_both_times() {
    assert_eq!(observed_latency(Some(3), Some(10)), Some(7));
    assert_eq!(observed_latency(Some(10), Some(3)), None);
    assert_eq!(observed_latency(None, Some(3)), None);
    assert_eq!(observed_latency(Some(3), None), None);
}

#[test]
fn entry_time_is_noted_for_a_hundred_seconds() {
    let txn = SignedTransaction {
        sender: BOB,
        sequence_number: 8,
        gas_unit_price: 1,
        expiration_time: 0,
        payload: vec![],
    };
    assert_eq!(
        metrics_entry(&txn, TimelineState::NotReady, 77),
        Some(MetricsEntry {
            txn: (BOB, 8),
            creation_time: 77,
            ttl_secs: 100
        })
    );
    assert_eq!(metrics_entry(&txn, TimelineState::NonQualified, 77), None);
}

#[test]
fn time_in_milliseconds_is_cut_off() {
    assert_eq!(utc_millis(0), Some(0));
    assert_eq!(utc_millis(1_999_999), Some(1));
    assert_eq!(utc_millis(1_000_000_000_555_999_999), Some(1_000_000_000_555));
    let end = (LAST_SECOND as u128 + 1) * 1_000_000_000;
    assert_eq!(utc_millis(end - 1), Some(LAST_SECOND * 1_000 + 999));
    assert_eq!(utc_millis(end), None);
    assert_eq!(utc_millis(u128::MAX), None);
    assert_eq!(
        chrono::DateTime::<chrono::Utc>::MAX_UTC.timestamp(),
        LAST_SECOND
    );
    assert!(chrono::DateTime::<chrono::Utc>::from_timestamp(LAST_SECOND + 1, 0).is_none());
}

#[test]
fn none_that_pays_more_is_left_out() {
    let mut pool = mempool_for(10);
    put(&mut pool, ALICE, 0, 3, 0);
    put(&mut pool, ALICE, 1, 8, 0);
    put(&mut pool, BOB, 0, 5, 0);
    put(&mut pool, CAROL, 0, 2, 0);
    assert_eq!(
        block(&mut pool, 3, &[]),
        vec![(BOB, 0), (ALICE, 0), (ALICE, 1)]
    );
}
