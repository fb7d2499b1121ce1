use mempool::config::{MempoolConfig, NodeConfig, StorageConfig};
use mempool::mempool::Mempool;
use mempool::status::{MempoolAddTransactionStatus, MempoolAddTransactionStatusCode};
use mempool::types::{AccountAddress, SignedTransaction, TimelineState};

const ALICE: AccountAddress = (0, 1);
const BOB: AccountAddress = (0, 2);
const SECOND: u128 = 1_000_000_000;

fn config(capacity: usize) -> NodeConfig {
    NodeConfig {
        mempool: MempoolConfig {
            capacity,
            system_transaction_timeout_secs: 60,
            address: "localhost".to_string(),
            mempool_service_port: 6182,
        },
        storage: StorageConfig { port: 6184 },
    }
}

fn txn(sender: AccountAddress, sequence_number: u64, gas_unit_price: u64) -> SignedTransaction {
    SignedTransaction {
        sender,
        sequence_number,
        gas_unit_price,
        expiration_time: 1_000 * SECOND,
        payload: vec![sequence_number as u8, gas_unit_price as u8],
    }
}

fn add(
    pool: &mut Mempool,
    sender: AccountAddress,
    sequence_number: u64,
    gas_unit_price: u64,
    db_sequence_number: u64,
) -> MempoolAddTransactionStatus {
    pool.add_txn_at(
        txn(sender, sequence_number, gas_unit_price),
        1,
        db_sequence_number,
        1_000,
        TimelineState::NotReady,
        0,
        0,
    )
}

fn timeline_numbers(pool: &Mempool) -> Vec<u64> {
    pool.read_timeline(0, 100).0.iter().map(|t| t.sequence_number).collect()
}

#[test]
fn new_mempool_is_empty() {
    let mut pool = Mempool::new(&config(4));
    assert_eq!(pool.system_transaction_timeout, 60 * SECOND);
    assert!(pool.health_check());
    let (block, latencies) = pool.get_block(10, std::collections::BTreeSet::new());
    assert!(block.is_empty());
    assert!(latencies.is_empty());
    let (read, position) = pool.read_timeline(7, 10);
    assert!(read.is_empty());
    assert_eq!(position, 7);
}

#[test]
fn service_address_joins_address_and_port() {
    assert_eq!(config(1).mempool.service_address(), "localhost:6182");
    let mut other = config(1);
    other.mempool.address = "10.0.0.7".to_string();
    other.mempool.mempool_service_port = 0;
    assert_eq!(other.mempool.service_address(), "10.0.0.7:0");
}

#[test]
fn accepted_transaction_is_answered_valid() {
    let mut pool = Mempool::new(&config(4));
    let status = add(&mut pool, ALICE, 0, 5, 0);
    assert_eq!(status.code, MempoolAddTransactionStatusCode::Valid);
    assert_eq!(status.message, "");
}

#[test]
fn insufficient_balance_is_refused() {
    let mut pool = Mempool::new(&config(4));
    let status = pool.add_txn_at(txn(ALICE, 0, 3), 100, 0, 299, TimelineState::NotReady, 0, 0);
    assert_eq!(status.code, MempoolAddTransactionStatusCode::InsufficientBalance);
    assert_eq!(status.message, "balance: 299, required_balance: 300, gas_amount: 100");
    let status = pool.add_txn_at(txn(ALICE, 0, 3), 100, 0, 300, TimelineState::NotReady, 0, 0);
    assert_eq!(status.code, MempoolAddTransactionStatusCode::Valid);
}

#[test]
fn required_balance_counts_what_already_waits() {
    let mut pool = Mempool::new(&config(4));
    assert_eq!(pool.get_required_balance(&txn(ALICE, 1, 2), 10), 20);
    pool.add_txn_at(txn(ALICE, 0, 3), 100, 0, 300, TimelineState::NotReady, 0, 0);
    assert_eq!(pool.get_required_balance(&txn(ALICE, 1, 2), 10), 320);
    assert_eq!(pool.get_required_balance(&txn(BOB, 1, 2), 10), 20);
    let status = pool.add_txn_at(txn(ALICE, 1, 2), 10, 0, 319, TimelineState::NotReady, 0, 0);
    assert_eq!(status.message, "balance: 319, required_balance: 320, gas_amount: 10");
}

#[test]
fn required_balance_beyond_any_balance_is_refused() {
    let mut pool = Mempool::new(&config(4));
    let status = pool.add_txn_at(
        txn(ALICE, 0, u64::MAX),
        u64::MAX,
        0,
        u64::MAX,
        TimelineState::NotReady,
        0,
        0,
    );
    assert_eq!(status.code, MempoolAddTransactionStatusCode::InsufficientBalance);
    assert_eq!(
        status.message,
        "balance: 18446744073709551615, required_balance: 340282366920938463426481119284349108225, \
         gas_amount: 18446744073709551615"
    );
}

#[test]
fn used_up_sequence_number_is_refused() {
    let mut pool = Mempool::new(&config(4));
    let status = add(&mut pool, ALICE, 3, 1, 4);
    assert_eq!(status.code, MempoolAddTransactionStatusCode::InvalidSeqNumber);
    assert_eq!(
        status.message,
        "transaction sequence number is 3, current sequence number is  4"
    );
    // The number that storage reported is remembered.
    let status = add(&mut pool, ALICE, 3, 1, 0);
    assert_eq!(status.code, MempoolAddTransactionStatusCode::InvalidSeqNumber);
    assert_eq!(add(&mut pool, ALICE, 4, 1, 0).code, MempoolAddTransactionStatusCode::Valid);
}

#[test]
fn refused_for_balance_leaves_sequence_number_unknown() {
    let mut pool = Mempool::new(&config(4));
    let status = pool.add_txn_at(txn(ALICE, 9, 3), 100, 9, 0, TimelineState::NotReady, 0, 0);
    assert_eq!(status.code, MempoolAddTransactionStatusCode::InsufficientBalance);
    assert_eq!(add(&mut pool, ALICE, 0, 1, 0).code, MempoolAddTransactionStatusCode::Valid);
}

#[test]
fn full_mempool_refuses() {
    let mut pool = Mempool::new(&config(2));
    assert_eq!(add(&mut pool, ALICE, 0, 1, 0).code, MempoolAddTransactionStatusCode::Valid);
    assert_eq!(add(&mut pool, ALICE, 1, 1, 0).code, MempoolAddTransactionStatusCode::Valid);
    let status = add(&mut pool, BOB, 0, 9, 0);
    assert_eq!(status.code, MempoolAddTransactionStatusCode::MempoolIsFull);
    assert_eq!(status.message, "mempool size: 2, capacity: 2");
    assert!(pool.health_check());
    // A better paying version of a transaction needs no room.
    assert_eq!(add(&mut pool, ALICE, 1, 2, 0).code, MempoolAddTransactionStatusCode::Valid);
}

#[test]
fn better_paying_version_replaces() {
    let mut pool = Mempool::new(&config(4));
    add(&mut pool, ALICE, 0, 5, 0);
    let status = add(&mut pool, ALICE, 0, 5, 0);
    assert_eq!(status.code, MempoolAddTransactionStatusCode::InvalidUpdate);
    assert_eq!(status.message, "Failed to update gas price to 5");
    assert_eq!(add(&mut pool, ALICE, 0, 4, 0).code, MempoolAddTransactionStatusCode::InvalidUpdate);
    assert_eq!(add(&mut pool, ALICE, 0, 6, 0).code, MempoolAddTransactionStatusCode::Valid);
    let (block, _) = pool.get_block(10, std::collections::BTreeSet::new());
    assert_eq!(block.len(), 1);
    assert_eq!(block[0].gas_unit_price, 6);
    assert_eq!(block[0].payload, vec![0, 6]);
    assert_eq!(pool.get_required_balance(&txn(ALICE, 1, 0), 0), 6);
}

#[test]
fn only_sequential_transactions_are_broadcast() {
    let mut pool = Mempool::new(&config(10));
    for sequence_number in [2, 3, 4, 7, 8] {
        add(&mut pool, ALICE, sequence_number, 1, 2);
    }
    assert_eq!(timeline_numbers(&pool), vec![2, 3, 4]);
}

#[test]
fn filling_a_gap_broadcasts_what_waited() {
    let mut pool = Mempool::new(&config(10));
    add(&mut pool, ALICE, 1, 1, 0);
    add(&mut pool, ALICE, 2, 1, 0);
    assert_eq!(timeline_numbers(&pool), Vec::<u64>::new());
    add(&mut pool, ALICE, 0, 1, 0);
    assert_eq!(timeline_numbers(&pool), vec![0, 1, 2]);
}

#[test]
fn transactions_of_other_validators_are_not_broadcast() {
    let mut pool = Mempool::new(&config(10));
    pool.add_txn_at(txn(ALICE, 0, 1), 1, 0, 1_000, TimelineState::NonQualified, 0, 0);
    add(&mut pool, ALICE, 1, 1, 0);
    assert_eq!(timeline_numbers(&pool), vec![1]);
    let (block, _) = pool.get_block(10, std::collections::BTreeSet::new());
    assert_eq!(block.len(), 2);
}

#[test]
fn claimed_timeline_position_is_not_taken_over() {
    let mut pool = Mempool::new(&config(10));
    pool.add_txn_at(txn(ALICE, 0, 1), 1, 0, 1_000, TimelineState::Ready(77), 0, 0);
    let (read, position) = pool.read_timeline(0, 10);
    assert_eq!(read.len(), 1);
    assert_eq!(position, 1);
}

#[test]
fn timeline_read_resumes_where_it_stopped() {
    let mut pool = Mempool::new(&config(10));
    for sequence_number in 0..5 {
        add(&mut pool, ALICE, sequence_number, sequence_number + 1, 0);
    }
    let (first, position) = pool.read_timeline(0, 2);
    assert_eq!(first.iter().map(|t| t.sequence_number).collect::<Vec<u64>>(), vec![0, 1]);
    assert_eq!(position, 2);
    let (second, position) = pool.read_timeline(position, 10);
    assert_eq!(second.iter().map(|t| t.sequence_number).collect::<Vec<u64>>(), vec![2, 3, 4]);
    assert_eq!(position, 5);
    let (third, position) = pool.read_timeline(position, 10);
    assert!(third.is_empty());
    assert_eq!(position, 5);
}

#[test]
fn system_clock_is_read() {
    let mut pool = Mempool::new(&config(4));
    let status = pool.add_txn(txn(ALICE, 0, 1), 1, 0, 1_000, TimelineState::NotReady).unwrap();
    assert_eq!(status.code, MempoolAddTransactionStatusCode::Valid);
    // Its time is not over now, and it was not in the first hours of the epoch.
    let before = std::time::UNIX_EPOCH.elapsed().unwrap().as_nanos();
    let ran_at = pool.gc_by_system_ttl().unwrap();
    assert!(before <= ran_at && ran_at < before + 60 * SECOND);
    assert_eq!(timeline_numbers(&pool), vec![0]);
    pool.gc_by_system_ttl_at(10_000 * SECOND);
    assert_eq!(timeline_numbers(&pool), vec![0]);
    // It is over within a minute and a bit from now.
    let now = std::time::UNIX_EPOCH.elapsed().unwrap().as_nanos();
    pool.gc_by_system_ttl_at(now + 61 * SECOND);
    assert_eq!(timeline_numbers(&pool), Vec::<u64>::new());
}

#[test]
fn refusals_do_not_need_the_clock() {
    let mut pool = Mempool::new(&config(4));
    let status = pool.add_txn(txn(ALICE, 0, 5), 1, 0, 4, TimelineState::NotReady).unwrap();
    assert_eq!(status.message, "balance: 4, required_balance: 5, gas_amount: 1");
    let status = pool.add_txn(txn(ALICE, 0, 5), 1, 1, 5, TimelineState::NotReady).unwrap();
    assert_eq!(status.code, MempoolAddTransactionStatusCode::InvalidSeqNumber);
}

#[test]
fn system_garbage_collection_drops_what_is_overdue() {
    let mut pool = Mempool::new(&config(10));
    for sequence_number in 0..4 {
        pool.add_txn_at(
            txn(ALICE, sequence_number, 1),
            1,
            0,
            1_000,
            TimelineState::NotReady,
            if sequence_number == 1 { 0 } else { 10 * SECOND },
            0,
        );
    }
    pool.add_txn_at(txn(BOB, 0, 1), 1, 0, 1_000, TimelineState::NotReady, 10 * SECOND, 0);
    pool.gc_by_system_ttl_at(60 * SECOND - 1);
    assert_eq!(timeline_numbers(&pool), vec![0, 1, 2, 3, 0]);
    // The second one of Alice goes, and those behind it leave the queue.
    pool.gc_by_system_ttl_at(60 * SECOND);
    assert_eq!(timeline_numbers(&pool), vec![0, 0]);
    // They are still there: filling the gap brings them back.
    add(&mut pool, ALICE, 1, 1, 0);
    assert_eq!(timeline_numbers(&pool), vec![0, 0, 1, 2, 3]);
    pool.gc_by_system_ttl_at(70 * SECOND);
    assert_eq!(timeline_numbers(&pool), Vec::<u64>::new());
}

#[test]
fn system_garbage_collection_runs_at_the_present_time() {
    let mut pool = Mempool::new(&config(10));
    add(&mut pool, ALICE, 0, 1, 0);
    let now = std::time::UNIX_EPOCH.elapsed().unwrap().as_nanos();
    pool.add_txn_at(txn(BOB, 0, 1), 1, 0, 9, TimelineState::NotReady, now, 0);
    // Alice's time was over in the first minutes of the epoch, Bob's is not.
    assert!(pool.gc_by_system_ttl().is_some());
    let (block, _) = pool.get_block(10, std::collections::BTreeSet::new());
    assert_eq!(block.iter().map(|t| t.sender).collect::<Vec<_>>(), vec![BOB]);
}

#[test]
fn client_expiration_drops_what_is_too_late() {
    let mut pool = Mempool::new(&config(10));
    let mut hurried = txn(ALICE, 0, 1);
    hurried.expiration_time = 5 * SECOND;
    pool.add_txn_at(hurried, 1, 0, 1_000, TimelineState::NotReady, 0, 0);
    add(&mut pool, BOB, 0, 1, 0);
    pool.gc_by_expiration_time(5 * SECOND - 1);
    assert_eq!(timeline_numbers(&pool), vec![0, 0]);
    pool.gc_by_expiration_time(5 * SECOND);
    assert_eq!(timeline_numbers(&pool), vec![0]);
    let (block, _) = pool.get_block(10, std::collections::BTreeSet::new());
    assert_eq!(block[0].sender, BOB);
}

#[test]
fn expiration_time_does_not_overflow() {
    let mut pool = Mempool::new(&config(10));
    pool.add_txn_at(txn(ALICE, 0, 1), 1, 0, 9, TimelineState::NotReady, u128::MAX, 0);
    pool.gc_by_system_ttl_at(u128::MAX - 1);
    assert_eq!(timeline_numbers(&pool), vec![0]);
}

#[test]
fn timeline_grows_at_its_end() {
    let mut pool = Mempool::new(&config(10));
    add(&mut pool, ALICE, 0, 1, 0);
    add(&mut pool, BOB, 1, 9, 0);
    let (_, position) = pool.read_timeline(0, 10);
    // Bob's transaction gets its position only now, behind what was read.
    add(&mut pool, BOB, 0, 5, 0);
    let (read, last) = pool.read_timeline(position, 10);
    assert_eq!(
        read.iter().map(|t| (t.sender, t.sequence_number)).collect::<Vec<_>>(),
        vec![(BOB, 0), (BOB, 1)]
    );
    assert_eq!(last, position + 2);
    // A better paying version is shared anew.
    assert_eq!(add(&mut pool, ALICE, 0, 2, 0).code, MempoolAddTransactionStatusCode::Valid);
    let (read, end) = pool.read_timeline(last, 10);
    assert_eq!(read.len(), 1);
    assert_eq!((read[0].sender, read[0].gas_unit_price), (ALICE, 2));
    assert_eq!(end, last + 1);
    assert_eq!(timeline_numbers(&pool), vec![0, 1, 0]);
}

fn add_from_peer(pool: &mut Mempool, sequence_number: u64, gas_unit_price: u64) {
    let status = pool.add_txn_at(
        txn(ALICE, sequence_number, gas_unit_price),
        1,
        0,
        1_000,
        TimelineState::NonQualified,
        0,
        0,
    );
    assert_eq!(status.code, MempoolAddTransactionStatusCode::Valid);
}

#[test]
fn better_paying_version_of_a_peer_is_not_broadcast() {
    let mut pool = Mempool::new(&config(10));
    add(&mut pool, ALICE, 0, 1, 0);
    assert_eq!(timeline_numbers(&pool), vec![0]);
    add_from_peer(&mut pool, 0, 2);
    assert_eq!(timeline_numbers(&pool), Vec::<u64>::new());
    let (block, _) = pool.get_block(10, std::collections::BTreeSet::new());
    assert_eq!(block[0].gas_unit_price, 2);
}

#[test]
fn better_paying_version_of_an_own_client_is_broadcast() {
    let mut pool = Mempool::new(&config(10));
    add_from_peer(&mut pool, 0, 1);
    assert_eq!(timeline_numbers(&pool), Vec::<u64>::new());
    add(&mut pool, ALICE, 0, 2, 0);
    let (read, position) = pool.read_timeline(0, 10);
    assert_eq!(read.len(), 1);
    assert_eq!(read[0].gas_unit_price, 2);
    assert_eq!(position, 1);
}

#[test]
fn better_paying_version_does_not_prolong_the_stay() {
    let mut pool = Mempool::new(&config(10));
    add(&mut pool, ALICE, 0, 1, 0);
    let status =
        pool.add_txn_at(txn(ALICE, 0, 2), 1, 0, 1_000, TimelineState::NotReady, 30 * SECOND, 0);
    assert_eq!(status.code, MempoolAddTransactionStatusCode::Valid);
    pool.gc_by_system_ttl_at(60 * SECOND);
    assert_eq!(timeline_numbers(&pool), Vec::<u64>::new());
}

#[test]
fn sequence_number_of_storage_moves_the_queue_on() {
    let mut pool = Mempool::new(&config(10));
    add(&mut pool, ALICE, 3, 1, 3);
    add(&mut pool, ALICE, 5, 1, 3);
    assert_eq!(timeline_numbers(&pool), vec![3]);
    // Storage has moved on to 5, which is next then; the older one is not executed any more.
    add(&mut pool, ALICE, 6, 1, 5);
    assert_eq!(timeline_numbers(&pool), vec![5, 6]);
    let (block, _) = pool.get_block(10, std::collections::BTreeSet::new());
    assert_eq!(block.iter().map(|t| t.sequence_number).collect::<Vec<u64>>(), vec![5, 6]);
    // That the older one is dropped leaves the queue as it is.
    pool.remove_transaction(&ALICE, 3, true);
    assert_eq!(timeline_numbers(&pool), vec![5, 6]);
}

#[test]
fn refused_request_moves_the_queue_on() {
    let mut pool = Mempool::new(&config(3));
    add(&mut pool, ALICE, 3, 1, 3);
    add(&mut pool, ALICE, 5, 1, 3);
    add(&mut pool, ALICE, 7, 1, 3);
    assert_eq!(timeline_numbers(&pool), vec![3]);
    // Each of these is refused, but brings to light how far the account is.
    let status = add(&mut pool, ALICE, 4, 1, 5);
    assert_eq!(status.code, MempoolAddTransactionStatusCode::InvalidSeqNumber);
    assert_eq!(timeline_numbers(&pool), vec![5]);
    let status = add(&mut pool, ALICE, 9, 1, 6);
    assert_eq!(status.code, MempoolAddTransactionStatusCode::MempoolIsFull);
    assert_eq!(status.message, "mempool size: 3, capacity: 3");
    assert_eq!(timeline_numbers(&pool), Vec::<u64>::new());
    let status = add(&mut pool, ALICE, 7, 1, 7);
    assert_eq!(status.code, MempoolAddTransactionStatusCode::InvalidUpdate);
    assert_eq!(timeline_numbers(&pool), vec![7]);
    // No transaction is lost by it.
    assert_eq!(pool.get_required_balance(&txn(ALICE, 8, 0), 0), 3);
}

#[test]
fn refused_request_without_news_leaves_everything() {
    let mut pool = Mempool::new(&config(10));
    add(&mut pool, ALICE, 3, 1, 3);
    let (_, position) = pool.read_timeline(0, 10);
    assert_eq!(add(&mut pool, ALICE, 3, 1, 3).code, MempoolAddTransactionStatusCode::InvalidUpdate);
    assert_eq!(add(&mut pool, ALICE, 2, 1, 3).code, MempoolAddTransactionStatusCode::InvalidSeqNumber);
    // One that cannot pay is not even looked at for its number.
    let status = pool.add_txn_at(txn(ALICE, 4, 9), 9, 9, 0, TimelineState::NotReady, 0, 0);
    assert_eq!(status.code, MempoolAddTransactionStatusCode::InsufficientBalance);
    assert_eq!(timeline_numbers(&pool), vec![3]);
    assert_eq!(pool.read_timeline(0, 10).1, position);
}

#[test]
fn transaction_of_a_peer_is_taken_in() {
    let mut pool = Mempool::new(&config(10));
    let status = pool.add_txn(txn(ALICE, 0, 1), 1, 0, 9, TimelineState::NonQualified).unwrap();
    assert_eq!(status.code, MempoolAddTransactionStatusCode::Valid);
    assert_eq!(pool.log_latency(&ALICE, 0), None);
}

#[test]
fn store_answers_for_itself() {
    let mut store = mempool::store::TransactionStore::new(1);
    let entry = mempool::types::MempoolTransaction::new(
        txn(ALICE, 4, 7),
        9 * SECOND,
        3,
        TimelineState::NotReady,
    );
    assert_eq!(store.insert(entry, 4).code, MempoolAddTransactionStatusCode::Valid);
    assert_eq!(store.get_required_balance(&ALICE), 21);
    assert_eq!(store.get_required_balance(&BOB), 0);
    assert_eq!(store.get(&ALICE, 4).unwrap().payload, vec![4, 7]);
    assert!(store.get(&ALICE, 3).is_none());
    assert_eq!(store.iter_queue(), vec![(ALICE, 4)]);
    assert!(store.health_check());
    store.gc_by_expiration_time(999 * SECOND);
    store.gc_by_system_ttl(9 * SECOND - 1);
    assert_eq!(store.read_timeline(0, 5).1, 1);
    store.gc_by_system_ttl(9 * SECOND);
    assert_eq!(store.iter_queue(), vec![]);
}
