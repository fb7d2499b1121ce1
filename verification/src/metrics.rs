//! What is noted of a transaction when it comes in, to measure how long it takes.

use crate::types::{SignedTransaction, TimelineState, TxnPointer};
use vstd::prelude::*;

verus! {

/// For how many seconds the time at which a transaction came in is handed out.
pub const METRICS_TTL_SECS: u64 = 100;

/// What the cache of the entry times is handed.
#[derive(Debug, Clone, Copy, PartialEq, Eq)]
pub struct MetricsEntry {
    /// The transaction.
    pub txn: TxnPointer,
    /// When it came in, in milliseconds since the Unix epoch.
    pub creation_time: i64,
    /// For how many seconds that is handed out.
    pub ttl_secs: u64,
}

/// What is noted of a transaction that comes in at `now_millis`: nothing where it came from another
/// validator.
pub fn metrics_entry(
    txn: &SignedTransaction,
    timeline_state: TimelineState,
    now_millis: i64,
) -> (entry: Option<MetricsEntry>)
    ensures
        entry == if timeline_state == TimelineState::NonQualified {
            None
        } else {
            Some(
                MetricsEntry {
                    txn: txn@.pointer(),
                    creation_time: now_millis,
                    ttl_secs: 100,
                },
            )
        },
{
    if timeline_state == TimelineState::NonQualified {
        None
    } else {
        Some(
            MetricsEntry {
                txn: (txn.sender, txn.sequence_number),
                creation_time: now_millis,
                ttl_secs: METRICS_TTL_SECS,
            },
        )
    }
}

} // verus!
