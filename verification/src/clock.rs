//! The readings of the clocks, and what follows from them.

use chrono::{DateTime, Utc};
use std::time::UNIX_EPOCH;
use vstd::prelude::*;

verus! {

/// `std::time::SystemTime::elapsed` of the Unix epoch: what the system clock reads, in nanoseconds
/// since the epoch; `None` where it reads a time before it. Nothing is claimed of what the clock
/// reads.
#[verifier::external_body]
pub(crate) fn system_now() -> (now: Option<u128>) {
    match UNIX_EPOCH.elapsed() {
        Ok(since_epoch) => Some(since_epoch.as_nanos()),
        Err(_) => None,
    }
}

/// The last second since the Unix epoch that chrono's calendar holds, at the end of the year
/// 262142.
pub const LAST_SECOND: i64 = 8_210_266_876_799;

/// `chrono::DateTime::from_timestamp`, with the result as `timestamp_millis` gives it: the time of
/// `secs` seconds and `nanos` nanoseconds since the Unix epoch in milliseconds, cut off; `None`
/// behind the end of chrono's calendar.
#[verifier::external_body]
fn timestamp_millis(secs: i64, nanos: u32) -> (millis: Option<i64>)
    requires
        0 <= secs,
        nanos < 1_000_000_000,
    ensures
        millis == if secs <= LAST_SECOND {
            Some((secs * 1000 + nanos / 1_000_000) as i64)
        } else {
            None
        },
{
    match DateTime::<Utc>::from_timestamp(secs, nanos) {
        Some(time) => Some(time.timestamp_millis()),
        None => None,
    }
}

/// The time of `since_epoch` nanoseconds since the Unix epoch in milliseconds, as far as the
/// calendar goes.
pub open spec fn millis_of(since_epoch: u128) -> Option<i64> {
    if since_epoch / 1_000_000_000 <= LAST_SECOND {
        Some((since_epoch / 1_000_000) as i64)
    } else {
        None
    }
}

/// The time of `since_epoch` nanoseconds since the Unix epoch in milliseconds, as far as the
/// calendar goes.
pub fn utc_millis(since_epoch: u128) -> (millis: Option<i64>)
    ensures
        millis == millis_of(since_epoch),
        millis is Some <==> since_epoch < 8_210_266_876_800 * 1_000_000_000,
        millis matches Some(count) ==> 0 <= since_epoch - count * 1_000_000 < 1_000_000,
{
    let secs: u128 = since_epoch / 1_000_000_000;
    let nanos: u128 = since_epoch % 1_000_000_000;
    if secs > i64::MAX as u128 {
        return None;
    }
    assert(since_epoch / 1_000_000 == secs * 1000 + nanos / 1_000_000);
    timestamp_millis(secs as i64, nanos as u32)
}

/// What the system clock reads, in milliseconds since the Unix epoch; `None` where it reads a time
/// before the epoch or beyond the calendar.
pub(crate) fn utc_now_millis() -> (now: Option<i64>)
    ensures
        now is Some ==> exists|since_epoch: u128| now == #[trigger] millis_of(since_epoch),
{
    match system_now() {
        Some(since_epoch) => utc_millis(since_epoch),
        None => None,
    }
}

/// The milliseconds from `creation_time` to `now`, if `now` is not the earlier one.
pub open spec fn elapsed_millis(creation_time: i64, now: i64) -> Option<u64> {
    if creation_time <= now {
        Some((now - creation_time) as u64)
    } else {
        None
    }
}

/// The latency of a transaction that entered the mempool at `creation_time`, both times in
/// milliseconds; there is none where the clock went backwards.
pub fn latency_millis(creation_time: i64, now: i64) -> (latency: Option<u64>)
    ensures
        latency == elapsed_millis(creation_time, now),
        latency is Some <==> creation_time <= now,
        latency matches Some(millis) ==> millis == now - creation_time,
{
    if creation_time <= now {
        let delta: i128 = now as i128 - creation_time as i128;
        Some(delta as u64)
    } else {
        None
    }
}

/// The latency that is observed of a transaction of which `creation_time` has been looked up and
/// `now` been read, both in milliseconds: none where either is not known.
pub open spec fn observed_millis(creation_time: Option<i64>, now: Option<i64>) -> Option<u64> {
    match (creation_time, now) {
        (Some(created), Some(read)) => elapsed_millis(created, read),
        _ => None,
    }
}

/// The latency of a transaction of which `creation_time` has been looked up and `now` been read,
/// both in milliseconds.
pub fn observed_latency(creation_time: Option<i64>, now: Option<i64>) -> (latency: Option<u64>)
    ensures
        latency == observed_millis(creation_time, now),
        latency is Some <==> creation_time is Some && now is Some && creation_time->0 <= now->0,
        latency matches Some(millis) ==> millis == now->0 - creation_time->0,
{
    match (creation_time, now) {
        (Some(created), Some(read)) => latency_millis(created, read),
        _ => None,
    }
}

} // verus!
