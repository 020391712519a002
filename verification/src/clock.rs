//! The wall clock, read in the one place it is read.
//!
//! What the clock says is the machine's business, so nothing is stated of
//! the reading itself; what is made of it, in whole units since the epoch and
//! 0 for a clock set before the epoch, is.

use vstd::prelude::*;

use std::time::{Duration, SystemTime, UNIX_EPOCH};

verus! {

#[verifier::external_type_specification]
#[verifier::external_body]
pub struct ExSystemTime(SystemTime);

/// `SystemTime::now`.
#[verifier::external_body]
pub(crate) fn wall_clock() -> (r: SystemTime) {
    SystemTime::now()
}

/// `SystemTime::duration_since(UNIX_EPOCH)`, `None` for a time before it.
#[verifier::external_body]
pub(crate) fn since_epoch(t: &SystemTime) -> (r: Option<Duration>) {
    t.duration_since(UNIX_EPOCH).ok()
}

/// `Duration::as_millis`.
#[verifier::external_body]
fn whole_millis(d: &Duration) -> (r: u128) {
    d.as_millis()
}

/// `Duration::as_secs`.
#[verifier::external_body]
fn whole_secs(d: &Duration) -> (r: u64) {
    d.as_secs()
}

/// `Duration::subsec_nanos`: the part of a second, which the documentation
/// gives as always under a billion.
#[verifier::external_body]
pub(crate) fn part_second_nanos(d: &Duration) -> (r: u32)
    ensures
        r < 1_000_000_000,
{
    d.subsec_nanos()
}

/// Whole milliseconds since the epoch as a `u64`, cut to its low bits as
/// `as` cuts them, or 0 for a clock that predates the epoch.
pub open spec fn millis_reading(since: Option<u128>) -> u64 {
    match since {
        Some(ms) => ms as u64,
        None => 0,
    }
}

/// Whole seconds since the epoch as an `i64`, cut as `as` cuts it, or 0 for
/// a clock that predates the epoch.
pub open spec fn secs_reading(since: Option<u64>) -> i64 {
    match since {
        Some(s) => s as i64,
        None => 0,
    }
}

/// A clock reading in milliseconds, from the time since the epoch in whole
/// milliseconds (`None` before it).
pub fn millis_since(since: Option<u128>) -> (r: u64)
    ensures
        r == millis_reading(since),
{
    match since {
        Some(ms) => {
            #[verifier::truncate]
            (ms as u64)
        },
        None => 0,
    }
}

/// A clock reading in seconds, from the time since the epoch in whole
/// seconds (`None` before it).
pub fn secs_since(since: Option<u64>) -> (r: i64)
    ensures
        r == secs_reading(since),
{
    match since {
        Some(s) => {
            #[verifier::truncate]
            (s as i64)
        },
        None => 0,
    }
}

/// Milliseconds since the epoch, or 0 on a clock that predates it.
///
/// What the clock reads is the machine's: what is done with the reading is
/// `millis_since`.
pub fn now() -> u64 {
    let since = match since_epoch(&wall_clock()) {
        Some(d) => Some(whole_millis(&d)),
        None => None,
    };
    millis_since(since)
}

/// Seconds since the epoch, or 0 on a clock that predates it.
///
/// Only ever compared against other values from here, so a clock that is
/// wrong costs an ordering and nothing else. What is done with the reading
/// is `secs_since`.
pub fn unix_now() -> i64 {
    let since = match since_epoch(&wall_clock()) {
        Some(d) => Some(whole_secs(&d)),
        None => None,
    };
    secs_since(since)
}

} // verus!
