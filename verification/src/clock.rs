//! The wall clock, read as a `Timestamp`.

use std::time::{Duration, SystemTime, UNIX_EPOCH};
use vstd::prelude::*;
use crate::address::Timestamp;

verus! {

#[verifier::external_type_specification]
#[verifier::external_body]
pub struct ExSystemTime(SystemTime);

/// `SystemTime::now`: what the system clock shows. Nothing is claimed of it:
/// the clock may be set at any moment, forwards or backwards.
#[verifier::external_body]
fn system_time() -> (t: SystemTime) {
    SystemTime::now()
}

/// `SystemTime::duration_since` with `UNIX_EPOCH`: how long after the epoch `t`
/// lies, or `None` where it lies before it.
#[verifier::external_body]
fn since_epoch(t: &SystemTime) -> (d: Option<Duration>) {
    match t.duration_since(UNIX_EPOCH) {
        Ok(d) => Some(d),
        Err(_) => None,
    }
}

/// `Duration::as_nanos`: the whole duration in nanoseconds.
#[verifier::external_body]
fn nanoseconds(d: &Duration) -> (n: u128) {
    d.as_nanos()
}

/// The time that the system clock shows, in nanoseconds since the Unix epoch;
/// 0 where the clock is set before the epoch.
pub fn now() -> Timestamp {
    let t = system_time();
    match since_epoch(&t) {
        Some(d) => nanoseconds(&d),
        None => 0,
    }
}

} // verus!
