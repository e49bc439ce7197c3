//! The wall clock, read in whole seconds since the Unix epoch.
use vstd::prelude::*;
use std::time::{Duration, SystemTime};

verus! {

#[verifier::external_type_specification]
#[verifier::external_body]
pub struct ExSystemTime(SystemTime);

/// `SystemTime::now`: the system clock's current reading. It depends on the machine and
/// the moment, so nothing is stated of it.
#[verifier::external_body]
fn system_time_now() -> SystemTime {
    SystemTime::now()
}

/// `SystemTime::duration_since(UNIX_EPOCH)`: the time elapsed since the epoch, or `None`
/// where the reading lies before it. Nothing more is stated of the value.
#[verifier::external_body]
fn elapsed_since_unix_epoch(t: &SystemTime) -> Option<Duration> {
    t.duration_since(std::time::UNIX_EPOCH).ok()
}

/// `Duration::as_secs`: the whole seconds of a duration. `Duration` is opaque here, so
/// nothing is stated of the value.
#[verifier::external_body]
fn whole_seconds(d: &Duration) -> u64 {
    d.as_secs()
}

/// Seconds since the Unix epoch by the system clock; 0 where the clock reads earlier.
pub fn current_unix_timestamp() -> u64 {
    let t = system_time_now();
    match elapsed_since_unix_epoch(&t) {
        Some(d) => whole_seconds(&d),
        None => 0,
    }
}

} // verus!
