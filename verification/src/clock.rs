//! The system clock, read through the standard library.
use vstd::prelude::*;

verus! {

#[verifier::external_type_specification]
#[verifier::external_body]
pub struct ExSystemTime(std::time::SystemTime);

#[verifier::external_type_specification]
#[verifier::external_body]
pub struct ExSystemTimeError(std::time::SystemTimeError);

/// `std::time::SystemTime::now`: the current time; nothing is promised of it.
#[verifier::external_body]
fn system_time_now() -> std::time::SystemTime {
    std::time::SystemTime::now()
}

/// `std::time::SystemTime::duration_since` against the Unix epoch: the time
/// elapsed since 1970-01-01, or an error when the clock is set before it.
#[verifier::external_body]
fn duration_since_unix_epoch(t: &std::time::SystemTime) -> Result<
    core::time::Duration,
    std::time::SystemTimeError,
> {
    t.duration_since(std::time::UNIX_EPOCH)
}

/// `std::time::Duration::as_secs`: the whole seconds of a duration.
#[verifier::external_body]
fn duration_as_secs(d: &core::time::Duration) -> u64 {
    d.as_secs()
}

/// Seconds since the Unix epoch by the system clock, or 0 when the clock is
/// set before the epoch.
/// No contract states the value: it is the clock's reading at the call, and
/// the reading and the epoch test are made on values that Verus cannot see into.
pub fn now_secs() -> u64 {
    let now = system_time_now();
    match duration_since_unix_epoch(&now) {
        Ok(d) => duration_as_secs(&d),
        Err(_) => 0,
    }
}

} // verus!
