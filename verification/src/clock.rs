use vstd::prelude::*;
use std::time::{Duration, Instant, SystemTime, SystemTimeError, UNIX_EPOCH};

verus! {

#[verifier::external_type_specification]
#[verifier::external_body]
pub struct ExInstant(Instant);

#[verifier::external_type_specification]
#[verifier::external_body]
pub struct ExSystemTime(SystemTime);

#[verifier::external_type_specification]
#[verifier::external_body]
pub struct ExSystemTimeError(SystemTimeError);

/// `std::time::Instant::now`: the current monotonic instant. Nothing is
/// claimed of it.
#[verifier::external_body]
pub(crate) fn instant_now() -> Instant {
    Instant::now()
}

/// `std::time::Instant::elapsed`: the time since `since`, as the machine's
/// clock says. Nothing is claimed of it.
#[verifier::external_body]
fn instant_elapsed(since: &Instant) -> Duration {
    since.elapsed()
}

/// `std::time::Duration::as_millis`: the whole milliseconds in `d`. Nothing
/// is claimed of it, `Duration` being opaque here.
#[verifier::external_body]
fn duration_millis(d: &Duration) -> u128 {
    d.as_millis()
}

/// `std::time::SystemTime::now`: the wall clock. Nothing is claimed of it.
#[verifier::external_body]
fn system_now() -> SystemTime {
    SystemTime::now()
}

/// `std::time::SystemTime::duration_since` from the Unix epoch: `Ok` with
/// the distance when `t` is not before the epoch, else an error. Nothing is
/// claimed of it.
#[verifier::external_body]
fn since_unix_epoch(t: &SystemTime) -> Result<Duration, SystemTimeError> {
    t.duration_since(UNIX_EPOCH)
}

/// `std::time::SystemTimeError::duration`: how far before the epoch the
/// clock read. Nothing is claimed of it.
#[verifier::external_body]
fn time_error_duration(e: &SystemTimeError) -> Duration {
    e.duration()
}

/// `ms` as an `i64`, saturating at `i64::MAX`.
fn clamp_millis(ms: u128) -> (r: i64)
    ensures
        r == (if ms > i64::MAX { i64::MAX as int } else { ms as int }),
{
    if ms > i64::MAX as u128 {
        i64::MAX
    } else {
        ms as i64
    }
}

/// The milliseconds since `since`, by the machine's monotonic clock,
/// saturating at `u64::MAX`.
pub(crate) fn elapsed_millis(since: &Instant) -> u64 {
    let ms = duration_millis(&instant_elapsed(since));
    if ms > u64::MAX as u128 {
        u64::MAX
    } else {
        ms as u64
    }
}

/// The wall clock as Unix time in milliseconds: negative before the epoch,
/// saturating at the range of `i64`. What the clock reads is not stated.
pub fn now_unix_millis() -> i64 {
    match since_unix_epoch(&system_now()) {
        Ok(d) => clamp_millis(duration_millis(&d)),
        Err(e) => -clamp_millis(duration_millis(&time_error_duration(&e))),
    }
}

} // verus!
