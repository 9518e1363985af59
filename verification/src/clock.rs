//! Readings of the system clock and fresh random hashing keys: the outside
//! calls behind the library's time stamps and random ids.
use std::collections::hash_map::RandomState;
use std::time::{Duration, SystemTime, SystemTimeError, UNIX_EPOCH};
use vstd::prelude::*;

verus! {

#[verifier::external_type_specification]
#[verifier::external_body]
pub struct ExSystemTime(SystemTime);

#[verifier::external_type_specification]
#[verifier::external_body]
pub struct ExSystemTimeError(SystemTimeError);

/// The system clock now (std's `SystemTime::now`); it depends on the clock.
#[verifier::external_body]
pub(crate) fn system_now() -> (r: SystemTime) {
    SystemTime::now()
}

/// How long after the Unix epoch `t` lies (std's
/// `SystemTime::duration_since`), or std's error when `t` is before it.
#[verifier::external_body]
pub(crate) fn since_epoch(t: &SystemTime) -> (r: Result<Duration, SystemTimeError>) {
    t.duration_since(UNIX_EPOCH)
}

/// The text of a clock error (std's `Display`, through `to_string`).
#[verifier::external_body]
pub(crate) fn clock_error_text(e: &SystemTimeError) -> (r: String) {
    e.to_string()
}

/// Whole seconds of a duration (std's `Duration::as_secs`).
#[verifier::external_body]
pub(crate) fn duration_as_secs(d: &Duration) -> (r: u64) {
    d.as_secs()
}

/// Whole nanoseconds of a duration (std's `Duration::as_nanos`).
#[verifier::external_body]
pub(crate) fn duration_as_nanos(d: &Duration) -> (r: u128) {
    d.as_nanos()
}

/// The microseconds past the whole seconds of a duration (std's
/// `Duration::subsec_micros`), which std documents as below one million.
#[verifier::external_body]
pub(crate) fn duration_subsec_micros(d: &Duration) -> (r: u32)
    ensures
        r < 1_000_000,
{
    d.subsec_micros()
}

/// Freshly seeded hashing keys (std's `RandomState::new`); they depend on
/// chance.
#[verifier::external_body]
pub(crate) fn fresh_random_state() -> (r: RandomState) {
    RandomState::new()
}

/// `x` hashed under the keys of `s` (std's `BuildHasher::hash_one`).
#[verifier::external_body]
pub(crate) fn hash_with(s: &RandomState, x: u64) -> (r: u64) {
    std::hash::BuildHasher::hash_one(s, x)
}

} // verus!
