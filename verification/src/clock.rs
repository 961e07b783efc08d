//! Readings of the wall clock. Nothing is promised of the values read: the
//! logic that depends on time takes the reading as an argument.

use std::time::{Duration, SystemTime, UNIX_EPOCH};
use vstd::prelude::*;

verus! {

#[verifier::external_type_specification]
#[verifier::external_body]
pub struct ExSystemTime(SystemTime);

/// Calls `std::time::SystemTime::now`; the instant is carried opaquely.
#[verifier::external_body]
pub(crate) fn system_time_now() -> (r: SystemTime) {
    SystemTime::now()
}

/// Calls `std::time::SystemTime::duration_since` with the Unix epoch: the
/// time elapsed since the epoch, `None` for an instant before it.
#[verifier::external_body]
pub(crate) fn since_epoch(t: &SystemTime) -> (r: Option<Duration>) {
    match t.duration_since(UNIX_EPOCH) {
        Ok(d) => Some(d),
        Err(_) => None,
    }
}

/// What `std::time::Duration::as_millis` gives for `d`: the whole
/// milliseconds it holds.
pub uninterp spec fn millis_of(d: Duration) -> u128;

/// What `std::time::Duration::as_secs` gives for `d`: the whole seconds it holds.
pub uninterp spec fn secs_of(d: Duration) -> u64;

/// What `std::time::Duration::as_nanos` gives for `d`: all the nanoseconds it
/// holds.
pub uninterp spec fn nanos_of(d: Duration) -> u128;

/// Calls `std::time::Duration::as_millis`.
#[verifier::external_body]
pub(crate) fn duration_as_millis(d: &Duration) -> (r: u128)
    ensures
        r == millis_of(*d),
{
    d.as_millis()
}

/// Calls `std::time::Duration::as_nanos`.
#[verifier::external_body]
pub(crate) fn duration_as_nanos(d: &Duration) -> (r: u128)
    ensures
        r == nanos_of(*d),
{
    d.as_nanos()
}

/// Calls `std::time::Duration::as_secs`.
#[verifier::external_body]
pub(crate) fn duration_secs(d: &Duration) -> (r: u64)
    ensures
        r == secs_of(*d),
{
    d.as_secs()
}

/// Calls `std::time::Duration::from_secs`: a duration of exactly `secs`
/// seconds, so `as_secs` gives `secs` back, `as_millis` a thousand times it
/// and `as_nanos` a billion times it.
#[verifier::external_body]
pub(crate) fn duration_from_secs(secs: u64) -> (r: Duration)
    ensures
        secs_of(r) == secs,
        millis_of(r) == secs * 1000,
        nanos_of(r) == secs * 1_000_000_000,
{
    Duration::from_secs(secs)
}

/// Calls `chrono::Utc::now` and returns its `timestamp()`: the whole seconds
/// since the Unix epoch.
#[verifier::external_body]
pub(crate) fn chrono_timestamp_now() -> (r: i64) {
    chrono::Utc::now().timestamp()
}

/// `n` narrowed to 64 bits, `u64::MAX` when it does not fit.
pub fn saturate_u64(n: u128) -> (r: u64)
    ensures
        r == (if n <= u64::MAX { n } else { u64::MAX as u128 }),
{
    if n <= u64::MAX as u128 {
        n as u64
    } else {
        u64::MAX
    }
}

/// The milliseconds in `d`, saturated to `u64::MAX`.
pub(crate) fn duration_millis(d: &Duration) -> (r: u64)
    ensures
        r == (if millis_of(*d) <= u64::MAX { millis_of(*d) } else { u64::MAX as u128 }),
{
    saturate_u64(duration_as_millis(d))
}

/// Milliseconds since the Unix epoch now (0 before the epoch, `u64::MAX` past the range).
pub(crate) fn unix_millis_now() -> u64 {
    let t = system_time_now();
    match since_epoch(&t) {
        Some(d) => duration_millis(&d),
        None => 0,
    }
}

/// Whole seconds since the Unix epoch now (0 before the epoch).
pub(crate) fn unix_secs_now() -> u64 {
    let t = system_time_now();
    match since_epoch(&t) {
        Some(d) => duration_secs(&d),
        None => 0,
    }
}

/// The 16 big-endian bytes of `n`.
pub fn u128_be_bytes(n: u128) -> (b: Vec<u8>)
    ensures
        b@.len() == 16,
        forall|i: int| 0 <= i < 16 ==> #[trigger] b@[i] == (n >> ((8 * (15 - i)) as u128)) as u8,
{
    let mut b: Vec<u8> = Vec::new();
    let mut i: usize = 0;
    while i < 16
        invariant
            i <= 16,
            b@.len() == i,
            forall|j: int| 0 <= j < i ==> #[trigger] b@[j] == (n >> ((8 * (15 - j)) as u128)) as u8,
        decreases 16 - i,
    {
        let shift: u128 = (8 * (15 - i)) as u128;
        #[verifier::truncate]
        let byte = (n >> shift) as u8;
        b.push(byte);
        i = i + 1;
    }
    b
}

/// Nanoseconds since the Unix epoch now (0 before the epoch).
pub(crate) fn unix_nanos_now() -> u128 {
    let t = system_time_now();
    match since_epoch(&t) {
        Some(d) => duration_as_nanos(&d),
        None => 0,
    }
}

/// The nanoseconds since the Unix epoch now, as 16 big-endian bytes (all
/// zero before the epoch).
pub(crate) fn unix_nanos_be_bytes() -> (b: Vec<u8>)
    ensures
        b@.len() == 16,
{
    u128_be_bytes(unix_nanos_now())
}

} // verus!
