//! Random numbers and identifiers. Only the range of each draw is promised.

use vstd::prelude::*;

verus! {

/// Calls `fastrand::u64` on the range `0..bound`; the documentation promises a
/// value inside the range (and a panic on an empty range, excluded here).
#[verifier::external_body]
pub(crate) fn fastrand_u64_below(bound: u64) -> (r: u64)
    requires
        bound > 0,
    ensures
        r < bound,
{
    fastrand::u64(0..bound)
}

/// Calls `fastrand::u8` on the range `0..bound`; the value lies inside the range.
#[verifier::external_body]
pub(crate) fn fastrand_u8_below(bound: u8) -> (r: u8)
    requires
        bound > 0,
    ensures
        r < bound,
{
    fastrand::u8(0..bound)
}

/// Calls `rand::random::<u64>`; any value may come back.
#[verifier::external_body]
pub(crate) fn rand_u64() -> (r: u64) {
    rand::random::<u64>()
}

/// Calls `uuid::Uuid::new_v4` and renders it with `to_string` (the hyphenated
/// form of 36 characters, as the `uuid` documentation gives it).
#[verifier::external_body]
pub(crate) fn new_uuid_string() -> (s: String)
    ensures
        s@.len() == 36,
{
    uuid::Uuid::new_v4().to_string()
}

/// Calls `uuid::Uuid::new_v4` and returns its 16 bytes (`as_bytes`).
#[verifier::external_body]
pub(crate) fn new_uuid_bytes() -> (b: Vec<u8>)
    ensures
        b@.len() == 16,
{
    uuid::Uuid::new_v4().as_bytes().to_vec()
}

} // verus!
