//! Values that only the running machine can supply: fresh identifiers and
//! the readings of its clocks. Nothing is claimed of any of them; the
//! functions that use them are verified for every value that may come back.

use vstd::prelude::*;

verus! {

/// A monotonic instant of the machine's clock. Nothing inside it is visible
/// to the verifier.
#[verifier::external_type_specification]
#[verifier::external_body]
pub struct ExInstant(std::time::Instant);

/// Calls `uuid::Uuid::new_v4` and hands the identifier back as the 128-bit
/// number that `Uuid::as_u128` gives. The value is random: no claim is made.
#[verifier::external_body]
pub(crate) fn random_uuid() -> (id: u128) {
    uuid::Uuid::new_v4().as_u128()
}

/// Calls `chrono::Utc::now` and hands back `DateTime::timestamp`, the whole
/// seconds since the Unix epoch. The value is the machine's: no claim is made.
#[verifier::external_body]
pub(crate) fn utc_now_seconds() -> (now: i64) {
    chrono::Utc::now().timestamp()
}

/// Calls `std::time::Instant::now`.
#[verifier::external_body]
pub(crate) fn monotonic_now() -> (now: std::time::Instant) {
    std::time::Instant::now()
}

/// Calls `std::time::Instant::elapsed` and hands back `Duration::as_nanos`,
/// the nanoseconds that have passed since `start`. No claim is made of it.
#[verifier::external_body]
pub(crate) fn elapsed_nanos(start: &std::time::Instant) -> (nanos: u128) {
    start.elapsed().as_nanos()
}

} // verus!
