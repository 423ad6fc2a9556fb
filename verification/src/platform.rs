//! Access to the clock and to the operating system's random number
//! generator. What these calls return depends on the time and on chance, so
//! nothing is promised of their results beyond the ranges that their types
//! document.
use vstd::prelude::*;
use rand::RngCore;
use std::time::{Duration, Instant, SystemTime};

verus! {

#[verifier::external_type_specification]
#[verifier::external_body]
pub struct ExInstant(Instant);

#[verifier::external_type_specification]
#[verifier::external_body]
pub struct ExSystemTime(SystemTime);

/// The largest number of nanoseconds that a `std::time::Duration` holds
/// (`u64::MAX` seconds plus 999 999 999 nanoseconds).
pub open spec fn max_duration_nanos() -> int {
    18446744073709551615999999999
}

/// `std::time::Instant::now`: the current reading of the monotonic clock.
/// Nothing is promised of it.
#[verifier::external_body]
pub(crate) fn instant_now() -> (res: Instant) {
    Instant::now()
}

/// `std::time::Instant::elapsed`: the time that has passed since `origin`.
/// Nothing is promised of it.
#[verifier::external_body]
pub(crate) fn instant_elapsed(origin: &Instant) -> (res: Duration) {
    origin.elapsed()
}

/// `std::time::Duration::as_nanos`: the whole duration in nanoseconds. The
/// contract states only the bound that the type's documented maximum gives.
#[verifier::external_body]
pub(crate) fn duration_as_nanos(d: &Duration) -> (res: u128)
    ensures
        res <= max_duration_nanos(),
{
    d.as_nanos()
}

/// `std::time::SystemTime::now`: the current wall-clock time. Nothing is
/// promised of it.
#[verifier::external_body]
pub(crate) fn system_time_now() -> (res: SystemTime) {
    SystemTime::now()
}

/// `std::time::SystemTime::duration_since` with `UNIX_EPOCH` as the earlier
/// time: `None` when `t` lies before the epoch. Nothing more is promised.
#[verifier::external_body]
pub(crate) fn since_unix_epoch(t: &SystemTime) -> (res: Option<Duration>) {
    t.duration_since(std::time::UNIX_EPOCH).ok()
}

/// `rand::rngs::OsRng::try_fill_bytes` on a 32-byte buffer: 32 bytes from
/// the operating system's generator, or `None` when the generator reports an
/// error. Nothing is promised of the bytes' values or of when it fails.
#[verifier::external_body]
pub(crate) fn random_32_bytes() -> (res: Option<[u8; 32]>) {
    let mut buf = [0u8; 32];
    match rand::rngs::OsRng.try_fill_bytes(&mut buf) {
        Ok(()) => Some(buf),
        Err(_) => None,
    }
}

} // verus!
