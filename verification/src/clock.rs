//! Wall-clock and operating-system randomness, behind the few calls the server makes.
use vstd::prelude::*;

verus! {

/// Nanoseconds since the Unix epoch (`SystemTime::now().duration_since(UNIX_EPOCH)`),
/// or `None` when the clock reads earlier than the epoch. The value depends on the
/// machine's clock; nothing is promised of it.
#[verifier::external_body]
pub(crate) fn unix_time_nanos() -> Option<u128> {
    match std::time::SystemTime::now().duration_since(std::time::UNIX_EPOCH) {
        Ok(d) => Some(d.as_nanos()),
        Err(_) => None,
    }
}

/// Eight bytes from the operating system's CSPRNG (`getrandom::getrandom`), read as a
/// little-endian `u64`; `None` when the OS source fails. Nothing is promised of the value.
#[verifier::external_body]
pub(crate) fn os_random_u64() -> Option<u64> {
    let mut buf = [0u8; 8];
    match getrandom::getrandom(&mut buf) {
        Ok(()) => Some(u64::from_le_bytes(buf)),
        Err(_) => None,
    }
}

/// Milliseconds since the Unix epoch, 0 when the clock reads earlier than the epoch.
pub fn now_ms() -> u64 {
    match unix_time_nanos() {
        Some(n) => millis_of_nanos(n),
        None => 0,
    }
}

/// Whole milliseconds in `nanos`, truncated to 64 bits.
pub fn millis_of_nanos(nanos: u128) -> (ms: u64)
    ensures
        ms == (nanos / 1_000_000) as u64,
{
    (nanos / 1_000_000) as u64
}

} // verus!
