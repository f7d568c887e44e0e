//! The system clock, in whole seconds.
use vstd::prelude::*;

verus! {

/// Relies on `std::time::SystemTime::now` and `SystemTime::duration_since`: whole
/// seconds since the Unix epoch, `None` for a clock set before it. Nothing is known of
/// the value.
#[verifier::external_body]
fn clock_seconds() -> (r: Option<u64>) {
    std::time::SystemTime::now().duration_since(std::time::UNIX_EPOCH).ok().map(|d| d.as_secs())
}

/// The current time in whole seconds since the Unix epoch, by the system clock; zero
/// for a clock set before the epoch.
pub fn get_now() -> (r: u64) {
    match clock_seconds() {
        Some(secs) => secs,
        None => 0,
    }
}

} // verus!
