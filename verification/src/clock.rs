//! The wall clock.

use vstd::prelude::*;

verus! {

/// Reads `std::time::SystemTime::now` as whole seconds since the Unix
/// epoch. Nothing is claimed of the result: two readings may differ in
/// either direction. A clock set before the epoch reads as 0.
#[verifier::external_body]
pub(crate) fn current_timestamp() -> (now: u64) {
    match std::time::SystemTime::now().duration_since(std::time::UNIX_EPOCH) {
        Ok(since) => since.as_secs(),
        Err(_) => 0,
    }
}

} // verus!
