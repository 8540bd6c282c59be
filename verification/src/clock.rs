//! The wall clock.

use vstd::prelude::*;

verus! {

/// Seconds since the Unix epoch (0 if the clock is set before it). Nothing
/// is promised of the value: it is the time of the call.
#[verifier::external_body]
pub fn now_secs() -> u64 {
    std::time::SystemTime::now().duration_since(std::time::UNIX_EPOCH).map(|d| d.as_secs()).unwrap_or(0)
}

} // verus!
