//! The wall clock.
use std::time::{SystemTime, UNIX_EPOCH};
use vstd::prelude::*;

verus! {

/// Milliseconds since the Unix epoch, from `SystemTime::now`; 0 when the clock
/// reads before the epoch. Nothing is claimed of the value: it is the time.
#[verifier::external_body]
pub fn current_time_ms() -> (r: u64) {
    SystemTime::now().duration_since(UNIX_EPOCH).map(|d| d.as_millis() as u64).unwrap_or(0)
}

} // verus!
