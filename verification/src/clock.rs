//! Wall-clock access for tasks that pace themselves. Time is opaque to
//! every contract: nothing is promised about what the clock returns.

use vstd::prelude::*;

verus! {

#[verifier::external_type_specification]
#[verifier::external_body]
pub struct ExInstant(std::time::Instant);

/// Relies on `std::time::Instant::now`: an opaque monotonic timestamp.
#[verifier::external_body]
pub fn instant_now() -> (t: std::time::Instant) {
    std::time::Instant::now()
}

/// Relies on `std::time::Instant::elapsed`: the whole milliseconds since
/// `t`, truncated to sixty-four bits.
#[verifier::external_body]
pub fn elapsed_millis(t: &std::time::Instant) -> (ms: u64) {
    t.elapsed().as_millis() as u64
}

} // verus!
