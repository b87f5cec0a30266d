use vstd::prelude::*;

verus! {

/// Relies on std::time::SystemTime::now: the wall clock in whole seconds since
/// the Unix epoch (zero for a clock set before it). Any value may come back.
#[verifier::external_body]
pub(crate) fn unix_now_secs() -> (r: u64) {
    match std::time::SystemTime::now().duration_since(std::time::UNIX_EPOCH) {
        Ok(d) => d.as_secs(),
        Err(_) => 0,
    }
}

} // verus!
