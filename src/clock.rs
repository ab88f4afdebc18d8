use vstd::prelude::*;

verus! {

/// Relies on std::time::SystemTime::now, read as whole seconds since the Unix
/// epoch (0 for a clock set before it). Nothing is promised of the value.
#[verifier::external_body]
pub(crate) fn unix_now() -> (r: u64) {
    match std::time::SystemTime::now().duration_since(std::time::UNIX_EPOCH) {
        Ok(d) => d.as_secs(),
        Err(_) => 0,
    }
}

} // verus!
