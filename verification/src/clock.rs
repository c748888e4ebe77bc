use vstd::prelude::*;

verus! {

#[verifier::external_type_specification]
#[verifier::external_body]
pub struct ExInstant(std::time::Instant);

/// Relies on `std::time::Instant::now`: a reading of the host's monotonic
/// clock.  The value is opaque; only `elapsed_ns` gives it meaning.
#[verifier::external_body]
pub(crate) fn now() -> std::time::Instant {
    std::time::Instant::now()
}

/// Relies on `std::time::Instant::elapsed`: the time since `since` was
/// captured, here converted to nanoseconds.  The result depends on the moment
/// of the call, so nothing is promised of it; callers state what holds of
/// every value that may come back.
#[verifier::external_body]
pub(crate) fn elapsed_ns(since: &std::time::Instant) -> u64 {
    since.elapsed().as_nanos() as u64
}

} // verus!
