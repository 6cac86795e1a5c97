use vstd::prelude::*;

verus! {

#[verifier::external_type_specification]
#[verifier::external_body]
pub struct ExInstant(std::time::Instant);

/// Relies on std::time::Instant::now: an opaque reading of the monotonic
/// clock. Nothing is promised of it; every reading is taken as it comes.
#[verifier::external_body]
pub(crate) fn instant_now() -> (t: std::time::Instant) {
    std::time::Instant::now()
}

/// Relies on std::time::Instant::elapsed: the time since the reading, as an
/// opaque duration. Nothing is promised of it.
#[verifier::external_body]
pub(crate) fn instant_elapsed(t: &std::time::Instant) -> (d: std::time::Duration) {
    t.elapsed()
}

/// Relies on std::time::Duration::as_nanos: the duration in whole
/// nanoseconds. Nothing is promised of the value.
#[verifier::external_body]
pub(crate) fn duration_as_nanos(d: &std::time::Duration) -> (n: u128) {
    d.as_nanos()
}

/// Relies on std::time::Duration::as_millis: the duration in whole
/// milliseconds. Nothing is promised of the value.
#[verifier::external_body]
pub(crate) fn duration_as_millis(d: &std::time::Duration) -> (n: u128) {
    d.as_millis()
}

} // verus!
