use vstd::prelude::*;

verus! {

use std::time::{Duration, Instant};

#[verifier::external_type_specification]
#[verifier::external_body]
pub struct ExInstant(Instant);

/// `Instant::elapsed`: the time passed since `start`. It depends on the clock, so
/// nothing is stated of it.
#[verifier::external_body]
fn elapsed(start: &Instant) -> Duration {
    start.elapsed()
}

/// `Duration::as_millis`: the whole milliseconds of a duration. A duration is
/// opaque here, so nothing is stated of the number.
#[verifier::external_body]
fn as_millis(d: &Duration) -> u128 {
    d.as_millis()
}

/// The whole milliseconds passed since `start`; it depends on the clock.
pub fn millis_since(start: &Instant) -> u128 {
    let d = elapsed(start);
    as_millis(&d)
}

} // verus!
