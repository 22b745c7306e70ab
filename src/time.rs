use std::time::{Duration, Instant};
use vstd::prelude::*;

verus! {

/// std's `Instant`, held opaquely.
#[verifier::external_type_specification]
#[verifier::external_body]
pub struct ExInstant(Instant);

/// Relies on `Instant::now`: a reading of the monotonic clock. Nothing is
/// promised of its value.
pub assume_specification[ Instant::now ]() -> Instant;

/// Relies on `Instant::elapsed`: the time since `i`, zero if the clock has
/// not moved. Nothing is promised of its value.
pub assume_specification[ Instant::elapsed ](i: &Instant) -> Duration;

/// What a call returned, with how long it took.
pub struct Timed<T> {
    pub duration: Duration,
    pub result: T,
}

/// Calls `function` once and returns its result together with the time the
/// call took on the monotonic clock.
pub fn execute_and_time<U, F: Fn() -> U>(function: F) -> (r: Timed<U>)
    requires
        function.requires(()),
    ensures
        function.ensures((), r.result),
{
    let start = Instant::now();
    let result = function();
    Timed { duration: start.elapsed(), result }
}

} // verus!
