//! The monotonic clock of the standard library.

use vstd::prelude::*;
use std::time::{Duration, Instant};

verus! {

/// `std::time::Instant`, a reading of the monotonic clock. Nothing is known
/// of what it holds.
#[verifier::external_type_specification]
#[verifier::external_body]
pub struct ExInstant(Instant);

/// Calls `Instant::now`. Nothing is claimed of the instant.
#[verifier::external_body]
pub(crate) fn now() -> (instant: Instant) {
    Instant::now()
}

/// Calls `Instant::checked_sub` with a duration of whole seconds: the instant
/// that lies so many seconds before `instant`, if the clock can name it.
/// Nothing is claimed of the result.
#[verifier::external_body]
pub(crate) fn earlier(instant: Instant, seconds: u64) -> (before: Option<Instant>) {
    instant.checked_sub(Duration::from_secs(seconds))
}

/// Calls `Instant::elapsed` and gives the whole seconds of the duration.
/// Nothing is claimed of their number.
#[verifier::external_body]
pub(crate) fn seconds_since(start: &Instant) -> (seconds: u64) {
    start.elapsed().as_secs()
}

} // verus!
