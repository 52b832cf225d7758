//! Reading the clock. The game counts time in nanoseconds since the moment it
//! was set up; the readings come from `std::time`, and nothing is claimed of
//! them: whatever the game does with a reading is proved for every reading.

use vstd::prelude::*;
use std::time::Duration;
use std::time::Instant;

verus! {

/// `std::time::Instant`, a reading of the monotonic clock. Nothing of what it
/// holds is known to the verifier.
#[verifier::external_type_specification]
#[verifier::external_body]
pub struct ExInstant(std::time::Instant);

/// `Instant::now`: the current reading of the clock. Nothing is claimed of it.
pub assume_specification[ Instant::now ]() -> (t: Instant);

/// `Instant::elapsed`: the time that has passed since `t` was read. Nothing is
/// claimed of it.
pub assume_specification[ Instant::elapsed ](t: &Instant) -> (d: Duration);

/// `Duration::as_nanos`: the whole number of nanoseconds in `d`. The duration
/// is opaque here, so nothing is claimed of the number.
pub assume_specification[ Duration::as_nanos ](d: &Duration) -> (n: u128);

} // verus!
