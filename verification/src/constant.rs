//! Physical constants of bodies.

use vstd::prelude::*;
use crate::error::SpiceError;

verus! {

/// The name of the standard gravitational parameter in the engine's pool of
/// constants.
pub const GM: &'static str = "GM";

/// The number of values that a gravitational parameter consists of.
pub const GM_DIMENSION: i32 = 1;

/// The number of cubic meters in a cubic kilometer: the engine holds the
/// parameter in cubic kilometers per second squared, callers get cubic
/// meters per second squared.
pub const CUBIC_METERS_PER_CUBIC_KILOMETER: u32 = 1_000_000_000;

/// The standard gravitational parameter of `body`, or the failure to
/// retrieve it. `value` is what the engine returned, brought to cubic meters
/// per second squared, and `failure` is the engine's short diagnostic if its
/// failure flag is set after the retrieval.
pub fn mu<T>(body: i32, value: T, failure: Option<String>) -> (outcome: Result<T, SpiceError>)
    ensures
        outcome == match failure {
            Some(diagnostic) => Err::<T, SpiceError>(
                SpiceError::ConstantUnavailable { body, diagnostic },
            ),
            None => Ok::<T, SpiceError>(value),
        },
{
    match failure {
        Some(diagnostic) => Err(SpiceError::ConstantUnavailable { body, diagnostic }),
        None => Ok(value),
    }
}

} // verus!
