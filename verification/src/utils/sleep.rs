//! How long to pause between rounds of work.

use crate::random::std_rng_gen_range_u64;
use rand::rngs::StdRng;
use vstd::prelude::*;

verus! {

/// A number of milliseconds drawn from `start_time..=end_time`, for which
/// the caller then sleeps.
pub fn random_duration_millis(rng: &mut StdRng, start_time: u64, end_time: u64) -> (millis: u64)
    requires
        start_time <= end_time,
    ensures
        start_time <= millis <= end_time,
{
    std_rng_gen_range_u64(rng, start_time, end_time)
}

} // verus!
