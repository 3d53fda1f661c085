//! Timing configuration of a Raft node.

use vstd::prelude::*;
use rand::Rng;

verus! {

/// Election and heartbeat timings, in milliseconds.
#[derive(Debug)]
pub struct Config {
    pub election_timeout_min: u64,
    pub election_timeout_max: u64,
    pub heartbeat_interval: u64,
}

/// Draws a number from `low..high` with `rand`'s thread-local generator,
/// that is `rand::thread_rng().gen_range(low..high)`.
/// Claimed of it: the result lies in the half-open range, as `gen_range`
/// documents for a non-empty range. `gen_range` panics on an empty range,
/// hence `low < high` is required. Which value comes back is left open.
#[verifier::external_body]
fn random_in_range(low: u64, high: u64) -> (r: u64)
    requires
        low < high,
    ensures
        low <= r < high,
{
    rand::thread_rng().gen_range(low..high)
}

impl Config {
    /// A fresh random election timeout in `election_timeout_min..election_timeout_max`.
    pub fn new_rand_election_timeout(&self) -> (timeout: u64)
        requires
            self.election_timeout_min < self.election_timeout_max,
        ensures
            self.election_timeout_min <= timeout < self.election_timeout_max,
    {
        random_in_range(self.election_timeout_min, self.election_timeout_max)
    }

    pub fn new(election_timeout_min: u64, election_timeout_max: u64, heartbeat_interval: u64) -> (config: Self)
        ensures
            config.election_timeout_min == election_timeout_min,
            config.election_timeout_max == election_timeout_max,
            config.heartbeat_interval == heartbeat_interval,
    {
        Self { election_timeout_min, election_timeout_max, heartbeat_interval }
    }
}

} // verus!
