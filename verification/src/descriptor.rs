//! The experiment descriptor: the immutable record of the inputs that make
//! one experiment run unique. The `exp` field is the human label for the
//! experiment kind, the timestamp is captured once at construction, and the
//! remaining fields are ordinary run parameters.

use vstd::prelude::*;
use crate::timestamp::Timestamp;

verus! {

/// One experiment run's identity and parameters.
#[derive(Debug)]
pub struct ExpConfig {
    /// The human label naming the experiment kind.
    pub exp: String,
    /// Seconds each workload iteration takes.
    pub time: u64,
    /// How many workload iterations run.
    pub iterations: u64,
    /// Wall-clock instant the descriptor was constructed.
    pub timestamp: Timestamp,
}

impl ExpConfig {
    /// A descriptor is well formed when its timestamp is a real calendar
    /// instant.
    pub open spec fn wf(self) -> bool {
        self.timestamp.wf()
    }

    /// Builds a descriptor from its fields; the timestamp is fixed here,
    /// once, and never mutated afterwards.
    pub fn new(exp: String, time: u64, iterations: u64, timestamp: Timestamp) -> (r: ExpConfig)
        ensures
            r == (ExpConfig { exp, time, iterations, timestamp }),
            r.wf() <==> timestamp.wf(),
    {
        ExpConfig { exp, time, iterations, timestamp }
    }
}

} // verus!
