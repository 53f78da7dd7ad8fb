//! How long the runtime waits after a decision before observing again.
use crate::duration::{as_millis, duration_nanos};
use vstd::prelude::*;

verus! {

/// Parameters of the settle phase that waits for a stable or recurrent picture.
#[derive(Clone, Debug, PartialEq, Eq, Structural)]
pub struct QuiescencePolicy {
    pub sample_every_millis: u64,
    pub stable_for_millis: u64,
    pub max_wait_millis: u64,
    pub difference_threshold: u32,
    pub max_cycle_frames: usize,
}

impl Default for QuiescencePolicy {
    fn default() -> (p: QuiescencePolicy)
        ensures
            p == (QuiescencePolicy {
                sample_every_millis: 50,
                stable_for_millis: 200,
                max_wait_millis: 2_000,
                difference_threshold: 100,
                max_cycle_frames: 8,
            }),
    {
        QuiescencePolicy {
            sample_every_millis: 50,
            stable_for_millis: 200,
            max_wait_millis: 2_000,
            difference_threshold: 100,
            max_cycle_frames: 8,
        }
    }
}

/// How the end of a step is decided.
#[derive(Clone, Debug, PartialEq, Eq, Structural)]
pub enum TemporalPolicy {
    FixedDelay { millis: u64 },
    UntilQuiescent(QuiescencePolicy),
    FrozenStep { millis: u64 },
    Manual,
}

impl TemporalPolicy {
    /// A fixed wait of `duration`, kept as whole milliseconds (truncated to 64 bits).
    pub fn fixed_delay(duration: std::time::Duration) -> (p: TemporalPolicy)
        ensures
            p == (TemporalPolicy::FixedDelay {
                millis: (duration_nanos(duration) / 1_000_000) as u64,
            }),
    {
        let millis = as_millis(&duration) as u64;
        TemporalPolicy::FixedDelay { millis }
    }
}

} // verus!
