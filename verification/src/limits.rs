//! Bounds on the execution of a program.

use vstd::prelude::*;

verus! {

/// The number of calls that may be active at once.
pub const MAX_FRAMES: usize = 256;

/// The number of steps that a run may take.
pub const MAX_CYCLES: u64 = 10_000_000;

/// The bounds of one run.
#[derive(Debug, Clone, Copy)]
pub struct Limits {
    /// The number of calls that may be active at once.
    pub max_frames: usize,
    /// The number of steps that the run may take.
    pub max_cycles: u64,
}

/// The bounds that hold where none are given.
pub open spec fn standard_limits() -> Limits {
    Limits { max_frames: MAX_FRAMES, max_cycles: MAX_CYCLES }
}

impl Default for Limits {
    fn default() -> (r: Self)
        ensures
            r == standard_limits(),
    {
        Limits { max_frames: MAX_FRAMES, max_cycles: MAX_CYCLES }
    }
}

/// Where no bounds are given, 256 calls may be active at once, and a run may take ten million
/// steps.
pub proof fn law_the_standard_bounds()
    ensures
        standard_limits().max_frames == 256,
        standard_limits().max_cycles == 10_000_000,
{
}

} // verus!
