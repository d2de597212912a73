//! Frame pacing parameters.
//!
//! The engine never measures real time itself; a driver measures the elapsed
//! wall-clock time per tick and sleeps out the remainder of
//! `min_frame_time_in_nanoseconds`, so `update` is called at a roughly
//! constant cadence.

use vstd::prelude::*;

verus! {

/// The fixed cadence a driver should hold the simulation to.
pub struct FramesLimiter {
    pub max_frames_per_second: u32,
    /// The frame budget `1e9 / max_frames_per_second`, rounded down.
    pub min_frame_time_in_nanoseconds: u128,
}

impl FramesLimiter {
    pub fn new(max_frames_per_second: u32) -> (f: FramesLimiter)
        requires
            1 <= max_frames_per_second,
        ensures
            f.max_frames_per_second == max_frames_per_second,
            f.min_frame_time_in_nanoseconds == 1_000_000_000int / max_frames_per_second as int,
    {
        FramesLimiter {
            max_frames_per_second,
            min_frame_time_in_nanoseconds: 1_000_000_000 / (max_frames_per_second as u128),
        }
    }
}

} // verus!
