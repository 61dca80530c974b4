//! Flight-path prediction for high-altitude balloons.
//!
//! The library integrates a balloon's position forward through a layered
//! wind field, either ascending to a burst altitude and descending to the
//! ground (the standard profile) or drifting freely for a fixed duration
//! (the ValBal float profile), and serializes the resulting trajectory.

pub mod point;
pub mod wind;
pub mod predictor;
pub mod codec;
