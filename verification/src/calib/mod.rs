//! Calibration: turning a recorded walk into a solved room.
//!
//! The walk is recorded by [`recorder`] and [`walk`], and [`solve`] decides how
//! it is run through resection and joint refinement to produce the cameras.

pub mod latency;
pub mod recorder;
pub mod solve;
pub mod walk;
