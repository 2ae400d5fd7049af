//! What the per-camera inference hands over.

use vstd::prelude::*;

use crate::models::JointMap;
use crate::scalar::Scalar;
use crate::time::Instant;

verus! {

/// Where a pose model saw a joint, in pixels, and how sure it was.
#[derive(Debug, Clone, Copy, PartialEq, Eq, Structural)]
pub struct Keypoint {
    pub x: Scalar,
    pub y: Scalar,
    pub confidence: Scalar,
}

/// One camera's keypoints at one frame.
#[derive(Debug, Clone)]
pub struct PoseFrame {
    pub seq: u64,
    /// When the frame arrived.
    pub captured_at: Instant,
    pub width: u32,
    pub height: u32,
    pub keypoints: JointMap<Keypoint>,
}

} // verus!
