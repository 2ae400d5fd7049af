//! Camera geometry: what can be said of it without computing in real numbers.
//!
//! Positions and pixels are carried as they were measured; the projections and
//! the linear algebra are the application's.

pub mod lens;
pub mod refine;
pub mod resection;
pub mod triangulate;

use vstd::prelude::*;

use crate::scalar::Scalar;

verus! {

/// A place in an image, in pixels.
#[derive(Debug, Clone, Copy, PartialEq, Eq, Structural)]
pub struct Point2 {
    pub x: Scalar,
    pub y: Scalar,
}

/// A place in the room, in metres: right-handed, with +y up.
#[derive(Debug, Clone, Copy, PartialEq, Eq, Structural)]
pub struct Point3 {
    pub x: Scalar,
    pub y: Scalar,
    pub z: Scalar,
}

} // verus!
