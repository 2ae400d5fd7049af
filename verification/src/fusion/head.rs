//! Checking the reconstruction against the one thing in the room that knows
//! where it is.
//!
//! The headset reports its own position continuously and to a millimetre, and
//! the cameras can see the user's head. Those are two independent answers to the
//! same question, and the difference between them is the total error of
//! everything in between.
//!
//! Like the floor, it reports and does not correct.

use std::collections::VecDeque;

use vstd::prelude::*;

use crate::fusion::floor::{remember, remembered};
use crate::fusion::fuse::{FusedJoint, Pose3d};
use crate::geometry::Point3;
use crate::models::Joint;
use crate::order::{pick_ranked, ranked};
use crate::scalar::Scalar;

verus! {

/// Where to look for the head, best first.
///
/// None of these is the headset's own position and no offset is subtracted.
/// What is being asked is not "are these the same point" but "are they the width
/// of a head apart or the width of a room".
pub const HEAD: [Joint; 4] = [Joint::Head, Joint::Nose, Joint::Neck, Joint::LeftEye];

/// 0.08
const MAX_SIGMA: u64 = 0x3fb4_7ae1_47ae_147b;

/// 0.3
const TOLERANCE: u64 = 0x3fd3_3333_3333_3333;

/// What the meter accepts.
#[derive(Debug, Clone, Copy, PartialEq, Eq, Structural)]
pub struct HeadOptions {
    /// Positional uncertainty a head keypoint must be under to count, in
    /// metres.
    pub max_sigma: Scalar,
    /// Samples kept, at the fusion rate.
    pub capacity: usize,
    /// Samples needed before the estimate is offered at all.
    pub min_samples: usize,
    /// How far the two answers may be apart before it is worth saying
    /// something, in metres.
    pub tolerance: Scalar,
}

impl Default for HeadOptions {
    fn default() -> (options: Self)
        ensures
            options.max_sigma.bits == 0x3fb4_7ae1_47ae_147b,
            options.capacity == 300,
            options.min_samples == 60,
            options.tolerance.bits == 0x3fd3_3333_3333_3333,
    {
        HeadOptions {
            max_sigma: Scalar::from_bits(MAX_SIGMA),
            capacity: 300,
            min_samples: 60,
            tolerance: Scalar::from_bits(TOLERANCE),
        }
    }
}

/// The first head joint from place `n` on that was located well enough.
pub open spec fn head_from(joints: Seq<Option<FusedJoint>>, max_sigma: Scalar, n: int) -> Option<
    Point3,
>
    decreases 4 - n,
{
    if n >= 4 {
        None
    } else {
        match joints[HEAD@[n].place()] {
            Some(seen) => if seen.sigma.at_most(max_sigma) {
                Some(seen.point)
            } else {
                head_from(joints, max_sigma, n + 1)
            },
            None => head_from(joints, max_sigma, n + 1),
        }
    }
}

/// Watches how far the reconstructed head is from the headset.
#[derive(Debug, Clone)]
pub struct HeadMeter {
    pub options: HeadOptions,
    /// Reconstructed head minus headset, per tick, in metres.
    pub offsets: VecDeque<Point3>,
}

impl Default for HeadMeter {
    fn default() -> (meter: Self)
        ensures
            meter.options.max_sigma.bits == 0x3fb4_7ae1_47ae_147b,
            meter.options.capacity == 300,
            meter.options.min_samples == 60,
            meter.options.tolerance.bits == 0x3fd3_3333_3333_3333,
            meter.offsets@.len() == 0,
    {
        Self::new(HeadOptions::default())
    }
}

/// One coordinate of every offset.
pub open spec fn axis(offsets: Seq<Point3>, which: int) -> Seq<Scalar> {
    offsets.map_values(|offset: Point3| coordinate(offset, which))
}

/// One coordinate of an offset.
pub open spec fn coordinate(offset: Point3, which: int) -> Scalar {
    if which == 0 {
        offset.x
    } else if which == 1 {
        offset.y
    } else {
        offset.z
    }
}

impl HeadMeter {
    /// A meter that has seen nothing.
    pub fn new(options: HeadOptions) -> (meter: Self)
        ensures
            meter.options == options,
            meter.offsets@.len() == 0,
    {
        HeadMeter { options, offsets: VecDeque::new() }
    }

    /// Forgets what was seen.
    pub fn reset(&mut self)
        ensures
            final(self).options == old(self).options,
            final(self).offsets@.len() == 0,
    {
        self.offsets.clear();
    }

    /// Where the head was reconstructed on one tick, if it was located well
    /// enough to say.
    ///
    /// The *raw* reconstruction, never the fitted one: the fit places what
    /// nothing saw, and comparing an invented head against the headset measures
    /// the fit rather than the room.
    pub fn locate(&self, pose: &Pose3d) -> (head: Option<Point3>)
        ensures
            head == head_from(pose.joints@, self.options.max_sigma, 0),
    {
        let mut i: usize = 0;
        while i < 4
            invariant
                i <= 4,
                head_from(pose.joints@, self.options.max_sigma, 0) == head_from(
                    pose.joints@,
                    self.options.max_sigma,
                    i as int,
                ),
            decreases 4 - i,
        {
            let joint: Joint = HEAD[i];
            if let Some(seen) = pose.get(joint) {
                if seen.sigma.le(self.options.max_sigma) {
                    return Some(seen.point);
                }
            }
            i = i + 1;
        }
        None
    }

    /// Records how far the head was from the headset on one tick.
    pub fn observe(&mut self, offset: Point3)
        ensures
            final(self).options == old(self).options,
            final(self).offsets@ == remembered(
                old(self).offsets@,
                old(self).options.capacity as int,
                offset,
            ),
    {
        remember(&mut self.offsets, self.options.capacity, offset);
    }

    fn middle(&self, which: u8) -> (value: Scalar)
        requires
            self.offsets@.len() > 0,
            which < 3,
        ensures
            value == ranked(axis(self.offsets@, which as int), self.offsets@.len() as int / 2),
    {
        let mut values: Vec<Scalar> = Vec::new();
        let mut i: usize = 0;
        while i < self.offsets.len()
            invariant
                i <= self.offsets.len(),
                which < 3,
                values@ == axis(self.offsets@.take(i as int), which as int),
            decreases self.offsets.len() - i,
        {
            let offset: Point3 = self.offsets[i];
            let value: Scalar = match which {
                0 => offset.x,
                1 => offset.y,
                _ => offset.z,
            };
            values.push(value);
            proof {
                assert(values@ =~= axis(self.offsets@.take(i + 1), which as int));
            }
            i = i + 1;
        }
        proof {
            assert(self.offsets@.take(i as int) =~= self.offsets@);
        }
        pick_ranked(&values, values.len() / 2)
    }

    /// The typical offset from the headset to the reconstructed head, in
    /// metres.
    ///
    /// Median per axis, which is the robust version of the average and is what
    /// makes one badly triangulated frame not the verdict. Kept as a vector
    /// rather than a distance because the *direction* is most of the diagnosis.
    pub fn estimate(&self) -> (offset: Option<Point3>)
        requires
            self.offsets@.len() > 0 || self.options.min_samples > 0,
        ensures
            match offset {
                Some(offset) => {
                    &&& self.offsets@.len() >= self.options.min_samples
                    &&& forall|which: int|
                        0 <= which < 3 ==> #[trigger] coordinate(offset, which) == ranked(
                            axis(self.offsets@, which),
                            self.offsets@.len() as int / 2,
                        )
                },
                None => self.offsets@.len() < self.options.min_samples,
            },
    {
        if self.offsets.len() < self.options.min_samples {
            return None;
        }
        Some(Point3 { x: self.middle(0), y: self.middle(1), z: self.middle(2) })
    }

    /// Whether the two answers are far enough apart to matter, given how far the
    /// estimate is from none.
    pub fn disagrees(&self, distance: Scalar) -> (matters: bool)
        ensures
            matters == self.options.tolerance.less(distance),
    {
        self.options.tolerance.lt(distance)
    }

    /// How many ticks the estimate rests on.
    pub fn samples(&self) -> (samples: usize)
        ensures
            samples == self.offsets@.len(),
    {
        self.offsets.len()
    }
}

/// The head is the first of the head, the nose, the neck and the left eye that was
/// located well enough, and there is none where none of them was.
pub proof fn the_head_is_the_best_joint_that_is_sure(
    joints: Seq<Option<FusedJoint>>,
    max_sigma: Scalar,
)
    ensures
        ({
            let sure = |joint: Joint|
                joints[joint.place()] is Some && joints[joint.place()]->0.sigma.at_most(max_sigma);
            head_from(joints, max_sigma, 0) == if sure(Joint::Head) {
                Some(joints[Joint::Head.place()]->0.point)
            } else if sure(Joint::Nose) {
                Some(joints[Joint::Nose.place()]->0.point)
            } else if sure(Joint::Neck) {
                Some(joints[Joint::Neck.place()]->0.point)
            } else if sure(Joint::LeftEye) {
                Some(joints[Joint::LeftEye.place()]->0.point)
            } else {
                None
            }
        }),
{
    reveal_with_fuel(head_from, 6);
    assert(HEAD@[0] == Joint::Head);
    assert(HEAD@[1] == Joint::Nose);
    assert(HEAD@[2] == Joint::Neck);
    assert(HEAD@[3] == Joint::LeftEye);
}

/// The offsets are judged across, up and along, each by itself.
pub proof fn each_axis_is_judged_by_itself(offsets: Seq<Point3>, i: int)
    requires
        0 <= i < offsets.len(),
    ensures
        axis(offsets, 0).len() == offsets.len(),
        axis(offsets, 1).len() == offsets.len(),
        axis(offsets, 2).len() == offsets.len(),
        axis(offsets, 0)[i] == offsets[i].x,
        axis(offsets, 1)[i] == offsets[i].y,
        axis(offsets, 2)[i] == offsets[i].z,
        coordinate(offsets[i], 0) == offsets[i].x,
        coordinate(offsets[i], 1) == offsets[i].y,
        coordinate(offsets[i], 2) == offsets[i].z,
{
}

} // verus!
