//! Putting every camera on the same clock.
//!
//! Cameras do not agree about when anything happened. They run at different
//! rates, their frames arrive on no particular phase, and each one hands its
//! frames over a different amount late. So the fusion clock picks an instant and
//! asks every camera what it saw *then*, which is answered from the two frames
//! either side of it.

use vstd::prelude::*;

use crate::models::{listed, present, refers, Joint, JointMap, JOINTS};
use crate::pipeline::{Keypoint, PoseFrame};
use crate::scalar::Scalar;
use crate::time::{since, Duration, Instant};

verus! {

/// One camera's keypoints as they were at the fusion tick.
#[derive(Debug, Clone)]
pub struct Aligned {
    pub joints: JointMap<AlignedJoint>,
    /// How far past the earlier frame the tick fell.
    pub into: Duration,
    /// Distance from the tick to the nearer of the two frames it fell between.
    pub gap: Duration,
    /// How far apart those two frames were, which is this camera's frame
    /// interval unless it dropped one.
    pub bracket: Duration,
}

/// One joint, resampled onto the tick.
#[derive(Debug, Clone, Copy, PartialEq, Eq, Structural)]
pub struct AlignedJoint {
    pub placed: Placement,
    /// How sure the model was. Of a joint between two frames, the weaker end:
    /// the interpolation is only as sound as the shakier observation it rests
    /// on.
    pub confidence: Scalar,
}

/// How a joint's place at the tick is found.
#[derive(Debug, Clone, Copy, PartialEq, Eq, Structural)]
pub enum Placement {
    /// Along the line between where both frames saw it.
    Blended { from: Keypoint, to: Keypoint },
    /// Where the only frame that has it saw it, held across the reach to that
    /// frame. Using it keeps a camera's vote on a joint the others may not see
    /// at all.
    Held { seen: Keypoint, reach: Duration },
}

/// How long the two frames are apart.
pub open spec fn bracket_of(before: PoseFrame, after: PoseFrame) -> int {
    since(after.captured_at, before.captured_at)
}

/// How far the tick is from the later frame.
pub open spec fn left_of(before: PoseFrame, after: PoseFrame, at: Instant) -> int {
    let into = since(at, before.captured_at);
    if bracket_of(before, after) >= into {
        bracket_of(before, after) - into
    } else {
        0
    }
}

/// One joint at the tick, from what the two frames have of it.
pub open spec fn resampled(
    start: Option<Keypoint>,
    end: Option<Keypoint>,
    into: Duration,
    left: Duration,
) -> Option<AlignedJoint> {
    match (start, end) {
        (Some(from), Some(to)) => Some(
            AlignedJoint {
                placed: Placement::Blended { from, to },
                confidence: from.confidence.smaller(to.confidence),
            },
        ),
        (Some(seen), None) => Some(
            AlignedJoint {
                placed: Placement::Held { seen, reach: into },
                confidence: seen.confidence,
            },
        ),
        (None, Some(seen)) => Some(
            AlignedJoint {
                placed: Placement::Held { seen, reach: left },
                confidence: seen.confidence,
            },
        ),
        (None, None) => None,
    }
}

/// Resamples a camera's keypoints at `at`, between the two frames that bracket
/// it.
///
/// `at` is expected to lie within `[before, after]`; a caller that has no
/// bracketing pair has nothing to align and should skip the camera for this
/// tick rather than reach for the nearest frame.
pub fn align(before: &PoseFrame, after: &PoseFrame, at: Instant) -> (aligned: Aligned)
    ensures
        aligned.bracket.nanos == bracket_of(*before, *after),
        aligned.into.nanos == since(at, before.captured_at),
        aligned.gap.nanos == if aligned.into.nanos <= left_of(*before, *after, at) {
            aligned.into.nanos as int
        } else {
            left_of(*before, *after, at)
        },
        forall|i: int|
            0 <= i < JOINTS ==> #[trigger] aligned.joints@[i] == resampled(
                before.keypoints@[i],
                after.keypoints@[i],
                aligned.into,
                Duration { nanos: left_of(*before, *after, at) as u64 },
            ),
{
    let bracket: Duration = after.captured_at.saturating_duration_since(before.captured_at);
    let into: Duration = at.saturating_duration_since(before.captured_at);
    let left: Duration = bracket.saturating_sub(into);
    let gap: Duration = into.shorter(left);
    let mut joints: JointMap<AlignedJoint> = JointMap::empty();
    let mut i: usize = 0;
    while i < JOINTS
        invariant
            i <= JOINTS,
            forall|k: int|
                0 <= k < i ==> #[trigger] joints@[k] == resampled(
                    before.keypoints@[k],
                    after.keypoints@[k],
                    into,
                    left,
                ),
            forall|k: int| i <= k < JOINTS ==> #[trigger] joints@[k] is None,
        decreases JOINTS - i,
    {
        let joint: Joint = Joint::ALL[i];
        proof {
            crate::models::all_joints_stand_at_their_index(joint);
        }
        let ghost so_far = joints@;
        match (before.keypoints.get(joint), after.keypoints.get(joint)) {
            (Some(from), Some(to)) => {
                joints.set(
                    joint,
                    AlignedJoint {
                        placed: Placement::Blended { from: *from, to: *to },
                        confidence: from.confidence.min(to.confidence),
                    },
                );
            },
            (Some(seen), None) => {
                joints.set(
                    joint,
                    AlignedJoint {
                        placed: Placement::Held { seen: *seen, reach: into },
                        confidence: seen.confidence,
                    },
                );
            },
            (None, Some(seen)) => {
                joints.set(
                    joint,
                    AlignedJoint {
                        placed: Placement::Held { seen: *seen, reach: left },
                        confidence: seen.confidence,
                    },
                );
            },
            (None, None) => {},
        }
        i = i + 1;
    }
    Aligned { joints, into, gap, bracket }
}

impl Aligned {
    /// A joint at the tick, if either frame had it.
    pub fn get(&self, joint: Joint) -> (seen: Option<AlignedJoint>)
        ensures
            seen == self.joints@[joint.place()],
    {
        match self.joints.get(joint) {
            Some(seen) => Some(*seen),
            None => None,
        }
    }

    /// The joints either frame had, in order.
    pub fn iter(&self) -> (list: Vec<(Joint, AlignedJoint)>)
        ensures
            list@ == listed(self.joints@, JOINTS as nat),
    {
        let kept = self.joints.iter();
        let mut list: Vec<(Joint, AlignedJoint)> = Vec::new();
        let mut i: usize = 0;
        while i < kept.len()
            invariant
                i <= kept.len(),
                refers(kept@, listed(self.joints@, JOINTS as nat)),
                list@ == listed(self.joints@, JOINTS as nat).take(i as int),
            decreases kept.len() - i,
        {
            let (joint, value): (Joint, &AlignedJoint) = kept[i];
            list.push((joint, *value));
            proof {
                let whole = listed(self.joints@, JOINTS as nat);
                assert(kept@[i as int].0 == whole[i as int].0);
                assert(list@ =~= whole.take(i + 1));
            }
            i = i + 1;
        }
        proof {
            assert(list@ =~= listed(self.joints@, JOINTS as nat));
        }
        list
    }

    /// How many joints either frame had.
    pub fn count(&self) -> (count: usize)
        ensures
            count == present(self.joints@),
    {
        self.joints.count()
    }

    /// Whether neither frame had a joint.
    pub fn is_empty(&self) -> (empty: bool)
        ensures
            empty == (present(self.joints@) == 0),
    {
        self.joints.is_empty()
    }
}

/// The tick is at most half a bracket from the nearer frame, and no distance at
/// all from a frame it lands on.
pub proof fn the_nearer_frame_is_within_half_a_bracket(
    before: PoseFrame,
    after: PoseFrame,
    at: Instant,
)
    requires
        before.captured_at.nanos <= at.nanos <= after.captured_at.nanos,
    ensures
        ({
            let into = since(at, before.captured_at);
            let left = left_of(before, after, at);
            let gap = if into <= left {
                into
            } else {
                left
            };
            &&& 2 * gap <= bracket_of(before, after)
            &&& at == before.captured_at || at == after.captured_at ==> gap == 0
            &&& into + left == bracket_of(before, after)
        }),
{
}

/// A joint that both frames have lies between the two, as sure as the less sure of
/// them; one that a single frame has is held there, as sure as it was; and one that
/// neither has is not there.
pub proof fn a_joint_lies_between_the_frames_that_have_it(
    start: Option<Keypoint>,
    end: Option<Keypoint>,
    into: Duration,
    left: Duration,
)
    ensures
        ({
            let out = resampled(start, end, into, left);
            &&& out is Some <==> start is Some || end is Some
            &&& start is Some && end is Some ==> out->0.placed == (Placement::Blended {
                from: start->0,
                to: end->0,
            })
            &&& start is Some && end is Some && !start->0.confidence.nan()
                && !end->0.confidence.nan() ==> out->0.confidence.at_most(start->0.confidence)
                && out->0.confidence.at_most(end->0.confidence) && (out->0.confidence
                == start->0.confidence || out->0.confidence == end->0.confidence)
            &&& start is Some && end is None ==> out->0.placed == (Placement::Held {
                seen: start->0,
                reach: into,
            }) && out->0.confidence == start->0.confidence
            &&& start is None && end is Some ==> out->0.placed == (Placement::Held {
                seen: end->0,
                reach: left,
            }) && out->0.confidence == end->0.confidence
        }),
{
}

/// Between two frames, the time into the gap and the time left of it are those since
/// the one and until the other.
pub proof fn the_gap_is_split_where_the_tick_is(before: PoseFrame, after: PoseFrame, at: Instant)
    requires
        before.captured_at.nanos <= at.nanos <= after.captured_at.nanos,
    ensures
        bracket_of(before, after) == after.captured_at.nanos - before.captured_at.nanos,
        left_of(before, after, at) == after.captured_at.nanos - at.nanos,
        since(at, before.captured_at) == at.nanos - before.captured_at.nanos,
{
}

} // verus!
