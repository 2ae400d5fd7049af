//! Smoothing what is left, and predicting past the delay.
//!
//! A constant-velocity filter estimates where each joint is and how fast it
//! goes, and the application computes it. What is decided here is when a joint's
//! filter begins, carries on, starts over and is forgotten, which is what keeps
//! a joint that was merely occluded from being thrown across the room, and which
//! joints come out and with what.

use vstd::prelude::*;

use crate::fusion::fit::{Fitted, FittedJoint};
use crate::geometry::Point3;
use crate::models::{
    all_joints_stand_at_their_index, listed, present, refers, Joint, JointMap, JOINTS,
};
use crate::scalar::Scalar;
use crate::time::{since, Duration, Instant};

verus! {

/// 1.2
const MIN_CUTOFF: u64 = 0x3ff3_3333_3333_3333;

/// 4.0
const BETA: u64 = 0x4010_0000_0000_0000;

/// 3.0
const DERIVATIVE_CUTOFF: u64 = 0x4008_0000_0000_0000;

/// 5.0
const AGILITY: u64 = 0x4014_0000_0000_0000;

/// 1.0
const CAUTION: u64 = 0x3ff0_0000_0000_0000;

/// 0.35
const MAX_PREDICTION: u64 = 0x3fd6_6666_6666_6666;

/// The shortest gap that still counts as a time step, in nanoseconds. Two poses
/// stamped at the same instant would divide by zero.
pub const STALLED: u64 = 1_000;

/// 1e-9: the speed below which nothing is moving, in metres per second.
pub const MOVING: u64 = 0x3e11_2e0b_e826_d695;

/// How the filter is tuned.
#[derive(Debug, Clone, Copy, PartialEq, Eq, Structural)]
pub struct FilterOptions {
    /// Lowest cutoff the position filter will use, in hertz. This is what a
    /// motionless joint is smoothed at.
    pub min_cutoff: Scalar,
    /// How fast the cutoff opens up with speed, in hertz per metre per second.
    pub beta: Scalar,
    /// Cutoff of the low pass on the speed that opens the position filter, in
    /// hertz.
    pub derivative_cutoff: Scalar,
    /// Acceleration the constant-velocity model expects to be surprised by, in
    /// metres per second squared.
    pub agility: Scalar,
    /// How much the prediction holds back on a speed it is unsure of, from one
    /// for the full amount down to zero for none.
    pub caution: Scalar,
    /// How far ahead to predict, which should be the end-to-end delay from
    /// exposure to the consumer seeing it.
    pub horizon: Duration,
    /// Largest distance a prediction may extrapolate, in metres.
    pub max_prediction: Scalar,
    /// How long a joint may be missing before its filter is discarded rather
    /// than resumed.
    pub patience: Duration,
    /// Gap in a joint's measurements past which its velocity is thrown away
    /// rather than inferred across the gap.
    pub reacquire: Duration,
}

impl Default for FilterOptions {
    fn default() -> (options: Self)
        ensures
            options.min_cutoff.bits == 0x3ff3_3333_3333_3333,
            options.beta.bits == 0x4010_0000_0000_0000,
            options.derivative_cutoff.bits == 0x4008_0000_0000_0000,
            options.agility.bits == 0x4014_0000_0000_0000,
            options.caution.bits == 0x3ff0_0000_0000_0000,
            options.horizon.nanos == 60_000_000,
            options.max_prediction.bits == 0x3fd6_6666_6666_6666,
            options.patience.nanos == 400_000_000,
            options.reacquire.nanos == 120_000_000,
    {
        FilterOptions {
            min_cutoff: Scalar::from_bits(MIN_CUTOFF),
            beta: Scalar::from_bits(BETA),
            derivative_cutoff: Scalar::from_bits(DERIVATIVE_CUTOFF),
            agility: Scalar::from_bits(AGILITY),
            caution: Scalar::from_bits(CAUTION),
            horizon: Duration::from_millis(60),
            max_prediction: Scalar::from_bits(MAX_PREDICTION),
            patience: Duration::from_millis(400),
            reacquire: Duration::from_millis(120),
        }
    }
}

/// One joint after filtering.
#[derive(Debug, Clone, Copy, PartialEq, Eq, Structural)]
pub struct FilteredJoint {
    /// Smoothed position at the pose's own instant.
    pub point: Point3,
    /// Velocity the prediction is built from, in metres per second.
    pub velocity: Point3,
    /// Where the joint is expected to be one horizon from now. This is what
    /// goes out to the trackers.
    pub predicted: Point3,
    /// How far past the pose's own instant `predicted` looks, in seconds.
    pub lead: Scalar,
    /// Uncertainty the measurement came in with, in metres.
    pub sigma: Scalar,
    /// True when the fit placed this joint rather than the cameras seeing it.
    pub inferred: bool,
}

/// A whole body, filtered and predicted.
#[derive(Debug, Clone)]
pub struct Filtered {
    /// The instant the measurements describe.
    pub at: Instant,
    /// How far ahead the prediction was asked to look.
    pub horizon: Duration,
    /// How far any joint may be extrapolated from where it was measured, in
    /// metres.
    pub limit: Scalar,
    /// The share of the lower body's measured speed the prediction acted on.
    /// `None` when nothing was moving.
    pub reach: Option<Scalar>,
    pub joints: JointMap<FilteredJoint>,
}

impl Filtered {
    /// A body nothing is known of.
    pub fn empty(at: Instant, horizon: Duration) -> (filtered: Self)
        ensures
            filtered.at == at,
            filtered.horizon == horizon,
            filtered.limit.bits == 0x3fd6_6666_6666_6666,
            filtered.reach is None,
            filtered.joints@ == Seq::new(JOINTS as nat, |i: int| None::<FilteredJoint>),
    {
        Filtered {
            at,
            horizon,
            limit: Scalar::from_bits(MAX_PREDICTION),
            reach: None,
            joints: JointMap::empty(),
        }
    }

    /// A joint, if it is tracked.
    pub fn get(&self, joint: Joint) -> (filtered: Option<FilteredJoint>)
        ensures
            filtered == self.joints@[joint.place()],
    {
        match self.joints.get(joint) {
            Some(filtered) => Some(*filtered),
            None => None,
        }
    }

    /// Where a joint is, smoothed.
    pub fn position(&self, joint: Joint) -> (point: Option<Point3>)
        ensures
            point == match self.joints@[joint.place()] {
                Some(filtered) => Some(filtered.point),
                None => None,
            },
    {
        match self.joints.get(joint) {
            Some(filtered) => Some(filtered.point),
            None => None,
        }
    }

    /// Where a joint is expected to be.
    pub fn predicted(&self, joint: Joint) -> (point: Option<Point3>)
        ensures
            point == match self.joints@[joint.place()] {
                Some(filtered) => Some(filtered.predicted),
                None => None,
            },
    {
        match self.joints.get(joint) {
            Some(filtered) => Some(filtered.predicted),
            None => None,
        }
    }

    /// Records a joint.
    pub fn set(&mut self, joint: Joint, filtered: FilteredJoint)
        ensures
            final(self).joints@ == old(self).joints@.update(joint.place(), Some(filtered)),
            *final(self) == (Filtered { joints: final(self).joints, ..*old(self) }),
    {
        self.joints.set(joint, filtered);
    }

    /// The joints that are followed, in order.
    pub fn iter(&self) -> (list: Vec<(Joint, FilteredJoint)>)
        ensures
            list@ == listed(self.joints@, JOINTS as nat),
    {
        let kept = self.joints.iter();
        let mut list: Vec<(Joint, FilteredJoint)> = Vec::new();
        let mut i: usize = 0;
        while i < kept.len()
            invariant
                i <= kept.len(),
                refers(kept@, listed(self.joints@, JOINTS as nat)),
                list@ == listed(self.joints@, JOINTS as nat).take(i as int),
            decreases kept.len() - i,
        {
            let (joint, value): (Joint, &FilteredJoint) = kept[i];
            list.push((joint, *value));
            proof {
                let whole = listed(self.joints@, JOINTS as nat);
                assert(kept@[i as int].0 == whole[i as int].0);
                assert(list@ =~= whole.take(i + 1));
            }
            i = i + 1;
        }
        proof {
            assert(list@ =~= listed(self.joints@, JOINTS as nat));
        }
        list
    }

    /// How many joints are tracked.
    pub fn count(&self) -> (count: usize)
        ensures
            count == present(self.joints@),
    {
        self.joints.count()
    }

    /// Whether no joint is.
    pub fn is_empty(&self) -> (empty: bool)
        ensures
            empty == (present(self.joints@) == 0),
    {
        self.joints.is_empty()
    }
}

/// What one pose asks of a joint's filter.
#[derive(Debug, Clone, Copy, PartialEq, Eq, Structural)]
pub enum Motion {
    /// Nothing: the joint was not measured and has no filter, or a recent one.
    Rest,
    /// The joint has been gone a while. It is not the same joint when it
    /// returns, so its filter is discarded.
    Forget,
    /// The joint has no filter yet: begin one where it was measured, and take
    /// one nominal step.
    Begin,
    /// The joint was out of sight too long to infer a velocity across the gap:
    /// start over where it was measured, at rest.
    Restart,
    /// One step over this much time.
    Advance(Duration),
    /// One nominal step, the clock not having moved.
    Nudge,
}

/// What one pose asks of a joint's filter.
pub open spec fn motion(
    last: Option<Instant>,
    measured: bool,
    at: Instant,
    options: FilterOptions,
) -> Motion {
    match last {
        None => if measured {
            Motion::Begin
        } else {
            Motion::Rest
        },
        Some(last) => if !measured {
            if since(at, last) > options.patience.nanos {
                Motion::Forget
            } else {
                Motion::Rest
            }
        } else if since(at, last) > options.reacquire.nanos {
            Motion::Restart
        } else if since(at, last) > STALLED {
            Motion::Advance(Duration { nanos: since(at, last) as u64 })
        } else {
            Motion::Nudge
        },
    }
}

/// When a joint's filter was last stepped, after one more pose.
pub open spec fn stepped(last: Option<Instant>, asked: Motion, at: Instant) -> Option<Instant> {
    match asked {
        Motion::Rest => last,
        Motion::Forget => None,
        _ => Some(at),
    }
}

/// How much of the speed a joint was measured to have the prediction acted on.
///
/// The two numbers are kept apart rather than divided, because they are summed
/// over the body before the ratio means anything.
#[derive(Debug, Clone, Copy, PartialEq, Eq, Structural)]
pub struct Reach {
    /// Speed that was estimated, in metres per second.
    pub measured: Scalar,
    /// Speed the prediction was allowed to use, in metres per second.
    pub acted_on: Scalar,
}

/// What one step of a joint's filter comes to.
#[derive(Debug, Clone, Copy, PartialEq, Eq, Structural)]
pub struct Stepped {
    /// Smoothed position.
    pub point: Point3,
    pub velocity: Point3,
    pub predicted: Point3,
    /// How far ahead the prediction looks, in seconds.
    pub lead: Scalar,
    pub reach: Reach,
}

/// No movement at all.
pub open spec fn stillness() -> Point3 {
    Point3 { x: Scalar { bits: 0 }, y: Scalar { bits: 0 }, z: Scalar { bits: 0 } }
}

/// What comes out for a joint that was measured. One that starts over is where it
/// was seen, at rest, and is expected nowhere else; any other is where its filter
/// has it. `rest` is how far ahead the prediction is asked to look, in seconds.
pub open spec fn filtered_as(
    measured: FittedJoint,
    asked: Motion,
    step: Option<Stepped>,
    rest: Scalar,
) -> FilteredJoint {
    if asked == Motion::Restart {
        FilteredJoint {
            point: measured.point,
            velocity: stillness(),
            predicted: measured.point,
            lead: rest,
            sigma: measured.sigma,
            inferred: measured.inferred,
        }
    } else {
        FilteredJoint {
            point: step->0.point,
            velocity: step->0.velocity,
            predicted: step->0.predicted,
            lead: step->0.lead,
            sigma: measured.sigma,
            inferred: measured.inferred,
        }
    }
}

/// How far a joint's prediction reached. One that starts over has no speed.
pub open spec fn reach_as(asked: Motion, step: Option<Stepped>) -> Reach {
    if asked == Motion::Restart {
        Reach { measured: Scalar { bits: 0 }, acted_on: Scalar { bits: 0 } }
    } else {
        step->0.reach
    }
}

/// How far the predictions of the lower body reached, over the first `n` joints.
pub open spec fn reached_among(
    fitted: Seq<Option<FittedJoint>>,
    asked: Seq<Motion>,
    steps: Seq<Option<Stepped>>,
    n: nat,
) -> Seq<Reach>
    decreases n,
{
    if n == 0 {
        Seq::empty()
    } else {
        let before = reached_among(fitted, asked, steps, (n - 1) as nat);
        if Joint::ALL@[n - 1].lower_body() && fitted[n - 1] is Some {
            before.push(reach_as(asked[n - 1], steps[n - 1]))
        } else {
            before
        }
    }
}

/// Whether every joint that was measured and does not start over was stepped.
pub open spec fn all_stepped(
    fitted: Seq<Option<FittedJoint>>,
    asked: Seq<Motion>,
    steps: Seq<Option<Stepped>>,
) -> bool {
    &&& asked.len() == JOINTS
    &&& forall|i: int|
        0 <= i < JOINTS && fitted[i] is Some && #[trigger] asked[i] != Motion::Restart
            ==> steps[i] is Some
}

/// Filters a stream of fitted poses.
#[derive(Debug, Clone)]
pub struct PoseFilter {
    pub options: FilterOptions,
    /// When each joint's filter was last stepped, for the joints that have one.
    pub tracks: JointMap<Instant>,
}

impl PoseFilter {
    /// A filter that has seen nothing.
    pub fn new(options: FilterOptions) -> (filter: Self)
        ensures
            filter.options == options,
            filter.tracks@ == Seq::new(JOINTS as nat, |i: int| None::<Instant>),
    {
        PoseFilter { options, tracks: JointMap::empty() }
    }

    /// How the filter is tuned.
    pub fn options(&self) -> (options: &FilterOptions)
        ensures
            *options == self.options,
    {
        &self.options
    }

    /// Changes how the filter is tuned.
    pub fn set_options(&mut self, options: FilterOptions)
        ensures
            final(self).options == options,
            final(self).tracks == old(self).tracks,
    {
        self.options = options;
    }

    /// Drops every joint's state, so nothing carries across a break.
    pub fn reset(&mut self)
        ensures
            final(self).options == old(self).options,
            final(self).tracks@ == Seq::new(JOINTS as nat, |i: int| None::<Instant>),
    {
        self.tracks = JointMap::empty();
    }

    /// What one joint's filter is to do.
    fn decide(&self, joint: Joint, measured: bool, at: Instant) -> (asked: Motion)
        ensures
            asked == motion(self.tracks@[joint.place()], measured, at, self.options),
    {
        match self.tracks.get(joint) {
            None => if measured {
                Motion::Begin
            } else {
                Motion::Rest
            },
            Some(last) => {
                let gap: Duration = at.saturating_duration_since(*last);
                if !measured {
                    if gap.nanos > self.options.patience.nanos {
                        Motion::Forget
                    } else {
                        Motion::Rest
                    }
                } else if gap.nanos > self.options.reacquire.nanos {
                    Motion::Restart
                } else if gap.nanos > STALLED {
                    Motion::Advance(gap)
                } else {
                    Motion::Nudge
                }
            },
        }
    }

    /// Takes one fitted pose and says, by joint index, what each joint's filter
    /// is to do with it.
    pub fn push(&mut self, fitted: &Fitted) -> (asked: Vec<Motion>)
        ensures
            final(self).options == old(self).options,
            asked@.len() == JOINTS,
            forall|i: int|
                0 <= i < JOINTS ==> #[trigger] asked@[i] == motion(
                    old(self).tracks@[i],
                    fitted.joints@[i] is Some,
                    fitted.at,
                    old(self).options,
                ),
            forall|i: int|
                0 <= i < JOINTS ==> #[trigger] final(self).tracks@[i] == stepped(
                    old(self).tracks@[i],
                    asked@[i],
                    fitted.at,
                ),
    {
        let mut asked: Vec<Motion> = Vec::new();
        let mut kept: JointMap<Instant> = JointMap::empty();
        let mut i: usize = 0;
        while i < JOINTS
            invariant
                i <= JOINTS,
                *self == *old(self),
                asked@.len() == i,
                forall|k: int|
                    0 <= k < i ==> #[trigger] asked@[k] == motion(
                        self.tracks@[k],
                        fitted.joints@[k] is Some,
                        fitted.at,
                        self.options,
                    ),
                forall|k: int|
                    0 <= k < i ==> #[trigger] kept@[k] == stepped(
                        self.tracks@[k],
                        asked@[k],
                        fitted.at,
                    ),
                forall|k: int| i <= k < JOINTS ==> #[trigger] kept@[k] is None,
            decreases JOINTS - i,
        {
            let joint: Joint = Joint::ALL[i];
            proof {
                all_joints_stand_at_their_index(joint);
            }
            let motion: Motion = self.decide(joint, fitted.get(joint).is_some(), fitted.at);
            match motion {
                Motion::Rest => {
                    if let Some(last) = self.tracks.get(joint) {
                        kept.set(joint, *last);
                    }
                },
                Motion::Forget => {},
                _ => {
                    kept.set(joint, fitted.at);
                },
            }
            asked.push(motion);
            i = i + 1;
        }
        self.tracks = kept;
        asked
    }
}

impl PoseFilter {
    /// How far the predictions of the lower body reached, in the order of the
    /// joints.
    ///
    /// Over the lower body only. It is the half the trackers are built from, and
    /// an arm the cameras are unsure about would otherwise report the feet as
    /// timid.
    pub fn reaches(fitted: &Fitted, asked: &Vec<Motion>, steps: &JointMap<Stepped>) -> (reaches: Vec<
        Reach,
    >)
        requires
            all_stepped(fitted.joints@, asked@, steps@),
        ensures
            reaches@ == reached_among(fitted.joints@, asked@, steps@, JOINTS as nat),
    {
        let mut reaches: Vec<Reach> = Vec::new();
        let mut i: usize = 0;
        while i < JOINTS
            invariant
                i <= JOINTS,
                all_stepped(fitted.joints@, asked@, steps@),
                reaches@ == reached_among(fitted.joints@, asked@, steps@, i as nat),
            decreases JOINTS - i,
        {
            let joint: Joint = Joint::ALL[i];
            proof {
                all_joints_stand_at_their_index(joint);
            }
            if joint.is_lower_body() && fitted.get(joint).is_some() {
                if asked[i] == Motion::Restart {
                    let still: Scalar = Scalar::from_bits(0);
                    reaches.push(Reach { measured: still, acted_on: still });
                } else {
                    assert(steps@[i as int] is Some);
                    if let Some(step) = steps.get(joint) {
                        reaches.push(step.reach);
                    }
                }
            }
            i = i + 1;
        }
        reaches
    }

    /// What comes out of the filter: the joints of the pose and no others, each
    /// with the uncertainty it came in with.
    ///
    /// `steps` holds what the joints' filters came to, `rest` the horizon in
    /// seconds, `speed` the sum of the speeds the lower body was measured to have
    /// and `share` the part of it that was acted on.
    pub fn filtered(
        &self,
        fitted: &Fitted,
        asked: &Vec<Motion>,
        steps: &JointMap<Stepped>,
        rest: Scalar,
        speed: Scalar,
        share: Scalar,
    ) -> (out: Filtered)
        requires
            all_stepped(fitted.joints@, asked@, steps@),
        ensures
            out.at == fitted.at,
            out.horizon == self.options.horizon,
            out.limit == self.options.max_prediction,
            out.reach == if Scalar::of(MOVING).less(speed) {
                Some(share)
            } else {
                None
            },
            forall|i: int|
                0 <= i < JOINTS ==> #[trigger] out.joints@[i] == match fitted.joints@[i] {
                    Some(measured) => Some(filtered_as(measured, asked@[i], steps@[i], rest)),
                    None => None,
                },
    {
        let mut out = Filtered::empty(fitted.at, self.options.horizon);
        out.limit = self.options.max_prediction;
        if Scalar::from_bits(MOVING).lt(speed) {
            out.reach = Some(share);
        }
        let ghost begun = out;
        let mut i: usize = 0;
        while i < JOINTS
            invariant
                i <= JOINTS,
                all_stepped(fitted.joints@, asked@, steps@),
                out == (Filtered { joints: out.joints, ..begun }),
                forall|k: int|
                    0 <= k < i ==> #[trigger] out.joints@[k] == match fitted.joints@[k] {
                        Some(measured) => Some(filtered_as(measured, asked@[k], steps@[k], rest)),
                        None => None,
                    },
                forall|k: int| i <= k < JOINTS ==> #[trigger] out.joints@[k] is None,
            decreases JOINTS - i,
        {
            let joint: Joint = Joint::ALL[i];
            proof {
                all_joints_stand_at_their_index(joint);
            }
            if let Some(measured) = fitted.get(joint) {
                let (sigma, inferred): (Scalar, bool) = (measured.sigma, measured.inferred);
                if asked[i] == Motion::Restart {
                    let still: Scalar = Scalar::from_bits(0);
                    out.set(
                        joint,
                        FilteredJoint {
                            point: measured.point,
                            velocity: Point3 { x: still, y: still, z: still },
                            predicted: measured.point,
                            lead: rest,
                            sigma,
                            inferred,
                        },
                    );
                } else {
                    assert(steps@[i as int] is Some);
                    if let Some(step) = steps.get(joint) {
                        out.set(
                            joint,
                            FilteredJoint {
                                point: step.point,
                                velocity: step.velocity,
                                predicted: step.predicted,
                                lead: step.lead,
                                sigma,
                                inferred,
                            },
                        );
                    }
                }
            }
            i = i + 1;
        }
        out
    }
}

/// A joint that comes back after a gap nothing was observed in is where it was
/// seen, does not move, and is not predicted anywhere else.
pub proof fn a_joint_that_comes_back_is_at_rest(
    last: Instant,
    at: Instant,
    options: FilterOptions,
    measured: FittedJoint,
    step: Option<Stepped>,
    rest: Scalar,
)
    requires
        at.nanos - last.nanos > options.reacquire.nanos,
    ensures
        ({
            let asked = motion(Some(last), true, at, options);
            let out = filtered_as(measured, asked, step, rest);
            &&& out.point == measured.point
            &&& out.predicted == measured.point
            &&& out.velocity == stillness()
            &&& reach_as(asked, step).measured == Scalar::of(0)
        }),
{
}

/// A joint absent for longer than the patience is forgotten, so that when it
/// returns its filter begins anew; one that returns after longer than the
/// reacquisition gap starts over at rest; and only a joint seen within that gap
/// is carried on.
pub proof fn no_velocity_is_inferred_across_a_gap(
    last: Instant,
    gone: Instant,
    back: Instant,
    options: FilterOptions,
)
    requires
        last.nanos <= gone.nanos <= back.nanos,
    ensures
        gone.nanos - last.nanos > options.patience.nanos ==> motion(
            stepped(Some(last), motion(Some(last), false, gone, options), gone),
            true,
            back,
            options,
        ) == Motion::Begin,
        gone.nanos - last.nanos <= options.patience.nanos && back.nanos - last.nanos
            > options.reacquire.nanos ==> motion(
            stepped(Some(last), motion(Some(last), false, gone, options), gone),
            true,
            back,
            options,
        ) == Motion::Restart,
        motion(Some(last), true, back, options) is Advance ==> back.nanos - last.nanos
            <= options.reacquire.nanos,
{
}

/// A joint that was measured steps over the time since it was last, unless that is
/// too long to infer a velocity across or no time at all; one with no filter begins
/// one; and one that was not measured is left alone, or forgotten once it has been
/// gone too long.
pub proof fn a_filter_steps_by_the_time_that_passed(
    last: Instant,
    at: Instant,
    options: FilterOptions,
)
    ensures
        ({
            let gap = if at.nanos >= last.nanos {
                at.nanos - last.nanos
            } else {
                0
            };
            let seen = motion(Some(last), true, at, options);
            let unseen = motion(Some(last), false, at, options);
            &&& seen == Motion::Restart <==> gap > options.reacquire.nanos
            &&& seen is Advance <==> 1_000 < gap <= options.reacquire.nanos
            &&& seen is Advance ==> seen == Motion::Advance(Duration { nanos: gap as u64 })
            &&& seen == Motion::Nudge <==> gap <= 1_000 && gap <= options.reacquire.nanos
            &&& unseen == Motion::Forget <==> gap > options.patience.nanos
            &&& unseen == Motion::Rest <==> gap <= options.patience.nanos
            &&& stepped(Some(last), seen, at) == Some(at)
            &&& unseen == Motion::Forget ==> stepped(Some(last), unseen, at) is None
            &&& unseen == Motion::Rest ==> stepped(Some(last), unseen, at) == Some(last)
        }),
        motion(None, true, at, options) == Motion::Begin,
        motion(None, false, at, options) == Motion::Rest,
        stepped(None, Motion::Begin, at) == Some(at),
        stepped(None, Motion::Rest, at) is None,
{
}

/// What comes out of a joint's filter is where it was stepped to, with the
/// uncertainty the measurement came in with.
pub proof fn what_comes_out_is_what_was_stepped(
    measured: FittedJoint,
    asked: Motion,
    step: Stepped,
    rest: Scalar,
)
    requires
        asked != Motion::Restart,
    ensures
        ({
            let out = filtered_as(measured, asked, Some(step), rest);
            &&& out.point == step.point
            &&& out.velocity == step.velocity
            &&& out.predicted == step.predicted
            &&& out.lead == step.lead
            &&& out.sigma == measured.sigma
            &&& out.inferred == measured.inferred
        }),
        reach_as(asked, Some(step)).measured == step.reach.measured,
        reach_as(asked, Some(step)).acted_on == step.reach.acted_on,
        ({
            let out = filtered_as(measured, Motion::Restart, Some(step), rest);
            &&& out.sigma == measured.sigma && out.inferred == measured.inferred && out.lead == rest
            &&& out.point == measured.point && out.predicted == measured.point
            &&& out.velocity.x.bits == 0 && out.velocity.y.bits == 0 && out.velocity.z.bits == 0
        }),
        reach_as(Motion::Restart, Some(step)).measured.bits == 0,
        reach_as(Motion::Restart, Some(step)).acted_on.bits == 0,
{
}

/// The joints of the lower body that were measured count toward the reach, each
/// once and in order, and no other joint does.
pub proof fn the_lower_body_counts_toward_the_reach(
    fitted: Seq<Option<FittedJoint>>,
    asked: Seq<Motion>,
    steps: Seq<Option<Stepped>>,
    n: nat,
)
    ensures
        reached_among(fitted, asked, steps, n) == Seq::new(n, |i: int| i).filter(
            |i: int| Joint::ALL@[i].lower_body() && fitted[i] is Some,
        ).map_values(|i: int| reach_as(asked[i], steps[i])),
    decreases n,
{
    let counts = |i: int| Joint::ALL@[i].lower_body() && fitted[i] is Some;
    let reach = |i: int| reach_as(asked[i], steps[i]);
    let all = Seq::new(n, |i: int| i);
    reveal(Seq::filter);
    if n > 0 {
        the_lower_body_counts_toward_the_reach(fitted, asked, steps, (n - 1) as nat);
        assert(all.drop_last() =~= Seq::new((n - 1) as nat, |i: int| i));
    }
    assert(reached_among(fitted, asked, steps, n) =~= all.filter(counts).map_values(reach));
}

/// A microsecond is too little to step by, and a joint that hardly moves does not reach
/// ahead.
pub proof fn what_counts_as_moving()
    ensures
        STALLED == 1_000,
        MOVING == 0x3e11_2e0b_e826_d695,
{
}

} // verus!
