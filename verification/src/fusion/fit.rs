//! Holding the reconstruction to something a body could do.
//!
//! Triangulation solves each joint on its own, which is what keeps one occluded
//! limb from spoiling the rest, and it means nothing stops the result being
//! anatomically impossible. The fit throws away only the component of the error
//! that is impossible, which costs no lag at all, and it is what lets a joint
//! nobody can currently see be placed from the ones who can.
//!
//! The solver is sequential projection: each constraint is satisfied in turn,
//! repeatedly. Which joints take part, which constraints hold and in what order,
//! and what comes out is decided here; how far a joint moves is computed by the
//! application.

use vstd::prelude::*;

use crate::fusion::bones::{
    bone_at, bones, measured, skeleton_bones, Bone, BoneLength, MeasureOptions, Skeleton,
    BONE_COUNT,
};
use crate::fusion::fuse::{FusedJoint, Pose3d};
use crate::geometry::Point3;
use crate::list::{count_where, increasing};
use crate::list::lemma_filter_step;
use crate::models::{
    all_joints_stand_at_their_index, listed, present, refers, Joint, JointMap, JOINTS,
};
use crate::scalar::Scalar;
use crate::time::Instant;

verus! {

/// 0.5
const FREE_SIGMA: u64 = 0x3fe0_0000_0000_0000;

/// 0.003
const MIN_SIGMA: u64 = 0x3f68_9374_bc6a_7efa;

/// How the fit is run.
#[derive(Debug, Clone, Copy, PartialEq, Eq, Structural)]
pub struct FitOptions {
    /// Passes over the constraint set. Each one satisfies every constraint in
    /// turn, and later passes repair what earlier ones disturbed.
    pub passes: usize,
    /// Height of the floor in the world frame, which the calibration puts at
    /// zero.
    pub floor: Scalar,
    /// Uncertainty given to a joint nothing saw, in metres. Large enough that
    /// it yields to every joint that was actually measured.
    pub free_sigma: Scalar,
    /// Smallest uncertainty a joint is credited with, in metres.
    ///
    /// Without a floor here, one implausibly confident joint would become
    /// immovable and every correction would land on its neighbours.
    pub min_sigma: Scalar,
    /// Whether to keep knees from bending backwards.
    pub limit_knees: bool,
    /// Rules for reading the measured skeleton.
    pub measure: MeasureOptions,
}

impl Default for FitOptions {
    fn default() -> (options: Self)
        ensures
            options.passes == 12,
            options.floor.bits == 0,
            options.free_sigma.bits == 0x3fe0_0000_0000_0000,
            options.min_sigma.bits == 0x3f68_9374_bc6a_7efa,
            options.limit_knees,
            options.measure.max_sigma.bits == 0x3f9e_b851_eb85_1eb8,
            options.measure.min_samples == 120,
            options.measure.max_scatter.bits == 0x3fb4_7ae1_47ae_147b,
            options.measure.capacity == 3000,
    {
        FitOptions {
            passes: 12,
            floor: Scalar::from_bits(0),
            free_sigma: Scalar::from_bits(FREE_SIGMA),
            min_sigma: Scalar::from_bits(MIN_SIGMA),
            limit_knees: true,
            measure: MeasureOptions::default(),
        }
    }
}

/// One joint after the fit.
#[derive(Debug, Clone, Copy, PartialEq, Eq, Structural)]
pub struct FittedJoint {
    pub point: Point3,
    /// The uncertainty it came in with, in metres.
    pub sigma: Scalar,
    /// True when no camera saw it and the constraints placed it.
    pub inferred: bool,
    /// How far the fit moved it from where the cameras put it, in metres. Zero
    /// for an inferred joint, which had nowhere to be moved from.
    pub correction: Scalar,
}

/// A whole body after the fit.
#[derive(Debug, Clone)]
pub struct Fitted {
    pub at: Instant,
    pub joints: JointMap<FittedJoint>,
}

/// The largest correction among the first `n` joints, and zero where there is
/// none.
pub open spec fn worst_of(joints: Seq<Option<FittedJoint>>, n: nat) -> Scalar
    decreases n,
{
    if n == 0 {
        Scalar { bits: 0 }
    } else {
        let before = worst_of(joints, (n - 1) as nat);
        match joints[n - 1] {
            Some(fitted) => before.larger(fitted.correction),
            None => before,
        }
    }
}

impl Fitted {
    /// A body nothing is known of.
    pub fn empty(at: Instant) -> (fitted: Self)
        ensures
            fitted.at == at,
            fitted.joints@ == Seq::new(JOINTS as nat, |i: int| None::<FittedJoint>),
    {
        Fitted { at, joints: JointMap::empty() }
    }

    /// A joint, if it is placed.
    pub fn get(&self, joint: Joint) -> (fitted: Option<FittedJoint>)
        ensures
            fitted == self.joints@[joint.place()],
    {
        match self.joints.get(joint) {
            Some(fitted) => Some(*fitted),
            None => None,
        }
    }

    /// Where a joint is, if it is placed.
    pub fn position(&self, joint: Joint) -> (point: Option<Point3>)
        ensures
            point == match self.joints@[joint.place()] {
                Some(fitted) => Some(fitted.point),
                None => None,
            },
    {
        match self.joints.get(joint) {
            Some(fitted) => Some(fitted.point),
            None => None,
        }
    }

    /// Places a joint.
    pub fn set(&mut self, joint: Joint, fitted: FittedJoint)
        ensures
            final(self).at == old(self).at,
            final(self).joints@ == old(self).joints@.update(joint.place(), Some(fitted)),
    {
        self.joints.set(joint, fitted);
    }

    /// The joints that are placed, in order.
    pub fn iter(&self) -> (list: Vec<(Joint, FittedJoint)>)
        ensures
            list@ == listed(self.joints@, JOINTS as nat),
    {
        let kept = self.joints.iter();
        let mut list: Vec<(Joint, FittedJoint)> = Vec::new();
        let mut i: usize = 0;
        while i < kept.len()
            invariant
                i <= kept.len(),
                refers(kept@, listed(self.joints@, JOINTS as nat)),
                list@ == listed(self.joints@, JOINTS as nat).take(i as int),
            decreases kept.len() - i,
        {
            let (joint, value): (Joint, &FittedJoint) = kept[i];
            list.push((joint, *value));
            proof {
                let whole = listed(self.joints@, JOINTS as nat);
                assert(kept@[i as int].0 == whole[i as int].0);
                assert(list@ =~= whole.take(i + 1));
            }
            i = i + 1;
        }
        proof {
            assert(list@ =~= listed(self.joints@, JOINTS as nat));
        }
        list
    }

    /// How many joints are placed.
    pub fn count(&self) -> (count: usize)
        ensures
            count == present(self.joints@),
    {
        self.joints.count()
    }

    /// Whether no joint is.
    pub fn is_empty(&self) -> (empty: bool)
        ensures
            empty == (present(self.joints@) == 0),
    {
        self.joints.is_empty()
    }

    /// Joints that were placed by the constraints rather than seen.
    pub fn inferred(&self) -> (count: usize)
        ensures
            count == count_where(
                self.joints@,
                |slot: Option<FittedJoint>| slot is Some && slot->0.inferred,
            ),
    {
        let ghost wanted = |slot: Option<FittedJoint>| slot is Some && slot->0.inferred;
        let ghost all = self.joints@;
        let mut count: usize = 0;
        let mut i: usize = 0;
        proof {
            assert(all.take(0).filter(wanted).len() == 0) by {
                reveal(Seq::filter);
            }
        }
        while i < JOINTS
            invariant
                i <= JOINTS,
                all == self.joints@,
                wanted == (|slot: Option<FittedJoint>| slot is Some && slot->0.inferred),
                count == all.take(i as int).filter(wanted).len(),
                count <= i,
            decreases JOINTS - i,
        {
            let joint: Joint = Joint::ALL[i];
            proof {
                all_joints_stand_at_their_index(joint);
                lemma_filter_step(all, wanted, i as int);
            }
            if let Some(fitted) = self.get(joint) {
                if fitted.inferred {
                    count = count + 1;
                }
            }
            i = i + 1;
        }
        proof {
            assert(all.take(i as int) =~= all);
        }
        count
    }

    /// Largest distance the fit had to move an observed joint, in metres. A
    /// large value means the measured skeleton and the cameras disagree.
    pub fn worst_correction(&self) -> (worst: Scalar)
        ensures
            worst == worst_of(self.joints@, JOINTS as nat),
    {
        let mut worst: Scalar = Scalar::from_bits(0);
        let mut i: usize = 0;
        while i < JOINTS
            invariant
                i <= JOINTS,
                worst == worst_of(self.joints@, i as nat),
            decreases JOINTS - i,
        {
            let joint: Joint = Joint::ALL[i];
            proof {
                all_joints_stand_at_their_index(joint);
            }
            if let Some(fitted) = self.get(joint) {
                worst = worst.max(fitted.correction);
            }
            i = i + 1;
        }
        worst
    }
}

/// No correction is larger than the worst one.
pub proof fn no_correction_exceeds_the_worst(joints: Seq<Option<FittedJoint>>, n: nat, i: int)
    requires
        0 <= i < n,
        joints[i] is Some,
        !joints[i]->0.correction.nan(),
    ensures
        joints[i]->0.correction.at_most(worst_of(joints, n)),
    decreases n,
{
    lemma_worst_is_a_number(joints, (n - 1) as nat);
    lemma_worst_is_a_number(joints, n);
    if i < n - 1 {
        no_correction_exceeds_the_worst(joints, (n - 1) as nat, i);
    }
}

proof fn lemma_worst_is_a_number(joints: Seq<Option<FittedJoint>>, n: nat)
    ensures
        !worst_of(joints, n).nan(),
    decreases n,
{
    if n > 0 {
        lemma_worst_is_a_number(joints, (n - 1) as nat);
    }
}

/// A joint while it is being solved.
#[derive(Debug, Clone, Copy, PartialEq, Eq, Structural)]
pub struct Node {
    pub point: Point3,
    /// Where the cameras put it, if they did.
    pub observed: Option<Point3>,
    /// How unsure its place is, in metres. A joint gives way in proportion to
    /// the square of this.
    pub sigma: Scalar,
}

/// Where a joint starts from: where the cameras put it, else where it was last
/// time, else nowhere.
pub open spec fn seeded(
    fused: Option<FusedJoint>,
    carried: Option<FittedJoint>,
    options: FitOptions,
) -> Option<Node> {
    match (fused, carried) {
        (Some(fused), _) => Some(
            Node {
                point: fused.point,
                observed: Some(fused.point),
                sigma: fused.sigma.larger(options.min_sigma),
            },
        ),
        (None, Some(carried)) => Some(
            Node { point: carried.point, observed: None, sigma: options.free_sigma },
        ),
        (None, None) => None,
    }
}

/// A bone to be pulled to its measured length.
#[derive(Debug, Clone, Copy, PartialEq, Eq, Structural)]
pub struct Constraint {
    pub bone: Bone,
    pub length: Scalar,
}

/// What a bone asks of the body, if its length has settled and both its ends
/// are placed.
pub open spec fn constraint(
    bone: Bone,
    lengths: Seq<BoneLength>,
    nodes: Seq<Option<Node>>,
    options: MeasureOptions,
) -> Option<Constraint> {
    match measured(lengths, bone) {
        Some(entry) => if entry.settled(options) && nodes[bone.from.place()] is Some
            && nodes[bone.to.place()] is Some {
            Some(Constraint { bone, length: entry.length })
        } else {
            None
        },
        None => None,
    }
}

/// What the first `n` bones ask of the body.
pub open spec fn constraints(
    lengths: Seq<BoneLength>,
    nodes: Seq<Option<Node>>,
    options: MeasureOptions,
    n: nat,
) -> Seq<Step>
    decreases n,
{
    if n == 0 {
        Seq::empty()
    } else {
        let before = constraints(lengths, nodes, options, (n - 1) as nat);
        match constraint(bone_at(n - 1), lengths, nodes, options) {
            Some(one) => before.push(Step::Length(one)),
            None => before,
        }
    }
}

/// A leg, by its joints.
#[derive(Debug, Clone, Copy, PartialEq, Eq, Structural)]
pub struct Leg {
    pub hip: Joint,
    pub knee: Joint,
    pub ankle: Joint,
}

/// The left leg.
pub open spec fn left_leg() -> Leg {
    Leg { hip: Joint::LeftHip, knee: Joint::LeftKnee, ankle: Joint::LeftAnkle }
}

/// The right leg.
pub open spec fn right_leg() -> Leg {
    Leg { hip: Joint::RightHip, knee: Joint::RightKnee, ankle: Joint::RightAnkle }
}

/// Whether every joint of a leg is placed, and both hips, which are what say
/// which way the body is facing.
pub open spec fn whole(leg: Leg, nodes: Seq<Option<Node>>) -> bool {
    &&& nodes[leg.hip.place()] is Some
    &&& nodes[leg.knee.place()] is Some
    &&& nodes[leg.ankle.place()] is Some
    &&& nodes[Joint::LeftHip.place()] is Some
    &&& nodes[Joint::RightHip.place()] is Some
}

/// One thing a pass over the constraints does.
#[derive(Debug, Clone, Copy, PartialEq, Eq, Structural)]
pub enum Step {
    /// Pull two joints to the measured distance apart.
    Length(Constraint),
    /// Keep a knee from ending up behind the line between its hip and ankle.
    Knee(Leg),
    /// Lift anything that has sunk through the floor.
    Floor,
}

/// What one pass does with the knees.
pub open spec fn knees(nodes: Seq<Option<Node>>, limit: bool) -> Seq<Step> {
    let left = if limit && whole(left_leg(), nodes) {
        seq![Step::Knee(left_leg())]
    } else {
        Seq::empty()
    };
    if limit && whole(right_leg(), nodes) {
        left.push(Step::Knee(right_leg()))
    } else {
        left
    }
}

/// What one pass does, in order: every length, then the knees, then the floor.
///
/// The floor comes last, so that it is the one constraint that comes out exactly
/// satisfied. A foot a centimetre underground is the single most visible failure
/// in VR.
pub open spec fn pass_of(
    lengths: Seq<BoneLength>,
    nodes: Seq<Option<Node>>,
    options: FitOptions,
) -> Seq<Step> {
    (constraints(lengths, nodes, options.measure, BONE_COUNT as nat) + knees(
        nodes,
        options.limit_knees,
    )).push(Step::Floor)
}

/// A joint lifted to the floor if it is below it.
pub open spec fn lifted(node: Option<Node>, floor: Scalar) -> Option<Node> {
    match node {
        Some(node) => if node.point.y.less(floor) {
            Some(Node { point: Point3 { y: floor, ..node.point }, ..node })
        } else {
            Some(node)
        },
        None => None,
    }
}

/// Lifts anything that has sunk through the floor.
pub fn hold_above_floor(nodes: &mut JointMap<Node>, floor: Scalar)
    ensures
        forall|i: int|
            0 <= i < JOINTS ==> #[trigger] final(nodes)@[i] == lifted(old(nodes)@[i], floor),
{
    let mut i: usize = 0;
    while i < JOINTS
        invariant
            i <= JOINTS,
            forall|k: int|
                0 <= k < i ==> #[trigger] nodes@[k] == lifted(old(nodes)@[k], floor),
            forall|k: int| i <= k < JOINTS ==> #[trigger] nodes@[k] == old(nodes)@[k],
        decreases JOINTS - i,
    {
        let joint: Joint = Joint::ALL[i];
        proof {
            all_joints_stand_at_their_index(joint);
        }
        let found: Option<Node> = match nodes.get(joint) {
            Some(node) => Some(*node),
            None => None,
        };
        if let Some(node) = found {
            if node.point.y.lt(floor) {
                let point = Point3 { x: node.point.x, y: floor, z: node.point.z };
                nodes.set(joint, Node { point, observed: node.observed, sigma: node.sigma });
            }
        }
        i = i + 1;
    }
}

/// After the floor has been held, no joint is below it.
pub proof fn nothing_is_left_below_the_floor(node: Option<Node>, floor: Scalar)
    ensures
        lifted(node, floor) is Some == node is Some,
        lifted(node, floor) is Some ==> !lifted(node, floor)->0.point.y.less(floor),
{
}

/// What a joint is reported as: one the cameras saw, or one that is carried over,
/// where the solve put it. How sure it is and whether anything saw it come from
/// where it started; `moved` is how far the solve took it from there.
pub open spec fn fitted_joint(
    fused: Option<FusedJoint>,
    carried: Option<FittedJoint>,
    options: FitOptions,
    solved: Option<Node>,
    moved: Option<Scalar>,
) -> Option<FittedJoint> {
    match seeded(fused, carried, options) {
        Some(node) => Some(
            FittedJoint {
                point: match solved {
                    Some(solved) => solved.point,
                    None => node.point,
                },
                sigma: node.sigma,
                inferred: node.observed is None,
                correction: match (node.observed, moved) {
                    (Some(_), Some(moved)) => moved,
                    _ => Scalar { bits: 0 },
                },
            },
        ),
        None => None,
    }
}

/// Runs the fit, carrying the previous result forward so that a joint which
/// goes out of sight has somewhere to start from.
#[derive(Debug, Clone)]
pub struct Fitter {
    pub options: FitOptions,
    pub previous: Option<Fitted>,
}

impl Fitter {
    /// A fit that has seen nothing.
    pub fn new(options: FitOptions) -> (fitter: Self)
        ensures
            fitter.options == options,
            fitter.previous is None,
    {
        Fitter { options, previous: None }
    }

    /// How the fit is run.
    pub fn options(&self) -> (options: &FitOptions)
        ensures
            *options == self.options,
    {
        &self.options
    }

    /// Changes how the fit is run.
    pub fn set_options(&mut self, options: FitOptions)
        ensures
            final(self).options == options,
            final(self).previous == old(self).previous,
    {
        self.options = options;
    }

    /// Forgets the previous pose, so nothing carries across a break in
    /// tracking.
    pub fn reset(&mut self)
        ensures
            final(self).options == old(self).options,
            final(self).previous is None,
    {
        self.previous = None;
    }

    /// What was carried over for a joint.
    pub open spec fn carried(self, i: int) -> Option<FittedJoint> {
        match self.previous {
            Some(previous) => previous.joints@[i],
            None => None,
        }
    }

    /// Starting positions for the solve.
    ///
    /// A joint nothing saw starts from where it was last time, which is what
    /// makes it continuous rather than a jump. A joint that was never seen and
    /// has no history stays absent: there is no honest place to put it.
    pub fn seed(&self, pose: &Pose3d) -> (nodes: JointMap<Node>)
        ensures
            forall|i: int|
                0 <= i < JOINTS ==> #[trigger] nodes@[i] == seeded(
                    pose.joints@[i],
                    self.carried(i),
                    self.options,
                ),
    {
        let mut nodes: JointMap<Node> = JointMap::empty();
        let mut i: usize = 0;
        while i < JOINTS
            invariant
                i <= JOINTS,
                forall|k: int|
                    0 <= k < i ==> #[trigger] nodes@[k] == seeded(
                        pose.joints@[k],
                        self.carried(k),
                        self.options,
                    ),
                forall|k: int| i <= k < JOINTS ==> #[trigger] nodes@[k] is None,
            decreases JOINTS - i,
        {
            let joint: Joint = Joint::ALL[i];
            proof {
                all_joints_stand_at_their_index(joint);
            }
            match pose.get(joint) {
                Some(fused) => {
                    nodes.set(
                        joint,
                        Node {
                            point: fused.point,
                            observed: Some(fused.point),
                            sigma: fused.sigma.max(self.options.min_sigma),
                        },
                    );
                },
                None => {
                    if let Some(previous) = &self.previous {
                        if let Some(carried) = previous.get(joint) {
                            nodes.set(
                                joint,
                                Node {
                                    point: carried.point,
                                    observed: None,
                                    sigma: self.options.free_sigma,
                                },
                            );
                        }
                    }
                },
            }
            i = i + 1;
        }
        nodes
    }

    fn knee_holds(nodes: &JointMap<Node>, leg: Leg) -> (holds: bool)
        ensures
            holds == whole(leg, nodes@),
    {
        nodes.get(leg.hip).is_some() && nodes.get(leg.knee).is_some() && nodes.get(
            leg.ankle,
        ).is_some() && nodes.get(Joint::LeftHip).is_some() && nodes.get(Joint::RightHip).is_some()
    }

    /// What one pass over the constraints does, in order.
    pub fn pass(&self, nodes: &JointMap<Node>, skeleton: &Skeleton) -> (steps: Vec<Step>)
        ensures
            steps@ == pass_of(skeleton.bones@, nodes@, self.options),
    {
        let bones = bones();
        let mut steps: Vec<Step> = Vec::new();
        let mut i: usize = 0;
        while i < BONE_COUNT
            invariant
                i <= BONE_COUNT,
                bones@ == skeleton_bones(),
                steps@ == constraints(
                    skeleton.bones@,
                    nodes@,
                    self.options.measure,
                    i as nat,
                ),
            decreases BONE_COUNT - i,
        {
            let bone: Bone = bones[i];
            if let Some(entry) = skeleton.get(bone) {
                if entry.is_settled(&self.options.measure) && nodes.get(bone.from).is_some()
                    && nodes.get(bone.to).is_some() {
                    steps.push(Step::Length(Constraint { bone, length: entry.length }));
                }
            }
            i = i + 1;
        }
        let ghost lengths = steps@;
        if self.options.limit_knees {
            let left = Leg { hip: Joint::LeftHip, knee: Joint::LeftKnee, ankle: Joint::LeftAnkle };
            if Self::knee_holds(nodes, left) {
                steps.push(Step::Knee(left));
            }
            let right = Leg {
                hip: Joint::RightHip,
                knee: Joint::RightKnee,
                ankle: Joint::RightAnkle,
            };
            if Self::knee_holds(nodes, right) {
                steps.push(Step::Knee(right));
            }
        }
        assert(steps@ =~= lengths + knees(nodes@, self.options.limit_knees));
        steps.push(Step::Floor);
        steps
    }

    /// Reports the joints of a pose, and carries them over to the next.
    ///
    /// `solved` holds where the solve put the joints it was started with, and
    /// `moved` how far each observed one ended from where the cameras put it. The
    /// joint is still reported as fitted: reverting one joint and not its
    /// neighbours would hand downstream a body that satisfies nothing.
    pub fn fit(
        &mut self,
        pose: &Pose3d,
        solved: &JointMap<Node>,
        moved: &JointMap<Scalar>,
    ) -> (fitted: Fitted)
        ensures
            fitted.at == pose.at,
            forall|i: int|
                0 <= i < JOINTS ==> #[trigger] fitted.joints@[i] == fitted_joint(
                    pose.joints@[i],
                    old(self).carried(i),
                    old(self).options,
                    solved@[i],
                    moved@[i],
                ),
            final(self).options == old(self).options,
            final(self).previous is Some,
            final(self).previous->0.at == pose.at,
            final(self).previous->0.joints@ == fitted.joints@,
    {
        let nodes: JointMap<Node> = self.seed(pose);
        let mut fitted = Fitted::empty(pose.at);
        let mut i: usize = 0;
        while i < JOINTS
            invariant
                i <= JOINTS,
                fitted.at == pose.at,
                *self == *old(self),
                forall|k: int|
                    0 <= k < JOINTS ==> #[trigger] nodes@[k] == seeded(
                        pose.joints@[k],
                        self.carried(k),
                        self.options,
                    ),
                forall|k: int|
                    0 <= k < i ==> #[trigger] fitted.joints@[k] == fitted_joint(
                        pose.joints@[k],
                        self.carried(k),
                        self.options,
                        solved@[k],
                        moved@[k],
                    ),
                forall|k: int| i <= k < JOINTS ==> #[trigger] fitted.joints@[k] is None,
            decreases JOINTS - i,
        {
            let joint: Joint = Joint::ALL[i];
            proof {
                all_joints_stand_at_their_index(joint);
            }
            if let Some(node) = nodes.get(joint) {
                let point: Point3 = match solved.get(joint) {
                    Some(solved) => solved.point,
                    None => node.point,
                };
                let correction: Scalar = match (node.observed, moved.get(joint)) {
                    (Some(_), Some(moved)) => *moved,
                    _ => Scalar::from_bits(0),
                };
                fitted.set(
                    joint,
                    FittedJoint {
                        point,
                        sigma: node.sigma,
                        inferred: node.observed.is_none(),
                        correction,
                    },
                );
            }
            i = i + 1;
        }
        self.previous = Some(Fitted { at: pose.at, joints: fitted.joints.copied() });
        fitted
    }
}

/// One pose a fit was given, and what its solve came to.
pub struct Tick {
    pub joints: Seq<Option<FusedJoint>>,
    pub options: FitOptions,
    pub solved: Seq<Option<Node>>,
    pub moved: Seq<Option<Scalar>>,
}

/// What a fit that was reset before the first of these poses reports of a joint
/// after the last of them.
pub open spec fn fitted_after(ticks: Seq<Tick>, i: int) -> Option<FittedJoint>
    decreases ticks.len(),
{
    if ticks.len() == 0 {
        None
    } else {
        let tick = ticks.last();
        fitted_joint(
            tick.joints[i],
            fitted_after(ticks.drop_last(), i),
            tick.options,
            tick.solved[i],
            tick.moved[i],
        )
    }
}

/// Whether any of the poses has a joint.
pub open spec fn seen_in(ticks: Seq<Tick>, i: int) -> bool {
    exists|k: int| 0 <= k < ticks.len() && (#[trigger] ticks[k]).joints[i] is Some
}

/// Over any history of poses since a reset, the result holds exactly the joints
/// that one of them had: a joint nothing saw is carried along, and one that was
/// never seen is not invented. A joint is inferred exactly if the last pose lacks
/// it, and then it has no correction and is as unsure as a free joint.
pub proof fn a_joint_never_seen_is_not_invented(ticks: Seq<Tick>, i: int)
    requires
        ticks.len() > 0,
    ensures
        ({
            let out = fitted_after(ticks, i);
            let tick = ticks.last();
            &&& (out is Some) == seen_in(ticks, i)
            &&& out is Some ==> out->0.inferred == (tick.joints[i] is None)
            &&& out is Some && out->0.inferred ==> out->0.correction == Scalar::of(0)
                && out->0.sigma == tick.options.free_sigma
            &&& tick.joints[i] is Some ==> out->0.sigma == tick.joints[i]->0.sigma.larger(
                tick.options.min_sigma,
            )
        }),
    decreases ticks.len(),
{
    let earlier = ticks.drop_last();
    if earlier.len() > 0 {
        a_joint_never_seen_is_not_invented(earlier, i);
    } else {
        assert(fitted_after(earlier, i) is None);
    }
    if seen_in(earlier, i) {
        let k = choose|k: int| 0 <= k < earlier.len() && (#[trigger] earlier[k]).joints[i] is Some;
        assert(ticks[k].joints[i] is Some);
    }
    if ticks.last().joints[i] is Some {
        assert(ticks[ticks.len() - 1].joints[i] is Some);
    }
    if seen_in(ticks, i) && ticks.last().joints[i] is None {
        let k = choose|k: int| 0 <= k < ticks.len() && (#[trigger] ticks[k]).joints[i] is Some;
        assert(earlier[k].joints[i] is Some);
    }
}

/// Holding the floor moves a joint straight up and no further than it must: across
/// the room, where the cameras put it and how sure it is, it stays as it was.
pub proof fn the_floor_only_lifts(node: Node, floor: Scalar)
    ensures
        ({
            let out = lifted(Some(node), floor);
            &&& out is Some
            &&& out->0.point.x == node.point.x
            &&& out->0.point.z == node.point.z
            &&& out->0.observed == node.observed
            &&& out->0.sigma == node.sigma
            &&& node.point.y.less(floor) ==> out->0.point.y == floor
            &&& !node.point.y.less(floor) ==> out->0.point.y == node.point.y
        }),
        lifted(None, floor) is None,
{
}

/// A joint the cameras saw starts where they put it, no surer than the surest there
/// is; one they did not see starts where it was last, and is free to move; and one
/// that was never placed does not start at all.
pub proof fn a_solve_starts_from_what_is_known(
    fused: FusedJoint,
    carried: Option<FittedJoint>,
    options: FitOptions,
)
    ensures
        ({
            let seen = seeded(Some(fused), carried, options);
            &&& seen is Some
            &&& seen->0.point == fused.point
            &&& seen->0.observed == Some(fused.point)
            &&& seen->0.sigma == fused.sigma || seen->0.sigma == options.min_sigma
            &&& !fused.sigma.nan() && !options.min_sigma.nan() ==> fused.sigma.at_most(
                seen->0.sigma,
            ) && options.min_sigma.at_most(seen->0.sigma)
        }),
        carried is Some ==> ({
            let unseen = seeded(None, carried, options);
            &&& unseen is Some
            &&& unseen->0.point == carried->0.point
            &&& unseen->0.observed is None
            &&& unseen->0.sigma == options.free_sigma
        }),
        seeded(None, None, options) is None,
{
}

/// A fitted joint is where the solve put it. One that was seen says how far it was
/// taken from where the cameras put it.
pub proof fn a_fitted_joint_is_where_the_solve_put_it(
    fused: Option<FusedJoint>,
    carried: Option<FittedJoint>,
    options: FitOptions,
    solved: Node,
    moved: Scalar,
)
    requires
        fused is Some || carried is Some,
    ensures
        ({
            let out = fitted_joint(fused, carried, options, Some(solved), Some(moved));
            &&& out is Some
            &&& out->0.point == solved.point
            &&& out->0.inferred == (fused is None)
            &&& fused is Some ==> out->0.correction == moved
            &&& fused is None ==> out->0.correction == Scalar::of(0)
        }),
{
}

/// The worst correction is no correction at all, or one of those that were made.
pub proof fn the_worst_correction_was_made(joints: Seq<Option<FittedJoint>>, n: nat)
    ensures
        worst_of(joints, n) == Scalar::of(0) || exists|i: int|
            0 <= i < n && (#[trigger] joints[i]) is Some && joints[i]->0.correction == worst_of(
                joints,
                n,
            ),
    decreases n,
{
    if n > 0 {
        the_worst_correction_was_made(joints, (n - 1) as nat);
        let (before, after) = (worst_of(joints, (n - 1) as nat), worst_of(joints, n));
        if joints[n - 1] is Some && after != before {
            assert(joints[n - 1]->0.correction == after);
        }
    }
}

/// Whether a bone is owed its length: the first entry that names it is settled, and
/// both its ends are placed.
pub open spec fn owed(
    lengths: Seq<BoneLength>,
    nodes: Seq<Option<Node>>,
    options: MeasureOptions,
    bone: Bone,
    e: int,
) -> bool {
    &&& 0 <= e < lengths.len()
    &&& lengths[e].bone == bone
    &&& forall|k: int| 0 <= k < e ==> (#[trigger] lengths[k]).bone != bone
    &&& lengths[e].samples >= options.min_samples
    &&& Scalar::of(0).less(lengths[e].length)
    &&& lengths[e].relative.at_most(options.max_scatter)
    &&& nodes[bone.from.place()] is Some
    &&& nodes[bone.to.place()] is Some
}

/// Whether the lengths a pass asks for are those of the bones at these places of the
/// table.
pub open spec fn asks_for(
    steps: Seq<Step>,
    from: Seq<int>,
    lengths: Seq<BoneLength>,
    nodes: Seq<Option<Node>>,
    options: MeasureOptions,
    n: int,
) -> bool {
    &&& from.len() == steps.len()
    &&& increasing(from)
    &&& forall|k: int|
        0 <= k < from.len() ==> (exists|e: int| #[trigger]
            owed(lengths, nodes, options, bone_at(from[k]), e) && steps[k] == Step::Length(
                Constraint { bone: bone_at(#[trigger] from[k]), length: lengths[e].length },
            ))
    &&& forall|i: int, e: int|
        0 <= i < n && #[trigger] owed(lengths, nodes, options, bone_at(i), e) ==> from.contains(i)
    &&& forall|i: int| #[trigger] from.contains(i) ==> 0 <= i < n
}

/// A pass pulls every bone to its length whose length has settled and whose ends are
/// both placed, in the order of the table, and no other.
pub proof fn every_settled_bone_is_pulled_to_its_length(
    lengths: Seq<BoneLength>,
    nodes: Seq<Option<Node>>,
    options: MeasureOptions,
    n: nat,
)
    requires
        n <= BONE_COUNT,
    ensures
        exists|from: Seq<int>| #[trigger]
            asks_for(
                constraints(lengths, nodes, options, n),
                from,
                lengths,
                nodes,
                options,
                n as int,
            ),
{
    let from = lemma_asked(lengths, nodes, options, n);
}

proof fn lemma_asked(
    lengths: Seq<BoneLength>,
    nodes: Seq<Option<Node>>,
    options: MeasureOptions,
    n: nat,
) -> (from: Seq<int>)
    requires
        n <= BONE_COUNT,
    ensures
        asks_for(
            constraints(lengths, nodes, options, n),
            from,
            lengths,
            nodes,
            options,
            n as int,
        ),
    decreases n,
{
    if n == 0 {
        Seq::empty()
    } else {
        let before = lemma_asked(lengths, nodes, options, (n - 1) as nat);
        let bone = bone_at(n - 1);
        let named = |entry: BoneLength| entry.bone == bone;
        let at = crate::list::first_where(lengths, named);
        crate::list::lemma_first_where(lengths, named);
        let more = constraint(bone, lengths, nodes, options) is Some;
        let from = if more {
            before.push(n - 1)
        } else {
            before
        };
        crate::list::lemma_grown(before, from, more, n - 1);
        if more {
            assert(owed(lengths, nodes, options, bone, at));
        }
        assert forall|i: int, e: int|
            0 <= i < n && #[trigger] owed(
                lengths,
                nodes,
                options,
                bone_at(i),
                e,
            ) implies from.contains(i) by {
            if i == n - 1 {
                crate::list::lemma_first_where_is(lengths, named, e);
            }
        }
        let (steps, earlier) = (
            constraints(lengths, nodes, options, n),
            constraints(lengths, nodes, options, (n - 1) as nat),
        );
        assert forall|k: int| 0 <= k < from.len() implies (exists|e: int| #[trigger]
            owed(lengths, nodes, options, bone_at(from[k]), e) && steps[k] == Step::Length(
                Constraint { bone: bone_at(#[trigger] from[k]), length: lengths[e].length },
            )) by {
            if k < before.len() {
                assert(from[k] == before[k]);
                let e = choose|e: int| #[trigger]
                    owed(lengths, nodes, options, bone_at(before[k]), e) && earlier[k]
                        == Step::Length(
                        Constraint { bone: bone_at(before[k]), length: lengths[e].length },
                    );
                assert(owed(lengths, nodes, options, bone_at(from[k]), e));
                assert(steps[k] == earlier[k]);
            } else {
                assert(owed(lengths, nodes, options, bone_at(from[k]), at));
            }
        }
        from
    }
}

/// A pass first asks for the lengths, then keeps each knee whose leg and hips are
/// all placed, the left before the right, if the knees are to be kept at all, and
/// holds the floor last of all and once.
pub proof fn a_pass_ends_with_the_knees_and_the_floor(
    lengths: Seq<BoneLength>,
    nodes: Seq<Option<Node>>,
    options: FitOptions,
)
    ensures
        ({
            let steps = pass_of(lengths, nodes, options);
            let pulls = constraints(lengths, nodes, options.measure, BONE_COUNT as nat);
            let hips = nodes[Joint::LeftHip.place()] is Some && nodes[Joint::RightHip.place()]
                is Some;
            let left = options.limit_knees && hips && nodes[Joint::LeftKnee.place()] is Some
                && nodes[Joint::LeftAnkle.place()] is Some;
            let right = options.limit_knees && hips && nodes[Joint::RightKnee.place()] is Some
                && nodes[Joint::RightAnkle.place()] is Some;
            let l = if left {
                1int
            } else {
                0
            };
            let r = if right {
                1int
            } else {
                0
            };
            &&& steps.len() == pulls.len() + l + r + 1
            &&& forall|k: int| 0 <= k < pulls.len() ==> #[trigger] steps[k] == pulls[k]
            &&& left ==> steps[pulls.len() as int] == Step::Knee(
                Leg { hip: Joint::LeftHip, knee: Joint::LeftKnee, ankle: Joint::LeftAnkle },
            )
            &&& right ==> steps[pulls.len() + l] == Step::Knee(
                Leg { hip: Joint::RightHip, knee: Joint::RightKnee, ankle: Joint::RightAnkle },
            )
            &&& steps[steps.len() - 1] == Step::Floor
        }),
{
}

/// A joint comes out of the fit as uncertain as it went in, whatever the solve did; where
/// the solve did nothing with it, it stays where it was and is not corrected. One that
/// nobody saw and nothing carried stays unknown.
pub proof fn a_fitted_joint_is_as_sure_as_it_was(
    fused: Option<FusedJoint>,
    carried: Option<FittedJoint>,
    options: FitOptions,
    solved: Option<Node>,
    moved: Option<Scalar>,
)
    ensures
        ({
            let out = fitted_joint(fused, carried, options, solved, moved);
            &&& out is Some <==> fused is Some || carried is Some
            &&& fused is Some ==> out->0.sigma == fused->0.sigma.larger(options.min_sigma)
            &&& fused is None && carried is Some ==> out->0.sigma == options.free_sigma
            &&& fused is Some && solved is None ==> out->0.point == fused->0.point
            &&& fused is None && carried is Some && solved is None ==> out->0.point
                == carried->0.point
            &&& out is Some && solved is Some ==> out->0.point == solved->0.point
            &&& out is Some && (moved is None || fused is None) ==> out->0.correction.bits == 0
        }),
{
}

} // verus!
