//! From aligned 2D keypoints to one 3D pose.
//!
//! Each joint is solved on its own from the cameras that can see it. Solving
//! them independently is deliberate: a joint hidden from two of three cameras
//! is a bad joint, not a bad pose. What is decided here is which rays take part
//! and which joints are worth reporting; where the rays meet is computed by the
//! application.

use vstd::prelude::*;

use crate::fusion::align::Aligned;
use crate::geometry::Point3;
use crate::list::{increasing, lemma_grown, holds, lemma_filter_step};
use crate::models::{
    all_joints_stand_at_their_index, listed, present, refers, Joint, JointMap, JOINTS,
};
use crate::order::places;
use crate::scalar::Scalar;
use crate::time::Instant;

verus! {

/// 0.3
const MIN_CONFIDENCE: u64 = 0x3fd3_3333_3333_3333;

/// 0.01
const INLIER_THRESHOLD: u64 = 0x3f84_7ae1_47ae_147b;

/// 0.1
const MAX_SIGMA: u64 = 0x3fb9_9999_9999_999a;

/// 1.0
const ONE: u64 = 0x3ff0_0000_0000_0000;

/// What the reconstruction accepts.
#[derive(Debug, Clone, Copy, PartialEq, Eq, Structural)]
pub struct FuseOptions {
    /// Confidence a keypoint needs before its ray is used at all.
    pub min_confidence: Scalar,
    /// Angular disagreement past which a ray is treated as seeing something
    /// else, in radians.
    pub inlier_threshold: Scalar,
    /// Positional uncertainty past which a joint is not reported at all, in
    /// metres.
    pub max_sigma: Scalar,
}

impl Default for FuseOptions {
    fn default() -> (options: Self)
        ensures
            options.min_confidence.bits == 0x3fd3_3333_3333_3333,
            options.inlier_threshold.bits == 0x3f84_7ae1_47ae_147b,
            options.max_sigma.bits == 0x3fb9_9999_9999_999a,
    {
        FuseOptions {
            min_confidence: Scalar::from_bits(MIN_CONFIDENCE),
            inlier_threshold: Scalar::from_bits(INLIER_THRESHOLD),
            max_sigma: Scalar::from_bits(MAX_SIGMA),
        }
    }
}

/// One joint as the cameras reconstructed it.
#[derive(Debug, Clone)]
pub struct FusedJoint {
    pub point: Point3,
    /// Standard deviation along the least constrained direction, in metres.
    pub sigma: Scalar,
    /// RMS angular reprojection residual over the rays used, in radians.
    pub residual: Scalar,
    /// Share of the answer each camera carried, summing to one.
    pub weights: Vec<(usize, Scalar)>,
    /// Cameras that saw the joint and were dropped for disagreeing.
    pub rejected: Vec<usize>,
}

impl FusedJoint {
    /// How many rays the joint was built from.
    pub fn rays(&self) -> (rays: usize)
        ensures
            rays == self.weights@.len(),
    {
        self.weights.len()
    }
}

/// A whole body at one instant of the fusion clock.
#[derive(Debug, Clone)]
pub struct Pose3d {
    /// The instant this reconstructs, which is behind real time by the
    /// alignment lag.
    pub at: Instant,
    /// How much worse the cameras agreed than their keypoints claimed they
    /// would, as a multiplier already applied to every joint's uncertainty.
    pub disagreement: Scalar,
    pub joints: JointMap<FusedJoint>,
}

/// How many of the joints present are from the hips down, among the first `n`.
pub open spec fn lower_present<T>(joints: Seq<Option<T>>, n: nat) -> nat
    decreases n,
{
    if n == 0 {
        0
    } else {
        let below = lower_present(joints, (n - 1) as nat);
        if joints[n - 1] is Some && Joint::ALL@[n - 1].lower_body() {
            below + 1
        } else {
            below
        }
    }
}

impl Pose3d {
    /// A body nothing is known of.
    pub fn empty(at: Instant) -> (pose: Self)
        ensures
            pose.at == at,
            pose.disagreement.bits == 0x3ff0_0000_0000_0000,
            pose.joints@ == Seq::new(JOINTS as nat, |i: int| None::<FusedJoint>),
    {
        Pose3d { at, disagreement: Scalar::from_bits(ONE), joints: JointMap::empty() }
    }

    /// A joint, if it was reconstructed.
    pub fn get(&self, joint: Joint) -> (fused: Option<&FusedJoint>)
        ensures
            match fused {
                Some(fused) => self.joints@[joint.place()] == Some(*fused),
                None => self.joints@[joint.place()] is None,
            },
    {
        self.joints.get(joint)
    }

    /// Records a joint.
    pub fn set(&mut self, joint: Joint, fused: FusedJoint)
        ensures
            final(self).joints@ == old(self).joints@.update(joint.place(), Some(fused)),
            final(self).at == old(self).at,
            final(self).disagreement == old(self).disagreement,
    {
        self.joints.set(joint, fused);
    }

    /// The joints that were reconstructed, in order.
    pub fn iter(&self) -> (list: Vec<(Joint, &FusedJoint)>)
        ensures
            refers(list@, listed(self.joints@, JOINTS as nat)),
    {
        self.joints.iter()
    }

    /// How many joints were reconstructed.
    pub fn count(&self) -> (count: usize)
        ensures
            count == present(self.joints@),
    {
        self.joints.count()
    }

    /// Whether no joint was.
    pub fn is_empty(&self) -> (empty: bool)
        ensures
            empty == (present(self.joints@) == 0),
    {
        self.joints.is_empty()
    }

    /// How many of the lower-body joints came through, which is the number that
    /// decides whether the trackers can be built at all.
    pub fn lower_body(&self) -> (count: usize)
        ensures
            count == lower_present(self.joints@, JOINTS as nat),
    {
        let mut count: usize = 0;
        let mut i: usize = 0;
        while i < JOINTS
            invariant
                i <= JOINTS,
                count == lower_present(self.joints@, i as nat),
                count <= i,
            decreases JOINTS - i,
        {
            let joint: Joint = Joint::ALL[i];
            proof {
                all_joints_stand_at_their_index(joint);
            }
            if self.joints.get(joint).is_some() && joint.is_lower_body() {
                count = count + 1;
            }
            i = i + 1;
        }
        count
    }
}

/// One camera's keypoints, resampled onto the tick.
#[derive(Debug, Clone)]
pub struct CameraView {
    /// Which camera this is, in the list of cameras.
    pub camera: usize,
    pub aligned: Aligned,
}

/// Whether a view has a ray for a joint: it saw the joint, it was not too unsure
/// of it, and its camera is known.
pub open spec fn votes(view: CameraView, cameras: int, joint: int, min_confidence: Scalar) -> bool {
    match view.aligned.joints@[joint] {
        Some(seen) => !seen.confidence.less(min_confidence) && view.camera < cameras,
        None => false,
    }
}

/// The views among the first `n` that have a ray for a joint.
pub open spec fn voters(
    views: Seq<CameraView>,
    cameras: int,
    joint: int,
    min_confidence: Scalar,
    n: nat,
) -> Seq<int>
    decreases n,
{
    if n == 0 {
        Seq::empty()
    } else {
        let before = voters(views, cameras, joint, min_confidence, (n - 1) as nat);
        if votes(views[n - 1], cameras, joint, min_confidence) {
            before.push(n - 1)
        } else {
            before
        }
    }
}

/// The views that have a ray for a joint.
fn observers(
    views: &Vec<CameraView>,
    cameras: usize,
    joint: Joint,
    min_confidence: Scalar,
) -> (found: Vec<usize>)
    ensures
        places(found@) == voters(
            views@,
            cameras as int,
            joint.place(),
            min_confidence,
            views@.len(),
        ),
{
    let mut found: Vec<usize> = Vec::new();
    let mut i: usize = 0;
    proof {
        assert(places(found@) =~= Seq::empty());
    }
    while i < views.len()
        invariant
            i <= views.len(),
            places(found@) == voters(
                views@,
                cameras as int,
                joint.place(),
                min_confidence,
                i as nat,
            ),
        decreases views.len() - i,
    {
        let ghost before = found@;
        if let Some(seen) = views[i].aligned.get(joint) {
            if !seen.confidence.lt(min_confidence) && views[i].camera < cameras {
                found.push(i);
                assert(places(found@) =~= places(before).push(i as int));
            }
        }
        i = i + 1;
    }
    found
}

/// Decides which rays each joint is solved from.
///
/// One ray fixes a direction and nothing else, so a joint with fewer than two is
/// not solved. Leaving it absent is what lets the filter coast through the gap
/// rather than following a point that was never measured.
pub fn gather(views: &Vec<CameraView>, cameras: usize, options: &FuseOptions) -> (rays: Vec<
    Option<Vec<usize>>,
>)
    ensures
        rays@.len() == JOINTS,
        forall|i: int|
            0 <= i < JOINTS ==> ({
                let found = voters(
                    views@,
                    cameras as int,
                    i,
                    options.min_confidence,
                    views@.len(),
                );
                match #[trigger] rays@[i] {
                    Some(rays) => found.len() >= 2 && places(rays@) == found,
                    None => found.len() < 2,
                }
            }),
{
    let mut rays: Vec<Option<Vec<usize>>> = Vec::new();
    let mut i: usize = 0;
    while i < JOINTS
        invariant
            i <= JOINTS,
            rays@.len() == i,
            forall|k: int|
                0 <= k < i ==> ({
                    let found = voters(
                        views@,
                        cameras as int,
                        k,
                        options.min_confidence,
                        views@.len(),
                    );
                    match #[trigger] rays@[k] {
                        Some(rays) => found.len() >= 2 && places(rays@) == found,
                        None => found.len() < 2,
                    }
                }),
        decreases JOINTS - i,
    {
        let joint: Joint = Joint::ALL[i];
        proof {
            all_joints_stand_at_their_index(joint);
        }
        let found = observers(views, cameras, joint, options.min_confidence);
        assert(places(found@).len() == found@.len());
        if found.len() < 2 {
            rays.push(None);
        } else {
            rays.push(Some(found));
        }
        i = i + 1;
    }
    rays
}

/// A joint where its rays meet.
#[derive(Debug, Clone)]
pub struct Solved {
    /// The cameras whose rays took part.
    pub observers: Vec<usize>,
    /// Those of them whose rays agree.
    pub inliers: Vec<usize>,
    pub point: Point3,
    /// Standard deviation along the least constrained direction, in metres, with
    /// the body's disagreement applied.
    pub sigma: Scalar,
    pub residual: Scalar,
    pub weights: Vec<(usize, Scalar)>,
}

/// Whether a joint is evidence of how far the cameras disagree, given how many
/// rays more than it needs it has, by how much they miss it and how much of that
/// is still believed.
///
/// A joint whose rays disagree by far more than they claimed says nothing of the
/// room. It is a keypoint on the wrong limb that the inlier test let through, and
/// averaging it in would withhold the whole body on account of one bad ankle.
pub fn evidence(spare: usize, chi_square: Scalar, limit: Scalar) -> (counts: bool)
    ensures
        counts == (spare > 0 && !limit.less(chi_square)),
{
    spare > 0 && !limit.lt(chi_square)
}

/// Whether a joint is located well enough to be reported.
pub open spec fn worth_reporting(sigma: Scalar, max_sigma: Scalar) -> bool {
    sigma.finite() && !max_sigma.less(sigma)
}

/// The cameras that saw a joint and were dropped for disagreeing.
pub open spec fn dropped(observers: Seq<usize>, inliers: Seq<usize>) -> Seq<usize> {
    observers.filter(|camera: usize| !inliers.contains(camera))
}

/// What is reported of a solved joint.
pub open spec fn reports(solved: Solved, fused: FusedJoint) -> bool {
    &&& fused.point == solved.point
    &&& fused.sigma == solved.sigma
    &&& fused.residual == solved.residual
    &&& fused.weights@ == solved.weights@
    &&& fused.rejected@ == dropped(solved.observers@, solved.inliers@)
}

fn outvoted(observers: &Vec<usize>, inliers: &Vec<usize>) -> (rejected: Vec<usize>)
    ensures
        rejected@ == dropped(observers@, inliers@),
{
    let ghost out = |camera: usize| !inliers@.contains(camera);
    let mut rejected: Vec<usize> = Vec::new();
    let mut i: usize = 0;
    proof {
        assert(observers@.take(0).filter(out) =~= Seq::empty()) by {
            reveal(Seq::filter);
        }
    }
    while i < observers.len()
        invariant
            i <= observers.len(),
            out == (|camera: usize| !inliers@.contains(camera)),
            rejected@ == observers@.take(i as int).filter(out),
        decreases observers.len() - i,
    {
        proof {
            lemma_filter_step(observers@, out, i as int);
        }
        if !holds(inliers, observers[i]) {
            rejected.push(observers[i]);
        }
        i = i + 1;
    }
    proof {
        assert(observers@.take(i as int) =~= observers@);
    }
    rejected
}

/// Builds the pose from the joints that were solved, by joint index, leaving out
/// those nothing can locate.
pub fn fuse(
    solved: Vec<Option<Solved>>,
    at: Instant,
    disagreement: Scalar,
    options: &FuseOptions,
) -> (pose: Pose3d)
    requires
        solved@.len() == JOINTS,
    ensures
        pose.at == at,
        pose.disagreement == disagreement,
        forall|i: int|
            0 <= i < JOINTS ==> match (solved@[i], #[trigger] pose.joints@[i]) {
                (Some(solved), Some(fused)) => worth_reporting(solved.sigma, options.max_sigma)
                    && reports(solved, fused),
                (Some(solved), None) => !worth_reporting(solved.sigma, options.max_sigma),
                (None, fused) => fused is None,
            },
{
    let ghost given = solved@;
    let mut solved = solved;
    let mut pose = Pose3d::empty(at);
    pose.disagreement = disagreement;
    let mut i: usize = JOINTS;
    while i > 0
        invariant
            i <= JOINTS,
            solved@.len() == i,
            given.len() == JOINTS,
            forall|k: int| 0 <= k < i ==> #[trigger] solved@[k] == given[k],
            pose.at == at,
            pose.disagreement == disagreement,
            forall|k: int| 0 <= k < i ==> #[trigger] pose.joints@[k] is None,
            forall|k: int|
                i <= k < JOINTS ==> match (given[k], #[trigger] pose.joints@[k]) {
                    (Some(solved), Some(fused)) => worth_reporting(solved.sigma, options.max_sigma)
                        && reports(solved, fused),
                    (Some(solved), None) => !worth_reporting(solved.sigma, options.max_sigma),
                    (None, fused) => fused is None,
                },
        decreases i,
    {
        i = i - 1;
        let joint: Joint = Joint::ALL[i];
        proof {
            all_joints_stand_at_their_index(joint);
        }
        let ghost before = pose.joints@;
        let entry: Option<Solved> = match solved.pop() {
            Some(entry) => entry,
            None => None,
        };
        if let Some(one) = entry {
            if one.sigma.is_finite() && !options.max_sigma.lt(one.sigma) {
                let rejected = outvoted(&one.observers, &one.inliers);
                pose.set(
                    joint,
                    FusedJoint {
                        point: one.point,
                        sigma: one.sigma,
                        residual: one.residual,
                        weights: one.weights,
                        rejected,
                    },
                );
            }
        }
    }
    pose
}

/// No camera is dropped that agreed, and every camera dropped had seen the
/// joint.
pub proof fn only_cameras_that_disagree_are_dropped(
    observers: Seq<usize>,
    inliers: Seq<usize>,
    camera: usize,
)
    ensures
        dropped(observers, inliers).contains(camera) <==> observers.contains(camera)
            && !inliers.contains(camera),
{
    let out = |camera: usize| !inliers.contains(camera);
    let rest = dropped(observers, inliers);
    if rest.contains(camera) {
        let i = choose|i: int| 0 <= i < rest.len() && rest[i] == camera;
        observers.lemma_filter_pred(out, i);
        observers.lemma_filter_contains_rev(out, camera);
    }
    if observers.contains(camera) && !inliers.contains(camera) {
        let i = choose|i: int| 0 <= i < observers.len() && observers[i] == camera;
        observers.lemma_filter_contains(out, i);
    }
}

/// Every view that has a joint surely enough, from a camera that is known, has a
/// say in it, whatever the other views have, and no other has. The views come in
/// order.
pub proof fn every_able_view_has_a_say(
    views: Seq<CameraView>,
    cameras: int,
    joint: int,
    min_confidence: Scalar,
    n: nat,
)
    requires
        n <= views.len(),
    ensures
        ({
            let found = voters(views, cameras, joint, min_confidence, n);
            &&& increasing(found)
            &&& forall|i: int| #[trigger]
                found.contains(i) <==> 0 <= i < n && views[i].aligned.joints@[joint] is Some
                    && !views[i].aligned.joints@[joint]->0.confidence.less(min_confidence)
                    && views[i].camera < cameras
        }),
    decreases n,
{
    if n > 0 {
        every_able_view_has_a_say(views, cameras, joint, min_confidence, (n - 1) as nat);
        let before = voters(views, cameras, joint, min_confidence, (n - 1) as nat);
        let found = voters(views, cameras, joint, min_confidence, n);
        let view = views[n - 1];
        let able = view.aligned.joints@[joint] is Some
            && !view.aligned.joints@[joint]->0.confidence.less(min_confidence) && view.camera
            < cameras;
        assert(found == if able {
            before.push(n - 1)
        } else {
            before
        });
        lemma_grown(before, found, able, n - 1);
    }
}

/// The joints of the lower body that a pose has are counted once each.
pub proof fn the_lower_body_is_counted<T>(joints: Seq<Option<T>>, n: nat)
    requires
        n <= JOINTS,
    ensures
        lower_present(joints, n) == Seq::new(n, |i: int| i).filter(
            |i: int| joints[i] is Some && Joint::ALL@[i].lower_body(),
        ).len(),
    decreases n,
{
    let wanted = |i: int| joints[i] is Some && Joint::ALL@[i].lower_body();
    let all = Seq::new(n, |i: int| i);
    reveal(Seq::filter);
    if n > 0 {
        the_lower_body_is_counted(joints, (n - 1) as nat);
        assert(all.drop_last() =~= Seq::new((n - 1) as nat, |i: int| i));
    }
}

/// A joint is reported exactly if its uncertainty is a number, and no more than is
/// worth having.
pub proof fn only_a_joint_located_well_enough_is_reported(sigma: Scalar, max_sigma: Scalar)
    requires
        !max_sigma.nan(),
    ensures
        worth_reporting(sigma, max_sigma) <==> sigma.finite() && sigma.at_most(max_sigma),
{
}

/// What is reported of a joint is what was solved of it, and the cameras that saw it
/// and are not among those that agree.
pub proof fn a_reported_joint_is_as_it_was_solved(solved: Solved, fused: FusedJoint)
    requires
        reports(solved, fused),
    ensures
        fused.point.x == solved.point.x,
        fused.point.y == solved.point.y,
        fused.point.z == solved.point.z,
        fused.sigma == solved.sigma,
        fused.residual == solved.residual,
        fused.weights@ == solved.weights@,
        forall|camera: usize| #[trigger]
            fused.rejected@.contains(camera) <==> solved.observers@.contains(camera)
                && !solved.inliers@.contains(camera),
{
    assert forall|camera: usize| #[trigger]
        fused.rejected@.contains(camera) <==> solved.observers@.contains(camera)
            && !solved.inliers@.contains(camera) by {
        only_cameras_that_disagree_are_dropped(solved.observers@, solved.inliers@, camera);
    }
}

} // verus!
