//! The live skeleton, and why it looks the way it does.
//!
//! When tracking misbehaves the question is never "is it wrong" but "which part
//! is wrong". So this panel shows the reconstruction next to the three things
//! that explain it: how much each camera is contributing, how well each joint is
//! pinned down, and what the body was measured as.

use vstd::prelude::*;

use crate::app::panels::notice::{Notice, NoticeModel, Threshold};
use crate::app::panels::output::{Check, Grade};
use crate::fusion::bones::{bone_at, bones, skeleton_bones, Bone, BONE_COUNT};
use crate::fusion::filter::{Filtered, FilteredJoint};
use crate::fusion::fit::{Fitted, FittedJoint};
use crate::fusion::fuse::{FusedJoint, Pose3d};
use crate::fusion::stage::CameraContribution;
use crate::list::{increasing, lemma_grown};
use crate::models::{all_joints_stand_at_their_index, Joint, JOINTS};
use crate::scalar::{lemma_worth_increases, Scalar};

verus! {

/// 0.01: positional uncertainty a joint is good at, in metres. Below this the
/// joint is as good as the cameras can make it.
pub const GOOD_SIGMA: u64 = 0x3f84_7ae1_47ae_147b;

/// 0.04: uncertainty past which a joint is not worth driving a tracker from.
pub const POOR_SIGMA: u64 = 0x3fa4_7ae1_47ae_147b;

/// 0.06: how far the floor may be from where SteamVR puts it, in metres.
pub const FLOOR_TOLERANCE: u64 = 0x3fae_b851_eb85_1eb8;

/// 0.9 in single precision: how often a camera that keeps up has frames.
pub const KEEPS_UP: u64 = 0x3fec_cccc_c000_0000;

/// 0.2 in single precision: how often a camera may be outvoted.
pub const OUTVOTED: u64 = 0x3fc9_9999_a000_0000;

/// 0.08: how far the measured leg may be from what the headset implies, in
/// metres.
pub const LEG_TOLERANCE: u64 = 0x3fb4_7ae1_47ae_147b;

/// What the tracking panel remembers.
#[derive(Debug, Clone)]
pub struct TrackingPanel {
    /// Set once, the first time a body appears, so the view starts pointed at
    /// the user instead of at the origin.
    pub framed: bool,
    /// Whatever is wrong with the reconstruction, held steady.
    pub notice: Notice,
    /// The fit correction, which hovers on its threshold while a user stands
    /// still and would otherwise strobe the button under it.
    pub correction: Notice,
    pub correcting: Threshold,
}

impl Default for TrackingPanel {
    fn default() -> (panel: Self)
        ensures
            !panel.framed,
            panel.notice@ == NoticeModel::blank(),
            panel.correction@ == NoticeModel::blank(),
            !panel.correcting.over,
    {
        TrackingPanel {
            framed: false,
            notice: Notice::default(),
            correction: Notice::default(),
            correcting: Threshold::default(),
        }
    }
}

impl TrackingPanel {
    /// Whether the view is to be pointed at the body now, which happens once.
    pub fn frame_now(&mut self, joints: usize) -> (now: bool)
        ensures
            now == (!old(self).framed && joints > 0),
            *final(self) == (TrackingPanel { framed: old(self).framed || now, ..*old(self) }),
    {
        let now: bool = !self.framed && joints > 0;
        if now {
            self.framed = true;
        }
        now
    }
}

/// What has to hold before anything is reconstructed. The useful answer is which
/// prerequisite is missing, not that tracking is off.
pub fn checklist(enabled: bool, running: bool, calibrated: bool) -> (checks: [Check; 3])
    ensures
        checks[0].met == enabled,
        checks[1].met == running,
        checks[2].met == calibrated,
        checks[0].needed@ == "Fusion enabled"@,
        checks[1].needed@ == "Cameras running with a model"@,
        checks[2].needed@ == "A calibrated room"@,
        checks[0].remedy@ == "turn it on under Settings below"@,
        checks[1].remedy@ == "start them in the Cameras panel"@,
        checks[2].remedy@ == "run the wizard in the Calibration panel"@,
{
    [
        Check {
            needed: "Fusion enabled",
            met: enabled,
            remedy: "turn it on under Settings below",
        },
        Check {
            needed: "Cameras running with a model",
            met: running,
            remedy: "start them in the Cameras panel",
        },
        Check {
            needed: "A calibrated room",
            met: calibrated,
            remedy: "run the wizard in the Calibration panel",
        },
    ]
}

/// How a joint is coloured.
#[derive(Debug, Clone, Copy, PartialEq, Eq, Structural)]
pub enum Quality {
    /// The fit placed it.
    Inferred,
    /// The cameras located it, this well.
    Seen(Grade),
}

/// How a positional uncertainty is coloured.
pub open spec fn quality_of(sigma: Scalar, inferred: bool) -> Quality {
    if inferred {
        Quality::Inferred
    } else if sigma.at_most(Scalar::of(GOOD_SIGMA)) {
        Quality::Seen(Grade::Good)
    } else if sigma.at_most(Scalar::of(POOR_SIGMA)) {
        Quality::Seen(Grade::Fair)
    } else {
        Quality::Seen(Grade::Bad)
    }
}

/// How a positional uncertainty, in metres, is coloured.
pub fn quality(sigma: Scalar, inferred: bool) -> (quality: Quality)
    ensures
        quality == quality_of(sigma, inferred),
{
    if inferred {
        return Quality::Inferred;
    }
    if sigma.le(Scalar::from_bits(GOOD_SIGMA)) {
        Quality::Seen(Grade::Good)
    } else if sigma.le(Scalar::from_bits(POOR_SIGMA)) {
        Quality::Seen(Grade::Fair)
    } else {
        Quality::Seen(Grade::Bad)
    }
}

/// How the floor's height is coloured.
pub fn floor_grade(floor: Scalar) -> (grade: Grade)
    ensures
        grade == if Scalar::of(floor.magnitude() as u64).at_most(Scalar::of(FLOOR_TOLERANCE)) {
            Grade::Good
        } else {
            Grade::Fair
        },
{
    let size: Scalar = floor.abs();
    assert(size == Scalar::of(floor.magnitude() as u64));
    if size.le(Scalar::from_bits(FLOOR_TOLERANCE)) {
        Grade::Good
    } else {
        Grade::Fair
    }
}

/// A bone as it is drawn: which one, and how its colour is chosen.
#[derive(Debug, Clone, Copy, PartialEq, Eq, Structural)]
pub struct DrawnBone {
    pub bone: Bone,
    pub quality: Quality,
}

/// A bone as it is drawn, if both its ends are there. It is only as trustworthy
/// as its worse end.
pub open spec fn drawn(bone: Bone, joints: Seq<Option<FilteredJoint>>) -> Option<DrawnBone> {
    match (joints[bone.from.place()], joints[bone.to.place()]) {
        (Some(from), Some(to)) => Some(
            DrawnBone {
                bone,
                quality: quality_of(from.sigma.larger(to.sigma), from.inferred || to.inferred),
            },
        ),
        _ => None,
    }
}

/// The bones drawn among the first `n`.
pub open spec fn drawn_among(joints: Seq<Option<FilteredJoint>>, n: nat) -> Seq<DrawnBone>
    decreases n,
{
    if n == 0 {
        Seq::empty()
    } else {
        let before = drawn_among(joints, (n - 1) as nat);
        match drawn(bone_at(n - 1), joints) {
            Some(bone) => before.push(bone),
            None => before,
        }
    }
}

/// The bones to draw.
pub fn drawn_bones(filtered: &Filtered) -> (drawn: Vec<DrawnBone>)
    ensures
        drawn@ == drawn_among(filtered.joints@, BONE_COUNT as nat),
{
    let all = bones();
    let mut drawn: Vec<DrawnBone> = Vec::new();
    let mut i: usize = 0;
    while i < BONE_COUNT
        invariant
            i <= BONE_COUNT,
            all@ == skeleton_bones(),
            drawn@ == drawn_among(filtered.joints@, i as nat),
        decreases BONE_COUNT - i,
    {
        let bone: Bone = all[i];
        if let (Some(from), Some(to)) = (filtered.get(bone.from), filtered.get(bone.to)) {
            drawn.push(
                DrawnBone {
                    bone,
                    quality: quality(from.sigma.max(to.sigma), from.inferred || to.inferred),
                },
            );
        }
        i = i + 1;
    }
    drawn
}

/// How a camera's row is coloured.
#[derive(Debug, Clone, Copy, PartialEq, Eq, Structural)]
pub enum CameraRow {
    /// It is not being used, and the reason stands in the row.
    Unused,
    /// It is being used: whether it keeps up, and whether it is outvoted too
    /// often.
    Used { keeping_up: Grade, outvoted: bool },
}

/// How a camera's row is coloured.
pub fn camera_row(camera: &CameraContribution) -> (row: CameraRow)
    ensures
        row == if camera.problem is Some {
            CameraRow::Unused
        } else {
            CameraRow::Used {
                keeping_up: if Scalar::of(KEEPS_UP).less(camera.aligned) {
                    Grade::Good
                } else {
                    Grade::Fair
                },
                outvoted: !camera.rejected.less(Scalar::of(OUTVOTED)),
            }
        },
{
    if camera.problem.is_some() {
        return CameraRow::Unused;
    }
    let keeping_up: Grade = if Scalar::from_bits(KEEPS_UP).lt(camera.aligned) {
        Grade::Good
    } else {
        Grade::Fair
    };
    CameraRow::Used { keeping_up, outvoted: !camera.rejected.lt(Scalar::from_bits(OUTVOTED)) }
}

/// A joint's row.
#[derive(Debug, Clone)]
pub struct JointRow {
    pub joint: Joint,
    /// What the cameras say of it, if they saw it.
    pub seen: Option<SeenJoint>,
    /// How far the fit moved it, in metres, if it was there to be moved.
    pub moved: Option<Scalar>,
}

/// What the cameras say of a joint.
#[derive(Debug, Clone)]
pub struct SeenJoint {
    pub rays: usize,
    pub sigma: Scalar,
    pub quality: Quality,
    /// How far off its rays are, in radians.
    pub residual: Scalar,
    /// The cameras that were dropped for disagreeing.
    pub dropped: Vec<usize>,
}

/// A joint's row as mathematical values.
pub struct JointRowModel {
    pub joint: Joint,
    pub seen: Option<SeenJointModel>,
    pub moved: Option<Scalar>,
}

/// What the cameras say of a joint, as mathematical values.
pub struct SeenJointModel {
    pub rays: nat,
    pub sigma: Scalar,
    pub quality: Quality,
    pub residual: Scalar,
    pub dropped: Seq<usize>,
}

impl View for SeenJoint {
    type V = SeenJointModel;

    open spec fn view(&self) -> SeenJointModel {
        SeenJointModel {
            rays: self.rays as nat,
            sigma: self.sigma,
            quality: self.quality,
            residual: self.residual,
            dropped: self.dropped@,
        }
    }
}

impl View for JointRow {
    type V = JointRowModel;

    open spec fn view(&self) -> JointRowModel {
        JointRowModel {
            joint: self.joint,
            seen: match self.seen {
                Some(seen) => Some(seen@),
                None => None,
            },
            moved: self.moved,
        }
    }
}

/// The rows of a table as mathematical values.
pub open spec fn models_of(rows: Seq<JointRow>) -> Seq<JointRowModel> {
    rows.map_values(|row: JointRow| row@)
}

/// A joint's row, if it is placed at all.
pub open spec fn row_of(
    joint: Joint,
    fitted: Option<FittedJoint>,
    raw: Option<FusedJoint>,
) -> Option<JointRowModel> {
    match fitted {
        Some(fitted) => Some(
            JointRowModel {
                joint,
                seen: match raw {
                    Some(fused) => Some(
                        SeenJointModel {
                            rays: fused.weights@.len(),
                            sigma: fused.sigma,
                            quality: quality_of(fused.sigma, false),
                            residual: fused.residual,
                            dropped: fused.rejected@,
                        },
                    ),
                    None => None,
                },
                moved: if fitted.inferred {
                    None
                } else {
                    Some(fitted.correction)
                },
            },
        ),
        None => None,
    }
}

/// The rows of the first `n` joints.
pub open spec fn rows_among(
    fitted: Seq<Option<FittedJoint>>,
    raw: Seq<Option<FusedJoint>>,
    n: nat,
) -> Seq<JointRowModel>
    decreases n,
{
    if n == 0 {
        Seq::empty()
    } else {
        let before = rows_among(fitted, raw, (n - 1) as nat);
        match row_of(Joint::ALL@[n - 1], fitted[n - 1], raw[n - 1]) {
            Some(row) => before.push(row),
            None => before,
        }
    }
}

/// The rows of the joint table: every joint that is placed, whether the cameras
/// saw it or the fit put it where the joints around it say it has to be.
pub fn joint_rows(fitted: &Fitted, raw: &Pose3d) -> (rows: Vec<JointRow>)
    ensures
        models_of(rows@) == rows_among(fitted.joints@, raw.joints@, JOINTS as nat),
{
    let mut rows: Vec<JointRow> = Vec::new();
    let mut i: usize = 0;
    assert(models_of(rows@) =~= Seq::empty());
    while i < JOINTS
        invariant
            i <= JOINTS,
            models_of(rows@) == rows_among(fitted.joints@, raw.joints@, i as nat),
        decreases JOINTS - i,
    {
        let joint: Joint = Joint::ALL[i];
        proof {
            all_joints_stand_at_their_index(joint);
        }
        if let Some(placed) = fitted.get(joint) {
            let seen: Option<SeenJoint> = match raw.get(joint) {
                Some(fused) => {
                    let dropped: Vec<usize> = fused.rejected.clone();
                    assert(dropped@ =~= fused.rejected@);
                    Some(
                        SeenJoint {
                            rays: fused.rays(),
                            sigma: fused.sigma,
                            quality: quality(fused.sigma, false),
                            residual: fused.residual,
                            dropped,
                        },
                    )
                },
                None => None,
            };
            let moved: Option<Scalar> = if placed.inferred {
                None
            } else {
                Some(placed.correction)
            };
            let ghost before = rows@;
            let row = JointRow { joint, seen, moved };
            let ghost model = row@;
            rows.push(row);
            assert(models_of(rows@) =~= models_of(before).push(model));
        }
        i = i + 1;
    }
    rows
}

/// Whether the measured leg and the headset's height disagree, given by how much.
///
/// They are two independent measurements of the same person, and when they do
/// not agree it is the calibration that is wrong, so this reports rather than
/// corrects.
pub fn leg_disagrees(difference: Scalar) -> (disagrees: bool)
    ensures
        disagrees == Scalar::of(LEG_TOLERANCE).less(
            Scalar::of(difference.magnitude() as u64),
        ),
{
    let size: Scalar = difference.abs();
    assert(size == Scalar::of(difference.magnitude() as u64));
    Scalar::from_bits(LEG_TOLERANCE).lt(size)
}

/// A joint that was made up is no better for how well it is located; one that was seen
/// is good within a centimetre, fair within four, and bad past that or where it is not
/// known.
pub proof fn a_joint_is_graded_by_how_well_it_is_located(sigma: Scalar)
    ensures
        quality_of(sigma, true) == Quality::Inferred,
        quality_of(sigma, false) == Quality::Seen(Grade::Good) <==> sigma.at_most(
            Scalar::of(0x3f84_7ae1_47ae_147b),
        ),
        quality_of(sigma, false) == Quality::Seen(Grade::Bad) <==> !sigma.at_most(
            Scalar::of(0x3fa4_7ae1_47ae_147b),
        ),
        quality_of(sigma, false) is Seen,
{
    lemma_worth_increases(0x3f84_7ae1_47ae_147b, 0x3fa4_7ae1_47ae_147b);
}

/// A bone is drawn exactly if both its ends are there, as well as the worse of them is
/// located, and as made up if either is.
pub proof fn a_bone_is_drawn_as_its_worse_end(bone: Bone, joints: Seq<Option<FilteredJoint>>)
    ensures
        ({
            let (a, b) = (joints[bone.from.place()], joints[bone.to.place()]);
            let shown = drawn(bone, joints);
            &&& shown is Some <==> a is Some && b is Some
            &&& shown is Some ==> shown->0.bone == bone
            &&& shown is Some && (a->0.inferred || b->0.inferred) ==> shown->0.quality
                == Quality::Inferred
            &&& shown is Some && !a->0.inferred && !b->0.inferred && !a->0.sigma.nan()
                && !b->0.sigma.nan() ==> (shown->0.quality == quality_of(a->0.sigma, false)
                && b->0.sigma.at_most(a->0.sigma)) || (shown->0.quality == quality_of(
                b->0.sigma,
                false,
            ) && a->0.sigma.at_most(b->0.sigma))
        }),
{
}

/// Exactly the bones with both ends there are drawn, in order.
pub proof fn every_bone_with_both_ends_is_drawn(joints: Seq<Option<FilteredJoint>>, n: nat) -> (from:
    Seq<int>)
    ensures
        increasing(from),
        from.len() == drawn_among(joints, n).len(),
        forall|i: int| #[trigger]
            from.contains(i) <==> 0 <= i < n && joints[bone_at(i).from.place()] is Some
                && joints[bone_at(i).to.place()] is Some,
        forall|k: int|
            0 <= k < from.len() ==> drawn_among(joints, n)[k] == drawn(
                bone_at(#[trigger] from[k]),
                joints,
            )->0,
    decreases n,
{
    if n == 0 {
        Seq::empty()
    } else {
        let before = every_bone_with_both_ends_is_drawn(joints, (n - 1) as nat);
        let more = drawn(bone_at(n - 1), joints) is Some;
        let from = if more {
            before.push(n - 1)
        } else {
            before
        };
        lemma_grown(before, from, more, n - 1);
        let list = drawn_among(joints, n);
        assert forall|k: int| 0 <= k < from.len() implies list[k] == drawn(
            bone_at(#[trigger] from[k]),
            joints,
        )->0 by {
            if k < before.len() {
                assert(before[k] == from[k]);
                assert(drawn_among(joints, (n - 1) as nat)[k] == list[k]);
            }
        }
        from
    }
}

/// A joint has a row exactly if the fit has it; what the cameras say of it is told as
/// they said it, and how far it was moved unless it was made up.
pub proof fn a_row_tells_what_is_known_of_a_joint(
    joint: Joint,
    fitted: Option<FittedJoint>,
    raw: Option<FusedJoint>,
)
    ensures
        ({
            let row = row_of(joint, fitted, raw);
            &&& row is Some <==> fitted is Some
            &&& row is Some ==> row->0.joint == joint && (row->0.seen is Some <==> raw is Some) && (
            row->0.moved is Some <==> !fitted->0.inferred)
            &&& row is Some && row->0.moved is Some ==> row->0.moved->0 == fitted->0.correction
            &&& row is Some && raw is Some ==> {
                let seen = row->0.seen->0;
                &&& seen.rays == raw->0.weights@.len()
                &&& seen.sigma == raw->0.sigma
                &&& seen.residual == raw->0.residual
                &&& seen.dropped == raw->0.rejected@
                &&& seen.quality is Seen
                &&& seen.quality == quality_of(raw->0.sigma, false)
            }
        }),
{
}

/// Exactly the joints that the fit has are listed, in order.
pub proof fn every_fitted_joint_has_a_row(
    fitted: Seq<Option<FittedJoint>>,
    raw: Seq<Option<FusedJoint>>,
    n: nat,
) -> (from: Seq<int>)
    requires
        n <= fitted.len(),
    ensures
        increasing(from),
        from.len() == rows_among(fitted, raw, n).len(),
        forall|i: int| #[trigger] from.contains(i) <==> 0 <= i < n && fitted[i] is Some,
        forall|k: int|
            0 <= k < from.len() ==> rows_among(fitted, raw, n)[k] == row_of(
                Joint::ALL@[#[trigger] from[k]],
                fitted[from[k]],
                raw[from[k]],
            )->0,
    decreases n,
{
    if n == 0 {
        Seq::empty()
    } else {
        let before = every_fitted_joint_has_a_row(fitted, raw, (n - 1) as nat);
        let more = fitted[n - 1] is Some;
        let from = if more {
            before.push(n - 1)
        } else {
            before
        };
        lemma_grown(before, from, more, n - 1);
        let list = rows_among(fitted, raw, n);
        assert forall|k: int| 0 <= k < from.len() implies list[k] == row_of(
            Joint::ALL@[#[trigger] from[k]],
            fitted[from[k]],
            raw[from[k]],
        )->0 by {
            if k < before.len() {
                assert(before[k] == from[k]);
                assert(rows_among(fitted, raw, (n - 1) as nat)[k] == list[k]);
            }
        }
        from
    }
}

/// The floor may be six centimetres off and a leg eight; a camera keeps up that has nine
/// frames in ten, and may be outvoted once in five times.
pub proof fn what_a_body_is_held_to()
    ensures
        FLOOR_TOLERANCE == 0x3fae_b851_eb85_1eb8,
        LEG_TOLERANCE == 0x3fb4_7ae1_47ae_147b,
        KEEPS_UP == 0x3fec_cccc_c000_0000,
        OUTVOTED == 0x3fc9_9999_a000_0000,
{
}

} // verus!
