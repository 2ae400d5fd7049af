//! Holding the body to what a body can do.

use nalgebra::{Point3, Vector3};

use optra::fusion::bones::{bones, Bone, BoneLength, MeasureOptions, Skeleton};
use optra::fusion::fit::{hold_above_floor, FitOptions, Fitted, Fitter, Node, Step};
use optra::fusion::fuse::{FusedJoint, Pose3d};
use optra::models::{Joint, JointMap};
use optra::scalar::Scalar;
use optra::time::Instant;

fn scalar(number: f64) -> Scalar {
    Scalar::from_bits(number.to_bits())
}

fn number(scalar: Scalar) -> f64 {
    f64::from_bits(scalar.bits)
}

fn outward(point: Point3<f64>) -> optra::geometry::Point3 {
    optra::geometry::Point3 { x: scalar(point.x), y: scalar(point.y), z: scalar(point.z) }
}

fn inward(point: optra::geometry::Point3) -> Point3<f64> {
    Point3::new(number(point.x), number(point.y), number(point.z))
}

fn joint(point: Point3<f64>, sigma: f64) -> FusedJoint {
    FusedJoint {
        point: outward(point),
        sigma: scalar(sigma),
        residual: scalar(0.0),
        weights: vec![(0, scalar(0.5)), (1, scalar(0.5))],
        rejected: Vec::new(),
    }
}

/// A standing body with a known anatomy.
fn standing() -> Vec<(Joint, Point3<f64>)> {
    vec![
        (Joint::Hip, Point3::new(0.0, 0.95, 0.0)),
        (Joint::LeftHip, Point3::new(-0.12, 0.95, 0.0)),
        (Joint::RightHip, Point3::new(0.12, 0.95, 0.0)),
        (Joint::LeftKnee, Point3::new(-0.12, 0.51, 0.0)),
        (Joint::RightKnee, Point3::new(0.12, 0.51, 0.0)),
        (Joint::LeftAnkle, Point3::new(-0.12, 0.09, 0.0)),
        (Joint::RightAnkle, Point3::new(0.12, 0.09, 0.0)),
    ]
}

fn pose_from(joints: &[(Joint, Point3<f64>)], sigma: f64) -> Pose3d {
    let mut pose = Pose3d::empty(Instant { nanos: 1 });
    for (name, point) in joints {
        pose.set(*name, joint(*point, sigma));
    }
    pose
}

/// The skeleton the standing body implies.
fn measured() -> Skeleton {
    let body = standing();
    let found = bones()
        .iter()
        .filter_map(|bone| {
            let from = body.iter().find(|(name, _)| *name == bone.from)?.1;
            let to = body.iter().find(|(name, _)| *name == bone.to)?.1;
            Some(BoneLength {
                bone: *bone,
                length: scalar((to - from).norm()),
                samples: 400,
                scatter: scalar(0.0),
                relative: scalar(0.0),
            })
        })
        .collect();
    Skeleton { bones: found, measured_at: None }
}

/// Runs the fit, with the steps carried out in floating point.
fn run(fitter: &mut Fitter, pose: &Pose3d, skeleton: &Skeleton) -> Fitted {
    let mut nodes = fitter.seed(pose);
    let steps = fitter.pass(&nodes, skeleton);
    for _ in 0..fitter.options().passes {
        for step in &steps {
            match step {
                Step::Length(constraint) => {
                    enforce(&mut nodes, constraint.bone, number(constraint.length));
                }
                Step::Knee(leg) => limit_knee(&mut nodes, leg.hip, leg.knee, leg.ankle),
                Step::Floor => hold_above_floor(&mut nodes, fitter.options().floor),
            }
        }
    }
    let mut moved = JointMap::empty();
    for name in Joint::ALL {
        if let Some(Node { point, observed: Some(observed), .. }) = nodes.get(name) {
            moved.set(name, scalar((inward(*point) - inward(*observed)).norm()));
        }
    }
    fitter.fit(pose, &nodes, &moved)
}

fn shift(nodes: &mut JointMap<Node>, name: Joint, by: Vector3<f64>) {
    let node = *nodes.get(name).unwrap();
    nodes.set(name, Node { point: outward(inward(node.point) + by), ..node });
}

fn enforce(nodes: &mut JointMap<Node>, bone: Bone, length: f64) {
    let (from, to) = (*nodes.get(bone.from).unwrap(), *nodes.get(bone.to).unwrap());
    let along = inward(to.point) - inward(from.point);
    let distance = along.norm();
    let give = |node: Node| number(node.sigma) * number(node.sigma);
    let total = give(from) + give(to);
    if distance < 1e-9 || total < 1e-18 {
        return;
    }
    let correction = along * ((distance - length) / distance);
    shift(nodes, bone.from, correction * (give(from) / total));
    shift(nodes, bone.to, -correction * (give(to) / total));
}

fn limit_knee(nodes: &mut JointMap<Node>, hip: Joint, knee: Joint, ankle: Joint) {
    let at = |name: Joint| inward(nodes.get(name).unwrap().point);
    let across = at(Joint::RightHip) - at(Joint::LeftHip);
    let forward = Vector3::y().cross(&across);
    if forward.norm() <= 1e-3 {
        return;
    }
    let forward = forward.normalize();
    let axis = at(ankle) - at(hip);
    if axis.norm() < 1e-6 {
        return;
    }
    let axis = axis.normalize();
    let offset = at(knee) - at(hip);
    let sideways = offset - axis * offset.dot(&axis);
    let bend = sideways.dot(&forward);
    if bend < 0.0 {
        shift(nodes, knee, -forward * (2.0 * bend));
    }
}

fn fitter() -> Fitter {
    Fitter::new(FitOptions::default())
}

fn position(fitted: &Fitted, name: Joint) -> Point3<f64> {
    inward(fitted.position(name).unwrap())
}

#[test]
fn a_body_that_already_fits_is_left_alone() {
    let fitted = run(&mut fitter(), &pose_from(&standing(), 0.005), &measured());

    assert_eq!(fitted.count(), standing().len());
    for (name, truth) in standing() {
        let point = position(&fitted, name);
        assert!((point - truth).norm() < 1e-6, "{name:?} moved to {point:?} from {truth:?}");
    }
}

/// Noise that would lengthen a bone is impossible, so it can be removed outright
/// rather than smoothed away over time.
#[test]
fn a_stretched_limb_is_pulled_back_to_its_measured_length() {
    let skeleton = measured();
    let mut joints = standing();
    // Push the left ankle 6 cm further from the knee than the shin allows.
    joints.iter_mut().find(|(name, _)| *name == Joint::LeftAnkle).unwrap().1.y -= 0.06;

    let fitted = run(&mut fitter(), &pose_from(&joints, 0.02), &skeleton);
    let shin = number(skeleton.length(Bone::new(Joint::LeftKnee, Joint::LeftAnkle)).unwrap());
    let came_out = (position(&fitted, Joint::LeftAnkle) - position(&fitted, Joint::LeftKnee)).norm();

    assert!(
        (came_out - shin).abs() < 0.005,
        "the shin came out at {came_out} against a measured {shin}"
    );
}

/// The joint that was measured well should stay put and the uncertain one should
/// give way, not the other way round.
#[test]
fn the_uncertain_joint_is_the_one_that_moves() {
    let mut joints = standing();
    joints.iter_mut().find(|(name, _)| *name == Joint::LeftAnkle).unwrap().1.y -= 0.06;

    let mut pose = pose_from(&joints, 0.004);
    // The ankle is the joint nobody could place well.
    pose.set(Joint::LeftAnkle, joint(Point3::new(-0.12, 0.03, 0.0), 0.05));

    let fitted = run(&mut fitter(), &pose, &measured());
    let knee_moved = number(fitted.get(Joint::LeftKnee).unwrap().correction);
    let ankle_moved = number(fitted.get(Joint::LeftAnkle).unwrap().correction);

    assert!(
        ankle_moved > 10.0 * knee_moved,
        "the ankle moved {ankle_moved} and the knee {knee_moved}"
    );
}

#[test]
fn nothing_is_left_below_the_floor() {
    let joints: Vec<_> = standing()
        .into_iter()
        .map(|(name, mut point)| {
            point.y -= 0.15;
            (name, point)
        })
        .collect();

    let fitted = run(&mut fitter(), &pose_from(&joints, 0.02), &measured());

    for name in Joint::ALL {
        if let Some(joint) = fitted.get(name) {
            assert!(number(joint.point.y) >= -1e-9, "{name:?} ended up at {}", number(joint.point.y));
        }
    }
}

/// A joint that goes out of sight should be placed by its neighbours, not frozen
/// where it was last seen.
#[test]
fn an_unseen_joint_is_placed_by_the_joints_around_it() {
    let skeleton = measured();
    let mut fitter = fitter();
    run(&mut fitter, &pose_from(&standing(), 0.004), &skeleton);

    // The user takes a step: everything moves half a metre except the left knee,
    // which nothing can see any more.
    let moved: Vec<_> = standing()
        .into_iter()
        .filter(|(name, _)| *name != Joint::LeftKnee)
        .map(|(name, mut point)| {
            point.z -= 0.5;
            (name, point)
        })
        .collect();

    let fitted = run(&mut fitter, &pose_from(&moved, 0.004), &skeleton);
    let knee = fitted.get(Joint::LeftKnee).expect("it should be filled in");

    assert!(knee.inferred);
    assert_eq!(fitted.inferred(), 1);
    assert!(
        number(knee.point.z) < -0.35,
        "the knee stayed behind at z = {}",
        number(knee.point.z)
    );

    let thigh = number(skeleton.length(Bone::new(Joint::LeftHip, Joint::LeftKnee)).unwrap());
    let sits = (inward(knee.point) - position(&fitted, Joint::LeftHip)).norm();
    assert!((sits - thigh).abs() < 0.01, "the inferred knee sits {sits} from its hip, not {thigh}");
}

#[test]
fn a_joint_that_was_never_seen_is_not_invented() {
    let partial: Vec<_> =
        standing().into_iter().filter(|(name, _)| *name != Joint::LeftKnee).collect();
    let fitted = run(&mut fitter(), &pose_from(&partial, 0.004), &measured());

    assert!(fitted.get(Joint::LeftKnee).is_none());
}

fn bent(knee: Point3<f64>) -> Vec<(Joint, Point3<f64>)> {
    let mut joints = standing();
    for (name, point) in joints.iter_mut() {
        match name {
            Joint::LeftKnee => *point = knee,
            Joint::LeftAnkle => *point = Point3::new(-0.12, 0.18, 0.0),
            _ => {}
        }
    }
    joints
}

/// A leg cannot bend backwards. The cameras will nonetheless say it does, and
/// left alone the leg snaps between two mirror-image bends.
#[test]
fn a_backwards_knee_is_folded_the_right_way() {
    let joints = bent(Point3::new(-0.12, 0.55, 0.14));
    let fitted = run(&mut fitter(), &pose_from(&joints, 0.02), &measured());
    let knee = position(&fitted, Joint::LeftKnee);

    // The body faces -Z, so a knee in front of the hip-ankle line has negative z
    // here.
    assert!(knee.z < 0.0, "the knee stayed behind the leg at z = {}", knee.z);
}

#[test]
fn a_forwards_knee_is_left_where_it_is() {
    let joints = bent(Point3::new(-0.12, 0.55, -0.14));
    let fitted = run(&mut fitter(), &pose_from(&joints, 0.004), &measured());
    let knee = position(&fitted, Joint::LeftKnee);

    assert!((knee - Point3::new(-0.12, 0.55, -0.14)).norm() < 0.02);
}

/// Without a measurement there is nothing to hold the body to.
#[test]
fn an_unmeasured_body_is_not_reshaped() {
    let pose = pose_from(&standing(), 0.005);
    let fitted = run(&mut fitter(), &pose, &Skeleton::default());

    for (name, truth) in standing() {
        assert!((position(&fitted, name) - truth).norm() < 1e-9);
    }
}

/// A length that never settled is a number out of noise, and holding the body to
/// it is worse than holding it to nothing.
#[test]
fn an_unsettled_length_is_not_enforced() {
    let skeleton = Skeleton {
        bones: vec![BoneLength {
            bone: Bone::new(Joint::LeftKnee, Joint::LeftAnkle),
            length: scalar(0.20),
            samples: 4,
            scatter: scalar(0.15),
            relative: scalar(0.15 / 0.20),
        }],
        measured_at: None,
    };

    let fitted = run(&mut fitter(), &pose_from(&standing(), 0.005), &skeleton);
    let shin = (position(&fitted, Joint::LeftAnkle) - position(&fitted, Joint::LeftKnee)).norm();
    assert!((shin - 0.42).abs() < 1e-6, "the shin was dragged to {shin}");
}

/// A skeleton that disagrees with the cameras is a real failure. The fit cannot
/// resolve it, but it must not hide it either.
#[test]
fn a_hopeless_disagreement_is_reported() {
    let skeleton = Skeleton {
        bones: vec![BoneLength {
            bone: Bone::new(Joint::LeftHip, Joint::LeftKnee),
            length: scalar(1.40),
            samples: 4000,
            scatter: scalar(0.001),
            relative: scalar(0.001 / 1.40),
        }],
        measured_at: None,
    };

    let fitted = run(&mut fitter(), &pose_from(&standing(), 0.005), &skeleton);
    let worst = number(fitted.worst_correction());
    assert!(worst > 0.3, "a metre of disagreement was reported as {worst}");
    // And a body that fits reports nothing, so the number means something.
    let honest = run(&mut fitter(), &pose_from(&standing(), 0.005), &measured());
    assert!(number(honest.worst_correction()) < 1e-6);
}

#[test]
fn a_pass_ends_with_the_floor() {
    let fitter = fitter();
    let nodes = fitter.seed(&pose_from(&standing(), 0.005));
    let steps = fitter.pass(&nodes, &measured());
    // Seven bones have both ends, then the two knees, then the floor.
    assert_eq!(steps.len(), 7 + 2 + 1);
    assert!(matches!(steps[7], Step::Knee(leg) if leg.knee == Joint::LeftKnee));
    assert!(matches!(steps[8], Step::Knee(leg) if leg.knee == Joint::RightKnee));
    assert_eq!(steps[9], Step::Floor);

    let mut legless = Fitter::new(FitOptions { limit_knees: false, ..FitOptions::default() });
    assert_eq!(legless.pass(&nodes, &Skeleton::default()), vec![Step::Floor]);
    legless.set_options(FitOptions::default());
    assert!(legless.options().limit_knees);
}

#[test]
fn a_joint_too_sure_of_itself_is_credited_with_some_doubt() {
    let fitter = fitter();
    let nodes = fitter.seed(&pose_from(&standing(), 0.0001));
    assert_eq!(number(nodes.get(Joint::Hip).unwrap().sigma), 0.003);
    assert_eq!(fitter.options().measure, MeasureOptions::default());
}

#[test]
fn a_reset_forgets_the_previous_pose() {
    let mut fitter = fitter();
    run(&mut fitter, &pose_from(&standing(), 0.004), &measured());
    assert!(fitter.seed(&Pose3d::empty(Instant { nanos: 2 })).count() == 7);
    fitter.reset();
    assert!(fitter.seed(&Pose3d::empty(Instant { nanos: 2 })).is_empty());
}
