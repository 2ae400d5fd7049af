//! Measuring the body.

use optra::fusion::bones::{
    bones, median_pair, outstanding, spans as shown, Bone, BoneLength, BoneMeter, MeasureOptions, Skeleton, Span, BONE_COUNT,
};
use optra::fusion::fuse::{FusedJoint, Pose3d};
use optra::geometry::Point3;
use optra::models::Joint;
use optra::scalar::Scalar;
use optra::time::Instant;

fn scalar(number: f64) -> Scalar {
    Scalar::from_bits(number.to_bits())
}

fn number(scalar: Scalar) -> f64 {
    f64::from_bits(scalar.bits)
}

type Pose = Vec<(Joint, [f64; 3], f64)>;

/// A body with legs of a known length, jittered by `noise` metres in a
/// repeatable pattern.
fn pose(step: usize, thigh: f64, noise: f64, sigma: f64) -> Pose {
    let wobble = |phase: f64| noise * ((step as f64 * 1.7 + phase).sin());
    vec![
        (Joint::LeftHip, [-0.12, 0.95, 0.0], sigma),
        (Joint::RightHip, [0.12, 0.95, 0.0], sigma),
        (Joint::LeftKnee, [-0.12, 0.95 - thigh + wobble(0.0), 0.0], sigma),
        (Joint::RightKnee, [0.12, 0.95 - thigh + wobble(2.0), 0.0], sigma),
    ]
}

/// What a pose shows of each bone.
fn spans(pose: &Pose) -> Vec<Option<Span>> {
    let mut fused = Pose3d::empty(Instant { nanos: 0 });
    for (joint, at, sigma) in pose {
        fused.set(
            *joint,
            FusedJoint {
                point: Point3 { x: scalar(at[0]), y: scalar(at[1]), z: scalar(at[2]) },
                sigma: scalar(*sigma),
                residual: scalar(0.0),
                weights: Vec::new(),
                rejected: Vec::new(),
            },
        );
    }
    let length = |bone: &Bone| {
        let find = |end: Joint| pose.iter().find(|(joint, _, _)| *joint == end);
        let (Some(from), Some(to)) = (find(bone.from), find(bone.to)) else { return 0.0 };
        (0..3).map(|axis| (to.1[axis] - from.1[axis]).powi(2)).sum::<f64>().sqrt()
    };
    shown(&fused, &bones().iter().map(|bone| scalar(length(bone))).collect())
}

#[test]
fn a_bone_is_shown_where_a_pose_has_both_its_ends() {
    let pose: Pose = vec![
        (Joint::LeftHip, [0.0, 0.9, 0.0], 0.01),
        (Joint::LeftKnee, [0.0, 0.5, 0.0], 0.02),
        (Joint::RightKnee, [0.0, 0.5, 0.0], 0.03),
    ];
    for (bone, span) in bones().iter().zip(spans(&pose)) {
        if *bone == Bone::new(Joint::LeftHip, Joint::LeftKnee) {
            let span = span.expect("both ends are there");
            assert_eq!((span.from_sigma, span.to_sigma), (scalar(0.01), scalar(0.02)));
            assert!((number(span.length) - 0.4).abs() < 1e-12);
        } else {
            assert_eq!(span, None, "{bone:?}");
        }
    }
}

/// Either side of the body measures both, each bone is read off once, and no more
/// is kept than there is room for.
#[test]
fn a_leg_seen_on_one_side_is_read_off_on_both() {
    let mut meter = BoneMeter::new(MeasureOptions { capacity: 4, ..MeasureOptions::default() });
    for step in 0..6 {
        let pose: Pose = vec![
            (Joint::RightHip, [0.0, 1.0, 0.0], 0.01),
            (Joint::RightKnee, [0.0, 0.5 - step as f64, 0.0], 0.01),
            // Too unsure to count.
            (Joint::RightAnkle, [0.0, 0.1, 0.0], 0.5),
        ];
        meter.observe(&spans(&pose));
    }
    let found = meter.finish();
    let read: Vec<Bone> = found.iter().map(|reading| reading.bone).collect();
    assert_eq!(
        read,
        vec![
            Bone::new(Joint::LeftHip, Joint::LeftKnee),
            Bone::new(Joint::RightHip, Joint::RightKnee),
        ]
    );
    for reading in found {
        assert_eq!(reading.samples, 4);
        assert_eq!((number(reading.low), number(reading.high)), (3.5, 4.5));
    }
}

fn median(values: &[f64]) -> f64 {
    let scalars: Vec<Scalar> = values.iter().map(|value| scalar(*value)).collect();
    let (low, high) = median_pair(&scalars);
    if values.len() % 2 == 1 {
        number(low)
    } else {
        0.5 * (number(low) + number(high))
    }
}

/// The measurement a meter leads to.
fn finish(meter: &BoneMeter) -> Skeleton {
    let table = bones();
    let found = meter
        .finish()
        .iter()
        .map(|reading| {
            let length = if reading.samples % 2 == 1 {
                number(reading.low)
            } else {
                0.5 * (number(reading.low) + number(reading.high))
            };
            let at = table.iter().position(|bone| *bone == reading.bone).unwrap();
            let deviations: Vec<f64> = meter
                .family_samples(at)
                .iter()
                .map(|sample| (number(*sample) - length).abs())
                .collect();
            let scatter = median(&deviations) * 1.4826;
            BoneLength {
                bone: reading.bone,
                length: scalar(length),
                samples: reading.samples,
                scatter: scalar(scatter),
                relative: scalar(scatter / length),
            }
        })
        .collect();
    Skeleton { bones: found, measured_at: None }
}

#[test]
fn a_bone_is_measured_from_the_poses_it_appears_in() {
    let mut meter = BoneMeter::default();
    for step in 0..400 {
        meter.observe(&spans(&pose(step, 0.44, 0.005, 0.004)));
    }

    let skeleton = finish(&meter);
    let thigh = skeleton
        .get(Bone::new(Joint::LeftHip, Joint::LeftKnee))
        .expect("the thigh was visible throughout");

    assert!(
        (number(thigh.length) - 0.44).abs() < 0.005,
        "measured {} instead of 0.44",
        number(thigh.length)
    );
    assert!(thigh.is_settled(&MeasureOptions::default()));
}

/// Both sides pool their samples, so a leg the cameras half-see still gets a
/// length from the one they see well.
#[test]
fn the_two_sides_of_the_body_share_one_measurement() {
    let mut meter = BoneMeter::default();
    for step in 0..400 {
        let mut pose = pose(step, 0.44, 0.004, 0.004);
        // The right knee is only visible now and then.
        if step % 20 != 0 {
            pose.retain(|(joint, _, _)| *joint != Joint::RightKnee);
        }
        meter.observe(&spans(&pose));
    }

    let skeleton = finish(&meter);
    let left = skeleton.get(Bone::new(Joint::LeftHip, Joint::LeftKnee)).unwrap();
    let right = skeleton.get(Bone::new(Joint::RightHip, Joint::RightKnee)).unwrap();

    assert_eq!(left.length, right.length);
    assert!(right.is_settled(&MeasureOptions::default()));
}

/// A limb the model occasionally puts somewhere else produces samples wrong by
/// tens of centimetres. The median should not notice.
#[test]
fn occasional_nonsense_does_not_move_the_answer() {
    let mut meter = BoneMeter::default();
    for step in 0..400 {
        let thigh = if step % 9 == 0 { 0.90 } else { 0.44 };
        meter.observe(&spans(&pose(step, thigh, 0.004, 0.004)));
    }

    let thigh = number(finish(&meter).length(Bone::new(Joint::LeftHip, Joint::LeftKnee)).unwrap());
    assert!((thigh - 0.44).abs() < 0.01, "measured {thigh}");
}

/// Joints nobody could locate say nothing about the bone between them.
#[test]
fn uncertain_joints_are_not_measured() {
    let mut meter = BoneMeter::default();
    for step in 0..400 {
        meter.observe(&spans(&pose(step, 0.44, 0.05, 0.20)));
    }

    assert!(finish(&meter).bones.is_empty());
    assert_eq!(meter.poses(), 400);
}

/// A measurement that never settles has to say so, or the fit will hold the body
/// to a number that came out of noise.
#[test]
fn a_length_that_never_settles_is_not_reported_as_settled() {
    let mut meter = BoneMeter::default();
    for step in 0..400 {
        meter.observe(&spans(&pose(step, 0.44, 0.12, 0.01)));
    }

    let skeleton = finish(&meter);
    let thigh = skeleton.get(Bone::new(Joint::LeftHip, Joint::LeftKnee)).unwrap();
    assert!(!thigh.is_settled(&MeasureOptions::default()));
    assert!(number(thigh.scatter) > 0.04, "scatter was {}", number(thigh.scatter));
}

#[test]
fn every_bone_has_a_mirror_that_is_also_a_bone() {
    let table = bones();
    for bone in &table {
        let mirrored = bone.mirror();
        // A bone that spans the midline mirrors onto itself with its ends
        // swapped, which is the same segment and needs no separate entry.
        let spans_the_midline = mirrored == Bone::new(bone.to, bone.from);
        assert!(
            table.contains(&mirrored) || spans_the_midline,
            "{} has no mirror in the table",
            bone.label()
        );
        assert_eq!(
            bone.family(),
            mirrored.family(),
            "{} and its mirror must pool their samples",
            bone.label()
        );
    }
}

#[test]
fn coverage_grows_as_bones_settle() {
    let options = MeasureOptions::default();
    let mut meter = BoneMeter::default();
    assert_eq!(finish(&meter).coverage(&options), 0);

    for step in 0..400 {
        meter.observe(&spans(&pose(step, 0.44, 0.004, 0.004)));
    }

    let coverage = finish(&meter).coverage(&options);
    assert!(coverage > 0 && coverage < BONE_COUNT, "coverage {coverage}");
}

#[test]
fn a_bone_is_named_by_its_ends() {
    assert_eq!(Bone::new(Joint::LeftHip, Joint::LeftKnee).label(), "left hip - left knee");
    assert_eq!(
        Bone::new(Joint::RightHip, Joint::RightKnee).family(),
        Bone::new(Joint::LeftHip, Joint::LeftKnee)
    );
    assert_eq!(bones().len(), 22);
}

#[test]
fn the_oldest_samples_are_dropped() {
    let options = MeasureOptions { capacity: 3, ..MeasureOptions::default() };
    let mut meter = BoneMeter::new(options);
    for step in 0..5 {
        let length = 0.1 + step as f64;
        let pose: Pose = vec![
            (Joint::Neck, [0.0, 0.0, 0.0], 0.01),
            (Joint::Head, [0.0, length, 0.0], 0.01),
        ];
        meter.observe(&spans(&pose));
    }
    let at = bones().iter().position(|bone| bone.to == Joint::Head).unwrap();
    let kept: Vec<f64> = meter.family_samples(at).iter().map(|sample| number(*sample)).collect();
    assert_eq!(kept, vec![2.1, 3.1, 4.1]);

    meter.reset();
    assert_eq!(meter.poses(), 0);
    assert!(meter.family_samples(at).is_empty());
}

#[test]
fn an_even_count_has_two_middles() {
    let values: Vec<Scalar> = [4.0, 1.0, 3.0, 2.0].iter().map(|value| scalar(*value)).collect();
    assert_eq!(median_pair(&values), (scalar(2.0), scalar(3.0)));
}

#[test]
fn a_leg_is_a_thigh_and_a_shin() {
    let entry = |bone: Bone, length: f64, samples: usize| BoneLength {
        bone,
        length: scalar(length),
        samples,
        scatter: scalar(0.001),
        relative: scalar(0.001 / length),
    };
    let thigh = Bone::new(Joint::LeftHip, Joint::LeftKnee);
    let shin = Bone::new(Joint::LeftKnee, Joint::LeftAnkle);
    let mut skeleton = Skeleton { bones: vec![entry(thigh, 0.44, 500)], measured_at: None };
    assert_eq!(skeleton.leg_length(), None);
    skeleton.bones.push(entry(shin, 0.41, 10));
    assert_eq!(skeleton.leg_length(), Some((scalar(0.44), scalar(0.41))));

    let missing = outstanding(&skeleton, &MeasureOptions::default());
    assert_eq!(missing.len(), 21);
    assert!(missing.contains(&shin), "ten samples are not enough");
    assert!(!missing.contains(&thigh));
}
