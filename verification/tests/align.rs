//! Putting a camera's keypoints on the tick.

use optra::fusion::align::{align, Aligned, Placement};
use optra::models::{Joint, JointMap};
use optra::pipeline::{Keypoint, PoseFrame};
use optra::scalar::Scalar;
use optra::time::{Duration, Instant};

fn scalar(number: f64) -> Scalar {
    Scalar::from_bits(number.to_bits())
}

fn number(scalar: Scalar) -> f64 {
    f64::from_bits(scalar.bits)
}

fn start() -> Instant {
    Instant { nanos: 7_000_000_000 }
}

fn frame(at: Instant, joints: &[(Joint, f32, f32, f32)]) -> PoseFrame {
    let mut keypoints = JointMap::empty();
    for (joint, x, y, confidence) in joints {
        keypoints.set(
            *joint,
            Keypoint {
                x: scalar(f64::from(*x)),
                y: scalar(f64::from(*y)),
                confidence: scalar(f64::from(*confidence)),
            },
        );
    }
    PoseFrame { seq: 0, captured_at: at, width: 1280, height: 720, keypoints }
}

fn seconds(span: Duration) -> f64 {
    span.nanos as f64 * 1e-9
}

/// Localization noise of a keypoint, in pixels.
fn pixel_sigma(confidence: f64) -> f64 {
    8.0 - 7.0 * confidence.clamp(0.0, 1.0)
}

/// A joint's pixel and what its place on the tick costs.
struct Seen {
    x: f64,
    y: f64,
    confidence: f64,
    penalty: f64,
}

fn seen(aligned: &Aligned, joint: Joint) -> Option<Seen> {
    let one = aligned.get(joint)?;
    let bracket = seconds(aligned.bracket);
    let confidence = number(one.confidence);
    let (x, y, drift) = match one.placed {
        Placement::Blended { from, to } => {
            let alpha = if bracket == 0.0 {
                0.0
            } else {
                (seconds(aligned.into) / bracket).clamp(0.0, 1.0)
            };
            let (dx, dy) = (number(to.x) - number(from.x), number(to.y) - number(from.y));
            let speed = if bracket == 0.0 { 0.0 } else { dx.hypot(dy) / bracket };
            let gap = seconds(aligned.gap);
            let drift = if bracket == 0.0 { 0.0 } else { speed * gap * (bracket - gap) / bracket };
            (number(from.x) + dx * alpha, number(from.y) + dy * alpha, drift)
        }
        Placement::Held { seen, reach } => {
            (number(seen.x), number(seen.y), body_speed(aligned) * seconds(reach))
        }
    };
    Some(Seen { x, y, confidence, penalty: 1.0 + drift / pixel_sigma(confidence) })
}

/// Mean pixel speed of the joints both frames have.
fn body_speed(aligned: &Aligned) -> f64 {
    let mut speeds = Vec::new();
    for joint in Joint::ALL {
        if let Some(Placement::Blended { from, to }) = aligned.get(joint).map(|one| one.placed) {
            let (dx, dy) = (number(to.x) - number(from.x), number(to.y) - number(from.y));
            speeds.push(dx.hypot(dy) / seconds(aligned.bracket));
        }
    }
    if speeds.is_empty() {
        0.0
    } else {
        speeds.iter().sum::<f64>() / speeds.len() as f64
    }
}

#[test]
fn the_midpoint_of_a_bracket_is_halfway_between_its_frames() {
    let before = frame(start(), &[(Joint::LeftAnkle, 100.0, 200.0, 0.9)]);
    let after = frame(
        start().after(Duration::from_millis(40)),
        &[(Joint::LeftAnkle, 140.0, 220.0, 0.9)],
    );

    let aligned = align(&before, &after, start().after(Duration::from_millis(20)));
    let ankle = seen(&aligned, Joint::LeftAnkle).unwrap();

    assert!((ankle.x - 120.0).abs() < 1e-9);
    assert!((ankle.y - 210.0).abs() < 1e-9);
    assert_eq!(aligned.gap, Duration::from_millis(20));
    assert_eq!(aligned.bracket, Duration::from_millis(40));
}

/// A tick that lands on a real frame is not a guess and should not be charged for
/// one.
#[test]
fn landing_on_a_frame_costs_nothing() {
    let before = frame(start(), &[(Joint::LeftAnkle, 100.0, 200.0, 0.9)]);
    let after = frame(
        start().after(Duration::from_millis(40)),
        &[(Joint::LeftAnkle, 400.0, 200.0, 0.9)],
    );

    for tick in [start(), start().after(Duration::from_millis(40))] {
        let aligned = align(&before, &after, tick);
        assert!((seen(&aligned, Joint::LeftAnkle).unwrap().penalty - 1.0).abs() < 1e-12);
        assert_eq!(aligned.gap, Duration::zero());
    }
}

/// Reaching across a fast movement is a worse guess than reaching across a slow
/// one, over the same interval.
#[test]
fn a_fast_joint_is_trusted_less_than_a_slow_one() {
    let tick = start().after(Duration::from_millis(20));
    let end = start().after(Duration::from_millis(40));

    let slow = align(
        &frame(start(), &[(Joint::LeftAnkle, 100.0, 200.0, 0.9)]),
        &frame(end, &[(Joint::LeftAnkle, 102.0, 200.0, 0.9)]),
        tick,
    );
    let fast = align(
        &frame(start(), &[(Joint::LeftAnkle, 100.0, 200.0, 0.9)]),
        &frame(end, &[(Joint::LeftAnkle, 500.0, 200.0, 0.9)]),
        tick,
    );

    let slow = seen(&slow, Joint::LeftAnkle).unwrap().penalty;
    let fast = seen(&fast, Joint::LeftAnkle).unwrap().penalty;
    assert!(slow < 1.5, "a barely moving joint should be nearly free");
    assert!(
        fast > 5.0 * slow,
        "reaching across a stride should cost more, got {fast} against {slow}"
    );
}

/// A camera that only manages a frame every 100 ms is guessing across a much
/// longer reach than one running at 60.
#[test]
fn a_slower_camera_pays_more_for_the_same_movement() {
    let speed = 400.0f32; // pixels per second

    let mut penalties = Vec::new();
    for millis in [16u64, 100] {
        let travel = speed * (millis as f32 / 1000.0);
        let aligned = align(
            &frame(start(), &[(Joint::LeftAnkle, 100.0, 200.0, 0.9)]),
            &frame(
                start().after(Duration::from_millis(millis)),
                &[(Joint::LeftAnkle, 100.0 + travel, 200.0, 0.9)],
            ),
            start().after(Duration::from_millis(millis / 2)),
        );
        penalties.push(seen(&aligned, Joint::LeftAnkle).unwrap().penalty);
    }

    assert!(
        penalties[1] > 3.0 * penalties[0],
        "the slow camera should pay more, got {penalties:?}"
    );
}

#[test]
fn the_weaker_end_of_an_interpolation_sets_the_confidence() {
    let aligned = align(
        &frame(start(), &[(Joint::LeftKnee, 100.0, 200.0, 0.95)]),
        &frame(
            start().after(Duration::from_millis(40)),
            &[(Joint::LeftKnee, 110.0, 200.0, 0.05)],
        ),
        start().after(Duration::from_millis(20)),
    );

    assert!((seen(&aligned, Joint::LeftKnee).unwrap().confidence - 0.05).abs() < 1e-6);
}

/// A limb the model loses hold of for one frame should still vote, using the
/// frame that has it and paying for the whole reach.
#[test]
fn a_joint_only_one_frame_has_is_still_used() {
    let before = frame(
        start(),
        &[
            (Joint::LeftAnkle, 100.0, 200.0, 0.9),
            (Joint::LeftKnee, 100.0, 150.0, 0.9),
        ],
    );
    let after = frame(
        start().after(Duration::from_millis(40)),
        &[(Joint::LeftAnkle, 180.0, 200.0, 0.9)],
    );

    let aligned = align(&before, &after, start().after(Duration::from_millis(30)));
    let knee = seen(&aligned, Joint::LeftKnee).expect("the knee still counts");

    assert_eq!(knee.x, 100.0, "it sits where it was actually seen");
    assert!(
        knee.penalty > seen(&aligned, Joint::LeftAnkle).unwrap().penalty,
        "reaching 30 ms back should cost more than interpolating 10 ms"
    );
    assert!(matches!(
        aligned.get(Joint::LeftKnee).unwrap().placed,
        Placement::Held { reach, .. } if reach == Duration::from_millis(30)
    ));
}

#[test]
fn frames_with_nothing_in_common_align_to_nothing() {
    let aligned = align(
        &frame(start(), &[]),
        &frame(start().after(Duration::from_millis(40)), &[]),
        start().after(Duration::from_millis(20)),
    );
    assert!(aligned.is_empty());
    assert_eq!(aligned.count(), 0);
}

#[test]
fn a_joint_only_the_later_frame_has_reaches_forward() {
    let aligned = align(
        &frame(start(), &[]),
        &frame(start().after(Duration::from_millis(40)), &[(Joint::Hip, 5.0, 6.0, 0.7)]),
        start().after(Duration::from_millis(30)),
    );
    assert_eq!(aligned.count(), 1);
    assert!(matches!(
        aligned.get(Joint::Hip).unwrap().placed,
        Placement::Held { reach, .. } if reach == Duration::from_millis(10)
    ));
}
