//! The meters that watch the reconstruction.

use optra::fusion::floor::{FloorMeter, FloorOptions};
use optra::fusion::fuse::{FusedJoint, Pose3d};
use optra::fusion::head::{HeadMeter, HeadOptions};
use optra::fusion::shake::{Added, ShakeMeter, Wobble};
use optra::geometry::Point3;
use optra::models::{Joint, JointMap};
use optra::scalar::Scalar;
use optra::time::Instant;

fn scalar(number: f64) -> Scalar {
    Scalar::from_bits(number.to_bits())
}

fn number(scalar: Scalar) -> f64 {
    f64::from_bits(scalar.bits)
}

fn point(x: f64, y: f64, z: f64) -> Point3 {
    Point3 { x: scalar(x), y: scalar(y), z: scalar(z) }
}

fn now() -> Instant {
    Instant { nanos: 1_000_000_000 }
}

fn fused(point: Point3, sigma: f64) -> FusedJoint {
    FusedJoint {
        point,
        sigma: scalar(sigma),
        residual: scalar(0.0),
        weights: vec![(0, scalar(0.5)), (1, scalar(0.5))],
        rejected: Vec::new(),
    }
}

/// One tick of a walking body whose feet reach `floor` at the bottom of each
/// stride.
fn stride(step: usize, floor: f64, sigma: f64) -> Pose3d {
    let mut pose = Pose3d::empty(now());
    let phase = step as f64 * 0.31;

    for (heel, toe, offset) in [
        (Joint::LeftHeel, Joint::LeftBigToe, 0.0),
        (Joint::RightHeel, Joint::RightBigToe, std::f64::consts::PI),
    ] {
        // A foot spends part of the stride down and the rest in the air.
        let lift = 0.18 * (phase + offset).sin().max(0.0);
        for joint in [heel, toe] {
            pose.set(joint, fused(point(0.1, floor + lift, 0.0), sigma));
        }
    }
    pose
}

#[test]
fn a_floor_that_agrees_says_nothing() {
    let mut meter = FloorMeter::default();
    for step in 0..400 {
        meter.observe(&stride(step, 0.0, 0.01));
    }

    assert!(number(meter.estimate().unwrap()).abs() < 0.02);
    assert_eq!(meter.disagreement(), None);
}

/// A room setup run with the headset on a desk puts the floor most of a metre
/// too high, and every foot underground.
#[test]
fn a_floor_set_too_high_is_measured() {
    let mut meter = FloorMeter::default();
    for step in 0..400 {
        meter.observe(&stride(step, -0.68, 0.01));
    }

    let measured = number(meter.disagreement().expect("that is far too much to ignore"));
    assert!((measured + 0.68).abs() < 0.03, "measured {measured} instead of -0.68");
}

/// The case that separates the statistics is a leg the cameras only manage to
/// see part of the time, which leaves a record of a foot that is mostly in the
/// air.
#[test]
fn a_foot_seen_mostly_in_the_air_does_not_raise_the_floor() {
    let mut meter = FloorMeter::default();

    for step in 0..600 {
        let mut pose = Pose3d::empty(now());
        let lift = 0.09 * (1.0 - (step as f64 * 0.31).cos());
        for joint in [Joint::LeftHeel, Joint::LeftBigToe] {
            pose.set(joint, fused(point(0.1, lift, 0.0), 0.01));
        }
        meter.observe(&pose);
    }

    let mut sorted: Vec<f64> = meter.lows.iter().map(|low| number(*low)).collect();
    sorted.sort_by(f64::total_cmp);
    let median = sorted[sorted.len() / 2];

    let estimate = number(meter.estimate().unwrap());
    assert!(estimate < 0.03, "the floor came out at {estimate}, well above the ground");
    assert!(
        median > estimate + 0.05,
        "the median should be a swinging foot, and was {median}"
    );
    assert_eq!(estimate, sorted[60]);
}

#[test]
fn feet_nobody_could_locate_are_not_measured() {
    let mut meter = FloorMeter::default();
    for step in 0..400 {
        meter.observe(&stride(step, -0.68, 0.4));
    }

    assert_eq!(meter.samples(), 0);
    assert_eq!(meter.estimate(), None);
}

#[test]
fn a_moment_of_walking_is_not_enough_to_judge_by() {
    let mut meter = FloorMeter::default();
    for step in 0..20 {
        meter.observe(&stride(step, -0.68, 0.01));
    }

    assert_eq!(meter.estimate(), None);
}

#[test]
fn the_window_forgets_the_oldest_footfalls() {
    let mut meter = FloorMeter::default();
    for step in 0..700 {
        let mut pose = Pose3d::empty(now());
        pose.set(Joint::RightHeel, fused(point(0.0, step as f64, 0.0), 0.01));
        meter.observe(&pose);
    }
    assert_eq!(meter.samples(), 600);
    assert_eq!(number(meter.lows[0]), 100.0);
    assert_eq!(number(meter.estimate().unwrap()), 160.0);

    meter.reset();
    assert_eq!(meter.samples(), 0);
}

#[test]
fn a_window_without_room_keeps_nothing() {
    let options = FloorOptions { capacity: 0, ..FloorOptions::default() };
    let mut meter = FloorMeter::new(options);
    for step in 0..10 {
        meter.observe(&stride(step, 0.0, 0.01));
        assert_eq!(meter.samples(), 0);
    }
    assert!(meter.estimate().is_none());

    let mut head = HeadMeter::new(HeadOptions { capacity: 0, ..HeadOptions::default() });
    head.observe(point(0.1, 0.2, 0.3));
    assert_eq!(head.offsets.len(), 0);
}

fn head_pose(head: [f64; 3], sigma: f64) -> Pose3d {
    let mut pose = Pose3d::empty(now());
    pose.set(Joint::Head, fused(point(head[0], head[1], head[2]), sigma));
    pose
}

/// Feeds one tick to a meter, subtracting the headset from the head.
fn watch(meter: &mut HeadMeter, pose: &Pose3d, headset: [f64; 3]) {
    if let Some(head) = meter.locate(pose) {
        meter.observe(point(
            number(head.x) - headset[0],
            number(head.y) - headset[1],
            number(head.z) - headset[2],
        ));
    }
}

/// The offset, when it is large enough to matter.
fn disagreement(meter: &HeadMeter) -> Option<[f64; 3]> {
    let offset = meter.estimate()?;
    let offset = [number(offset.x), number(offset.y), number(offset.z)];
    let distance = offset.iter().map(|axis| axis * axis).sum::<f64>().sqrt();
    meter.disagrees(scalar(distance)).then_some(offset)
}

const HEADSET: [f64; 3] = [0.0, 1.6, 0.0];

#[test]
fn a_head_where_the_headset_is_reports_nothing_worth_saying() {
    let mut meter = HeadMeter::default();
    for _ in 0..200 {
        // A hand's width away, which is where a head keypoint sits when
        // everything is right.
        watch(&mut meter, &head_pose([0.0, 1.68, -0.06], 0.01), HEADSET);
    }

    assert!(meter.estimate().is_some());
    assert_eq!(disagreement(&meter), None);
}

#[test]
fn a_room_solved_half_a_metre_low_says_so_and_says_it_is_vertical() {
    let mut meter = HeadMeter::default();
    for _ in 0..200 {
        watch(&mut meter, &head_pose([0.0, 1.12, -0.06], 0.01), HEADSET);
    }

    let offset = disagreement(&meter).expect("half a metre is worth saying");
    assert!(offset[1] < -0.4, "expected a drop, got {offset:?}");
    assert!(
        offset[1].abs() > (offset[0].abs() + offset[2].abs()) * 3.0,
        "the offset should read as vertical: {offset:?}"
    );
}

#[test]
fn a_head_nothing_can_place_is_not_evidence() {
    let mut meter = HeadMeter::default();
    for _ in 0..200 {
        watch(&mut meter, &head_pose([0.0, 0.2, 0.0], 0.4), HEADSET);
    }

    assert_eq!(meter.samples(), 0);
    assert_eq!(meter.estimate(), None);
}

#[test]
fn one_bad_frame_is_not_the_verdict() {
    let mut meter = HeadMeter::default();
    for tick in 0..200 {
        let head = if tick == 100 { [4.0, 4.0, 4.0] } else { [0.0, 1.68, -0.06] };
        watch(&mut meter, &head_pose(head, 0.01), HEADSET);
    }

    assert_eq!(disagreement(&meter), None);
}

#[test]
fn the_best_head_joint_that_is_sure_enough_is_the_head() {
    let meter = HeadMeter::new(HeadOptions::default());
    let mut pose = head_pose([1.0, 1.0, 1.0], 0.5);
    pose.set(Joint::LeftEye, fused(point(4.0, 4.0, 4.0), 0.01));
    pose.set(Joint::Neck, fused(point(3.0, 3.0, 3.0), 0.08));
    assert_eq!(meter.locate(&pose), Some(point(3.0, 3.0, 3.0)));
    assert_eq!(meter.locate(&Pose3d::empty(now())), None);
}

/// A meter with the smoothed figure it leads to.
struct Watched {
    meter: ShakeMeter,
    value: f64,
}

impl Watched {
    fn new() -> Self {
        Watched { meter: ShakeMeter::default(), value: 0.0 }
    }

    fn tick(&mut self, at: Option<[f64; 3]>) {
        let mut points: JointMap<Point3> = JointMap::empty();
        if let Some(at) = at {
            points.set(Joint::Hip, point(at[0], at[1], at[2]));
        }
        let shakes: Vec<Scalar> = self
            .meter
            .observe(&points)
            .iter()
            .map(|wobble| scalar(second_difference(wobble)))
            .collect();
        if let Some(median) = ShakeMeter::typical(&shakes) {
            self.value += (number(median) - self.value) * 0.05;
        }
    }
}

fn second_difference(wobble: &Wobble) -> f64 {
    let along = |now: Scalar, previous: Scalar, before: Scalar| {
        (number(now) - 2.0 * number(previous) + number(before)).powi(2)
    };
    (along(wobble.now.x, wobble.previous.x, wobble.before.x)
        + along(wobble.now.y, wobble.previous.y, wobble.before.y)
        + along(wobble.now.z, wobble.previous.z, wobble.before.z))
    .sqrt()
}

#[test]
fn a_joint_moving_steadily_does_not_count_as_shaking() {
    let mut watched = Watched::new();
    for tick in 0..400u32 {
        watched.tick(Some([tick as f64 * 0.02, 1.0, 0.0]));
    }
    assert!(
        watched.value < 1e-9,
        "a metre a second registered as {:.4} m of shake",
        watched.value
    );
}

#[test]
fn a_joint_wobbling_in_place_counts_as_shaking() {
    let mut watched = Watched::new();
    // A centimetre, alternating: a, b, a differences to twice the gap, so a
    // centimetre of wobble should read as two.
    for tick in 0..400u32 {
        watched.tick(Some([if tick % 2 == 0 { 0.0 } else { 0.01 }, 1.0, 0.0]));
    }
    assert!(
        watched.value > 0.019,
        "a centimetre of wobble registered as only {:.4} m",
        watched.value
    );
}

#[test]
fn a_joint_that_blinks_reports_nothing_rather_than_the_gap() {
    let mut watched = Watched::new();
    for tick in 0..400 {
        // Present every other tick, and a long way from where it was.
        if tick % 2 == 0 {
            let x = if tick % 4 == 0 { 0.0 } else { 0.5 };
            watched.tick(Some([x, 1.0, 0.0]));
        } else {
            watched.tick(None);
        }
    }
    assert_eq!(
        watched.value, 0.0,
        "a joint never present three ticks running has no measurable shake"
    );
}

fn added(raw: f64, fitted: f64, filtered: f64, predicted: f64) -> Added {
    Added {
        raw: scalar(raw),
        fitted: scalar(fitted - raw),
        filtered: scalar(filtered - fitted),
        predicted: scalar(predicted - filtered),
    }
}

#[test]
fn the_stage_that_added_the_most_is_the_one_named() {
    let quiet = added(0.001, 0.001, 0.001, 0.001);
    assert_eq!(quiet.worst_stage(), None);

    let predicting = added(0.004, 0.004, 0.001, 0.020);
    assert_eq!(
        predicting.worst_stage().map(|(name, _)| name),
        Some("the prediction")
    );
}

#[test]
fn of_two_stages_that_added_as_much_the_later_is_named() {
    let even = Added {
        raw: scalar(0.01),
        fitted: scalar(0.01),
        filtered: scalar(0.005),
        predicted: scalar(-0.01),
    };
    assert_eq!(even.worst_stage(), Some(("the skeleton fit", scalar(0.01))));
}
