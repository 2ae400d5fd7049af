//! Recording a calibration walk.

use nalgebra::UnitQuaternion;

use optra::calib::recorder::{Coverage, DevicePose, Feet, RecorderConfig, Rig};
use optra::calib::walk::Walk;
use optra::geometry::{Point2, Point3};
use optra::models::{Joint, JointMap};
use optra::pipeline::{Keypoint, PoseFrame};
use optra::scalar::Scalar;
use optra::time::{Duration, Instant};
use optra::vr::Role;

const WIDTH: u32 = 1280;
const HEIGHT: u32 = 720;

fn scalar(number: f64) -> Scalar {
    Scalar::from_bits(number.to_bits())
}

fn number(scalar: Scalar) -> f64 {
    f64::from_bits(scalar.bits)
}

fn start() -> Instant {
    Instant { nanos: 100_000_000_000 }
}

fn walk(cameras: usize) -> Walk {
    let ids: Vec<String> = (0..cameras).map(|index| format!("cam{index}")).collect();
    Walk::new(&ids)
}

fn device(x: f64, rotation: UnitQuaternion<f64>) -> DevicePose {
    DevicePose {
        position: Point3 { x: scalar(x), y: scalar(1.5), z: scalar(0.0) },
        turn: scalar(rotation.w),
        axis: Point3 { x: scalar(rotation.i), y: scalar(rotation.j), z: scalar(rotation.k) },
    }
}

fn pose(x: f64) -> DevicePose {
    device(x, UnitQuaternion::from_euler_angles(0.0, x, 0.0))
}

fn frame(seq: u64, at: Instant, joints: &[(Joint, f32, f32, f32)]) -> PoseFrame {
    let mut keypoints = JointMap::empty();
    for (joint, x, y, confidence) in joints {
        keypoints.set(
            *joint,
            Keypoint {
                x: scalar(f64::from(*x)),
                y: scalar(f64::from(*y)),
                confidence: scalar(f64::from(*confidence)),
            },
        );
    }
    PoseFrame { seq, captured_at: at, width: WIDTH, height: HEIGHT, keypoints }
}

/// Poses either side of an instant, so a frame at that instant has something to
/// interpolate between.
fn surround(walk: &mut Walk, role: Role, at: Instant) {
    walk.push_pose(role, at.before(Duration::from_millis(10)), pose(0.0));
    walk.push_pose(role, at.after(Duration::from_millis(10)), pose(0.4));
}

/// Looks at a frame and judges what it left by how far it moved.
fn consider(walk: &mut Walk, camera: usize, frame: &PoseFrame, config: &RecorderConfig) {
    for candidate in walk.consider(camera, frame, config) {
        let moved = candidate.previous.map_or(0.0, |previous| {
            let dx = number(candidate.pixel.x) - number(previous.x);
            let dy = number(candidate.pixel.y) - number(previous.y);
            (dx * dx + dy * dy).sqrt()
        });
        walk.judge(camera, frame.captured_at, candidate, scalar(moved), config);
    }
}

/// How far a track's rotations are from being one rotation: one minus the size of
/// their mean as unit quaternions.
fn turned(walk: &Walk) -> Scalar {
    let Some(head) = walk.head() else { return scalar(0.0) };
    let poses = &walk.recording.tracks[head].poses;
    let mut sum = [0.0; 4];
    for stamped in poses {
        for (slot, part) in sum.iter_mut().zip([
            number(stamped.pose.turn),
            number(stamped.pose.axis.x),
            number(stamped.pose.axis.y),
            number(stamped.pose.axis.z),
        ]) {
            *slot += part / poses.len() as f64;
        }
    }
    scalar(1.0 - sum.iter().map(|part| part * part).sum::<f64>().sqrt())
}

#[test]
fn a_head_keypoint_becomes_a_head_rig() {
    let mut walk = walk(1);
    surround(&mut walk, Role::Head, start());

    consider(
        &mut walk,
        0,
        &frame(1, start(), &[(Joint::Head, 640.0, 360.0, 0.9)]),
        &RecorderConfig::default(),
    );

    assert_eq!(walk.recording.rigs, vec![Rig { role: Role::Head, joint: Joint::Head }]);
    assert_eq!(walk.recording.cameras[0].samples.len(), 1);
}

/// A model without a head keypoint reports the nose instead, and the two are
/// several centimetres apart. They must not share an offset.
#[test]
fn a_nose_and_a_head_are_different_rigs() {
    let config = RecorderConfig::default();
    let mut walk = walk(2);
    surround(&mut walk, Role::Head, start());

    consider(&mut walk, 0, &frame(1, start(), &[(Joint::Head, 100.0, 100.0, 0.9)]), &config);
    consider(&mut walk, 1, &frame(1, start(), &[(Joint::Nose, 500.0, 300.0, 0.9)]), &config);

    assert_eq!(walk.recording.rigs.len(), 2);
    assert_ne!(
        walk.recording.cameras[0].samples[0].rig,
        walk.recording.cameras[1].samples[0].rig
    );
}

/// Recording both would give the head two offsets fitted to the same motion, so
/// only the better one is taken.
#[test]
fn the_head_wins_when_both_are_present() {
    let mut walk = walk(1);
    surround(&mut walk, Role::Head, start());

    consider(
        &mut walk,
        0,
        &frame(
            1,
            start(),
            &[(Joint::Head, 100.0, 100.0, 0.9), (Joint::Nose, 110.0, 120.0, 0.9)],
        ),
        &RecorderConfig::default(),
    );

    assert_eq!(walk.recording.rigs.len(), 1);
    assert_eq!(walk.recording.rigs[0].joint, Joint::Head);
}

/// The pose channel is polled faster than the cameras run, so the same frame is
/// seen repeatedly.
#[test]
fn the_same_frame_is_not_recorded_twice() {
    let config = RecorderConfig::default();
    let mut walk = walk(1);
    surround(&mut walk, Role::Head, start());

    let frame = frame(7, start(), &[(Joint::Head, 640.0, 360.0, 0.9)]);
    consider(&mut walk, 0, &frame, &config);
    consider(&mut walk, 0, &frame, &config);
    consider(&mut walk, 0, &frame, &config);

    assert_eq!(walk.recording.cameras[0].samples.len(), 1);
}

/// A user standing still contributes hundreds of identical rows, which weight the
/// solve toward one spot and constrain nothing.
#[test]
fn standing_still_stops_adding_samples() {
    let config = RecorderConfig::default();
    let mut walk = walk(1);
    surround(&mut walk, Role::Head, start());

    for seq in 0..20 {
        let drift = seq as f32 * 0.2;
        consider(
            &mut walk,
            0,
            &frame(seq, start(), &[(Joint::Head, 640.0 + drift, 360.0, 0.9)]),
            &config,
        );
    }

    assert_eq!(
        walk.recording.cameras[0].samples.len(),
        1,
        "four pixels of drift over twenty frames is standing still"
    );
    assert_eq!(walk.recording.cameras[0].rejected_stationary, 19);
}

#[test]
fn walking_keeps_adding_samples() {
    let config = RecorderConfig::default();
    let mut walk = walk(1);
    surround(&mut walk, Role::Head, start());

    for seq in 0..20 {
        let moved = seq as f32 * 20.0;
        consider(
            &mut walk,
            0,
            &frame(seq, start(), &[(Joint::Head, 100.0 + moved, 360.0, 0.9)]),
            &config,
        );
    }

    assert_eq!(walk.recording.cameras[0].samples.len(), 20);
    assert_eq!(walk.recording.cameras[0].rejected_stationary, 0);
}

#[test]
fn a_weak_keypoint_is_not_recorded() {
    let config = RecorderConfig::default();
    let mut walk = walk(1);
    surround(&mut walk, Role::Head, start());

    consider(&mut walk, 0, &frame(1, start(), &[(Joint::Head, 640.0, 360.0, 0.2)]), &config);

    assert!(walk.recording.cameras[0].samples.is_empty());
    assert_eq!(walk.recording.cameras[0].rejected_confidence, 1);
}

/// Recording a frame against the nearest pose available would be inventing data.
#[test]
fn a_frame_with_no_pose_to_pair_with_is_dropped() {
    let config = RecorderConfig::default();
    let mut walk = walk(1);
    surround(&mut walk, Role::Head, start());

    // An hour later, far outside the track.
    let orphan = start().after(Duration::from_secs(3600));
    consider(&mut walk, 0, &frame(1, orphan, &[(Joint::Head, 640.0, 360.0, 0.9)]), &config);

    assert!(walk.recording.cameras[0].samples.is_empty());
    assert_eq!(walk.recording.cameras[0].rejected_no_pose, 1);
}

/// A hand that only comes into frame halfway through the walk still needs the
/// poses from before it appeared.
#[test]
fn a_rig_discovered_late_still_gets_the_earlier_poses() {
    let config = RecorderConfig::default();
    let mut walk = walk(1);

    for step in 0..20 {
        walk.push_pose(
            Role::LeftHand,
            start().after(Duration::from_millis(step * 10)),
            pose(step as f64 * 0.05),
        );
    }

    let late = start().after(Duration::from_millis(150));
    consider(&mut walk, 0, &frame(1, late, &[(Joint::LeftWrist, 400.0, 200.0, 0.9)]), &config);

    assert_eq!(walk.recording.cameras[0].samples.len(), 1);
    let track = &walk.recording.tracks[0];
    assert_eq!(track.len(), 20, "the whole track should have been carried over");
    assert!(track.has(start().after(Duration::from_millis(45))));
}

#[test]
fn controllers_can_be_left_out() {
    let config = RecorderConfig { use_controllers: false, ..RecorderConfig::default() };
    let mut walk = walk(1);
    surround(&mut walk, Role::Head, start());
    surround(&mut walk, Role::LeftHand, start());

    consider(
        &mut walk,
        0,
        &frame(
            1,
            start(),
            &[(Joint::Head, 640.0, 360.0, 0.9), (Joint::LeftWrist, 400.0, 500.0, 0.9)],
        ),
        &config,
    );

    assert_eq!(walk.recording.rigs.len(), 1);
    assert_eq!(walk.recording.rigs[0].role, Role::Head);
}

fn pixel(x: f64, y: f64) -> Point2 {
    Point2 { x: scalar(x), y: scalar(y) }
}

fn filled(coverage: &Coverage) -> f32 {
    coverage.filled() as f32 / coverage.cells.len() as f32
}

#[test]
fn coverage_counts_where_in_the_frame_the_walk_went() {
    let mut coverage = Coverage::new();
    assert_eq!(filled(&coverage), 0.0);

    // Four samples in one cell, one in another.
    for _ in 0..4 {
        coverage.record(pixel(100.0, 100.0), WIDTH, HEIGHT);
    }
    coverage.record(pixel(1200.0, 700.0), WIDTH, HEIGHT);

    assert_eq!(coverage.count(0, 0), 4);
    assert_eq!(coverage.count(7, 5), 1);
    assert!(
        (filled(&coverage) - 1.0 / 48.0).abs() < 1e-6,
        "one cell of forty-eight has enough samples, got {}",
        filled(&coverage)
    );
}

/// A keypoint just off the left edge must not land in the leftmost column.
#[test]
fn a_keypoint_outside_the_frame_does_not_land_in_a_cell() {
    let mut coverage = Coverage::new();
    coverage.record(pixel(-5.0, 100.0), WIDTH, HEIGHT);
    coverage.record(pixel(100.0, HEIGHT as f64 + 5.0), WIDTH, HEIGHT);

    assert_eq!(filled(&coverage), 0.0);
    assert_eq!(coverage.count(0, 0), 0);
}

#[test]
fn every_pixel_falls_into_the_cell_it_is_in() {
    for (x, y, column, row) in [
        (0.0, 0.0, 0, 0),
        (159.99, 119.99, 0, 0),
        (160.0, 120.0, 1, 1),
        (1279.999, 719.999, 7, 5),
        (-0.0, 600.0, 0, 5),
    ] {
        let mut coverage = Coverage::new();
        coverage.record(pixel(x, y), WIDTH, HEIGHT);
        assert_eq!(coverage.count(column, row), 1, "{x}, {y}");
    }
    let mut nothing = Coverage::new();
    nothing.record(pixel(f64::NAN, 1.0), WIDTH, HEIGHT);
    nothing.record(pixel(1.0, 1.0), 0, HEIGHT);
    assert!(nothing.cells.iter().all(|count| *count == 0));
    assert_eq!(nothing.count(0, 6), 0, "past the end");
}

/// A pose model asked about a person half out of shot will place the keypoint
/// outside the frame.
#[test]
fn an_offscreen_keypoint_is_not_recorded() {
    let config = RecorderConfig::default();
    let mut walk = walk(1);
    surround(&mut walk, Role::Head, start());

    consider(&mut walk, 0, &frame(1, start(), &[(Joint::Head, -12.0, 360.0, 0.9)]), &config);

    assert!(walk.recording.cameras[0].samples.is_empty());
    assert_eq!(walk.recording.cameras[0].rejected_offscreen, 1);
}

/// Without head rotation the offset cannot be told apart from a shift of every
/// camera.
#[test]
fn a_walk_without_head_rotation_is_flagged() {
    let mut walk = walk(1);
    for step in 0..1200 {
        walk.push_pose(
            Role::Head,
            start().after(Duration::from_millis(step * 10)),
            device(step as f64 * 0.001, UnitQuaternion::identity()),
        );
    }
    consider(
        &mut walk,
        0,
        &frame(
            1,
            start().after(Duration::from_millis(100)),
            &[(Joint::Head, 640.0, 360.0, 0.9)],
        ),
        &RecorderConfig::default(),
    );

    assert!(
        walk.warning(turned(&walk)).is_some_and(|text| text.contains("turn your head")),
        "a walk with a fixed head orientation should be flagged"
    );
}

#[test]
fn a_walk_that_turns_the_head_is_not_flagged() {
    let mut walk = walk(1);
    for step in 0..1200 {
        walk.push_pose(
            Role::Head,
            start().after(Duration::from_millis(step * 10)),
            pose(step as f64 * 0.005),
        );
    }
    consider(
        &mut walk,
        0,
        &frame(
            1,
            start().after(Duration::from_millis(100)),
            &[(Joint::Head, 640.0, 360.0, 0.9)],
        ),
        &RecorderConfig::default(),
    );

    assert!(walk.warning(turned(&walk)).is_none());
}

#[test]
fn a_short_walk_is_not_judged() {
    let mut walk = walk(1);
    assert!(walk.warning(scalar(0.0)).is_none(), "no headset yet");
    surround(&mut walk, Role::Head, start());
    consider(
        &mut walk,
        0,
        &frame(1, start(), &[(Joint::Head, 640.0, 360.0, 0.9)]),
        &RecorderConfig::default(),
    );
    assert!(walk.warning(scalar(0.0)).is_none());
}

#[test]
fn a_full_camera_takes_no_more() {
    let config = RecorderConfig { max_per_camera: 1, ..RecorderConfig::default() };
    let mut walk = walk(1);
    surround(&mut walk, Role::Head, start());
    for seq in 0..5 {
        consider(
            &mut walk,
            0,
            &frame(seq, start(), &[(Joint::Head, 100.0 * seq as f32, 360.0, 0.9)]),
            &config,
        );
    }
    assert_eq!(walk.recording.cameras[0].samples.len(), 1);
    assert_eq!(walk.recording.samples(), 1);
    assert!(walk.has_room(0));
    assert_eq!(walk.recording.cameras[0].samples_for(0), 1);
    assert_eq!(walk.recording.cameras[0].samples_for(1), 0);
    assert!(walk.recording.trail(&"cam0".to_owned()).is_some());
    assert!(walk.recording.trail(&"cam9".to_owned()).is_none());
}

#[test]
fn one_frame_does_not_take_a_camera_past_its_cap() {
    let config = RecorderConfig { max_per_camera: 1, ..RecorderConfig::default() };
    let mut walk = walk(1);
    for role in [Role::Head, Role::LeftHand, Role::RightHand] {
        surround(&mut walk, role, start());
    }
    let crowded = frame(
        1,
        start(),
        &[
            (Joint::Head, 640.0, 360.0, 0.9),
            (Joint::LeftWrist, 600.0, 460.0, 0.9),
            (Joint::RightWrist, 700.0, 460.0, 0.9),
        ],
    );
    assert!(walk.clone().consider(0, &crowded, &config).len() > 1);
    consider(&mut walk, 0, &crowded, &config);
    assert_eq!(walk.recording.cameras[0].samples.len(), 1);
    assert_eq!(walk.recording.cameras[0].samples[0].rig, 0);
}

#[test]
fn a_rig_is_named_by_its_device_and_its_keypoint() {
    let rig = Rig { role: Role::Head, joint: Joint::Nose };
    assert_eq!(rig.label(), "Headset / nose");
    assert_eq!(Rig::candidates(Role::Head), vec![Joint::Head, Joint::Nose]);
    assert_eq!(Rig::candidates(Role::RightHand), vec![Joint::RightWrist]);
    assert!(Rig::candidates(Role::Other).is_empty());
}

#[test]
fn a_camera_is_counted_by_how_often_it_has_the_feet() {
    let mut feet = Feet::default();
    feet.look(&frame(1, start(), &[(Joint::Head, 640.0, 360.0, 0.9)]));
    feet.look(&frame(1, start(), &[(Joint::LeftHeel, 640.0, 700.0, 0.9)]));
    feet.look(&frame(2, start(), &[]));
    feet.look(&frame(3, start(), &[(Joint::RightBigToe, 640.0, 700.0, 0.9)]));
    feet.look(&frame(4, start(), &[(Joint::LeftAnkle, 640.0, 650.0, 0.9)]));
    assert_eq!(feet, Feet { last_seq: Some(4), frames: 3, seen: 1 });
}
