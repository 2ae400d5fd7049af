//! Measuring a camera's delay, and judging a placement, with the projection around
//! the library's decisions.

use nalgebra::{Isometry3, Matrix3, Point2, Point3, Quaternion, Rotation3, Translation3, UnitQuaternion, Vector3};

use optra::calib::latency::{best_of, candidates, enough, neighbours, probe, Estimate, LatencyOptions, Probe};
use optra::calib::recorder::{is_inside, CameraTrail, DevicePose, Sample, Track};
use optra::calib::solve::{middle, sampled};
use optra::geometry;
use optra::scalar::Scalar;
use optra::time::{Duration, Instant};

const OFFSET: Vector3<f64> = Vector3::new(0.01, 0.06, 0.13);

fn scalar(number: f64) -> Scalar {
    Scalar::from_bits(number.to_bits())
}

fn number(scalar: Scalar) -> f64 {
    f64::from_bits(scalar.bits)
}

fn seconds(span: Duration) -> f64 {
    span.nanos as f64 / 1e9
}

/// A pinhole camera of square pixels, 1280 by 720.
struct Camera {
    focal: f64,
    eye: Point3<f64>,
    turn: Rotation3<f64>,
}

impl Camera {
    fn look_at(fov_degrees: f64, eye: Point3<f64>, target: Point3<f64>) -> Self {
        let forward = (target - eye).normalize();
        let right = forward.cross(&Vector3::y()).normalize();
        let down = forward.cross(&right).normalize();
        Self {
            focal: 640.0 / (fov_degrees.to_radians() * 0.5).tan(),
            eye,
            turn: Rotation3::from_matrix_unchecked(Matrix3::from_columns(&[right, down, forward])),
        }
    }

    fn project(&self, world: Point3<f64>) -> Option<Point2<f64>> {
        let local = self.turn.inverse() * (world - self.eye);
        (local.z > 1e-6).then(|| {
            let scale = self.focal / local.z;
            Point2::new(640.0 + local.x * scale, 360.0 + local.y * scale)
        })
    }

    fn ray(&self, pixel: Point2<f64>) -> Vector3<f64> {
        let (x, y) = ((pixel.x - 640.0) / self.focal, (pixel.y - 360.0) / self.focal);
        (self.turn * Vector3::new(x, y, 1.0)).normalize()
    }

    fn angular_error(&self, world: Point3<f64>, observed: Point2<f64>) -> Option<f64> {
        Some(self.ray(self.project(world)?).angle(&self.ray(observed)))
    }
}

fn camera() -> Camera {
    Camera::look_at(72.0, Point3::new(-1.9, 2.45, -1.9), Point3::new(0.0, 1.0, 0.0))
}

fn held(point: Point3<f64>) -> geometry::Point3 {
    geometry::Point3 { x: scalar(point.x), y: scalar(point.y), z: scalar(point.z) }
}

fn point(held: geometry::Point3) -> Point3<f64> {
    Point3::new(number(held.x), number(held.y), number(held.z))
}

fn device(pose: &Isometry3<f64>) -> DevicePose {
    let turn = pose.rotation;
    DevicePose {
        position: held(Point3::from(pose.translation.vector)),
        turn: scalar(turn.w),
        axis: held(Point3::new(turn.i, turn.j, turn.k)),
    }
}

fn isometry(pose: &DevicePose) -> Isometry3<f64> {
    let axis = point(pose.axis);
    Isometry3::from_parts(
        Translation3::from(point(pose.position).coords),
        UnitQuaternion::from_quaternion(Quaternion::new(number(pose.turn), axis.x, axis.y, axis.z)),
    )
}

/// Where a device was, between the two poses around an instant.
fn pose_at(track: &Track, at: Instant) -> Option<Isometry3<f64>> {
    if !track.has(at) {
        return None;
    }
    let after = track.poses.iter().position(|stamped| stamped.at.nanos >= at.nanos)?;
    let later = &track.poses[after];
    if after == 0 || later.at == at {
        return Some(isometry(&later.pose));
    }
    let earlier = &track.poses[after - 1];
    let bracket = seconds(later.at.saturating_duration_since(earlier.at));
    let into = seconds(at.saturating_duration_since(earlier.at));
    isometry(&earlier.pose).try_lerp_slerp(&isometry(&later.pose), into / bracket, 1e-9)
}

/// A head moving at the speed a calibration walk moves at.
fn head(t: f64, speed: f64) -> Isometry3<f64> {
    let t = t * speed;
    Isometry3::from_parts(
        Translation3::new(1.2 * t.sin(), 1.4 + 0.25 * (1.7 * t).sin(), 1.0 * (0.7 * t).cos()),
        UnitQuaternion::from_euler_angles(0.2 * (1.3 * t).sin(), 0.9 * t, 0.0),
    )
}

/// A walk whose frames really are `delay` late.
fn recording(delay: Duration, speed: f64) -> (Track, CameraTrail) {
    let camera = camera();
    let start = Instant { nanos: 0 }.after(Duration::from_secs(10));

    let mut track = Track::new();
    for step in 0..2000u64 {
        let at = start.after(Duration::from_millis(step * 4));
        track.push(at, device(&head(step as f64 * 0.004, speed)));
    }

    let mut trail = CameraTrail::new("cam0".to_owned());
    trail.width = 1280;
    trail.height = 720;
    for step in 0..500u64 {
        // The frame is stamped when it arrived, which is `delay` after the instant
        // it actually shows.
        let exposed = start.after(Duration::from_millis(step * 15 + 300));
        let Some(anchor) = pose_at(&track, exposed) else { continue };
        let Some(pixel) = camera.project(anchor * Point3::from(OFFSET)) else { continue };
        trail.record(Sample {
            at: exposed.after(delay),
            rig: 0,
            pixel: geometry::Point2 { x: scalar(pixel.x), y: scalar(pixel.y) },
            confidence: scalar(0.9),
        });
    }
    (track, trail)
}

fn rms_at(camera: &Camera, trail: &CameraTrail, track: &Track, lag: Duration) -> Option<f64> {
    let squares: Vec<f64> = trail
        .samples
        .iter()
        .filter_map(|sample| {
            let when = Instant { nanos: sample.at.nanos.checked_sub(lag.nanos)? };
            let world = pose_at(track, when)? * Point3::from(OFFSET);
            let seen = Point2::new(number(sample.pixel.x), number(sample.pixel.y));
            Some(camera.angular_error(world, seen)?.powi(2))
        })
        .collect();
    enough(squares.len(), trail.samples.len())
        .then(|| (squares.iter().sum::<f64>() / squares.len().max(1) as f64).sqrt())
}

fn estimate(
    camera: &Camera,
    trail: &CameraTrail,
    track: &Track,
    options: &LatencyOptions,
) -> Option<Estimate> {
    let rms_at = |lag| rms_at(camera, trail, track, lag);
    let lags = candidates(trail.samples.len(), options)?;
    let errors: Vec<f64> = lags.iter().map(|lag| rms_at(*lag)).collect::<Option<_>>()?;
    let known = errors.iter().map(|error| scalar(*error)).collect();
    let best = best_of(&known);
    let shift = neighbours(&known, best).map_or(0.0, |(left, right)| {
        let curvature = number(left) - 2.0 * errors[best] + number(right);
        if curvature.abs() > 1e-18 {
            (0.5 * (number(left) - number(right)) / curvature).clamp(-0.5, 0.5)
        } else {
            0.0
        }
    });
    let refined = (seconds(lags[best]) + shift * seconds(options.step)).max(0.0);
    let latency = Duration::from_nanos((refined * 1e9).round() as u64);
    let rms = rms_at(latency)?;
    let (worse, over) = match probe(latency, options) {
        Probe::Either { before, after, reach } => {
            (rms_at(before).zip(rms_at(after)).map(|(before, after)| before.min(after)), reach)
        }
        Probe::Past { after } => (rms_at(after), options.probe),
    };
    let sharpness = worse.map_or(0.0, |worse| {
        (worse - rms) * (seconds(options.probe) / seconds(over)).powi(2) * camera.focal
    });
    Some(Estimate {
        latency,
        rms: scalar(rms),
        rms_uncorrected: scalar(errors[0]),
        sharpness: scalar(sharpness),
    })
}

fn measured(millis: u64, speed: f64) -> Estimate {
    let (track, trail) = recording(Duration::from_millis(millis), speed);
    estimate(&camera(), &trail, &track, &LatencyOptions::default())
        .expect("the walk is long enough to measure")
}

fn millis(estimate: &Estimate) -> f64 {
    seconds(estimate.latency) * 1000.0
}

#[test]
fn a_known_delay_is_recovered() {
    for delay in [0u64, 17, 48, 96] {
        let estimate = measured(delay, 1.0);
        assert!(
            (millis(&estimate) - delay as f64).abs() < 2.0,
            "a {delay} ms delay came out as {:.1} ms",
            millis(&estimate)
        );
        assert!(
            number(estimate.rms) < 1e-4,
            "the corrected fit should be near exact, got {}",
            number(estimate.rms)
        );
    }
}

/// The delay only shows because the head moves. Correcting for it should visibly
/// beat not correcting for it.
#[test]
fn correcting_for_the_delay_beats_ignoring_it() {
    let estimate = measured(60, 1.0);
    assert!(
        number(estimate.rms_uncorrected) > number(estimate.rms) * 100.0,
        "uncorrected {} against corrected {}",
        number(estimate.rms_uncorrected),
        number(estimate.rms)
    );
    assert!(estimate.is_confident());
}

/// A camera quicker than the probe distance has no room below its answer to
/// sample.
#[test]
fn a_camera_quicker_than_the_probe_is_still_measured() {
    for delay in [0u64, 6, 14, 25] {
        let estimate = measured(delay, 1.0);
        assert!(
            (millis(&estimate) - delay as f64).abs() < 2.0,
            "a {delay} ms delay came out as {:.1} ms",
            millis(&estimate)
        );
        assert!(
            estimate.is_confident(),
            "a {delay} ms delay on a brisk walk should be trusted, sharpness was {}",
            number(estimate.sharpness)
        );
    }
}

/// Tens of milliseconds is a webcam. A fifth of a second is a camera buffering, a
/// starved capture thread, or a search that wandered.
#[test]
fn an_absurd_delay_is_not_treated_as_plausible() {
    let estimate = measured(30, 1.0);
    assert!(estimate.is_plausible());
    assert!(!Estimate { latency: Duration::from_millis(194), ..estimate }.is_plausible());
    assert!(!Estimate { latency: Duration::from_millis(120), ..estimate }.is_plausible());
}

/// A user who ambles leaves a curve so flat that its minimum is noise. The
/// estimate has to say so rather than hand back a confident wrong number.
#[test]
fn a_slow_walk_cannot_pin_the_delay_down() {
    let estimate = measured(60, 0.02);
    assert!(
        !estimate.is_confident(),
        "a near-stationary walk should not be trusted, sharpness was {}",
        number(estimate.sharpness)
    );
}

#[test]
fn too_few_samples_are_not_estimated() {
    let (track, mut trail) = recording(Duration::from_millis(40), 1.0);
    trail.samples.truncate(10);
    assert!(estimate(&camera(), &trail, &track, &LatencyOptions::default()).is_none());
}

/// A short walk in the middle of the room.
fn walk() -> Vec<Point3<f64>> {
    (0..200)
        .map(|step| {
            let t = step as f64 * 0.07;
            Point3::new(0.5 * t.sin(), 1.4, 0.5 * (0.7 * t).cos())
        })
        .collect()
}

/// The typical uncertainty of a keypoint of ordinary quality along a walk.
fn precision(cameras: &[Camera], walk: &[Point3<f64>]) -> Option<f64> {
    let spreads = sampled(walk.len())
        .into_iter()
        .filter_map(|index| {
            let world = walk[index];
            let seen: Vec<&Camera> = cameras
                .iter()
                .filter(|camera| {
                    camera.project(world).is_some_and(|pixel| {
                        let held =
                            geometry::Point2 { x: scalar(pixel.x), y: scalar(pixel.y) };
                        is_inside(held, 1280, 720)
                    })
                })
                .collect();
            if seen.len() < 2 {
                return None;
            }
            let mut information = Matrix3::zeros();
            for camera in seen {
                let along = world - camera.eye;
                let direction = along.normalize();
                let sigma = (8.0 - 7.0 * 0.8) / camera.focal * along.norm();
                information +=
                    (Matrix3::identity() - direction * direction.transpose()) / sigma.powi(2);
            }
            let weakest = information
                .symmetric_eigen()
                .eigenvalues
                .iter()
                .copied()
                .fold(f64::INFINITY, f64::min);
            Some(scalar(1.0 / weakest.sqrt()))
        })
        .collect();
    middle(&spreads).map(number)
}

fn camera_at(x: f64, y: f64, z: f64) -> Camera {
    Camera::look_at(70.0, Point3::new(x, y, z), Point3::new(0.0, 1.0, 0.0))
}

/// Cameras bunched into one corner see a joint from nearly the same direction, and
/// agree perfectly about a point none of them can place.
#[test]
fn clustered_cameras_are_reported_as_a_poor_placement() {
    let walk = walk();
    let spread = [
        camera_at(-2.0, 2.2, -2.0),
        camera_at(2.0, 2.2, -2.0),
        camera_at(0.0, 2.2, 2.2),
    ];
    let clustered = [
        camera_at(0.7, 0.05, -1.6),
        camera_at(0.5, 0.05, -1.7),
        camera_at(0.2, 0.6, -1.9),
    ];

    let good = precision(&spread, &walk).expect("the walk is visible");
    let bad = precision(&clustered, &walk).expect("the walk is visible");
    assert!(
        good < 0.02,
        "cameras around the room should be good to a centimetre or two, got {good:.3} m"
    );
    assert!(
        bad > 3.0 * good,
        "a cluster should be visibly worse: {bad:.3} m against {good:.3} m"
    );
}

/// Nothing can be said about a placement no sighting is visible from.
#[test]
fn a_placement_nothing_can_see_has_no_precision() {
    let facing_away = [
        Camera::look_at(70.0, Point3::new(0.0, 1.4, 0.0), Point3::new(0.0, 1.4, -5.0)),
        camera_at(0.0, 1.4, 0.1),
    ];
    assert_eq!(precision(&facing_away, &walk()), None);
}
