//! The fusion clock.

use optra::calib::latency::Estimate;
use optra::calib::solve::CameraCalibration;
use optra::config::FusionConfig;
use optra::fusion::bones::{bones, BoneLength, MeasureOptions, Skeleton};
use optra::fusion::fuse::{FusedJoint, Pose3d};
use optra::fusion::stage::{
    reconsider,
    follow_cameras, roll_call, start, tally, warning, CameraContribution, Clock, FusionStats, Measuring, Mismatch, Part,
    Size, Warning, Watched, ADMISSION_DWELL,
};
use optra::geometry::Point3;
use optra::models::Joint;
use optra::scalar::Scalar;
use optra::time::{Duration, Instant};

fn scalar(number: f64) -> Scalar {
    Scalar::from_bits(number.to_bits())
}

fn watched(id: &str) -> Watched {
    Watched {
        id: id.to_owned(),
        newest: None,
        size: Size { width: 1280, height: 720 },
        latency: Duration::zero(),
        behind: Duration::zero(),
        admitted: true,
        flipping: None,
        lateness: None,
        problem: None,
    }
}

fn base() -> Instant {
    Instant { nanos: 60_000_000_000 }
}

fn millis(count: u64) -> Duration {
    Duration::from_millis(count)
}

/// What is left of each camera's staleness after `dt` seconds, halving every
/// four.
fn faded(cameras: &[Watched], dt: f64) -> Vec<Duration> {
    let decay = 0.5f64.powf(dt / 4.0);
    cameras
        .iter()
        .map(|camera| Duration::from_nanos((camera.behind.nanos as f64 * decay).round() as u64))
        .collect()
}

fn follow(cameras: &mut Vec<Watched>, now: Instant, config: &FusionConfig) -> Duration {
    let faded = faded(cameras, 1.0 / 60.0);
    follow_cameras(cameras, now, &faded, config)
}

fn slack(config: &FusionConfig) -> Duration {
    millis(config.align_slack_ms as u64)
}

fn ceiling(config: &FusionConfig) -> Duration {
    millis(config.max_lag_ms as u64)
}

/// Changing a camera's resolution does not change its lens, and should not
/// invalidate a calibration.
#[test]
fn the_same_lens_at_another_resolution_is_rescaled() {
    let mut camera = watched("cam0");
    assert!(camera.match_resolution(640, 360));

    assert_eq!((camera.size.width, camera.size.height), (640, 360));
    // The focal length scales with the width, so the field of view is unchanged.
    let fov = |width: f64, fx: f64| 2.0 * (0.5 * width / fx).atan();
    let fx = 0.5 * 1280.0 / 35f64.to_radians().tan();
    let scaled = fx * camera.size.width as f64 / 1280.0;
    assert!(
        (fov(camera.size.width as f64, scaled) - 70f64.to_radians()).abs() < 1e-9,
        "the field of view should be unchanged"
    );
    assert!(camera.problem.is_none());
}

/// A different aspect ratio is a different field of view, and quietly scaling it
/// would put the body somewhere else.
#[test]
fn a_different_shape_of_frame_takes_the_camera_out_of_service() {
    let mut camera = watched("cam0");
    assert!(!camera.match_resolution(640, 480));
    assert!(camera.problem.is_some());
    assert_eq!(
        camera.reason(0).unwrap(),
        "running at 640x480, calibrated at 1280x720"
    );
    assert!(camera.match_resolution(1280, 720));
    assert!(camera.reason(0).is_none());
}

/// The clock has to sit behind the camera that hands its frames over last,
/// because interpolating onto a tick needs a frame after it.
#[test]
fn the_clock_waits_for_the_camera_that_delivers_latest() {
    let config = FusionConfig::default();
    let mut cameras = vec![watched("cam0"), watched("cam1"), watched("cam2")];

    cameras[0].newest = Some(base());
    cameras[1].newest = Some(base());
    cameras[2].newest = Some(base().before(millis(100)));

    let lag = follow(&mut cameras, base(), &config);
    assert_eq!(lag, millis(100).saturating_add(slack(&config)));
}

/// A camera nobody could wait for is left out, not waited for half the time.
#[test]
fn a_camera_too_late_to_wait_for_is_left_out_rather_than_flickering() {
    let config = FusionConfig::default();
    let mut cameras = vec![watched("cam0"), watched("cam1"), watched("cam2")];

    cameras[0].newest = Some(base());
    cameras[1].newest = Some(base());
    cameras[2].newest = Some(base().before(millis(400)));

    // One slow tick is not a verdict, so it is still being waited for and the
    // clock is pinned at its ceiling.
    let lag = follow(&mut cameras, base(), &config);
    assert!(cameras[2].admitted);
    assert_eq!(lag, ceiling(&config));

    // Once it has been slow for long enough, it goes.
    let later = base().after(Duration::from_nanos(ADMISSION_DWELL)).after(millis(1));
    cameras[0].newest = Some(later);
    cameras[1].newest = Some(later);
    let lag = follow(&mut cameras, later, &config);

    assert!(!cameras[2].admitted);
    let late = cameras[2].lateness.expect("the panel should be able to say why");
    assert_eq!((late.need, late.ceiling_ms), (millis(2441), 220));
    assert_eq!(
        cameras[2].reason(2441).unwrap(),
        "delivering 2441 ms behind real time, and the fusion clock waits at most 220 ms"
    );
    assert_eq!(
        lag,
        slack(&config),
        "with the straggler out, the clock tightens back up to the two that are keeping up"
    );
}

/// Triangulation needs two cameras. When only two are left, waiting for them is
/// not a choice.
#[test]
fn the_last_two_cameras_are_waited_for_however_late_they_are() {
    let config = FusionConfig::default();
    let mut cameras = vec![watched("cam0"), watched("cam1")];

    cameras[0].newest = Some(base().before(millis(500)));
    cameras[1].newest = Some(base().before(millis(500)));

    let mut lag = Duration::zero();
    for tick in 0..300u64 {
        lag = follow(&mut cameras, base().after(millis(tick * 20)), &config);
    }

    assert!(cameras.iter().all(|camera| camera.admitted));
    assert_eq!(lag, ceiling(&config), "clamped, but still every camera");
}

/// The clock is set by what a camera manages on a bad tick, not on a lucky one.
#[test]
fn one_early_frame_does_not_tighten_the_clock() {
    let config = FusionConfig::default();
    let mut cameras = vec![watched("cam0"), watched("cam1")];

    cameras[0].newest = Some(base().before(millis(120)));
    cameras[1].newest = Some(base().before(millis(120)));
    let slow = follow(&mut cameras, base(), &config);

    // Both cameras suddenly deliver on time.
    let next = base().after(millis(16));
    cameras[0].newest = Some(next);
    cameras[1].newest = Some(next);
    let after = follow(&mut cameras, next, &config);

    assert!(
        after.nanos > slow.saturating_sub(millis(5)).nanos,
        "one good tick moved the clock from {slow:?} to {after:?}"
    );
}

fn contribution(id: &str, aligned: f64, rejected: f32) -> CameraContribution {
    CameraContribution {
        id: id.to_owned(),
        aligned: scalar(aligned),
        rejected: scalar(f64::from(rejected)),
        problem: None,
    }
}

fn say(warning: Option<Warning>) -> Option<String> {
    warning.map(|warning| {
        let whole = match &warning {
            Warning::Floor { height } => f64::from_bits(height.bits).abs() * 100.0,
            Warning::Disagreeing { share, .. } => f64::from_bits(share.bits) * 100.0,
            Warning::Strained { metres } => f64::from_bits(metres.bits) * 100.0,
            _ => 0.0,
        };
        warning.text(whole.round() as u64)
    })
}

#[test]
fn a_camera_nothing_can_reach_is_named_in_the_warning() {
    let mut stats = FusionStats {
        cameras: vec![contribution("cam0", 1.0, 0.0), contribution("cam1", 0.0, 0.0)],
        floor: None,
        lower_body: 6,
        worst_correction: scalar(0.0),
    };

    let message = say(warning(&stats, &Skeleton::default(), &MeasureOptions::default()))
        .expect("one camera is not keeping up");
    assert!(message.contains("1 camera"), "{message}");

    stats.cameras[1].aligned = scalar(1.0);
    stats.cameras[1].rejected = scalar(f64::from(0.8f32));
    let message =
        say(warning(&stats, &Skeleton::default(), &MeasureOptions::default())).unwrap();
    assert!(message.contains("cam1"), "{message}");
    assert_eq!(message, "cam1 disagrees with the others on 80% of the joints it sees");
}

fn whole_body() -> Skeleton {
    Skeleton {
        bones: bones()
            .iter()
            .map(|bone| BoneLength {
                bone: *bone,
                length: scalar(0.4),
                samples: 1000,
                scatter: scalar(0.002),
                relative: scalar(0.002 / 0.4),
            })
            .collect(),
        measured_at: None,
    }
}

fn healthy() -> FusionStats {
    FusionStats {
        cameras: (0..3).map(|index| contribution(&format!("cam{index}"), 1.0, 0.02)).collect(),
        floor: None,
        lower_body: 8,
        worst_correction: scalar(0.01),
    }
}

#[test]
fn a_healthy_stage_says_nothing_once_the_body_is_measured() {
    assert!(warning(&healthy(), &whole_body(), &MeasureOptions::default()).is_none());
}

#[test]
fn each_thing_that_is_wrong_has_its_own_words() {
    let options = MeasureOptions::default();
    let mut stats = healthy();
    stats.worst_correction = scalar(0.2);
    assert_eq!(
        say(warning(&stats, &whole_body(), &options)).unwrap(),
        "the measured body and the cameras disagree by 20 cm"
    );
    assert_eq!(
        say(warning(&stats, &Skeleton::default(), &options)).unwrap(),
        "still measuring the body; move around for a moment"
    );
    stats.lower_body = 0;
    assert_eq!(
        say(warning(&stats, &whole_body(), &options)).unwrap(),
        "no lower-body joints are being reconstructed"
    );
    stats.floor = Some(scalar(-0.25));
    assert_eq!(
        say(warning(&stats, &whole_body(), &options)).unwrap(),
        "your feet are reconstructing 25 cm below the floor SteamVR reports, so its room setup is \
         off by that much"
    );
    stats.floor = Some(scalar(0.0600001));
    assert!(say(warning(&stats, &whole_body(), &options)).unwrap().contains("6 cm above"));
    stats.cameras[2].problem = Some("asleep".to_owned());
    assert_eq!(
        say(warning(&stats, &whole_body(), &options)).unwrap(),
        "cam2 is not being used: asleep"
    );
}

#[test]
fn half_the_skeleton_is_enough_to_stop_measuring_out_loud() {
    let mut skeleton = whole_body();
    skeleton.bones.truncate(11);
    assert!(warning(&healthy(), &skeleton, &MeasureOptions::default()).is_none());
    skeleton.bones.truncate(10);
    assert!(matches!(
        warning(&healthy(), &skeleton, &MeasureOptions::default()),
        Some(Warning::Measuring)
    ));
}

#[test]
fn the_clock_slows_down_but_never_runs_backwards() {
    let config = FusionConfig::default();
    let mut clock = Clock::new(&config);
    assert_eq!(clock.lag, millis(40));
    let step = Duration::from_nanos(8_333_333);

    let mut shown = 0;
    for tick in 0..30u64 {
        let now = base().after(Duration::from_nanos(tick * 16_666_667));
        let want = if tick < 20 { millis(200) } else { millis(60) };
        let at = clock.advance(now, want, step);
        assert!(at.nanos >= shown, "tick {tick} went back");
        shown = at.nanos;
    }
    assert_eq!(clock.lag, millis(60));
}

#[test]
fn the_body_is_measured_again_once_a_second() {
    let mut clock = Clock::new(&FusionConfig::default());
    assert_eq!(clock.measure(false, false), Measuring::Skip);
    assert_eq!(clock.measure(true, true), Measuring::Skip);
    for _ in 0..59 {
        assert_eq!(clock.measure(true, false), Measuring::Observe);
    }
    assert_eq!(clock.measure(true, false), Measuring::Remeasure);
    assert_eq!(clock.measure(true, false), Measuring::Observe);
}

#[test]
fn each_camera_takes_its_own_part() {
    let mut cameras = vec![watched("a"), watched("b"), watched("c"), watched("d")];
    cameras[0].admitted = false;
    let half = Size { width: 640, height: 360 };
    let square = Size { width: 500, height: 500 };
    let parts = roll_call(&mut cameras, &vec![Some(half), None, Some(square), Some(half)]);
    assert_eq!(parts, vec![Part::LeftOut, Part::Missing, Part::Mismatched, Part::Asked]);
    assert_eq!(cameras[0].size, Size { width: 1280, height: 720 });
    assert_eq!(
        cameras[2].problem,
        Some(Mismatch { running: square, calibrated: Size { width: 1280, height: 720 } })
    );
    assert_eq!(cameras[3].size, half);
    cameras[3].latency = millis(30);
    assert_eq!(cameras[3].sampled_at(base()), base().after(millis(30)));
}

#[test]
fn a_camera_is_credited_with_what_it_carried() {
    let mut pose = Pose3d::empty(base());
    let joint = |weights: Vec<(usize, Scalar)>, rejected: Vec<usize>| FusedJoint {
        point: Point3 { x: scalar(0.0), y: scalar(0.0), z: scalar(0.0) },
        sigma: scalar(0.01),
        residual: scalar(0.0),
        weights,
        rejected,
    };
    pose.set(Joint::Hip, joint(vec![(0, scalar(0.25)), (2, scalar(0.75))], vec![1]));
    pose.set(Joint::Neck, joint(vec![(0, scalar(0.5)), (1, scalar(0.5))], vec![]));
    let first = tally(&pose, 0);
    assert_eq!(first.shares, vec![scalar(0.5), scalar(0.25)], "in the order of the joints");
    assert_eq!(first.rejected, 0);
    let second = tally(&pose, 1);
    assert_eq!(second.shares, vec![scalar(0.5)]);
    assert_eq!(second.rejected, 1);
    assert_eq!(tally(&pose, 7).shares.len(), 0);
}

fn calibrated(id: &str, latency: Option<(u64, f64)>) -> CameraCalibration {
    CameraCalibration {
        id: id.to_owned(),
        size: Size { width: 1280, height: 720 },
        rms: scalar(0.001),
        sightings: 100,
        coverage: scalar(0.5),
        spread: scalar(0.2),
        latency: latency.map(|(ms, sharpness)| Estimate {
            latency: millis(ms),
            rms: scalar(0.001),
            rms_uncorrected: scalar(0.002),
            sharpness: scalar(sharpness),
        }),
        range: scalar(0.0),
        rms_at_range: scalar(0.0),
        feet: scalar(0.9),
    }
}

#[test]
fn only_the_cameras_of_the_room_are_fused() {
    let room = vec![
        calibrated("cam0", Some((45, 3.0))),
        calibrated("cam1", Some((60, 0.5))),
        calibrated("cam2", None),
        calibrated("cam3", Some((150, 3.0))),
    ];
    let ids = |list: &[&str]| list.iter().map(|id| (*id).to_owned()).collect::<Vec<String>>();

    let started = start(&ids(&["cam1", "other", "cam0"]), &room).expect("two are enough");
    assert_eq!(started.len(), 2);
    assert_eq!(started[0].id, "cam1");
    assert_eq!(started[0].latency, Duration::zero(), "an unsure delay is not applied");
    assert_eq!(started[1].latency, millis(45));
    assert!(started[1].admitted);

    let started = start(&ids(&["cam3", "cam0"]), &room).expect("two are enough");
    assert_eq!(started[0].latency, Duration::zero(), "no webcam is that late");

    assert_eq!(
        start(&ids(&["cam2", "other"]), &room).unwrap_err(),
        "1 of the running cameras are in this room profile; fusion needs at least two"
    );
}

/// A camera that was left out has to come back comfortably inside the ceiling.
#[test]
fn the_way_back_is_narrower_than_the_way_out() {
    let dwelt = Instant { nanos: base().nanos - ADMISSION_DWELL };
    let rejoins = |behind: u64| {
        let mut cameras = vec![watched("cam0"), watched("cam1"), watched("cam2")];
        cameras[2].admitted = false;
        cameras[2].flipping = Some(dwelt);
        cameras[2].behind = millis(behind);
        reconsider(&mut cameras, base(), 220, millis(40));
        cameras[2].admitted
    };
    assert!(rejoins(147), "187 ms is 85 hundredths of the ceiling");
    assert!(!rejoins(148));
}
