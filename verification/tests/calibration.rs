//! Delays, and the decisions of a solve.

use optra::calib::latency::{best_of, candidates, enough, neighbours, probe, Estimate, LatencyOptions, Probe};
use optra::calib::recorder::{CameraTrail, DevicePose, Recording, Rig, Sample, Track};
use optra::calib::solve::{
    best_seed, choose_cameras, correspond, middle, pair, sampled, seed_fov, seed_lags, solved_rigs, used, weight_of,
    CameraCalibration, Next, Paired, RoomCalibration, Rounds, SolveError, SolveOptions, SolveTask, Solver,
};
use optra::config::camera::{CameraConfig, LensKind};
use optra::fusion::stage::Size;
use optra::geometry::{Point2, Point3};
use optra::models::Joint;
use optra::scalar::Scalar;
use optra::time::{Duration, Instant};
use optra::vr::Role;

fn scalar(number: f64) -> Scalar {
    Scalar::from_bits(number.to_bits())
}

fn scalars(numbers: &[f64]) -> Vec<Scalar> {
    numbers.iter().map(|number| scalar(*number)).collect()
}

fn millis(count: u64) -> Duration {
    Duration::from_millis(count)
}

fn estimate(latency: u64, sharpness: f64) -> Estimate {
    Estimate {
        latency: millis(latency),
        rms: scalar(0.001),
        rms_uncorrected: scalar(0.004),
        sharpness: scalar(sharpness),
    }
}

#[test]
fn the_search_goes_from_nothing_to_the_longest_delay() {
    let options = LatencyOptions::default();
    let lags = candidates(60, &options).unwrap();
    assert_eq!(lags.len(), 126);
    assert_eq!(lags[0], Duration::zero());
    assert_eq!(lags[125], millis(250));

    let coarse = LatencyOptions { max: millis(10), step: millis(4), ..options };
    // A third step would be past the longest delay.
    assert_eq!(candidates(60, &coarse).unwrap(), vec![Duration::zero(), millis(4), millis(8)]);
    let stuck = LatencyOptions { step: Duration::zero(), ..options };
    assert!(candidates(1000, &stuck).is_none());
}

#[test]
fn the_first_of_the_smallest_errors_wins() {
    let errors = scalars(&[3.0, 1.0, 2.0, 1.0]);
    assert_eq!(best_of(&errors), 1);
    assert_eq!(neighbours(&errors, 1), Some((scalar(3.0), scalar(2.0))));
    assert_eq!(neighbours(&errors, 0), None);
    assert_eq!(neighbours(&errors, 3), None);
    assert_eq!(best_of(&scalars(&[f64::NAN, 4.0])), 1);
}

#[test]
fn the_probe_shrinks_to_what_fits_below_the_answer() {
    let options = LatencyOptions::default();
    assert_eq!(
        probe(millis(50), &options),
        Probe::Either { before: millis(20), after: millis(80), reach: millis(30) }
    );
    assert_eq!(
        probe(millis(8), &options),
        Probe::Either { before: Duration::zero(), after: millis(16), reach: millis(8) }
    );
    assert_eq!(probe(millis(7), &options), Probe::Past { after: millis(37) });
    assert!(enough(5, 10));
    assert!(!enough(4, 9));
    assert!(enough(0, 0));
}

#[test]
fn a_flat_curve_is_not_believed() {
    assert!(estimate(40, 1.1).is_confident());
    assert!(!estimate(40, 1.0).is_confident());
    assert!(!estimate(40, f64::NAN).is_confident());
}

fn device(seconds: u64) -> (Instant, DevicePose) {
    let nothing = scalar(0.0);
    let origin = Point3 { x: nothing, y: nothing, z: nothing };
    (
        Instant { nanos: seconds * 1_000_000_000 },
        DevicePose { position: origin, turn: scalar(1.0), axis: origin },
    )
}

fn trail(camera: &str, stamps: &[(u64, usize)]) -> CameraTrail {
    let mut trail = CameraTrail::new(camera.to_owned());
    trail.width = 1280;
    trail.height = 720;
    for (ms, rig) in stamps {
        trail.record(Sample {
            at: Instant { nanos: ms * 1_000_000 },
            rig: *rig,
            pixel: Point2 { x: scalar(100.0), y: scalar(100.0) },
            confidence: scalar(0.9),
        });
    }
    trail
}

/// Two rigs whose tracks run from one second to three.
fn recording(cameras: Vec<CameraTrail>) -> Recording {
    let mut tracks = Vec::new();
    for _ in 0..2 {
        let mut track = Track::new();
        for second in 1..=3 {
            let (at, pose) = device(second);
            track.push(at, pose);
        }
        tracks.push(track);
    }
    Recording {
        rigs: vec![
            Rig { role: Role::Head, joint: Joint::Head },
            Rig { role: Role::LeftHand, joint: Joint::LeftWrist },
        ],
        tracks,
        cameras,
        duration: Duration::from_secs(2),
    }
}

fn configured(ids: &[&str]) -> Vec<CameraConfig> {
    ids.iter().map(|id| CameraConfig { id: (*id).to_owned(), ..CameraConfig::default() }).collect()
}

#[test]
fn only_cameras_that_saw_enough_are_solved() {
    let walk = recording(vec![
        trail("a", &[(1500, 0), (1600, 0)]),
        trail("b", &[(1500, 0)]),
        trail("c", &[(1500, 0), (1600, 1), (1700, 0)]),
    ]);
    let all = configured(&["a", "c"]);
    assert_eq!(choose_cameras(&walk, &all, 2).unwrap(), vec![0, 2]);

    let error = choose_cameras(&walk, &all, 3).unwrap_err();
    assert_eq!(
        error.text(),
        "only 1 camera(s) saw enough of the walk; tracking needs at least two"
    );

    let error = choose_cameras(&walk, &configured(&["a"]), 2).unwrap_err();
    assert_eq!(error.text(), "the recording names a camera that is not configured: c");

    let mut empty = recording(Vec::new());
    empty.rigs.clear();
    let error = choose_cameras(&empty, &all, 2).unwrap_err();
    assert_eq!(error.text(), "the recording has no tracked devices in it");

    assert_eq!(
        SolveError::Left { camera: "a".to_owned() }.text(),
        "camera a left the recording between one pass and the next"
    );
    assert_eq!(
        SolveError::Unsolved { camera: "a".to_owned(), sightings: 77 }.text(),
        "camera a could not be solved from 77 sightings at any delay up to 160 ms; either it moved \
         during the walk or it is seeing something other than the headset"
    );
}

#[test]
fn pixels_are_paired_with_the_instant_the_shutter_opened() {
    let walk = recording(vec![
        trail("a", &[(1010, 0), (2000, 1), (3010, 0)]),
        trail("b", &[(2500, 0)]),
        trail("c", &[(2600, 0)]),
    ]);
    let chosen = vec![0, 2];

    // Twenty milliseconds back, the first frame has no pose before it.
    let pairs = pair(&walk, &chosen, &vec![millis(20), Duration::zero()]);
    let seen: Vec<(usize, usize, u64)> = pairs
        .iter()
        .map(|pair| (pair.camera, pair.rig, pair.when.nanos / 1_000_000))
        .collect();
    assert_eq!(seen, vec![(0, 1, 1980), (0, 0, 2990), (1, 0, 2600)]);

    let own = correspond(&walk.cameras[0], 7, &walk.tracks, Duration::zero());
    assert_eq!(own.len(), 2);
    assert_eq!(own[0].camera, 7);
    assert_eq!(own[0].when.nanos, 1_010_000_000);
    assert!(correspond(&walk.cameras[0], 0, &walk.tracks, Duration::from_secs(10)).is_empty());
}

#[test]
fn the_seed_with_the_most_inliers_wins() {
    let lags = seed_lags();
    assert_eq!(lags.len(), 9);
    assert_eq!(lags[8], millis(160));
    assert_eq!(best_seed(&vec![None, Some(12), Some(40), Some(40), None]), Some(2));
    assert_eq!(best_seed(&vec![None, None]), None);
}

#[test]
fn a_believed_delay_is_applied_and_another_is_not() {
    let mut rounds = Rounds::new(vec![Duration::zero(), millis(80), Duration::zero()]);
    let found = vec![Some(estimate(42, 3.0)), Some(estimate(190, 9.0)), Some(estimate(30, 0.2))];
    assert_eq!(rounds.step(found), Next::Refit);
    assert_eq!(rounds.lags, vec![millis(42), millis(80), Duration::zero()]);
    assert_eq!(rounds.step(vec![Some(estimate(42, 3.0)), None, None]), Next::Settled);
    assert!(rounds.more());
    assert_eq!(rounds.step(vec![Some(estimate(43, 3.0)), None, None]), Next::LastRefit);
    assert!(!rounds.more());
}

#[test]
fn a_solve_goes_round_until_the_delays_hold_still() {
    let mut solver = Solver::new(2, &SolveOptions::default());
    assert_eq!(solver.task, SolveTask::Seed);
    solver.seeded(vec![Duration::zero(), millis(80)]);
    assert_eq!(solver.task, SolveTask::Fit);
    solver.fitted();
    assert_eq!(solver.task, SolveTask::Measure);
    assert_eq!(solver.measured(vec![None, Some(estimate(91, 4.0))]), Next::Refit);
    // The delays it is seeded at now do not stand: the measured ones do.
    solver.seeded(vec![millis(20), millis(20)]);
    assert_eq!(solver.rounds.lags, vec![Duration::zero(), millis(91)]);
    solver.fitted();
    assert_eq!(solver.measured(vec![None, Some(estimate(91, 4.0))]), Next::Settled);
    assert_eq!(solver.task, SolveTask::Finish);

    let mut plain = Solver::new(2, &SolveOptions { estimate_latency: false, ..SolveOptions::default() });
    plain.seeded(vec![Duration::zero(), Duration::zero()]);
    plain.fitted();
    assert_eq!(plain.task, SolveTask::Finish);
}

#[test]
fn a_rig_needs_thirty_sightings_to_be_reported() {
    let one = |rig: usize| Paired {
        camera: 0,
        rig,
        when: Instant { nanos: 0 },
        pixel: Point2 { x: scalar(0.0), y: scalar(0.0) },
        confidence: scalar(1.0),
    };
    let mut pairs: Vec<Paired> = (0..30).map(|_| one(0)).collect();
    pairs.extend((0..29).map(|_| one(2)));
    assert_eq!(solved_rigs(3, &pairs), vec![true, false, false]);
    assert_eq!(used(pairs.len(), 9), 50);
}

#[test]
fn one_sighting_in_thirty_seven_judges_the_placement() {
    assert!(sampled(0).is_empty());
    assert_eq!(sampled(1), vec![0]);
    assert_eq!(sampled(37), vec![0]);
    assert_eq!(sampled(75), vec![0, 37, 74]);
    assert_eq!(middle(&scalars(&[0.3, 0.1, 0.2, 0.4])), Some(scalar(0.3)));
    assert_eq!(middle(&Vec::new()), None);
}

#[test]
fn controllers_count_by_half() {
    let head = Rig { role: Role::Head, joint: Joint::Head };
    let hand = Rig { role: Role::RightHand, joint: Joint::RightWrist };
    assert!(weight_of(head, scalar(0.7)).full);
    assert!(!weight_of(hand, scalar(0.7)).full);
    assert_eq!(weight_of(head, scalar(1.4)).confidence, scalar(1.0));
    assert_eq!(weight_of(head, scalar(-0.4)).confidence, scalar(0.0));
    assert_eq!(weight_of(head, scalar(0.7)).confidence, scalar(0.7));
    assert_eq!(seed_fov(LensKind::Standard), 70);
    assert_eq!(seed_fov(LensKind::Wide), 100);
    assert_eq!(seed_fov(LensKind::Fisheye), 150);
}

#[test]
fn a_camera_of_a_room_is_found_by_its_id() {
    let camera = |id: &str, sightings: usize| CameraCalibration {
        id: id.to_owned(),
        size: Size { width: 1280, height: 720 },
        rms: scalar(0.001),
        sightings,
        coverage: scalar(0.4),
        spread: scalar(0.2),
        latency: None,
        range: scalar(0.0),
        rms_at_range: scalar(0.0),
        feet: scalar(0.8),
    };
    let room = RoomCalibration {
        cameras: vec![camera("a", 1), camera("b", 2), camera("b", 3)],
        rms: scalar(0.001),
        rejected: 4,
        used: 96,
        precision: None,
    };
    assert_eq!(room.camera(&"b".to_owned()).unwrap().sightings, 2);
    assert!(room.camera(&"z".to_owned()).is_none());
}

#[test]
fn a_solve_starts_loose_and_looks_for_delays() {
    let options = SolveOptions::default();
    assert_eq!(options.resection.inlier_threshold, scalar(0.08));
    assert_eq!(options.min_samples, 40);
    assert!(options.estimate_latency);
}
