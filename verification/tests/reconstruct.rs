//! Joints from rays, with the linear algebra of the solve around the library's
//! decisions.

use nalgebra::{Matrix3, Matrix4, Point2, Point3, Rotation3, RowVector4, Vector3};

use optra::fusion::align::{align, Aligned, Placement};
use optra::fusion::fuse::{evidence, fuse as report, gather, CameraView, FuseOptions, Pose3d, Solved};
use optra::geometry::triangulate::{cameras_of, hypotheses, triangulate as decide, worst_residual, Hypothesis};
use optra::geometry;
use optra::models::{Joint, JointMap};
use optra::pipeline::{Keypoint, PoseFrame};
use optra::scalar::Scalar;
use optra::time::{Duration, Instant};

fn scalar(number: f64) -> Scalar {
    Scalar::from_bits(number.to_bits())
}

fn number(scalar: Scalar) -> f64 {
    f64::from_bits(scalar.bits)
}

/// A pinhole camera of square pixels.
#[derive(Clone)]
struct Camera {
    focal: f64,
    centre: Point2<f64>,
    eye: Point3<f64>,
    turn: Rotation3<f64>,
}

impl Camera {
    fn corner(x: f64, z: f64, width: u32, fov_degrees: f64) -> Self {
        let eye = Point3::new(x, 2.4, z);
        let forward = (Point3::new(0.0, 1.0, 0.0) - eye).normalize();
        let right = forward.cross(&Vector3::y()).normalize();
        let down = forward.cross(&right).normalize();
        Self {
            focal: 0.5 * f64::from(width) / (fov_degrees.to_radians() * 0.5).tan(),
            centre: Point2::new(f64::from(width) * 0.5, f64::from(width * 9 / 16) * 0.5),
            eye,
            turn: Rotation3::from_matrix_unchecked(Matrix3::from_columns(&[right, down, forward])),
        }
    }

    fn project(&self, world: Point3<f64>) -> Option<Point2<f64>> {
        let local = self.turn.inverse() * (world - self.eye);
        (local.z > 1e-6)
            .then(|| self.centre + Vector3::new(local.x, local.y, 0.0).xy() * (self.focal / local.z))
    }

    fn ray(&self, pixel: Point2<f64>) -> Vector3<f64> {
        let across = (pixel - self.centre) / self.focal;
        (self.turn * Vector3::new(across.x, across.y, 1.0)).normalize()
    }

    fn angular_error(&self, world: Point3<f64>, observed: Point2<f64>) -> Option<f64> {
        Some(self.ray(self.project(world)?).angle(&self.ray(observed)))
    }
}

#[derive(Clone, Copy)]
struct Observation {
    camera: usize,
    pixel: Point2<f64>,
    sigma: f64,
}

fn angular_sigma(camera: &Camera, confidence: f64) -> f64 {
    (8.0 - 7.0 * confidence.clamp(0.0, 1.0)) / camera.focal
}

fn sightings(cameras: &[Camera], point: Point3<f64>, confidence: f64) -> Vec<Observation> {
    cameras
        .iter()
        .enumerate()
        .filter_map(|(camera, one)| {
            let pixel = one.project(point)?;
            Some(Observation { camera, pixel, sigma: angular_sigma(one, confidence) })
        })
        .collect()
}

fn solve(cameras: &[Camera], observations: &[Observation], used: &[usize]) -> Option<Point3<f64>> {
    let mut normal = Matrix4::zeros();
    for index in used {
        let observation = observations[*index];
        let camera = &cameras[observation.camera];
        let direction = camera.ray(observation.pixel);
        let helper = if direction.x.abs() < 0.9 { Vector3::x() } else { Vector3::y() };
        let u = direction.cross(&helper).normalize();
        let v = direction.cross(&u).normalize();
        for axis in [u, v] {
            let row = RowVector4::new(axis.x, axis.y, axis.z, -axis.dot(&camera.eye.coords));
            normal += row.transpose() * row / observation.sigma.powi(2);
        }
    }
    let eigen = normal.symmetric_eigen();
    let (smallest, _) =
        eigen.eigenvalues.iter().enumerate().min_by(|a, b| a.1.total_cmp(b.1))?;
    let found = eigen.eigenvectors.column(smallest);
    (found[3].abs() > 1e-12)
        .then(|| Point3::new(found[0] / found[3], found[1] / found[3], found[2] / found[3]))
}

struct Triangulation {
    point: Point3<f64>,
    residuals: Vec<Scalar>,
    inliers: Vec<usize>,
    weights: Vec<(usize, f64)>,
    sigma: f64,
    /// By how much the rays miss, in units of what they claimed.
    chi_square: f64,
    /// Measurements beyond the three a point takes.
    spare: usize,
}

fn triangulate(
    cameras: &[Camera],
    observations: &[Observation],
    threshold: f64,
) -> Option<Triangulation> {
    let tried: Vec<Option<Point3<f64>>> = hypotheses(observations.len())
        .iter()
        .map(|pair| solve(cameras, observations, &[pair.first, pair.second]))
        .collect();
    let missed = |observation: &Observation, point| {
        cameras[observation.camera].angular_error(point, observation.pixel)
    };
    let judged = tried
        .iter()
        .map(|point| {
            let residuals: Vec<Option<f64>> =
                observations.iter().map(|one| missed(one, (*point)?)).collect();
            let error: f64 = residuals.iter().flatten().filter(|r| **r <= threshold).sum();
            point.map(|_| Hypothesis {
                residuals: residuals.iter().map(|r| r.map(scalar)).collect(),
                error: scalar(error),
            })
        })
        .collect();
    let chosen = decide(observations.len(), &judged, scalar(threshold))?;
    let point =
        solve(cameras, observations, &chosen.inliers).or(tried[chosen.hypothesis])?;

    let used: Vec<Observation> = chosen.inliers.iter().map(|index| observations[*index]).collect();
    let weight = |one: &Observation| 1.0 / one.sigma.powi(2);
    let total: f64 = used.iter().map(weight).sum();
    let mut information = Matrix3::zeros();
    for one in &used {
        let along = point - cameras[one.camera].eye;
        let direction = along.normalize();
        information += (Matrix3::identity() - direction * direction.transpose())
            / (one.sigma * along.norm()).powi(2);
    }
    let weakest =
        information.symmetric_eigen().eigenvalues.iter().copied().fold(f64::INFINITY, f64::min);
    let observers = observations.iter().map(|one| one.camera).collect();
    let missed_by = |one: &Observation| missed(one, point).map(|r| (r / one.sigma).powi(2));
    Some(Triangulation {
        point,
        chi_square: used.iter().filter_map(missed_by).sum(),
        spare: (2 * used.len()).saturating_sub(3),
        residuals: used.iter().filter_map(|one| missed(one, point).map(scalar)).collect(),
        inliers: cameras_of(&chosen.inliers, &observers),
        weights: used.iter().map(|one| (one.camera, weight(one) / total)).collect(),
        sigma: 1.0 / weakest.sqrt(),
    })
}

fn room() -> Vec<Camera> {
    vec![
        Camera::corner(-1.8, -1.8, 1280, 70.0),
        Camera::corner(1.8, -1.8, 1280, 70.0),
        Camera::corner(1.8, 1.8, 1280, 70.0),
    ]
}

#[test]
fn two_cameras_recover_a_point_exactly() {
    let cameras = room();
    let truth = Point3::new(0.3, 0.9, -0.4);
    let observations = sightings(&cameras[..2], truth, 0.9);

    let result = triangulate(&cameras, &observations, 0.01).expect("two rays should solve");
    assert!(
        (result.point - truth).norm() < 1e-6,
        "recovered {:?}, expected {truth:?}",
        result.point
    );
}

#[test]
fn a_single_ray_is_not_enough() {
    let cameras = room();
    let observations = sightings(&cameras[..1], Point3::new(0.0, 1.0, 0.0), 0.9);
    assert!(triangulate(&cameras, &observations, 0.01).is_none());
}

#[test]
fn three_cameras_agree_and_all_count_as_inliers() {
    let cameras = room();
    let truth = Point3::new(-0.5, 0.4, 0.6);
    let observations = sightings(&cameras, truth, 0.9);

    let result = triangulate(&cameras, &observations, 0.005).expect("three rays should solve");
    assert_eq!(result.inliers.len(), 3);
    assert!((result.point - truth).norm() < 1e-6);
    assert!(number(worst_residual(&result.residuals)) < 1e-6);
}

/// A joint hidden from one camera still produces a confident keypoint, just in
/// the wrong place. One such ray must not be able to drag the point.
#[test]
fn a_confidently_wrong_camera_is_rejected() {
    let cameras = room();
    let truth = Point3::new(0.2, 0.7, 0.1);
    let mut observations = sightings(&cameras, truth, 0.9);

    let bad = observations.last_mut().unwrap();
    bad.pixel.x += 90.0;
    bad.pixel.y -= 60.0;

    let result = triangulate(&cameras, &observations, 0.01).expect("the good pair should win");
    assert_eq!(result.inliers.len(), 2, "the bad ray should be dropped");
    assert!(
        (result.point - truth).norm() < 1e-5,
        "the outlier moved the point to {:?}",
        result.point
    );
}

/// A sharp camera should dominate a coarse one.
#[test]
fn a_sharper_camera_carries_more_weight() {
    let cameras =
        vec![Camera::corner(-1.8, -1.8, 640, 100.0), Camera::corner(1.8, -1.8, 1920, 60.0)];
    let truth = Point3::new(0.1, 0.8, 0.0);
    let observations = sightings(&cameras, truth, 0.9);

    let result = triangulate(&cameras, &observations, 0.02).expect("both rays see it");
    let wide = result.weights.iter().find(|(c, _)| *c == 0).unwrap().1;
    let narrow = result.weights.iter().find(|(c, _)| *c == 1).unwrap().1;
    assert!(
        narrow > 5.0 * wide,
        "the sharp camera should dominate, got {narrow} against {wide}"
    );
}

/// A noisy keypoint should pull the result less than a confident one.
#[test]
fn a_weak_keypoint_is_trusted_less() {
    let cameras = room();
    let truth = Point3::new(0.0, 0.9, 0.0);

    let mut confident = sightings(&cameras[..2], truth, 0.95);
    confident[1].pixel.x += 6.0;

    let mut weak = confident.clone();
    weak[1].sigma = angular_sigma(&cameras[1], 0.1);

    let a = triangulate(&cameras, &confident, 1.0).unwrap();
    let b = triangulate(&cameras, &weak, 1.0).unwrap();
    assert!(
        (b.point - truth).norm() < (a.point - truth).norm(),
        "down-weighting the offset ray should move the answer closer to the truth"
    );
}

/// A few joints in positions a standing body would have them.
fn body() -> Vec<(Joint, Point3<f64>)> {
    vec![
        (Joint::Hip, Point3::new(0.0, 0.95, 0.0)),
        (Joint::LeftKnee, Point3::new(-0.12, 0.50, 0.02)),
        (Joint::RightKnee, Point3::new(0.12, 0.50, -0.02)),
        (Joint::LeftAnkle, Point3::new(-0.13, 0.08, 0.0)),
        (Joint::RightAnkle, Point3::new(0.13, 0.08, 0.0)),
    ]
}

/// The body in one camera, each keypoint shifted by so many pixels.
fn shifted(
    cameras: &[Camera],
    camera: usize,
    confidence: f32,
    shift: impl Fn(Joint) -> f32,
) -> CameraView {
    let mut keypoints = JointMap::empty();
    for (joint, point) in body() {
        if let Some(pixel) = cameras[camera].project(point) {
            keypoints.set(
                joint,
                Keypoint {
                    x: scalar(f64::from(pixel.x as f32 + shift(joint))),
                    y: scalar(f64::from(pixel.y as f32)),
                    confidence: scalar(f64::from(confidence)),
                },
            );
        }
    }
    CameraView { camera, aligned: still(&keypoints) }
}

fn view(cameras: &[Camera], camera: usize, confidence: f32) -> CameraView {
    shifted(cameras, camera, confidence, |_| 0.0)
}

/// Keypoints of a body that is not moving.
fn still(keypoints: &JointMap<Keypoint>) -> Aligned {
    let frame = |millis: u64| PoseFrame {
        seq: 0,
        captured_at: Instant { nanos: millis * 1_000_000 },
        width: 1280,
        height: 720,
        keypoints: keypoints.copied(),
    };
    let middle = Instant { nanos: 0 }.after(Duration::from_millis(10));
    align(&frame(0), &frame(20), middle)
}

fn views(cameras: &[Camera], confidence: f32) -> Vec<CameraView> {
    (0..cameras.len()).map(|index| view(cameras, index, confidence)).collect()
}

fn fuse(cameras: &[Camera], views: &Vec<CameraView>, options: &FuseOptions) -> Pose3d {
    let found: Vec<Option<(Vec<usize>, Triangulation)>> = gather(views, cameras.len(), options)
        .iter()
        .enumerate()
        .map(|(index, rays)| {
            let observations: Vec<Observation> = rays
                .as_ref()?
                .iter()
                .map(|ray| {
                    let CameraView { camera, aligned } = &views[*ray];
                    let seen = aligned.get(Joint::ALL[index]).unwrap();
                    let at = match seen.placed {
                        Placement::Blended { from, .. } => from,
                        Placement::Held { seen, .. } => seen,
                    };
                    Observation {
                        camera: *camera,
                        pixel: Point2::new(number(at.x), number(at.y)),
                        sigma: angular_sigma(&cameras[*camera], number(seen.confidence)),
                    }
                })
                .collect();
            let found = triangulate(cameras, &observations, number(options.inlier_threshold))?;
            Some((observations.iter().map(|one| one.camera).collect(), found))
        })
        .collect();
    let disagreement = disagreement(found.iter().flatten().map(|(_, found)| found));
    let solved = found
        .into_iter()
        .map(|joint| {
            let (observers, found) = joint?;
            let squares: f64 = found.residuals.iter().map(|r| number(*r).powi(2)).sum();
            Some(Solved {
                observers,
                point: geometry::Point3 {
                    x: scalar(found.point.x),
                    y: scalar(found.point.y),
                    z: scalar(found.point.z),
                },
                sigma: scalar(found.sigma * disagreement),
                residual: scalar((squares / found.residuals.len() as f64).sqrt()),
                weights: found.weights.iter().map(|(id, share)| (*id, scalar(*share))).collect(),
                inliers: found.inliers,
            })
        })
        .collect();
    report(solved, Instant { nanos: 0 }, scalar(disagreement), options)
}

/// How much worse the rays agreed than they claimed they would, over the body.
fn disagreement<'a>(found: impl Iterator<Item = &'a Triangulation>) -> f64 {
    let (mut chi_square, mut spare) = (0.0, 0);
    for one in found {
        if evidence(one.spare, scalar(one.chi_square), scalar(25.0 * one.spare as f64)) {
            chi_square += one.chi_square;
            spare += one.spare;
        }
    }
    if spare == 0 { 1.0 } else { (chi_square / spare as f64).max(1.0f64).sqrt() }
}

fn distance(point: geometry::Point3, truth: Point3<f64>) -> f64 {
    (Point3::new(number(point.x), number(point.y), number(point.z)) - truth).norm()
}

/// The uncertainty a joint is reported with has to be the one that was observed,
/// not the one the pose models promised.
#[test]
fn cameras_that_disagree_report_uncertainty_that_says_so() {
    let cameras = room();

    let honest = views(&cameras, 0.9);
    let agreeing = fuse(&cameras, &honest, &FuseOptions::default());
    assert_eq!(
        number(agreeing.disagreement),
        1.0,
        "rays that land exactly where they should claim nothing extra"
    );

    let mut skewed = views(&cameras, 0.9);
    skewed[2] = shifted(&cameras, 2, 0.9, |_| 8.0);
    let disagreeing = fuse(&cameras, &skewed, &FuseOptions::default());

    assert!(
        number(disagreeing.disagreement) > 1.8,
        "one camera eight pixels out was reported as {:.2}x disagreement",
        number(disagreeing.disagreement)
    );

    let calm = agreeing.get(Joint::Hip).expect("the hip was visible");
    let shaken = disagreeing.get(Joint::Hip).expect("the hip was still visible");
    assert!(
        number(shaken.sigma) > number(calm.sigma) * 1.8,
        "the hip claimed {:.1} mm against {:.1} mm, which is not enough of a difference",
        number(shaken.sigma) * 1000.0,
        number(calm.sigma) * 1000.0
    );
}

/// The point itself must not move. This changes what is claimed about the answer,
/// not the answer.
#[test]
fn measuring_the_disagreement_does_not_move_the_body() {
    let cameras = room();
    let pose = fuse(&cameras, &views(&cameras, 0.9), &FuseOptions::default());

    for (joint, truth) in body() {
        let fused = pose.get(joint).expect("every joint was visible");
        assert!(distance(fused.point, truth) < 1e-6, "{joint:?} moved");
    }
}

#[test]
fn a_joint_on_the_wrong_limb_is_no_evidence() {
    assert!(evidence(3, scalar(75.0), scalar(75.0)));
    assert!(!evidence(3, scalar(75.1), scalar(75.0)));
    assert!(!evidence(0, scalar(0.0), scalar(0.0)));
}

#[test]
fn a_body_seen_by_three_cameras_comes_back_where_it_was() {
    let cameras = room();
    let pose = fuse(&cameras, &views(&cameras, 0.9), &FuseOptions::default());

    assert_eq!(pose.count(), body().len());
    for (joint, truth) in body() {
        let fused = pose.get(joint).expect("every joint was visible");
        assert!(
            distance(fused.point, truth) < 1e-6,
            "{joint:?} came back at {:?}, expected {truth:?}",
            fused.point
        );
        assert_eq!(fused.rays(), 3);
        assert!(number(fused.sigma) < 0.01, "{joint:?} sigma {}", number(fused.sigma));
    }
    assert_eq!(pose.lower_body(), 5);
}

#[test]
fn one_camera_alone_reconstructs_nothing() {
    let cameras = room();
    let pose = fuse(&cameras, &vec![view(&cameras, 0, 0.9)], &FuseOptions::default());
    assert!(pose.is_empty());
}

/// A joint the model is barely reporting is not a measurement, and voting with it
/// is worse than leaving the joint to the filter.
#[test]
fn keypoints_below_the_confidence_gate_do_not_vote() {
    let cameras = room();
    let pose = fuse(&cameras, &views(&cameras, 0.1), &FuseOptions::default());
    assert!(pose.is_empty());
}

/// An occluded joint still gets a confident keypoint, just in the wrong place. It
/// should be dropped and named.
#[test]
fn a_camera_that_disagrees_is_dropped_and_reported() {
    let cameras = room();
    let mut views = views(&cameras, 0.9);
    // Move one camera's ankle a long way, as an occluding leg would.
    views[2] =
        shifted(&cameras, 2, 0.9, |joint| if joint == Joint::LeftAnkle { 120.0 } else { 0.0 });

    let pose = fuse(&cameras, &views, &FuseOptions::default());
    let ankle = pose.get(Joint::LeftAnkle).expect("two cameras still agree");

    assert_eq!(ankle.rejected, vec![2]);
    assert_eq!(ankle.rays(), 2);
    assert!(
        distance(ankle.point, Point3::new(-0.13, 0.08, 0.0)) < 1e-4,
        "the outlier moved the ankle to {:?}",
        ankle.point
    );

    // And the joints that camera got right are still worth three rays.
    assert_eq!(pose.get(Joint::Hip).unwrap().rays(), 3);
}

/// Cameras that cannot pin a joint down should have it withheld rather than
/// reported with a number nobody can act on.
#[test]
fn a_joint_nothing_can_locate_is_withheld() {
    // Two cameras a hand's width apart: they agree with each other about a point
    // neither of them can place along the line of sight.
    let cameras =
        vec![Camera::corner(-1.8, -1.8, 1280, 70.0), Camera::corner(-1.7, -1.8, 1280, 70.0)];
    let pose = fuse(&cameras, &views(&cameras, 0.9), &FuseOptions::default());
    assert!(pose.is_empty(), "a grazing pair should not be reported as a measurement");
}

#[test]
fn the_weights_say_which_camera_carried_the_joint() {
    let cameras = room();
    let pose = fuse(&cameras, &views(&cameras, 0.9), &FuseOptions::default());

    let hip = pose.get(Joint::Hip).unwrap();
    let total: f64 = hip.weights.iter().map(|(_, weight)| number(*weight)).sum();
    assert!((total - 1.0).abs() < 1e-9);
    assert!(hip.weights.iter().all(|(_, weight)| number(*weight) > 0.0));
}

#[test]
fn a_view_of_an_unknown_camera_does_not_vote() {
    let cameras = room();
    let mut views = views(&cameras, 0.9);
    views[1].camera = 7;
    let rays = gather(&views, cameras.len(), &FuseOptions::default());
    assert_eq!(rays[Joint::Hip.index()], Some(vec![0, 2]));
    assert_eq!(rays[Joint::Nose.index()], None);
}
