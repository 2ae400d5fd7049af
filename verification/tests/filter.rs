//! When a joint's filter begins, carries on, starts over and is forgotten, with
//! the arithmetic of the filter around the library's decisions.

use nalgebra::{Matrix2, Point3 as Place, Vector2, Vector3};

use optra::fusion::filter::{
    FilterOptions, Filtered, FilteredJoint, Motion, PoseFilter, Reach, Stepped,
};
use optra::fusion::fit::{Fitted, FittedJoint};
use optra::geometry::Point3;
use optra::models::{Joint, JointMap, JOINTS};
use optra::scalar::Scalar;
use optra::time::{Duration, Instant};

fn scalar(number: f64) -> Scalar {
    Scalar::from_bits(number.to_bits())
}

fn number(scalar: Scalar) -> f64 {
    f64::from_bits(scalar.bits)
}

fn point(x: f64, y: f64, z: f64) -> Point3 {
    Point3 { x: scalar(x), y: scalar(y), z: scalar(z) }
}

fn outward(place: Place<f64>) -> Point3 {
    point(place.x, place.y, place.z)
}

fn inward(point: Point3) -> Place<f64> {
    Place::new(number(point.x), number(point.y), number(point.z))
}

fn seconds(span: Duration) -> f64 {
    std::time::Duration::from_nanos(span.nanos).as_secs_f64()
}

fn start() -> Instant {
    Instant { nanos: 3_000_000_000 }
}

const STEP: u64 = 1000 / 60;

fn at(step: u64) -> Instant {
    start().after(Duration::from_millis(STEP * step))
}

/// Seconds from the start to a step.
fn passed(step: u64) -> f64 {
    seconds(Duration::from_millis(STEP * step))
}

fn pose(at: Instant, point: Point3) -> Fitted {
    posed(at, inward(point), 0.01)
}

fn posed(at: Instant, place: Place<f64>, sigma: f64) -> Fitted {
    let mut fitted = Fitted::empty(at);
    fitted.set(
        Joint::LeftAnkle,
        FittedJoint {
            point: outward(place),
            sigma: scalar(sigma),
            inferred: false,
            correction: scalar(0.0),
        },
    );
    fitted
}

fn ankle(asked: &[Motion]) -> Motion {
    assert_eq!(asked.len(), JOINTS);
    asked[Joint::LeftAnkle.index()]
}

/// A repeatable jitter, so the tests mean the same thing every run.
struct Noise(u64);

impl Noise {
    fn next(&mut self) -> f64 {
        self.0 = self.0.wrapping_mul(6364136223846793005).wrapping_add(1442695040888963407);
        ((self.0 >> 11) as f64 / (1u64 << 53) as f64) - 0.5
    }

    fn jitter(&mut self) -> Vector3<f64> {
        Vector3::new(self.next(), self.next(), self.next())
    }
}

/// A constant-velocity filter along one axis.
#[derive(Clone, Copy)]
struct Kalman {
    x: f64,
    v: f64,
    covariance: Matrix2<f64>,
}

impl Kalman {
    fn new(x: f64) -> Self {
        Self { x, v: 0.0, covariance: Matrix2::new(0.01, 0.0, 0.0, 4.0) }
    }

    fn step(&mut self, measurement: f64, variance: f64, dt: f64, agility: f64) {
        self.x += self.v * dt;
        let transition = Matrix2::new(1.0, dt, 0.0, 1.0);
        let q = agility * agility;
        let across = q * dt * dt / 2.0;
        let process = Matrix2::new(q * dt * dt * dt / 3.0, across, across, q * dt);
        self.covariance = transition * self.covariance * transition.transpose() + process;

        let innovation = self.covariance[(0, 0)] + variance;
        if innovation < 1e-12 {
            return;
        }
        let gain = Vector2::new(self.covariance[(0, 0)], self.covariance[(1, 0)]) / innovation;
        let residual = measurement - self.x;
        self.x += gain.x * residual;
        self.v += gain.y * residual;
        self.covariance = Matrix2::new(1.0 - gain.x, 0.0, -gain.y, 1.0) * self.covariance;
    }
}

fn time_constant(cutoff: f64) -> f64 {
    1.0 / (std::f64::consts::TAU * cutoff.max(1e-3))
}

fn smoothing_factor(tau: f64, dt: f64) -> f64 {
    (dt / (tau + dt)).clamp(0.0, 1.0)
}

fn extrapolate(
    from: Place<f64>,
    velocity: Vector3<f64>,
    ahead: f64,
    limit: f64,
) -> Place<f64> {
    let step = velocity * ahead;
    let distance = step.norm();
    from + if distance > limit { step * (limit / distance) } else { step }
}

/// One joint's filter.
#[derive(Clone, Copy)]
struct Track {
    axes: [Kalman; 3],
    smoothed: Place<f64>,
    steady: Vector3<f64>,
}

impl Track {
    fn new(place: Place<f64>) -> Self {
        Self {
            axes: [Kalman::new(place.x), Kalman::new(place.y), Kalman::new(place.z)],
            smoothed: place,
            steady: Vector3::zeros(),
        }
    }

    fn step(
        &mut self,
        measured: Place<f64>,
        sigma: f64,
        dt: f64,
        options: &FilterOptions,
    ) -> Stepped {
        let variance = sigma.max(1e-4).powi(2);
        for (axis, one) in self.axes.iter_mut().zip(measured.iter()) {
            axis.step(*one, variance, dt, number(options.agility));
        }
        let estimate = Place::new(self.axes[0].x, self.axes[1].x, self.axes[2].x);
        let raw = Vector3::new(self.axes[0].v, self.axes[1].v, self.axes[2].v);
        let fast = time_constant(number(options.derivative_cutoff));
        self.steady += (raw - self.steady) * smoothing_factor(fast, dt);
        let cutoff = number(options.min_cutoff) + number(options.beta) * self.steady.norm();
        let tau = time_constant(cutoff);
        self.smoothed += (estimate - self.smoothed) * smoothing_factor(tau, dt);

        let caution = number(options.caution).clamp(0.0, 1.0);
        let mut velocity = Vector3::zeros();
        for (index, axis) in self.axes.iter().enumerate() {
            let power = raw[index] * raw[index];
            let noise = caution * axis.covariance[(1, 1)];
            velocity[index] = raw[index] * (1.0 - noise / power.max(1e-12)).clamp(0.0, 1.0).sqrt();
        }
        let lead = seconds(options.horizon) + tau;
        let predicted =
            extrapolate(self.smoothed, velocity, lead, number(options.max_prediction));
        Stepped {
            point: outward(self.smoothed),
            velocity: point(velocity.x, velocity.y, velocity.z),
            predicted: outward(predicted),
            lead: scalar(lead),
            reach: Reach { measured: scalar(raw.norm()), acted_on: scalar(velocity.norm()) },
        }
    }
}

/// The whole filter.
struct Smoother {
    filter: PoseFilter,
    tracks: JointMap<Track>,
}

impl Smoother {
    fn new(options: FilterOptions) -> Self {
        Self { filter: PoseFilter::new(options), tracks: JointMap::empty() }
    }

    fn push(&mut self, fitted: &Fitted) -> Filtered {
        let options = *self.filter.options();
        let asked = self.filter.push(fitted);
        let mut steps = JointMap::empty();
        for (joint, motion) in Joint::ALL.into_iter().zip(&asked) {
            let Some(measured) = fitted.get(joint) else { continue };
            let place = inward(measured.point);
            let mut track = match motion {
                Motion::Begin | Motion::Restart => Track::new(place),
                _ => *self.tracks.get(joint).unwrap(),
            };
            let dt = match motion {
                Motion::Advance(gap) => seconds(*gap),
                _ => 1.0 / 60.0,
            };
            if *motion != Motion::Restart {
                steps.set(joint, track.step(place, number(measured.sigma), dt, &options));
            }
            self.tracks.set(joint, track);
        }
        let reaches = PoseFilter::reaches(fitted, &asked, &steps);
        let speed: f64 = reaches.iter().map(|reach| number(reach.measured)).sum();
        let acted_on: f64 = reaches.iter().map(|reach| number(reach.acted_on)).sum();
        self.filter.filtered(
            fitted,
            &asked,
            &steps,
            scalar(seconds(options.horizon)),
            scalar(speed),
            scalar(acted_on / speed),
        )
    }
}

fn velocity(joint: &FilteredJoint) -> Vector3<f64> {
    inward(joint.velocity).coords
}

/// Where a joint is sent, so many seconds further ahead than it was predicted.
fn sent(filtered: &Filtered, further: f64) -> Place<f64> {
    let joint = filtered.get(Joint::LeftAnkle).unwrap();
    let ahead = further + number(joint.lead);
    extrapolate(inward(joint.point), velocity(&joint), ahead, number(filtered.limit))
}

/// The prediction is what goes out, so it is what has to be still.
#[test]
fn a_still_joint_is_predicted_still() {
    let mut filter = Smoother::new(FilterOptions::default());
    let mut noise = Noise(0x5EED);
    let truth = Place::new(0.1, 0.09, -0.2);

    let (mut raw, mut predicted, mut counted) = (0.0, 0.0, 0);
    for step in 0..300 {
        let measured = truth + noise.jitter() * 0.02;
        let out = filter.push(&posed(at(step), measured, 0.02));
        if step > 60 {
            raw += (measured - truth).norm_squared();
            predicted += (sent(&out, 0.08) - truth).norm_squared();
            counted += 1;
        }
    }
    let raw = (raw / counted as f64).sqrt();
    let predicted = (predicted / counted as f64).sqrt();
    assert!(
        predicted < raw / 2.0,
        "a joint that never moved was sent {:.1} mm from where it was, against {:.1} mm of \
         measurement noise",
        predicted * 1000.0,
        raw * 1000.0
    );
}

/// The distance a joint covered while invisible is not a velocity: it starts over
/// at rest where it was seen.
#[test]
fn a_joint_that_reappears_is_not_flung() {
    let mut filter = Smoother::new(FilterOptions::default());
    let here = Place::new(0.1, 0.09, -0.2);
    let there = Place::new(0.1, 0.09, -0.45);
    for step in 0..60 {
        filter.push(&posed(at(step), here, 0.01));
    }

    // Gone for a fifth of a second, back a quarter of a metre away.
    let back = start().after(Duration::from_millis(1200));
    assert_eq!(ankle(&filter.filter.clone().push(&posed(back, there, 0.01))), Motion::Restart);
    let out = filter.push(&posed(back, there, 0.01));
    let joint = out.get(Joint::LeftAnkle).unwrap();

    assert!(
        (inward(joint.point) - there).norm() < 1e-9,
        "the joint should be where it was seen, and is at {:?}",
        inward(joint.point)
    );
    assert!(velocity(&joint).norm() < 1e-9, "a velocity was inferred across the gap");
    assert!(
        (inward(joint.predicted) - there).norm() < 0.01,
        "the prediction landed past the only place the joint was actually seen"
    );
    assert_eq!(joint.lead, scalar(0.06));
    assert_eq!(out.reach, None);
}

#[test]
fn a_still_joint_comes_out_much_stiller() {
    let mut filter = Smoother::new(FilterOptions::default());
    let mut noise = Noise(0xB0A7);
    let truth = Place::new(0.1, 0.09, -0.2);

    let (mut raw, mut smoothed, mut counted) = (0.0, 0.0, 0);
    for step in 0..300 {
        let measured = truth + noise.jitter() * 0.02;
        let out = filter.push(&posed(at(step), measured, 0.01));
        // Give the filter a moment to settle before judging it.
        if step > 60 {
            raw += (measured - truth).norm_squared();
            let position = inward(out.position(Joint::LeftAnkle).unwrap());
            smoothed += (position - truth).norm_squared();
            counted += 1;
        }
    }
    let raw = (raw / counted as f64).sqrt();
    let smoothed = (smoothed / counted as f64).sqrt();
    assert!(smoothed < raw / 3.0, "the filter left {smoothed:.4} m of {raw:.4} m");
}

/// A joint moving steadily should be predicted where it is going, not where it
/// was.
#[test]
fn a_steady_joint_is_predicted_where_it_is_going() {
    let options = FilterOptions::default();
    let mut filter = Smoother::new(options);
    let speed = Vector3::new(0.0, 0.0, -1.4);

    let mut last = None;
    for step in 0..180 {
        let truth = Place::new(0.1, 0.09, 0.0) + speed * passed(step);
        last = Some((filter.push(&posed(at(step), truth, 0.008)), truth));
    }
    let (filtered, truth) = last.unwrap();
    let joint = filtered.get(Joint::LeftAnkle).unwrap();

    assert!(
        (velocity(&joint) - speed).norm() < 0.15,
        "velocity came out as {:?}",
        velocity(&joint)
    );
    // The smoothing really does lag, and the prediction has to be paying it back
    // rather than starting from it.
    assert!(
        (inward(joint.point) - truth).norm() > 0.02,
        "the smoothing was expected to lag, and did not"
    );
    let expected = truth + speed * seconds(options.horizon);
    assert!(
        (inward(joint.predicted) - expected).norm() < 0.02,
        "predicted {:?}, should be near {expected:?}",
        inward(joint.predicted)
    );
}

/// When the velocity behind a prediction goes wrong, the foot should stop rather
/// than leave the room.
#[test]
fn a_runaway_prediction_is_clamped() {
    let options = FilterOptions { max_prediction: scalar(0.1), ..FilterOptions::default() };
    let mut filter = Smoother::new(options);

    let mut last = None;
    for step in 0..60 {
        // Absurdly fast, as a mis-tracked limb would be.
        let truth = Place::new(0.0, 0.5, -20.0 * passed(step));
        last = Some(filter.push(&posed(at(step), truth, 0.01)));
    }
    let out = last.unwrap();
    assert_eq!(out.limit, scalar(0.1));
    let joint = out.get(Joint::LeftAnkle).unwrap();
    let reached = (inward(joint.predicted) - inward(joint.point)).norm();
    assert!(reached <= 0.1 + 1e-9, "the prediction reached {reached} m");
}

/// A frame the cameras disagreed about should move the answer less.
#[test]
fn an_uncertain_measurement_moves_the_answer_less() {
    let settled = Place::new(0.0, 0.09, 0.0);

    let mut moved = Vec::new();
    for sigma in [0.002, 0.2] {
        let mut filter = Smoother::new(FilterOptions::default());
        for step in 0..120 {
            filter.push(&posed(at(step), settled, 0.002));
        }
        // One frame that says the joint jumped ten centimetres.
        let jumped =
            filter.push(&posed(at(120), settled + Vector3::new(0.1, 0.0, 0.0), sigma));
        assert_eq!(jumped.get(Joint::LeftAnkle).unwrap().sigma, scalar(sigma));
        moved.push((inward(jumped.position(Joint::LeftAnkle).unwrap()) - settled).norm());
    }
    assert!(
        moved[0] > 5.0 * moved[1],
        "confident frame moved {:.4} m, uncertain one {:.4} m",
        moved[0],
        moved[1]
    );
}

/// A joint that vanishes for a long time is somewhere else entirely by the time
/// it returns, and resuming its velocity would fling the prediction.
#[test]
fn a_long_absence_forgets_the_joint() {
    let options = FilterOptions::default();
    let mut filter = Smoother::new(options);
    for step in 0..60 {
        filter.push(&posed(at(step), Place::new(0.0, 0.09, -2.0 * passed(step)), 0.01));
    }

    // Gone for well past the patience, then back somewhere else.
    let gone = at(60).after(options.patience).after(Duration::from_millis(200));
    assert_eq!(ankle(&filter.filter.clone().push(&Fitted::empty(gone))), Motion::Forget);
    assert!(filter.push(&Fitted::empty(gone)).is_empty());

    let there = Place::new(1.0, 0.09, 1.0);
    let back = posed(gone.after(Duration::from_millis(STEP)), there, 0.01);
    assert_eq!(ankle(&filter.filter.clone().push(&back)), Motion::Begin);
    let joint = filter.push(&back).get(Joint::LeftAnkle).unwrap();
    assert!(
        (inward(joint.point) - there).norm() < 1e-9,
        "it resumed at {:?} instead of where it reappeared",
        inward(joint.point)
    );
    assert_eq!(velocity(&joint), Vector3::zeros());
}

#[test]
fn a_brief_absence_is_carried_through() {
    let mut filter = Smoother::new(FilterOptions::default());
    let truth = |step| Place::new(0.0, 0.09, -2.0 * passed(step));
    for step in 0..60 {
        filter.push(&posed(at(step), truth(step), 0.01));
    }
    assert_eq!(ankle(&filter.filter.clone().push(&Fitted::empty(at(61)))), Motion::Rest);
    filter.push(&Fitted::empty(at(61)));

    let resumed = posed(at(62), truth(62), 0.01);
    assert_eq!(
        ankle(&filter.filter.clone().push(&resumed)),
        Motion::Advance(Duration::from_millis(3 * STEP))
    );
    let joint = filter.push(&resumed).get(Joint::LeftAnkle).unwrap();
    assert!(
        (velocity(&joint).z + 2.0).abs() < 0.2,
        "the velocity was lost across the gap: {:?}",
        velocity(&joint)
    );
}

/// A moving joint must not be smoothed as hard as a still one, or every step
/// lags.
#[test]
fn a_moving_joint_is_smoothed_less_than_a_still_one() {
    let dt = 1.0 / 60.0;
    let options = FilterOptions::default();
    let (min_cutoff, beta) = (number(options.min_cutoff), number(options.beta));

    let still = smoothing_factor(time_constant(min_cutoff), dt);
    let walking = smoothing_factor(time_constant(min_cutoff + beta * 2.0), dt);
    assert!(walking > 1.5 * still, "still {still:.3} against walking {walking:.3}");
}

/// How far the prediction of a noisy joint at a steady speed reached past the
/// smoothed position, and how much of the measured speed it acted on.
fn walked(caution: f64, speed: f64) -> (f64, f64) {
    let mut filter =
        Smoother::new(FilterOptions { caution: scalar(caution), ..FilterOptions::default() });
    let mut noise = Noise(0xA11E);

    let (mut lead, mut reach, mut counted) = (0.0, 0.0, 0);
    for step in 0..240 {
        let t = passed(1) * step as f64;
        let measured = Place::new(speed * t, 1.0, 0.0) + noise.jitter() * 0.01;
        let out = filter.push(&posed(at(step), measured, 0.01));
        // After the filter has settled, so this measures it rather than its first
        // few frames.
        if step > 120 {
            let joint = out.get(Joint::LeftAnkle).unwrap();
            lead += (inward(joint.predicted) - inward(joint.point)).norm();
            reach += out.reach.map_or(0.0, number);
            counted += 1;
        }
    }
    (lead / counted as f64, reach / counted as f64)
}

#[test]
fn lowering_the_caution_lets_the_prediction_reach_further() {
    for speed in [1.0, 0.3] {
        let (cautious_lead, cautious_reach) = walked(1.0, speed);
        let (bold_lead, bold_reach) = walked(0.0, speed);
        assert!(
            bold_reach > 0.95,
            "with no caution the prediction should act on the speed it measured, and at \
             {speed:.1} m/s it acted on {:.0}%",
            bold_reach * 100.0
        );
        assert!(
            cautious_reach < 0.9,
            "the caution held nothing back at {speed:.1} m/s: {:.0}% of the speed went through",
            cautious_reach * 100.0
        );
        assert!(
            bold_lead > 1.2 * cautious_lead && bold_lead - cautious_lead > 0.01,
            "at {speed:.1} m/s the prediction reached {:.0} mm ahead cautiously and {:.0} mm \
             boldly, which is not a difference a user could act on",
            cautious_lead * 1000.0,
            bold_lead * 1000.0
        );
    }
}

#[test]
fn lowering_the_caution_costs_stillness() {
    let wobble = |caution: f64| {
        let mut filter =
            Smoother::new(FilterOptions { caution: scalar(caution), ..FilterOptions::default() });
        let mut noise = Noise(0x5EED);
        let truth = Place::new(0.1, 0.09, -0.2);
        let (mut sum, mut counted) = (0.0, 0);
        for step in 0..300 {
            let out = filter.push(&posed(at(step), truth + noise.jitter() * 0.02, 0.02));
            if step > 60 {
                sum += (sent(&out, 0.08) - truth).norm_squared();
                counted += 1;
            }
        }
        (sum / counted as f64).sqrt()
    };
    let (cautious, bold) = (wobble(1.0), wobble(0.0));
    assert!(
        bold > 2.0 * cautious,
        "the caution is not buying any stillness: {:.1} mm against {:.1} mm",
        cautious * 1000.0,
        bold * 1000.0
    );
}

/// Nothing moving is not the same as a timid prediction.
#[test]
fn a_body_that_is_not_moving_reports_no_reach_rather_than_none_reached() {
    let mut filter = Smoother::new(FilterOptions::default());
    let truth = Place::new(0.0, 0.5, 0.0);
    let mut last = None;
    for step in 0..90 {
        last = Some(filter.push(&posed(at(step), truth, 0.005)));
    }
    assert_eq!(
        last.expect("a pose").reach,
        None,
        "a joint that never moved reported a share of a speed it did not have"
    );
}

#[test]
fn only_the_lower_body_counts_toward_the_reach() {
    let mut fitted = posed(start(), Place::new(0.0, 0.0, 0.0), 0.01);
    let ankle = fitted.get(Joint::LeftAnkle).unwrap();
    fitted.set(Joint::LeftWrist, FittedJoint { inferred: true, ..ankle });
    let step = |speed: f64| Stepped {
        point: point(1.0, 2.0, 3.0),
        velocity: point(0.0, 0.0, speed),
        predicted: point(1.0, 2.0, 4.0),
        lead: scalar(0.2),
        reach: Reach { measured: scalar(speed), acted_on: scalar(speed / 2.0) },
    };
    let mut steps = JointMap::empty();
    steps.set(Joint::LeftAnkle, step(1.0));
    steps.set(Joint::LeftWrist, step(9.0));
    let mut filter = PoseFilter::new(FilterOptions::default());
    let asked = filter.push(&fitted);
    let reaches = PoseFilter::reaches(&fitted, &asked, &steps);
    assert_eq!(reaches, vec![step(1.0).reach]);

    let out = filter.filtered(&fitted, &asked, &steps, scalar(0.06), scalar(1.0), scalar(0.5));
    assert_eq!(out.count(), 2);
    assert_eq!((out.at, out.horizon), (start(), Duration::from_millis(60)));
    assert_eq!(out.reach, Some(scalar(0.5)));
    let wrist = out.get(Joint::LeftWrist).unwrap();
    assert!(wrist.inferred);
    assert_eq!((wrist.predicted, wrist.lead), (point(1.0, 2.0, 4.0), scalar(0.2)));
}

#[test]
fn a_clock_that_stands_still_or_runs_back_is_a_nominal_step() {
    let mut filter = PoseFilter::new(FilterOptions::default());
    assert_eq!(ankle(&filter.push(&pose(at(10), point(0.0, 0.0, 0.0)))), Motion::Begin);
    assert_eq!(ankle(&filter.push(&pose(at(10), point(0.0, 0.0, 0.0)))), Motion::Nudge);
    assert_eq!(ankle(&filter.push(&pose(at(5), point(0.0, 0.0, 0.0)))), Motion::Nudge);
    // From there on it counts from the instant that was shown last.
    assert_eq!(
        ankle(&filter.push(&pose(at(6), point(0.0, 0.0, 0.0)))),
        Motion::Advance(Duration::from_millis(STEP))
    );

    filter.reset();
    assert_eq!(ankle(&filter.push(&pose(at(7), point(0.0, 0.0, 0.0)))), Motion::Begin);
}

#[test]
fn what_was_filtered_can_be_read_back() {
    let mut filtered = Filtered::empty(start(), Duration::from_millis(60));
    assert!(filtered.is_empty());
    filtered.set(
        Joint::Hip,
        FilteredJoint {
            point: point(1.0, 2.0, 3.0),
            velocity: point(0.0, 0.0, 0.0),
            predicted: point(4.0, 5.0, 6.0),
            lead: scalar(0.1),
            sigma: scalar(0.01),
            inferred: false,
        },
    );
    assert_eq!(filtered.count(), 1);
    assert_eq!(filtered.position(Joint::Hip), Some(point(1.0, 2.0, 3.0)));
    assert_eq!(filtered.predicted(Joint::Hip), Some(point(4.0, 5.0, 6.0)));
    assert_eq!(filtered.get(Joint::Neck), None);
    assert_eq!(filtered.limit, scalar(0.35));
}
