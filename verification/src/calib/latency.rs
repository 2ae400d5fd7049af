//! How far behind each camera is.
//!
//! A USB webcam hands over a frame tens of milliseconds after the light landed
//! on its sensor, and the delay differs per device. Nothing reports this number,
//! so it has to be measured: for a range of candidate delays the recorded device
//! track is sampled that far *back* from each frame's timestamp and reprojected,
//! and the delay that explains the pixels best wins.
//!
//! It only works while the user is moving. A delay is invisible against a
//! stationary head, so the estimate carries how sharply the error rose either
//! side of the answer, and a flat curve means the walk could not tell.

use vstd::arithmetic::div_mod::{lemma_fundamental_div_mod, lemma_mod_bound};
use vstd::prelude::*;

use crate::scalar::Scalar;
use crate::time::Duration;

verus! {

/// 1.0
const ONE: u64 = 0x3ff0_0000_0000_0000;

/// Longest delay a webcam could plausibly have, in nanoseconds. Tens of
/// milliseconds is a USB camera; approaching a fifth of a second is a camera
/// buffering frames, a starved capture thread, or a search that wandered.
pub const PLAUSIBLE: u64 = 120_000_000;

/// Shortest reach the confidence probe will use, either side of the answer, in
/// nanoseconds.
///
/// Below this the scaling back to a full probe amplifies whatever noise the
/// two samples carried more than it recovers signal.
pub const MIN_REACH: u64 = 8_000_000;

/// How the search is run.
#[derive(Debug, Clone, Copy, PartialEq, Eq, Structural)]
pub struct LatencyOptions {
    /// Longest delay to consider. Past this a camera is broken rather than
    /// slow, and a search that wide starts finding spurious minima where the
    /// walk happened to repeat itself.
    pub max: Duration,
    /// Resolution of the search.
    pub step: Duration,
    /// How far either side of the answer the error is checked, to judge whether
    /// the walk pinned it down at all.
    pub probe: Duration,
    /// Samples a camera needs before its delay is worth estimating.
    pub min_samples: usize,
}

impl Default for LatencyOptions {
    fn default() -> (options: Self)
        ensures
            options.max.nanos == 250_000_000,
            options.step.nanos == 2_000_000,
            options.probe.nanos == 30_000_000,
            options.min_samples == 60,
    {
        LatencyOptions {
            max: Duration::from_millis(250),
            step: Duration::from_millis(2),
            probe: Duration::from_millis(30),
            min_samples: 60,
        }
    }
}

/// What one camera's delay came out as.
#[derive(Debug, Clone, Copy, PartialEq, Eq, Structural)]
pub struct Estimate {
    pub latency: Duration,
    /// RMS angular reprojection error at that delay, in radians.
    pub rms: Scalar,
    /// The same with no delay applied. The difference is what the estimate
    /// bought.
    pub rms_uncorrected: Scalar,
    /// How much worse the fit gets when the delay is moved by the probe either
    /// way, in pixels of this camera.
    pub sharpness: Scalar,
}

impl Estimate {
    /// Whether the walk actually constrained the delay.
    pub open spec fn confident(self) -> bool {
        Scalar { bits: 0x3ff0_0000_0000_0000 }.less(self.sharpness)
    }

    /// Whether the walk actually constrained the delay.
    ///
    /// A user who ambles produces a curve so flat that the minimum is noise.
    /// Applying that to tracking would be worse than applying nothing. One
    /// pixel is about where the rise stops being distinguishable from the
    /// keypoint noise it is competing with.
    pub fn is_confident(&self) -> (confident: bool)
        ensures
            confident == self.confident(),
    {
        Scalar::from_bits(ONE).lt(self.sharpness)
    }

    /// Whether this delay is one a webcam could plausibly have.
    pub fn is_plausible(&self) -> (plausible: bool)
        ensures
            plausible == (self.latency.nanos < PLAUSIBLE),
    {
        self.latency.nanos < PLAUSIBLE
    }
}

/// How many steps of the search there are up to its longest delay.
pub open spec fn step_count(options: LatencyOptions) -> int {
    options.max.nanos as int / options.step.nanos as int
}

/// The delays to try, from none to the longest, if the camera has samples enough
/// to judge them by. None is longer than the longest to consider.
pub fn candidates(samples: usize, options: &LatencyOptions) -> (lags: Option<Vec<Duration>>)
    requires
        options.step.nanos > 0 ==> step_count(*options) < usize::MAX,
    ensures
        match lags {
            Some(lags) => {
                &&& samples >= options.min_samples
                &&& options.step.nanos > 0
                &&& lags@.len() == step_count(*options) + 1
                &&& forall|i: int|
                    0 <= i < lags@.len() ==> (#[trigger] lags@[i]).nanos == i * options.step.nanos
                        && lags@[i].nanos <= options.max.nanos
            },
            None => samples < options.min_samples || options.step.nanos == 0,
        },
{
    if samples < options.min_samples || options.step.is_zero() {
        return None;
    }
    let step: u64 = options.step.nanos;
    let steps: u64 = options.max.nanos / step;
    proof {
        lemma_fundamental_div_mod(options.max.nanos as int, step as int);
        lemma_mod_bound(options.max.nanos as int, step as int);
        assert(steps * step <= options.max.nanos) by (nonlinear_arith)
            requires
                options.max.nanos >= step * steps,
        ;
    }
    let mut lags: Vec<Duration> = Vec::new();
    let mut lag: u64 = 0;
    let mut i: u64 = 0;
    while i < steps
        invariant
            i <= steps,
            step == options.step.nanos,
            steps * step <= options.max.nanos,
            lag == i * step,
            lag <= options.max.nanos,
            lags@.len() == i,
            forall|k: int|
                0 <= k < i ==> (#[trigger] lags@[k]).nanos == k * options.step.nanos
                    && lags@[k].nanos <= options.max.nanos,
        decreases steps - i,
    {
        lags.push(Duration::from_nanos(lag));
        proof {
            assert((i + 1) * step <= steps * step && (i + 1) * step == i * step + step)
                by (nonlinear_arith)
                requires
                    i < steps,
            ;
        }
        lag = lag + step;
        i = i + 1;
    }
    lags.push(Duration::from_nanos(lag));
    Some(lags)
}

/// Whether an entry is the first of the smallest.
pub open spec fn first_least(errors: Seq<Scalar>, best: int) -> bool {
    &&& 0 <= best < errors.len()
    &&& forall|i: int|
        0 <= i < best ==> errors[best].place() < (#[trigger] errors[i]).place()
    &&& forall|i: int|
        best < i < errors.len() ==> errors[best].place() <= (#[trigger] errors[i]).place()
}

/// The delay that explains the pixels best: the first of the smallest errors.
pub fn best_of(errors: &Vec<Scalar>) -> (best: usize)
    requires
        errors@.len() > 0,
    ensures
        first_least(errors@, best as int),
{
    let mut best: usize = 0;
    let mut i: usize = 1;
    while i < errors.len()
        invariant
            1 <= i <= errors.len(),
            first_least(errors@.take(i as int), best as int),
        decreases errors.len() - i,
    {
        let ghost seen = errors@.take(i as int);
        let ghost more = errors@.take(i + 1);
        proof {
            assert forall|k: int| 0 <= k < i implies more[k] == seen[k] by {}
        }
        if errors[i].precedes(errors[best]) {
            proof {
                assert forall|k: int| 0 <= k < i implies more[i as int].place() < (
                #[trigger] more[k]).place() by {
                    assert(more[k] == seen[k]);
                }
            }
            best = i;
        } else {
            proof {
                assert forall|k: int| 0 <= k < best implies more[best as int].place() < (
                #[trigger] more[k]).place() by {
                    assert(more[k] == seen[k]);
                }
                assert forall|k: int| best < k < i + 1 implies more[best as int].place() <= (
                #[trigger] more[k]).place() by {
                    if k < i {
                        assert(more[k] == seen[k]);
                    }
                }
            }
        }
        i = i + 1;
    }
    proof {
        assert(errors@.take(i as int) =~= errors@);
    }
    best
}

/// The errors either side of the best one, where it has both.
///
/// The true delay does not land on the search grid. A parabola through the
/// winner and its neighbours puts the minimum between them.
pub fn neighbours(errors: &Vec<Scalar>, best: usize) -> (sides: Option<(Scalar, Scalar)>)
    requires
        best < errors@.len(),
    ensures
        sides == if 0 < best && best + 1 < errors@.len() {
            Some((errors@[best - 1], errors@[best + 1]))
        } else {
            None
        },
{
    if best > 0 && best < errors.len() - 1 {
        Some((errors[best - 1], errors[best + 1]))
    } else {
        None
    }
}

/// Where the confidence probe looks.
#[derive(Debug, Clone, Copy, PartialEq, Eq, Structural)]
pub enum Probe {
    /// This far either side of the answer.
    Either { before: Duration, after: Duration, reach: Duration },
    /// Only past the answer, which is pinned against zero: the delay cannot be
    /// negative, so the rise above it is the whole story.
    Past { after: Duration },
}

/// How far the probe can reach either side of an answer. A frame cannot arrive
/// before the light landed on the sensor, so there is nothing below zero.
pub open spec fn reach_of(latency: Duration, options: LatencyOptions) -> int {
    if options.probe.nanos <= latency.nanos {
        options.probe.nanos as int
    } else {
        latency.nanos as int
    }
}

/// Where to look to judge whether the answer is a minimum or a dip in noise.
///
/// The probe wants room on both sides. A camera quicker than the probe distance
/// does not have it, so the reach shrinks to what fits, and the rise is scaled
/// back up to what the full probe would have shown.
pub fn probe(latency: Duration, options: &LatencyOptions) -> (probe: Probe)
    requires
        latency.nanos + options.probe.nanos <= u64::MAX,
    ensures
        ({
            let reach = reach_of(latency, *options);
            probe == if reach >= MIN_REACH {
                Probe::Either {
                    before: Duration { nanos: (latency.nanos - reach) as u64 },
                    after: Duration { nanos: (latency.nanos + reach) as u64 },
                    reach: Duration { nanos: reach as u64 },
                }
            } else {
                Probe::Past {
                    after: Duration { nanos: (latency.nanos + options.probe.nanos) as u64 },
                }
            }
        }),
{
    let reach: Duration = options.probe.shorter(latency);
    if reach.nanos >= MIN_REACH {
        Probe::Either {
            before: latency.saturating_sub(reach),
            after: latency.saturating_add(reach),
            reach,
        }
    } else {
        Probe::Past { after: latency.saturating_add(options.probe) }
    }
}

/// A probe reaches as far back as forward, no further than asked, and never to
/// before the frame was exposed.
pub proof fn the_probe_stays_in_range(latency: Duration, options: LatencyOptions)
    ensures
        0 <= reach_of(latency, options) <= latency.nanos,
        reach_of(latency, options) <= options.probe.nanos,
        latency.nanos >= options.probe.nanos ==> reach_of(latency, options) == options.probe.nanos,
{
}

/// Whether enough of a walk could be judged at a delay. A delay that puts most
/// of it outside the recorded track would be compared against a different,
/// easier set of samples than its neighbours.
pub fn enough(judged: usize, samples: usize) -> (enough: bool)
    ensures
        enough == (judged * 2 >= samples),
{
    judged as u128 * 2 >= samples as u128
}

/// The delay that is taken explains the pixels no worse than any other, and better
/// than any shorter one.
pub proof fn no_delay_explains_the_pixels_better(errors: Seq<Scalar>, best: int, i: int)
    requires
        first_least(errors, best),
        0 <= i < errors.len(),
    ensures
        0 <= best < errors.len(),
        errors[best].place() <= errors[i].place(),
        i < best ==> errors[best].place() < errors[i].place(),
{
}

/// The delays that are tried go up to the longest there is a step for, and no
/// further.
pub proof fn the_search_reaches_its_longest_delay(options: LatencyOptions)
    requires
        options.step.nanos > 0,
    ensures
        step_count(options) * options.step.nanos <= options.max.nanos < (step_count(options) + 1)
            * options.step.nanos,
{
    let (max, step) = (options.max.nanos as int, options.step.nanos as int);
    lemma_fundamental_div_mod(max, step);
    lemma_mod_bound(max, step);
    let count = step_count(options);
    assert(count * step == step * count && (count + 1) * step == step * count + step)
        by (nonlinear_arith);
}

/// A delay is sure exactly if the fit gets worse by more than a pixel either side of
/// it.
pub proof fn a_delay_is_sure_if_it_is_sharp(estimate: Estimate)
    ensures
        estimate.confident() <==> Scalar::of(0x3ff0_0000_0000_0000).less(estimate.sharpness),
{
}

/// The probe reaches as far as it is asked to or as far back as there is room,
/// whichever is less.
pub proof fn the_probe_reaches_as_far_as_there_is_room(latency: Duration, options: LatencyOptions)
    ensures
        latency.nanos < options.probe.nanos ==> reach_of(latency, options) == latency.nanos,
        latency.nanos >= options.probe.nanos ==> reach_of(latency, options) == options.probe.nanos,
{
}

/// A probe with less than eight milliseconds to either side looks past the answer alone;
/// and a delay of a hundred and twenty is not believed.
pub proof fn what_a_probe_needs()
    ensures
        MIN_REACH == 8_000_000,
        PLAUSIBLE == 120_000_000,
{
}

} // verus!
