//! Turning a recorded walk into solved cameras.
//!
//! Each camera is first resected on its own from the device positions, which
//! ignores the offset between a device and its keypoint and so lands a few
//! centimetres out. Then every camera is refined together with those offsets
//! free, which is what removes the bias. Which cameras take part, which pixel is
//! paired with which instant, and which delays are believed is decided here.

use vstd::prelude::*;

use crate::calib::latency::{Estimate, LatencyOptions, PLAUSIBLE};
use crate::calib::recorder::{covers, CameraTrail, Recording, Rig, Sample, Track};
use crate::config::camera::{CameraConfig, LensKind};
use crate::fusion::stage::Size;
use crate::geometry::refine::RefineOptions;
use crate::geometry::resection::ResectionOptions;
use crate::geometry::Point2;
use crate::list::{first_where, increasing, lemma_filter_step, lemma_first_where, lemma_first_where_is, lemma_grown};
use crate::order::{pick_ranked, places, ranked};
use crate::scalar::Scalar;
use crate::text::{decimal, decimal_text};
use crate::time::{Duration, Instant};
use crate::vr::Role;

verus! {

/// How many times the latency is measured and the room solved again against it.
///
/// Three is one more than it takes to stop moving on any delay a webcam can
/// have, which makes it a bound rather than a schedule: the rounds end as soon
/// as one changes nothing.
pub const LATENCY_ROUNDS: usize = 3;

/// How wide the resection looks when the delay it was handed does not solve, in
/// milliseconds.
///
/// Past what is plausible for a webcam, so that a camera slower than that
/// produces a solved room with a number the user can act on.
pub const SEED_LAG_MAX: u64 = 160;

/// Resolution of that search, in milliseconds. The resection tolerates being
/// about twenty milliseconds out and nothing like forty.
pub const SEED_LAG_STEP: u64 = 20;

/// How many delays that search tries.
pub const SEED_LAGS: usize = 9;

/// Sightings a rig needs before its offset is an answer rather than the value
/// it was seeded with.
pub const MIN_RIG_SIGHTINGS: usize = 30;

/// One in this many sightings is sampled to judge a placement. The answer varies
/// smoothly with position and thousands of them would say the same thing.
pub const STRIDE: usize = 37;

/// 0.08
const LOOSE: u64 = 0x3fb4_7ae1_47ae_147b;

/// How a walk is solved.
#[derive(Debug, Clone, Copy, PartialEq, Eq, Structural)]
pub struct SolveOptions {
    pub resection: ResectionOptions,
    pub refine: RefineOptions,
    /// Sightings a camera needs before it is worth solving at all.
    pub min_samples: usize,
    pub latency: LatencyOptions,
    /// Measure each camera's latency and fit again against the corrected
    /// timestamps.
    pub estimate_latency: bool,
}

impl Default for SolveOptions {
    fn default() -> (options: Self)
        ensures
            options.resection.inlier_threshold.bits == 0x3fb4_7ae1_47ae_147b,
            options.resection.hypotheses == 512,
            options.resection.min_inliers == 12,
            options.resection.central_fraction.bits == 0x3fe3_3333_3333_3333,
            options.resection.max_aspect_error.bits == 0x3fd0_0000_0000_0000,
            options.resection.max_principal_offset.bits == 0x3fd3_3333_3333_3333,
            options.resection.seed == 0x00ff_1ce5,
            options.refine.iterations == 60,
            options.refine.free_intrinsics,
            options.refine.free_distortion,
            options.refine.free_extrinsics,
            options.refine.free_offsets,
            options.refine.huber.bits == 0x3f94_7ae1_47ae_147b,
            options.refine.reject.bits == 0x4014_0000_0000_0000,
            options.refine.tolerance.bits == 0x3eb0_c6f7_a0b5_ed8d,
            options.refine.max_offset.bits == 0x3fd0_0000_0000_0000,
            options.min_samples == 40,
            options.latency.max.nanos == 250_000_000,
            options.latency.step.nanos == 2_000_000,
            options.latency.probe.nanos == 30_000_000,
            options.latency.min_samples == 60,
            options.estimate_latency,
    {
        let mut resection = ResectionOptions::default();
        // Loose on purpose. At resection time the offset between each device and
        // its keypoint is still unknown, so every correspondence is wrong by the
        // same handful of centimetres.
        resection.inlier_threshold = Scalar::from_bits(LOOSE);
        SolveOptions {
            resection,
            refine: RefineOptions::default(),
            min_samples: 40,
            latency: LatencyOptions::default(),
            estimate_latency: true,
        }
    }
}

/// What a camera came out as.
#[derive(Debug, Clone)]
pub struct CameraCalibration {
    pub id: String,
    /// Frame size its optics are expressed at.
    pub size: Size,
    /// RMS angular reprojection error after refinement, in radians.
    pub rms: Scalar,
    /// Sightings that survived to the final fit.
    pub sightings: usize,
    /// Fraction of the frame the walk covered.
    pub coverage: Scalar,
    /// How far the correspondences were from lying in a plane when this camera
    /// was resected. Near zero and the answer rests on nothing.
    pub spread: Scalar,
    /// How far behind this camera is, when the walk was brisk enough to tell.
    pub latency: Option<Estimate>,
    /// Typical distance from this camera to the person during the walk, in
    /// metres.
    pub range: Scalar,
    /// The reprojection error times that distance, in metres.
    pub rms_at_range: Scalar,
    /// Fraction of the frames this camera saw a person in that also had a foot
    /// in them.
    ///
    /// Nothing to do with the calibration, which never looks at a foot, and
    /// everything to do with whether this camera can contribute to tracking
    /// one.
    pub feet: Scalar,
}

impl CameraCalibration {
    /// What the reprojection error is worth in metres, where the distance is
    /// known.
    pub open spec fn metres(self) -> Option<Scalar> {
        if Scalar::of(0).less(self.range) {
            Some(self.rms_at_range)
        } else {
            None
        }
    }

    /// What the reprojection error is worth in metres, at the distance the person
    /// actually walked.
    ///
    /// The angle is the right quantity to *solve* on, because it compares across
    /// cameras of different resolutions and fields of view. It is the wrong
    /// quantity to *judge* on, because the same angle is a different error at a
    /// different distance.
    pub fn error_metres(&self) -> (error: Option<Scalar>)
        ensures
            error == self.metres(),
    {
        if Scalar::from_bits(0).lt(self.range) {
            Some(self.rms_at_range)
        } else {
            None
        }
    }
}

/// The first camera of a room with an id, or the length of the list.
pub open spec fn calibrated_at(room: Seq<CameraCalibration>, id: Seq<char>) -> int {
    first_where(room, has_id(id))
}

/// Whether a camera has an id.
pub open spec fn has_id(id: Seq<char>) -> spec_fn(CameraCalibration) -> bool {
    |camera: CameraCalibration| camera.id@ == id
}

/// Where the first camera of a room with an id stands, if there is one.
pub fn find_camera(room: &Vec<CameraCalibration>, id: &String) -> (at: Option<usize>)
    ensures
        match at {
            Some(at) => at < room@.len() && at == calibrated_at(room@, id@),
            None => calibrated_at(room@, id@) == room@.len(),
        },
{
    let ghost named = has_id(id@);
    let mut i: usize = 0;
    while i < room.len()
        invariant
            i <= room.len(),
            named == has_id(id@),
            forall|k: int| 0 <= k < i ==> !named(#[trigger] room@[k]),
        decreases room.len() - i,
    {
        if room[i].id == *id {
            proof {
                lemma_first_where_is(room@, named, i as int);
            }
            return Some(i);
        }
        i = i + 1;
    }
    proof {
        lemma_first_where_is(room@, named, i as int);
    }
    None
}

/// A solved room.
#[derive(Debug, Clone)]
pub struct RoomCalibration {
    pub cameras: Vec<CameraCalibration>,
    /// RMS angular reprojection error over every camera, in radians.
    pub rms: Scalar,
    /// Sightings discarded as outliers before the final fit.
    pub rejected: usize,
    /// Sightings the final fit used.
    pub used: usize,
    /// How well these camera positions can locate a joint at all, in metres.
    ///
    /// A property of where the cameras are rather than of how well they were
    /// solved, and the number that answers "is this a good placement".
    pub precision: Option<Scalar>,
}

impl RoomCalibration {
    /// What a camera came out as.
    pub fn camera(&self, id: &String) -> (camera: Option<&CameraCalibration>)
        ensures
            match camera {
                Some(camera) => calibrated_at(self.cameras@, id@) < self.cameras@.len()
                    && *camera == self.cameras@[calibrated_at(self.cameras@, id@)],
                None => calibrated_at(self.cameras@, id@) == self.cameras@.len(),
            },
    {
        match find_camera(&self.cameras, id) {
            Some(at) => Some(&self.cameras[at]),
            None => None,
        }
    }
}

/// How many sightings the final fit used, of all that were paired.
pub fn used(pairs: usize, rejected: usize) -> (used: usize)
    requires
        rejected <= pairs,
    ensures
        used == pairs - rejected,
{
    pairs - rejected
}

/// Why a walk cannot be solved.
#[derive(Debug, Clone)]
pub enum SolveError {
    /// The recording has no devices in it.
    NoDevices,
    /// The recording names a camera that is not configured.
    NotConfigured { camera: String },
    /// Too few cameras saw enough of the walk.
    TooFew { cameras: usize },
    /// A camera left the recording between one pass and the next.
    Left { camera: String },
    /// A camera could not be solved at any delay.
    Unsolved { camera: String, sightings: usize },
}

impl SolveError {
    /// The reason as one line.
    pub open spec fn line(self) -> Seq<char> {
        match self {
            SolveError::NoDevices => "the recording has no tracked devices in it"@,
            SolveError::NotConfigured { camera } =>
                "the recording names a camera that is not configured: "@ + camera@,
            SolveError::TooFew { cameras } => "only "@ + decimal(cameras as nat)
                + " camera(s) saw enough of the walk; tracking needs at least two"@,
            SolveError::Left { camera } => "camera "@ + camera@
                + " left the recording between one pass and the next"@,
            SolveError::Unsolved { camera, sightings } => "camera "@ + camera@
                + " could not be solved from "@ + decimal(sightings as nat)
                + " sightings at any delay up to "@ + decimal(SEED_LAG_MAX as nat)
                + " ms; either it moved during the walk or it is seeing something other than the headset"@,
        }
    }

    /// The reason as one line.
    pub fn text(&self) -> (text: String)
        ensures
            text@ == self.line(),
    {
        match self {
            SolveError::NoDevices => "the recording has no tracked devices in it".to_owned(),
            SolveError::NotConfigured { camera } => {
                let mut text = "the recording names a camera that is not configured: ".to_owned();
                text.append(camera.as_str());
                text
            },
            SolveError::TooFew { cameras } => {
                let mut text = "only ".to_owned();
                text.append(decimal_text(*cameras as u64).as_str());
                text.append(" camera(s) saw enough of the walk; tracking needs at least two");
                text
            },
            SolveError::Left { camera } => {
                let mut text = "camera ".to_owned();
                text.append(camera.as_str());
                text.append(" left the recording between one pass and the next");
                text
            },
            SolveError::Unsolved { camera, sightings } => {
                let mut text = "camera ".to_owned();
                text.append(camera.as_str());
                text.append(" could not be solved from ");
                text.append(decimal_text(*sightings as u64).as_str());
                text.append(" sightings at any delay up to ");
                text.append(decimal_text(SEED_LAG_MAX).as_str());
                text.append(
                    " ms; either it moved during the walk or it is seeing something other than the headset",
                );
                text
            },
        }
    }
}

/// Whether a camera is configured.
pub open spec fn configured(cameras: Seq<CameraConfig>, id: Seq<char>) -> bool {
    exists|i: int| 0 <= i < cameras.len() && (#[trigger] cameras[i]).id@ == id
}

/// Whether a camera saw enough of the walk.
pub open spec fn saw_enough(trail: CameraTrail, min_samples: usize) -> bool {
    trail.samples@.len() >= min_samples
}

/// Whether a camera saw enough of the walk and is not configured.
pub open spec fn stray(
    trail: CameraTrail,
    cameras: Seq<CameraConfig>,
    min_samples: usize,
) -> bool {
    saw_enough(trail, min_samples) && !configured(cameras, trail.camera@)
}

/// The cameras among the first `n` that saw enough of the walk.
pub open spec fn chosen_among(trails: Seq<CameraTrail>, min_samples: usize, n: nat) -> Seq<int>
    decreases n,
{
    if n == 0 {
        Seq::empty()
    } else {
        let before = chosen_among(trails, min_samples, (n - 1) as nat);
        if saw_enough(trails[n - 1], min_samples) {
            before.push(n - 1)
        } else {
            before
        }
    }
}

fn is_configured(cameras: &Vec<CameraConfig>, id: &String) -> (found: bool)
    ensures
        found == configured(cameras@, id@),
{
    let mut i: usize = 0;
    while i < cameras.len()
        invariant
            i <= cameras.len(),
            forall|k: int| 0 <= k < i ==> (#[trigger] cameras@[k]).id@ != id@,
        decreases cameras.len() - i,
    {
        if cameras[i].id == *id {
            return true;
        }
        i = i + 1;
    }
    false
}

/// Decides which cameras of a recording are solved: those that saw enough of the
/// walk, which have to be configured and have to be two at least.
pub fn choose_cameras(
    recording: &Recording,
    cameras: &Vec<CameraConfig>,
    min_samples: usize,
) -> (chosen: Result<Vec<usize>, SolveError>)
    ensures
        ({
            let trails = recording.cameras@;
            let all = chosen_among(trails, min_samples, trails.len());
            let strays = exists|i: int|
                0 <= i < trails.len() && stray(#[trigger] trails[i], cameras@, min_samples);
            match chosen {
                Ok(chosen) => {
                    &&& recording.rigs@.len() > 0
                    &&& !strays
                    &&& all.len() >= 2
                    &&& places(chosen@) == all
                },
                Err(SolveError::NoDevices) => recording.rigs@.len() == 0,
                Err(SolveError::NotConfigured { camera }) => {
                    &&& recording.rigs@.len() > 0
                    &&& exists|i: int|
                        #![trigger trails[i]]
                        0 <= i < trails.len() && stray(trails[i], cameras@, min_samples)
                            && camera@ == trails[i].camera@ && forall|k: int|
                            0 <= k < i ==> !stray(#[trigger] trails[k], cameras@, min_samples)
                },
                Err(SolveError::TooFew { cameras: few }) => {
                    &&& recording.rigs@.len() > 0
                    &&& !strays
                    &&& all.len() < 2
                    &&& few == all.len()
                },
                _ => false,
            }
        }),
{
    if recording.rigs.len() == 0 {
        return Err(SolveError::NoDevices);
    }
    let mut chosen: Vec<usize> = Vec::new();
    let mut i: usize = 0;
    proof {
        assert(places(chosen@) =~= Seq::empty());
    }
    while i < recording.cameras.len()
        invariant
            i <= recording.cameras.len(),
            recording.rigs@.len() > 0,
            places(chosen@) == chosen_among(recording.cameras@, min_samples, i as nat),
            forall|k: int|
                0 <= k < i ==> !stray(#[trigger] recording.cameras@[k], cameras@, min_samples),
        decreases recording.cameras.len() - i,
    {
        let trail: &CameraTrail = &recording.cameras[i];
        if trail.samples.len() >= min_samples {
            if !is_configured(cameras, &trail.camera) {
                assert(stray(recording.cameras@[i as int], cameras@, min_samples));
                return Err(SolveError::NotConfigured { camera: trail.camera.clone() });
            }
            let ghost before = chosen@;
            chosen.push(i);
            assert(places(chosen@) =~= places(before).push(i as int));
        }
        i = i + 1;
    }
    assert(places(chosen@).len() == chosen@.len());
    if chosen.len() < 2 {
        return Err(SolveError::TooFew { cameras: chosen.len() });
    }
    Ok(chosen)
}

/// A pixel and the instant its frame was actually exposed.
#[derive(Debug, Clone, Copy, PartialEq, Eq, Structural)]
pub struct Paired {
    pub camera: usize,
    pub rig: usize,
    /// When the shutter opened.
    pub when: Instant,
    pub pixel: Point2,
    pub confidence: Scalar,
}

/// What a sample is paired with, `lag` before the timestamp it carries, if the
/// device's track has poses either side of that instant.
pub open spec fn exposed(
    sample: Sample,
    camera: usize,
    tracks: Seq<Track>,
    lag: Duration,
) -> Option<Paired> {
    let when = Instant { nanos: (sample.at.nanos - lag.nanos) as u64 };
    if sample.at.nanos >= lag.nanos && covers(tracks[sample.rig as int]@, when) {
        Some(
            Paired {
                camera,
                rig: sample.rig,
                when,
                pixel: sample.pixel,
                confidence: sample.confidence,
            },
        )
    } else {
        None
    }
}

/// What the first `n` samples of a camera are paired with.
pub open spec fn all_exposed(
    samples: Seq<Sample>,
    camera: usize,
    tracks: Seq<Track>,
    lag: Duration,
    n: nat,
) -> Seq<Paired>
    decreases n,
{
    if n == 0 {
        Seq::empty()
    } else {
        let before = all_exposed(samples, camera, tracks, lag, (n - 1) as nat);
        match exposed(samples[n - 1], camera, tracks, lag) {
            Some(paired) => before.push(paired),
            None => before,
        }
    }
}

/// Whether every sample is of a rig that has a track.
pub open spec fn on_track(trail: CameraTrail, tracks: Seq<Track>) -> bool {
    forall|i: int|
        0 <= i < trail.samples@.len() ==> (#[trigger] trail.samples@[i]).rig < tracks.len()
}

/// Pairs each pixel of one camera with the instant its frame was exposed.
pub fn correspond(
    trail: &CameraTrail,
    camera: usize,
    tracks: &Vec<Track>,
    lag: Duration,
) -> (pairs: Vec<Paired>)
    requires
        on_track(*trail, tracks@),
    ensures
        pairs@ == all_exposed(trail.samples@, camera, tracks@, lag, trail.samples@.len()),
{
    let mut pairs: Vec<Paired> = Vec::new();
    let mut i: usize = 0;
    while i < trail.samples.len()
        invariant
            i <= trail.samples.len(),
            on_track(*trail, tracks@),
            pairs@ == all_exposed(trail.samples@, camera, tracks@, lag, i as nat),
        decreases trail.samples.len() - i,
    {
        let sample: Sample = trail.samples[i];
        assert(trail.samples@[i as int].rig < tracks@.len());
        if sample.at.nanos >= lag.nanos {
            let when: Instant = sample.at.before(lag);
            if tracks[sample.rig].has(when) {
                pairs.push(
                    Paired {
                        camera,
                        rig: sample.rig,
                        when,
                        pixel: sample.pixel,
                        confidence: sample.confidence,
                    },
                );
            }
        }
        i = i + 1;
    }
    pairs
}

/// The last of the chosen cameras among the first `n` that has an id, or -1.
pub open spec fn slot_among(
    trails: Seq<CameraTrail>,
    chosen: Seq<usize>,
    id: Seq<char>,
    n: nat,
) -> int
    decreases n,
{
    if n == 0 {
        -1
    } else if trails[chosen[n - 1] as int].camera@ == id {
        n - 1
    } else {
        slot_among(trails, chosen, id, (n - 1) as nat)
    }
}

/// What the first `n` trails contribute to the refinement.
pub open spec fn all_paired(
    trails: Seq<CameraTrail>,
    tracks: Seq<Track>,
    chosen: Seq<usize>,
    lags: Seq<Duration>,
    n: nat,
) -> Seq<Paired>
    decreases n,
{
    if n == 0 {
        Seq::empty()
    } else {
        let before = all_paired(trails, tracks, chosen, lags, (n - 1) as nat);
        let trail = trails[n - 1];
        let slot = slot_among(trails, chosen, trail.camera@, chosen.len());
        if slot >= 0 {
            before + all_exposed(
                trail.samples@,
                slot as usize,
                tracks,
                lags[slot],
                trail.samples@.len(),
            )
        } else {
            before
        }
    }
}

fn find_slot(recording: &Recording, chosen: &Vec<usize>, id: &String) -> (slot: Option<usize>)
    requires
        forall|i: int|
            0 <= i < chosen@.len() ==> #[trigger] chosen@[i] < recording.cameras@.len(),
    ensures
        match slot {
            Some(slot) => slot < chosen@.len() && slot == slot_among(
                recording.cameras@,
                chosen@,
                id@,
                chosen@.len(),
            ),
            None => slot_among(recording.cameras@, chosen@, id@, chosen@.len()) < 0,
        },
{
    let mut i: usize = chosen.len();
    while i > 0
        invariant
            i <= chosen.len(),
            forall|k: int|
                0 <= k < chosen@.len() ==> #[trigger] chosen@[k] < recording.cameras@.len(),
            slot_among(recording.cameras@, chosen@, id@, chosen@.len()) == slot_among(
                recording.cameras@,
                chosen@,
                id@,
                i as nat,
            ),
        decreases i,
    {
        i = i - 1;
        assert(chosen@[i as int] < recording.cameras@.len());
        if recording.cameras[chosen[i]].camera == *id {
            return Some(i);
        }
    }
    None
}

/// Pairs each recorded pixel of the chosen cameras with the instant its frame
/// was exposed, given how late each of them is.
pub fn pair(recording: &Recording, chosen: &Vec<usize>, lags: &Vec<Duration>) -> (pairs: Vec<
    Paired,
>)
    requires
        lags@.len() == chosen@.len(),
        forall|i: int|
            0 <= i < chosen@.len() ==> #[trigger] chosen@[i] < recording.cameras@.len(),
        forall|i: int|
            0 <= i < recording.cameras@.len() ==> on_track(
                #[trigger] recording.cameras@[i],
                recording.tracks@,
            ),
    ensures
        pairs@ == all_paired(
            recording.cameras@,
            recording.tracks@,
            chosen@,
            lags@,
            recording.cameras@.len(),
        ),
{
    let mut pairs: Vec<Paired> = Vec::new();
    let mut i: usize = 0;
    while i < recording.cameras.len()
        invariant
            i <= recording.cameras.len(),
            lags@.len() == chosen@.len(),
            forall|k: int|
                0 <= k < chosen@.len() ==> #[trigger] chosen@[k] < recording.cameras@.len(),
            forall|k: int|
                0 <= k < recording.cameras@.len() ==> on_track(
                    #[trigger] recording.cameras@[k],
                    recording.tracks@,
                ),
            pairs@ == all_paired(
                recording.cameras@,
                recording.tracks@,
                chosen@,
                lags@,
                i as nat,
            ),
        decreases recording.cameras.len() - i,
    {
        let trail: &CameraTrail = &recording.cameras[i];
        if let Some(slot) = find_slot(recording, chosen, &trail.camera) {
            let mut own = correspond(trail, slot, &recording.tracks, lags[slot]);
            pairs.append(&mut own);
        }
        i = i + 1;
    }
    pairs
}

/// With no delay, a pixel is paired with the instant it was stamped at.
pub proof fn a_prompt_camera_is_paired_as_stamped(
    sample: Sample,
    camera: usize,
    tracks: Seq<Track>,
)
    ensures
        exposed(sample, camera, tracks, Duration { nanos: 0 }) is Some ==> exposed(
            sample,
            camera,
            tracks,
            Duration { nanos: 0 },
        )->0.when == sample.at,
{
}

/// The delays the resection tries when the one it was handed does not solve.
pub fn seed_lags() -> (lags: Vec<Duration>)
    ensures
        lags@.len() == SEED_LAGS,
        forall|i: int|
            0 <= i < SEED_LAGS ==> (#[trigger] lags@[i]).nanos == i * 20_000_000,
{
    let mut lags: Vec<Duration> = Vec::new();
    let mut step: u64 = 0;
    while step * SEED_LAG_STEP <= SEED_LAG_MAX
        invariant
            step <= SEED_LAGS,
            lags@.len() == step,
            forall|i: int|
                0 <= i < lags@.len() ==> (#[trigger] lags@[i]).nanos == i * 20_000_000,
        decreases SEED_LAGS - step,
    {
        lags.push(Duration::from_millis(step * SEED_LAG_STEP));
        step = step + 1;
    }
    lags
}

/// The delay a camera is solved at: of those that solve at all, the first with
/// the most inliers.
///
/// The resection is a sharp detector of its own delay, and taking the most
/// inliers rather than the first success is what keeps it from stopping at the
/// edge of that window.
pub fn best_seed(inliers: &Vec<Option<usize>>) -> (best: Option<usize>)
    ensures
        match best {
            Some(best) => {
                &&& best < inliers@.len()
                &&& inliers@[best as int] is Some
                &&& forall|i: int|
                    0 <= i < best && (#[trigger] inliers@[i]) is Some ==> inliers@[i]->0
                        < inliers@[best as int]->0
                &&& forall|i: int|
                    best < i < inliers@.len() && (#[trigger] inliers@[i]) is Some
                        ==> inliers@[i]->0 <= inliers@[best as int]->0
            },
            None => forall|i: int| 0 <= i < inliers@.len() ==> (#[trigger] inliers@[i]) is None,
        },
{
    let mut best: Option<usize> = None;
    let mut i: usize = 0;
    while i < inliers.len()
        invariant
            i <= inliers.len(),
            match best {
                Some(best) => {
                    &&& best < i
                    &&& inliers@[best as int] is Some
                    &&& forall|k: int|
                        0 <= k < best && (#[trigger] inliers@[k]) is Some ==> inliers@[k]->0
                            < inliers@[best as int]->0
                    &&& forall|k: int|
                        best < k < i && (#[trigger] inliers@[k]) is Some ==> inliers@[k]->0
                            <= inliers@[best as int]->0
                },
                None => forall|k: int| 0 <= k < i ==> (#[trigger] inliers@[k]) is None,
            },
        decreases inliers.len() - i,
    {
        if let Some(count) = inliers[i] {
            let better: bool = match best {
                Some(so_far) => match inliers[so_far] {
                    Some(most) => count > most,
                    None => true,
                },
                None => true,
            };
            if better {
                best = Some(i);
            }
        }
        i = i + 1;
    }
    best
}

/// What a round of measuring the latencies leads to.
#[derive(Debug, Clone, Copy, PartialEq, Eq, Structural)]
pub enum Next {
    /// Nothing moved, so another round would measure the same thing against the
    /// same cameras.
    Settled,
    /// The delays moved, and the room is to be solved again against them.
    Refit,
    /// The same, but the rounds have run out with the delays still moving.
    LastRefit,
}

/// The delays of the cameras as they are measured, round by round.
#[derive(Debug, Clone)]
pub struct Rounds {
    /// Rounds done so far.
    pub done: usize,
    /// The delay applied to each camera.
    pub lags: Vec<Duration>,
    /// What was last measured of each camera.
    pub estimates: Vec<Option<Estimate>>,
}

/// Whether a measured delay is to be believed.
///
/// A walk too slow to leave a mark produces a confident-looking minimum in
/// noise. Applying that is worse than applying nothing, so it is reported and
/// not used.
pub open spec fn believed(estimate: Option<Estimate>) -> bool {
    estimate is Some && estimate->0.confident() && estimate->0.latency.nanos < PLAUSIBLE
}

/// The delay applied to a camera after it was measured.
pub open spec fn corrected(lag: Duration, estimate: Option<Estimate>) -> Duration {
    if believed(estimate) {
        estimate->0.latency
    } else {
        lag
    }
}

impl Rounds {
    /// Whether every camera has a delay and a place for its estimate.
    pub open spec fn well_formed(self) -> bool {
        self.lags@.len() == self.estimates@.len() && self.done <= LATENCY_ROUNDS
    }

    /// The delays the cameras were seeded at, with nothing measured yet.
    pub fn new(lags: Vec<Duration>) -> (rounds: Self)
        ensures
            rounds.well_formed(),
            rounds.done == 0,
            rounds.lags == lags,
            forall|i: int|
                0 <= i < lags@.len() ==> (#[trigger] rounds.estimates@[i]) is None,
    {
        let mut estimates: Vec<Option<Estimate>> = Vec::new();
        while estimates.len() < lags.len()
            invariant
                estimates.len() <= lags.len(),
                forall|i: int| 0 <= i < estimates@.len() ==> (#[trigger] estimates@[i]) is None,
            decreases lags.len() - estimates.len(),
        {
            estimates.push(None);
        }
        Rounds { done: 0, lags, estimates }
    }

    /// Whether there are rounds left.
    pub fn more(&self) -> (more: bool)
        ensures
            more == (self.done < LATENCY_ROUNDS),
    {
        self.done < LATENCY_ROUNDS
    }

    /// Takes in what one round measured.
    pub fn step(&mut self, found: Vec<Option<Estimate>>) -> (next: Next)
        requires
            old(self).well_formed(),
            old(self).done < LATENCY_ROUNDS,
            found@.len() == old(self).lags@.len(),
        ensures
            final(self).well_formed(),
            final(self).done == old(self).done + 1,
            final(self).estimates == found,
            final(self).lags@.len() == old(self).lags@.len(),
            forall|i: int|
                0 <= i < found@.len() ==> #[trigger] final(self).lags@[i] == corrected(
                    old(self).lags@[i],
                    found@[i],
                ),
            next == if final(self).lags@ == old(self).lags@ {
                Next::Settled
            } else if final(self).done == LATENCY_ROUNDS {
                Next::LastRefit
            } else {
                Next::Refit
            },
    {
        let mut moved: bool = false;
        let mut i: usize = 0;
        while i < found.len()
            invariant
                i <= found@.len(),
                found@.len() == old(self).lags@.len(),
                self.lags@.len() == old(self).lags@.len(),
                self.done == old(self).done,
                forall|k: int|
                    0 <= k < i ==> #[trigger] self.lags@[k] == corrected(
                        old(self).lags@[k],
                        found@[k],
                    ),
                forall|k: int|
                    i <= k < found@.len() ==> #[trigger] self.lags@[k] == old(self).lags@[k],
                moved == (self.lags@ != old(self).lags@),
            decreases found.len() - i,
        {
            if let Some(estimate) = found[i] {
                if estimate.is_confident() && estimate.is_plausible() {
                    let ghost before = self.lags@;
                    if self.lags[i] != estimate.latency {
                        moved = true;
                        self.lags.set(i, estimate.latency);
                        assert(self.lags@[i as int] != old(self).lags@[i as int]);
                    }
                }
            }
            i = i + 1;
        }
        self.estimates = found;
        self.done = self.done + 1;
        if !moved {
            Next::Settled
        } else if self.done == LATENCY_ROUNDS {
            Next::LastRefit
        } else {
            Next::Refit
        }
    }
}

/// What a solve needs next.
#[derive(Debug, Clone, Copy, PartialEq, Eq, Structural)]
pub enum SolveTask {
    /// Every camera resected on its own, against the delays as they are.
    Seed,
    /// The sightings paired and every camera refined together.
    Fit,
    /// The delay of each camera measured against the fit.
    Measure,
    /// Nothing more: the last fit is the answer.
    Finish,
}

/// How far a solve has come.
///
/// Each camera hands over its frames a little late, and by a different amount.
/// Measuring that needs cameras to reproject through, so it comes after the
/// first fit, and fitting again against the corrected timestamps is what turns it
/// from a number into accuracy. It goes round more than once, because part of
/// every delay is already hidden in the first fit's poses.
#[derive(Debug, Clone)]
pub struct Solver {
    pub rounds: Rounds,
    /// Whether the delays are still those the cameras are seeded at.
    pub fresh: bool,
    pub estimate_latency: bool,
    pub task: SolveTask,
}

impl Solver {
    /// Whether the delays of the cameras are in order.
    pub open spec fn well_formed(self) -> bool {
        &&& self.rounds.well_formed()
        &&& self.task is Measure ==> self.rounds.done < LATENCY_ROUNDS
        &&& self.fresh ==> self.rounds.done == 0
    }

    /// A solve about to begin, with no camera late.
    pub fn new(cameras: usize, options: &SolveOptions) -> (solver: Self)
        ensures
            solver.well_formed(),
            solver.rounds.done == 0,
            solver.rounds.lags@ == Seq::new(cameras as nat, |i: int| Duration { nanos: 0 }),
            solver.fresh,
            solver.estimate_latency == options.estimate_latency,
            solver.task == SolveTask::Seed,
    {
        let mut lags: Vec<Duration> = Vec::new();
        while lags.len() < cameras
            invariant
                lags.len() <= cameras,
                forall|i: int| 0 <= i < lags@.len() ==> (#[trigger] lags@[i]).nanos == 0,
            decreases cameras - lags.len(),
        {
            lags.push(Duration::zero());
        }
        assert(lags@ =~= Seq::new(cameras as nat, |i: int| Duration { nanos: 0 }));
        Solver {
            rounds: Rounds::new(lags),
            fresh: true,
            estimate_latency: options.estimate_latency,
            task: SolveTask::Seed,
        }
    }

    /// Takes in the delays the cameras were seeded at.
    ///
    /// A camera too late to resect against prompt timestamps is solved at
    /// whatever delay does work, and that delay is kept the first time: pairing
    /// the sightings as though it were prompt would undo the only thing that got
    /// it solved. Later the measured delays stand.
    pub fn seeded(&mut self, lags: Vec<Duration>)
        requires
            old(self).well_formed(),
            old(self).task == SolveTask::Seed,
            lags@.len() == old(self).rounds.lags@.len(),
        ensures
            final(self).well_formed(),
            final(self).task == SolveTask::Fit,
            !final(self).fresh,
            final(self).estimate_latency == old(self).estimate_latency,
            final(self).rounds == if old(self).fresh {
                (Rounds { lags, ..old(self).rounds })
            } else {
                old(self).rounds
            },
    {
        if self.fresh {
            self.rounds.lags = lags;
        }
        self.fresh = false;
        self.task = SolveTask::Fit;
    }

    /// Takes note that the cameras were fitted.
    pub fn fitted(&mut self)
        requires
            old(self).well_formed(),
            old(self).task == SolveTask::Fit,
        ensures
            final(self).well_formed(),
            *final(self) == (Solver {
                task: if old(self).estimate_latency && old(self).rounds.done < LATENCY_ROUNDS {
                    SolveTask::Measure
                } else {
                    SolveTask::Finish
                },
                ..*old(self)
            }),
    {
        self.task = if self.estimate_latency && self.rounds.more() {
            SolveTask::Measure
        } else {
            SolveTask::Finish
        };
    }

    /// Takes in the delays that were measured. Where they moved, the cameras are
    /// seeded again and not only paired again: a seed done against a walk the
    /// camera had not caught up with is not one the refinement pulls back.
    pub fn measured(&mut self, found: Vec<Option<Estimate>>) -> (next: Next)
        requires
            old(self).well_formed(),
            old(self).task == SolveTask::Measure,
            !old(self).fresh,
            found@.len() == old(self).rounds.lags@.len(),
        ensures
            final(self).well_formed(),
            final(self).fresh == old(self).fresh,
            final(self).estimate_latency == old(self).estimate_latency,
            final(self).rounds.done == old(self).rounds.done + 1,
            final(self).rounds.estimates == found,
            final(self).rounds.lags@.len() == old(self).rounds.lags@.len(),
            forall|i: int|
                0 <= i < found@.len() ==> #[trigger] final(self).rounds.lags@[i] == corrected(
                    old(self).rounds.lags@[i],
                    found@[i],
                ),
            next == if final(self).rounds.lags@ == old(self).rounds.lags@ {
                Next::Settled
            } else if final(self).rounds.done == LATENCY_ROUNDS {
                Next::LastRefit
            } else {
                Next::Refit
            },
            final(self).task == if next == Next::Settled {
                SolveTask::Finish
            } else {
                SolveTask::Seed
            },
    {
        let next: Next = self.rounds.step(found);
        self.task = if next == Next::Settled {
            SolveTask::Finish
        } else {
            SolveTask::Seed
        };
        next
    }

    /// How many tasks are left at most.
    pub open spec fn left(self) -> int {
        let rounds = 3 * (LATENCY_ROUNDS - self.rounds.done);
        match self.task {
            SolveTask::Seed => rounds + 2,
            SolveTask::Fit => rounds + 1,
            SolveTask::Measure => rounds,
            SolveTask::Finish => 0,
        }
    }
}

/// Every task brings a solve nearer to its end, so it ends.
pub proof fn a_solve_ends(before: Solver, after: Solver)
    requires
        before.well_formed(),
        ({
            ||| before.task is Seed && after.task is Fit && after.rounds.done == before.rounds.done
            ||| before.task is Fit && (after.task is Measure || after.task is Finish)
                && after.rounds.done == before.rounds.done && after.well_formed()
            ||| before.task is Measure && (after.task is Seed || after.task is Finish)
                && after.rounds.done == before.rounds.done + 1
        }),
    ensures
        0 <= after.left() < before.left(),
{
}

/// No implausible delay is ever applied: a camera keeps the delay it was seeded
/// at, or gets one a webcam could have.
pub proof fn no_implausible_delay_is_applied(lag: Duration, estimate: Option<Estimate>)
    ensures
        corrected(lag, estimate) == lag || corrected(lag, estimate).nanos < PLAUSIBLE,
{
}

/// How many of the sightings are of one rig.
pub open spec fn sightings_of(pairs: Seq<Paired>, rig: usize) -> nat {
    pairs.filter(|pair: Paired| pair.rig == rig).len()
}

/// The rigs whose offset is an answer. One nothing was ever seen through has an
/// offset of exactly the value it started at, and reporting that alongside the
/// solved ones would present a seed as an answer.
pub fn solved_rigs(rigs: usize, pairs: &Vec<Paired>) -> (solved: Vec<bool>)
    ensures
        solved@.len() == rigs,
        forall|i: int|
            0 <= i < rigs ==> #[trigger] solved@[i] == (sightings_of(pairs@, i as usize)
                >= MIN_RIG_SIGHTINGS),
{
    let mut solved: Vec<bool> = Vec::new();
    while solved.len() < rigs
        invariant
            solved.len() <= rigs,
            forall|i: int|
                0 <= i < solved@.len() ==> #[trigger] solved@[i] == (sightings_of(
                    pairs@,
                    i as usize,
                ) >= MIN_RIG_SIGHTINGS),
        decreases rigs - solved.len(),
    {
        let rig: usize = solved.len();
        solved.push(count_sightings(pairs, rig) >= MIN_RIG_SIGHTINGS);
    }
    solved
}

fn count_sightings(pairs: &Vec<Paired>, rig: usize) -> (count: usize)
    ensures
        count == sightings_of(pairs@, rig),
{
    let ghost own = |pair: Paired| pair.rig == rig;
    let mut count: usize = 0;
    let mut i: usize = 0;
    proof {
        assert(pairs@.take(0).filter(own).len() == 0) by {
            reveal(Seq::filter);
        }
    }
    while i < pairs.len()
        invariant
            i <= pairs.len(),
            count <= i,
            own == (|pair: Paired| pair.rig == rig),
            count == pairs@.take(i as int).filter(own).len(),
        decreases pairs.len() - i,
    {
        proof {
            lemma_filter_step(pairs@, own, i as int);
        }
        if pairs[i].rig == rig {
            count = count + 1;
        }
        i = i + 1;
    }
    proof {
        assert(pairs@.take(i as int) =~= pairs@);
    }
    count
}

/// The sightings a placement is judged by: the first, and every so many after
/// it.
pub fn sampled(sightings: usize) -> (indices: Vec<usize>)
    ensures
        indices@.len() == (sightings + STRIDE - 1) / (STRIDE as int),
        forall|i: int| 0 <= i < indices@.len() ==> #[trigger] indices@[i] == i * STRIDE,
{
    let mut indices: Vec<usize> = Vec::new();
    let mut at: usize = 0;
    while at < sightings
        invariant
            at == indices@.len() * STRIDE || (indices@.len() * STRIDE >= sightings && at
                == sightings),
            indices@.len() <= (sightings + STRIDE - 1) / (STRIDE as int),
            at >= sightings ==> indices@.len() == (sightings + STRIDE - 1) / (STRIDE as int),
            forall|i: int| 0 <= i < indices@.len() ==> #[trigger] indices@[i] == i * STRIDE,
        decreases sightings - at,
    {
        indices.push(at);
        at = if sightings - at > STRIDE {
            at + STRIDE
        } else {
            sightings
        };
    }
    indices
}

/// The middle one of a list of figures, if there is any.
pub fn middle(values: &Vec<Scalar>) -> (median: Option<Scalar>)
    ensures
        median == if values@.len() == 0 {
            None
        } else {
            Some(ranked(values@, values@.len() as int / 2))
        },
{
    if values.len() == 0 {
        return None;
    }
    Some(pick_ranked(values, values.len() / 2))
}

/// A starting field of view for a lens kind, in degrees.
///
/// Only the order of magnitude matters: the solve recovers the real focal
/// length, and needs no better than a factor of two to get there.
pub fn seed_fov(kind: LensKind) -> (degrees: u32)
    ensures
        degrees == match kind {
            LensKind::Standard => 70u32,
            LensKind::Wide => 100u32,
            LensKind::Fisheye => 150u32,
        },
{
    match kind {
        LensKind::Standard => 70,
        LensKind::Wide => 100,
        LensKind::Fisheye => 150,
    }
}

/// 1.0
pub const FULL: u64 = 0x3ff0_0000_0000_0000;

/// How much of a sighting's confidence counts, before the solver's own outlier
/// handling.
#[derive(Debug, Clone, Copy, PartialEq, Eq, Structural)]
pub struct Trust {
    /// The confidence, held between nothing and one.
    pub confidence: Scalar,
    /// Whether it counts in full or by half.
    pub full: bool,
}

/// How much a sighting is trusted.
///
/// A controller is held rather than worn: the wrist keypoint sits against it
/// less rigidly than the head sits against a headset. They earn their place by
/// reaching heights the head never does, but they should not outvote it.
pub fn weight_of(rig: Rig, confidence: Scalar) -> (trust: Trust)
    ensures
        trust.full == (rig.role == Role::Head),
        trust.confidence == if confidence.less(Scalar::of(0)) {
            Scalar::of(0)
        } else if Scalar::of(FULL).less(confidence) {
            Scalar::of(FULL)
        } else {
            confidence
        },
{
    let nothing: Scalar = Scalar::from_bits(0);
    let one: Scalar = Scalar::from_bits(FULL);
    let held: Scalar = if confidence.lt(nothing) {
        nothing
    } else if one.lt(confidence) {
        one
    } else {
        confidence
    };
    Trust { confidence: held, full: rig.role == Role::Head }
}

/// Whether a pair is a sample moved back in time by a delay, and otherwise as it
/// was recorded.
pub open spec fn moved_back(pair: Paired, sample: Sample, camera: usize, lag: Duration) -> bool {
    &&& pair.camera == camera
    &&& pair.rig == sample.rig
    &&& pair.pixel.x == sample.pixel.x
    &&& pair.pixel.y == sample.pixel.y
    &&& pair.confidence == sample.confidence
    &&& pair.when.nanos + lag.nanos == sample.at.nanos
}

/// Whether a sample was exposed within the track of its rig: not before the first
/// pose and not after the last.
pub open spec fn within_track(sample: Sample, tracks: Seq<Track>, lag: Duration) -> bool {
    let poses = tracks[sample.rig as int].poses@;
    &&& poses.len() > 0
    &&& poses[0].at.nanos + lag.nanos <= sample.at.nanos
    &&& sample.at.nanos <= poses[poses.len() - 1].at.nanos + lag.nanos
}

/// Whether pairs are the samples at these places, moved back, in order, and those
/// are all that were exposed within their track.
pub open spec fn come_from(
    pairs: Seq<Paired>,
    samples: Seq<Sample>,
    from: Seq<int>,
    camera: usize,
    tracks: Seq<Track>,
    lag: Duration,
) -> bool {
    &&& from.len() == pairs.len()
    &&& increasing(from)
    &&& forall|k: int|
        0 <= k < from.len() ==> 0 <= #[trigger] from[k] < samples.len() && moved_back(
            pairs[k],
            samples[from[k]],
            camera,
            lag,
        ) && within_track(samples[from[k]], tracks, lag)
    &&& forall|i: int|
        0 <= i < samples.len() && within_track(#[trigger] samples[i], tracks, lag)
            ==> from.contains(i)
}

/// Every pair is one of the trail's samples moved back in time and otherwise
/// untouched, in the order they were recorded, and no sample that was exposed
/// within its track is left out.
pub proof fn every_pair_is_a_sample_moved_back(
    samples: Seq<Sample>,
    camera: usize,
    tracks: Seq<Track>,
    lag: Duration,
)
    ensures
        exists|from: Seq<int>| #[trigger]
            come_from(
                all_exposed(samples, camera, tracks, lag, samples.len()),
                samples,
                from,
                camera,
                tracks,
                lag,
            ),
{
    let from = lemma_origins(samples, camera, tracks, lag, samples.len());
    assert(samples.take(samples.len() as int) =~= samples);
    assert(come_from(
        all_exposed(samples, camera, tracks, lag, samples.len()),
        samples,
        from,
        camera,
        tracks,
        lag,
    ));
}

proof fn lemma_origins(
    samples: Seq<Sample>,
    camera: usize,
    tracks: Seq<Track>,
    lag: Duration,
    n: nat,
) -> (from: Seq<int>)
    requires
        n <= samples.len(),
    ensures
        come_from(
            all_exposed(samples, camera, tracks, lag, n),
            samples.take(n as int),
            from,
            camera,
            tracks,
            lag,
        ),
    decreases n,
{
    if n == 0 {
        Seq::empty()
    } else {
        let before = lemma_origins(samples, camera, tracks, lag, (n - 1) as nat);
        let (seen, more) = (samples.take(n - 1), samples.take(n as int));
        let last = samples[n - 1];
        assert forall|i: int| 0 <= i < seen.len() implies seen[i] == more[i] by {}
        assert(more[n - 1] == last);
        let from = if within_track(last, tracks, lag) {
            before.push(n - 1)
        } else {
            before
        };
        assert forall|i: int|
            0 <= i < more.len() && within_track(#[trigger] more[i], tracks, lag) implies from.contains(
            i,
        ) by {
            if i < n - 1 {
                assert(within_track(seen[i], tracks, lag));
                let k = choose|k: int| 0 <= k < before.len() && before[k] == i;
                assert(from[k] == i);
            } else {
                assert(from[before.len() as int] == i);
            }
        }
        from
    }
}

/// The last of the chosen cameras with an id is its slot, and there is one exactly
/// if a camera with that id was chosen.
pub proof fn a_slot_is_the_last_camera_with_the_id(
    trails: Seq<CameraTrail>,
    chosen: Seq<usize>,
    id: Seq<char>,
    n: nat,
)
    requires
        n <= chosen.len(),
    ensures
        ({
            let slot = slot_among(trails, chosen, id, n);
            &&& slot >= 0 <==> exists|k: int|
                0 <= k < n && trails[(#[trigger] chosen[k]) as int].camera@ == id
            &&& slot >= 0 ==> slot < n && trails[chosen[slot] as int].camera@ == id
            &&& forall|k: int|
                slot < k < n && 0 <= k ==> trails[(#[trigger] chosen[k]) as int].camera@ != id
        }),
    decreases n,
{
    if n > 0 {
        a_slot_is_the_last_camera_with_the_id(trails, chosen, id, (n - 1) as nat);
        let slot = slot_among(trails, chosen, id, n);
        if slot >= 0 {
            assert(trails[chosen[slot] as int].camera@ == id);
        }
    }
}

/// What goes into the refinement is, trail by trail, every sample of a chosen camera
/// that was exposed within its track, moved back by that camera's own delay.
pub proof fn every_sighting_is_moved_back_by_its_own_delay(
    trails: Seq<CameraTrail>,
    tracks: Seq<Track>,
    chosen: Seq<usize>,
    lags: Seq<Duration>,
    n: nat,
)
    requires
        lags.len() == chosen.len() <= usize::MAX,
        n <= trails.len(),
    ensures
        ({
            let pairs = all_paired(trails, tracks, chosen, lags, n);
            &&& forall|p: int|
                0 <= p < pairs.len() ==> from_a_chosen_trail(
                    #[trigger] pairs[p],
                    trails,
                    tracks,
                    chosen,
                    lags,
                    n,
                )
            &&& forall|t: int, s: int, i: int|
                0 <= t < n && 0 <= s < chosen.len() && trails[chosen[s] as int].camera@
                    == trails[t].camera@ && (forall|k: int|
                    s < k < chosen.len() ==> trails[(#[trigger] chosen[k]) as int].camera@
                        != trails[t].camera@) && 0 <= i < trails[t].samples@.len()
                    && #[trigger] within_track(trails[t].samples@[i], tracks, #[trigger] lags[s])
                    ==> exists|p: int|
                    0 <= p < pairs.len() && moved_back(
                        #[trigger] pairs[p],
                        trails[t].samples@[i],
                        s as usize,
                        lags[s],
                    )
        }),
    decreases n,
{
    if n > 0 {
        let before = all_paired(trails, tracks, chosen, lags, (n - 1) as nat);
        let pairs = all_paired(trails, tracks, chosen, lags, n);
        every_sighting_is_moved_back_by_its_own_delay(
            trails,
            tracks,
            chosen,
            lags,
            (n - 1) as nat,
        );
        let trail = trails[n - 1];
        let slot = slot_among(trails, chosen, trail.camera@, chosen.len());
        a_slot_is_the_last_camera_with_the_id(trails, chosen, trail.camera@, chosen.len());
        if slot >= 0 {
            let own = all_exposed(
                trail.samples@,
                slot as usize,
                tracks,
                lags[slot],
                trail.samples@.len(),
            );
            every_pair_is_a_sample_moved_back(trail.samples@, slot as usize, tracks, lags[slot]);
            let from = choose|from: Seq<int>| #[trigger]
                come_from(own, trail.samples@, from, slot as usize, tracks, lags[slot]);
            assert forall|p: int| 0 <= p < pairs.len() implies from_a_chosen_trail(
                #[trigger] pairs[p],
                trails,
                tracks,
                chosen,
                lags,
                n,
            ) by {
                if p < before.len() {
                    assert(pairs[p] == before[p]);
                    assert(from_a_chosen_trail(
                        before[p],
                        trails,
                        tracks,
                        chosen,
                        lags,
                        (n - 1) as nat,
                    ));
                    let (t, s, i) = choose|t: int, s: int, i: int| #[trigger]
                        is_sighting(before[p], trails, tracks, chosen, lags, t, s, i) && 0 <= t < n
                            - 1;
                    assert(is_sighting(pairs[p], trails, tracks, chosen, lags, t, s, i));
                } else {
                    let k = p - before.len();
                    assert(pairs[p] == own[k]);
                    assert(is_sighting(
                        pairs[p],
                        trails,
                        tracks,
                        chosen,
                        lags,
                        n - 1,
                        slot,
                        from[k],
                    ));
                }
            }
        } else {
            assert forall|p: int| 0 <= p < pairs.len() implies from_a_chosen_trail(
                #[trigger] pairs[p],
                trails,
                tracks,
                chosen,
                lags,
                n,
            ) by {
                assert(from_a_chosen_trail(
                    before[p],
                    trails,
                    tracks,
                    chosen,
                    lags,
                    (n - 1) as nat,
                ));
                let (t, s, i) = choose|t: int, s: int, i: int| #[trigger]
                    is_sighting(before[p], trails, tracks, chosen, lags, t, s, i) && 0 <= t < n - 1;
                assert(is_sighting(pairs[p], trails, tracks, chosen, lags, t, s, i));
            }
        }
        assert forall|t: int, s: int, i: int|
            0 <= t < n && 0 <= s < chosen.len() && trails[chosen[s] as int].camera@
                == trails[t].camera@ && (forall|k: int|
                s < k < chosen.len() ==> trails[(#[trigger] chosen[k]) as int].camera@
                    != trails[t].camera@) && 0 <= i < trails[t].samples@.len()
                && #[trigger] within_track(trails[t].samples@[i], tracks, #[trigger] lags[s])
            implies exists|p: int|
            0 <= p < pairs.len() && moved_back(
                #[trigger] pairs[p],
                trails[t].samples@[i],
                s as usize,
                lags[s],
            ) by {
            if t < n - 1 {
                let p = choose|p: int|
                    0 <= p < before.len() && moved_back(
                        #[trigger] before[p],
                        trails[t].samples@[i],
                        s as usize,
                        lags[s],
                    );
                assert(pairs[p] == before[p]);
            } else {
                assert(trails[chosen[s] as int].camera@ == trail.camera@);
                assert(slot == s);
                let own = all_exposed(
                    trail.samples@,
                    slot as usize,
                    tracks,
                    lags[slot],
                    trail.samples@.len(),
                );
                let from = choose|from: Seq<int>| #[trigger]
                    come_from(own, trail.samples@, from, slot as usize, tracks, lags[slot]);
                assert(from.contains(i));
                let k = choose|k: int| 0 <= k < from.len() && from[k] == i;
                assert(pairs[before.len() + k] == own[k]);
            }
        }
    }
}

/// Whether a pair is a sample of a trail whose camera is the one in a slot, moved
/// back by the delay of that slot.
pub open spec fn is_sighting(
    pair: Paired,
    trails: Seq<CameraTrail>,
    tracks: Seq<Track>,
    chosen: Seq<usize>,
    lags: Seq<Duration>,
    t: int,
    s: int,
    i: int,
) -> bool {
    &&& 0 <= t < trails.len() && 0 <= s < chosen.len() && 0 <= i < trails[t].samples@.len()
    &&& trails[chosen[s] as int].camera@ == trails[t].camera@
    &&& moved_back(pair, trails[t].samples@[i], s as usize, lags[s])
    &&& within_track(trails[t].samples@[i], tracks, lags[s])
}

/// Whether a pair is a sample of one of the first `n` trails, whose camera was
/// chosen.
pub open spec fn from_a_chosen_trail(
    pair: Paired,
    trails: Seq<CameraTrail>,
    tracks: Seq<Track>,
    chosen: Seq<usize>,
    lags: Seq<Duration>,
    n: nat,
) -> bool {
    exists|t: int, s: int, i: int| #[trigger]
        is_sighting(pair, trails, tracks, chosen, lags, t, s, i) && 0 <= t < n
}

/// The camera of a room with an id is the first that has it, and there is one exactly
/// if any has it.
pub proof fn a_camera_is_found_by_its_id(room: Seq<CameraCalibration>, id: Seq<char>)
    ensures
        ({
            let at = calibrated_at(room, id);
            &&& 0 <= at <= room.len()
            &&& at < room.len() <==> exists|c: int|
                0 <= c < room.len() && (#[trigger] room[c]).id@ == id
            &&& at < room.len() ==> room[at].id@ == id
            &&& forall|c: int| 0 <= c < at ==> (#[trigger] room[c]).id@ != id
        }),
{
    let named = has_id(id);
    lemma_first_where(room, named);
    let at = calibrated_at(room, id);
    if at < room.len() {
        assert(named(room[at]));
        assert(room[at].id@ == id);
    }
    assert forall|c: int| 0 <= c < at implies (#[trigger] room[c]).id@ != id by {
        assert(!named(room[c]));
    }
}

/// The cameras that are solved are exactly those that saw enough of the walk, in the
/// order of the recording.
pub proof fn every_camera_that_saw_enough_is_solved(
    trails: Seq<CameraTrail>,
    min_samples: usize,
    n: nat,
)
    requires
        n <= trails.len(),
    ensures
        ({
            let found = chosen_among(trails, min_samples, n);
            &&& increasing(found)
            &&& forall|i: int| #[trigger]
                found.contains(i) <==> 0 <= i < n && trails[i].samples@.len() >= min_samples
        }),
    decreases n,
{
    if n > 0 {
        every_camera_that_saw_enough_is_solved(trails, min_samples, (n - 1) as nat);
        let before = chosen_among(trails, min_samples, (n - 1) as nat);
        let more = trails[n - 1].samples@.len() >= min_samples;
        lemma_grown(before, chosen_among(trails, min_samples, n), more, n - 1);
    }
}

/// A trail is stray exactly if it saw enough to be solved and no configured camera has
/// its id.
pub proof fn a_stray_trail_has_no_camera(
    trail: CameraTrail,
    cameras: Seq<CameraConfig>,
    min_samples: usize,
)
    ensures
        stray(trail, cameras, min_samples) <==> trail.samples@.len() >= min_samples && forall|
            i: int,
        |
            0 <= i < cameras.len() ==> (#[trigger] cameras[i]).id@ != trail.camera@,
{
}

/// A measured delay takes the place of the one before exactly if it is sharp and under
/// a hundred and twenty milliseconds.
pub proof fn a_delay_is_taken_if_it_is_sharp_and_short(lag: Duration, estimate: Estimate)
    ensures
        Scalar::of(0x3ff0_0000_0000_0000).less(estimate.sharpness) && estimate.latency.nanos
            < 120_000_000 ==> corrected(lag, Some(estimate)) == estimate.latency,
        !(Scalar::of(0x3ff0_0000_0000_0000).less(estimate.sharpness) && estimate.latency.nanos
            < 120_000_000) ==> corrected(lag, Some(estimate)) == lag,
        corrected(lag, None) == lag,
{
}

/// The error in metres is known exactly if the distance is.
pub proof fn an_error_in_metres_needs_a_distance(camera: CameraCalibration)
    ensures
        camera.metres() is Some <==> Scalar::of(0).less(camera.range),
        camera.metres() is Some ==> camera.metres()->0 == camera.rms_at_range,
{
}

/// The first solve tries every delay up to a hundred and sixty milliseconds, twenty apart;
/// the delays are then measured three times over. A rig is solved for that was seen thirty
/// times, and every thirty-seventh sighting is shown.
pub proof fn what_a_solve_takes()
    ensures
        SEED_LAG_MAX == 160,
        SEED_LAG_STEP == 20,
        SEED_LAGS * SEED_LAG_STEP == SEED_LAG_MAX + SEED_LAG_STEP,
        LATENCY_ROUNDS == 3,
        MIN_RIG_SIGHTINGS == 30,
        STRIDE == 37,
        FULL == 0x3ff0_0000_0000_0000,
{
}

/// One more sighting counts for the rig it is of, and for no other.
pub proof fn a_sighting_counts_for_its_own_rig(pairs: Seq<Paired>, pair: Paired, rig: usize)
    ensures
        sightings_of(Seq::empty(), rig) == 0,
        sightings_of(pairs.push(pair), rig) == sightings_of(pairs, rig) + if pair.rig == rig {
            1nat
        } else {
            0nat
        },
{
    let of_rig = |pair: Paired| pair.rig == rig;
    let more = pairs.push(pair);
    let n = pairs.len() as int;
    lemma_filter_step(more, of_rig, n);
    assert(more.take(n) =~= pairs);
    assert(more.take(n + 1) =~= more);
    assert(Seq::<Paired>::empty().filter(of_rig).len() == 0) by {
        reveal(Seq::filter);
    }
}

} // verus!
