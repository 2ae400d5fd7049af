//! Recording a calibration walk.
//!
//! While the user walks the room, this pairs each camera's keypoints with where
//! the matching tracked device was at the instant that frame was *captured*.
//!
//! What comes out is one pixel trail per camera, plus the full device tracks.
//! The tracks are kept in their entirety, because estimating each camera's
//! latency means asking where the headset was at a range of shifted times.

use vstd::arithmetic::power2::{lemma_pow2_pos, pow2};
use vstd::prelude::*;

use crate::geometry::{Point2, Point3};
use crate::list::{first_where, lemma_filter_step, lemma_first_where_is};
use crate::fusion::floor::GROUNDED;
use crate::models::{present, Joint};
use crate::pipeline::{Keypoint, PoseFrame};
use crate::scalar::{Scalar, UNIT_EXPONENT};
use crate::time::{since, Duration, Instant};
use crate::vr::Role;

verus! {

/// A device and the keypoint that stands in for it.
///
/// The pairing has to be this specific. A headset does not sit on the head
/// keypoint, and the constant gap between them is solved for, but a Halpe model
/// reports a head centre while a COCO model reports the nose. Two cameras
/// running different models therefore need two offsets, so the rig is the pair
/// rather than the device alone.
#[derive(Debug, Clone, Copy, PartialEq, Eq, Hash, Structural)]
pub struct Rig {
    pub role: Role,
    pub joint: Joint,
}

/// Keypoints that may stand in for a device, best first.
pub open spec fn stand_ins(role: Role) -> Seq<Joint> {
    match role {
        Role::Head => seq![Joint::Head, Joint::Nose],
        Role::LeftHand => seq![Joint::LeftWrist],
        Role::RightHand => seq![Joint::RightWrist],
        Role::Other => Seq::empty(),
    }
}

impl Rig {
    /// Keypoints that may stand in for a device, best first.
    ///
    /// The head is tried before the nose because it is the more stable point
    /// under a headset, which hides most of the face from a ceiling camera.
    pub fn candidates(role: Role) -> (joints: Vec<Joint>)
        ensures
            joints@ == stand_ins(role),
    {
        let joints: Vec<Joint> = match role {
            Role::Head => vec![Joint::Head, Joint::Nose],
            Role::LeftHand => vec![Joint::LeftWrist],
            Role::RightHand => vec![Joint::RightWrist],
            Role::Other => Vec::new(),
        };
        assert(joints@ =~= stand_ins(role));
        joints
    }

    /// The device and its keypoint, by name.
    pub fn label(&self) -> (label: String)
        ensures
            label@ == self.role.title()@ + " / "@ + self.joint.title()@,
    {
        let mut label = self.role.label().to_owned();
        label.append(" / ");
        label.append(self.joint.name());
        label
    }
}

/// 0.5
const HALF: u64 = 0x3fe0_0000_0000_0000;

/// 6.0
const PIXEL_STEP: u64 = 0x4018_0000_0000_0000;

/// 90.0
const POLL_HZ: u64 = 0x4056_8000_0000_0000;

/// 0.15
pub const TURNED_ENOUGH: u64 = 0x3fc3_3333_3333_3333;

/// How long a walk has to be before its rotation is worth judging, in
/// nanoseconds.
pub const LONG_ENOUGH: u64 = 10_000_000_000;

/// How a walk is recorded.
#[derive(Debug, Clone, Copy, PartialEq, Eq, Structural)]
pub struct RecorderConfig {
    /// Keypoint confidence below which a sighting is not recorded.
    pub min_confidence: Scalar,
    /// How far a keypoint must have moved, in pixels, before another sample of
    /// the same camera is kept. A user standing still otherwise contributes
    /// hundreds of identical rows that weight the solve toward one spot and
    /// tell it nothing.
    pub min_pixel_step: Scalar,
    /// Record the controllers as well as the headset. They reach heights the
    /// head never does, which is what stops the correspondences forming a
    /// plane.
    pub use_controllers: bool,
    /// Weight given to controller sightings relative to the headset.
    pub controller_weight: Scalar,
    /// Stop accepting samples for a camera once it has this many.
    pub max_per_camera: usize,
    /// How often the recorder looks for new frames.
    pub poll_hz: Scalar,
}

impl Default for RecorderConfig {
    fn default() -> (config: Self)
        ensures
            config.min_confidence.bits == 0x3fe0_0000_0000_0000,
            config.min_pixel_step.bits == 0x4018_0000_0000_0000,
            config.use_controllers,
            config.controller_weight.bits == 0x3fe0_0000_0000_0000,
            config.max_per_camera == 4000,
            config.poll_hz.bits == 0x4056_8000_0000_0000,
    {
        RecorderConfig {
            min_confidence: Scalar::from_bits(HALF),
            min_pixel_step: Scalar::from_bits(PIXEL_STEP),
            use_controllers: true,
            controller_weight: Scalar::from_bits(HALF),
            max_per_camera: 4000,
            poll_hz: Scalar::from_bits(POLL_HZ),
        }
    }
}

/// One camera's sighting of a rig at one instant.
#[derive(Debug, Clone, Copy, PartialEq, Eq, Structural)]
pub struct Sample {
    /// When the frame was captured.
    pub at: Instant,
    pub rig: usize,
    pub pixel: Point2,
    pub confidence: Scalar,
}

/// Whether a coordinate lies within a side of the frame.
pub open spec fn within(value: Scalar, side: u32) -> bool {
    !value.nan() && 0 <= value.units() < side * pow2(UNIT_EXPONENT as nat)
}

/// Whether a pixel lies within the frame.
pub open spec fn inside(pixel: Point2, width: u32, height: u32) -> bool {
    within(pixel.x, width) && within(pixel.y, height)
}

fn is_within(value: Scalar, side: u32) -> (within: bool)
    ensures
        within == self::within(value, side),
{
    let low: Scalar = Scalar::from_u32(0);
    let high: Scalar = Scalar::from_u32(side);
    proof {
        let unit = pow2(UNIT_EXPONENT as nat) as int;
        assert(0 * unit == 0);
    }
    low.le(value) && value.lt(high)
}

/// Whether a pixel lies within the frame.
///
/// A pose model will happily place a keypoint outside the frame when the person
/// is half out of shot. That is the model guessing, not the camera seeing.
pub fn is_inside(pixel: Point2, width: u32, height: u32) -> (inside: bool)
    ensures
        inside == self::inside(pixel, width, height),
{
    is_within(pixel.x, width) && is_within(pixel.y, height)
}

/// Which of `parts` equal parts of a side a coordinate falls in.
pub open spec fn part_of(value: Scalar, side: u32, parts: int) -> int {
    value.whole_of(parts) / (side as int)
}

fn find_part(value: Scalar, side: u32, parts: usize) -> (part: usize)
    requires
        within(value, side),
        0 < parts <= 1024,
    ensures
        part == part_of(value, side, parts as int),
        part < parts,
{
    let unit: Ghost<int> = Ghost(pow2(UNIT_EXPONENT as nat) as int);
    let size: Scalar = value.abs();
    proof {
        lemma_pow2_pos(UNIT_EXPONENT as nat);
        assert(size.units() == value.units());
        if size.magnitude() >= crate::scalar::INFINITE {
            lemma_infinity_is_large(size);
        }
        assert(side * unit@ <= 0x1_0000_0000 * unit@) by (nonlinear_arith)
            requires
                side <= 0x1_0000_0000,
                unit@ >= 1,
        ;
    }
    let whole: u64 = size.whole_times(parts as u32);
    proof {
        let (u, n, w) = (unit@, parts as int, side as int);
        let x = value.units();
        assert(w > 0) by (nonlinear_arith)
            requires
                0 <= x < w * u,
                u >= 1,
                w >= 0,
        ;
        assert(x * n < (w * n) * u) by (nonlinear_arith)
            requires
                0 <= x < w * u,
                n > 0,
        ;
        assert(x * n >= 0) by (nonlinear_arith)
            requires
                x >= 0,
                n > 0,
        ;
        vstd::arithmetic::div_mod::lemma_fundamental_div_mod(x * n, u);
        let q = (x * n) / u;
        assert(q < w * n) by (nonlinear_arith)
            requires
                x * n == u * q + (x * n) % u,
                (x * n) % u >= 0,
                x * n < (w * n) * u,
                u >= 1,
        ;
        assert(whole == q);
        assert(q / w < n) by (nonlinear_arith)
            requires
                0 <= q < w * n,
                w > 0,
        ;
        assert(q / w >= 0) by (nonlinear_arith)
            requires
                q >= 0,
                w > 0,
        ;
    }
    (whole / side as u64) as usize
}

/// Infinity is worth more than any number of 32 bits.
proof fn lemma_infinity_is_large(value: Scalar)
    requires
        !value.negative(),
        value.magnitude() >= crate::scalar::INFINITE,
    ensures
        value.units() >= 0x1_0000_0000 * pow2(UNIT_EXPONENT as nat),
{
    let infinite = crate::scalar::INFINITE as int;
    if value.magnitude() > infinite {
        crate::scalar::lemma_worth_increases(infinite, value.magnitude());
    }
    vstd::arithmetic::power2::lemma2_to64();
    vstd::arithmetic::power2::lemma_pow2_adds(32, 20);
    let step = (2046 - UNIT_EXPONENT) as nat;
    vstd::arithmetic::power2::lemma_pow2_adds(UNIT_EXPONENT as nat, step);
    lemma_pow2_pos(step);
    lemma_pow2_pos(UNIT_EXPONENT as nat);
    let (one, more) = (pow2(UNIT_EXPONENT as nat) as int, pow2(step) as int);
    assert(infinite / 0x10_0000_0000_0000 == 2047);
    assert(0x10_0000_0000_0000 * (one * more) >= 0x1_0000_0000 * one) by (nonlinear_arith)
        requires
            one >= 1,
            more >= 1,
    ;
}

/// How much of a camera's frame the walk covered.
///
/// Kept per camera rather than globally: a narrow camera sees a smaller slice of
/// the room, so a walk that satisfies a wide one can leave a narrow one
/// under-constrained.
#[derive(Debug, Clone)]
pub struct Coverage {
    pub columns: usize,
    pub rows: usize,
    pub cells: Vec<u32>,
}

/// Samples a cell needs to count as covered.
pub const ENOUGH: u32 = 3;

/// The counts after one more pixel.
pub open spec fn counted(
    cells: Seq<u32>,
    columns: int,
    rows: int,
    pixel: Point2,
    width: u32,
    height: u32,
) -> Seq<u32> {
    if inside(pixel, width, height) {
        let cell = part_of(pixel.y, height, rows) * columns + part_of(pixel.x, width, columns);
        cells.update(cell, (cells[cell] + 1) as u32)
    } else {
        cells
    }
}

impl Default for Coverage {
    fn default() -> (coverage: Self)
        ensures
            coverage.well_formed(),
            coverage.columns == 8,
            coverage.rows == 6,
            coverage.cells@ == Seq::new(48, |i: int| 0u32),
    {
        Self::new()
    }
}

impl Coverage {
    pub const COLUMNS: usize = 8;

    pub const ROWS: usize = 6;

    /// Whether there is a count for every cell.
    pub open spec fn well_formed(self) -> bool {
        &&& 0 < self.columns <= 1024
        &&& 0 < self.rows <= 1024
        &&& self.cells@.len() == self.columns * self.rows
    }

    /// Whether every count can still go up.
    pub open spec fn roomy(self) -> bool {
        forall|i: int| 0 <= i < self.cells@.len() ==> #[trigger] self.cells@[i] < u32::MAX
    }

    /// A map nothing has been counted in.
    pub fn new() -> (coverage: Self)
        ensures
            coverage.well_formed(),
            coverage.columns == 8,
            coverage.rows == 6,
            coverage.cells@ == Seq::new(48, |i: int| 0u32),
    {
        let mut cells: Vec<u32> = Vec::new();
        while cells.len() < 48
            invariant
                cells.len() <= 48,
                forall|i: int| 0 <= i < cells.len() ==> #[trigger] cells@[i] == 0,
            decreases 48 - cells.len(),
        {
            cells.push(0);
        }
        assert(cells@ =~= Seq::new(48, |i: int| 0u32));
        Coverage { columns: Self::COLUMNS, rows: Self::ROWS, cells }
    }

    /// Counts a pixel toward the cell it falls in. One outside the frame counts
    /// nowhere.
    pub fn record(&mut self, pixel: Point2, width: u32, height: u32)
        requires
            old(self).well_formed(),
            old(self).roomy(),
        ensures
            final(self).well_formed(),
            final(self).columns == old(self).columns,
            final(self).rows == old(self).rows,
            final(self).cells@ == counted(
                old(self).cells@,
                old(self).columns as int,
                old(self).rows as int,
                pixel,
                width,
                height,
            ),
    {
        if !is_inside(pixel, width, height) {
            return;
        }
        let column: usize = find_part(pixel.x, width, self.columns);
        let row: usize = find_part(pixel.y, height, self.rows);
        proof {
            assert(row * self.columns + column < self.columns * self.rows && row * self.columns
                >= 0) by (nonlinear_arith)
                requires
                    row < self.rows,
                    column < self.columns,
                    0 <= row,
                    0 <= self.columns,
            ;
            assert(self.columns * self.rows <= 1024 * 1024) by (nonlinear_arith)
                requires
                    self.columns <= 1024,
                    self.rows <= 1024,
            ;
        }
        let cell: usize = row * self.columns + column;
        let count: u32 = self.cells[cell];
        self.cells.set(cell, count + 1);
    }

    /// How often a cell was counted. A cell past the end was never.
    pub fn count(&self, column: usize, row: usize) -> (count: u32)
        requires
            row * self.columns + column <= usize::MAX,
        ensures
            count == if row * self.columns + column < self.cells@.len() {
                self.cells@[row * self.columns + column]
            } else {
                0
            },
    {
        proof {
            assert(row * self.columns >= 0) by (nonlinear_arith)
                requires
                    0 <= row,
                    0 <= self.columns,
            ;
        }
        let cell: usize = row * self.columns + column;
        if cell < self.cells.len() {
            self.cells[cell]
        } else {
            0
        }
    }

    /// How many cells saw at least a handful of samples. Out of all of them,
    /// that is the fraction of the frame the walk filled.
    pub fn filled(&self) -> (filled: usize)
        ensures
            filled == self.cells@.filter(|count: u32| count >= ENOUGH).len(),
            filled <= self.cells@.len(),
    {
        let ghost wanted = |count: u32| count >= ENOUGH;
        let mut filled: usize = 0;
        let mut i: usize = 0;
        proof {
            assert(self.cells@.take(0).filter(wanted).len() == 0) by {
                reveal(Seq::filter);
            }
        }
        while i < self.cells.len()
            invariant
                i <= self.cells.len(),
                filled <= i,
                wanted == (|count: u32| count >= ENOUGH),
                filled == self.cells@.take(i as int).filter(wanted).len(),
            decreases self.cells.len() - i,
        {
            proof {
                lemma_filter_step(self.cells@, wanted, i as int);
            }
            if self.cells[i] >= ENOUGH {
                filled = filled + 1;
            }
            i = i + 1;
        }
        proof {
            assert(self.cells@.take(i as int) =~= self.cells@);
        }
        filled
    }
}

/// What one camera contributed.
#[derive(Debug, Clone)]
pub struct CameraTrail {
    pub camera: String,
    /// Frame size the pixels refer to.
    pub width: u32,
    pub height: u32,
    pub samples: Vec<Sample>,
    pub coverage: Coverage,
    /// Frames seen but not kept, and why.
    pub rejected_confidence: u64,
    pub rejected_stationary: u64,
    pub rejected_no_pose: u64,
    pub rejected_offscreen: u64,
}

/// A trail as mathematical values.
pub struct TrailModel {
    pub camera: Seq<char>,
    pub width: u32,
    pub height: u32,
    pub samples: Seq<Sample>,
    pub columns: int,
    pub rows: int,
    pub cells: Seq<u32>,
    pub rejected_confidence: int,
    pub rejected_stationary: int,
    pub rejected_no_pose: int,
    pub rejected_offscreen: int,
}

impl View for CameraTrail {
    type V = TrailModel;

    open spec fn view(&self) -> TrailModel {
        TrailModel {
            camera: self.camera@,
            width: self.width,
            height: self.height,
            samples: self.samples@,
            columns: self.coverage.columns as int,
            rows: self.coverage.rows as int,
            cells: self.coverage.cells@,
            rejected_confidence: self.rejected_confidence as int,
            rejected_stationary: self.rejected_stationary as int,
            rejected_no_pose: self.rejected_no_pose as int,
            rejected_offscreen: self.rejected_offscreen as int,
        }
    }
}

impl TrailModel {
    /// The trail with one more sample, counted toward the coverage map.
    pub open spec fn recorded(self, sample: Sample) -> TrailModel {
        TrailModel {
            samples: self.samples.push(sample),
            cells: counted(
                self.cells,
                self.columns,
                self.rows,
                sample.pixel,
                self.width,
                self.height,
            ),
            ..self
        }
    }
}

impl CameraTrail {
    /// Whether the coverage map is in order.
    pub open spec fn well_formed(self) -> bool {
        self.coverage.well_formed()
    }

    /// Whether every count can still go up by what one frame may add.
    pub open spec fn roomy(self) -> bool {
        &&& self.coverage.roomy()
        &&& self.rejected_confidence <= u64::MAX - 3
        &&& self.rejected_stationary <= u64::MAX - 3
        &&& self.rejected_no_pose <= u64::MAX - 3
        &&& self.rejected_offscreen <= u64::MAX - 3
    }

    /// A trail with nothing in it.
    pub fn new(camera: String) -> (trail: Self)
        ensures
            trail.well_formed(),
            trail@ == (TrailModel {
                camera: camera@,
                width: 0,
                height: 0,
                samples: Seq::empty(),
                columns: 8,
                rows: 6,
                cells: Seq::new(48, |i: int| 0u32),
                rejected_confidence: 0,
                rejected_stationary: 0,
                rejected_no_pose: 0,
                rejected_offscreen: 0,
            }),
    {
        CameraTrail {
            camera,
            width: 0,
            height: 0,
            samples: Vec::new(),
            coverage: Coverage::new(),
            rejected_confidence: 0,
            rejected_stationary: 0,
            rejected_no_pose: 0,
            rejected_offscreen: 0,
        }
    }

    /// Adds a sample and counts it toward the coverage map.
    pub fn record(&mut self, sample: Sample)
        requires
            old(self).well_formed(),
            old(self).coverage.roomy(),
        ensures
            final(self).well_formed(),
            final(self)@ == old(self)@.recorded(sample),
    {
        self.coverage.record(sample.pixel, self.width, self.height);
        self.samples.push(sample);
    }

    /// How many samples are of one rig.
    pub fn samples_for(&self, rig: usize) -> (count: usize)
        ensures
            count == self.samples@.filter(|sample: Sample| sample.rig == rig).len(),
    {
        let ghost wanted = |sample: Sample| sample.rig == rig;
        let mut count: usize = 0;
        let mut i: usize = 0;
        proof {
            assert(self.samples@.take(0).filter(wanted).len() == 0) by {
                reveal(Seq::filter);
            }
        }
        while i < self.samples.len()
            invariant
                i <= self.samples.len(),
                count <= i,
                wanted == (|sample: Sample| sample.rig == rig),
                count == self.samples@.take(i as int).filter(wanted).len(),
            decreases self.samples.len() - i,
        {
            proof {
                lemma_filter_step(self.samples@, wanted, i as int);
            }
            if self.samples[i].rig == rig {
                count = count + 1;
            }
            i = i + 1;
        }
        proof {
            assert(self.samples@.take(i as int) =~= self.samples@);
        }
        count
    }
}

/// Where a device was and which way it was turned.
#[derive(Debug, Clone, Copy, PartialEq, Eq, Structural)]
pub struct DevicePose {
    pub position: Point3,
    /// The scalar part of the rotation.
    pub turn: Scalar,
    /// The vector part of the rotation.
    pub axis: Point3,
}

/// A pose and when it was sampled.
#[derive(Debug, Clone, Copy, PartialEq, Eq, Structural)]
pub struct Stamped {
    pub at: Instant,
    pub pose: DevicePose,
}

/// Where a device went, in the order the poses came in.
#[derive(Debug, Clone)]
pub struct Track {
    pub poses: Vec<Stamped>,
}

/// Whether a track has a pose on both sides of an instant.
pub open spec fn covers(poses: Seq<Stamped>, at: Instant) -> bool {
    poses.len() > 0 && poses.first().at.nanos <= at.nanos <= poses.last().at.nanos
}

/// How much time a track spans, in nanoseconds.
pub open spec fn span_of(poses: Seq<Stamped>) -> int {
    if poses.len() == 0 {
        0
    } else {
        since(poses.last().at, poses.first().at)
    }
}

impl View for Track {
    type V = Seq<Stamped>;

    open spec fn view(&self) -> Seq<Stamped> {
        self.poses@
    }
}

impl Track {
    /// A track with nothing in it.
    pub fn new() -> (track: Self)
        ensures
            track@ == Seq::<Stamped>::empty(),
    {
        Track { poses: Vec::new() }
    }

    /// Adds a pose.
    pub fn push(&mut self, at: Instant, pose: DevicePose)
        ensures
            final(self)@ == old(self)@.push(Stamped { at, pose }),
    {
        self.poses.push(Stamped { at, pose });
    }

    /// How many poses there are.
    pub fn len(&self) -> (len: usize)
        ensures
            len == self@.len(),
    {
        self.poses.len()
    }

    /// Whether there is a pose on both sides of an instant, so that the one at
    /// it can be interpolated.
    pub fn has(&self, at: Instant) -> (has: bool)
        ensures
            has == covers(self@, at),
    {
        let len: usize = self.poses.len();
        len > 0 && self.poses[0].at.nanos <= at.nanos && at.nanos <= self.poses[len - 1].at.nanos
    }

    /// How much time the track spans.
    pub fn span(&self) -> (span: Duration)
        ensures
            span.nanos == span_of(self@),
    {
        let len: usize = self.poses.len();
        if len == 0 {
            Duration::zero()
        } else {
            self.poses[len - 1].at.saturating_duration_since(self.poses[0].at)
        }
    }

    /// A second track with the same poses.
    pub fn copied(&self) -> (copy: Self)
        ensures
            copy@ == self@,
    {
        let mut poses: Vec<Stamped> = Vec::new();
        let mut i: usize = 0;
        while i < self.poses.len()
            invariant
                i <= self.poses.len(),
                poses@ == self.poses@.take(i as int),
            decreases self.poses.len() - i,
        {
            poses.push(self.poses[i]);
            assert(poses@ =~= self.poses@.take(i + 1));
            i = i + 1;
        }
        assert(poses@ =~= self.poses@);
        Track { poses }
    }
}

/// Everything a walk produced.
#[derive(Debug, Clone)]
pub struct Recording {
    /// The rigs that were actually seen, in the order sightings index them.
    pub rigs: Vec<Rig>,
    /// One track per rig, in the same order.
    pub tracks: Vec<Track>,
    pub cameras: Vec<CameraTrail>,
    pub duration: Duration,
}

/// How many samples the first `n` trails hold.
pub open spec fn total_samples(trails: Seq<CameraTrail>, n: nat) -> nat
    decreases n,
{
    if n == 0 {
        0
    } else {
        total_samples(trails, (n - 1) as nat) + trails[n - 1].samples@.len()
    }
}

proof fn lemma_totals_increase(trails: Seq<CameraTrail>, n: nat, more: nat)
    requires
        n <= more,
    ensures
        total_samples(trails, n) <= total_samples(trails, more),
    decreases more,
{
    if n < more {
        lemma_totals_increase(trails, n, (more - 1) as nat);
    }
}

impl Recording {
    /// How many samples there are.
    pub fn samples(&self) -> (count: usize)
        requires
            total_samples(self.cameras@, self.cameras@.len()) <= usize::MAX,
        ensures
            count == total_samples(self.cameras@, self.cameras@.len()),
    {
        let mut count: usize = 0;
        let mut i: usize = 0;
        while i < self.cameras.len()
            invariant
                i <= self.cameras.len(),
                total_samples(self.cameras@, self.cameras@.len()) <= usize::MAX,
                count == total_samples(self.cameras@, i as nat),
            decreases self.cameras.len() - i,
        {
            proof {
                lemma_totals_increase(self.cameras@, (i + 1) as nat, self.cameras@.len());
            }
            count = count + self.cameras[i].samples.len();
            i = i + 1;
        }
        count
    }

    /// The trail of a camera.
    pub fn trail(&self, camera: &String) -> (trail: Option<&CameraTrail>)
        ensures
            ({
                let at = first_where(self.cameras@, |trail: CameraTrail| trail.camera@ == camera@);
                match trail {
                    Some(trail) => at < self.cameras@.len() && *trail == self.cameras@[at],
                    None => at == self.cameras@.len(),
                }
            }),
    {
        let ghost wanted = |trail: CameraTrail| trail.camera@ == camera@;
        let mut i: usize = 0;
        while i < self.cameras.len()
            invariant
                i <= self.cameras.len(),
                wanted == (|trail: CameraTrail| trail.camera@ == camera@),
                forall|k: int| 0 <= k < i ==> !wanted(#[trigger] self.cameras@[k]),
            decreases self.cameras.len() - i,
        {
            if self.cameras[i].camera == *camera {
                proof {
                    lemma_first_where_is(self.cameras@, wanted, i as int);
                }
                return Some(&self.cameras[i]);
            }
            i = i + 1;
        }
        proof {
            lemma_first_where_is(self.cameras@, wanted, i as int);
        }
        None
    }
}

/// How often a camera that saw a person also had a foot of theirs in shot.
#[derive(Debug, Clone, Copy, PartialEq, Eq, Structural)]
pub struct Feet {
    pub last_seq: Option<u64>,
    /// Frames with a person in them.
    pub frames: u64,
    /// Those with a foot in them.
    pub seen: u64,
}

/// Whether one of the first `n` joints that touch the ground is in a frame.
pub open spec fn grounded(keypoints: Seq<Option<Keypoint>>, n: nat) -> bool {
    exists|i: int| 0 <= i < n && keypoints[(#[trigger] GROUNDED@[i]).place()] is Some
}

impl Default for Feet {
    fn default() -> (feet: Self)
        ensures
            feet == (Feet { last_seq: None, frames: 0, seen: 0 }),
    {
        Feet { last_seq: None, frames: 0, seen: 0 }
    }
}

impl Feet {
    /// No more frames have a foot in them than have a person.
    pub open spec fn well_formed(self) -> bool {
        self.seen <= self.frames
    }

    /// The counts once a frame was looked at. Each frame counts once, and one with
    /// nobody in it does not.
    pub open spec fn looked(self, frame: PoseFrame) -> Feet {
        if self.last_seq == Some(frame.seq) || present(frame.keypoints@) == 0 {
            self
        } else {
            Feet {
                last_seq: Some(frame.seq),
                frames: (self.frames + 1) as u64,
                seen: if grounded(frame.keypoints@, 4) {
                    (self.seen + 1) as u64
                } else {
                    self.seen
                },
            }
        }
    }

    /// Looks at a frame.
    pub fn look(&mut self, frame: &PoseFrame)
        requires
            old(self).well_formed(),
            old(self).frames < u64::MAX,
        ensures
            final(self).well_formed(),
            *final(self) == old(self).looked(*frame),
    {
        if let Some(seq) = self.last_seq {
            if seq == frame.seq {
                return;
            }
        }
        if frame.keypoints.is_empty() {
            return;
        }
        let mut foot: bool = false;
        let mut i: usize = 0;
        while i < 4
            invariant
                i <= 4,
                foot == grounded(frame.keypoints@, i as nat),
            decreases 4 - i,
        {
            if frame.keypoints.get(GROUNDED[i]).is_some() {
                foot = true;
                assert(frame.keypoints@[GROUNDED@[i as int].place()] is Some);
            }
            i = i + 1;
        }
        self.last_seq = Some(frame.seq);
        self.frames = self.frames + 1;
        if foot {
            self.seen = self.seen + 1;
        }
    }
}

/// A pixel is inside a frame exactly if it lies at or past its left and top edges and
/// before its right and bottom ones.
pub proof fn a_pixel_is_inside_between_the_edges(
    pixel: Point2,
    width: u32,
    height: u32,
    right: Scalar,
    bottom: Scalar,
)
    requires
        !right.nan() && right.units() == width * pow2(UNIT_EXPONENT as nat),
        !bottom.nan() && bottom.units() == height * pow2(UNIT_EXPONENT as nat),
    ensures
        inside(pixel, width, height) <==> Scalar::of(0).at_most(pixel.x) && pixel.x.less(right)
            && Scalar::of(0).at_most(pixel.y) && pixel.y.less(bottom),
{
    assert(Scalar::of(0).units() == 0);
}

/// A position falls into the part of a side that it lies in: past as many parts as
/// came before, and short of the next.
pub proof fn a_part_is_where_the_position_lies(value: Scalar, side: u32, parts: int)
    requires
        side > 0,
        parts >= 0,
    ensures
        ({
            let part = part_of(value, side, parts);
            let unit = pow2(UNIT_EXPONENT as nat);
            part * side * unit <= value.units() * parts < (part + 1) * side * unit
        }),
{
    let unit = pow2(UNIT_EXPONENT as nat) as int;
    lemma_pow2_pos(UNIT_EXPONENT as nat);
    let all = value.units() * parts;
    let s = side as int;
    let part = part_of(value, side, parts);
    let whole = all / unit;
    vstd::arithmetic::div_mod::lemma_fundamental_div_mod(all, unit);
    vstd::arithmetic::div_mod::lemma_mod_bound(all, unit);
    vstd::arithmetic::div_mod::lemma_fundamental_div_mod(whole, s);
    vstd::arithmetic::div_mod::lemma_mod_bound(whole, s);
    assert(part * s <= whole && whole + 1 <= (part + 1) * s) by (nonlinear_arith)
        requires
            whole == s * part + whole % s,
            0 <= whole % s < s,
    ;
    assert(part * s * unit <= whole * unit && (whole + 1) * unit <= (part + 1) * s * unit)
        by (nonlinear_arith)
        requires
            part * s <= whole,
            whole + 1 <= (part + 1) * s,
            unit > 0,
    ;
    assert(whole * unit <= all && all < (whole + 1) * unit) by (nonlinear_arith)
        requires
            all == unit * whole + all % unit,
            0 <= all % unit < unit,
    ;
}

/// A pixel inside the frame counts once, in the cell of its row and column, and one
/// outside counts nowhere.
pub proof fn a_pixel_counts_in_its_own_cell(
    cells: Seq<u32>,
    columns: int,
    rows: int,
    pixel: Point2,
    width: u32,
    height: u32,
    i: int,
)
    requires
        0 <= i < cells.len(),
        cells[i] < u32::MAX,
        inside(pixel, width, height) ==> 0 <= part_of(pixel.y, height, rows) * columns + part_of(
            pixel.x,
            width,
            columns,
        ) < cells.len(),
    ensures
        ({
            let after = counted(cells, columns, rows, pixel, width, height);
            let cell = part_of(pixel.y, height, rows) * columns + part_of(pixel.x, width, columns);
            &&& after.len() == cells.len()
            &&& inside(pixel, width, height) && i == cell ==> after[i] == cells[i] + 1
            &&& !inside(pixel, width, height) || i != cell ==> after[i] == cells[i]
        }),
{
}

/// A sample that is recorded joins the others as it is and counts toward the coverage;
/// nothing else of the trail changes.
pub proof fn a_recorded_sample_joins_the_others(trail: TrailModel, sample: Sample)
    ensures
        ({
            let after = trail.recorded(sample);
            &&& after.samples.len() == trail.samples.len() + 1
            &&& after.samples[trail.samples.len() as int] == sample
            &&& forall|i: int|
                0 <= i < trail.samples.len() ==> #[trigger] after.samples[i] == trail.samples[i]
            &&& after.cells == counted(
                trail.cells,
                trail.columns,
                trail.rows,
                sample.pixel,
                trail.width,
                trail.height,
            )
            &&& after.camera == trail.camera
            &&& after.width == trail.width && after.height == trail.height
            &&& after.columns == trail.columns && after.rows == trail.rows
            &&& after.rejected_confidence == trail.rejected_confidence
            &&& after.rejected_stationary == trail.rejected_stationary
            &&& after.rejected_no_pose == trail.rejected_no_pose
            &&& after.rejected_offscreen == trail.rejected_offscreen
        }),
{
}

/// A track covers an instant exactly if it has a pose no later and a pose no earlier
/// than it, the first and the last; it spans the time between those two.
pub proof fn a_track_covers_what_lies_between_its_poses(poses: Seq<Stamped>, at: Instant)
    requires
        poses.len() > 0,
        poses[0].at.nanos <= poses[poses.len() - 1].at.nanos,
    ensures
        covers(poses, at) <==> poses[0].at.nanos <= at.nanos <= poses[poses.len() - 1].at.nanos,
        span_of(poses) == poses[poses.len() - 1].at.nanos - poses[0].at.nanos,
        !covers(Seq::<Stamped>::empty(), at),
{
}

/// The samples of a recording are those of all its trails together.
pub proof fn every_trail_counts_toward_the_total(trails: Seq<CameraTrail>, n: nat, i: int)
    requires
        0 <= i < n <= trails.len(),
    ensures
        total_samples(trails, n) >= trails[i].samples@.len(),
        total_samples(trails, n) == total_samples(trails, (n - 1) as nat) + trails[n
            - 1].samples@.len(),
        total_samples(trails, 0) == 0,
    decreases n,
{
    if i < n - 1 {
        every_trail_counts_toward_the_total(trails, (n - 1) as nat, i);
    }
}

/// The headset is stood in for by the head, and by the nose where there is no head;
/// a controller by the wrist that holds it; anything else by nothing.
pub proof fn a_device_is_stood_in_for_by_what_wears_it()
    ensures
        stand_ins(Role::Head).len() == 2,
        stand_ins(Role::Head)[0] == Joint::Head,
        stand_ins(Role::Head)[1] == Joint::Nose,
        stand_ins(Role::LeftHand).len() == 1,
        stand_ins(Role::LeftHand)[0] == Joint::LeftWrist,
        stand_ins(Role::RightHand).len() == 1,
        stand_ins(Role::RightHand)[0] == Joint::RightWrist,
        stand_ins(Role::Other).len() == 0,
{
}

/// A frame with somebody in it counts once, and as one with the feet in shot exactly
/// if a heel or a big toe is; any other frame does not count.
pub proof fn a_frame_counts_once_and_by_its_feet(feet: Feet, frame: PoseFrame)
    requires
        feet.frames < u64::MAX,
        feet.seen <= feet.frames,
    ensures
        ({
            let after = feet.looked(frame);
            let counts = feet.last_seq != Some(frame.seq) && present(frame.keypoints@) > 0;
            let shown = frame.keypoints@[Joint::LeftHeel.place()] is Some
                || frame.keypoints@[Joint::RightHeel.place()] is Some
                || frame.keypoints@[Joint::LeftBigToe.place()] is Some
                || frame.keypoints@[Joint::RightBigToe.place()] is Some;
            &&& !counts ==> after == feet
            &&& counts ==> after.last_seq == Some(frame.seq) && after.frames == feet.frames + 1
            &&& counts && shown ==> after.seen == feet.seen + 1
            &&& counts && !shown ==> after.seen == feet.seen
            &&& feet.looked(frame).looked(frame) == feet.looked(frame)
        }),
{
    let keypoints = frame.keypoints@;
    assert(GROUNDED@[0] == Joint::LeftHeel);
    assert(GROUNDED@[1] == Joint::RightHeel);
    assert(GROUNDED@[2] == Joint::LeftBigToe);
    assert(GROUNDED@[3] == Joint::RightBigToe);
    assert(grounded(keypoints, 4) <==> keypoints[GROUNDED@[0].place()] is Some
        || keypoints[GROUNDED@[1].place()] is Some || keypoints[GROUNDED@[2].place()] is Some
        || keypoints[GROUNDED@[3].place()] is Some);
}

/// A cell is filled by three sightings. A headset that was followed for ten seconds should
/// have turned by three twentieths.
pub proof fn what_a_recording_takes()
    ensures
        ENOUGH == 3,
        LONG_ENOUGH == 10_000_000_000,
        TURNED_ENOUGH == 0x3fc3_3333_3333_3333,
        Coverage::COLUMNS == 8,
        Coverage::ROWS == 6,
{
}

} // verus!
