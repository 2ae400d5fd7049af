//! Joint refinement of every camera at once.
//!
//! One Levenberg-Marquardt solve over every camera's intrinsics, distortion and
//! pose together, with the constant offset between a device and the keypoint
//! that stands in for it shared across all of them. Where each parameter stands,
//! when the descent goes on or stops, and which sightings it keeps is decided
//! here; the steps themselves are computed by the application.

use vstd::prelude::*;

use crate::list::{increasing, lemma_filter_step, lemma_grown};
use crate::order::{pick_ranked, places, ranked};
use crate::scalar::Scalar;

verus! {

/// 0.02
const HUBER: u64 = 0x3f94_7ae1_47ae_147b;

/// 5.0
const REJECT: u64 = 0x4014_0000_0000_0000;

/// 1e-6
const TOLERANCE: u64 = 0x3eb0_c6f7_a0b5_ed8d;

/// 0.25
const MAX_OFFSET: u64 = 0x3fd0_0000_0000_0000;

/// How often one iteration tries a step before it gives up.
pub const ATTEMPTS: usize = 8;

/// What is solved for, and how.
#[derive(Debug, Clone, Copy, PartialEq, Eq, Structural)]
pub struct RefineOptions {
    pub iterations: usize,
    pub free_intrinsics: bool,
    pub free_distortion: bool,
    pub free_extrinsics: bool,
    pub free_offsets: bool,
    /// Angular residual past which a sighting is progressively discounted, in
    /// radians.
    pub huber: Scalar,
    /// Multiple of the median residual past which a sighting is discarded
    /// before the final fit.
    pub reject: Scalar,
    /// Stop once an iteration improves the cost by less than this fraction.
    pub tolerance: Scalar,
    /// Furthest a keypoint may sit from the device it was matched to, in
    /// metres.
    pub max_offset: Scalar,
}

impl Default for RefineOptions {
    fn default() -> (options: Self)
        ensures
            options.iterations == 60,
            options.free_intrinsics,
            options.free_distortion,
            options.free_extrinsics,
            options.free_offsets,
            options.huber.bits == 0x3f94_7ae1_47ae_147b,
            options.reject.bits == 0x4014_0000_0000_0000,
            options.tolerance.bits == 0x3eb0_c6f7_a0b5_ed8d,
            options.max_offset.bits == 0x3fd0_0000_0000_0000,
    {
        RefineOptions {
            iterations: 60,
            free_intrinsics: true,
            free_distortion: true,
            free_extrinsics: true,
            free_offsets: true,
            huber: Scalar::from_bits(HUBER),
            reject: Scalar::from_bits(REJECT),
            tolerance: Scalar::from_bits(TOLERANCE),
            max_offset: Scalar::from_bits(MAX_OFFSET),
        }
    }
}

/// Which parameters are free, and where each one sits in the vector.
#[derive(Debug, Clone, Copy, PartialEq, Eq, Structural)]
pub struct Layout {
    pub intrinsics: bool,
    pub distortion: bool,
    pub extrinsics: bool,
    pub offsets: bool,
    pub per_camera: usize,
    pub cameras: usize,
    pub rigs: usize,
}

/// Where one camera's parameters sit in the vector.
#[derive(Debug, Clone, Copy, PartialEq, Eq, Structural)]
pub struct Slots {
    /// The first of the focal lengths and the principal point.
    pub intrinsics: Option<usize>,
    /// The first of the lens parameters.
    pub distortion: Option<usize>,
    /// The first of the turn and the shift.
    pub extrinsics: Option<usize>,
    /// One past the last.
    pub end: usize,
}

/// How many parameters a free group of `size` has.
pub open spec fn group(free: bool, size: int) -> int {
    if free {
        size
    } else {
        0
    }
}

impl Layout {
    /// Whether the count per camera is that of its free groups.
    pub open spec fn well_formed(self) -> bool {
        self.per_camera == group(self.intrinsics, 4) + group(self.distortion, 4) + group(
            self.extrinsics,
            6,
        )
    }

    /// How many parameters there are.
    pub open spec fn size(self) -> int {
        self.cameras * self.per_camera + group(self.offsets, 3 * self.rigs)
    }

    /// Where a camera's parameters begin.
    pub open spec fn camera_start(self, camera: int) -> int {
        camera * self.per_camera
    }

    /// Where a rig's offset begins.
    pub open spec fn offset_start(self, rig: int) -> int {
        self.cameras * self.per_camera + 3 * rig
    }

    /// The layout of a solve.
    pub fn new(options: &RefineOptions, cameras: usize, rigs: usize) -> (layout: Self)
        ensures
            layout.well_formed(),
            layout.intrinsics == options.free_intrinsics,
            layout.distortion == options.free_distortion,
            layout.extrinsics == options.free_extrinsics,
            layout.offsets == options.free_offsets,
            layout.cameras == cameras,
            layout.rigs == rigs,
    {
        let intrinsics: usize = if options.free_intrinsics {
            4
        } else {
            0
        };
        let distortion: usize = if options.free_distortion {
            4
        } else {
            0
        };
        let extrinsics: usize = if options.free_extrinsics {
            6
        } else {
            0
        };
        Layout {
            intrinsics: options.free_intrinsics,
            distortion: options.free_distortion,
            extrinsics: options.free_extrinsics,
            offsets: options.free_offsets,
            per_camera: intrinsics + distortion + extrinsics,
            cameras,
            rigs,
        }
    }

    /// How many parameters there are.
    pub fn total(&self) -> (total: usize)
        requires
            self.cameras * self.per_camera + 3 * self.rigs <= usize::MAX,
        ensures
            total == self.size(),
    {
        proof {
            assert(self.cameras * self.per_camera >= 0) by (nonlinear_arith)
                requires
                    self.cameras >= 0,
                    self.per_camera >= 0,
            ;
        }
        self.cameras * self.per_camera + if self.offsets {
            3 * self.rigs
        } else {
            0
        }
    }

    /// Where a camera's parameters begin.
    pub fn camera_base(&self, camera: usize) -> (base: usize)
        requires
            camera * self.per_camera <= usize::MAX,
        ensures
            base == self.camera_start(camera as int),
    {
        camera * self.per_camera
    }

    /// Where a rig's offset begins.
    pub fn offset_base(&self, rig: usize) -> (base: usize)
        requires
            self.cameras * self.per_camera + 3 * rig <= usize::MAX,
        ensures
            base == self.offset_start(rig as int),
    {
        proof {
            assert(self.cameras * self.per_camera >= 0) by (nonlinear_arith)
                requires
                    self.cameras >= 0,
                    self.per_camera >= 0,
            ;
        }
        self.cameras * self.per_camera + 3 * rig
    }

    /// Where each group of a camera's parameters sits.
    pub fn slots(&self, camera: usize) -> (slots: Slots)
        requires
            self.well_formed(),
            camera < self.cameras,
            self.cameras * self.per_camera <= usize::MAX,
        ensures
            ({
                let base = self.camera_start(camera as int);
                let lens = base + group(self.intrinsics, 4);
                let pose = lens + group(self.distortion, 4);
                &&& slots.intrinsics == if self.intrinsics {
                    Some(base as usize)
                } else {
                    None
                }
                &&& slots.distortion == if self.distortion {
                    Some(lens as usize)
                } else {
                    None
                }
                &&& slots.extrinsics == if self.extrinsics {
                    Some(pose as usize)
                } else {
                    None
                }
                &&& slots.end == base + self.per_camera
            }),
    {
        proof {
            assert(camera * self.per_camera + self.per_camera <= self.cameras * self.per_camera
                && camera * self.per_camera >= 0) by (nonlinear_arith)
                requires
                    0 <= camera < self.cameras,
                    self.per_camera >= 0,
            ;
        }
        let mut at: usize = camera * self.per_camera;
        let mut slots = Slots { intrinsics: None, distortion: None, extrinsics: None, end: at };
        if self.intrinsics {
            slots.intrinsics = Some(at);
            at = at + 4;
        }
        if self.distortion {
            slots.distortion = Some(at);
            at = at + 4;
        }
        if self.extrinsics {
            slots.extrinsics = Some(at);
            at = at + 6;
        }
        slots.end = at;
        slots
    }
}

/// No two blocks of parameters overlap and none is left out: each camera's block
/// ends where the next begins, the last one where the offsets begin, each offset
/// where the next begins, and the last of all where the vector ends.
pub proof fn the_blocks_tile_the_vector(layout: Layout, camera: int, rig: int)
    requires
        0 <= camera < layout.cameras,
        0 <= rig < layout.rigs,
    ensures
        layout.camera_start(0) == 0,
        layout.camera_start(camera) + layout.per_camera == layout.camera_start(camera + 1),
        layout.camera_start(layout.cameras as int) == layout.offset_start(0),
        layout.offset_start(rig) + 3 == layout.offset_start(rig + 1),
        layout.offsets ==> layout.offset_start(layout.rigs as int) == layout.size(),
        !layout.offsets ==> layout.camera_start(layout.cameras as int) == layout.size(),
{
    assert(camera * layout.per_camera + layout.per_camera == (camera + 1) * layout.per_camera)
        by (nonlinear_arith);
    assert(0 * layout.per_camera == 0);
}

/// What the descent needs next.
#[derive(Debug, Clone, Copy, PartialEq, Eq, Structural)]
pub enum Task {
    /// The residuals differentiated at the current state.
    Linearise,
    /// A step tried from the current state.
    Attempt,
    /// Nothing more.
    Stop,
}

/// What came of a step.
#[derive(Debug, Clone, Copy, PartialEq, Eq, Structural)]
pub enum Outcome {
    /// The damped system could not be solved.
    Singular,
    /// The step did not lower the cost.
    Worse,
    /// The step lowered the cost, by this fraction of it.
    Better(Scalar),
}

/// How far a descent has come.
#[derive(Debug, Clone, Copy, PartialEq, Eq, Structural)]
pub struct Descent {
    pub iterations: usize,
    /// Steps this iteration has tried in vain.
    pub attempts: usize,
    /// Whether the last step hardly improved anything.
    pub converged: bool,
    pub task: Task,
}

/// Whether there are sightings enough to fit the parameters to. Each gives two
/// equations.
pub open spec fn determined(parameters: int, sightings: int) -> bool {
    parameters > 0 && sightings * 2 >= parameters
}

impl Descent {
    /// Whether the counts are within their bounds.
    pub open spec fn well_formed(self, options: RefineOptions) -> bool {
        &&& self.iterations <= options.iterations
        &&& self.attempts <= ATTEMPTS
        &&& self.task is Attempt ==> self.attempts < ATTEMPTS
        &&& !(self.task is Stop) ==> self.iterations > 0 && !self.converged
    }

    /// A descent about to start, if there is anything to fit.
    pub fn begin(parameters: usize, sightings: usize, options: &RefineOptions) -> (descent: Self)
        ensures
            descent.well_formed(*options),
            descent == if determined(parameters as int, sightings as int) && options.iterations
                > 0 {
                Descent { iterations: 1, attempts: 0, converged: false, task: Task::Linearise }
            } else {
                Descent { iterations: 0, attempts: 0, converged: false, task: Task::Stop }
            },
    {
        if parameters == 0 || (sightings as u128) * 2 < parameters as u128 || options.iterations
            == 0 {
            Descent { iterations: 0, attempts: 0, converged: false, task: Task::Stop }
        } else {
            Descent { iterations: 1, attempts: 0, converged: false, task: Task::Linearise }
        }
    }

    /// Takes note that the residuals were differentiated.
    pub fn linearised(&mut self, options: &RefineOptions)
        requires
            old(self).well_formed(*options),
            old(self).task == Task::Linearise,
        ensures
            final(self).well_formed(*options),
            *final(self) == (Descent { attempts: 0, task: Task::Attempt, ..*old(self) }),
    {
        self.attempts = 0;
        self.task = Task::Attempt;
    }

    /// What a step's outcome leads to.
    pub open spec fn after(self, outcome: Outcome, options: RefineOptions) -> Descent {
        match outcome {
            Outcome::Better(improvement) => {
                let converged = improvement.less(options.tolerance);
                if converged || self.iterations >= options.iterations {
                    Descent { converged, task: Task::Stop, ..self }
                } else {
                    Descent {
                        iterations: (self.iterations + 1) as usize,
                        converged,
                        task: Task::Linearise,
                        ..self
                    }
                }
            },
            _ => Descent {
                attempts: (self.attempts + 1) as usize,
                task: if self.attempts + 1 >= ATTEMPTS {
                    Task::Stop
                } else {
                    Task::Attempt
                },
                ..self
            },
        }
    }

    /// Takes note of a step's outcome. A step that helps ends the iteration; one
    /// that does not is tried again, shorter, until the iteration gives up and
    /// with it the descent.
    pub fn attempted(&mut self, outcome: Outcome, options: &RefineOptions)
        requires
            old(self).well_formed(*options),
            old(self).task == Task::Attempt,
        ensures
            final(self).well_formed(*options),
            *final(self) == old(self).after(outcome, *options),
    {
        match outcome {
            Outcome::Better(improvement) => {
                self.converged = improvement.lt(options.tolerance);
                if self.converged || self.iterations >= options.iterations {
                    self.task = Task::Stop;
                } else {
                    self.iterations = self.iterations + 1;
                    self.task = Task::Linearise;
                }
            },
            _ => {
                self.attempts = self.attempts + 1;
                self.task = if self.attempts >= ATTEMPTS {
                    Task::Stop
                } else {
                    Task::Attempt
                };
            },
        }
    }

    /// How many tasks are left at most.
    pub open spec fn left(self, options: RefineOptions) -> int {
        let rounds = (options.iterations - self.iterations) * (ATTEMPTS + 1);
        match self.task {
            Task::Linearise => rounds + ATTEMPTS + 1,
            Task::Attempt => rounds + ATTEMPTS - self.attempts,
            Task::Stop => 0,
        }
    }
}

/// Every outcome brings the descent nearer to its end, so it ends.
pub proof fn a_descent_ends(descent: Descent, outcome: Outcome, options: RefineOptions)
    requires
        descent.well_formed(options),
        !(descent.task is Stop),
    ensures
        descent.left(options) > 0,
        descent.task is Linearise ==> (Descent {
            attempts: 0,
            task: Task::Attempt,
            ..descent
        }).left(options) < descent.left(options),
        descent.task is Attempt ==> 0 <= descent.after(outcome, options).left(options)
            < descent.left(options),
{
    let n = (options.iterations - descent.iterations) as int;
    assert(n * 9 >= 0 && (n - 1) * 9 == n * 9 - 9) by (nonlinear_arith)
        requires
            n >= 0,
    ;
}

/// The typical size of a residual, if there is any.
pub fn typical(magnitudes: &Vec<Scalar>) -> (median: Option<Scalar>)
    ensures
        median == if magnitudes@.len() == 0 {
            None
        } else {
            Some(ranked(magnitudes@, magnitudes@.len() as int / 2))
        },
{
    if magnitudes.len() == 0 {
        return None;
    }
    Some(pick_ranked(magnitudes, magnitudes.len() / 2))
}

/// The sightings among the first `n` whose residual is within a threshold.
pub open spec fn within(magnitudes: Seq<Scalar>, threshold: Scalar, n: nat) -> Seq<int>
    decreases n,
{
    if n == 0 {
        Seq::empty()
    } else {
        let before = within(magnitudes, threshold, (n - 1) as nat);
        if magnitudes[n - 1].at_most(threshold) {
            before.push(n - 1)
        } else {
            before
        }
    }
}

/// The sightings a fitted state explains well enough to keep.
///
/// The threshold is relative to how well the walk fits overall, so a camera in a
/// dim corner with noisier keypoints is not thrown away wholesale, with an
/// absolute floor so that a near-perfect fit does not reject its own rounding
/// error.
pub fn accepted(magnitudes: &Vec<Scalar>, threshold: Scalar) -> (survivors: Vec<usize>)
    ensures
        places(survivors@) == within(magnitudes@, threshold, magnitudes@.len()),
        survivors@.len() <= magnitudes@.len(),
{
    let mut survivors: Vec<usize> = Vec::new();
    let mut i: usize = 0;
    proof {
        assert(places(survivors@) =~= Seq::empty());
    }
    while i < magnitudes.len()
        invariant
            i <= magnitudes.len(),
            survivors@.len() <= i,
            places(survivors@) == within(magnitudes@, threshold, i as nat),
        decreases magnitudes.len() - i,
    {
        let ghost before = survivors@;
        if magnitudes[i].le(threshold) {
            survivors.push(i);
            assert(places(survivors@) =~= places(before).push(i as int));
        }
        i = i + 1;
    }
    survivors
}

/// Whether to fit once more without the sightings that were left behind: some
/// were, and those that are left are enough.
///
/// The first fit's answer was shaped by the very sightings being discarded, so
/// the second restarts from the original guess.
pub fn fits_again(sightings: usize, survivors: usize, parameters: usize) -> (again: bool)
    requires
        survivors <= sightings,
    ensures
        again == (survivors < sightings && survivors * 2 >= parameters),
{
    survivors < sightings && survivors as u128 * 2 >= parameters as u128
}

/// How many sightings the fit that counts was made with: those that are left,
/// where they are enough to fit again with, and all of them otherwise.
pub fn kept(sightings: usize, survivors: usize, parameters: usize) -> (kept: usize)
    requires
        survivors <= sightings,
    ensures
        kept == if survivors * 2 >= parameters {
            survivors
        } else {
            sightings
        },
{
    if survivors as u128 * 2 >= parameters as u128 {
        survivors
    } else {
        sightings
    }
}

/// Whether a sighting is of this camera.
pub open spec fn seen_by(camera: int) -> spec_fn(usize) -> bool {
    |seen: usize| seen == camera
}

/// How many sightings each camera has.
pub fn sightings_per_camera(cameras_of: &Vec<usize>, cameras: usize) -> (counts: Vec<usize>)
    ensures
        counts@.len() == cameras,
        forall|camera: int|
            0 <= camera < cameras ==> #[trigger] counts@[camera] == cameras_of@.filter(
                seen_by(camera),
            ).len(),
{
    let mut counts: Vec<usize> = Vec::new();
    while counts.len() < cameras
        invariant
            counts.len() <= cameras,
            forall|camera: int|
                0 <= camera < counts.len() ==> #[trigger] counts@[camera] == cameras_of@.filter(
                    seen_by(camera),
                ).len(),
        decreases cameras - counts.len(),
    {
        let camera: usize = counts.len();
        counts.push(count_of(cameras_of, camera));
    }
    counts
}

fn count_of(cameras_of: &Vec<usize>, camera: usize) -> (count: usize)
    ensures
        count == cameras_of@.filter(seen_by(camera as int)).len(),
{
    let ghost own = seen_by(camera as int);
    let mut count: usize = 0;
    let mut i: usize = 0;
    proof {
        assert(cameras_of@.take(0).filter(own).len() == 0) by {
            reveal(Seq::filter);
        }
    }
    while i < cameras_of.len()
        invariant
            i <= cameras_of.len(),
            count <= i,
            own == seen_by(camera as int),
            count == cameras_of@.take(i as int).filter(own).len(),
        decreases cameras_of.len() - i,
    {
        proof {
            lemma_filter_step(cameras_of@, own, i as int);
        }
        if cameras_of[i] == camera {
            count = count + 1;
        }
        i = i + 1;
    }
    proof {
        assert(cameras_of@.take(i as int) =~= cameras_of@);
    }
    count
}

/// The sightings that survive are exactly those within the cut, in order.
pub proof fn the_survivors_are_within_the_cut(magnitudes: Seq<Scalar>, threshold: Scalar, n: nat)
    requires
        n <= magnitudes.len(),
    ensures
        ({
            let found = within(magnitudes, threshold, n);
            &&& increasing(found)
            &&& forall|i: int| #[trigger]
                found.contains(i) <==> 0 <= i < n && magnitudes[i].at_most(threshold)
        }),
    decreases n,
{
    if n > 0 {
        the_survivors_are_within_the_cut(magnitudes, threshold, (n - 1) as nat);
        let before = within(magnitudes, threshold, (n - 1) as nat);
        let more = magnitudes[n - 1].at_most(threshold);
        lemma_grown(before, within(magnitudes, threshold, n), more, n - 1);
    }
}

/// A camera's parameters are its four intrinsics, its four of the lens and its six of
/// where it stands, each group only where it is free; after all the cameras come
/// three for the offset of each rig, if those are free.
pub proof fn every_free_parameter_has_its_place(layout: Layout, camera: int, rig: int)
    requires
        layout.well_formed(),
        layout.intrinsics && layout.distortion && layout.extrinsics && layout.offsets,
    ensures
        layout.per_camera == 14,
        layout.size() == 14 * layout.cameras + 3 * layout.rigs,
        layout.camera_start(camera) == 14 * camera,
        layout.offset_start(rig) == 14 * layout.cameras + 3 * rig,
{
    assert(layout.cameras * 14 == 14 * layout.cameras);
    assert(camera * 14 == 14 * camera);
}

/// A group that is held takes no place at all.
pub proof fn what_is_held_takes_no_place(layout: Layout)
    requires
        layout.well_formed(),
    ensures
        layout.per_camera == (if layout.intrinsics {
            4int
        } else {
            0
        }) + (if layout.distortion {
            4int
        } else {
            0
        }) + (if layout.extrinsics {
            6int
        } else {
            0
        }),
        !layout.offsets ==> layout.size() == layout.cameras * layout.per_camera,
        layout.offsets ==> layout.size() == layout.cameras * layout.per_camera + 3 * layout.rigs,
{
}

/// A descent is worth starting exactly if there is something to fit, and two numbers
/// of every sighting are enough to fit it.
pub proof fn a_fit_needs_as_many_numbers_as_it_has_parameters(parameters: int, sightings: int)
    ensures
        determined(parameters, sightings) <==> parameters > 0 && 2 * sightings >= parameters,
{
}

/// A step that makes the fit better is taken, and the fit is done once it hardly gets
/// better or has been tried often enough; a step that does not is tried again, more
/// carefully, eight times at most.
pub proof fn a_descent_goes_on_while_it_gets_better(
    descent: Descent,
    improvement: Scalar,
    outcome: Outcome,
    options: RefineOptions,
)
    requires
        descent.well_formed(options),
        descent.task is Attempt,
    ensures
        ({
            let after = descent.after(Outcome::Better(improvement), options);
            &&& after.converged <==> improvement.less(options.tolerance)
            &&& after.task is Stop <==> improvement.less(options.tolerance) || descent.iterations
                == options.iterations
            &&& !(after.task is Stop) ==> after.task is Linearise && after.iterations
                == descent.iterations + 1
            &&& after.task is Stop ==> after.iterations == descent.iterations
        }),
        !(outcome is Better) ==> ({
            let after = descent.after(outcome, options);
            &&& after.iterations == descent.iterations
            &&& after.converged == descent.converged
            &&& after.attempts == descent.attempts + 1
            &&& after.task is Stop <==> after.attempts >= 8
            &&& !(after.task is Stop) ==> after.task is Attempt
        }),
{
}

} // verus!
