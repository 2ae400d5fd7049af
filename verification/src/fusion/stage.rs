//! The fusion clock.
//!
//! One loop on a fixed clock runs every stage of this module in order: resample
//! each camera onto the tick, triangulate, measure the body, hold the body to
//! the measurement, filter, publish. What it decides on the way stands here.
//!
//! The clock deliberately runs behind real time. Interpolating a camera onto an
//! instant needs a frame *after* that instant, so the tick sits far enough back
//! that even the latest camera has already delivered the frame that follows it.
//! How far back that is is measured rather than configured, and a camera the
//! clock does not wait for is left out altogether: one that drops in and out of
//! ticks moves every joint it votes on by the calibration error each time.

use vstd::prelude::*;

use crate::calib::latency::{Estimate, PLAUSIBLE};
use crate::calib::solve::{a_camera_is_found_by_its_id, believed, calibrated_at, corrected, find_camera, CameraCalibration};
use crate::config::FusionConfig;
use crate::fusion::bones::{MeasureOptions, Skeleton, BONE_COUNT};
use crate::fusion::fuse::{FusedJoint, Pose3d};
use crate::list::{
    first_where, holds, increasing, lemma_filter_step, lemma_first_where, lemma_first_where_is,
    lemma_grown,
};
use crate::models::{all_joints_stand_at_their_index, Joint, JOINTS};
use crate::order::{comes_first, every_list_has_an_order, ints, order_of, places, stable_order};
use crate::scalar::Scalar;
use crate::text::{decimal, decimal_text};
use crate::time::{since, Duration, Instant, NANOS_PER_MILLI};

verus! {

/// How often the bone measurement is recomputed, in ticks.
///
/// It is a median over thousands of samples per bone, which is not free, and it
/// moves by fractions of a millimetre between ticks. Once a second is more
/// often than the body changes shape.
pub const REMEASURE_EVERY: u32 = 60;

/// How long an admission decision has to be wanted before it is taken, in
/// nanoseconds.
///
/// Long, because the decision is which cameras are reconstructing the body,
/// and changing it moves the body. A hiccup must not cost a camera.
pub const ADMISSION_DWELL: u64 = 2_000_000_000;

/// How much of every millisecond of the ceiling a camera that was left out may
/// use up and still come back, in nanoseconds.
pub const COMFORTABLE: u64 = 850_000;

/// Why a camera is not being waited for.
#[derive(Debug, Clone, Copy, PartialEq, Eq, Structural)]
pub struct Lateness {
    /// How far behind real time the camera delivers.
    pub need: Duration,
    /// How far behind real time the clock will ever sit, in milliseconds.
    pub ceiling_ms: u32,
}

impl Lateness {
    /// The reason as one line, given the delay in rounded milliseconds.
    pub open spec fn line(self, need_ms: u64) -> Seq<char> {
        "delivering "@ + decimal(need_ms as nat)
            + " ms behind real time, and the fusion clock waits at most "@ + decimal(
            self.ceiling_ms as nat,
        ) + " ms"@
    }

    /// The reason as one line, given the delay in rounded milliseconds.
    pub fn text(&self, need_ms: u64) -> (text: String)
        ensures
            text@ == self.line(need_ms),
    {
        let mut text = "delivering ".to_owned();
        text.append(decimal_text(need_ms).as_str());
        text.append(" ms behind real time, and the fusion clock waits at most ");
        text.append(decimal_text(self.ceiling_ms as u64).as_str());
        text.append(" ms");
        text
    }
}

/// A frame size.
#[derive(Debug, Clone, Copy, PartialEq, Eq, Structural)]
pub struct Size {
    pub width: u32,
    pub height: u32,
}

impl Size {
    /// Whether two sizes have the same shape, so that one is the other scaled.
    pub open spec fn shaped_like(self, other: Size) -> bool {
        self.width * other.height == self.height * other.width
    }
}

/// A camera running at a shape it was not calibrated at.
#[derive(Debug, Clone, Copy, PartialEq, Eq, Structural)]
pub struct Mismatch {
    pub running: Size,
    pub calibrated: Size,
}

impl Mismatch {
    /// The mismatch as one line.
    pub open spec fn line(self) -> Seq<char> {
        "running at "@ + decimal(self.running.width as nat) + "x"@ + decimal(
            self.running.height as nat,
        ) + ", calibrated at "@ + decimal(self.calibrated.width as nat) + "x"@ + decimal(
            self.calibrated.height as nat,
        )
    }

    /// The mismatch as one line.
    pub fn text(&self) -> (text: String)
        ensures
            text@ == self.line(),
    {
        let mut text = "running at ".to_owned();
        text.append(decimal_text(self.running.width as u64).as_str());
        text.append("x");
        text.append(decimal_text(self.running.height as u64).as_str());
        text.append(", calibrated at ");
        text.append(decimal_text(self.calibrated.width as u64).as_str());
        text.append("x");
        text.append(decimal_text(self.calibrated.height as u64).as_str());
        text
    }
}

/// One camera as the fusion loop sees it.
#[derive(Debug, Clone)]
pub struct Watched {
    pub id: String,
    /// When the newest frame the camera has delivered was taken, if it has
    /// delivered any.
    pub newest: Option<Instant>,
    /// The frame size its optics are expressed at.
    pub size: Size,
    /// How late its frames are stamped.
    pub latency: Duration,
    /// Worst recent staleness of this camera's newest frame. Rises at once and
    /// decays slowly, so the clock is set by what the camera does on a bad tick
    /// rather than on a lucky one.
    pub behind: Duration,
    /// Whether the fusion clock waits for this camera at all.
    pub admitted: bool,
    /// When the admission decision last started wanting to change.
    pub flipping: Option<Instant>,
    /// Set when this camera is too far behind to be waited for.
    pub lateness: Option<Lateness>,
    pub problem: Option<Mismatch>,
}

/// A sum of spans, or the longest span there is.
pub open spec fn capped(nanos: int) -> int {
    if nanos <= u64::MAX {
        nanos
    } else {
        u64::MAX as int
    }
}

impl Watched {
    /// How far back the clock has to sit for this camera to have a frame after
    /// the tick.
    pub open spec fn need(self, slack: Duration) -> int {
        capped(capped(self.latency.nanos + self.behind.nanos) + slack.nanos)
    }

    /// How far back the clock has to sit for this camera to have a frame after
    /// the tick: what its timestamps are early by, plus how stale its newest
    /// frame gets, plus the margin.
    pub fn wait(&self, slack: Duration) -> (wait: Duration)
        ensures
            wait.nanos == self.need(slack),
    {
        self.latency.saturating_add(self.behind).saturating_add(slack)
    }

    /// Adjusts the calibrated optics to the resolution the camera is actually
    /// running at, and says whether that could be done.
    ///
    /// Changing a camera's resolution does not change its lens, but the
    /// keypoints arrive in the new resolution's pixels. A different aspect ratio
    /// is a different field of view, not a different readout, and no scaling
    /// recovers it.
    pub fn match_resolution(&mut self, width: u32, height: u32) -> (usable: bool)
        ensures
            ({
                let running = Size { width, height };
                let (was, is) = (*old(self), *final(self));
                &&& usable == running.shaped_like(was.size)
                &&& is == (Watched {
                    size: if usable {
                        running
                    } else {
                        was.size
                    },
                    problem: if usable {
                        None
                    } else {
                        Some(Mismatch { running, calibrated: was.size })
                    },
                    ..was
                })
            }),
    {
        let running = Size { width, height };
        assert(self.size == running ==> running.shaped_like(self.size)) by (nonlinear_arith);
        if self.size.width == width && self.size.height == height {
            self.problem = None;
            return true;
        }
        proof {
            lemma_areas_fit(width, self.size.height);
            lemma_areas_fit(height, self.size.width);
        }
        if width as u64 * self.size.height as u64 == height as u64 * self.size.width as u64 {
            self.size = running;
            self.problem = None;
            true
        } else {
            self.problem = Some(Mismatch { running, calibrated: self.size });
            false
        }
    }
}

proof fn lemma_areas_fit(a: u32, b: u32)
    ensures
        a * b <= u64::MAX,
{
    assert(a * b <= u32::MAX * u32::MAX) by (nonlinear_arith)
        requires
            0 <= a <= u32::MAX,
            0 <= b <= u32::MAX,
    ;
}

/// How far back the clock has to sit for each camera.
pub open spec fn needs(watched: Seq<Watched>, slack: Duration) -> Seq<int> {
    watched.map_values(|camera: Watched| camera.need(slack))
}

/// Whether a camera is one of the two least late.
///
/// Triangulation needs two cameras, so those are waited for whatever they cost.
/// A late body beats no body.
pub open spec fn essential(watched: Seq<Watched>, slack: Duration, i: int) -> bool {
    let order = order_of(needs(watched, slack));
    (order.len() > 0 && order[0] == i) || (order.len() > 1 && order[1] == i)
}

/// The latest a camera may be to be waited for.
///
/// A camera that was left out has to come back comfortably inside the ceiling,
/// not merely back to the edge of it.
pub open spec fn limit(camera: Watched, ceiling_ms: u32) -> int {
    if camera.admitted {
        ceiling_ms * NANOS_PER_MILLI
    } else {
        ceiling_ms * COMFORTABLE
    }
}

/// Whether a camera should be waited for.
pub open spec fn wanted(watched: Seq<Watched>, ceiling_ms: u32, slack: Duration, i: int) -> bool {
    essential(watched, slack, i) || watched[i].need(slack) <= limit(watched[i], ceiling_ms)
}

/// A camera after its admission was looked at once more.
pub open spec fn reconsidered(
    camera: Watched,
    wanted: bool,
    now: Instant,
    ceiling_ms: u32,
    slack: Duration,
) -> Watched {
    let since_when = match camera.flipping {
        Some(since_when) => since_when,
        None => now,
    };
    if wanted == camera.admitted {
        Watched { flipping: None, ..camera }
    } else if since(now, since_when) < ADMISSION_DWELL {
        Watched { flipping: Some(since_when), ..camera }
    } else {
        Watched {
            admitted: wanted,
            flipping: None,
            lateness: if wanted {
                None
            } else {
                Some(Lateness { need: Duration { nanos: camera.need(slack) as u64 }, ceiling_ms })
            },
            ..camera
        }
    }
}

/// Decides which cameras should be waited for.
fn wishes(watched: &Vec<Watched>, ceiling_ms: u32, slack: Duration) -> (wishes: Vec<bool>)
    ensures
        wishes@.len() == watched@.len(),
        forall|i: int|
            0 <= i < watched@.len() ==> #[trigger] wishes@[i] == wanted(
                watched@,
                ceiling_ms,
                slack,
                i,
            ),
{
    let mut keys: Vec<u128> = Vec::new();
    let mut i: usize = 0;
    while i < watched.len()
        invariant
            i <= watched.len(),
            keys@.len() == i,
            forall|k: int| 0 <= k < i ==> #[trigger] keys@[k] == watched@[k].need(slack),
        decreases watched.len() - i,
    {
        keys.push(watched[i].wait(slack).nanos as u128);
        i = i + 1;
    }
    let order = stable_order(&keys);
    proof {
        assert(ints(keys@) =~= needs(watched@, slack));
    }
    let mut wishes: Vec<bool> = Vec::new();
    let mut i: usize = 0;
    while i < watched.len()
        invariant
            i <= watched.len(),
            wishes@.len() == i,
            order@.len() == watched@.len(),
            places(order@) == order_of(needs(watched@, slack)),
            forall|k: int|
                0 <= k < i ==> #[trigger] wishes@[k] == wanted(watched@, ceiling_ms, slack, k),
        decreases watched.len() - i,
    {
        let camera: &Watched = &watched[i];
        let limit: u64 = if camera.admitted {
            ceiling_ms as u64 * NANOS_PER_MILLI
        } else {
            ceiling_ms as u64 * COMFORTABLE
        };
        assert(order@.len() > 0 ==> places(order@)[0] == order@[0]);
        assert(order@.len() > 1 ==> places(order@)[1] == order@[1]);
        let least_late: bool = (order.len() > 0 && order[0] == i) || (order.len() > 1 && order[1]
            == i);
        wishes.push(least_late || camera.wait(slack).nanos <= limit);
        i = i + 1;
    }
    wishes
}

/// Decides which cameras the clock is prepared to wait for.
///
/// A camera either is waited for or is not. What it must never do is be waited
/// for on some ticks and not others: every joint it votes on would move by the
/// disagreement between it and the rest each time it joins or leaves.
pub fn reconsider(watched: &mut Vec<Watched>, now: Instant, ceiling_ms: u32, slack: Duration)
    ensures
        final(watched)@.len() == old(watched)@.len(),
        forall|i: int|
            0 <= i < old(watched)@.len() ==> #[trigger] final(watched)@[i] == reconsidered(
                old(watched)@[i],
                wanted(old(watched)@, ceiling_ms, slack, i),
                now,
                ceiling_ms,
                slack,
            ),
{
    let wishes = wishes(watched, ceiling_ms, slack);
    let mut i: usize = 0;
    while i < watched.len()
        invariant
            i <= watched@.len(),
            watched@.len() == old(watched)@.len(),
            wishes@.len() == watched@.len(),
            forall|k: int|
                0 <= k < watched@.len() ==> #[trigger] wishes@[k] == wanted(
                    old(watched)@,
                    ceiling_ms,
                    slack,
                    k,
                ),
            forall|k: int|
                0 <= k < i ==> #[trigger] watched@[k] == reconsidered(
                    old(watched)@[k],
                    wanted(old(watched)@, ceiling_ms, slack, k),
                    now,
                    ceiling_ms,
                    slack,
                ),
            forall|k: int| i <= k < watched@.len() ==> #[trigger] watched@[k] == old(watched)@[k],
        decreases watched.len() - i,
    {
        let wish: bool = wishes[i];
        let camera: &mut Watched = &mut watched[i];
        if wish == camera.admitted {
            camera.flipping = None;
        } else {
            let since_when: Instant = match camera.flipping {
                Some(since_when) => since_when,
                None => now,
            };
            camera.flipping = Some(since_when);
            if now.saturating_duration_since(since_when).nanos >= ADMISSION_DWELL {
                let need: Duration = camera.wait(slack);
                camera.admitted = wish;
                camera.flipping = None;
                camera.lateness = if wish {
                    None
                } else {
                    Some(Lateness { need, ceiling_ms })
                };
            }
        }
        i = i + 1;
    }
}

/// The margin the clock keeps.
pub open spec fn slack_of(config: FusionConfig) -> int {
    config.align_slack_ms * NANOS_PER_MILLI
}

/// How far behind real time the clock will ever sit.
pub open spec fn ceiling_of(config: FusionConfig) -> int {
    ceiling_ms_of(config) * NANOS_PER_MILLI
}

/// How far behind real time the clock will ever sit, in milliseconds.
pub open spec fn ceiling_ms_of(config: FusionConfig) -> u32 {
    if config.max_lag_ms >= config.align_slack_ms {
        config.max_lag_ms
    } else {
        config.align_slack_ms
    }
}

/// A camera with its staleness brought up to date: how stale its newest frame
/// is, or what is left of how stale it was. A camera that has delivered nothing
/// at all is treated as being at the ceiling rather than as being on time.
pub open spec fn refreshed(
    camera: Watched,
    faded: Duration,
    now: Instant,
    ceiling: Duration,
) -> Watched {
    let stale = match camera.newest {
        Some(newest) => since(now, newest),
        None => ceiling.nanos as int,
    };
    Watched {
        behind: Duration {
            nanos: if stale >= faded.nanos {
                stale as u64
            } else {
                faded.nanos
            },
        },
        ..camera
    }
}

/// The cameras with their staleness brought up to date.
pub open spec fn all_refreshed(
    watched: Seq<Watched>,
    faded: Seq<Duration>,
    now: Instant,
    ceiling: Duration,
) -> Seq<Watched> {
    Seq::new(watched.len(), |i: int| refreshed(watched[i], faded[i], now, ceiling))
}

/// The longest wait among the first `n` cameras that are waited for, and the
/// margin where none is.
pub open spec fn longest_wait(watched: Seq<Watched>, slack: Duration, n: nat) -> int
    decreases n,
{
    if n == 0 {
        slack.nanos as int
    } else {
        let before = longest_wait(watched, slack, (n - 1) as nat);
        let need = watched[n - 1].need(slack);
        if watched[n - 1].admitted && need > before {
            need
        } else {
            before
        }
    }
}

/// How far back the clock sits: the longest wait, up to the ceiling.
pub open spec fn lag_for(watched: Seq<Watched>, slack: Duration, ceiling: Duration) -> int {
    let longest = longest_wait(watched, slack, watched.len());
    if longest <= ceiling.nanos {
        longest
    } else {
        ceiling.nanos as int
    }
}

/// How far back the fusion clock has to sit for the cameras to answer it.
///
/// Measured every tick rather than assumed once at startup. What matters is how
/// stale each camera's newest frame actually is, which depends on the model it
/// is running, the resolution it is running at and what else is on the GPU.
/// `faded` holds what is left of each camera's worst recent staleness.
///
/// Which cameras are waited for is decided before the lag is: a camera nobody is
/// waiting for must not be what everybody waits for.
pub fn follow_cameras(
    watched: &mut Vec<Watched>,
    now: Instant,
    faded: &Vec<Duration>,
    config: &FusionConfig,
) -> (lag: Duration)
    requires
        faded@.len() == old(watched)@.len(),
    ensures
        ({
            let slack = Duration { nanos: slack_of(*config) as u64 };
            let ceiling = Duration { nanos: ceiling_of(*config) as u64 };
            let fresh = all_refreshed(old(watched)@, faded@, now, ceiling);
            &&& final(watched)@.len() == old(watched)@.len()
            &&& forall|i: int|
                0 <= i < old(watched)@.len() ==> #[trigger] final(watched)@[i] == reconsidered(
                    fresh[i],
                    wanted(fresh, ceiling_ms_of(*config), slack, i),
                    now,
                    ceiling_ms_of(*config),
                    slack,
                )
            &&& lag.nanos == lag_for(final(watched)@, slack, ceiling)
            &&& slack.nanos <= lag.nanos <= ceiling.nanos
        }),
{
    let slack: Duration = Duration::from_millis(config.align_slack_ms as u64);
    let ceiling_ms: u32 = if config.max_lag_ms >= config.align_slack_ms {
        config.max_lag_ms
    } else {
        config.align_slack_ms
    };
    let ceiling: Duration = Duration::from_millis(ceiling_ms as u64);
    let mut i: usize = 0;
    while i < watched.len()
        invariant
            i <= watched@.len(),
            watched@.len() == old(watched)@.len(),
            faded@.len() == watched@.len(),
            forall|k: int|
                0 <= k < i ==> #[trigger] watched@[k] == refreshed(
                    old(watched)@[k],
                    faded@[k],
                    now,
                    ceiling,
                ),
            forall|k: int| i <= k < watched@.len() ==> #[trigger] watched@[k] == old(watched)@[k],
        decreases watched.len() - i,
    {
        let camera: &mut Watched = &mut watched[i];
        let stale: Duration = match camera.newest {
            Some(newest) => now.saturating_duration_since(newest),
            None => ceiling,
        };
        camera.behind = stale.longer(faded[i]);
        i = i + 1;
    }
    proof {
        assert(watched@ =~= all_refreshed(old(watched)@, faded@, now, ceiling));
    }
    reconsider(watched, now, ceiling_ms, slack);
    let mut longest: Duration = slack;
    let mut i: usize = 0;
    while i < watched.len()
        invariant
            i <= watched@.len(),
            longest.nanos == longest_wait(watched@, slack, i as nat),
            longest.nanos >= slack.nanos,
        decreases watched.len() - i,
    {
        let camera: &Watched = &watched[i];
        if camera.admitted {
            longest = camera.wait(slack).longer(longest);
        }
        i = i + 1;
    }
    longest.shorter(ceiling)
}

/// Two different cameras are always wanted, however late they are, where there
/// are two: the two least late. So with two cameras or fewer none is ever left
/// out.
pub proof fn the_last_two_cameras_are_waited_for(
    watched: Seq<Watched>,
    ceiling_ms: u32,
    slack: Duration,
)
    ensures
        watched.len() >= 2 ==> exists|a: int, b: int|
            0 <= a < watched.len() && 0 <= b < watched.len() && a != b && #[trigger] wanted(
                watched,
                ceiling_ms,
                slack,
                a,
            ) && #[trigger] wanted(watched, ceiling_ms, slack, b),
        watched.len() <= 2 ==> forall|i: int|
            0 <= i < watched.len() ==> #[trigger] wanted(watched, ceiling_ms, slack, i),
{
    let keys = needs(watched, slack);
    let order = order_of(keys);
    every_list_has_an_order(keys);
    if watched.len() >= 2 {
        assert(comes_first(keys, order[0], order[1]));
        assert(wanted(watched, ceiling_ms, slack, order[0]));
        assert(wanted(watched, ceiling_ms, slack, order[1]));
    }
    assert forall|i: int| 0 <= i < watched.len() && watched.len() <= 2 implies #[trigger] wanted(
        watched,
        ceiling_ms,
        slack,
        i,
    ) by {
        assert(order.contains(i));
    }
}

/// A camera that is wanted is not left out.
pub proof fn a_wanted_camera_stays(
    camera: Watched,
    now: Instant,
    ceiling_ms: u32,
    slack: Duration,
)
    requires
        camera.admitted,
    ensures
        reconsidered(camera, true, now, ceiling_ms, slack).admitted,
{
}

/// Every camera that is waited for is within the lag, unless the lag is at its
/// ceiling.
pub proof fn the_lag_covers_every_admitted_camera(
    watched: Seq<Watched>,
    slack: Duration,
    ceiling: Duration,
    i: int,
)
    requires
        0 <= i < watched.len(),
        watched[i].admitted,
    ensures
        watched[i].need(slack) <= lag_for(watched, slack, ceiling) || lag_for(
            watched,
            slack,
            ceiling,
        ) == ceiling.nanos,
{
    lemma_longest_wait(watched, slack, watched.len(), i);
}

proof fn lemma_longest_wait(watched: Seq<Watched>, slack: Duration, n: nat, i: int)
    requires
        0 <= i < n <= watched.len(),
        watched[i].admitted,
    ensures
        watched[i].need(slack) <= longest_wait(watched, slack, n),
    decreases n,
{
    if i < n - 1 {
        lemma_longest_wait(watched, slack, (n - 1) as nat, i);
    }
}

/// An admission changes only after it has been wanted for the whole dwell.
pub proof fn a_hiccup_does_not_cost_a_camera(
    camera: Watched,
    wanted: bool,
    now: Instant,
    ceiling_ms: u32,
    slack: Duration,
)
    ensures
        ({
            let after = reconsidered(camera, wanted, now, ceiling_ms, slack);
            after.admitted != camera.admitted ==> camera.flipping is Some && now.nanos
                - camera.flipping->0.nanos >= ADMISSION_DWELL
        }),
{
}

/// The fusion clock between ticks.
#[derive(Debug, Clone, Copy, PartialEq, Eq, Structural)]
pub struct Clock {
    /// How far behind real time the clock runs.
    pub lag: Duration,
    /// Ticks since the body was last measured.
    pub since_measure: u32,
}

/// What a tick does about the body measurement.
#[derive(Debug, Clone, Copy, PartialEq, Eq, Structural)]
pub enum Measuring {
    /// Leaves it alone.
    Skip,
    /// Adds the reconstruction to it.
    Observe,
    /// Adds the reconstruction and reads the lengths off again.
    Remeasure,
}

/// The lag after one more tick: at once where it shrinks, and by no more than
/// half a tick where it grows.
pub open spec fn next_lag(lag: int, want: int, step: int) -> int {
    if want > lag {
        if step <= want - lag {
            lag + step
        } else {
            want
        }
    } else {
        want
    }
}

impl Clock {
    /// A clock that starts at the margin and grows to whatever the cameras turn
    /// out to need.
    pub fn new(config: &FusionConfig) -> (clock: Self)
        ensures
            clock.lag.nanos == slack_of(*config),
            clock.since_measure == 0,
    {
        Clock { lag: Duration::from_millis(config.align_slack_ms as u64), since_measure: 0 }
    }

    /// Moves the clock to the next tick and says which instant it shows.
    ///
    /// The clock may slow down but it must never run backwards. A
    /// reconstruction stamped before the last one gives every stage after it a
    /// negative time step, and the honest response to a camera that has just got
    /// slower is to let real time catch up rather than to rewind. `step` is half a
    /// tick.
    pub fn advance(&mut self, now: Instant, want: Duration, step: Duration) -> (at: Instant)
        ensures
            final(self).lag.nanos == next_lag(
                old(self).lag.nanos as int,
                want.nanos as int,
                step.nanos as int,
            ),
            final(self).since_measure == old(self).since_measure,
            at.nanos == if now.nanos >= final(self).lag.nanos {
                now.nanos - final(self).lag.nanos
            } else {
                0
            },
    {
        if want.nanos > self.lag.nanos {
            let more: Duration = step.shorter(want.saturating_sub(self.lag));
            self.lag = self.lag.saturating_add(more);
        } else {
            self.lag = want;
        }
        now.before(self.lag)
    }

    /// Decides what this tick does about the body measurement.
    ///
    /// Measured from the reconstruction, never from the fitted result: the fit
    /// already holds the body to this measurement, so measuring its output would
    /// be a loop that confirms whatever it started with.
    pub fn measure(&mut self, wanted: bool, empty: bool) -> (measuring: Measuring)
        requires
            old(self).since_measure < REMEASURE_EVERY,
        ensures
            final(self).lag == old(self).lag,
            final(self).since_measure < REMEASURE_EVERY,
            ({
                let next = old(self).since_measure + 1;
                if !wanted || empty {
                    measuring == Measuring::Skip && final(self).since_measure
                        == old(self).since_measure
                } else if next < REMEASURE_EVERY {
                    measuring == Measuring::Observe && final(self).since_measure == next
                } else {
                    measuring == Measuring::Remeasure && final(self).since_measure == 0
                }
            }),
    {
        if !wanted || empty {
            return Measuring::Skip;
        }
        self.since_measure = self.since_measure + 1;
        if self.since_measure >= REMEASURE_EVERY {
            self.since_measure = 0;
            Measuring::Remeasure
        } else {
            Measuring::Observe
        }
    }
}

/// The instant the clock shows never goes back, as long as real time moves on by
/// half a tick between ticks.
pub proof fn the_clock_never_runs_backwards(
    lag: int,
    want: int,
    step: int,
    before: int,
    now: int,
)
    requires
        0 <= step <= now - before,
    ensures
        now - next_lag(lag, want, step) >= before - lag,
{
}

/// The lag reaches what is wanted once it has grown for long enough, and stays
/// there.
pub proof fn the_lag_settles(lag: int, want: int, step: int)
    ensures
        want <= lag ==> next_lag(lag, want, step) == want,
        lag < want && want - lag <= step ==> next_lag(lag, want, step) == want,
        lag < want && 0 < step < want - lag ==> want - next_lag(lag, want, step) < want - lag
            && next_lag(lag, want, step) < want,
{
}

/// What part a camera takes in a tick.
#[derive(Debug, Clone, Copy, PartialEq, Eq, Structural)]
pub enum Part {
    /// The clock is not waiting for it, so it takes no part at all. It is the
    /// flickering that hurts, not the absence.
    LeftOut,
    /// It has no frames either side of the tick.
    Missing,
    /// It runs at a shape it was not calibrated at.
    Mismatched,
    /// It is asked what it saw.
    Asked,
}

/// What part a camera takes, given the size of the frames either side of the
/// tick, if it has them.
pub open spec fn part_of(camera: Watched, frames: Option<Size>) -> Part {
    if !camera.admitted {
        Part::LeftOut
    } else {
        match frames {
            None => Part::Missing,
            Some(size) => if size.shaped_like(camera.size) {
                Part::Asked
            } else {
                Part::Mismatched
            },
        }
    }
}

/// A camera once its part is known: its optics are brought to the size of its
/// frames where it is asked.
pub open spec fn after_part(camera: Watched, frames: Option<Size>) -> Watched {
    match part_of(camera, frames) {
        Part::Asked => Watched { size: frames->0, problem: None, ..camera },
        Part::Mismatched => Watched {
            problem: Some(Mismatch { running: frames->0, calibrated: camera.size }),
            ..camera
        },
        _ => camera,
    }
}

/// Decides what part each camera takes in a tick.
pub fn roll_call(watched: &mut Vec<Watched>, frames: &Vec<Option<Size>>) -> (parts: Vec<Part>)
    requires
        frames@.len() == old(watched)@.len(),
    ensures
        final(watched)@.len() == old(watched)@.len(),
        parts@.len() == old(watched)@.len(),
        forall|i: int|
            0 <= i < parts@.len() ==> #[trigger] parts@[i] == part_of(
                old(watched)@[i],
                frames@[i],
            ),
        forall|i: int|
            0 <= i < parts@.len() ==> #[trigger] final(watched)@[i] == after_part(
                old(watched)@[i],
                frames@[i],
            ),
{
    let mut parts: Vec<Part> = Vec::new();
    let mut i: usize = 0;
    while i < watched.len()
        invariant
            i <= watched@.len(),
            watched@.len() == old(watched)@.len(),
            frames@.len() == watched@.len(),
            parts@.len() == i,
            forall|k: int|
                0 <= k < i ==> #[trigger] parts@[k] == part_of(old(watched)@[k], frames@[k]),
            forall|k: int|
                0 <= k < i ==> #[trigger] watched@[k] == after_part(old(watched)@[k], frames@[k]),
            forall|k: int| i <= k < watched@.len() ==> #[trigger] watched@[k] == old(watched)@[k],
        decreases watched.len() - i,
    {
        let camera: &mut Watched = &mut watched[i];
        let part: Part = if !camera.admitted {
            Part::LeftOut
        } else {
            match frames[i] {
                None => Part::Missing,
                Some(size) => if camera.match_resolution(size.width, size.height) {
                    Part::Asked
                } else {
                    Part::Mismatched
                },
            }
        };
        parts.push(part);
        i = i + 1;
    }
    parts
}

impl Watched {
    /// When the frame that shows the world at an instant is stamped: a latency
    /// later, because that is when it arrived rather than when the light landed
    /// on the sensor.
    pub fn sampled_at(&self, at: Instant) -> (stamp: Instant)
        ensures
            stamp.nanos == capped(at.nanos + self.latency.nanos),
    {
        at.after(self.latency)
    }

    /// Why this camera is not being used, when it is not: what is wrong with its
    /// frames before how late they are.
    /// `need_ms` is how late that is, in rounded milliseconds.
    pub fn reason(&self, need_ms: u64) -> (reason: Option<String>)
        ensures
            match (self.problem, reason) {
                (Some(mismatch), Some(text)) => text@ == mismatch.line(),
                (Some(_), None) => false,
                (None, Some(text)) => self.lateness is Some && text@ == self.lateness->0.line(
                    need_ms,
                ),
                (None, None) => self.lateness is None,
            },
    {
        match &self.problem {
            Some(mismatch) => Some(mismatch.text()),
            None => match &self.lateness {
                Some(lateness) => Some(lateness.text(need_ms)),
                None => None,
            },
        }
    }
}

/// What one camera did for one pose.
#[derive(Debug, Clone)]
pub struct Tally {
    /// The share of each joint it carried, over the joints it carried a share
    /// of.
    pub shares: Vec<Scalar>,
    /// How many joints it was outvoted on.
    pub rejected: usize,
}

/// Whether a weight belongs to a camera.
pub open spec fn weight_of(camera: usize) -> spec_fn((usize, Scalar)) -> bool {
    |weight: (usize, Scalar)| weight.0 == camera
}

/// The share of a joint a camera carried, if it carried one.
pub open spec fn share_of(weights: Seq<(usize, Scalar)>, camera: usize) -> Option<Scalar> {
    let at = first_where(weights, weight_of(camera));
    if at < weights.len() {
        Some(weights[at].1)
    } else {
        None
    }
}

/// The shares a camera carried of the first `n` joints.
pub open spec fn shares_of(joints: Seq<Option<FusedJoint>>, camera: usize, n: nat) -> Seq<Scalar>
    decreases n,
{
    if n == 0 {
        Seq::empty()
    } else {
        let before = shares_of(joints, camera, (n - 1) as nat);
        match joints[n - 1] {
            Some(joint) => match share_of(joint.weights@, camera) {
                Some(share) => before.push(share),
                None => before,
            },
            None => before,
        }
    }
}

/// How many of the first `n` joints a camera was outvoted on.
pub open spec fn outvoted_on(joints: Seq<Option<FusedJoint>>, camera: usize, n: nat) -> nat
    decreases n,
{
    if n == 0 {
        0
    } else {
        let before = outvoted_on(joints, camera, (n - 1) as nat);
        match joints[n - 1] {
            Some(joint) => if share_of(joint.weights@, camera) is None && joint.rejected@.contains(
                camera,
            ) {
                before + 1
            } else {
                before
            },
            None => before,
        }
    }
}

fn share(weights: &Vec<(usize, Scalar)>, camera: usize) -> (share: Option<Scalar>)
    ensures
        share == share_of(weights@, camera),
{
    let ghost own = weight_of(camera);
    let mut i: usize = 0;
    while i < weights.len()
        invariant
            i <= weights.len(),
            own == weight_of(camera),
            forall|k: int| 0 <= k < i ==> !own(#[trigger] weights@[k]),
        decreases weights.len() - i,
    {
        if weights[i].0 == camera {
            proof {
                lemma_first_where_is(weights@, own, i as int);
            }
            return Some(weights[i].1);
        }
        i = i + 1;
    }
    proof {
        lemma_first_where_is(weights@, own, i as int);
    }
    None
}

/// Counts what one camera did for one pose.
///
/// Both figures are averaged over the joints the camera had a say in, so a
/// camera that can only see the legs is not marked down for the arms.
pub fn tally(pose: &Pose3d, camera: usize) -> (tally: Tally)
    ensures
        tally.shares@ == shares_of(pose.joints@, camera, JOINTS as nat),
        tally.rejected == outvoted_on(pose.joints@, camera, JOINTS as nat),
{
    let mut shares: Vec<Scalar> = Vec::new();
    let mut rejected: usize = 0;
    let mut i: usize = 0;
    while i < JOINTS
        invariant
            i <= JOINTS,
            rejected <= i,
            shares@ == shares_of(pose.joints@, camera, i as nat),
            rejected == outvoted_on(pose.joints@, camera, i as nat),
        decreases JOINTS - i,
    {
        let joint: Joint = Joint::ALL[i];
        proof {
            all_joints_stand_at_their_index(joint);
        }
        if let Some(fused) = pose.get(joint) {
            match share(&fused.weights, camera) {
                Some(share) => shares.push(share),
                None => {
                    if holds(&fused.rejected, camera) {
                        rejected = rejected + 1;
                    }
                },
            }
        }
        i = i + 1;
    }
    Tally { shares, rejected }
}

/// The delay to apply to a camera. A latency the walk was too slow to pin down
/// must not be applied: a delay guessed off a flat curve is worse than no delay
/// at all. Nor must one that no webcam could have.
pub open spec fn applied(latency: Option<Estimate>) -> Duration {
    corrected(Duration { nanos: 0 }, latency)
}

/// A camera is fused with no delay, or with one that the walk pinned down and
/// that a webcam could have.
pub proof fn only_believed_delays_are_applied(latency: Option<Estimate>)
    ensures
        applied(latency).nanos < PLAUSIBLE,
        applied(latency).nanos == 0 || (believed(latency) && applied(latency)
            == latency->0.latency),
{
}

/// The running cameras among the first `n` that the room profile has.
pub open spec fn known_among(ids: Seq<String>, room: Seq<CameraCalibration>, n: nat) -> Seq<int>
    decreases n,
{
    if n == 0 {
        Seq::empty()
    } else {
        let before = known_among(ids, room, (n - 1) as nat);
        if calibrated_at(room, ids[n - 1]@) < room.len() {
            before.push(n - 1)
        } else {
            before
        }
    }
}

/// A camera as the loop starts with it.
pub open spec fn starts_as(camera: Watched, id: String, calibrated: CameraCalibration) -> bool {
    &&& camera.id@ == id@
    &&& camera.newest is None
    &&& camera.size == calibrated.size
    &&& camera.latency == applied(calibrated.latency)
    &&& camera.behind.nanos == 0
    &&& camera.admitted
    &&& camera.flipping is None
    &&& camera.lateness is None
    &&& camera.problem is None
}

/// Decides which of the running cameras can be fused, given the room profile.
///
/// Says why it could not start rather than failing silently: "tracking is not
/// running" with no reason is the least useful thing this could do.
pub fn start(ids: &Vec<String>, room: &Vec<CameraCalibration>) -> (started: Result<Vec<Watched>, String>)
    ensures
        ({
            let known = known_among(ids@, room@, ids@.len());
            match started {
                Ok(watched) => {
                    &&& known.len() >= 2
                    &&& watched@.len() == known.len()
                    &&& forall|k: int|
                        0 <= k < known.len() ==> starts_as(
                            #[trigger] watched@[k],
                            ids@[known[k]],
                            room@[calibrated_at(room@, ids@[known[k]]@)],
                        )
                },
                Err(problem) => {
                    &&& known.len() < 2
                    &&& problem@ == decimal(known.len())
                        + " of the running cameras are in this room profile; fusion needs at least two"@
                },
            }
        }),
{
    let mut watched: Vec<Watched> = Vec::new();
    let mut i: usize = 0;
    while i < ids.len()
        invariant
            i <= ids.len(),
            watched@.len() == known_among(ids@, room@, i as nat).len(),
            forall|k: int|
                0 <= k < watched@.len() ==> starts_as(
                    #[trigger] watched@[k],
                    ids@[known_among(ids@, room@, i as nat)[k]],
                    room@[calibrated_at(room@, ids@[known_among(ids@, room@, i as nat)[k]]@)],
                ),
        decreases ids.len() - i,
    {
        if let Some(at) = find_camera(room, &ids[i]) {
            let calibrated: &CameraCalibration = &room[at];
            let latency: Duration = match &calibrated.latency {
                Some(estimate) => if estimate.is_confident() && estimate.is_plausible() {
                    estimate.latency
                } else {
                    Duration::zero()
                },
                None => Duration::zero(),
            };
            watched.push(
                Watched {
                    id: ids[i].clone(),
                    newest: None,
                    size: calibrated.size,
                    latency,
                    behind: Duration::zero(),
                    admitted: true,
                    flipping: None,
                    lateness: None,
                    problem: None,
                },
            );
        }
        i = i + 1;
    }
    if watched.len() < 2 {
        let mut problem = decimal_text(watched.len() as u64);
        problem.append(" of the running cameras are in this room profile; fusion needs at least two");
        return Err(problem);
    }
    Ok(watched)
}

/// How much of the answer one camera is carrying.
#[derive(Debug, Clone)]
pub struct CameraContribution {
    pub id: String,
    /// Fraction of recent ticks this camera had frames to interpolate between.
    pub aligned: Scalar,
    /// Fraction of its rays dropped for disagreeing with the others.
    pub rejected: Scalar,
    /// Why this camera is not being used, when it is not.
    pub problem: Option<String>,
}

/// How the stage as a whole is doing.
#[derive(Debug, Clone)]
pub struct FusionStats {
    pub cameras: Vec<CameraContribution>,
    /// Where the feet say the floor is, relative to where SteamVR says it is,
    /// in metres. None until enough of the user has been seen to judge.
    pub floor: Option<Scalar>,
    /// Lower-body joints present, which is what the trackers need.
    pub lower_body: usize,
    /// Largest distance the fit had to move a joint, in metres.
    pub worst_correction: Scalar,
}

/// 0.06
pub const FLOOR_TOLERANCE: u64 = 0x3fae_b851_eb85_1eb8;

/// 0.5
pub const KEEPING_UP: u64 = 0x3fe0_0000_0000_0000;

/// 0.4 in single precision.
pub const DISAGREEING: u64 = 0x3fd9_9999_a000_0000;

/// 0.15
pub const STRAINED: u64 = 0x3fc3_3333_3333_3333;

/// The single thing most worth telling the user.
#[derive(Debug, Clone)]
pub enum Warning {
    /// A camera is not being used.
    Unused { id: String, problem: String },
    /// The feet are reconstructed this far from the floor, in metres.
    Floor { height: Scalar },
    /// Only this many cameras are keeping up with the fusion clock.
    Behind { contributing: usize },
    /// A camera disagrees with the others on this share of the joints it sees.
    Disagreeing { id: String, share: Scalar },
    /// No lower-body joints are being reconstructed.
    NoLowerBody,
    /// The body is still being measured.
    Measuring,
    /// The measured body and the cameras disagree by this much, in metres.
    Strained { metres: Scalar },
}

/// Whether a camera is keeping up with the fusion clock.
pub open spec fn keeps_up(camera: CameraContribution) -> bool {
    Scalar::of(KEEPING_UP).less(camera.aligned)
}

/// The last of the cameras among the first `n` that keep up and are most often
/// outvoted, or -1.
pub open spec fn most_outvoted(cameras: Seq<CameraContribution>, n: nat) -> int
    decreases n,
{
    if n == 0 {
        -1
    } else {
        let before = most_outvoted(cameras, (n - 1) as nat);
        if keeps_up(cameras[n - 1]) && (before < 0 || cameras[before].rejected.place()
            <= cameras[n - 1].rejected.place()) {
            n - 1
        } else {
            before
        }
    }
}

/// Where the first camera with a problem stands.
pub open spec fn first_problem(cameras: Seq<CameraContribution>) -> int {
    first_where(cameras, |camera: CameraContribution| camera.problem is Some)
}

/// How many cameras are keeping up with the fusion clock.
pub open spec fn contributing(cameras: Seq<CameraContribution>) -> nat {
    cameras.filter(|camera: CameraContribution| keeps_up(camera)).len()
}

/// The single thing most worth telling the user, in order of how much it
/// explains: an unused camera, then a wrong floor, which makes the whole output
/// wrong while every other number looks healthy, then the rest.
pub open spec fn worth_telling(stats: FusionStats, settled: nat) -> Option<Warning> {
    let cameras = stats.cameras@;
    let problem = first_problem(cameras);
    let worst = most_outvoted(cameras, cameras.len());
    if problem < cameras.len() {
        Some(
            Warning::Unused { id: cameras[problem].id, problem: cameras[problem].problem->0 },
        )
    } else if stats.floor is Some && Scalar::of(FLOOR_TOLERANCE).less(
        Scalar::of(stats.floor->0.magnitude() as u64),
    ) {
        Some(Warning::Floor { height: stats.floor->0 })
    } else if contributing(cameras) < 2 {
        Some(Warning::Behind { contributing: contributing(cameras) as usize })
    } else if worst >= 0 && Scalar::of(DISAGREEING).less(cameras[worst].rejected) {
        Some(Warning::Disagreeing { id: cameras[worst].id, share: cameras[worst].rejected })
    } else if stats.lower_body == 0 {
        Some(Warning::NoLowerBody)
    } else if settled * 2 < BONE_COUNT {
        Some(Warning::Measuring)
    } else if Scalar::of(STRAINED).less(stats.worst_correction) {
        Some(Warning::Strained { metres: stats.worst_correction })
    } else {
        None
    }
}

fn find_problem(cameras: &Vec<CameraContribution>) -> (at: usize)
    ensures
        at == first_problem(cameras@),
        at <= cameras@.len(),
        at < cameras@.len() ==> cameras@[at as int].problem is Some,
{
    let ghost troubled = |camera: CameraContribution| camera.problem is Some;
    let mut i: usize = 0;
    while i < cameras.len()
        invariant
            i <= cameras.len(),
            troubled == (|camera: CameraContribution| camera.problem is Some),
            forall|k: int| 0 <= k < i ==> !troubled(#[trigger] cameras@[k]),
        decreases cameras.len() - i,
    {
        if cameras[i].problem.is_some() {
            proof {
                lemma_first_where_is(cameras@, troubled, i as int);
            }
            return i;
        }
        i = i + 1;
    }
    proof {
        lemma_first_where_is(cameras@, troubled, i as int);
    }
    i
}

fn count_contributing(cameras: &Vec<CameraContribution>) -> (count: usize)
    ensures
        count == contributing(cameras@),
{
    let ghost wanted = |camera: CameraContribution| keeps_up(camera);
    let mut count: usize = 0;
    let mut i: usize = 0;
    proof {
        assert(cameras@.take(0).filter(wanted).len() == 0) by {
            reveal(Seq::filter);
        }
    }
    while i < cameras.len()
        invariant
            i <= cameras.len(),
            count <= i,
            wanted == (|camera: CameraContribution| keeps_up(camera)),
            count == cameras@.take(i as int).filter(wanted).len(),
        decreases cameras.len() - i,
    {
        proof {
            lemma_filter_step(cameras@, wanted, i as int);
        }
        if Scalar::from_bits(KEEPING_UP).lt(cameras[i].aligned) {
            count = count + 1;
        }
        i = i + 1;
    }
    proof {
        assert(cameras@.take(i as int) =~= cameras@);
    }
    count
}

fn find_most_outvoted(cameras: &Vec<CameraContribution>) -> (at: Option<usize>)
    ensures
        match at {
            Some(at) => at < cameras@.len() && at == most_outvoted(cameras@, cameras@.len()),
            None => most_outvoted(cameras@, cameras@.len()) < 0,
        },
{
    let mut worst: Option<usize> = None;
    let mut i: usize = 0;
    while i < cameras.len()
        invariant
            i <= cameras.len(),
            match worst {
                Some(at) => at < i && at == most_outvoted(cameras@, i as nat),
                None => most_outvoted(cameras@, i as nat) < 0,
            },
        decreases cameras.len() - i,
    {
        if Scalar::from_bits(KEEPING_UP).lt(cameras[i].aligned) {
            match worst {
                Some(at) => {
                    if !cameras[i].rejected.precedes(cameras[at].rejected) {
                        worst = Some(i);
                    }
                },
                None => {
                    worst = Some(i);
                },
            }
        }
        i = i + 1;
    }
    worst
}

/// The single thing most worth telling the user, if anything is wrong.
pub fn warning(
    stats: &FusionStats,
    skeleton: &Skeleton,
    measure: &MeasureOptions,
) -> (warning: Option<Warning>)
    ensures
        warning == worth_telling(*stats, skeleton.settled_count(*measure)),
{
    let problem: usize = find_problem(&stats.cameras);
    if problem < stats.cameras.len() {
        let camera: &CameraContribution = &stats.cameras[problem];
        if let Some(text) = &camera.problem {
            return Some(Warning::Unused { id: camera.id.clone(), problem: text.clone() });
        }
    }
    if let Some(floor) = stats.floor {
        let size: Scalar = floor.abs();
        assert(size == Scalar::of(floor.magnitude() as u64));
        if Scalar::from_bits(FLOOR_TOLERANCE).lt(size) {
            return Some(Warning::Floor { height: floor });
        }
    }
    let contributing: usize = count_contributing(&stats.cameras);
    if contributing < 2 {
        return Some(Warning::Behind { contributing });
    }
    if let Some(worst) = find_most_outvoted(&stats.cameras) {
        let camera: &CameraContribution = &stats.cameras[worst];
        if Scalar::from_bits(DISAGREEING).lt(camera.rejected) {
            return Some(
                Warning::Disagreeing { id: camera.id.clone(), share: camera.rejected },
            );
        }
    }
    if stats.lower_body == 0 {
        return Some(Warning::NoLowerBody);
    }
    let settled: usize = skeleton.coverage(measure);
    if settled < BONE_COUNT / 2 {
        return Some(Warning::Measuring);
    }
    if Scalar::from_bits(STRAINED).lt(stats.worst_correction) {
        return Some(Warning::Strained { metres: stats.worst_correction });
    }
    None
}

impl Warning {
    /// The warning as one line, where `whole` is the figure it carries: whole
    /// centimetres of a distance, whole percent of a share.
    pub open spec fn line(self, whole: nat) -> Seq<char> {
        match self {
            Warning::Unused { id, problem } => id@ + " is not being used: "@ + problem@,
            Warning::Floor { height } => "your feet are reconstructing "@ + decimal(whole)
                + " cm "@ + (if height.less(Scalar::of(0)) {
                "below"@
            } else {
                "above"@
            }) + " the floor SteamVR reports, so its room setup is off by that much"@,
            Warning::Behind { contributing } => "only "@ + decimal(contributing as nat)
                + " camera(s) are keeping up with the fusion clock"@,
            Warning::Disagreeing { id, share } => id@ + " disagrees with the others on "@
                + decimal(whole) + "% of the joints it sees"@,
            Warning::NoLowerBody => "no lower-body joints are being reconstructed"@,
            Warning::Measuring => "still measuring the body; move around for a moment"@,
            Warning::Strained { metres } => "the measured body and the cameras disagree by "@
                + decimal(whole) + " cm"@,
        }
    }

    /// The warning as one line, where `whole` is the figure it carries: whole
    /// centimetres of a distance, whole percent of a share.
    pub fn text(&self, whole: u64) -> (text: String)
        ensures
            text@ == self.line(whole as nat),
    {
        match self {
            Warning::Unused { id, problem } => {
                let mut text = id.clone();
                text.append(" is not being used: ");
                text.append(problem.as_str());
                text
            },
            Warning::Floor { height } => {
                let mut text = "your feet are reconstructing ".to_owned();
                text.append(decimal_text(whole).as_str());
                text.append(" cm ");
                if height.lt(Scalar::from_bits(0)) {
                    text.append("below");
                } else {
                    text.append("above");
                }
                text.append(" the floor SteamVR reports, so its room setup is off by that much");
                text
            },
            Warning::Behind { contributing } => {
                let mut text = "only ".to_owned();
                text.append(decimal_text(*contributing as u64).as_str());
                text.append(" camera(s) are keeping up with the fusion clock");
                text
            },
            Warning::Disagreeing { id, share } => {
                let mut text = id.clone();
                text.append(" disagrees with the others on ");
                text.append(decimal_text(whole).as_str());
                text.append("% of the joints it sees");
                text
            },
            Warning::NoLowerBody => "no lower-body joints are being reconstructed".to_owned(),
            Warning::Measuring => "still measuring the body; move around for a moment".to_owned(),
            Warning::Strained { metres } => {
                let mut text = "the measured body and the cameras disagree by ".to_owned();
                text.append(decimal_text(whole).as_str());
                text.append(" cm");
                text
            },
        }
    }
}

/// How long the clock would sit back for a camera: how late its frames are stamped,
/// how stale its newest one is and the margin, together.
pub open spec fn sum_of(camera: Watched, slack: Duration) -> int {
    camera.latency.nanos + camera.behind.nanos + slack.nanos
}

/// A camera needs the sum of its lateness, its staleness and the margin, up to the
/// longest span there is.
pub proof fn a_camera_needs_all_its_delays(camera: Watched, slack: Duration)
    ensures
        camera.need(slack) == sum_of(camera, slack) || (camera.need(slack) == u64::MAX
            && sum_of(camera, slack) > u64::MAX),
        forall|nanos: int| 0 <= nanos <= u64::MAX ==> #[trigger] capped(nanos) == nanos,
{
}

/// The staleness of a camera is that of its newest frame, unless more than that is
/// left of what it was; one that has delivered nothing is as late as the clock will
/// ever wait. Nothing else of the camera changes.
pub proof fn staleness_rises_at_once_and_falls_slowly(
    camera: Watched,
    faded: Duration,
    now: Instant,
    ceiling: Duration,
)
    ensures
        ({
            let after = refreshed(camera, faded, now, ceiling);
            let behind = after.behind.nanos;
            &&& behind >= faded.nanos
            &&& camera.newest is Some ==> behind >= now.nanos - camera.newest->0.nanos
            &&& camera.newest is Some ==> behind == faded.nanos || behind == now.nanos
                - camera.newest->0.nanos || (behind == 0 && now.nanos <= camera.newest->0.nanos)
            &&& camera.newest is None ==> behind >= ceiling.nanos && (behind == faded.nanos
                || behind == ceiling.nanos)
            &&& after.id == camera.id
            &&& after.newest == camera.newest
            &&& after.size == camera.size
            &&& after.latency == camera.latency
            &&& after.admitted == camera.admitted
            &&& after.flipping == camera.flipping
            &&& after.lateness == camera.lateness
            &&& after.problem == camera.problem
        }),
{
}

/// The cameras after they were followed for one tick.
pub open spec fn followed(
    watched: Seq<Watched>,
    faded: Seq<Duration>,
    now: Instant,
    config: FusionConfig,
) -> Seq<Watched> {
    let slack = Duration { nanos: slack_of(config) as u64 };
    let ceiling = Duration { nanos: ceiling_of(config) as u64 };
    let fresh = all_refreshed(watched, faded, now, ceiling);
    Seq::new(
        watched.len(),
        |i: int|
            reconsidered(
                fresh[i],
                wanted(fresh, ceiling_ms_of(config), slack, i),
                now,
                ceiling_ms_of(config),
                slack,
            ),
    )
}

/// Where the lag is below its ceiling, every camera that is waited for has delivered
/// a frame past the tick, with the margin to spare: the frame that shows the tick is
/// stamped a latency later, and the newest frame is no earlier than that.
pub proof fn every_camera_waited_for_has_a_frame_past_the_tick(
    watched: Seq<Watched>,
    faded: Seq<Duration>,
    now: Instant,
    config: FusionConfig,
    i: int,
)
    requires
        0 <= i < watched.len(),
        faded.len() == watched.len(),
        watched[i].newest is Some,
        followed(watched, faded, now, config)[i].admitted,
    ensures
        ({
            let slack = Duration { nanos: slack_of(config) as u64 };
            let ceiling = Duration { nanos: ceiling_of(config) as u64 };
            let lag = lag_for(followed(watched, faded, now, config), slack, ceiling);
            let margin = config.align_slack_ms * 1_000_000;
            let longest = if config.max_lag_ms >= config.align_slack_ms {
                config.max_lag_ms * 1_000_000
            } else {
                config.align_slack_ms * 1_000_000
            };
            &&& margin <= lag <= longest
            &&& lag < longest ==> (now.nanos - lag) + watched[i].latency.nanos + margin
                <= watched[i].newest->0.nanos
        }),
{
    let slack = Duration { nanos: slack_of(config) as u64 };
    let ceiling = Duration { nanos: ceiling_of(config) as u64 };
    let after = followed(watched, faded, now, config);
    lemma_longest_wait(after, slack, after.len(), i);
    lemma_longest_wait_from(after, slack, after.len());
    a_camera_needs_all_its_delays(after[i], slack);
    assert(ceiling_of(config) <= 0xffff_ffff * 1_000_000);
}

proof fn lemma_longest_wait_from(watched: Seq<Watched>, slack: Duration, n: nat)
    requires
        n <= watched.len(),
    ensures
        longest_wait(watched, slack, n) >= slack.nanos,
        longest_wait(watched, slack, n) == slack.nanos || exists|i: int|
            0 <= i < n && (#[trigger] watched[i]).admitted && longest_wait(watched, slack, n)
                == watched[i].need(slack),
    decreases n,
{
    if n > 0 {
        lemma_longest_wait_from(watched, slack, (n - 1) as nat);
        let (before, after) = (
            longest_wait(watched, slack, (n - 1) as nat),
            longest_wait(watched, slack, n),
        );
        if after != before {
            assert(watched[n - 1].admitted);
        }
    }
}

/// The clock sits no further back than it has to: at the margin, at its ceiling, or
/// exactly as far as one of the cameras that is waited for needs.
pub proof fn the_clock_waits_no_longer_than_it_has_to(
    watched: Seq<Watched>,
    slack: Duration,
    ceiling: Duration,
)
    requires
        ceiling.nanos < u64::MAX,
        slack.nanos <= ceiling.nanos,
    ensures
        ({
            let lag = lag_for(watched, slack, ceiling);
            lag == slack.nanos || lag == ceiling.nanos || exists|i: int|
                0 <= i < watched.len() && (#[trigger] watched[i]).admitted && lag == sum_of(
                    watched[i],
                    slack,
                )
        }),
        (forall|i: int|
            0 <= i < watched.len() && (#[trigger] watched[i]).admitted ==> sum_of(
                watched[i],
                slack,
            ) < ceiling.nanos) && slack.nanos < ceiling.nanos ==> lag_for(watched, slack, ceiling)
            < ceiling.nanos,
{
    lemma_longest_wait_from(watched, slack, watched.len());
    let lag = lag_for(watched, slack, ceiling);
    let longest = longest_wait(watched, slack, watched.len());
    if longest != slack.nanos {
        let i = choose|i: int|
            0 <= i < watched.len() && (#[trigger] watched[i]).admitted && longest
                == watched[i].need(slack);
        a_camera_needs_all_its_delays(watched[i], slack);
        assert(watched[i].admitted);
    }
}

/// Whether one camera is less late than another, and the earlier of two that are as
/// late.
pub open spec fn less_late(watched: Seq<Watched>, slack: Duration, a: int, b: int) -> bool {
    sum_of(watched[a], slack) < sum_of(watched[b], slack) || (sum_of(watched[a], slack) == sum_of(
        watched[b],
        slack,
    ) && a < b)
}

/// A camera is to be waited for exactly if it is within what the clock will wait for,
/// or fewer than two others are less late. What the clock will wait for is its
/// ceiling, and for a camera that was left out 85 hundredths of it.
pub proof fn a_camera_is_wanted_if_it_is_in_time_or_needed(
    watched: Seq<Watched>,
    ceiling_ms: u32,
    slack: Duration,
    i: int,
)
    requires
        0 <= i < watched.len(),
        forall|k: int|
            0 <= k < watched.len() ==> sum_of(#[trigger] watched[k], slack) <= u64::MAX,
    ensures
        wanted(watched, ceiling_ms, slack, i) <==> 100 * sum_of(watched[i], slack) <= (if watched[i].admitted {
            100int
        } else {
            85int
        }) * ceiling_ms * 1_000_000 || !exists|a: int, b: int|
            0 <= a < watched.len() && 0 <= b < watched.len() && a != b && #[trigger] less_late(
                watched,
                slack,
                a,
                i,
            ) && #[trigger] less_late(watched, slack, b, i),
{
    let keys = needs(watched, slack);
    let order = order_of(keys);
    every_list_has_an_order(keys);
    assert forall|k: int| 0 <= k < watched.len() implies keys[k] == sum_of(
        watched[k],
        slack,
    ) by {
        a_camera_needs_all_its_delays(watched[k], slack);
    }
    a_camera_needs_all_its_delays(watched[i], slack);
    assert(order.contains(i));
    let p = choose|p: int| 0 <= p < order.len() && order[p] == i;
    assert forall|a: int|
        0 <= a < watched.len() && less_late(watched, slack, a, i) implies exists|q: int|
        0 <= q < p && #[trigger] order[q] == a by {
        assert(order.contains(a));
        let q = choose|q: int| 0 <= q < order.len() && order[q] == a;
        if q >= p {
            if q > p {
                assert(comes_first(keys, order[p], order[q]));
            }
        }
        assert(order[q] == a);
    }
    assert forall|q: int| 0 <= q < p implies less_late(
        watched,
        slack,
        #[trigger] order[q],
        i,
    ) by {
        assert(comes_first(keys, order[q], order[p]));
    }
    if p >= 2 {
        assert(comes_first(keys, order[0], order[1]));
        assert(less_late(watched, slack, order[0], i));
        assert(less_late(watched, slack, order[1], i));
        assert(!essential(watched, slack, i)) by {
            if order[0] == i {
                assert(comes_first(keys, order[0], order[p]));
            }
            if order[1] == i {
                assert(comes_first(keys, order[1], order[p]));
            }
        }
    } else {
        assert(essential(watched, slack, i));
        if exists|a: int, b: int|
            0 <= a < watched.len() && 0 <= b < watched.len() && a != b && #[trigger] less_late(
                watched,
                slack,
                a,
                i,
            ) && #[trigger] less_late(watched, slack, b, i) {
            let (a, b) = choose|a: int, b: int|
                0 <= a < watched.len() && 0 <= b < watched.len() && a != b && #[trigger] less_late(
                    watched,
                    slack,
                    a,
                    i,
                ) && #[trigger] less_late(watched, slack, b, i);
            let qa = choose|q: int| 0 <= q < p && #[trigger] order[q] == a;
            let qb = choose|q: int| 0 <= q < p && #[trigger] order[q] == b;
            assert(qa == 0 && qb == 0);
        }
    }
}

/// Whether a camera is waited for changes exactly if the other has been wanted for
/// two seconds; until then it is remembered since when, and a wish that goes away
/// is forgotten. A camera that leaves says how late it was and one that comes back
/// says nothing. Nothing else of it changes.
pub proof fn an_admission_changes_once_it_was_wanted_for_long_enough(
    camera: Watched,
    wanted: bool,
    now: Instant,
    ceiling_ms: u32,
    slack: Duration,
)
    ensures
        ({
            let after = reconsidered(camera, wanted, now, ceiling_ms, slack);
            let flips = wanted != camera.admitted && camera.flipping is Some && now.nanos
                - camera.flipping->0.nanos >= 2_000_000_000;
            &&& after.admitted == if flips {
                wanted
            } else {
                camera.admitted
            }
            &&& wanted == camera.admitted || flips ==> after.flipping is None
            &&& wanted != camera.admitted && !flips && camera.flipping is Some ==> after.flipping
                == camera.flipping
            &&& wanted != camera.admitted && camera.flipping is None ==> after.flipping == Some(now)
            &&& !flips ==> after.lateness == camera.lateness
            &&& flips && wanted ==> after.lateness is None
            &&& flips && !wanted && sum_of(camera, slack) <= u64::MAX ==> after.lateness is Some
                && after.lateness->0.need.nanos == sum_of(camera, slack)
                && after.lateness->0.ceiling_ms == ceiling_ms
            &&& after.id == camera.id
            &&& after.newest == camera.newest
            &&& after.size == camera.size
            &&& after.latency == camera.latency
            &&& after.behind == camera.behind
            &&& after.problem == camera.problem
        }),
{
}

/// A lag that grows does so by half a tick, or by what is left to grow.
pub proof fn the_lag_grows_half_a_tick_at_a_time(lag: int, want: int, step: int)
    requires
        lag < want,
        0 <= step,
    ensures
        next_lag(lag, want, step) <= lag + step,
        next_lag(lag, want, step) <= want,
        next_lag(lag, want, step) == lag + step || next_lag(lag, want, step) == want,
{
}

/// A camera is asked what it saw exactly if it is waited for and has frames of the
/// shape it was calibrated at; then its optics are taken to their size. One of
/// another shape says which two sizes do not match. Nothing else of a camera
/// changes, and one that is not asked keeps its optics.
pub proof fn only_a_camera_of_the_right_shape_is_asked(camera: Watched, frames: Option<Size>)
    ensures
        ({
            let (part, after) = (part_of(camera, frames), after_part(camera, frames));
            let shaped = frames is Some && frames->0.width * camera.size.height
                == frames->0.height * camera.size.width;
            &&& part == Part::Asked <==> camera.admitted && shaped
            &&& part == Part::Missing <==> camera.admitted && frames is None
            &&& part == Part::Mismatched <==> camera.admitted && frames is Some && !shaped
            &&& part == Part::LeftOut <==> !camera.admitted
            &&& part == Part::Asked ==> after.size == frames->0 && after.problem is None
            &&& part != Part::Asked ==> after.size == camera.size
            &&& part == Part::Mismatched ==> after.problem is Some && after.problem->0.running
                == frames->0 && after.problem->0.calibrated == camera.size
            &&& part == Part::LeftOut || part == Part::Missing ==> after == camera
            &&& after.id == camera.id
            &&& after.newest == camera.newest
            &&& after.latency == camera.latency
            &&& after.behind == camera.behind
            &&& after.admitted == camera.admitted
            &&& after.flipping == camera.flipping
            &&& after.lateness == camera.lateness
        }),
{
}

/// The share a camera carried of a joint is the first that names it, and there is
/// one exactly if one names it.
pub proof fn a_share_is_the_first_that_names_the_camera(
    weights: Seq<(usize, Scalar)>,
    camera: usize,
)
    ensures
        share_of(weights, camera) is Some <==> exists|k: int|
            0 <= k < weights.len() && (#[trigger] weights[k]).0 == camera,
        share_of(weights, camera) is Some ==> exists|k: int|
            0 <= k < weights.len() && (#[trigger] weights[k]).0 == camera && weights[k].1
                == share_of(weights, camera)->0 && forall|j: int|
                0 <= j < k ==> (#[trigger] weights[j]).0 != camera,
{
    let wanted = weight_of(camera);
    lemma_first_where(weights, wanted);
    let at = first_where(weights, wanted);
    if at < weights.len() {
        assert(wanted(weights[at]));
        assert forall|j: int| 0 <= j < at implies (#[trigger] weights[j]).0 != camera by {
            assert(!wanted(weights[j]));
        }
    } else {
        assert forall|k: int| 0 <= k < weights.len() implies (#[trigger] weights[k]).0
            != camera by {
            assert(!wanted(weights[k]));
        }
    }
}

/// A camera is credited with its share of every joint it carried one of, in the order
/// of the joints, and marked down once for every joint it was dropped from.
pub proof fn a_camera_is_credited_joint_by_joint(
    joints: Seq<Option<FusedJoint>>,
    camera: usize,
    n: nat,
)
    ensures
        ({
            let carried = |i: int|
                joints[i] is Some && share_of(joints[i]->0.weights@, camera) is Some;
            let dropped = |i: int|
                joints[i] is Some && share_of(joints[i]->0.weights@, camera) is None
                    && joints[i]->0.rejected@.contains(camera);
            let places = Seq::new(n, |i: int| i);
            &&& shares_of(joints, camera, n) == places.filter(carried).map_values(
                |i: int| share_of(joints[i]->0.weights@, camera)->0,
            )
            &&& outvoted_on(joints, camera, n) == places.filter(dropped).len()
        }),
    decreases n,
{
    let carried = |i: int| joints[i] is Some && share_of(joints[i]->0.weights@, camera) is Some;
    let dropped = |i: int|
        joints[i] is Some && share_of(joints[i]->0.weights@, camera) is None
            && joints[i]->0.rejected@.contains(camera);
    let share = |i: int| share_of(joints[i]->0.weights@, camera)->0;
    let places = Seq::new(n, |i: int| i);
    reveal(Seq::filter);
    if n > 0 {
        a_camera_is_credited_joint_by_joint(joints, camera, (n - 1) as nat);
        assert(places.drop_last() =~= Seq::new((n - 1) as nat, |i: int| i));
    }
    assert(shares_of(joints, camera, n) =~= places.filter(carried).map_values(share));
}

/// Fusion takes exactly the running cameras that the room profile has, in order.
pub proof fn the_cameras_of_the_room_are_fused(
    ids: Seq<String>,
    room: Seq<CameraCalibration>,
    n: nat,
)
    requires
        n <= ids.len(),
    ensures
        ({
            let known = known_among(ids, room, n);
            &&& increasing(known)
            &&& forall|i: int| #[trigger]
                known.contains(i) <==> 0 <= i < n && exists|c: int|
                    0 <= c < room.len() && (#[trigger] room[c]).id@ == ids[i]@
        }),
    decreases n,
{
    if n > 0 {
        the_cameras_of_the_room_are_fused(ids, room, (n - 1) as nat);
        let before = known_among(ids, room, (n - 1) as nat);
        let found = known_among(ids, room, n);
        let id = ids[n - 1]@;
        a_camera_is_found_by_its_id(room, id);
        let more = calibrated_at(room, id) < room.len();
        lemma_grown(before, found, more, n - 1);
    }
}

/// A camera starts with the optics and the delay of its own calibration, waited for,
/// and with nothing said of it.
pub proof fn a_camera_starts_from_its_calibration(
    camera: Watched,
    id: String,
    calibrated: CameraCalibration,
)
    requires
        starts_as(camera, id, calibrated),
    ensures
        camera.id@ == id@,
        camera.size == calibrated.size,
        camera.admitted,
        camera.newest is None,
        camera.behind.nanos == 0,
        camera.flipping is None && camera.lateness is None && camera.problem is None,
        calibrated.latency is None ==> camera.latency.nanos == 0,
        calibrated.latency is Some && Scalar::of(0x3ff0_0000_0000_0000).less(
            calibrated.latency->0.sharpness,
        ) && calibrated.latency->0.latency.nanos < 120_000_000 ==> camera.latency
            == calibrated.latency->0.latency,
        calibrated.latency is Some && !(Scalar::of(0x3ff0_0000_0000_0000).less(
            calibrated.latency->0.sharpness,
        ) && calibrated.latency->0.latency.nanos < 120_000_000) ==> camera.latency.nanos == 0,
{
}

/// The camera that disagrees most is one that keeps up, and no other that keeps up
/// disagrees more; there is one exactly if any keeps up.
pub proof fn the_most_outvoted_camera_keeps_up(cameras: Seq<CameraContribution>, n: nat)
    requires
        n <= cameras.len(),
    ensures
        ({
            let worst = most_outvoted(cameras, n);
            &&& worst >= 0 <==> exists|i: int|
                0 <= i < n && Scalar::of(0x3fe0_0000_0000_0000).less(
                    (#[trigger] cameras[i]).aligned,
                )
            &&& worst >= 0 ==> worst < n && Scalar::of(0x3fe0_0000_0000_0000).less(
                cameras[worst].aligned,
            )
            &&& forall|i: int|
                0 <= i < n && Scalar::of(0x3fe0_0000_0000_0000).less(
                    (#[trigger] cameras[i]).aligned,
                ) ==> cameras[i].rejected.place() <= cameras[worst].rejected.place() && (i > worst
                    ==> cameras[i].rejected.place() < cameras[worst].rejected.place())
        }),
    decreases n,
{
    if n > 0 {
        the_most_outvoted_camera_keeps_up(cameras, (n - 1) as nat);
        let worst = most_outvoted(cameras, n);
        if worst >= 0 {
            assert(Scalar::of(0x3fe0_0000_0000_0000).less(cameras[worst].aligned));
        }
    }
}

/// What is said is decided in this order: a camera that is not used, the first of
/// them; a floor more than six centimetres off; fewer than two cameras keeping up;
/// a camera outvoted on more than two fifths of its joints; no lower body; less than
/// half the bones measured; a joint moved more than fifteen centimetres. Nothing is
/// said exactly if none of them holds.
pub proof fn the_first_thing_that_is_wrong_is_said(stats: FusionStats, settled: nat)
    ensures
        ({
            let cameras = stats.cameras@;
            let said = worth_telling(stats, settled);
            let unused = exists|i: int| 0 <= i < cameras.len() && (#[trigger] cameras[i]).problem
                is Some;
            let up = cameras.filter(
                |camera: CameraContribution|
                    Scalar::of(0x3fe0_0000_0000_0000).less(camera.aligned),
            ).len();
            let floor = stats.floor is Some && Scalar::of(0x3fae_b851_eb85_1eb8).less(
                Scalar::of((stats.floor->0.bits % 0x8000_0000_0000_0000) as u64),
            );
            let outvoted = exists|i: int|
                0 <= i < cameras.len() && Scalar::of(0x3fe0_0000_0000_0000).less(
                    (#[trigger] cameras[i]).aligned,
                ) && i == most_outvoted(cameras, cameras.len()) && Scalar::of(
                    0x3fd9_9999_a000_0000,
                ).less(cameras[i].rejected);
            &&& unused <==> said is Some && said->0 is Unused
            &&& !unused && floor <==> said is Some && said->0 is Floor
            &&& !unused && !floor && up < 2 <==> said is Some && said->0 is Behind
            &&& !unused && !floor && up >= 2 && outvoted <==> said is Some && said->0 is Disagreeing
            &&& !unused && !floor && up >= 2 && !outvoted && stats.lower_body == 0 <==> said is Some
                && said->0 is NoLowerBody
            &&& !unused && !floor && up >= 2 && !outvoted && stats.lower_body > 0 && 2 * settled
                < 22 <==> said is Some && said->0 is Measuring
            &&& !unused && !floor && up >= 2 && !outvoted && stats.lower_body > 0 && 2 * settled
                >= 22 && Scalar::of(0x3fc3_3333_3333_3333).less(stats.worst_correction) <==> said
                is Some && said->0 is Strained
            &&& said is Some && said->0 is Unused ==> exists|i: int|
                0 <= i < cameras.len() && (#[trigger] cameras[i]).problem is Some && said->0
                    == (Warning::Unused { id: cameras[i].id, problem: cameras[i].problem->0 })
                    && forall|k: int| 0 <= k < i ==> (#[trigger] cameras[k]).problem is None
            &&& said is Some && said->0 is Floor ==> said->0 == (Warning::Floor {
                height: stats.floor->0,
            })
            &&& said is Some && said->0 is Behind ==> said->0 == (Warning::Behind {
                contributing: up as usize,
            })
            &&& said is Some && said->0 is Disagreeing ==> ({
                let worst = cameras[most_outvoted(cameras, cameras.len())];
                said->0 == (Warning::Disagreeing { id: worst.id, share: worst.rejected })
            })
            &&& said is Some && said->0 is Strained ==> said->0 == (Warning::Strained {
                metres: stats.worst_correction,
            })
        }),
{
    let cameras = stats.cameras@;
    let wanted = |camera: CameraContribution| camera.problem is Some;
    lemma_first_where(cameras, wanted);
    let at = first_problem(cameras);
    if at < cameras.len() {
        assert(wanted(cameras[at]));
        assert forall|k: int| 0 <= k < at implies (#[trigger] cameras[k]).problem is None by {
            assert(!wanted(cameras[k]));
        }
    } else {
        assert forall|k: int| 0 <= k < cameras.len() implies (#[trigger] cameras[k]).problem
            is None by {
            assert(!wanted(cameras[k]));
        }
    }
    assert((|camera: CameraContribution| keeps_up(camera)) =~= (|camera: CameraContribution|
        Scalar::of(0x3fe0_0000_0000_0000).less(camera.aligned)));
    the_most_outvoted_camera_keeps_up(cameras, cameras.len());
    let worst = most_outvoted(cameras, cameras.len());
    if worst >= 0 {
        assert(Scalar::of(0x3fe0_0000_0000_0000).less(cameras[worst].aligned));
    }
}

/// A camera that is waited for may be as late as the ceiling, and one that is not has to
/// be back within seventeen twentieths of it; two seconds of either change it; the body is
/// measured once in sixty ticks.
pub proof fn a_camera_left_out_has_to_come_back_inside(camera: Watched, ceiling_ms: u32)
    ensures
        camera.admitted ==> limit(camera, ceiling_ms) == ceiling_ms * 1_000_000,
        !camera.admitted ==> 20 * limit(camera, ceiling_ms) == 17 * (ceiling_ms * 1_000_000),
        ADMISSION_DWELL == 2_000_000_000,
        REMEASURE_EVERY == 60,
        KEEPING_UP == 0x3fe0_0000_0000_0000,
        DISAGREEING == 0x3fd9_9999_a000_0000,
        STRAINED == 0x3fc3_3333_3333_3333,
        FLOOR_TOLERANCE == 0x3fae_b851_eb85_1eb8,
{
}

/// Two sizes are of one shape if one is the other enlarged on both sides alike, and are
/// not if they agree in one side alone.
pub proof fn enlarging_keeps_the_shape(a: Size, b: Size, times: u32)
    ensures
        b.width == a.width * times && b.height == a.height * times ==> a.shaped_like(b)
            && b.shaped_like(a),
        a.shaped_like(b) <==> b.shaped_like(a),
        a.width > 0 && a.width == b.width ==> (a.shaped_like(b) <==> a.height == b.height),
        a.height > 0 && a.height == b.height ==> (a.shaped_like(b) <==> a.width == b.width),
{
    if b.width == a.width * times && b.height == a.height * times {
        assert(a.width * (a.height * times) == a.height * (a.width * times)) by (nonlinear_arith);
    }
    assert(a.width * b.height == b.height * a.width && a.height * b.width == b.width * a.height)
        by (nonlinear_arith);
    if a.width > 0 && a.width == b.width {
        assert(a.width * b.height == a.height * a.width ==> a.height == b.height)
            by (nonlinear_arith)
            requires
                a.width > 0,
        ;
        assert(a.height * a.width == a.width * a.height) by (nonlinear_arith);
    }
    if a.height > 0 && a.height == b.height {
        assert(a.width * a.height == a.height * b.width ==> a.width == b.width)
            by (nonlinear_arith)
            requires
                a.height > 0,
        ;
        assert(a.height * a.width == a.width * a.height) by (nonlinear_arith);
    }
}

/// The clock may lag as far as it is allowed to, and never less than the slack it is
/// aligned with.
pub proof fn the_ceiling_leaves_room_for_the_slack(config: FusionConfig)
    ensures
        ceiling_ms_of(config) >= config.max_lag_ms,
        ceiling_ms_of(config) >= config.align_slack_ms,
        ceiling_ms_of(config) == config.max_lag_ms || ceiling_ms_of(config)
            == config.align_slack_ms,
{
}

/// The first problem is that of the first camera that has one.
pub proof fn the_first_problem_is_the_first_cameras(cameras: Seq<CameraContribution>)
    ensures
        ({
            let at = first_problem(cameras);
            &&& 0 <= at <= cameras.len()
            &&& at < cameras.len() ==> cameras[at].problem is Some
            &&& forall|i: int| 0 <= i < at ==> (#[trigger] cameras[i]).problem is None
        }),
{
    let wanted = |camera: CameraContribution| camera.problem is Some;
    lemma_first_where(cameras, wanted);
    let at = first_problem(cameras);
    assert(at == first_where(cameras, wanted));
    if at < cameras.len() {
        assert(wanted(cameras[at]));
    }
    assert forall|i: int| 0 <= i < at implies (#[trigger] cameras[i]).problem is None by {
        assert(!wanted(cameras[i]));
    }
}

/// What is told of a camera names the figures in the order they are read: how late it is
/// before how late it may be, and what it runs at before what it was calibrated at.
pub proof fn what_is_told_of_a_camera(lateness: Lateness, need_ms: u64, mismatch: Mismatch)
    ensures
        lateness.line(need_ms) == "delivering "@ + decimal(need_ms as nat) + (
        " ms behind real time, and the fusion clock waits at most "@ + decimal(
            lateness.ceiling_ms as nat,
        ) + " ms"@),
        mismatch.line() == "running at "@ + decimal(mismatch.running.width as nat) + "x"@ + decimal(
            mismatch.running.height as nat,
        ) + (", calibrated at "@ + decimal(mismatch.calibrated.width as nat) + "x"@ + decimal(
            mismatch.calibrated.height as nat,
        )),
{
    assert(lateness.line(need_ms) =~= "delivering "@ + decimal(need_ms as nat) + (
    " ms behind real time, and the fusion clock waits at most "@ + decimal(
        lateness.ceiling_ms as nat,
    ) + " ms"@));
    assert(mismatch.line() =~= "running at "@ + decimal(mismatch.running.width as nat) + "x"@
        + decimal(mismatch.running.height as nat) + (", calibrated at "@ + decimal(
        mismatch.calibrated.width as nat,
    ) + "x"@ + decimal(mismatch.calibrated.height as nat)));
}

/// A warning that is about a camera starts with its id, and one about the floor says below
/// exactly where the feet are lower than it.
pub proof fn a_warning_names_what_it_is_about(warning: Warning, whole: nat)
    ensures
        match warning {
            Warning::Unused { id, problem } => id@.is_prefix_of(warning.line(whole))
                && problem@.is_suffix_of(warning.line(whole)),
            Warning::Disagreeing { id, share } => id@.is_prefix_of(warning.line(whole)),
            Warning::Behind { contributing } => ("only "@ + decimal(
                contributing as nat,
            )).is_prefix_of(warning.line(whole)),
            Warning::Floor { height } => warning.line(whole) == "your feet are reconstructing "@
                + decimal(whole) + " cm "@ + (if height.less(Scalar::of(0)) {
                "below"@
            } else {
                "above"@
            }) + " the floor SteamVR reports, so its room setup is off by that much"@,
            _ => true,
        },
{
}

} // verus!
