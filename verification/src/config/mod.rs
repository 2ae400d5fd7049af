//! Application-wide settings.
//!
//! Room-specific data (camera intrinsics, extrinsics, calibration quality) does
//! not live here; it belongs to a room profile so that a user can keep several
//! rooms without their UI preferences following along.

pub mod camera;

use vstd::prelude::*;

use crate::app::panels::Panel;
use crate::config::camera::CameraConfig;
use crate::fusion::bones::MeasureOptions;
use crate::fusion::filter::FilterOptions;
use crate::fusion::fit::FitOptions;
use crate::fusion::fuse::FuseOptions;
use crate::list::{increasing, lemma_filter_step, lemma_grown};
use crate::output::{TrackerRole, ROLES};
use crate::scalar::{lemma_worth_increases, worth, Scalar};
use crate::text::{decimal, decimal_text, lemma_decimal_is_injective};
use crate::time::Duration;

verus! {

/// 0.3 in single precision.
const MIN_CONFIDENCE: u64 = 0x3fd3_3333_4000_0000;

/// 0.1 in single precision.
const MAX_JOINT_SIGMA: u64 = 0x3fb9_9999_a000_0000;

/// 1.2 in single precision.
const SMOOTHING_HZ: u64 = 0x3ff3_3333_4000_0000;

/// 0.08 in single precision.
const MAX_SENT_SIGMA: u64 = 0x3fb4_7ae1_4000_0000;

/// 4.0
const HISTORY_SECONDS: u64 = 0x4010_0000_0000_0000;

/// 5.0
const FIVE_SECONDS: u64 = 0x4014_0000_0000_0000;

/// 1280.0
const WINDOW_WIDTH: u64 = 0x4094_0000_0000_0000;

/// 800.0
const WINDOW_HEIGHT: u64 = 0x4089_0000_0000_0000;

/// Everything the user set.
#[derive(Debug, Clone)]
pub struct Config {
    pub window: WindowConfig,
    pub ui: UiConfig,
    pub capture: CaptureConfig,
    pub inference: InferenceConfig,
    pub vr: VrConfig,
    pub fusion: FusionConfig,
    pub output: OutputConfig,
    /// Room profile to load at startup, by name. The calibration a room needs
    /// belongs to the room rather than to the application, so only its name
    /// lives here.
    pub room: Option<String>,
    pub cameras: Vec<CameraConfig>,
}

/// When the cameras are opened.
#[derive(Debug, Clone, Copy, PartialEq, Eq, Structural)]
pub struct CaptureConfig {
    /// Open the configured cameras as soon as the application starts. A user
    /// who has already set their room up expects it to just run.
    pub auto_start: bool,
}

impl Default for CaptureConfig {
    fn default() -> (config: Self)
        ensures
            config.auto_start,
    {
        CaptureConfig { auto_start: true }
    }
}

/// The id a camera number stands for.
pub open spec fn numbered_id(n: nat) -> Seq<char> {
    "cam"@ + decimal(n)
}

/// Whether a camera uses an id.
pub open spec fn id_taken(cameras: Seq<CameraConfig>, id: Seq<char>) -> bool {
    exists|i: int| 0 <= i < cameras.len() && (#[trigger] cameras[i]).id@ == id
}

/// More cameras would be needed than there are for every one of the first
/// numbers to be taken.
proof fn lemma_a_number_is_free(cameras: Seq<CameraConfig>, n: nat)
    requires
        forall|k: nat| k < n ==> id_taken(cameras, #[trigger] numbered_id(k)),
    ensures
        n <= cameras.len(),
{
    let user = |k: int|
        choose|i: int| 0 <= i < cameras.len() && (#[trigger] cameras[i]).id@ == numbered_id(
            k as nat,
        );
    let users = Seq::new(n, |k: int| user(k));
    assert forall|k: int| 0 <= k < n implies 0 <= #[trigger] users[k] < cameras.len()
        && cameras[users[k]].id@ == numbered_id(k as nat) by {
        assert(id_taken(cameras, numbered_id(k as nat)));
    }
    assert(users.no_duplicates()) by {
        assert forall|a: int, b: int| 0 <= a < n && 0 <= b < n && a != b implies users[a]
            != users[b] by {
            if users[a] == users[b] {
                let (x, y) = (numbered_id(a as nat), numbered_id(b as nat));
                let lead = "cam"@.len() as int;
                assert(x.subrange(lead, x.len() as int) =~= decimal(a as nat));
                assert(y.subrange(lead, y.len() as int) =~= decimal(b as nat));
                lemma_decimal_is_injective(a as nat, b as nat);
            }
        }
    }
    users.unique_seq_to_set();
    let range = vstd::set_lib::set_int_range(0, cameras.len() as int);
    vstd::set_lib::lemma_int_range(0, cameras.len() as int);
    assert(users.to_set().subset_of(range)) by {
        assert forall|i: int| users.to_set().contains(i) implies range.contains(i) by {
            let k = choose|k: int| 0 <= k < users.len() && users[k] == i;
        }
    }
    vstd::set_lib::lemma_len_subset(users.to_set(), range);
}

/// Whether an id is the first numbered one that no camera uses.
pub open spec fn first_free(cameras: Seq<CameraConfig>, id: Seq<char>) -> bool {
    &&& !id_taken(cameras, id)
    &&& exists|n: nat|
        n <= cameras.len() && id == #[trigger] numbered_id(n) && forall|k: nat|
            k < n ==> id_taken(cameras, #[trigger] numbered_id(k))
}

impl Config {
    /// Whether a camera uses an id.
    fn has_camera(&self, id: &String) -> (taken: bool)
        ensures
            taken == id_taken(self.cameras@, id@),
    {
        let mut i: usize = 0;
        while i < self.cameras.len()
            invariant
                i <= self.cameras.len(),
                forall|k: int| 0 <= k < i ==> (#[trigger] self.cameras@[k]).id@ != id@,
            decreases self.cameras.len() - i,
        {
            if self.cameras[i].id == *id {
                return true;
            }
            i = i + 1;
        }
        false
    }

    /// Generates an id that no existing camera uses: the first numbered one that
    /// is free.
    pub fn fresh_camera_id(&self) -> (id: String)
        ensures
            first_free(self.cameras@, id@),
    {
        let mut n: usize = 0;
        loop
            invariant
                n <= self.cameras@.len(),
                forall|k: nat| k < n ==> id_taken(self.cameras@, #[trigger] numbered_id(k)),
            decreases self.cameras@.len() - n,
        {
            let mut id = "cam".to_owned();
            id.append(decimal_text(n as u64).as_str());
            assert(id@ == numbered_id(n as nat));
            if !self.has_camera(&id) {
                return id;
            }
            proof {
                assert forall|k: nat| k < n + 1 implies id_taken(
                    self.cameras@,
                    #[trigger] numbered_id(k),
                ) by {}
                lemma_a_number_is_free(self.cameras@, (n + 1) as nat);
                assert(self.cameras@.len() == self.cameras.len());
            }
            n = n + 1;
        }
    }
}

/// Where the window was.
#[derive(Debug, Clone, Copy, PartialEq, Eq, Structural)]
pub struct WindowConfig {
    pub width: Scalar,
    pub height: Scalar,
    pub pos: Option<WindowPosition>,
    pub maximized: bool,
}

/// Where the window's corner was.
#[derive(Debug, Clone, Copy, PartialEq, Eq, Structural)]
pub struct WindowPosition {
    pub x: Scalar,
    pub y: Scalar,
}

impl Default for WindowConfig {
    fn default() -> (config: Self)
        ensures
            config.width.bits == 0x4094_0000_0000_0000,
            config.height.bits == 0x4089_0000_0000_0000,
            config.pos is None,
            !config.maximized,
    {
        WindowConfig {
            width: Scalar::from_bits(WINDOW_WIDTH),
            height: Scalar::from_bits(WINDOW_HEIGHT),
            pos: None,
            maximized: false,
        }
    }
}

/// What the window shows.
#[derive(Debug, Clone, Copy, PartialEq, Eq, Structural)]
pub struct UiConfig {
    pub panel: Panel,
    /// Minimum level shown in the log panel.
    pub log_level: LogLevel,
}

impl Default for UiConfig {
    fn default() -> (config: Self)
        ensures
            config.panel == Panel::Cameras,
            config.log_level == LogLevel::Info,
    {
        UiConfig { panel: Panel::Cameras, log_level: LogLevel::Info }
    }
}

/// How severe a log record is.
#[derive(Debug, Clone, Copy, PartialEq, Eq, Structural)]
pub enum LogLevel {
    Error,
    Warn,
    Info,
    Debug,
    Trace,
}

impl LogLevel {
    pub const ALL: [LogLevel; 5] = [
        LogLevel::Error,
        LogLevel::Warn,
        LogLevel::Info,
        LogLevel::Debug,
        LogLevel::Trace,
    ];

    /// The name shown for the level.
    pub fn label(self) -> (label: &'static str)
        ensures
            label@ == match self {
                LogLevel::Error => "Error"@,
                LogLevel::Warn => "Warn"@,
                LogLevel::Info => "Info"@,
                LogLevel::Debug => "Debug"@,
                LogLevel::Trace => "Trace"@,
            },
    {
        match self {
            LogLevel::Error => "Error",
            LogLevel::Warn => "Warn",
            LogLevel::Info => "Info",
            LogLevel::Debug => "Debug",
            LogLevel::Trace => "Trace",
        }
    }

    /// How far down the levels this is, the most severe first.
    pub open spec fn depth(self) -> int {
        match self {
            LogLevel::Error => 0,
            LogLevel::Warn => 1,
            LogLevel::Info => 2,
            LogLevel::Debug => 3,
            LogLevel::Trace => 4,
        }
    }

    /// How far down the levels this is, the most severe first.
    pub fn rank(self) -> (rank: u8)
        ensures
            rank == self.depth(),
    {
        match self {
            LogLevel::Error => 0,
            LogLevel::Warn => 1,
            LogLevel::Info => 2,
            LogLevel::Debug => 3,
            LogLevel::Trace => 4,
        }
    }

    /// True if a record at `level` should be shown at this filter setting.
    pub fn includes(self, level: LogLevel) -> (shown: bool)
        ensures
            shown == (level.depth() <= self.depth()),
    {
        level.rank() <= self.rank()
    }
}

/// Settings for the inference stage.
#[derive(Debug, Clone)]
pub struct InferenceConfig {
    pub enabled: bool,
    /// Execution provider requested for every model, by its name. Where it is
    /// empty the choice is left to the runtime.
    pub provider: String,
    /// Detector used by cameras that do not name their own.
    pub detector_model: String,
    /// Pose model used by cameras that do not name their own.
    pub pose_model: String,
    /// Frames to skip between detector runs. The subject is one slowly moving
    /// person, so detecting every frame buys little and costs a lot.
    pub detect_every: u32,
}

impl Default for InferenceConfig {
    fn default() -> (config: Self)
        ensures
            config.enabled,
            config.provider@.len() == 0,
            config.detector_model@ == "yolox-tiny-humanart-416"@,
            config.pose_model@ == "rtmpose-m-halpe26-256x192"@,
            config.detect_every == 5,
    {
        InferenceConfig {
            enabled: true,
            provider: String::new(),
            detector_model: "yolox-tiny-humanart-416".to_owned(),
            pose_model: "rtmpose-m-halpe26-256x192".to_owned(),
            detect_every: 5,
        }
    }
}

/// Settings for the fusion stage.
///
/// Only the knobs a user has reason to touch.
#[derive(Debug, Clone, Copy, PartialEq, Eq, Structural)]
pub struct FusionConfig {
    pub enabled: bool,
    /// Rate of the fusion clock, in hertz.
    pub rate_hz: u32,
    /// Margin the fusion clock keeps on top of what the cameras are measured
    /// to be delivering, in milliseconds.
    pub align_slack_ms: u32,
    /// How far behind real time the fusion clock will ever sit, in
    /// milliseconds. A camera later than this is left out of the reconstruction
    /// entirely and said so in the Tracking panel.
    pub max_lag_ms: u32,
    /// Keypoint confidence below which a ray is not used.
    pub min_confidence: Scalar,
    /// Positional uncertainty past which a joint is withheld, in metres.
    pub max_joint_sigma: Scalar,
    /// How far ahead to predict, in milliseconds.
    pub prediction_ms: u32,
    /// Cutoff of the position smoothing at rest, in hertz. Lower is stiller and
    /// slower to respond.
    pub smoothing_hz: Scalar,
    /// Keep refining the body measurement while tracking runs.
    pub measure_body: bool,
}

impl Default for FusionConfig {
    fn default() -> (config: Self)
        ensures
            config.enabled,
            config.rate_hz == 60,
            config.align_slack_ms == 40,
            config.max_lag_ms == 220,
            config.min_confidence.bits == 0x3fd3_3333_4000_0000,
            config.max_joint_sigma.bits == 0x3fb9_9999_a000_0000,
            config.prediction_ms == 20,
            config.smoothing_hz.bits == 0x3ff3_3333_4000_0000,
            config.measure_body,
    {
        FusionConfig {
            enabled: true,
            rate_hz: 60,
            align_slack_ms: 40,
            max_lag_ms: 220,
            min_confidence: Scalar::from_bits(MIN_CONFIDENCE),
            max_joint_sigma: Scalar::from_bits(MAX_JOINT_SIGMA),
            prediction_ms: 20,
            smoothing_hz: Scalar::from_bits(SMOOTHING_HZ),
            measure_body: true,
        }
    }
}

impl FusionConfig {
    /// What the reconstruction accepts.
    pub fn fuse_options(&self) -> (options: FuseOptions)
        ensures
            options.min_confidence == self.min_confidence,
            options.max_sigma == self.max_joint_sigma,
            options.inlier_threshold.bits == 0x3f84_7ae1_47ae_147b,
    {
        let base = FuseOptions::default();
        FuseOptions {
            min_confidence: self.min_confidence,
            max_sigma: self.max_joint_sigma,
            inlier_threshold: base.inlier_threshold,
        }
    }

    /// How the fit is run.
    pub fn fit_options(&self, measure: MeasureOptions) -> (options: FitOptions)
        ensures
            options.measure == measure,
            options.passes == 12,
            options.floor.bits == 0,
            options.free_sigma.bits == 0x3fe0_0000_0000_0000,
            options.min_sigma.bits == 0x3f68_9374_bc6a_7efa,
            options.limit_knees,
    {
        let mut options = FitOptions::default();
        options.measure = measure;
        options
    }

    /// How the filter is tuned.
    pub fn filter_options(&self) -> (options: FilterOptions)
        ensures
            options.min_cutoff == self.smoothing_hz,
            options.horizon.nanos == self.prediction_ms * 1_000_000,
            options.beta.bits == 0x4010_0000_0000_0000,
            options.derivative_cutoff.bits == 0x4008_0000_0000_0000,
            options.agility.bits == 0x4014_0000_0000_0000,
            options.caution.bits == 0x3ff0_0000_0000_0000,
            options.max_prediction.bits == 0x3fd6_6666_6666_6666,
            options.patience.nanos == 400_000_000,
            options.reacquire.nanos == 120_000_000,
    {
        let mut options = FilterOptions::default();
        options.min_cutoff = self.smoothing_hz;
        options.horizon = Duration::from_millis(self.prediction_ms as u64);
        options
    }
}

/// How SteamVR is reached.
#[derive(Debug, Clone, Copy, PartialEq, Eq, Structural)]
pub struct VrConfig {
    /// Look for SteamVR at all. Turning it off is for a machine being used
    /// only to set cameras up.
    pub enabled: bool,
    /// Pose sampling rate.
    pub poll_hz: u32,
    /// How much pose history to keep.
    pub history_seconds: Scalar,
    /// Wait between attempts to reach SteamVR.
    pub retry_seconds: Scalar,
    /// How long the headset may stop reporting before the connection is
    /// dropped and reopened.
    pub patience_seconds: Scalar,
}

impl Default for VrConfig {
    fn default() -> (config: Self)
        ensures
            config.enabled,
            config.poll_hz == 120,
            config.history_seconds.bits == 0x4010_0000_0000_0000,
            config.retry_seconds.bits == 0x4014_0000_0000_0000,
            config.patience_seconds.bits == 0x4014_0000_0000_0000,
    {
        VrConfig {
            enabled: true,
            poll_hz: 120,
            history_seconds: Scalar::from_bits(HISTORY_SECONDS),
            retry_seconds: Scalar::from_bits(FIVE_SECONDS),
            patience_seconds: Scalar::from_bits(FIVE_SECONDS),
        }
    }
}

/// Where the trackers go.
#[derive(Debug, Clone, Copy, PartialEq, Eq, Structural)]
pub enum SinkKind {
    /// VRChat's own OSC tracker input.
    VrchatOsc,
    /// VirtualMotionTracker's virtual SteamVR devices.
    Vmt,
}

impl SinkKind {
    pub const ALL: [SinkKind; 2] = [SinkKind::VrchatOsc, SinkKind::Vmt];

    /// The name shown for the sink.
    pub fn label(self) -> (label: &'static str)
        ensures
            label@ == match self {
                SinkKind::VrchatOsc => "VRChat OSC"@,
                SinkKind::Vmt => "SteamVR via VMT"@,
            },
    {
        match self {
            SinkKind::VrchatOsc => "VRChat OSC",
            SinkKind::Vmt => "SteamVR via VMT",
        }
    }

    /// What choosing it means, for a user who has not met either.
    pub fn description(self) -> (description: &'static str)
        ensures
            description@ == match self {
                SinkKind::VrchatOsc => "Straight into VRChat, no driver to install. Only VRChat sees the trackers."@,
                SinkKind::Vmt => "Real SteamVR devices, so anything that reads SteamVR sees them. Needs VirtualMotionTracker installed."@,
            },
    {
        match self {
            SinkKind::VrchatOsc => "Straight into VRChat, no driver to install. Only VRChat sees the trackers.",
            SinkKind::Vmt => "Real SteamVR devices, so anything that reads SteamVR sees them. Needs VirtualMotionTracker installed.",
        }
    }
}

/// An offset from a joint, in the tracker's own frame and in metres.
#[derive(Debug, Clone, Copy, PartialEq, Eq, Structural)]
pub struct Offset {
    pub x: Scalar,
    pub y: Scalar,
    pub z: Scalar,
}

/// Whether two numbers compare as equal.
pub open spec fn equal_numbers(a: Scalar, b: Scalar) -> bool {
    a.at_most(b) && b.at_most(a)
}

impl Offset {
    /// Whether two offsets compare as equal.
    pub open spec fn equals(self, other: Offset) -> bool {
        &&& equal_numbers(self.x, other.x)
        &&& equal_numbers(self.y, other.y)
        &&& equal_numbers(self.z, other.z)
    }

    /// Whether two offsets compare as equal.
    fn same(self, other: Offset) -> (same: bool)
        ensures
            same == self.equals(other),
    {
        self.x.le(other.x) && other.x.le(self.x) && self.y.le(other.y) && other.y.le(self.y)
            && self.z.le(other.z) && other.z.le(self.z)
    }

    /// No offset.
    pub open spec fn nothing() -> Offset {
        Offset { x: Scalar { bits: 0 }, y: Scalar { bits: 0 }, z: Scalar { bits: 0 } }
    }

    /// No offset.
    pub fn none() -> (offset: Offset)
        ensures
            offset == Offset::nothing(),
    {
        Offset { x: Scalar::from_bits(0), y: Scalar::from_bits(0), z: Scalar::from_bits(0) }
    }
}

/// One tracker's settings.
#[derive(Debug, Clone, Copy, PartialEq, Eq, Structural)]
pub struct TrackerConfig {
    pub role: TrackerRole,
    pub enabled: bool,
    /// Offset from the joint to where the tracker should sit.
    ///
    /// A real puck is strapped to the outside of a limb, not to the bone: being
    /// consistently a few centimetres off is harmless and being somewhere
    /// different every session is not.
    pub offset: Offset,
}

impl TrackerConfig {
    /// Whether two trackers are set up alike.
    pub open spec fn equals(self, other: TrackerConfig) -> bool {
        self.role == other.role && self.enabled == other.enabled && self.offset.equals(
            other.offset,
        )
    }
}

/// Settings for the output stage.
#[derive(Debug)]
pub struct OutputConfig {
    pub enabled: bool,
    pub sink: SinkKind,
    /// Sends per second.
    pub rate_hz: u32,
    pub vrchat_target: String,
    pub vmt_target: String,
    /// Tell VMT what SteamVR's room setup is, for this run only.
    pub vmt_send_room_matrix: bool,
    /// Furthest ahead of the reconstruction the output may extrapolate, in
    /// milliseconds.
    pub max_lead_ms: u32,
    /// Positional uncertainty past which a tracker is not sent, in metres.
    pub max_sigma: Scalar,
    pub trackers: Vec<TrackerConfig>,
}

/// The output settings as mathematical values.
pub struct OutputModel {
    pub enabled: bool,
    pub sink: SinkKind,
    pub rate_hz: u32,
    pub vrchat_target: Seq<char>,
    pub vmt_target: Seq<char>,
    pub vmt_send_room_matrix: bool,
    pub max_lead_ms: u32,
    pub max_sigma: Scalar,
    pub trackers: Seq<TrackerConfig>,
}

impl View for OutputConfig {
    type V = OutputModel;

    open spec fn view(&self) -> OutputModel {
        OutputModel {
            enabled: self.enabled,
            sink: self.sink,
            rate_hz: self.rate_hz,
            vrchat_target: self.vrchat_target@,
            vmt_target: self.vmt_target@,
            vmt_send_room_matrix: self.vmt_send_room_matrix,
            max_lead_ms: self.max_lead_ms,
            max_sigma: self.max_sigma,
            trackers: self.trackers@,
        }
    }
}

impl OutputModel {
    /// Whether two sets of settings ask for the same.
    pub open spec fn equals(self, other: OutputModel) -> bool {
        &&& self.enabled == other.enabled
        &&& self.sink == other.sink
        &&& self.rate_hz == other.rate_hz
        &&& self.vrchat_target == other.vrchat_target
        &&& self.vmt_target == other.vmt_target
        &&& self.vmt_send_room_matrix == other.vmt_send_room_matrix
        &&& self.max_lead_ms == other.max_lead_ms
        &&& equal_numbers(self.max_sigma, other.max_sigma)
        &&& self.trackers.len() == other.trackers.len()
        &&& forall|i: int|
            0 <= i < self.trackers.len() ==> (#[trigger] self.trackers[i]).equals(
                other.trackers[i],
            )
    }
}

impl Clone for OutputConfig {
    fn clone(&self) -> (copy: Self)
        ensures
            copy@ == self@,
    {
        let mut trackers: Vec<TrackerConfig> = Vec::new();
        let mut i: usize = 0;
        while i < self.trackers.len()
            invariant
                i <= self.trackers.len(),
                trackers@ == self.trackers@.take(i as int),
            decreases self.trackers.len() - i,
        {
            trackers.push(self.trackers[i]);
            proof {
                assert(trackers@ =~= self.trackers@.take(i + 1));
            }
            i = i + 1;
        }
        proof {
            assert(self.trackers@.take(i as int) =~= self.trackers@);
        }
        OutputConfig {
            enabled: self.enabled,
            sink: self.sink,
            rate_hz: self.rate_hz,
            vrchat_target: self.vrchat_target.clone(),
            vmt_target: self.vmt_target.clone(),
            vmt_send_room_matrix: self.vmt_send_room_matrix,
            max_lead_ms: self.max_lead_ms,
            max_sigma: self.max_sigma,
            trackers,
        }
    }
}

/// Whether a role has settings.
pub open spec fn configured(trackers: Seq<TrackerConfig>, role: TrackerRole) -> bool {
    exists|i: int| 0 <= i < trackers.len() && (#[trigger] trackers[i]).role == role
}

/// The trackers with the first `n` roles filled in.
pub open spec fn completed(trackers: Seq<TrackerConfig>, n: nat) -> Seq<TrackerConfig>
    decreases n,
{
    if n == 0 {
        trackers
    } else {
        let before = completed(trackers, (n - 1) as nat);
        let role = TrackerRole::ALL@[n - 1];
        if configured(before, role) {
            before
        } else {
            before.push(TrackerConfig { role, enabled: false, offset: Offset::nothing() })
        }
    }
}

/// The roles that are switched on, in the order of their settings.
pub open spec fn enabled_among(trackers: Seq<TrackerConfig>) -> Seq<TrackerRole> {
    trackers.filter(|tracker: TrackerConfig| tracker.enabled).map_values(
        |tracker: TrackerConfig| tracker.role,
    )
}

/// Whether a tracker is switched on and has an offset.
pub open spec fn shifted(tracker: TrackerConfig) -> bool {
    tracker.enabled && !tracker.offset.equals(Offset::nothing())
}

impl OutputConfig {
    /// Whether two sets of settings ask for the same.
    pub fn same(&self, other: &OutputConfig) -> (same: bool)
        ensures
            same == self@.equals(other@),
    {
        if self.enabled != other.enabled || self.sink != other.sink || self.rate_hz
            != other.rate_hz || self.vrchat_target != other.vrchat_target || self.vmt_target
            != other.vmt_target || self.vmt_send_room_matrix != other.vmt_send_room_matrix
            || self.max_lead_ms != other.max_lead_ms || !self.max_sigma.le(other.max_sigma)
            || !other.max_sigma.le(self.max_sigma) || self.trackers.len()
            != other.trackers.len() {
            return false;
        }
        let mut i: usize = 0;
        while i < self.trackers.len()
            invariant
                i <= self.trackers.len(),
                self.trackers@.len() == other.trackers@.len(),
                forall|k: int|
                    0 <= k < i ==> (#[trigger] self.trackers@[k]).equals(other.trackers@[k]),
            decreases self.trackers.len() - i,
        {
            let (a, b): (TrackerConfig, TrackerConfig) = (self.trackers[i], other.trackers[i]);
            if a.role != b.role || a.enabled != b.enabled || !a.offset.same(b.offset) {
                assert(!self.trackers@[i as int].equals(other.trackers@[i as int]));
                return false;
            }
            i = i + 1;
        }
        true
    }

    fn has_role(&self, role: TrackerRole) -> (has: bool)
        ensures
            has == configured(self.trackers@, role),
    {
        let mut i: usize = 0;
        while i < self.trackers.len()
            invariant
                i <= self.trackers.len(),
                forall|k: int| 0 <= k < i ==> (#[trigger] self.trackers@[k]).role != role,
            decreases self.trackers.len() - i,
        {
            if self.trackers[i].role == role {
                return true;
            }
            i = i + 1;
        }
        false
    }

    /// Fills in any role missing from a config written by an older build, so a
    /// new tracker does not simply fail to appear in the panel.
    pub fn complete(&mut self)
        ensures
            final(self).trackers@ == completed(old(self).trackers@, ROLES as nat),
            *final(self) == (OutputConfig { trackers: final(self).trackers, ..*old(self) }),
    {
        let mut i: usize = 0;
        while i < ROLES
            invariant
                i <= ROLES,
                self.trackers@ == completed(old(self).trackers@, i as nat),
                *self == (OutputConfig { trackers: self.trackers, ..*old(self) }),
            decreases ROLES - i,
        {
            let role: TrackerRole = TrackerRole::ALL[i];
            if !self.has_role(role) {
                self.trackers.push(TrackerConfig { role, enabled: false, offset: Offset::none() });
            }
            i = i + 1;
        }
    }

    /// The roles that are switched on.
    pub fn enabled_roles(&self) -> (roles: Vec<TrackerRole>)
        ensures
            roles@ == enabled_among(self.trackers@),
    {
        let ghost on = |tracker: TrackerConfig| tracker.enabled;
        let ghost role = |tracker: TrackerConfig| tracker.role;
        let mut roles: Vec<TrackerRole> = Vec::new();
        let mut i: usize = 0;
        proof {
            assert(self.trackers@.take(0).filter(on).map_values(role) =~= Seq::empty()) by {
                reveal(Seq::filter);
            }
        }
        while i < self.trackers.len()
            invariant
                i <= self.trackers.len(),
                on == (|tracker: TrackerConfig| tracker.enabled),
                role == (|tracker: TrackerConfig| tracker.role),
                roles@ == self.trackers@.take(i as int).filter(on).map_values(role),
            decreases self.trackers.len() - i,
        {
            proof {
                lemma_filter_step(self.trackers@, on, i as int);
            }
            if self.trackers[i].enabled {
                roles.push(self.trackers[i].role);
            }
            proof {
                assert(roles@ =~= self.trackers@.take(i + 1).filter(on).map_values(role));
            }
            i = i + 1;
        }
        proof {
            assert(self.trackers@.take(i as int) =~= self.trackers@);
        }
        roles
    }

    /// Per-role offsets, for the roles that are on and have one.
    pub fn offsets(&self) -> (offsets: Vec<TrackerConfig>)
        ensures
            offsets@ == self.trackers@.filter(|tracker: TrackerConfig| shifted(tracker)),
    {
        let ghost wanted = |tracker: TrackerConfig| shifted(tracker);
        let mut offsets: Vec<TrackerConfig> = Vec::new();
        let mut i: usize = 0;
        proof {
            assert(self.trackers@.take(0).filter(wanted) =~= Seq::empty()) by {
                reveal(Seq::filter);
            }
        }
        while i < self.trackers.len()
            invariant
                i <= self.trackers.len(),
                wanted == (|tracker: TrackerConfig| shifted(tracker)),
                offsets@ == self.trackers@.take(i as int).filter(wanted),
            decreases self.trackers.len() - i,
        {
            proof {
                lemma_filter_step(self.trackers@, wanted, i as int);
            }
            let tracker: TrackerConfig = self.trackers[i];
            if tracker.enabled && !tracker.offset.same(Offset::none()) {
                offsets.push(tracker);
            }
            i = i + 1;
        }
        proof {
            assert(self.trackers@.take(i as int) =~= self.trackers@);
        }
        offsets
    }

    /// The address of the chosen sink.
    pub fn target(&self) -> (target: &String)
        ensures
            *target == match self.sink {
                SinkKind::VrchatOsc => self.vrchat_target,
                SinkKind::Vmt => self.vmt_target,
            },
    {
        match self.sink {
            SinkKind::VrchatOsc => &self.vrchat_target,
            SinkKind::Vmt => &self.vmt_target,
        }
    }

    /// The address of the chosen sink, to be edited.
    pub fn target_mut(&mut self) -> (target: &mut String)
        ensures
            *target == match old(self).sink {
                SinkKind::VrchatOsc => old(self).vrchat_target,
                SinkKind::Vmt => old(self).vmt_target,
            },
            *final(self) == match old(self).sink {
                SinkKind::VrchatOsc => (OutputConfig {
                    vrchat_target: *final(target),
                    ..*old(self)
                }),
                SinkKind::Vmt => (OutputConfig { vmt_target: *final(target), ..*old(self) }),
            },
    {
        match self.sink {
            SinkKind::VrchatOsc => &mut self.vrchat_target,
            SinkKind::Vmt => &mut self.vmt_target,
        }
    }

    /// The settings of a fresh install, given the addresses the two sinks listen
    /// at: hips and both feet on, the rest there to be turned on by someone who
    /// has checked that their room supports them.
    pub fn fresh(vrchat_target: String, vmt_target: String) -> (config: Self)
        ensures
            !config.enabled,
            config.sink == SinkKind::VrchatOsc,
            config.rate_hz == 90,
            config.vrchat_target == vrchat_target,
            config.vmt_target == vmt_target,
            config.vmt_send_room_matrix,
            config.max_lead_ms == 150,
            config.max_sigma.bits == 0x3fb4_7ae1_4000_0000,
            config.trackers@ == Seq::new(
                ROLES as nat,
                |i: int|
                    TrackerConfig {
                        role: TrackerRole::ALL@[i],
                        enabled: TrackerRole::ALL@[i].essential(),
                        offset: Offset::nothing(),
                    },
            ),
    {
        let ghost all = Seq::new(
            ROLES as nat,
            |i: int|
                TrackerConfig {
                    role: TrackerRole::ALL@[i],
                    enabled: TrackerRole::ALL@[i].essential(),
                    offset: Offset::nothing(),
                },
        );
        let mut trackers: Vec<TrackerConfig> = Vec::new();
        let mut i: usize = 0;
        while i < ROLES
            invariant
                i <= ROLES,
                trackers@.len() == i,
                all.len() == ROLES,
                forall|k: int|
                    0 <= k < ROLES ==> #[trigger] all[k] == (TrackerConfig {
                        role: TrackerRole::ALL@[k],
                        enabled: TrackerRole::ALL@[k].essential(),
                        offset: Offset::nothing(),
                    }),
                forall|k: int| 0 <= k < i ==> trackers@[k] == #[trigger] all[k],
            decreases ROLES - i,
        {
            let role: TrackerRole = TrackerRole::ALL[i];
            trackers.push(
                TrackerConfig { role, enabled: role.is_essential(), offset: Offset::none() },
            );
            i = i + 1;
        }
        assert(trackers@ =~= all);
        OutputConfig {
            enabled: false,
            sink: SinkKind::VrchatOsc,
            rate_hz: 90,
            vrchat_target,
            vmt_target,
            vmt_send_room_matrix: true,
            max_lead_ms: 150,
            max_sigma: Scalar::from_bits(MAX_SENT_SIGMA),
            trackers,
        }
    }
}

proof fn lemma_completed(trackers: Seq<TrackerConfig>, n: nat)
    requires
        n <= ROLES,
    ensures
        completed(trackers, n).len() >= trackers.len(),
        completed(trackers, n).take(trackers.len() as int) == trackers,
        forall|i: int| 0 <= i < n ==> configured(completed(trackers, n), #[trigger] TrackerRole::ALL@[i]),
    decreases n,
{
    if n > 0 {
        let before = completed(trackers, (n - 1) as nat);
        let after = completed(trackers, n);
        lemma_completed(trackers, (n - 1) as nat);
        assert(after.take(trackers.len() as int) =~= trackers) by {
            assert(before.take(trackers.len() as int) =~= trackers);
            assert forall|k: int| 0 <= k < trackers.len() implies after[k] == trackers[k] by {
                assert(before.take(trackers.len() as int)[k] == trackers[k]);
            }
        }
        assert forall|i: int| 0 <= i < n implies configured(
            after,
            #[trigger] TrackerRole::ALL@[i],
        ) by {
            if i < n - 1 {
                assert(configured(before, TrackerRole::ALL@[i]));
                let k = choose|k: int|
                    0 <= k < before.len() && (#[trigger] before[k]).role == TrackerRole::ALL@[i];
                assert(after[k] == before[k]);
            } else if !configured(before, TrackerRole::ALL@[i]) {
                assert(after[before.len() as int].role == TrackerRole::ALL@[i]);
            }
        }
    }
}

/// Completing a config keeps what is set and leaves no role without settings;
/// completing it again changes nothing.
pub proof fn completing_keeps_what_is_set(trackers: Seq<TrackerConfig>, role: TrackerRole)
    ensures
        completed(trackers, ROLES as nat).take(trackers.len() as int) == trackers,
        configured(completed(trackers, ROLES as nat), role),
        completed(completed(trackers, ROLES as nat), ROLES as nat) == completed(
            trackers,
            ROLES as nat,
        ),
{
    lemma_completed(trackers, ROLES as nat);
    let full = completed(trackers, ROLES as nat);
    let all = TrackerRole::ALL@;
    assert(all[0] == TrackerRole::Hip && all[1] == TrackerRole::LeftFoot && all[2]
        == TrackerRole::RightFoot && all[3] == TrackerRole::LeftKnee && all[4]
        == TrackerRole::RightKnee && all[5] == TrackerRole::Chest && all[6]
        == TrackerRole::LeftElbow && all[7] == TrackerRole::RightElbow);
    lemma_complete_is_stable(full, ROLES as nat);
}

proof fn lemma_complete_is_stable(full: Seq<TrackerConfig>, n: nat)
    requires
        n <= ROLES,
        forall|i: int| 0 <= i < ROLES ==> configured(full, #[trigger] TrackerRole::ALL@[i]),
    ensures
        completed(full, n) == full,
    decreases n,
{
    if n > 0 {
        lemma_complete_is_stable(full, (n - 1) as nat);
        assert(configured(full, TrackerRole::ALL@[n - 1]));
    }
}

/// The id of a new camera is the name of cameras with the lowest number that no camera
/// has.
pub proof fn a_new_camera_gets_the_lowest_number(cameras: Seq<CameraConfig>, id: Seq<char>)
    requires
        first_free(cameras, id),
    ensures
        forall|i: int| 0 <= i < cameras.len() ==> (#[trigger] cameras[i]).id@ != id,
        exists|n: nat|
            id == "cam"@ + #[trigger] decimal(n) && forall|k: nat|
                k < n ==> id_taken(cameras, "cam"@ + #[trigger] decimal(k)),
{
    let n = choose|n: nat|
        n <= cameras.len() && id == #[trigger] numbered_id(n) && forall|k: nat|
            k < n ==> id_taken(cameras, #[trigger] numbered_id(k));
    assert(id == "cam"@ + decimal(n));
    assert forall|k: nat| k < n implies id_taken(cameras, "cam"@ + #[trigger] decimal(k)) by {
        assert(id_taken(cameras, numbered_id(k)));
    }
}

/// A level shows what is as grave as itself and what is graver.
pub proof fn a_level_shows_what_is_graver()
    ensures
        LogLevel::Error.depth() < LogLevel::Warn.depth() < LogLevel::Info.depth()
            < LogLevel::Debug.depth() < LogLevel::Trace.depth(),
{
}

/// Two setups of the output are the same only if nothing tells them apart: no switch,
/// target or rate, and no tracker's role, switch or place on any axis. A setup whose
/// numbers are numbers is the same as itself.
pub proof fn setups_are_the_same_if_nothing_differs(a: OutputModel, b: OutputModel)
    ensures
        a.equals(b) ==> a.enabled == b.enabled && a.sink == b.sink && a.rate_hz == b.rate_hz
            && a.vrchat_target == b.vrchat_target && a.vmt_target == b.vmt_target
            && a.vmt_send_room_matrix == b.vmt_send_room_matrix && a.max_lead_ms == b.max_lead_ms
            && a.max_sigma.units() == b.max_sigma.units() && a.trackers.len() == b.trackers.len(),
        a.equals(b) ==> forall|i: int|
            #![trigger a.trackers[i]]
            0 <= i < a.trackers.len() ==> a.trackers[i].role == b.trackers[i].role
                && a.trackers[i].enabled == b.trackers[i].enabled
                && a.trackers[i].offset.x.units() == b.trackers[i].offset.x.units()
                && a.trackers[i].offset.y.units() == b.trackers[i].offset.y.units()
                && a.trackers[i].offset.z.units() == b.trackers[i].offset.z.units(),
        a.equals(b) ==> b.equals(a),
        !a.max_sigma.nan() && (forall|i: int|
            #![trigger a.trackers[i]]
            0 <= i < a.trackers.len() ==> !a.trackers[i].offset.x.nan()
                && !a.trackers[i].offset.y.nan() && !a.trackers[i].offset.z.nan()) ==> a.equals(a),
{
    if a.equals(b) {
        assert forall|i: int| 0 <= i < a.trackers.len() implies (#[trigger] b.trackers[i]).equals(
            a.trackers[i],
        ) by {
            assert(a.trackers[i].equals(b.trackers[i]));
        }
        assert(b.equals(a));
    }
}

/// A tracker is moved exactly if it is enabled and its place is off by anything on any
/// axis, or by what is no number.
pub proof fn a_tracker_is_moved_if_it_is_off_on_any_axis(tracker: TrackerConfig)
    ensures
        ({
            let off = |axis: Scalar| axis.bits % 0x8000_0000_0000_0000 != 0;
            shifted(tracker) <==> tracker.enabled && (off(tracker.offset.x) || off(tracker.offset.y)
                || off(tracker.offset.z))
        }),
{
    lemma_worth_is_zero_only_at_zero(tracker.offset.x);
    lemma_worth_is_zero_only_at_zero(tracker.offset.y);
    lemma_worth_is_zero_only_at_zero(tracker.offset.z);
    assert(Scalar { bits: 0 }.units() == 0);
}

proof fn lemma_worth_is_zero_only_at_zero(axis: Scalar)
    ensures
        axis.units() == 0 <==> axis.bits % 0x8000_0000_0000_0000 == 0,
{
    assert(worth(0) == 0);
    assert(axis.magnitude() == axis.bits % 0x8000_0000_0000_0000);
    if axis.magnitude() > 0 {
        lemma_worth_increases(0, axis.magnitude());
    }
}

/// What completing adds is one tracker for each role that had none, in the order of
/// the roles, switched off and not moved.
pub proof fn what_is_added_is_switched_off(trackers: Seq<TrackerConfig>, n: nat) -> (from: Seq<int>)
    requires
        n <= ROLES,
    ensures
        increasing(from),
        forall|r: int| #[trigger]
            from.contains(r) <==> 0 <= r < n && !configured(trackers, TrackerRole::ALL@[r]),
        completed(trackers, n).len() == trackers.len() + from.len(),
        forall|k: int|
            0 <= k < from.len() ==> ({
                let added = completed(trackers, n)[trackers.len() + k];
                &&& added.role == TrackerRole::ALL@[#[trigger] from[k]]
                &&& !added.enabled
                &&& added.offset.x.bits == 0 && added.offset.y.bits == 0 && added.offset.z.bits == 0
            }),
    decreases n,
{
    if n == 0 {
        Seq::empty()
    } else {
        let before = what_is_added_is_switched_off(trackers, (n - 1) as nat);
        let role = TrackerRole::ALL@[n - 1];
        let all = completed(trackers, (n - 1) as nat);
        lemma_completed(trackers, (n - 1) as nat);
        let more = !configured(trackers, role);
        if configured(trackers, role) {
            let i = choose|i: int| 0 <= i < trackers.len() && (#[trigger] trackers[i]).role == role;
            assert(all.take(trackers.len() as int)[i] == all[i]);
            assert(all[i].role == role);
            assert(configured(all, role));
        } else if configured(all, role) {
            let i = choose|i: int| 0 <= i < all.len() && (#[trigger] all[i]).role == role;
            if i < trackers.len() {
                assert(all.take(trackers.len() as int)[i] == all[i]);
                assert(trackers[i].role == role);
            } else {
                let k = i - trackers.len();
                assert(before.contains(before[k]));
                assert(all[trackers.len() + k].role == TrackerRole::ALL@[before[k]]);
                lemma_roles_are_distinct(before[k], n - 1);
            }
            assert(false);
        }
        let from = if more {
            before.push(n - 1)
        } else {
            before
        };
        lemma_grown(before, from, more, n - 1);
        let after = completed(trackers, n);
        assert forall|k: int| 0 <= k < from.len() implies ({
            let added = after[trackers.len() + k];
            &&& added.role == TrackerRole::ALL@[#[trigger] from[k]]
            &&& !added.enabled
            &&& added.offset.x.bits == 0 && added.offset.y.bits == 0 && added.offset.z.bits == 0
        }) by {
            if k < before.len() {
                assert(before[k] == from[k]);
                assert(after[trackers.len() + k] == all[trackers.len() + k]);
            }
        }
        from
    }
}

proof fn lemma_roles_are_distinct(a: int, b: int)
    requires
        0 <= a < b < ROLES,
    ensures
        TrackerRole::ALL@[a] != TrackerRole::ALL@[b],
{
}

/// Exactly the roles of the trackers that are enabled are driven, in order.
pub proof fn every_enabled_tracker_is_driven(trackers: Seq<TrackerConfig>) -> (from: Seq<int>)
    ensures
        increasing(from),
        forall|i: int| #[trigger]
            from.contains(i) <==> 0 <= i < trackers.len() && trackers[i].enabled,
        enabled_among(trackers).len() == from.len(),
        forall|k: int|
            0 <= k < from.len() ==> enabled_among(trackers)[k] == trackers[#[trigger] from[k]].role,
    decreases trackers.len(),
{
    let on = |tracker: TrackerConfig| tracker.enabled;
    let role = |tracker: TrackerConfig| tracker.role;
    assert(enabled_among(trackers) == trackers.filter(on).map_values(role));
    if trackers.len() == 0 {
        assert(trackers.filter(on).len() == 0) by {
            reveal(Seq::filter);
        }
        Seq::empty()
    } else {
        let fewer = trackers.drop_last();
        let n = trackers.len() - 1;
        let before = every_enabled_tracker_is_driven(fewer);
        let more = trackers[n].enabled;
        let from = if more {
            before.push(n)
        } else {
            before
        };
        lemma_grown(before, from, more, n);
        lemma_filter_step(trackers, on, n);
        assert(trackers.take(n) =~= fewer);
        assert(trackers.take(n + 1) =~= trackers);
        assert(enabled_among(fewer) == fewer.filter(on).map_values(role));
        assert forall|k: int| 0 <= k < from.len() implies enabled_among(trackers)[k]
            == trackers[#[trigger] from[k]].role by {
            if k < before.len() {
                assert(before.contains(before[k]));
                assert(enabled_among(fewer)[k] == fewer[before[k]].role);
                assert(trackers.filter(on)[k] == fewer.filter(on)[k]);
            }
        }
        from
    }
}

} // verus!
