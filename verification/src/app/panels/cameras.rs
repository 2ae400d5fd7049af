//! Capture device selection and live preview.

use vstd::prelude::*;

use crate::capture::source::ControlInfo;
use crate::capture::{CameraCommand, CameraState};
use crate::config::camera::{
    with_setting, CameraConfig, ControlName, LensKind, Rotation, SourceConfig,
};
use crate::config::{first_free, Config};
use crate::list::{first_where, lemma_filter_step, lemma_first_where, lemma_first_where_is};
use crate::scalar::Scalar;
use crate::text::{decimal, decimal_text};
use crate::time::{since, Instant};

verus! {

/// How long a value the user just set keeps priority over what the device
/// reports, so that a dragged slider does not snap back while the camera thread
/// is still reading the property back, in nanoseconds.
pub const PENDING_GRACE: u64 = 800_000_000;

/// A capture device that was found.
#[derive(Debug, Clone)]
pub struct DetectedDevice {
    pub name: String,
    pub path: String,
}

/// A property value the user changed but the device has not confirmed yet.
#[derive(Debug, Clone)]
pub struct Pending {
    pub camera: String,
    pub name: ControlName,
    pub value: i64,
    pub set_at: Instant,
}

/// Which frame a camera's preview shows.
#[derive(Debug, Clone)]
pub struct Preview {
    pub camera: String,
    pub seq: u64,
}

/// What the cameras panel remembers.
#[derive(Debug, Clone)]
pub struct CamerasPanel {
    /// Devices found by the last scan.
    pub detected: Vec<DetectedDevice>,
    pub detect_error: Option<String>,
    pub previews: Vec<Preview>,
    /// Set when the configuration changed while capture is running.
    pub needs_restart: bool,
    pub pending: Vec<Pending>,
}

/// Whether a pending value is of this property of this camera.
pub open spec fn pending_of(camera: Seq<char>, name: ControlName) -> spec_fn(Pending) -> bool {
    |pending: Pending| pending.camera@ == camera && pending.name == name
}

/// The pending value of a property of a camera, and when it was set.
pub open spec fn pending_for(
    pending: Seq<Pending>,
    camera: Seq<char>,
    name: ControlName,
) -> Option<(i64, Instant)> {
    let at = first_where(pending, pending_of(camera, name));
    if at < pending.len() {
        Some((pending[at].value, pending[at].set_at))
    } else {
        None
    }
}

/// Whether a preview is of this camera.
pub open spec fn preview_of(camera: Seq<char>) -> spec_fn(Preview) -> bool {
    |preview: Preview| preview.camera@ == camera
}

/// Whether a preview is of another camera.
pub open spec fn other_than(camera: Seq<char>) -> spec_fn(Preview) -> bool {
    |preview: Preview| preview.camera@ != camera
}

/// Which frame a camera's preview shows.
pub open spec fn previewed(previews: Seq<Preview>, camera: Seq<char>) -> Option<u64> {
    let at = first_where(previews, preview_of(camera));
    if at < previews.len() {
        Some(previews[at].seq)
    } else {
        None
    }
}

impl Default for CamerasPanel {
    fn default() -> (panel: Self)
        ensures
            panel.detected@.len() == 0,
            panel.detect_error is None,
            panel.previews@.len() == 0,
            !panel.needs_restart,
            panel.pending@.len() == 0,
    {
        CamerasPanel {
            detected: Vec::new(),
            detect_error: None,
            previews: Vec::new(),
            needs_restart: false,
            pending: Vec::new(),
        }
    }
}

/// A list in which an entry took the place of the first that was wanted, or was
/// added: it is found now, and what another search finds is unchanged.
proof fn lemma_replaced<T>(
    before: Seq<T>,
    after: Seq<T>,
    wanted: spec_fn(T) -> bool,
    other: spec_fn(T) -> bool,
    entry: T,
)
    requires
        wanted(entry),
        !other(entry),
        forall|x: T| !(#[trigger] wanted(x) && other(x)),
        ({
            let at = first_where(before, wanted);
            after == if at < before.len() {
                before.update(at, entry)
            } else {
                before.push(entry)
            }
        }),
    ensures
        first_where(after, wanted) == first_where(before, wanted),
        first_where(after, wanted) < after.len(),
        after[first_where(after, wanted)] == entry,
        (first_where(after, other) < after.len()) == (first_where(before, other) < before.len()),
        first_where(before, other) < before.len() ==> first_where(after, other) == first_where(
            before,
            other,
        ) && after[first_where(after, other)] == before[first_where(before, other)],
{
    let at = first_where(before, wanted);
    lemma_first_where(before, wanted);
    lemma_first_where(before, other);
    assert forall|i: int| 0 <= i < at implies !wanted(#[trigger] after[i]) by {
        assert(!wanted(before[i]));
    }
    lemma_first_where_is(after, wanted, at);
    let there = first_where(before, other);
    if there < before.len() {
        assert(there != at) by {
            if there == at {
                assert(wanted(before[at]) && other(before[at]));
            }
        }
        assert forall|i: int| 0 <= i < there implies !other(#[trigger] after[i]) by {
            assert(!other(before[i]));
        }
        lemma_first_where_is(after, other, there);
    } else {
        assert forall|i: int| 0 <= i < after.len() implies !other(#[trigger] after[i]) by {
            if i < before.len() {
                assert(!other(before[i]));
            }
        }
        lemma_first_where_is(after, other, after.len() as int);
    }
}

impl CamerasPanel {
    /// Takes in what a scan for devices found.
    pub fn scanned(&mut self, found: Result<Vec<DetectedDevice>, String>)
        ensures
            match found {
                Ok(devices) => {
                    &&& final(self).detected == devices
                    &&& match final(self).detect_error {
                        Some(error) => devices@.len() == 0 && error@
                            == "No capture devices found."@,
                        None => devices@.len() > 0,
                    }
                },
                Err(error) => {
                    &&& final(self).detected@.len() == 0
                    &&& final(self).detect_error == Some(error)
                },
            },
            final(self).previews == old(self).previews,
            final(self).needs_restart == old(self).needs_restart,
            final(self).pending == old(self).pending,
    {
        match found {
            Ok(devices) => {
                self.detect_error = if devices.len() == 0 {
                    Some("No capture devices found.".to_owned())
                } else {
                    None
                };
                self.detected = devices;
            },
            Err(error) => {
                self.detected = Vec::new();
                self.detect_error = Some(error);
            },
        }
    }

    /// The value to show: what the user just set, until the camera thread has
    /// had the time to read the property back from the device.
    pub fn displayed(&self, camera: &String, info: &ControlInfo, now: Instant) -> (value: i64)
        ensures
            value == match pending_for(self.pending@, camera@, info.name) {
                Some((value, set_at)) => if since(now, set_at) < PENDING_GRACE {
                    value
                } else {
                    info.value
                },
                None => info.value,
            },
    {
        let ghost wanted = pending_of(camera@, info.name);
        let mut i: usize = 0;
        while i < self.pending.len()
            invariant
                i <= self.pending.len(),
                wanted == pending_of(camera@, info.name),
                forall|k: int| 0 <= k < i ==> !wanted(#[trigger] self.pending@[k]),
            decreases self.pending.len() - i,
        {
            let pending: &Pending = &self.pending[i];
            if pending.camera == *camera && pending.name == info.name {
                proof {
                    lemma_first_where_is(self.pending@, wanted, i as int);
                }
                if now.saturating_duration_since(pending.set_at).nanos < PENDING_GRACE {
                    return pending.value;
                }
                return info.value;
            }
            i = i + 1;
        }
        proof {
            lemma_first_where_is(self.pending@, wanted, i as int);
        }
        info.value
    }

    /// Takes note of a value the user just set.
    pub fn set_pending(&mut self, camera: &String, name: ControlName, value: i64, now: Instant)
        ensures
            pending_for(final(self).pending@, camera@, name) == Some((value, now)),
            forall|other: Seq<char>, property: ControlName|
                other != camera@ || property != name ==> #[trigger] pending_for(
                    final(self).pending@,
                    other,
                    property,
                ) == pending_for(old(self).pending@, other, property),
            final(self).detected == old(self).detected,
            final(self).detect_error == old(self).detect_error,
            final(self).previews == old(self).previews,
            final(self).needs_restart == old(self).needs_restart,
    {
        let ghost wanted = pending_of(camera@, name);
        let ghost before = self.pending@;
        let entry = Pending { camera: camera.clone(), name, value, set_at: now };
        let ghost made = entry;
        let mut i: usize = 0;
        while i < self.pending.len() && !(self.pending[i].camera == *camera && self.pending[i].name
            == name)
            invariant
                i <= self.pending.len(),
                *self == *old(self),
                before == self.pending@,
                wanted == pending_of(camera@, name),
                forall|k: int| 0 <= k < i ==> !wanted(#[trigger] self.pending@[k]),
            decreases self.pending.len() - i,
        {
            i = i + 1;
        }
        proof {
            lemma_first_where_is(before, wanted, i as int);
        }
        if i < self.pending.len() {
            self.pending.set(i, entry);
        } else {
            self.pending.push(entry);
        }
        proof {
            let after = self.pending@;
            lemma_first_where(after, wanted);
            assert(pending_for(after, camera@, name) == Some((value, now))) by {
                assert forall|k: int| 0 <= k < i implies !wanted(#[trigger] after[k]) by {
                    assert(!wanted(before[k]));
                }
                lemma_first_where_is(after, wanted, i as int);
            }
            assert forall|other: Seq<char>, property: ControlName|
                other != camera@ || property != name implies #[trigger] pending_for(
                after,
                other,
                property,
            ) == pending_for(before, other, property) by {
                lemma_replaced(before, after, wanted, pending_of(other, property), made);
            }
        }
    }

    /// Whether a camera's preview has to be redrawn to show a frame.
    pub fn stale(&self, camera: &String, seq: u64) -> (stale: bool)
        ensures
            stale == (previewed(self.previews@, camera@) != Some(seq)),
    {
        let ghost wanted = preview_of(camera@);
        let mut i: usize = 0;
        while i < self.previews.len()
            invariant
                i <= self.previews.len(),
                wanted == preview_of(camera@),
                forall|k: int| 0 <= k < i ==> !wanted(#[trigger] self.previews@[k]),
            decreases self.previews.len() - i,
        {
            if self.previews[i].camera == *camera {
                proof {
                    lemma_first_where_is(self.previews@, wanted, i as int);
                }
                return self.previews[i].seq != seq;
            }
            i = i + 1;
        }
        proof {
            lemma_first_where_is(self.previews@, wanted, i as int);
        }
        true
    }

    /// Takes note that a camera's preview shows a frame.
    pub fn redrawn(&mut self, camera: &String, seq: u64)
        ensures
            previewed(final(self).previews@, camera@) == Some(seq),
            forall|other: Seq<char>|
                other != camera@ ==> #[trigger] previewed(final(self).previews@, other)
                    == previewed(old(self).previews@, other),
            final(self).detected == old(self).detected,
            final(self).detect_error == old(self).detect_error,
            final(self).needs_restart == old(self).needs_restart,
            final(self).pending == old(self).pending,
    {
        let ghost wanted = preview_of(camera@);
        let ghost before = self.previews@;
        let entry = Preview { camera: camera.clone(), seq };
        let ghost made = entry;
        let mut i: usize = 0;
        while i < self.previews.len() && self.previews[i].camera != *camera
            invariant
                i <= self.previews.len(),
                *self == *old(self),
                before == self.previews@,
                wanted == preview_of(camera@),
                forall|k: int| 0 <= k < i ==> !wanted(#[trigger] self.previews@[k]),
            decreases self.previews.len() - i,
        {
            i = i + 1;
        }
        proof {
            lemma_first_where_is(before, wanted, i as int);
        }
        if i < self.previews.len() {
            self.previews.set(i, entry);
        } else {
            self.previews.push(entry);
        }
        proof {
            let after = self.previews@;
            assert forall|k: int| 0 <= k < i implies !wanted(#[trigger] after[k]) by {
                assert(!wanted(before[k]));
            }
            lemma_first_where_is(after, wanted, i as int);
            assert forall|other: Seq<char>| other != camera@ implies #[trigger] previewed(
                after,
                other,
            ) == previewed(before, other) by {
                lemma_replaced(before, after, wanted, preview_of(other), made);
            }
        }
    }

    /// Takes note that a camera's configuration changed, which capture does not
    /// follow by itself.
    pub fn changed(&mut self)
        ensures
            *final(self) == (CamerasPanel { needs_restart: true, ..*old(self) }),
    {
        self.needs_restart = true;
    }

    /// Takes note that a camera was removed: its preview goes with it.
    pub fn removed(&mut self, camera: &String)
        ensures
            final(self).previews@ == old(self).previews@.filter(other_than(camera@)),
            *final(self) == (CamerasPanel {
                needs_restart: true,
                previews: final(self).previews,
                ..*old(self)
            }),
    {
        let ghost keep = other_than(camera@);
        let mut previews: Vec<Preview> = Vec::new();
        let mut i: usize = 0;
        proof {
            assert(self.previews@.take(0).filter(keep) =~= Seq::empty()) by {
                reveal(Seq::filter);
            }
        }
        while i < self.previews.len()
            invariant
                i <= self.previews.len(),
                *self == *old(self),
                keep == other_than(camera@),
                previews@ == self.previews@.take(i as int).filter(keep),
            decreases self.previews.len() - i,
        {
            proof {
                lemma_filter_step(self.previews@, keep, i as int);
            }
            if self.previews[i].camera != *camera {
                let entry = Preview {
                    camera: self.previews[i].camera.clone(),
                    seq: self.previews[i].seq,
                };
                assert(entry == self.previews@[i as int]);
                previews.push(entry);
            }
            i = i + 1;
        }
        proof {
            assert(self.previews@.take(i as int) =~= self.previews@);
        }
        self.previews = previews;
        self.needs_restart = true;
    }

    /// Takes note that capture was started with the configuration as it is.
    pub fn started(&mut self)
        ensures
            *final(self) == (CamerasPanel { needs_restart: false, ..*old(self) }),
    {
        self.needs_restart = false;
    }

    /// Takes note that capture was stopped.
    pub fn stopped(&mut self)
        ensures
            final(self).previews@.len() == 0,
            *final(self) == (CamerasPanel {
                needs_restart: false,
                previews: final(self).previews,
                ..*old(self)
            }),
    {
        self.previews = Vec::new();
        self.needs_restart = false;
    }
}

/// How many of the cameras are enabled.
pub open spec fn enabled_count(cameras: Seq<CameraConfig>) -> nat {
    cameras.filter(|camera: CameraConfig| camera.enabled).len()
}

/// How many of the cameras show the generated scene.
pub open spec fn synthetic_count(cameras: Seq<CameraConfig>) -> nat {
    cameras.filter(|camera: CameraConfig| camera.source is Synthetic).len()
}

fn count_enabled(cameras: &Vec<CameraConfig>) -> (count: usize)
    ensures
        count == enabled_count(cameras@),
{
    let ghost wanted = |camera: CameraConfig| camera.enabled;
    let mut count: usize = 0;
    let mut i: usize = 0;
    proof {
        assert(cameras@.take(0).filter(wanted).len() == 0) by {
            reveal(Seq::filter);
        }
    }
    while i < cameras.len()
        invariant
            i <= cameras.len(),
            count <= i,
            wanted == (|camera: CameraConfig| camera.enabled),
            count == cameras@.take(i as int).filter(wanted).len(),
        decreases cameras.len() - i,
    {
        proof {
            lemma_filter_step(cameras@, wanted, i as int);
        }
        if cameras[i].enabled {
            count = count + 1;
        }
        i = i + 1;
    }
    proof {
        assert(cameras@.take(i as int) =~= cameras@);
    }
    count
}

fn count_synthetic(cameras: &Vec<CameraConfig>) -> (count: usize)
    ensures
        count == synthetic_count(cameras@),
{
    let ghost wanted = |camera: CameraConfig| camera.source is Synthetic;
    let mut count: usize = 0;
    let mut i: usize = 0;
    proof {
        assert(cameras@.take(0).filter(wanted).len() == 0) by {
            reveal(Seq::filter);
        }
    }
    while i < cameras.len()
        invariant
            i <= cameras.len(),
            count <= i,
            wanted == (|camera: CameraConfig| camera.source is Synthetic),
            count == cameras@.take(i as int).filter(wanted).len(),
        decreases cameras.len() - i,
    {
        proof {
            lemma_filter_step(cameras@, wanted, i as int);
        }
        if cameras[i].source.is_synthetic() {
            count = count + 1;
        }
        i = i + 1;
    }
    proof {
        assert(cameras@.take(i as int) =~= cameras@);
    }
    count
}

/// How many cameras there are, as the toolbar says it.
pub fn tally_text(config: &Config) -> (text: String)
    ensures
        text@ == decimal(enabled_count(config.cameras@)) + " enabled / "@ + decimal(
            config.cameras@.len(),
        ) + " configured"@,
{
    let mut text = decimal_text(count_enabled(&config.cameras) as u64);
    text.append(" enabled / ");
    text.append(decimal_text(config.cameras.len() as u64).as_str());
    text.append(" configured");
    text
}

/// Whether a camera is as a fresh one is, but for its id, label, source and
/// format.
pub open spec fn otherwise_fresh(camera: CameraConfig) -> bool {
    &&& camera.enabled
    &&& camera.lens == LensKind::Standard
    &&& camera.rotation == Rotation::Upright
    &&& camera.controls@.len() == 0
    &&& camera.detector_model is None
    &&& camera.pose_model is None
}

/// Adds a camera that shows the generated scene, from the next corner.
pub fn add_synthetic(config: &mut Config)
    requires
        synthetic_count(old(config).cameras@) < u32::MAX,
    ensures
        *final(config) == (Config { cameras: final(config).cameras, ..*old(config) }),
        ({
            let seat = synthetic_count(old(config).cameras@);
            let before = old(config).cameras@;
            let after = final(config).cameras@;
            let camera = after.last();
            &&& after == before.push(camera)
            &&& first_free(before, camera.id@)
            &&& camera.label@ == "Synthetic "@ + decimal(seat + 1)
            &&& camera.source == (SourceConfig::Synthetic { seat: seat as u32 })
            &&& camera.width == 960
            &&& camera.height == 540
            &&& camera.fps == 30
            &&& otherwise_fresh(camera)
        }),
{
    let seat: u32 = count_synthetic(&config.cameras) as u32;
    let id: String = config.fresh_camera_id();
    let mut label = "Synthetic ".to_owned();
    label.append(decimal_text(seat as u64 + 1).as_str());
    let mut camera = CameraConfig::default();
    camera.id = id;
    camera.label = label;
    camera.source = SourceConfig::Synthetic { seat };
    camera.width = 960;
    camera.height = 540;
    camera.fps = 30;
    config.cameras.push(camera);
    proof {
        assert(config.cameras@ =~= old(config).cameras@.push(config.cameras@.last()));
    }
}

/// Whether a device is configured already.
pub open spec fn already(cameras: Seq<CameraConfig>, path: Seq<char>) -> bool {
    exists|i: int|
        0 <= i < cameras.len() && match (#[trigger] cameras[i]).source {
            SourceConfig::Webcam { device_path, device_name } => device_path@ == path,
            _ => false,
        }
}

/// Whether a device is configured already, by the path that is its identity.
pub fn already_configured(config: &Config, path: &String) -> (already: bool)
    ensures
        already == self::already(config.cameras@, path@),
{
    let mut i: usize = 0;
    while i < config.cameras.len()
        invariant
            i <= config.cameras.len(),
            forall|k: int|
                0 <= k < i ==> match (#[trigger] config.cameras@[k]).source {
                    SourceConfig::Webcam { device_path, device_name } => device_path@ != path@,
                    _ => true,
                },
        decreases config.cameras.len() - i,
    {
        if let SourceConfig::Webcam { device_path, device_name } = &config.cameras[i].source {
            if *device_path == *path {
                return true;
            }
        }
        i = i + 1;
    }
    false
}

/// Adds a capture device that was found.
pub fn add_device(config: &mut Config, device: &DetectedDevice)
    ensures
        *final(config) == (Config { cameras: final(config).cameras, ..*old(config) }),
        ({
            let before = old(config).cameras@;
            let after = final(config).cameras@;
            let camera = after.last();
            &&& after == before.push(camera)
            &&& first_free(before, camera.id@)
            &&& camera.label@ == device.name@
            &&& camera.source == (SourceConfig::Webcam {
                device_path: device.path,
                device_name: device.name,
            })
            &&& camera.width == 1280
            &&& camera.height == 720
            &&& camera.fps == 30
            &&& otherwise_fresh(camera)
        }),
{
    let id: String = config.fresh_camera_id();
    let mut camera = CameraConfig::default();
    camera.id = id;
    camera.label = device.name.clone();
    camera.source = SourceConfig::Webcam {
        device_path: device.path.clone(),
        device_name: device.name.clone(),
    };
    config.cameras.push(camera);
    proof {
        assert(config.cameras@ =~= old(config).cameras@.push(config.cameras@.last()));
    }
}

/// Once a device has been added it counts as configured, so it cannot be added
/// twice.
pub proof fn a_device_is_added_once(before: Seq<CameraConfig>, camera: CameraConfig, path: String)
    requires
        match camera.source {
            SourceConfig::Webcam { device_path, device_name } => device_path == path,
            _ => false,
        },
    ensures
        already(before.push(camera), path@),
{
    assert(before.push(camera)[before.len() as int] == camera);
}

/// Takes a camera out of the configuration.
pub fn remove_camera(config: &mut Config, index: usize) -> (removed: CameraConfig)
    requires
        index < old(config).cameras@.len(),
    ensures
        removed == old(config).cameras@[index as int],
        final(config).cameras@ == old(config).cameras@.remove(index as int),
        *final(config) == (Config { cameras: final(config).cameras, ..*old(config) }),
{
    config.cameras.remove(index)
}

/// Whether a camera cannot sustain the rate it was asked for, given four fifths
/// of that rate. It is the usual symptom of USB bandwidth trouble, so it is
/// called out rather than left for the user to compare by eye.
pub fn starved(state: CameraState, measured: Scalar, four_fifths: Scalar) -> (starved: bool)
    ensures
        starved == (state == CameraState::Running && Scalar::of(0).less(measured)
            && measured.less(four_fifths)),
{
    state == CameraState::Running && Scalar::from_bits(0).lt(measured) && measured.lt(four_fifths)
}

/// Whether a value is the longest exposure that allows a rate, within what the
/// device can do.
pub open spec fn fitting(fps: u32, info: ControlInfo, target: i64) -> bool {
    exists|exposure: i64| #[trigger]
        longest_for(fps, exposure) && target == if exposure < info.min {
            info.min
        } else if exposure > info.max {
            info.max
        } else {
            exposure
        }
}

/// The shutter just short of one frame period, within what the device can do, so
/// the camera can reach the frame rate it advertises.
pub fn fitting_exposure(fps: u32, info: &ControlInfo) -> (target: i64)
    requires
        info.min <= info.max,
    ensures
        fitting(fps, *info, target),
{
    let exposure: i64 = ControlName::exposure_for_fps(fps);
    assert(longest_for(fps, exposure));
    if exposure < info.min {
        info.min
    } else if exposure > info.max {
        info.max
    } else {
        exposure
    }
}

/// Whether an exposure, in log2 seconds, is the longest that allows a rate.
pub open spec fn longest_for(fps: u32, exposure: i64) -> bool {
    &&& exposure <= 0
    &&& fps <= vstd::arithmetic::power2::pow2((-exposure) as nat)
    &&& exposure < 0 ==> vstd::arithmetic::power2::pow2((-exposure - 1) as nat) < fps
}

/// At most one exposure is the longest that allows a rate.
pub proof fn one_exposure_fits_a_rate(fps: u32, a: i64, b: i64)
    requires
        longest_for(fps, a),
        longest_for(fps, b),
    ensures
        a == b,
{
    lemma_no_longer_exposure(fps, a, b);
    lemma_no_longer_exposure(fps, b, a);
}

proof fn lemma_no_longer_exposure(fps: u32, a: i64, b: i64)
    requires
        longest_for(fps, a),
        longest_for(fps, b),
    ensures
        a <= b,
{
    let (n, m) = ((-a) as nat, (-b - 1) as nat);
    if a > b && n < m {
        vstd::arithmetic::power2::lemma_pow2_strictly_increases(n, m);
    }
}

/// What the user did to a property of a device.
#[derive(Debug, Clone, Copy, PartialEq, Eq, Structural)]
pub enum Action {
    /// Handed the property to the device, or took it back.
    Auto(bool),
    /// Moved the slider.
    Slide(i64),
    /// Asked for the exposure that fits the frame rate.
    FitFrameRate,
    /// Asked for what the device calls its default.
    Default,
}

/// What an action sets a property to.
#[derive(Debug, Clone, Copy, PartialEq, Eq, Structural)]
pub struct Adjustment {
    pub value: i64,
    pub auto: bool,
    /// Whether the value is shown until the device is read back. Handing a
    /// property to the device sets no value of its own.
    pub pending: bool,
}

/// What an action sets a property to. Everything but handing it to the device
/// takes it from the device, except a default of a property that the device can
/// look after by itself.
pub fn adjustment(action: Action, info: &ControlInfo, displayed: i64, fps: u32) -> (set: Adjustment)
    requires
        info.min <= info.max,
    ensures
        match action {
            Action::Auto(auto) => set == (Adjustment { value: displayed, auto, pending: false }),
            Action::Slide(value) => set == (Adjustment { value, auto: false, pending: true }),
            Action::FitFrameRate => {
                &&& fitting(fps, *info, set.value)
                &&& set == (Adjustment { value: set.value, auto: false, pending: true })
            },
            Action::Default => set == (Adjustment {
                value: info.default,
                auto: info.auto_supported,
                pending: true,
            }),
        },
{
    match action {
        Action::Auto(auto) => Adjustment { value: displayed, auto, pending: false },
        Action::Slide(value) => Adjustment { value, auto: false, pending: true },
        Action::FitFrameRate => Adjustment {
            value: fitting_exposure(fps, info),
            auto: false,
            pending: true,
        },
        Action::Default => Adjustment {
            value: info.default,
            auto: info.auto_supported,
            pending: true,
        },
    }
}

/// Whether a property's slider can be moved.
pub fn adjustable(info: &ControlInfo) -> (adjustable: bool)
    ensures
        adjustable == (!info.auto && info.manual_supported),
{
    !info.auto && info.manual_supported
}

/// Records a property change in the configuration, so it is reapplied the next
/// time the camera opens, and hands back what to ask the camera thread for.
pub fn apply(
    config: &mut Config,
    index: usize,
    name: ControlName,
    value: i64,
    auto: bool,
) -> (command: CameraCommand)
    requires
        index < old(config).cameras@.len(),
    ensures
        command == (CameraCommand::SetControl { name, value, auto }),
        final(config).cameras@.len() == old(config).cameras@.len(),
        forall|i: int|
            0 <= i < old(config).cameras@.len() && i != index ==> (
            #[trigger] final(config).cameras@[i]) == old(config).cameras@[i],
        ({
            let before = old(config).cameras@[index as int];
            let after = final(config).cameras@[index as int];
            &&& after.controls@ == with_setting(before.controls@, name, auto, value)
            &&& after == (CameraConfig { controls: after.controls, ..before })
        }),
        *final(config) == (Config { cameras: final(config).cameras, ..*old(config) }),
{
    let camera: &mut CameraConfig = &mut config.cameras[index];
    camera.set_control(name, auto, value);
    CameraCommand::SetControl { name, value, auto }
}

/// How many previews stand side by side.
pub fn columns(cameras: usize) -> (columns: usize)
    ensures
        columns == if cameras > 1 {
            2usize
        } else {
            1usize
        },
{
    if cameras > 1 {
        2
    } else {
        1
    }
}

/// Whether a preview is the last of its row.
pub fn ends_row(index: usize, columns: usize) -> (ends: bool)
    requires
        columns > 0,
        index < usize::MAX,
    ensures
        ends == ((index + 1) % columns as int == 0),
{
    (index + 1) % columns == 0
}

/// What a camera shows, as one line.
pub open spec fn source_line(source: SourceConfig) -> Seq<char> {
    match source {
        SourceConfig::Webcam { device_path, device_name } => device_name@ + " \u{2014} "@
            + device_path@,
        SourceConfig::Synthetic { seat } => "synthetic scene, ceiling corner "@ + decimal(
            (seat + 1) as nat,
        ),
        SourceConfig::Still { path } => "still image, "@ + path@,
    }
}

/// What a camera shows, as one line.
pub fn source_summary(source: &SourceConfig) -> (text: String)
    ensures
        text@ == source_line(*source),
{
    match source {
        SourceConfig::Webcam { device_path, device_name } => {
            let mut text = device_name.clone();
            text.append(" \u{2014} ");
            text.append(device_path.as_str());
            text
        },
        SourceConfig::Synthetic { seat } => {
            let mut text = "synthetic scene, ceiling corner ".to_owned();
            text.append(decimal_text(*seat as u64 + 1).as_str());
            text
        },
        SourceConfig::Still { path } => {
            let mut text = "still image, ".to_owned();
            text.append(path.as_str());
            text
        },
    }
}

/// What is pending of a property is the first entry for it and its camera: the value, and
/// when it was set.
pub proof fn a_pending_value_is_the_first_for_its_property(
    pending: Seq<Pending>,
    camera: Seq<char>,
    name: ControlName,
)
    ensures
        match pending_for(pending, camera, name) {
            Some((value, set_at)) => exists|i: int|
                0 <= i < pending.len() && (#[trigger] pending[i]).camera@ == camera
                    && pending[i].name == name && pending[i].value == value && pending[i].set_at
                    == set_at && forall|j: int|
                    0 <= j < i ==> (#[trigger] pending[j]).camera@ != camera || pending[j].name
                        != name,
            None => forall|j: int|
                0 <= j < pending.len() ==> (#[trigger] pending[j]).camera@ != camera
                    || pending[j].name != name,
        },
{
    let wanted = pending_of(camera, name);
    lemma_first_where(pending, wanted);
    let at = first_where(pending, wanted);
    assert forall|j: int| 0 <= j < at implies (#[trigger] pending[j]).camera@ != camera
        || pending[j].name != name by {
        assert(!wanted(pending[j]));
    }
    if at < pending.len() {
        assert(wanted(pending[at]));
        assert(pending[at].camera@ == camera);
    }
}

/// The preview of a camera is the first that is the camera's; forgetting a camera's
/// preview forgets no other's.
pub proof fn a_preview_is_the_first_of_its_camera(previews: Seq<Preview>, camera: Seq<char>)
    ensures
        match previewed(previews, camera) {
            Some(seq) => exists|i: int|
                0 <= i < previews.len() && (#[trigger] previews[i]).camera@ == camera
                    && previews[i].seq == seq && forall|j: int|
                    0 <= j < i ==> (#[trigger] previews[j]).camera@ != camera,
            None => forall|j: int|
                0 <= j < previews.len() ==> (#[trigger] previews[j]).camera@ != camera,
        },
        forall|preview: Preview| #[trigger]
            other_than(camera)(preview) <==> preview.camera@ != camera,
{
    let wanted = preview_of(camera);
    lemma_first_where(previews, wanted);
    let at = first_where(previews, wanted);
    assert forall|j: int| 0 <= j < at implies (#[trigger] previews[j]).camera@ != camera by {
        assert(!wanted(previews[j]));
    }
    if at < previews.len() {
        assert(wanted(previews[at]));
        assert(previews[at].camera@ == camera);
    }
}

/// The cameras that count as enabled are those that are, and those that count as
/// synthetic are those that make their own picture.
pub proof fn one_more_camera_counts_as_what_it_is(cameras: Seq<CameraConfig>, camera: CameraConfig)
    ensures
        enabled_count(Seq::empty()) == 0,
        synthetic_count(Seq::empty()) == 0,
        enabled_count(cameras.push(camera)) == enabled_count(cameras) + if camera.enabled {
            1nat
        } else {
            0nat
        },
        synthetic_count(cameras.push(camera)) == synthetic_count(cameras) + match camera.source {
            SourceConfig::Synthetic { .. } => 1nat,
            _ => 0nat,
        },
{
    let on = |camera: CameraConfig| camera.enabled;
    let made = |camera: CameraConfig| camera.source is Synthetic;
    let more = cameras.push(camera);
    let n = cameras.len() as int;
    lemma_filter_step(more, on, n);
    lemma_filter_step(more, made, n);
    assert(more.take(n) =~= cameras);
    assert(more.take(n + 1) =~= more);
    assert(Seq::<CameraConfig>::empty().filter(on).len() == 0) by {
        reveal(Seq::filter);
    }
    assert(Seq::<CameraConfig>::empty().filter(made).len() == 0) by {
        reveal(Seq::filter);
    }
}

/// A camera that was just added is enabled and upright, with a plain lens, nothing set
/// and no model of its own.
pub proof fn a_new_camera_has_nothing_set(camera: CameraConfig)
    requires
        otherwise_fresh(camera),
    ensures
        camera.enabled,
        camera.lens == LensKind::Standard,
        camera.rotation == Rotation::Upright,
        camera.controls@ == Seq::<crate::config::camera::ControlSetting>::empty(),
        camera.detector_model is None,
        camera.pose_model is None,
{
    assert(camera.controls@ =~= Seq::empty());
}

/// The exposure that fits is the longest for the rate where the device can do it, and
/// the nearest the device can do otherwise.
pub proof fn the_fitting_exposure_is_one_the_device_has(
    fps: u32,
    info: ControlInfo,
    target: i64,
    longest: i64,
)
    requires
        info.min <= info.max,
        fitting(fps, info, target),
        longest_for(fps, longest),
    ensures
        info.min <= target <= info.max,
        info.min <= longest <= info.max ==> target == longest,
        longest < info.min ==> target == info.min,
        longest > info.max ==> target == info.max,
        fps <= vstd::arithmetic::power2::pow2((-longest) as nat),
        longest < 0 ==> vstd::arithmetic::power2::pow2((-longest - 1) as nat) < fps,
{
    let exposure = choose|exposure: i64| #[trigger]
        longest_for(fps, exposure) && target == if exposure < info.min {
            info.min
        } else if exposure > info.max {
            info.max
        } else {
            exposure
        };
    one_exposure_fits_a_rate(fps, exposure, longest);
}

/// A webcam is described by its name and then its path, a synthetic scene by its corner,
/// counted from one, and a still by its path.
pub proof fn a_source_is_described_by_what_it_is(
    device_path: String,
    device_name: String,
    seat: u32,
)
    ensures
        device_name@.is_prefix_of(source_line(SourceConfig::Webcam { device_path, device_name })),
        device_path@.is_suffix_of(source_line(SourceConfig::Webcam { device_path, device_name })),
        decimal((seat + 1) as nat).is_suffix_of(source_line(SourceConfig::Synthetic { seat })),
        device_path@.is_suffix_of(source_line(SourceConfig::Still { path: device_path })),
{
}

/// A value that was set is shown for eight tenths of a second, whatever the device says.
pub proof fn a_value_that_was_set_is_shown_for_a_while()
    ensures
        PENDING_GRACE == 800_000_000,
{
}

} // verus!
