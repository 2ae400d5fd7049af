//! Camera configuration.
//!
//! A camera is identified by its device path rather than its enumeration index,
//! so that replugging USB devices cannot silently swap two cameras and
//! invalidate a calibration.

use vstd::arithmetic::power2::{lemma2_to64, lemma_pow2_unfold, pow2};
use vstd::prelude::*;

use crate::list::{first_where, lemma_filter_step, lemma_first_where, lemma_first_where_is};
use crate::text::{decimal, power_of_two_text};

verus! {

/// How a camera is set up.
#[derive(Debug, Clone)]
pub struct CameraConfig {
    /// Stable identifier used in room profiles and logs.
    pub id: String,
    /// Name shown in the UI.
    pub label: String,
    pub enabled: bool,
    pub source: SourceConfig,
    /// Requested capture format. The device may negotiate something close.
    pub width: u32,
    pub height: u32,
    pub fps: u32,
    pub lens: LensKind,
    /// Rotation applied to the captured image, in 90 degree steps.
    pub rotation: Rotation,
    /// Device properties to apply when the camera opens.
    pub controls: Vec<ControlSetting>,
    /// Detector for this camera, or the shared default when absent.
    pub detector_model: Option<String>,
    /// Pose model for this camera, or the shared default when absent.
    pub pose_model: Option<String>,
}

/// Where the first setting of a property stands, or the length of the list.
pub open spec fn setting_at(controls: Seq<ControlSetting>, name: ControlName) -> int {
    first_where(controls, |setting: ControlSetting| setting.name == name)
}

/// The first setting of a property, if there is one.
pub open spec fn setting_of(controls: Seq<ControlSetting>, name: ControlName) -> Option<
    ControlSetting,
> {
    if setting_at(controls, name) < controls.len() {
        Some(controls[setting_at(controls, name)])
    } else {
        None
    }
}

/// The settings with a property set: in place where it has a setting already,
/// else at the end.
pub open spec fn with_setting(
    controls: Seq<ControlSetting>,
    name: ControlName,
    auto: bool,
    value: i64,
) -> Seq<ControlSetting> {
    let setting = ControlSetting { name, auto, value };
    if setting_at(controls, name) < controls.len() {
        controls.update(setting_at(controls, name), setting)
    } else {
        controls.push(setting)
    }
}

/// The settings without those of a property.
pub open spec fn without_setting(controls: Seq<ControlSetting>, name: ControlName) -> Seq<
    ControlSetting,
> {
    controls.filter(|setting: ControlSetting| setting.name != name)
}

impl CameraConfig {
    /// The setting of a property, if one is kept.
    pub fn control(&self, name: ControlName) -> (setting: Option<&ControlSetting>)
        ensures
            match setting {
                Some(setting) => setting_of(self.controls@, name) == Some(*setting),
                None => setting_of(self.controls@, name) is None,
            },
    {
        let ghost wanted = |setting: ControlSetting| setting.name == name;
        let mut i: usize = 0;
        while i < self.controls.len()
            invariant
                i <= self.controls.len(),
                wanted == (|setting: ControlSetting| setting.name == name),
                forall|k: int| 0 <= k < i ==> !wanted(#[trigger] self.controls@[k]),
            decreases self.controls.len() - i,
        {
            if self.controls[i].name == name {
                proof {
                    lemma_first_where_is(self.controls@, wanted, i as int);
                }
                return Some(&self.controls[i]);
            }
            i = i + 1;
        }
        proof {
            lemma_first_where_is(self.controls@, wanted, i as int);
        }
        None
    }

    /// Keeps a property at a value, or under the device's own regulation.
    pub fn set_control(&mut self, name: ControlName, auto: bool, value: i64)
        ensures
            final(self).controls@ == with_setting(old(self).controls@, name, auto, value),
            *final(self) == (CameraConfig { controls: final(self).controls, ..*old(self) }),
    {
        let ghost wanted = |setting: ControlSetting| setting.name == name;
        let mut i: usize = 0;
        while i < self.controls.len()
            invariant
                i <= self.controls.len(),
                *self == *old(self),
                wanted == (|setting: ControlSetting| setting.name == name),
                forall|k: int| 0 <= k < i ==> !wanted(#[trigger] self.controls@[k]),
            decreases self.controls.len() - i,
        {
            if self.controls[i].name == name {
                proof {
                    lemma_first_where_is(self.controls@, wanted, i as int);
                }
                self.controls.set(i, ControlSetting { name, auto, value });
                return;
            }
            i = i + 1;
        }
        proof {
            lemma_first_where_is(self.controls@, wanted, i as int);
        }
        self.controls.push(ControlSetting { name, auto, value });
    }

    /// Leaves a property alone from now on.
    pub fn clear_control(&mut self, name: ControlName)
        ensures
            final(self).controls@ == without_setting(old(self).controls@, name),
            *final(self) == (CameraConfig { controls: final(self).controls, ..*old(self) }),
    {
        let ghost wanted = |setting: ControlSetting| setting.name != name;
        let ghost start = self.controls@;
        let mut kept: Vec<ControlSetting> = Vec::new();
        let mut i: usize = 0;
        proof {
            assert(start.take(0).filter(wanted) =~= Seq::empty()) by {
                reveal(Seq::filter);
            }
        }
        while i < self.controls.len()
            invariant
                i <= self.controls.len(),
                *self == *old(self),
                self.controls@ == start,
                wanted == (|setting: ControlSetting| setting.name != name),
                kept@ == start.take(i as int).filter(wanted),
            decreases self.controls.len() - i,
        {
            proof {
                lemma_filter_step(start, wanted, i as int);
            }
            if self.controls[i].name != name {
                kept.push(self.controls[i]);
            }
            i = i + 1;
        }
        proof {
            assert(start.take(i as int) =~= start);
        }
        self.controls = kept;
    }
}

/// A property that was just set reads back as it was set, and every other
/// property reads as it did before.
pub proof fn set_control_reads_back(
    controls: Seq<ControlSetting>,
    name: ControlName,
    auto: bool,
    value: i64,
    other: ControlName,
)
    ensures
        setting_of(with_setting(controls, name, auto, value), name) == Some(
            ControlSetting { name, auto, value },
        ),
        other != name ==> setting_of(with_setting(controls, name, auto, value), other)
            == setting_of(controls, other),
{
    let after = with_setting(controls, name, auto, value);
    let is_name = |setting: ControlSetting| setting.name == name;
    let is_other = |setting: ControlSetting| setting.name == other;
    let at = setting_at(controls, name);
    lemma_first_where(controls, is_name);
    assert forall|i: int| 0 <= i < at implies !is_name(#[trigger] after[i]) by {
        assert(!is_name(controls[i]));
    }
    lemma_first_where_is(after, is_name, at);
    if other != name {
        let there = setting_at(controls, other);
        lemma_first_where(controls, is_other);
        if there < controls.len() {
            assert(there != at);
            assert forall|i: int| 0 <= i < there implies !is_other(#[trigger] after[i]) by {
                assert(!is_other(controls[i]));
            }
            lemma_first_where_is(after, is_other, there);
        } else {
            assert forall|i: int| 0 <= i < after.len() implies !is_other(#[trigger] after[i]) by {
                if i < controls.len() {
                    assert(!is_other(controls[i]));
                }
            }
            lemma_first_where_is(after, is_other, after.len() as int);
        }
    }
}

/// A property that was cleared has no setting left, and every other property
/// reads as it did before.
pub proof fn clear_control_leaves_the_rest(
    controls: Seq<ControlSetting>,
    name: ControlName,
    other: ControlName,
)
    ensures
        setting_of(without_setting(controls, name), name) is None,
        other != name ==> setting_of(without_setting(controls, name), other) == setting_of(
            controls,
            other,
        ),
    decreases controls.len(),
{
    let kept = |setting: ControlSetting| setting.name != name;
    let is_name = |setting: ControlSetting| setting.name == name;
    let is_other = |setting: ControlSetting| setting.name == other;
    let after = without_setting(controls, name);
    assert forall|i: int| 0 <= i < after.len() implies !is_name(#[trigger] after[i]) by {
        controls.lemma_filter_pred(kept, i);
    }
    lemma_first_where_is(after, is_name, after.len() as int);
    if other != name {
        lemma_first_where(controls, is_other);
        lemma_first_where(after, is_other);
        if controls.len() > 0 {
            let shorter = controls.drop_last();
            clear_control_leaves_the_rest(shorter, name, other);
            lemma_first_where(shorter, is_other);
            let fewer = without_setting(shorter, name);
            lemma_first_where(fewer, is_other);
            let last = controls.last();
            assert(controls.take(controls.len() as int) =~= controls);
            assert(controls.take(controls.len() - 1) =~= shorter);
            lemma_filter_step(controls, kept, controls.len() - 1);
            let there = setting_at(shorter, other);
            let here = setting_at(fewer, other);
            if there < shorter.len() {
                assert forall|i: int| 0 <= i < there implies !is_other(#[trigger] controls[i]) by {
                    assert(!is_other(shorter[i]));
                }
                lemma_first_where_is(controls, is_other, there);
                assert(here < fewer.len());
                assert forall|i: int| 0 <= i < here implies !is_other(#[trigger] after[i]) by {
                    assert(!is_other(fewer[i]));
                }
                lemma_first_where_is(after, is_other, here);
            } else {
                assert(here >= fewer.len());
                assert forall|i: int| 0 <= i < shorter.len() implies !is_other(
                    #[trigger] controls[i],
                ) by {
                    assert(!is_other(shorter[i]));
                }
                assert forall|i: int| 0 <= i < fewer.len() implies !is_other(
                    #[trigger] after[i],
                ) by {
                    assert(!is_other(fewer[i]));
                }
                if is_other(last) {
                    lemma_first_where_is(controls, is_other, controls.len() - 1);
                    lemma_first_where_is(after, is_other, after.len() - 1);
                } else {
                    lemma_first_where_is(controls, is_other, controls.len() as int);
                    lemma_first_where_is(after, is_other, after.len() as int);
                }
            }
        } else {
            assert(after =~= controls) by {
                reveal(Seq::filter);
            }
        }
    }
}

/// A device property that is applied when the camera opens.
#[derive(Debug, Clone, Copy, PartialEq, Eq, Structural)]
pub struct ControlSetting {
    pub name: ControlName,
    /// Let the device regulate the value itself. `value` is then ignored.
    pub auto: bool,
    pub value: i64,
}

/// A device property that can be read and written.
///
/// This vocabulary lives in the config rather than in the platform layer so
/// that a saved profile does not depend on how a given OS names its properties.
#[derive(Debug, Clone, Copy, PartialEq, Eq, PartialOrd, Ord, Hash, Structural)]
pub enum ControlName {
    Exposure,
    Gain,
    Brightness,
    Contrast,
    Saturation,
    Sharpness,
    WhiteBalance,
    BacklightCompensation,
    Focus,
    Zoom,
    Pan,
    Tilt,
}

/// How the shutter time of two to the power `exponent` seconds is spelled out.
/// Past the range of a double it is infinite.
pub open spec fn shutter_text(exponent: int) -> Seq<char> {
    if exponent >= 1024 {
        "inf s"@
    } else if exponent >= 0 {
        decimal(pow2(exponent as nat)) + " s"@
    } else if exponent > -1024 {
        "1/"@ + decimal(pow2((-exponent) as nat)) + " s"@
    } else {
        "1/inf s"@
    }
}

impl ControlName {
    /// Ordered so that the properties which decide whether tracking works at
    /// all come first.
    pub const ALL: [ControlName; 12] = [
        ControlName::Exposure,
        ControlName::Gain,
        ControlName::Focus,
        ControlName::WhiteBalance,
        ControlName::Brightness,
        ControlName::Contrast,
        ControlName::Saturation,
        ControlName::Sharpness,
        ControlName::BacklightCompensation,
        ControlName::Zoom,
        ControlName::Pan,
        ControlName::Tilt,
    ];

    /// The name shown beside the property.
    pub open spec fn name(self) -> &'static str {
        match self {
            ControlName::Exposure => "Exposure",
            ControlName::Gain => "Gain",
            ControlName::Brightness => "Brightness",
            ControlName::Contrast => "Contrast",
            ControlName::Saturation => "Saturation",
            ControlName::Sharpness => "Sharpness",
            ControlName::WhiteBalance => "White balance",
            ControlName::BacklightCompensation => "Backlight compensation",
            ControlName::Focus => "Focus",
            ControlName::Zoom => "Zoom",
            ControlName::Pan => "Pan",
            ControlName::Tilt => "Tilt",
        }
    }

    /// The name shown beside the property.
    pub fn label(self) -> (label: &'static str)
        ensures
            label@ == self.name()@,
    {
        match self {
            ControlName::Exposure => "Exposure",
            ControlName::Gain => "Gain",
            ControlName::Brightness => "Brightness",
            ControlName::Contrast => "Contrast",
            ControlName::Saturation => "Saturation",
            ControlName::Sharpness => "Sharpness",
            ControlName::WhiteBalance => "White balance",
            ControlName::BacklightCompensation => "Backlight compensation",
            ControlName::Focus => "Focus",
            ControlName::Zoom => "Zoom",
            ControlName::Pan => "Pan",
            ControlName::Tilt => "Tilt",
        }
    }

    /// UVC reports exposure in log2 seconds, which is unreadable on a slider,
    /// so the shutter time is spelled out next to it.
    pub fn describe_value(self, value: i64) -> (text: Option<String>)
        ensures
            match text {
                Some(text) => self == ControlName::Exposure && text@ == shutter_text(
                    value as int,
                ),
                None => self != ControlName::Exposure,
            },
    {
        if self != ControlName::Exposure {
            return None;
        }
        if value >= 1024 {
            Some("inf s".to_owned())
        } else if value >= 0 {
            let mut text = power_of_two_text(value as u32);
            text.append(" s");
            Some(text)
        } else if value > -1024 {
            let mut text = "1/".to_owned();
            text.append(power_of_two_text((-value) as u32).as_str());
            text.append(" s");
            Some(text)
        } else {
            Some("1/inf s".to_owned())
        }
    }

    /// The longest exposure that still allows `fps` frames per second, as a
    /// log2-seconds value.
    pub fn exposure_for_fps(fps: u32) -> (exposure: i64)
        ensures
            -32 <= exposure <= 0,
            fps <= pow2((-exposure) as nat),
            exposure < 0 ==> pow2((-exposure - 1) as nat) < fps,
    {
        let mut doublings: i64 = 0;
        let mut reach: u64 = 1;
        proof {
            lemma2_to64();
        }
        while reach < fps as u64
            invariant
                0 <= doublings <= 32,
                reach == pow2(doublings as nat),
                doublings > 0 ==> pow2((doublings - 1) as nat) < fps,
                pow2(32) == 0x1_0000_0000,
            decreases 32 - doublings,
        {
            proof {
                if doublings == 32 {
                    assert(false);
                }
                lemma_pow2_unfold((doublings + 1) as nat);
                assert(reach < 0x1_0000_0000);
            }
            reach = reach * 2;
            doublings = doublings + 1;
        }
        -doublings
    }
}

impl Default for CameraConfig {
    fn default() -> (config: Self)
        ensures
            config.id@ == "cam"@,
            config.label@ == "Camera"@,
            config.enabled,
            config.source == (SourceConfig::Synthetic { seat: 0 }),
            config.width == 1280,
            config.height == 720,
            config.fps == 30,
            config.lens == LensKind::Standard,
            config.rotation == Rotation::Upright,
            config.controls@.len() == 0,
            config.detector_model is None,
            config.pose_model is None,
    {
        CameraConfig {
            id: "cam".to_owned(),
            label: "Camera".to_owned(),
            enabled: true,
            source: SourceConfig::Synthetic { seat: 0 },
            width: 1280,
            height: 720,
            fps: 30,
            lens: LensKind::Standard,
            rotation: Rotation::Upright,
            controls: Vec::new(),
            detector_model: None,
            pose_model: None,
        }
    }
}

/// Where a camera's frames come from.
#[derive(Debug)]
pub enum SourceConfig {
    /// A real capture device.
    Webcam {
        /// Media Foundation symbolic link. This is the stable identity.
        device_path: String,
        /// Last known human-readable name, for reporting a missing device.
        device_name: String,
    },
    /// A generated scene, used to exercise multi-camera paths without hardware.
    Synthetic {
        /// Which corner of the virtual room this camera sits in.
        seat: u32,
    },
    /// A still image replayed at the configured frame rate, for testing the
    /// stages downstream against a known scene.
    Still { path: String },
}

impl Default for SourceConfig {
    fn default() -> (source: Self)
        ensures
            source == (SourceConfig::Synthetic { seat: 0 }),
    {
        SourceConfig::Synthetic { seat: 0 }
    }
}

impl Clone for SourceConfig {
    fn clone(&self) -> (copy: Self)
        ensures
            copy == *self,
    {
        match self {
            SourceConfig::Webcam { device_path, device_name } => SourceConfig::Webcam {
                device_path: device_path.clone(),
                device_name: device_name.clone(),
            },
            SourceConfig::Synthetic { seat } => SourceConfig::Synthetic { seat: *seat },
            SourceConfig::Still { path } => SourceConfig::Still { path: path.clone() },
        }
    }
}

impl SourceConfig {
    /// Whether the frames are generated.
    pub fn is_synthetic(&self) -> (synthetic: bool)
        ensures
            synthetic == (self is Synthetic),
    {
        matches!(self, SourceConfig::Synthetic { .. })
    }
}

/// Lens model used when calibrating this camera.
#[derive(Debug, Clone, Copy, PartialEq, Eq, Structural)]
pub enum LensKind {
    /// Radial-tangential distortion, for ordinary lenses.
    Standard,
    /// Radial-tangential with a wider field of view.
    Wide,
    /// Equidistant projection, for lenses beyond roughly 120 degrees.
    Fisheye,
}

impl LensKind {
    pub const ALL: [LensKind; 3] = [LensKind::Standard, LensKind::Wide, LensKind::Fisheye];

    /// The name shown for the lens.
    pub fn label(self) -> (label: &'static str)
        ensures
            label@ == match self {
                LensKind::Standard => "Standard"@,
                LensKind::Wide => "Wide"@,
                LensKind::Fisheye => "Fisheye"@,
            },
    {
        match self {
            LensKind::Standard => "Standard",
            LensKind::Wide => "Wide",
            LensKind::Fisheye => "Fisheye",
        }
    }
}

/// A turn by whole quarters, clockwise.
#[derive(Debug, Clone, Copy, PartialEq, Eq, Structural)]
pub enum Rotation {
    /// As the sensor delivers it.
    Upright,
    Cw90,
    Cw180,
    Cw270,
}

impl Rotation {
    pub const ALL: [Rotation; 4] = [
        Rotation::Upright,
        Rotation::Cw90,
        Rotation::Cw180,
        Rotation::Cw270,
    ];

    /// The angle shown for the turn.
    pub fn label(self) -> (label: &'static str)
        ensures
            label@ == match self {
                Rotation::Upright => "0\u{b0}"@,
                Rotation::Cw90 => "90\u{b0}"@,
                Rotation::Cw180 => "180\u{b0}"@,
                Rotation::Cw270 => "270\u{b0}"@,
            },
    {
        match self {
            Rotation::Upright => "0\u{b0}",
            Rotation::Cw90 => "90\u{b0}",
            Rotation::Cw180 => "180\u{b0}",
            Rotation::Cw270 => "270\u{b0}",
        }
    }

    /// How many quarter turns this is.
    pub open spec fn quarters(self) -> int {
        match self {
            Rotation::Upright => 0,
            Rotation::Cw90 => 1,
            Rotation::Cw180 => 2,
            Rotation::Cw270 => 3,
        }
    }

    /// True when the rotation swaps width and height.
    pub fn transposes(self) -> (swaps: bool)
        ensures
            swaps == (self.quarters() % 2 == 1),
    {
        matches!(self, Rotation::Cw90 | Rotation::Cw270)
    }
}

/// What is set of a property is the first setting with its name, and it is not set
/// exactly if no setting has it.
pub proof fn a_property_is_found_by_its_name(controls: Seq<ControlSetting>, name: ControlName)
    ensures
        match setting_of(controls, name) {
            Some(setting) => exists|i: int|
                0 <= i < controls.len() && #[trigger] controls[i] == setting && setting.name
                    == name && forall|j: int| 0 <= j < i ==> (#[trigger] controls[j]).name != name,
            None => forall|j: int| 0 <= j < controls.len() ==> (#[trigger] controls[j]).name != name,
        },
{
    let wanted = |setting: ControlSetting| setting.name == name;
    lemma_first_where(controls, wanted);
    assert(setting_at(controls, name) == first_where(controls, wanted));
    let at = setting_at(controls, name);
    assert forall|j: int| 0 <= j < at implies (#[trigger] controls[j]).name != name by {
        assert(!wanted(controls[j]));
    }
    if at < controls.len() {
        assert(wanted(controls[at]));
        assert(controls[at] == setting_of(controls, name)->0);
    }
}

/// A shutter that is open for a fraction of a second is spelled as one over what it
/// would be the other way round; one second is spelled as such, and each step doubles.
pub proof fn a_fraction_is_spelled_as_one_over(exponent: int)
    ensures
        shutter_text(0) == decimal(1) + " s"@,
        exponent > 0 ==> shutter_text(-exponent) == "1/"@ + shutter_text(exponent),
        0 <= exponent < 1023 ==> exists|n: nat|
            shutter_text(exponent) == #[trigger] decimal(n) + " s"@ && shutter_text(exponent + 1)
                == decimal(2 * n) + " s"@,
        exponent >= 1024 ==> shutter_text(exponent) == "inf s"@,
{
    reveal_strlit("1/");
    reveal_strlit(" s");
    reveal_strlit("inf s");
    reveal_strlit("1/inf s");
    lemma2_to64();
    if exponent > 0 {
        assert(shutter_text(-exponent) =~= "1/"@ + shutter_text(exponent));
    }
    if 0 <= exponent < 1023 {
        lemma_pow2_unfold((exponent + 1) as nat);
        let n = pow2(exponent as nat);
        assert(shutter_text(exponent) == decimal(n) + " s"@);
        assert(pow2((exponent + 1) as nat) == 2 * n);
    }
}

/// A camera on its side swaps its width and its height, and no other does.
pub proof fn a_camera_on_its_side_swaps_its_sides(rotation: Rotation)
    ensures
        rotation.quarters() % 2 == 1 <==> rotation == Rotation::Cw90 || rotation == Rotation::Cw270,
        Rotation::Upright.quarters() == 0,
        Rotation::Cw90.quarters() + Rotation::Cw270.quarters() == 4,
        Rotation::Cw180.quarters() == 2 * Rotation::Cw90.quarters(),
{
}

} // verus!
