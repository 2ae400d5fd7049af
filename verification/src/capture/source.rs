//! Frame sources, and what happens to a frame before anybody looks at it.

use vstd::arithmetic::div_mod::{lemma_fundamental_div_mod, lemma_fundamental_div_mod_converse};
use vstd::prelude::*;

use crate::capture::decode::{
    decode_png, decoded_png, has_whole_palettes, is_named_png, named_png, whole_palettes, Decoded,
};
use crate::config::camera::{CameraConfig, ControlName, Rotation, SourceConfig};
use crate::text::{decimal, decimal_text};
use crate::time::{since, Duration, Instant};

verus! {

/// A decoded frame, three bytes to a pixel, row by row.
#[derive(Debug, Clone)]
pub struct RawFrame {
    pub width: u32,
    pub height: u32,
    pub rgb: Vec<u8>,
    /// How long the frame took to decode.
    pub decode: Duration,
}

/// A frame's picture: what is left of it without the timing.
pub struct Picture {
    pub width: int,
    pub height: int,
    pub rgb: Seq<u8>,
}

impl View for RawFrame {
    type V = Picture;

    open spec fn view(&self) -> Picture {
        Picture { width: self.width as int, height: self.height as int, rgb: self.rgb@ }
    }
}

impl Picture {
    /// Whether there are three bytes for every pixel and no others.
    pub open spec fn well_formed(self) -> bool {
        &&& self.width >= 0
        &&& self.height >= 0
        &&& self.rgb.len() == self.width * self.height * 3
    }

    /// One colour channel of the pixel in column `x` of row `y`.
    pub open spec fn at(self, x: int, y: int, channel: int) -> u8 {
        self.rgb[(y * self.width + x) * 3 + channel]
    }

    /// The width after a turn.
    pub open spec fn turned_width(self, rotation: Rotation) -> int {
        if rotation.quarters() % 2 == 1 {
            self.height
        } else {
            self.width
        }
    }

    /// The height after a turn.
    pub open spec fn turned_height(self, rotation: Rotation) -> int {
        if rotation.quarters() % 2 == 1 {
            self.width
        } else {
            self.height
        }
    }

    /// Which pixel a turn brings to column `x` of row `y`.
    pub open spec fn origin(self, rotation: Rotation, x: int, y: int) -> (int, int) {
        match rotation {
            Rotation::Upright => (x, y),
            Rotation::Cw90 => (y, self.height - 1 - x),
            Rotation::Cw180 => (self.width - 1 - x, self.height - 1 - y),
            Rotation::Cw270 => (self.width - 1 - y, x),
        }
    }

    /// The byte a turn brings to place `i`.
    pub open spec fn turned_byte(self, rotation: Rotation, i: int) -> u8 {
        let width = self.turned_width(rotation);
        let (x, y) = self.origin(rotation, (i / 3) % width, (i / 3) / width);
        self.at(x, y, i % 3)
    }

    /// The picture turned clockwise.
    pub open spec fn turned(self, rotation: Rotation) -> Picture {
        if rotation == Rotation::Upright {
            self
        } else {
            Picture {
                width: self.turned_width(rotation),
                height: self.turned_height(rotation),
                rgb: Seq::new(
                    (self.width * self.height * 3) as nat,
                    |i: int| self.turned_byte(rotation, i),
                ),
            }
        }
    }
}

/// Where the byte of a channel of a pixel stands, and back again.
proof fn lemma_place(width: int, height: int, x: int, y: int, channel: int)
    requires
        0 <= x < width,
        0 <= y < height,
        0 <= channel < 3,
    ensures
        0 <= (y * width + x) * 3 + channel < width * height * 3,
        ((y * width + x) * 3 + channel) % 3 == channel,
        (((y * width + x) * 3 + channel) / 3) % width == x,
        (((y * width + x) * 3 + channel) / 3) / width == y,
{
    let pixel = y * width + x;
    assert(0 <= pixel < width * height) by (nonlinear_arith)
        requires
            pixel == y * width + x,
            0 <= x < width,
            0 <= y < height,
    ;
    lemma_fundamental_div_mod_converse(pixel * 3 + channel, 3, pixel, channel);
    lemma_fundamental_div_mod_converse(pixel, width, y, x);
}

/// Which pixel and channel a byte belongs to.
proof fn lemma_pixel(width: int, height: int, i: int) -> (pixel: (int, int, int))
    requires
        0 <= i < width * height * 3,
        0 <= width,
        0 <= height,
    ensures
        pixel == ((i / 3) % width, (i / 3) / width, i % 3),
        0 <= pixel.0 < width,
        0 <= pixel.1 < height,
        0 <= pixel.2 < 3,
        i == (pixel.1 * width + pixel.0) * 3 + pixel.2,
{
    let p = i / 3;
    assert(width > 0 && height > 0) by (nonlinear_arith)
        requires
            0 <= i < width * height * 3,
            0 <= width,
            0 <= height,
    ;
    lemma_fundamental_div_mod(p, width);
    let (x, y) = (p % width, p / width);
    assert(0 <= x < width);
    assert(0 <= y < height) by (nonlinear_arith)
        requires
            p == width * y + x,
            0 <= x < width,
            0 <= p < width * height,
    ;
    assert(width * y == y * width) by (nonlinear_arith);
    (x, y, i % 3)
}

/// A turned picture shows at each pixel what stood at the pixel's origin.
proof fn lemma_turned_at(picture: Picture, rotation: Rotation, x: int, y: int, channel: int)
    requires
        picture.well_formed(),
        0 <= x < picture.turned_width(rotation),
        0 <= y < picture.turned_height(rotation),
        0 <= channel < 3,
    ensures
        picture.turned(rotation).at(x, y, channel) == ({
            let (u, v) = picture.origin(rotation, x, y);
            picture.at(u, v, channel)
        }),
{
    let (w, h) = (picture.turned_width(rotation), picture.turned_height(rotation));
    lemma_place(w, h, x, y, channel);
    assert(w * h == picture.width * picture.height) by (nonlinear_arith)
        requires
            (w == picture.width && h == picture.height) || (w == picture.height && h
                == picture.width),
    ;
}

/// A turn keeps a picture well formed.
pub proof fn turning_keeps_every_pixel(picture: Picture, rotation: Rotation)
    requires
        picture.well_formed(),
    ensures
        picture.turned(rotation).well_formed(),
{
    assert(picture.width * picture.height == picture.height * picture.width) by (nonlinear_arith);
    assert(picture.width * picture.height >= 0) by (nonlinear_arith)
        requires
            picture.width >= 0,
            picture.height >= 0,
    ;
}

/// One turn after another is the single turn by the sum of both, so four
/// quarter turns are none, two are a half turn, and three undo one.
pub proof fn turns_compose(picture: Picture, first: Rotation, second: Rotation, both: Rotation)
    requires
        picture.well_formed(),
        both.quarters() == (first.quarters() + second.quarters()) % 4,
    ensures
        picture.turned(first).turned(second) == picture.turned(both),
{
    let once = picture.turned(first);
    let twice = once.turned(second);
    let direct = picture.turned(both);
    turning_keeps_every_pixel(picture, first);
    turning_keeps_every_pixel(once, second);
    turning_keeps_every_pixel(picture, both);
    assert(twice.width == direct.width && twice.height == direct.height);
    assert forall|i: int| 0 <= i < direct.rgb.len() implies twice.rgb[i] == direct.rgb[i] by {
        let (x, y, channel) = lemma_pixel(direct.width, direct.height, i);
        lemma_turned_at(once, second, x, y, channel);
        let (u, v) = once.origin(second, x, y);
        lemma_turned_at(picture, first, u, v, channel);
        lemma_turned_at(picture, both, x, y, channel);
    }
    assert(twice.rgb =~= direct.rgb);
}

/// Rotates a frame by whole quarter turns.
///
/// A camera mounted sideways in a ceiling corner is common enough that fixing
/// it here is cheaper than teaching every later stage about it.
pub fn rotate(frame: RawFrame, rotation: Rotation) -> (turned: RawFrame)
    requires
        rotation == Rotation::Upright || frame.width * frame.height * 3 <= frame.rgb@.len(),
    ensures
        turned@ == frame@.turned(rotation),
        turned.decode == frame.decode,
{
    if rotation == Rotation::Upright {
        return frame;
    }
    let (w, h): (usize, usize) = (frame.width as usize, frame.height as usize);
    let (out_w, out_h): (usize, usize) = if rotation.transposes() {
        (h, w)
    } else {
        (w, h)
    };
    let ghost picture = frame@;
    let ghost whole = picture.turned(rotation).rgb;
    let mut out: Vec<u8> = Vec::new();
    let mut y: usize = 0;
    proof {
        assert(w * h == out_w * out_h) by (nonlinear_arith)
            requires
                (out_w == w && out_h == h) || (out_w == h && out_h == w),
        ;
        assert(w * h * 3 >= 0) by (nonlinear_arith);
    }
    while y < out_h
        invariant
            y <= out_h,
            rotation != Rotation::Upright,
            w == frame.width,
            h == frame.height,
            out_w == picture.turned_width(rotation),
            out_h == picture.turned_height(rotation),
            w * h == out_w * out_h,
            w * h * 3 <= frame.rgb@.len(),
            picture == frame@,
            whole == picture.turned(rotation).rgb,
            out@.len() == y * out_w * 3,
            forall|i: int| 0 <= i < out@.len() ==> out@[i] == #[trigger] whole[i],
        decreases out_h - y,
    {
        let mut x: usize = 0;
        while x < out_w
            invariant
                x <= out_w,
                y < out_h,
                rotation != Rotation::Upright,
                w == frame.width,
                h == frame.height,
                out_w == picture.turned_width(rotation),
                out_h == picture.turned_height(rotation),
                w * h == out_w * out_h,
                w * h * 3 <= frame.rgb@.len(),
                picture == frame@,
                whole == picture.turned(rotation).rgb,
                out@.len() == (y * out_w + x) * 3,
                forall|i: int| 0 <= i < out@.len() ==> out@[i] == #[trigger] whole[i],
            decreases out_w - x,
        {
            let (u, v): (usize, usize) = match rotation {
                Rotation::Upright => (x, y),
                Rotation::Cw90 => (y, h - 1 - x),
                Rotation::Cw180 => (w - 1 - x, h - 1 - y),
                Rotation::Cw270 => (w - 1 - y, x),
            };
            proof {
                assert((u as int, v as int) == picture.origin(rotation, x as int, y as int));
                lemma_place(w as int, h as int, u as int, v as int, 0);
                lemma_place(w as int, h as int, u as int, v as int, 2);
                lemma_place(out_w as int, out_h as int, x as int, y as int, 0);
                lemma_place(out_w as int, out_h as int, x as int, y as int, 1);
                lemma_place(out_w as int, out_h as int, x as int, y as int, 2);
                assert(w * h * 3 <= frame.rgb.len());
                assert(0 <= v * w) by (nonlinear_arith)
                    requires
                        0 <= v,
                        0 <= w,
                ;
            }
            let src: usize = (v * w + u) * 3;
            out.push(frame.rgb[src]);
            out.push(frame.rgb[src + 1]);
            out.push(frame.rgb[src + 2]);
            x = x + 1;
        }
        y = y + 1;
        proof {
            assert(y * out_w == (y - 1) * out_w + out_w) by (nonlinear_arith);
        }
    }
    proof {
        assert(out_h * out_w == out_w * out_h) by (nonlinear_arith);
        assert(out@ =~= whole);
    }
    RawFrame { width: out_w as u32, height: out_h as u32, rgb: out, decode: frame.decode }
}

/// What a source settled on.
#[derive(Debug, Clone)]
pub struct NegotiatedFormat {
    pub width: u32,
    pub height: u32,
    pub fps: u32,
    pub pixel_format: String,
}

impl NegotiatedFormat {
    /// The format as one line.
    pub open spec fn line(self) -> Seq<char> {
        decimal(self.width as nat) + "x"@ + decimal(self.height as nat) + " @ "@ + decimal(
            self.fps as nat,
        ) + " fps ("@ + self.pixel_format@ + ")"@
    }

    /// The format as one line.
    pub fn text(&self) -> (text: String)
        ensures
            text@ == self.line(),
    {
        let mut text = decimal_text(self.width as u64);
        text.append("x");
        text.append(decimal_text(self.height as u64).as_str());
        text.append(" @ ");
        text.append(decimal_text(self.fps as u64).as_str());
        text.append(" fps (");
        text.append(self.pixel_format.as_str());
        text.append(")");
        text
    }
}

/// What a device reports about one of its properties.
#[derive(Debug, Clone, Copy, PartialEq, Eq, Structural)]
pub struct ControlInfo {
    pub name: ControlName,
    pub min: i64,
    pub max: i64,
    pub step: i64,
    pub default: i64,
    pub value: i64,
    /// True when the device is currently deciding this value by itself.
    pub auto: bool,
    pub auto_supported: bool,
    pub manual_supported: bool,
}

/// Which of a device's two property interfaces backs a control.
#[derive(Debug, Clone, Copy, PartialEq, Eq, Structural)]
pub enum Interface {
    /// The one of the lens and the sensor.
    Camera,
    /// The one of the image processing.
    ProcAmp,
}

/// Which interface backs a control.
pub fn interface_of(name: ControlName) -> (interface: Interface)
    ensures
        interface == match name {
            ControlName::Exposure => Interface::Camera,
            ControlName::Focus => Interface::Camera,
            ControlName::Zoom => Interface::Camera,
            ControlName::Pan => Interface::Camera,
            ControlName::Tilt => Interface::Camera,
            _ => Interface::ProcAmp,
        },
{
    match name {
        ControlName::Exposure
        | ControlName::Focus
        | ControlName::Zoom
        | ControlName::Pan
        | ControlName::Tilt => Interface::Camera,
        ControlName::Gain
        | ControlName::Brightness
        | ControlName::Contrast
        | ControlName::Saturation
        | ControlName::Sharpness
        | ControlName::WhiteBalance
        | ControlName::BacklightCompensation => Interface::ProcAmp,
    }
}

/// A property as the device's interface reports it.
#[derive(Debug, Clone, Copy, PartialEq, Eq, Structural)]
pub struct Reading {
    pub min: i32,
    pub max: i32,
    pub step: i32,
    pub default: i32,
    pub value: i32,
    /// What the device can do, as a set of flags.
    pub caps: u32,
    /// What the device is doing, as a set of flags.
    pub flags: u32,
}

/// What a device reports about a property, given the flags that stand for
/// automatic and for manual regulation. A step is never less than one.
pub fn describe_control(
    name: ControlName,
    reading: Reading,
    auto_flag: u32,
    manual_flag: u32,
) -> (info: ControlInfo)
    ensures
        info == (ControlInfo {
            name,
            min: reading.min as i64,
            max: reading.max as i64,
            step: if reading.step >= 1 {
                reading.step as i64
            } else {
                1
            },
            default: reading.default as i64,
            value: reading.value as i64,
            auto: reading.flags & auto_flag != 0,
            auto_supported: reading.caps & auto_flag != 0,
            manual_supported: reading.caps & manual_flag != 0,
        }),
{
    ControlInfo {
        name,
        min: reading.min as i64,
        max: reading.max as i64,
        step: if reading.step >= 1 {
            reading.step as i64
        } else {
            1
        },
        default: reading.default as i64,
        value: reading.value as i64,
        auto: reading.flags & auto_flag != 0,
        auto_supported: reading.caps & auto_flag != 0,
        manual_supported: reading.caps & manual_flag != 0,
    }
}

/// The device whose properties a camera's settings apply to, if it is one that
/// has any. A generated scene and a still image have nothing to control.
pub fn open_controls(config: &CameraConfig) -> (device: Option<&String>)
    ensures
        match (config.source, device) {
            (SourceConfig::Webcam { device_path, device_name }, Some(device)) => *device
                == device_path,
            (SourceConfig::Webcam { .. }, None) => false,
            (_, device) => device is None,
        },
{
    match &config.source {
        SourceConfig::Webcam { device_path, device_name } => Some(device_path),
        SourceConfig::Synthetic { .. } => None,
        SourceConfig::Still { .. } => None,
    }
}

/// What is to be opened for a camera.
#[derive(Debug, Clone)]
pub enum Opening {
    /// The capture device, asked for this format.
    Webcam { device_path: String, device_name: String, width: u32, height: u32, fps: u32 },
    /// The generated scene, seen from a seat, at this size and rate.
    Synthetic { seat: u32, width: u32, height: u32, fps: u32 },
    /// The still image, at this rate.
    Still { path: String, fps: u32 },
}

/// The larger of two numbers.
pub open spec fn at_least(value: u32, least: u32) -> u32 {
    if value >= least {
        value
    } else {
        least
    }
}

fn raised(value: u32, least: u32) -> (raised: u32)
    ensures
        raised == at_least(value, least),
{
    if value >= least {
        value
    } else {
        least
    }
}

/// What is to be opened for a camera. A generated scene is never smaller than
/// it can be drawn, and no rate is zero.
pub fn open(config: &CameraConfig) -> (opening: Opening)
    ensures
        opening == match config.source {
            SourceConfig::Webcam { device_path, device_name } => Opening::Webcam {
                device_path,
                device_name,
                width: config.width,
                height: config.height,
                fps: config.fps,
            },
            SourceConfig::Synthetic { seat } => Opening::Synthetic {
                seat,
                width: at_least(config.width, 64),
                height: at_least(config.height, 64),
                fps: at_least(config.fps, 1),
            },
            SourceConfig::Still { path } => Opening::Still { path, fps: at_least(config.fps, 1) },
        },
{
    match &config.source {
        SourceConfig::Webcam { device_path, device_name } => Opening::Webcam {
            device_path: device_path.clone(),
            device_name: device_name.clone(),
            width: config.width,
            height: config.height,
            fps: config.fps,
        },
        SourceConfig::Synthetic { seat } => Opening::Synthetic {
            seat: *seat,
            width: raised(config.width, 64),
            height: raised(config.height, 64),
            fps: raised(config.fps, 1),
        },
        SourceConfig::Still { path } => Opening::Still {
            path: path.clone(),
            fps: raised(config.fps, 1),
        },
    }
}

/// When the next frame of a generated source is due.
///
/// A source without a device behind it paces itself, so that the measured rate
/// and the timing of everything downstream mean something.
#[derive(Debug, Clone, Copy, PartialEq, Eq, Structural)]
pub struct Pace {
    pub fps: u32,
    pub next_frame_at: Instant,
}

impl Pace {
    /// The pace after one more frame: the next is due a period later, but never in
    /// the past.
    pub open spec fn after(self, period: Duration, now: Instant) -> Pace {
        let due = self.next_frame_at.nanos + period.nanos;
        let capped = if due <= u64::MAX {
            due
        } else {
            u64::MAX as int
        };
        Pace {
            next_frame_at: Instant {
                nanos: if capped >= now.nanos {
                    capped as u64
                } else {
                    now.nanos
                },
            },
            ..self
        }
    }

    /// A pace at the configured rate, from now on.
    pub fn new(config: &CameraConfig, now: Instant) -> (pace: Self)
        ensures
            pace == (Pace { fps: at_least(config.fps, 1), next_frame_at: now }),
    {
        Pace { fps: raised(config.fps, 1), next_frame_at: now }
    }

    /// How long to wait before the next frame is due.
    pub fn wait(&self, now: Instant) -> (wait: Duration)
        ensures
            wait.nanos == since(self.next_frame_at, now),
    {
        self.next_frame_at.saturating_duration_since(now)
    }

    /// Takes note of a frame. A source that fell behind does not catch up in a
    /// rush.
    pub fn advance(&mut self, period: Duration, now: Instant)
        ensures
            *final(self) == old(self).after(period, now),
    {
        let due: Instant = self.next_frame_at.after(period);
        self.next_frame_at = if due.nanos >= now.nanos {
            due
        } else {
            now
        };
    }
}

/// A source that keeps up is due one period after another: its frames do not
/// drift, however late each one is fetched, as long as it is fetched before the
/// next is due.
pub proof fn a_source_that_keeps_up_does_not_drift(pace: Pace, period: Duration, now: Instant)
    requires
        now.nanos <= pace.next_frame_at.nanos + period.nanos <= u64::MAX,
    ensures
        pace.after(period, now).next_frame_at.nanos == pace.next_frame_at.nanos + period.nanos,
        pace.after(period, now).fps == pace.fps,
{
}

/// A generated scene used as a camera, to exercise several cameras without having
/// them.
#[derive(Debug, Clone, Copy, PartialEq, Eq, Structural)]
pub struct SyntheticSource {
    /// Which ceiling corner it is seen from.
    pub seat: u32,
    pub width: u32,
    pub height: u32,
    pub started: Instant,
    pub pace: Pace,
}

impl SyntheticSource {
    /// Shows the scene from a corner, from now on. It is never smaller than it can
    /// be drawn.
    pub fn new(config: &CameraConfig, seat: u32, now: Instant) -> (source: Self)
        ensures
            source == (SyntheticSource {
                seat,
                width: at_least(config.width, 64),
                height: at_least(config.height, 64),
                started: now,
                pace: Pace { fps: at_least(config.fps, 1), next_frame_at: now },
            }),
    {
        SyntheticSource {
            seat,
            width: raised(config.width, 64),
            height: raised(config.height, 64),
            started: now,
            pace: Pace::new(config, now),
        }
    }

    /// The format of the scene.
    pub fn negotiated(&self) -> (format: NegotiatedFormat)
        ensures
            format.width == self.width,
            format.height == self.height,
            format.fps == self.pace.fps,
            format.pixel_format@ == "SYNTHETIC"@,
    {
        NegotiatedFormat {
            width: self.width,
            height: self.height,
            fps: self.pace.fps,
            pixel_format: "SYNTHETIC".to_owned(),
        }
    }
}

/// A still image replayed as a camera.
///
/// Real cameras cannot be pointed at the same scene twice, which makes them a
/// poor basis for tests of everything downstream. A still source gives the
/// pipeline a known image at a known rate.
#[derive(Debug, Clone)]
pub struct StillSource {
    pub width: u32,
    pub height: u32,
    pub rgb: Vec<u8>,
    pub pace: Pace,
}

impl StillSource {
    /// Replays a decoded image from now on.
    pub fn replay(config: &CameraConfig, image: Decoded, now: Instant) -> (source: Self)
        ensures
            source == (StillSource {
                width: image.width,
                height: image.height,
                rgb: image.rgb,
                pace: Pace { fps: at_least(config.fps, 1), next_frame_at: now },
            }),
    {
        StillSource {
            width: image.width,
            height: image.height,
            rgb: image.rgb,
            pace: Pace::new(config, now),
        }
    }

    /// What is said of an image file that cannot be read.
    pub fn unreadable(path: &String, cause: &String) -> (text: String)
        ensures
            text@ == "failed to read "@ + path@ + ": "@ + cause@,
    {
        let mut text: String = "failed to read ".to_owned();
        text.append(path.as_str());
        text.append(": ");
        text.append(cause.as_str());
        text
    }

    /// Replays the image a PNG file of this content holds.
    ///
    /// Any other file is left to the caller, which decodes it and has it replayed.
    /// The PNG decoder panics on a palette that breaks off within a colour, and
    /// decoders of other formats may unwind on broken content instead of refusing
    /// it.
    pub fn open(config: &CameraConfig, path: &String, bytes: &Vec<u8>, now: Instant) -> (
        opened: Option<Result<Self, String>>)
        ensures
            opened is Some == (named_png(path@) && whole_palettes(bytes@)),
            opened matches Some(source) ==> match decoded_png(bytes@) {
                Ok((width, height, rgb)) => {
                    &&& source is Ok
                    &&& source->Ok_0.width == width
                    &&& source->Ok_0.height == height
                    &&& source->Ok_0.rgb@ == rgb
                    &&& source->Ok_0.pace == (Pace {
                        fps: at_least(config.fps, 1),
                        next_frame_at: now,
                    })
                    &&& source->Ok_0.picture().well_formed()
                },
                Err(cause) => {
                    &&& source is Err
                    &&& source->Err_0@ == "failed to read "@ + path@ + ": "@ + cause
                },
            },
    {
        if !is_named_png(path) || !has_whole_palettes(bytes) {
            return None;
        }
        match decode_png(bytes) {
            Ok(image) => Some(Ok(StillSource::replay(config, image, now))),
            Err(cause) => Some(Err(StillSource::unreadable(path, &cause))),
        }
    }

    /// The image.
    pub open spec fn picture(&self) -> Picture {
        Picture { width: self.width as int, height: self.height as int, rgb: self.rgb@ }
    }

    /// The next frame, once it is due.
    pub fn next_frame(&mut self, period: Duration, now: Instant) -> (frame: RawFrame)
        ensures
            frame@ == old(self).picture(),
            frame.decode.nanos == 0,
            *final(self) == (StillSource {
                pace: old(self).pace.after(period, now),
                ..*old(self)
            }),
    {
        self.pace.advance(period, now);
        let rgb: Vec<u8> = self.rgb.clone();
        assert(rgb@ =~= self.rgb@);
        RawFrame { width: self.width, height: self.height, rgb, decode: Duration::zero() }
    }

    /// The format of the image.
    pub fn negotiated(&self) -> (format: NegotiatedFormat)
        ensures
            format.width == self.width,
            format.height == self.height,
            format.fps == self.pace.fps,
            format.pixel_format@ == "STILL"@,
    {
        NegotiatedFormat {
            width: self.width,
            height: self.height,
            fps: self.pace.fps,
            pixel_format: "STILL".to_owned(),
        }
    }
}

/// A quarter turn to the right takes the pixel at (x, y) to the column its row was from
/// the bottom and the row its column was; a half turn to the same place from the other
/// corner; and a quarter turn to the left to the column its row was and the row its
/// column was from the right. Every channel stays with its pixel.
pub proof fn a_turn_takes_every_pixel_to_its_place(picture: Picture, x: int, y: int, channel: int)
    requires
        picture.well_formed(),
        0 <= x < picture.width,
        0 <= y < picture.height,
        0 <= channel < 3,
    ensures
        ({
            let (w, h) = (picture.width, picture.height);
            let byte = picture.rgb[(y * w + x) * 3 + channel];
            let right = picture.turned(Rotation::Cw90);
            let half = picture.turned(Rotation::Cw180);
            let left = picture.turned(Rotation::Cw270);
            &&& right.width == h && right.height == w
            &&& half.width == w && half.height == h
            &&& left.width == h && left.height == w
            &&& right.rgb[(x * h + (h - 1 - y)) * 3 + channel] == byte
            &&& half.rgb[((h - 1 - y) * w + (w - 1 - x)) * 3 + channel] == byte
            &&& left.rgb[((w - 1 - x) * h + y) * 3 + channel] == byte
            &&& picture.turned(Rotation::Upright) == picture
        }),
{
    let (w, h) = (picture.width, picture.height);
    lemma_turned_at(picture, Rotation::Cw90, h - 1 - y, x, channel);
    lemma_turned_at(picture, Rotation::Cw180, w - 1 - x, h - 1 - y, channel);
    lemma_turned_at(picture, Rotation::Cw270, y, w - 1 - x, channel);
}

/// A source that has fallen behind does not hurry to catch up: the next frame is due a
/// period after the last was, or now if that is past.
pub proof fn a_source_that_fell_behind_starts_from_now(pace: Pace, period: Duration, now: Instant)
    ensures
        ({
            let after = pace.after(period, now);
            let due = pace.next_frame_at.nanos + period.nanos;
            &&& after.next_frame_at.nanos >= now.nanos
            &&& due <= u64::MAX ==> after.next_frame_at.nanos >= due && (after.next_frame_at.nanos
                == now.nanos || after.next_frame_at.nanos == due)
            &&& due > u64::MAX ==> after.next_frame_at.nanos == u64::MAX
            &&& after.fps == pace.fps
        }),
        forall|value: u32, least: u32| #[trigger]
            at_least(value, least) >= value && at_least(value, least) >= least && (at_least(
                value,
                least,
            ) == value || at_least(value, least) == least),
{
}

/// A format is told by its size, then its rate, then how its pixels are laid out.
pub proof fn a_format_is_told_by_its_size_first(format: NegotiatedFormat)
    ensures
        format.line() == decimal(format.width as nat) + "x"@ + (decimal(format.height as nat)
            + " @ "@) + (decimal(format.fps as nat) + " fps ("@ + (format.pixel_format@ + ")"@)),
{
    assert(format.line() =~= decimal(format.width as nat) + "x"@ + (decimal(format.height as nat)
        + " @ "@) + (decimal(format.fps as nat) + " fps ("@ + (format.pixel_format@ + ")"@)));
}

} // verus!
