//! Frames and the sources they come from.

use optra::capture::formats::{bandwidth_rank, list_formats, pick_format, CameraFormat, FrameFormat, Request};
use optra::capture::decode::Decoded;
use optra::capture::source::{
    describe_control, interface_of, open, open_controls, rotate, Interface, NegotiatedFormat, Opening, RawFrame, Reading,
    StillSource, SyntheticSource,
};
use optra::config::camera::{CameraConfig, ControlName, Rotation, SourceConfig};
use optra::time::{Duration, Instant};

/// A 2x1 image: red then green.
fn sample() -> RawFrame {
    RawFrame {
        width: 2,
        height: 1,
        rgb: vec![255, 0, 0, 0, 255, 0],
        decode: Duration::zero(),
    }
}

#[test]
fn quarter_turn_transposes_and_moves_the_first_pixel_to_the_top_right() {
    let rotated = rotate(sample(), Rotation::Cw90);
    assert_eq!((rotated.width, rotated.height), (1, 2));
    assert_eq!(rotated.rgb, vec![255, 0, 0, 0, 255, 0]);
}

#[test]
fn half_turn_reverses_the_row() {
    let rotated = rotate(sample(), Rotation::Cw180);
    assert_eq!((rotated.width, rotated.height), (2, 1));
    assert_eq!(rotated.rgb, vec![0, 255, 0, 255, 0, 0]);
}

#[test]
fn four_quarter_turns_are_the_identity() {
    let mut frame = sample();
    for _ in 0..4 {
        frame = rotate(frame, Rotation::Cw90);
    }
    assert_eq!((frame.width, frame.height), (2, 1));
    assert_eq!(frame.rgb, sample().rgb);
}

#[test]
fn no_rotation_is_a_passthrough() {
    let frame = rotate(sample(), Rotation::Upright);
    assert_eq!(frame.rgb, sample().rgb);
}

fn numbered(width: u32, height: u32) -> RawFrame {
    RawFrame {
        width,
        height,
        rgb: (0..width * height * 3).map(|n| n as u8).collect(),
        decode: Duration::from_millis(3),
    }
}

#[test]
fn a_quarter_turn_puts_each_row_down_the_right_hand_side() {
    // Rows 0 1 / 2 3 / 4 5 become 4 2 0 / 5 3 1.
    let turned = rotate(numbered(2, 3), Rotation::Cw90);
    assert_eq!((turned.width, turned.height), (3, 2));
    let firsts: Vec<u8> = turned.rgb.iter().step_by(3).copied().collect();
    assert_eq!(firsts, vec![12, 6, 0, 15, 9, 3]);
    assert_eq!(turned.decode, Duration::from_millis(3));
}

#[test]
fn turns_add_up() {
    let twice = rotate(rotate(numbered(3, 2), Rotation::Cw90), Rotation::Cw90);
    assert_eq!(twice.rgb, rotate(numbered(3, 2), Rotation::Cw180).rgb);

    let undone = rotate(rotate(numbered(3, 2), Rotation::Cw90), Rotation::Cw270);
    assert_eq!(undone.rgb, numbered(3, 2).rgb);

    let mixed = rotate(rotate(numbered(3, 2), Rotation::Cw180), Rotation::Cw90);
    assert_eq!(mixed.rgb, rotate(numbered(3, 2), Rotation::Cw270).rgb);
}

#[test]
fn bytes_past_the_picture_are_dropped_by_a_turn() {
    let mut frame = sample();
    frame.rgb.push(9);
    let turned = rotate(frame, Rotation::Cw180);
    assert_eq!(turned.rgb, vec![0, 255, 0, 255, 0, 0]);
}

#[test]
fn an_empty_picture_turns_into_an_empty_picture() {
    let frame = RawFrame { width: 0, height: 4, rgb: Vec::new(), decode: Duration::zero() };
    let turned = rotate(frame, Rotation::Cw90);
    assert_eq!((turned.width, turned.height), (4, 0));
    assert!(turned.rgb.is_empty());
}

#[test]
fn a_format_is_written_on_one_line() {
    let format = NegotiatedFormat {
        width: 1280,
        height: 720,
        fps: 30,
        pixel_format: "MJPEG".to_owned(),
    };
    assert_eq!(format.text(), "1280x720 @ 30 fps (MJPEG)");
}

fn format(width: u32, height: u32, fps: u32, format: FrameFormat) -> CameraFormat {
    CameraFormat { width, height, fps, format }
}

#[test]
fn the_closest_resolution_wins_before_the_rate_and_the_encoding() {
    let request = Request { width: 1280, height: 720, fps: 30 };
    let offered = vec![
        format(640, 480, 30, FrameFormat::Mjpeg),
        format(1280, 720, 10, FrameFormat::Yuyv),
        format(1280, 720, 25, FrameFormat::RawRgb),
        format(1280, 720, 35, FrameFormat::Nv12),
        format(1280, 720, 25, FrameFormat::Nv12),
    ];
    // Both nv12 formats miss the rate by five; the first of them is taken.
    assert_eq!(pick_format(&offered, request), Some(offered[3]));
    assert_eq!(pick_format(&Vec::new(), request), None);
}

#[test]
fn formats_are_listed_largest_first_and_once() {
    let offered = vec![
        format(640, 480, 30, FrameFormat::Yuyv),
        format(1280, 720, 30, FrameFormat::Yuyv),
        format(640, 480, 60, FrameFormat::Mjpeg),
        format(1280, 720, 30, FrameFormat::Mjpeg),
        format(640, 480, 30, FrameFormat::Yuyv),
    ];
    assert_eq!(
        list_formats(&offered),
        vec![
            format(1280, 720, 30, FrameFormat::Mjpeg),
            format(1280, 720, 30, FrameFormat::Yuyv),
            format(640, 480, 60, FrameFormat::Mjpeg),
            format(640, 480, 30, FrameFormat::Yuyv),
        ]
    );
    assert_eq!(bandwidth_rank(FrameFormat::RawBgr), bandwidth_rank(FrameFormat::RawRgb));
    let alike = vec![
        format(640, 480, 30, FrameFormat::RawRgb),
        format(640, 480, 30, FrameFormat::RawBgr),
        format(640, 480, 30, FrameFormat::RawRgb),
    ];
    assert_eq!(list_formats(&alike), alike[..2].to_vec());
    assert_eq!(bandwidth_rank(FrameFormat::Gray), 4);
}

#[test]
fn a_property_reading_becomes_a_description() {
    let reading = Reading {
        min: -11,
        max: -2,
        step: 0,
        default: -6,
        value: -5,
        caps: 3,
        flags: 2,
    };
    let info = describe_control(ControlName::Exposure, reading, 1, 2);
    assert_eq!((info.min, info.max, info.step, info.default, info.value), (-11, -2, 1, -6, -5));
    assert!(!info.auto);
    assert!(info.auto_supported);
    assert!(info.manual_supported);
    assert_eq!(interface_of(ControlName::Exposure), Interface::Camera);
    assert_eq!(interface_of(ControlName::Gain), Interface::ProcAmp);
}

#[test]
fn each_source_is_opened_as_it_is_configured() {
    let synthetic = CameraConfig { width: 10, height: 2000, fps: 0, ..CameraConfig::default() };
    match open(&synthetic) {
        Opening::Synthetic { seat, width, height, fps } => {
            assert_eq!((seat, width, height, fps), (0, 64, 2000, 1));
        }
        other => panic!("opened {other:?}"),
    }
    assert!(open_controls(&synthetic).is_none());

    let webcam = CameraConfig {
        source: SourceConfig::Webcam { device_path: "path".to_owned(), device_name: "name".to_owned() },
        ..CameraConfig::default()
    };
    assert_eq!(open_controls(&webcam), Some(&"path".to_owned()));
    assert!(matches!(open(&webcam), Opening::Webcam { width: 1280, height: 720, fps: 30, .. }));

    let still = CameraConfig {
        source: SourceConfig::Still { path: "a.png".to_owned() },
        ..CameraConfig::default()
    };
    assert!(open_controls(&still).is_none());
    assert!(matches!(open(&still), Opening::Still { fps: 30, .. }));
}

#[test]
fn a_still_image_is_replayed_at_its_rate() {
    let config = CameraConfig { fps: 0, ..CameraConfig::default() };
    let start = Instant { nanos: 1_000 };
    let image = Decoded { width: 1, height: 1, rgb: vec![7, 8, 9] };
    let mut source = StillSource::replay(&config, image, start);
    assert_eq!(source.pace.fps, 1);
    assert_eq!(source.negotiated().text(), "1x1 @ 1 fps (STILL)");

    let period = Duration::from_nanos(500);
    let frame = source.next_frame(period, start);
    assert_eq!(frame.rgb, vec![7, 8, 9]);
    assert_eq!(source.pace.wait(start), period);

    // A source that fell behind does not catch up in a rush.
    let late = Instant { nanos: 9_000 };
    let _ = source.next_frame(period, late);
    assert_eq!(source.pace.next_frame_at, late);
    assert_eq!(source.pace.wait(Instant { nanos: 9_500 }), Duration::zero());
}

#[test]
fn a_generated_scene_has_a_smallest_size() {
    let config = CameraConfig { width: 10, height: 540, fps: 0, ..CameraConfig::default() };
    let source = SyntheticSource::new(&config, 2, Instant { nanos: 7 });
    assert_eq!(source.negotiated().text(), "64x540 @ 1 fps (SYNTHETIC)");
    assert_eq!(source.seat, 2);
    assert_eq!(source.pace.next_frame_at, Instant { nanos: 7 });
}

#[test]
fn a_source_that_keeps_up_does_not_drift() {
    let config = CameraConfig { fps: 100, ..CameraConfig::default() };
    let mut source = SyntheticSource::new(&config, 0, Instant { nanos: 0 });
    for frame in 1..=5u64 {
        source.pace.advance(Duration::from_nanos(100), Instant { nanos: frame * 100 - 30 });
        assert_eq!(source.pace.next_frame_at, Instant { nanos: frame * 100 });
    }
}
