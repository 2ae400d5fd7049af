//! Frames and files turned into pixels.

use std::io::Cursor;

use image::{ImageFormat, RgbImage};

use optra::capture::decode::{decode_frame, has_whole_palettes, is_named_png, Grabbed};
use optra::capture::formats::FrameFormat;
use optra::capture::source::{rotate, StillSource};
use optra::config::camera::{CameraConfig, Rotation};
use optra::time::{Duration, Instant};

fn grabbed(format: FrameFormat, width: u32, height: u32, bytes: &[u8]) -> Grabbed {
    Grabbed { width, height, format, bytes: bytes.to_vec() }
}

#[test]
fn plain_formats_are_copied() {
    let rgb = grabbed(FrameFormat::RawRgb, 2, 1, &[1, 2, 3, 4, 5, 6]);
    assert_eq!(decode_frame(&rgb).unwrap(), vec![1, 2, 3, 4, 5, 6]);

    let grey = grabbed(FrameFormat::Gray, 2, 1, &[9, 200]);
    assert_eq!(decode_frame(&grey).unwrap(), vec![9, 9, 9, 200, 200, 200]);

    let bgr = grabbed(FrameFormat::RawBgr, 2, 2, &[1, 2, 3, 4, 5, 6, 7, 8, 9, 10, 11, 12]);
    assert_eq!(decode_frame(&bgr).unwrap(), vec![3, 2, 1, 6, 5, 4, 9, 8, 7, 12, 11, 10]);
}

#[test]
fn two_pixels_share_their_chroma() {
    let yuyv = grabbed(FrameFormat::Yuyv, 2, 1, &[81, 90, 16, 240]);
    assert_eq!(decode_frame(&yuyv).unwrap(), vec![255, 0, 0, 179, 0, 0]);
}

#[test]
fn four_pixels_share_their_chroma() {
    let nv12 = grabbed(FrameFormat::Nv12, 2, 2, &[81, 81, 16, 235, 90, 240]);
    assert_eq!(
        decode_frame(&nv12).unwrap(),
        vec![255, 0, 0, 255, 0, 0, 179, 0, 0, 255, 179, 178]
    );
    // Two blocks side by side, and two rows of them.
    let mut bytes = vec![128u8; 16];
    bytes.extend([128, 128, 90, 240, 128, 128, 128, 128]);
    let wide = grabbed(FrameFormat::Nv12, 4, 4, &bytes);
    let rgb = decode_frame(&wide).unwrap();
    assert_eq!(rgb[0..3], [130, 130, 130]);
    assert_ne!(rgb[6..9], rgb[0..3]);
    assert_eq!(rgb[6..9], rgb[9..12]);
    assert_eq!(rgb[6..9], rgb[18..21]);
    assert_eq!(rgb[30..33], [130, 130, 130]);
}

#[test]
fn a_frame_of_the_wrong_size_is_refused() {
    for frame in [
        grabbed(FrameFormat::Gray, 2, 2, &[1, 2, 3]),
        grabbed(FrameFormat::Yuyv, 2, 1, &[1, 2, 3]),
        grabbed(FrameFormat::Yuyv, 4, 1, &[1, 2, 3, 4]),
        grabbed(FrameFormat::Nv12, 3, 2, &[0; 9]),
        grabbed(FrameFormat::Nv12, 2, 2, &[0; 5]),
        grabbed(FrameFormat::RawBgr, 1, 2, &[0; 6]),
    ] {
        let error = decode_frame(&frame).unwrap_err();
        assert!(error.starts_with("failed to decode a frame: "), "{error}");
        assert!(error.len() > "failed to decode a frame: ".len());
    }
}

#[test]
fn a_frame_the_decoder_would_unwind_on_is_told_apart() {
    assert!(!grabbed(FrameFormat::Mjpeg, 2, 2, &[0; 12]).is_decodable());
    assert!(!grabbed(FrameFormat::RawRgb, 2, 2, &[0; 11]).is_decodable());
    assert!(grabbed(FrameFormat::RawRgb, 2, 2, &[0; 12]).is_decodable());
    assert!(!grabbed(FrameFormat::Nv12, 0, 2, &[]).is_decodable());
    assert!(!grabbed(FrameFormat::RawBgr, 60_000, 60_000, &[]).is_decodable());
    assert!(grabbed(FrameFormat::Gray, 60_000, 60_000, &[]).is_decodable());

    // Frames that are refused, not unwound on.
    for frame in [grabbed(FrameFormat::Nv12, 0, 2, &[1]), grabbed(FrameFormat::Nv12, 0, 1, &[])] {
        assert!(frame.is_decodable());
        assert!(decode_frame(&frame).is_err());
    }
    let empty = grabbed(FrameFormat::Nv12, 2, 0, &[]);
    assert!(empty.is_decodable());
    assert_eq!(decode_frame(&empty).unwrap(), Vec::<u8>::new());
}

fn png(width: u32, height: u32, rgb: Vec<u8>) -> Vec<u8> {
    let mut bytes = Cursor::new(Vec::new());
    RgbImage::from_raw(width, height, rgb)
        .unwrap()
        .write_to(&mut bytes, ImageFormat::Png)
        .unwrap();
    bytes.into_inner()
}

#[test]
fn a_still_image_comes_out_as_it_was_drawn() {
    let rgb: Vec<u8> = (0..18).collect();
    let file = png(3, 2, rgb.clone());
    let path = "scene.PNG".to_owned();
    let config = CameraConfig { fps: 25, ..CameraConfig::default() };
    let mut source = StillSource::open(&config, &path, &file, Instant { nanos: 5 })
        .expect("a PNG file")
        .expect("a sound image");
    assert_eq!(source.negotiated().text(), "3x2 @ 25 fps (STILL)");
    let frame = source.next_frame(Duration::from_millis(40), Instant { nanos: 5 });
    assert_eq!(frame.rgb, rgb);

    // What comes out is big enough for any turn.
    let turned = rotate(frame, Rotation::Cw90);
    assert_eq!((turned.width, turned.height), (2, 3));
    assert_eq!(turned.rgb[0..3], [9, 10, 11]);
}

#[test]
fn a_file_that_is_no_image_is_named() {
    let path = "scene.png".to_owned();
    let bytes = b"not an image".to_vec();
    let opened = StillSource::open(&CameraConfig::default(), &path, &bytes, Instant { nanos: 0 });
    let error = opened.expect("a PNG file").unwrap_err();
    assert!(error.starts_with("failed to read scene.png: "), "{error}");
    assert!(error.len() > "failed to read scene.png: ".len());
}

#[test]
fn only_sound_png_files_are_decoded_here() {
    let config = CameraConfig::default();
    let now = Instant { nanos: 0 };
    let file = png(1, 1, vec![1, 2, 3]);
    for (path, named) in [
        ("scene.png", true),
        ("a/b.Png", true),
        ("scene.txt", false),
        ("scene", false),
        ("scene.jpg", false),
        ("a/.png", false),
        (".png", false),
        ("png", false),
    ] {
        let path = path.to_owned();
        assert_eq!(is_named_png(&path), named, "{path}");
        assert_eq!(StillSource::open(&config, &path, &file, now).is_some(), named, "{path}");
    }

    let palette = |length: u8| {
        let mut bytes = file.clone();
        bytes.extend([0, 0, 0, length]);
        bytes.extend(b"PLTE");
        bytes
    };
    assert!(has_whole_palettes(&palette(6)));
    assert!(!has_whole_palettes(&palette(5)));
    assert!(has_whole_palettes(&b"PLTE".to_vec()));
    assert!(has_whole_palettes(&Vec::new()));
    let path = "scene.png".to_owned();
    assert!(StillSource::open(&config, &path, &palette(5), now).is_none());
    assert!(StillSource::open(&config, &path, &palette(6), now).is_some());
}
