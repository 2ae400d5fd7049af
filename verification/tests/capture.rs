//! The mailbox of a camera, and the life of its thread.

use optra::capture::source::{ControlInfo, NegotiatedFormat};
use optra::capture::{thread_name, to_start, CameraChannel, CameraRun, CameraState};
use optra::config::camera::{CameraConfig, ControlName};
use optra::time::{Duration, Instant};

fn at(millis: u64) -> Instant {
    Instant { nanos: millis * 1_000_000 }
}

#[test]
fn a_frame_is_read_once_and_an_unread_one_is_counted() {
    let mut channel: CameraChannel<u32> = CameraChannel::new();
    assert!(channel.peek().is_none());
    assert!(channel.take().is_none());

    assert_eq!(channel.publish(1, at(10)), None);
    assert_eq!(channel.peek(), Some(&1));
    assert_eq!(channel.take(), Some(&1));
    assert_eq!(channel.take(), None);
    assert_eq!(channel.peek(), Some(&1), "looking is always possible");

    assert_eq!(channel.publish(2, at(43)), Some(Duration::from_millis(33)));
    assert_eq!(channel.publish(3, at(43)), None, "no time passed");
    assert_eq!(channel.take(), Some(&3));
    assert_eq!(channel.stats.captured, 3);
    assert_eq!(channel.stats.overwritten, 1);
}

#[test]
fn a_failure_is_remembered() {
    let mut channel: CameraChannel<u32> = CameraChannel::new();
    channel.set_state(CameraState::Running);
    channel.set_negotiated(NegotiatedFormat {
        width: 1280,
        height: 720,
        fps: 30,
        pixel_format: "MJPEG".to_owned(),
    });
    assert_eq!(channel.stats.state.label(), "running");
    channel.fail("unplugged".to_owned());
    assert_eq!(channel.stats.state, CameraState::Failed);
    assert_eq!(channel.stats.errors, 1);
    assert_eq!(channel.stats.last_error.as_deref(), Some("unplugged"));
    assert!(channel.stats.negotiated.is_some());
}

#[test]
fn a_property_is_listed_once() {
    let info = |name, value| ControlInfo {
        name,
        min: 0,
        max: 100,
        step: 1,
        default: 50,
        value,
        auto: false,
        auto_supported: true,
        manual_supported: true,
    };
    let mut channel: CameraChannel<u32> = CameraChannel::new();
    channel.update_control(info(ControlName::Gain, 1));
    channel.update_control(info(ControlName::Zoom, 2));
    channel.update_control(info(ControlName::Gain, 3));
    assert_eq!(channel.stats.controls.len(), 2);
    assert_eq!(channel.stats.controls[0].value, 3);
}

#[test]
fn a_camera_that_is_gone_is_tried_ever_less_often() {
    let mut run = CameraRun::new(at(0));
    let waits: Vec<u64> = (0..6).map(|_| run.open_failed().nanos / 1_000_000).collect();
    assert_eq!(waits, vec![500, 1000, 2000, 4000, 5000, 5000]);
    run.opened(at(0));
    assert_eq!(run.open_failed(), Duration::from_millis(500));
}

#[test]
fn frames_are_numbered_and_properties_read_back_now_and_then() {
    let mut run = CameraRun::new(at(0));
    assert_eq!(run.next_seq(), 1);
    assert_eq!(run.next_seq(), 2);
    assert!(!run.refresh_due(at(1999)));
    assert!(run.refresh_due(at(2000)));
    assert!(!run.refresh_due(at(2001)));
    run.opened(at(5000));
    assert_eq!(run.next_seq(), 3, "a camera that comes back does not repeat its numbers");
}

#[test]
fn only_enabled_cameras_get_a_thread() {
    let camera = |id: &str, enabled| CameraConfig {
        id: id.to_owned(),
        enabled,
        ..CameraConfig::default()
    };
    let configs = vec![camera("a", true), camera("b", false), camera("c", true)];
    assert_eq!(to_start(&configs), vec![0, 2]);
    assert_eq!(thread_name(&configs[2]), "capture:c");
}
