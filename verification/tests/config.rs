//! The configuration.

use optra::config::camera::{CameraConfig, ControlName, LensKind, Rotation, SourceConfig};
use optra::config::{
    CaptureConfig, Config, FusionConfig, InferenceConfig, LogLevel, Offset, OutputConfig, SinkKind, TrackerConfig,
    UiConfig, VrConfig, WindowConfig,
};
use optra::app::panels::Panel;
use optra::fusion::bones::MeasureOptions;
use optra::output::TrackerRole;
use optra::scalar::Scalar;
use optra::time::Duration;

fn scalar(number: f64) -> Scalar {
    Scalar::from_bits(number.to_bits())
}

fn fresh() -> OutputConfig {
    OutputConfig::fresh("127.0.0.1:9000".to_owned(), "127.0.0.1:39570".to_owned())
}

fn with_cameras(ids: &[&str]) -> Config {
    Config {
        window: WindowConfig::default(),
        ui: UiConfig::default(),
        capture: CaptureConfig::default(),
        inference: InferenceConfig::default(),
        vr: VrConfig::default(),
        fusion: FusionConfig::default(),
        output: fresh(),
        room: None,
        cameras: ids
            .iter()
            .map(|id| CameraConfig { id: (*id).to_owned(), ..CameraConfig::default() })
            .collect(),
    }
}

#[test]
fn the_first_free_number_makes_the_id() {
    assert_eq!(with_cameras(&[]).fresh_camera_id(), "cam0");
    assert_eq!(with_cameras(&["cam1", "cam0", "cam3"]).fresh_camera_id(), "cam2");
    assert_eq!(with_cameras(&["left", "cam1"]).fresh_camera_id(), "cam0");
}

#[test]
fn a_fresh_configuration_is_the_documented_one() {
    let config = with_cameras(&[]);
    assert_eq!(config.window.width, scalar(1280.0));
    assert_eq!(config.window.height, scalar(800.0));
    assert_eq!(config.ui.panel, Panel::Cameras);
    assert_eq!(config.ui.log_level, LogLevel::Info);
    assert!(config.capture.auto_start);
    assert_eq!(config.inference.detect_every, 5);
    assert_eq!(config.vr.poll_hz, 120);
    assert_eq!(config.fusion.rate_hz, 60);
    assert_eq!(config.fusion.min_confidence, scalar(f64::from(0.3f32)));
    assert_eq!(config.output.rate_hz, 90);
    assert_eq!(config.output.max_sigma, scalar(f64::from(0.08f32)));
}

#[test]
fn a_setting_reads_back_and_can_be_cleared() {
    let mut camera = CameraConfig::default();
    camera.set_control(ControlName::Gain, false, 12);
    camera.set_control(ControlName::Exposure, true, -6);
    camera.set_control(ControlName::Gain, false, 20);
    assert_eq!(camera.controls.len(), 2);
    assert_eq!(camera.control(ControlName::Gain).unwrap().value, 20);
    assert!(camera.control(ControlName::Exposure).unwrap().auto);
    assert!(camera.control(ControlName::Zoom).is_none());
    camera.clear_control(ControlName::Gain);
    assert!(camera.control(ControlName::Gain).is_none());
    assert_eq!(camera.control(ControlName::Exposure).unwrap().value, -6);
}

#[test]
fn an_exposure_is_shown_as_a_shutter_time() {
    let shown = |value| ControlName::Exposure.describe_value(value).unwrap();
    assert_eq!(shown(-6), "1/64 s");
    assert_eq!(shown(0), "1 s");
    assert_eq!(shown(3), "8 s");
    assert_eq!(shown(-1), "1/2 s");
    assert_eq!(shown(1 << 32), "inf s");
    assert_eq!(shown(-(1 << 32)), "1/inf s");
    assert_eq!(shown(i64::MIN), "1/inf s");
    assert_eq!(shown(2000), "inf s");
    assert_eq!(shown(-2000), "1/inf s");
    assert!(ControlName::Gain.describe_value(-6).is_none());
}

#[test]
fn an_exposure_is_short_enough_for_the_frame_rate() {
    assert_eq!(ControlName::exposure_for_fps(30), -5);
    assert_eq!(ControlName::exposure_for_fps(60), -6);
    assert_eq!(ControlName::exposure_for_fps(64), -6);
    assert_eq!(ControlName::exposure_for_fps(65), -7);
    assert_eq!(ControlName::exposure_for_fps(1), 0);
    assert_eq!(ControlName::exposure_for_fps(0), 0);
}

#[test]
fn a_level_shows_what_is_as_grave() {
    assert!(LogLevel::Info.includes(LogLevel::Error));
    assert!(LogLevel::Info.includes(LogLevel::Info));
    assert!(!LogLevel::Info.includes(LogLevel::Debug));
    let labels: Vec<&str> = LogLevel::ALL.iter().map(|level| level.label()).collect();
    assert_eq!(labels, vec!["Error", "Warn", "Info", "Debug", "Trace"]);
}

#[test]
fn every_role_has_a_tracker_once_completed() {
    let mut config = fresh();
    let shifted = Offset { x: scalar(0.0), y: scalar(0.1), z: scalar(0.0) };
    config.trackers =
        vec![TrackerConfig { role: TrackerRole::Chest, enabled: true, offset: shifted }];
    config.complete();
    assert_eq!(config.trackers.len(), 8);
    assert_eq!(config.trackers[0].role, TrackerRole::Chest);
    assert_eq!(config.trackers[0].offset, shifted);
    assert!(config.trackers[1..].iter().all(|tracker| !tracker.enabled));
    assert_eq!(config.enabled_roles(), vec![TrackerRole::Chest]);
    assert_eq!(config.offsets().len(), 1);
    let once = config.trackers.len();
    config.complete();
    assert_eq!(config.trackers.len(), once);
}

#[test]
fn the_essential_trackers_start_enabled() {
    let config = fresh();
    assert!(!config.enabled);
    for tracker in &config.trackers {
        assert_eq!(tracker.enabled, tracker.role.is_essential());
    }
    assert!(config.offsets().is_empty());
}

#[test]
fn each_sink_has_its_own_address() {
    let mut config = fresh();
    assert_eq!(config.target(), "127.0.0.1:9000");
    config.sink = SinkKind::Vmt;
    *config.target_mut() = "10.0.0.1:1".to_owned();
    assert_eq!(config.target(), "10.0.0.1:1");
    assert_eq!(config.vrchat_target, "127.0.0.1:9000");
}

#[test]
fn settings_are_compared_as_numbers() {
    let config = fresh();
    let mut other = fresh();
    assert!(config.same(&other));
    other.trackers[0].offset.x = scalar(-0.0);
    assert!(config.same(&other));
    other.max_sigma = scalar(f64::NAN);
    assert!(!other.same(&other));
}

#[test]
fn the_options_of_each_step_follow_the_configuration() {
    let config = FusionConfig { prediction_ms: 35, ..FusionConfig::default() };
    assert_eq!(config.fuse_options().min_confidence, config.min_confidence);
    assert_eq!(config.fuse_options().inlier_threshold, scalar(0.01));
    assert_eq!(config.filter_options().horizon, Duration::from_millis(35));
    assert_eq!(config.filter_options().min_cutoff, scalar(f64::from(1.2f32)));
    let measure = MeasureOptions { min_samples: 3, ..MeasureOptions::default() };
    assert_eq!(config.fit_options(measure).measure.min_samples, 3);
    assert_eq!(config.fit_options(measure).passes, 12);
}

#[test]
fn everything_a_panel_lists_has_a_label() {
    assert_eq!(LensKind::Fisheye.label(), "Fisheye");
    assert_eq!(Rotation::Cw270.label(), "270\u{b0}");
    assert!(Rotation::Cw90.transposes());
    assert!(!Rotation::Cw180.transposes());
    assert!(SourceConfig::default().is_synthetic());
    assert_eq!(SinkKind::Vmt.label(), "SteamVR via VMT");
    assert_eq!(Panel::ALL.len(), 6);
    for name in ControlName::ALL {
        assert!(!name.label().is_empty());
    }
}
