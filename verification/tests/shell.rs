//! The window around the panels.

use optra::app::panels::Panel;
use optra::app::{
    banner_headline, banner_stays, failure_text, keeps_body, launch, select_panel, sync_fusion, track_window_geometry,
    BannerAction, FusionSync, OutputSync, Saving, SeenWindow,
};
use optra::config::camera::CameraConfig;
use optra::config::{
    CaptureConfig, Config, FusionConfig, InferenceConfig, OutputConfig, UiConfig, VrConfig, WindowConfig,
    WindowPosition,
};
use optra::fusion::bones::{Bone, BoneLength, Skeleton};
use optra::models::Joint;
use optra::scalar::Scalar;
use optra::time::Instant;

fn scalar(number: f64) -> Scalar {
    Scalar::from_bits(number.to_bits())
}

fn at(millis: u64) -> Instant {
    Instant { nanos: millis * 1_000_000 }
}

fn output() -> OutputConfig {
    let mut output = OutputConfig::fresh("a".to_owned(), "b".to_owned());
    output.enabled = true;
    output
}

fn config(enabled: bool) -> Config {
    Config {
        window: WindowConfig::default(),
        ui: UiConfig::default(),
        capture: CaptureConfig::default(),
        inference: InferenceConfig::default(),
        vr: VrConfig::default(),
        fusion: FusionConfig::default(),
        output: output(),
        room: None,
        cameras: vec![CameraConfig { enabled, ..CameraConfig::default() }],
    }
}

#[test]
fn cameras_start_with_the_application() {
    let started = launch(&config(true));
    assert!(started.capture && started.pipeline);
    assert!(!launch(&config(false)).capture);
    let mut quiet = config(true);
    quiet.inference.enabled = false;
    assert!(launch(&quiet).capture && !launch(&quiet).pipeline);
    quiet.capture.auto_start = false;
    assert!(!launch(&quiet).capture);
}

#[test]
fn changes_are_saved_once_they_have_settled() {
    let mut saving = Saving::new();
    assert!(!saving.save_if_due(at(0), true), "nothing changed");
    saving.mark_dirty(at(1000));
    saving.mark_dirty(at(2500));
    assert!(!saving.save_if_due(at(3000), false), "the last change was a moment ago");
    assert!(!saving.save_if_due(at(4499), false));
    assert!(saving.save_if_due(at(4500), false));
    assert!(!saving.save_if_due(at(9000), false));
    saving.mark_dirty(at(9000));
    assert!(saving.save_if_due(at(9001), true));
}

#[test]
fn a_maximized_window_keeps_its_restored_size() {
    let mut window = WindowConfig::default();
    let seen = SeenWindow {
        maximized: false,
        width: scalar(900.0),
        height: scalar(600.0),
        pos: WindowPosition { x: scalar(5.0), y: scalar(6.0) },
        same_size: false,
        same_pos: false,
    };
    assert!(!track_window_geometry(&mut window, None));
    assert!(track_window_geometry(&mut window, Some(seen)));
    assert_eq!(window.width, scalar(900.0));
    assert!(window.pos.is_some());
    let still = SeenWindow { same_size: true, same_pos: true, ..seen };
    assert!(!track_window_geometry(&mut window, Some(still)));
    let full = SeenWindow { maximized: true, width: scalar(2000.0), ..seen };
    assert!(track_window_geometry(&mut window, Some(full)));
    assert_eq!(window.width, scalar(900.0));
    assert!(window.maximized);
    assert!(!track_window_geometry(&mut window, Some(full)));
}

#[test]
fn fusion_runs_when_everything_it_needs_is_there() {
    assert!(matches!(sync_fusion(true, true, true, false), FusionSync::Start));
    assert!(matches!(sync_fusion(true, true, true, true), FusionSync::Keep));
    assert!(matches!(
        sync_fusion(true, true, false, true),
        FusionSync::Stop { problem: Some("no room profile is loaded") }
    ));
    assert!(matches!(sync_fusion(false, true, false, true), FusionSync::Stop { problem: None }));
    assert!(matches!(sync_fusion(true, false, true, true), FusionSync::Stop { problem: None }));
}

#[test]
fn a_changed_setting_stops_the_output_until_it_settles() {
    let mut sync = OutputSync::new();
    let step = sync.sync(&output(), true, false, at(0));
    assert!(step.start && !step.stop);
    sync.started(Ok(output()));
    let step = sync.sync(&output(), true, true, at(10));
    assert!(!step.start && !step.stop);

    let changed = OutputConfig { rate_hz: 45, ..output() };
    let step = sync.sync(&changed, true, true, at(1000));
    assert!(step.stop && !step.start);
    let step = sync.sync(&changed, true, false, at(1499));
    assert!(!step.stop && !step.start);
    let step = sync.sync(&changed, true, false, at(1500));
    assert!(step.start);
    sync.started(Err("in use".to_owned()));
    assert_eq!(sync.problem.as_deref(), Some("in use"));
    assert!(sync.sync(&changed, true, false, at(1501)).start, "it is tried again");

    sync.started(Ok(changed));
    assert!(sync.problem.is_none());
    let off = OutputConfig { enabled: false, ..output() };
    let step = sync.sync(&off, true, true, at(2000));
    assert!(step.stop && !step.start);
    assert!(sync.sending_with.is_none());
}

#[test]
fn a_dragged_slider_restarts_the_output_once_it_is_let_go() {
    let mut sync = OutputSync::new();
    assert!(sync.sync(&output(), true, false, at(0)).start);
    sync.started(Ok(output()));
    assert!(sync.sync(&OutputConfig { rate_hz: 40, ..output() }, true, true, at(1000)).stop);
    for step in 1..=20u64 {
        let dragged = OutputConfig { rate_hz: 40 + step as u32, ..output() };
        assert!(!sync.sync(&dragged, true, false, at(1000 + step * 100)).start, "{step}");
    }
    let last = OutputConfig { rate_hz: 60, ..output() };
    assert!(!sync.sync(&last, true, false, at(3499)).start);
    assert!(sync.sync(&last, true, false, at(3500)).start);
}

#[test]
fn a_measured_body_is_kept() {
    assert!(!keeps_body(None));
    assert!(!keeps_body(Some(&Skeleton::default())));
    let skeleton = Skeleton {
        bones: vec![BoneLength {
            bone: Bone::new(Joint::LeftHip, Joint::LeftKnee),
            length: scalar(0.4),
            samples: 3,
            scatter: scalar(0.01),
            relative: scalar(0.025),
        }],
        measured_at: None,
    };
    assert!(keeps_body(Some(&skeleton)));
}

#[test]
fn the_banner_stays_until_it_is_dealt_with() {
    assert!(banner_stays(true, BannerAction::Nothing, false));
    assert!(!banner_stays(false, BannerAction::Nothing, false));
    assert!(!banner_stays(true, BannerAction::Dismiss, false));
    assert!(banner_stays(true, BannerAction::Recheck, false));
    assert!(!banner_stays(true, BannerAction::Recheck, true));
    assert_eq!(banner_headline(true), "Tracking cannot start yet:");
    assert_eq!(banner_headline(false), "Tracking will run, with this worth a look:");
    assert_eq!(failure_text(&"fusion".to_owned(), &"gone".to_owned()), "fusion: gone");
    let mut ui = UiConfig::default();
    assert!(select_panel(&mut ui, Panel::Log));
    assert!(!select_panel(&mut ui, Panel::Log));
}
