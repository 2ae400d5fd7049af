//! What the panels remember and decide.

use optra::app::panels::calibration::{
    blockers, busiest, device_text, duration, floor_implausible, latency_cell, link_text, rig_order, streaming, summary,
    turned_enough, walk_stride, Advice, CalibrationPanel, DeleteClick, FloorPrecision, Headset, LatencyCell, LinkState,
    SolverReply, Stage,
};
use optra::app::panels::cameras::{
    add_device, add_synthetic, adjustable, adjustment, already_configured, apply, columns, ends_row, fitting_exposure,
    remove_camera, source_summary, starved, tally_text, Action, Adjustment, CamerasPanel, DetectedDevice,
};
use optra::app::panels::guide::GuidePanel;
use optra::app::panels::log::{level_label, LogPanel};
use optra::app::panels::models::{
    offered_as, row, slug, LocalForm, ModelEntry, ModelKind, ModelsPanel, Progress, Stage as Install,
};
use optra::app::panels::notice::Level;
use optra::app::panels::output::{
    arriving, checklist as output_checklist, lead_grade, live_trackers, missing_essentials, report_for, sent_as,
    uncertainty, wanted_notice, Arrival, Grade, TrackerReport,
};
use optra::app::panels::tracking::{
    camera_row, checklist, drawn_bones, floor_grade, joint_rows, leg_disagrees, quality, CameraRow, Quality,
    TrackingPanel,
};
use optra::app::panels::Panel;
use optra::calib::latency::Estimate;
use optra::calib::recorder::{Coverage, Rig};
use optra::calib::solve::CameraCalibration;
use optra::capture::source::ControlInfo;
use optra::capture::{CameraCommand, CameraState};
use optra::config::camera::{CameraConfig, ControlName, SourceConfig};
use optra::config::{
    CaptureConfig, Config, FusionConfig, InferenceConfig, LogLevel, OutputConfig, UiConfig, VrConfig, WindowConfig,
};
use optra::fusion::bones::Bone;
use optra::fusion::filter::{Filtered, FilteredJoint};
use optra::fusion::fit::{Fitted, FittedJoint};
use optra::fusion::fuse::{FusedJoint, Pose3d};
use optra::fusion::stage::{CameraContribution, Size};
use optra::geometry::Point3;
use optra::models::Joint;
use optra::output::TrackerRole;
use optra::scalar::Scalar;
use optra::time::{Duration, Instant};
use optra::vr::Role;

fn scalar(number: f64) -> Scalar {
    Scalar::from_bits(number.to_bits())
}

fn at(millis: u64) -> Instant {
    Instant { nanos: millis * 1_000_000 }
}

fn name(text: &str) -> String {
    text.to_owned()
}

fn config() -> Config {
    Config {
        window: WindowConfig::default(),
        ui: UiConfig::default(),
        capture: CaptureConfig::default(),
        inference: InferenceConfig::default(),
        vr: VrConfig::default(),
        fusion: FusionConfig::default(),
        output: OutputConfig::fresh(name("a"), name("b")),
        room: None,
        cameras: Vec::new(),
    }
}

fn device(path: &str) -> DetectedDevice {
    DetectedDevice { name: name("Webcam"), path: name(path) }
}

fn gain(value: i64) -> ControlInfo {
    ControlInfo {
        name: ControlName::Gain,
        min: 0,
        max: 100,
        step: 1,
        default: 50,
        value,
        auto: false,
        auto_supported: true,
        manual_supported: true,
    }
}

#[test]
fn a_scan_that_finds_nothing_says_so() {
    let mut panel = CamerasPanel::default();
    panel.scanned(Ok(vec![device("p")]));
    assert!(panel.detect_error.is_none());
    panel.scanned(Ok(Vec::new()));
    assert_eq!(panel.detect_error.as_deref(), Some("No capture devices found."));
    panel.scanned(Ok(vec![device("p")]));
    panel.scanned(Err(name("no driver")));
    assert!(panel.detected.is_empty());
    assert_eq!(panel.detect_error.as_deref(), Some("no driver"));
}

#[test]
fn what_the_user_set_shows_until_it_is_read_back() {
    let mut panel = CamerasPanel::default();
    let camera = name("cam0");
    assert_eq!(panel.displayed(&camera, &gain(7), at(0)), 7);
    panel.set_pending(&camera, ControlName::Gain, 30, at(1000));
    panel.set_pending(&camera, ControlName::Zoom, 2, at(1000));
    panel.set_pending(&camera, ControlName::Gain, 40, at(1100));
    assert_eq!(panel.displayed(&camera, &gain(7), at(1899)), 40);
    assert_eq!(panel.displayed(&camera, &gain(7), at(1900)), 7);
    assert_eq!(panel.displayed(&name("cam1"), &gain(7), at(1100)), 7);
}

#[test]
fn a_preview_is_redrawn_once_for_each_frame() {
    let mut panel = CamerasPanel::default();
    let camera = name("cam0");
    assert!(panel.stale(&camera, 1));
    panel.redrawn(&camera, 1);
    assert!(!panel.stale(&camera, 1));
    assert!(panel.stale(&camera, 2));
    assert!(panel.stale(&name("cam1"), 1));
    panel.needs_restart = true;
    panel.started();
    assert!(!panel.needs_restart);
    assert!(!panel.stale(&camera, 1));
    panel.stopped();
    assert!(panel.stale(&camera, 1));
}

#[test]
fn cameras_are_added_and_removed() {
    let mut config = config();
    add_synthetic(&mut config);
    add_device(&mut config, &device("path"));
    add_synthetic(&mut config);
    let labels: Vec<&str> = config.cameras.iter().map(|camera| camera.label.as_str()).collect();
    assert_eq!(labels, vec!["Synthetic 1", "Webcam", "Synthetic 2"]);
    let ids: Vec<&str> = config.cameras.iter().map(|camera| camera.id.as_str()).collect();
    assert_eq!(ids, vec!["cam0", "cam1", "cam2"]);
    assert_eq!(config.cameras[0].width, 960);
    assert_eq!(config.cameras[1].width, 1280);
    assert!(already_configured(&config, &name("path")));
    assert!(!already_configured(&config, &name("Webcam")));
    config.cameras[0].enabled = false;
    assert_eq!(tally_text(&config), "2 enabled / 3 configured");
    assert_eq!(remove_camera(&mut config, 1).id, "cam1");
    assert_eq!(config.fresh_camera_id(), "cam1");
    assert_eq!(columns(1), 1);
    assert_eq!(columns(3), 2);
    assert!(ends_row(1, 2));
    assert!(!ends_row(2, 2));
}

#[test]
fn a_slow_camera_is_helped_with_its_exposure() {
    assert!(starved(CameraState::Running, scalar(15.0), scalar(24.0)));
    assert!(!starved(CameraState::Running, scalar(24.0), scalar(24.0)));
    assert!(!starved(CameraState::Running, scalar(0.0), scalar(24.0)));
    assert!(!starved(CameraState::Failed, scalar(15.0), scalar(24.0)));
    let exposure = ControlInfo { min: -4, max: 0, ..gain(0) };
    assert_eq!(fitting_exposure(30, &exposure), -4);
    assert_eq!(fitting_exposure(30, &ControlInfo { min: -13, max: -7, ..gain(0) }), -7);
    assert_eq!(fitting_exposure(30, &ControlInfo { min: -13, max: 0, ..gain(0) }), -5);
    assert!(adjustable(&gain(0)));
    assert!(!adjustable(&ControlInfo { auto: true, ..gain(0) }));
    assert!(!adjustable(&ControlInfo { manual_supported: false, ..gain(0) }));
}

#[test]
fn each_action_sets_a_property_in_its_own_way() {
    let info = ControlInfo { min: -13, max: 0, default: -6, ..gain(-7) };
    let set = |value, auto, pending| Adjustment { value, auto, pending };
    assert_eq!(adjustment(Action::Auto(true), &info, -9, 30), set(-9, true, false));
    assert_eq!(adjustment(Action::Slide(-4), &info, -9, 30), set(-4, false, true));
    assert_eq!(adjustment(Action::FitFrameRate, &info, -9, 30), set(-5, false, true));
    assert_eq!(adjustment(Action::Default, &info, -9, 30), set(-6, true, true));
    let manual = ControlInfo { auto_supported: false, ..info };
    assert_eq!(adjustment(Action::Default, &manual, -9, 30), set(-6, false, true));
}

#[test]
fn a_removed_camera_takes_its_preview_along() {
    let mut panel = CamerasPanel::default();
    panel.redrawn(&name("cam0"), 4);
    panel.redrawn(&name("cam1"), 5);
    panel.removed(&name("cam0"));
    assert!(panel.stale(&name("cam0"), 4));
    assert!(!panel.stale(&name("cam1"), 5));
    assert!(panel.needs_restart);
    panel.started();
    panel.changed();
    assert!(panel.needs_restart);
}

#[test]
fn a_moved_slider_is_kept_and_sent() {
    let mut config = config();
    add_synthetic(&mut config);
    let command = apply(&mut config, 0, ControlName::Gain, 33, false);
    assert_eq!(
        command,
        CameraCommand::SetControl { name: ControlName::Gain, value: 33, auto: false }
    );
    assert_eq!(config.cameras[0].control(ControlName::Gain).unwrap().value, 33);
}

#[test]
fn a_source_is_described_in_one_line() {
    assert_eq!(
        source_summary(&SourceConfig::Webcam { device_path: name("p"), device_name: name("d") }),
        "d \u{2014} p"
    );
    assert_eq!(
        source_summary(&SourceConfig::Synthetic { seat: 2 }),
        "synthetic scene, ceiling corner 3"
    );
    assert_eq!(source_summary(&SourceConfig::Still { path: name("a.png") }), "still image, a.png");
}

#[test]
fn the_wizard_goes_from_a_walk_to_a_saved_room() {
    let mut panel = CalibrationPanel::default();
    let mut room = None;
    assert!(!panel.start_recording(false));
    assert_eq!(panel.stage, Stage::Idle);
    assert!(panel.start_recording(true));
    panel.finish_recording(true);
    assert_eq!(panel.stage, Stage::Solving);
    panel.poll_solver(SolverReply::Pending);
    assert_eq!(panel.stage, Stage::Solving);
    panel.poll_solver(SolverReply::Solved);
    assert_eq!(panel.stage, Stage::Reviewing);
    assert!(panel.save_name().is_none(), "no name yet");
    panel.profile = name("  den ");
    assert_eq!(panel.save_name().as_deref(), Some("den"));
    panel.saved(Err(name("disk full")), &mut room);
    assert_eq!(panel.message.as_deref(), Some("could not save the profile: disk full"));
    assert_eq!(panel.stage, Stage::Reviewing);
    panel.saved(Ok(name("den")), &mut room);
    assert_eq!(room.as_deref(), Some("den"));
    assert_eq!(panel.stage, Stage::Idle);
    assert!(panel.save_name().is_none());
}

#[test]
fn a_solve_that_fails_goes_back_to_the_start() {
    let mut panel = CalibrationPanel::default();
    panel.finish_recording(true);
    panel.poll_solver(SolverReply::Failed(name("too few")));
    assert_eq!(panel.message.as_deref(), Some("too few"));
    assert_eq!(panel.stage, Stage::Idle);
    panel.finish_recording(true);
    panel.poll_solver(SolverReply::Died);
    assert_eq!(panel.message.as_deref(), Some("the solver thread died"));
    panel.finish_recording(false);
    assert_eq!(panel.stage, Stage::Idle);
    panel.stage = Stage::Reviewing;
    panel.discard();
    assert_eq!(panel.stage, Stage::Idle);
}

#[test]
fn a_profile_is_deleted_by_the_second_click() {
    let mut panel = CalibrationPanel::default();
    let mut room = Some(name("den"));
    assert_eq!(panel.click_delete(&name("den")), DeleteClick::Arm);
    assert!(panel.armed(&name("den")));
    assert_eq!(panel.click_delete(&name("attic")), DeleteClick::Arm);
    assert_eq!(panel.click_delete(&name("den")), DeleteClick::Arm);
    assert_eq!(panel.click_delete(&name("den")), DeleteClick::Delete);
    assert!(!panel.armed(&name("den")));
    assert!(!panel.deleted(&name("den"), Err(name("locked")), &mut room));
    assert_eq!(panel.message.as_deref(), Some("could not delete den: locked"));
    assert!(!panel.deleted(&name("attic"), Ok(()), &mut room));
    assert!(panel.deleted(&name("den"), Ok(()), &mut room));
    assert!(room.is_none());

    let _ = panel.click_delete(&name("attic"));
    panel.loaded(&name("attic"), Err(name("gone")), &mut room);
    assert_eq!(panel.message.as_deref(), Some("could not load attic: gone"));
    assert!(!panel.armed(&name("attic")));
    panel.loaded(&name("attic"), Ok(()), &mut room);
    assert_eq!(room.as_deref(), Some("attic"));
}

#[test]
fn a_click_anywhere_else_disarms_the_delete() {
    let den = name("den");
    let mut room = None;
    let armed = || {
        let mut panel = CalibrationPanel::default();
        assert_eq!(panel.click_delete(&name("den")), DeleteClick::Arm);
        panel
    };

    let mut panel = armed();
    assert!(panel.start_recording(true));
    assert!(!panel.armed(&den));
    let mut panel = armed();
    assert!(!panel.start_recording(false));
    assert_eq!(panel.click_delete(&den), DeleteClick::Arm);
    let mut panel = armed();
    panel.finish_recording(true);
    assert_eq!(panel.click_delete(&den), DeleteClick::Arm);
    let mut panel = armed();
    panel.discard();
    assert_eq!(panel.click_delete(&den), DeleteClick::Arm);
    for outcome in [Ok(name("den")), Err(name("full"))] {
        let mut panel = armed();
        panel.stage = Stage::Reviewing;
        panel.saved(outcome, &mut room);
        assert_eq!(panel.click_delete(&den), DeleteClick::Arm);
    }
    let mut panel = armed();
    panel.click_elsewhere();
    assert_eq!(panel.click_delete(&den), DeleteClick::Arm);
}

#[test]
fn what_stands_in_the_way_is_listed() {
    let followed = Headset { connected: true, followed: true };
    assert!(blockers(Some(followed), 2).is_empty());
    assert_eq!(blockers(None, 3), vec!["SteamVR is not connected"]);
    assert_eq!(
        blockers(Some(Headset { followed: false, ..followed }), 3),
        vec!["the headset is not being tracked"]
    );
    let both = blockers(Some(Headset { connected: false, ..followed }), 1);
    assert_eq!(both.len(), 2);
    assert!(both[1].starts_with("1 camera(s) are running keypoints"));

    let camera = |enabled| CameraConfig { enabled, ..CameraConfig::default() };
    let cameras = vec![camera(true), camera(false), camera(true)];
    assert_eq!(streaming(&cameras, &vec![true, true, false]), 1);

    assert_eq!(link_text(LinkState::Searching, true), "SteamVR is installed but not running");
    assert_eq!(link_text(LinkState::Searching, false), "no SteamVR runtime found on this machine");
    assert_eq!(link_text(LinkState::Stopped, true), "stopped");
    assert_eq!(device_text(Some(false)), "lost");
    assert!(floor_implausible(Some(scalar(0.9))));
    assert!(!floor_implausible(Some(scalar(1.1))));
    assert!(!floor_implausible(None));
}

#[test]
fn a_walk_is_shown_in_minutes_and_seconds() {
    assert_eq!(duration(Duration::from_secs(0)), "0:00");
    assert_eq!(duration(Duration::from_millis(65_900)), "1:05");
    assert_eq!(duration(Duration::from_secs(7205)), "120:05");
    assert_eq!(walk_stride(0), 1);
    assert_eq!(walk_stride(1199), 1);
    assert_eq!(walk_stride(1200), 2);
    assert!(turned_enough(scalar(0.15)));
    assert!(!turned_enough(scalar(0.149)));
    let mut coverage = Coverage::new();
    assert_eq!(busiest(&coverage), 1);
    coverage.cells[5] = 9;
    assert_eq!(busiest(&coverage), 9);
    let rigs = vec![
        Rig { role: Role::RightHand, joint: Joint::RightWrist },
        Rig { role: Role::Head, joint: Joint::Head },
        Rig { role: Role::Head, joint: Joint::Nose },
    ];
    assert_eq!(rig_order(&rigs), vec![2, 1, 0]);
}

fn estimate(millis: u64, sharpness: f64) -> Option<Estimate> {
    Some(Estimate {
        latency: Duration::from_millis(millis),
        rms: scalar(0.001),
        rms_uncorrected: scalar(0.002),
        sharpness: scalar(sharpness),
    })
}

fn calibrated(id: &str, error: f64) -> CameraCalibration {
    CameraCalibration {
        id: name(id),
        size: Size { width: 1280, height: 720 },
        rms: scalar(0.001),
        sightings: 100,
        coverage: scalar(0.4),
        spread: scalar(0.2),
        latency: estimate(30, 4.0),
        range: scalar(2.0),
        rms_at_range: scalar(error),
        feet: scalar(0.9),
    }
}

#[test]
fn a_room_is_judged_by_its_worst_camera() {
    let verdict = summary(
        &vec![calibrated("a", 0.01), calibrated("b", 0.02)],
        Some(scalar(0.01)),
        Some(FloorPrecision::Metres(scalar(0.02))),
    );
    assert!(verdict.good);
    assert_eq!(verdict.error, scalar(0.02));
    assert_eq!(verdict.advice, Advice::Fine);
    assert!(verdict.advice.text().is_none());
    assert_eq!(verdict.tight, Some(true));
    assert!(verdict.slow.is_none() && verdict.blind.is_none());
    assert!(verdict.rows.iter().all(|row| row.error && row.feet && row.spread));

    let mut rough = vec![calibrated("a", 0.01), calibrated("b", 0.05), calibrated("c", 0.02)];
    rough[0].latency = estimate(194, 4.0);
    rough[2].latency = estimate(130, 4.0);
    rough[1].feet = scalar(0.3);
    let verdict = summary(&rough, Some(scalar(0.01)), Some(FloorPrecision::OutOfShot));
    assert!(!verdict.good);
    assert_eq!(verdict.advice, Advice::Approximate);
    assert_eq!(verdict.tight, Some(false));
    assert!(verdict.slow.unwrap().starts_with("a, c appears to be"));
    assert!(verdict.blind.unwrap().starts_with("b rarely had your feet"));
    assert!(!verdict.rows[1].error && !verdict.rows[1].feet);

    let verdict = summary(&vec![calibrated("a", 0.2)], None, None);
    assert_eq!(verdict.advice, Advice::Wrong);
    assert_eq!(verdict.tight, None);
}

#[test]
fn a_delay_is_shown_for_what_it_is() {
    assert_eq!(latency_cell(None), LatencyCell::Absent);
    assert_eq!(latency_cell(estimate(30, 4.0)), LatencyCell::Sure(Duration::from_millis(30)));
    assert_eq!(latency_cell(estimate(30, 0.4)), LatencyCell::Unsure(Duration::from_millis(30)));
    assert_eq!(
        latency_cell(estimate(120, 0.4)),
        LatencyCell::Implausible(Duration::from_millis(120))
    );
}

fn entry(id: &str, kind: ModelKind) -> ModelEntry {
    ModelEntry { id: name(id), name: name(&format!("Model {id}")), kind }
}

#[test]
fn a_local_model_needs_a_file_and_a_free_name() {
    let mut form = LocalForm::default();
    form.path = name(" /m.onnx ");
    assert_eq!(form.file(), "/m.onnx");
    assert_eq!(form.chosen_name(&name("m")), "m");
    form.name = name(" Mine ");
    assert_eq!(form.chosen_name(&name("m")), "Mine");
    let catalogue = vec![entry("mine", ModelKind::Pose2d)];

    let refused = |form: &LocalForm, is_file, stem: &str| {
        form.registered(is_file, &name(stem), &catalogue).unwrap_err()
    };
    assert_eq!(refused(&form, false, "m"), "there is no file at /m.onnx");
    assert_eq!(
        refused(&form, true, "m"),
        "the catalogue already has a model called mine; pick another name"
    );
    form.name = name(" -- ");
    assert_eq!(refused(&form, true, "m"), "the name needs at least one letter or digit in it");
    form.name = name("  ");
    assert_eq!(refused(&form, true, "!"), "the name needs at least one letter or digit in it");
    let made = form.registered(true, &name("The Model"), &catalogue).unwrap();
    assert_eq!((made.name.as_str(), made.id.as_str()), ("The Model", "the-model"));
    form.name = name(" Mine 2 ");
    let made = form.registered(true, &name("m"), &catalogue).unwrap();
    assert_eq!((made.name.as_str(), made.id.as_str()), ("Mine 2", "mine-2"));
    assert_eq!(made.path, "/m.onnx");
    assert_eq!(made.layout.as_deref(), Some("halpe26"));
    assert_eq!((made.width, made.height), (192, 256));

    form.choose_kind(ModelKind::Detector);
    let made = form.registered(true, &name("m"), &catalogue).unwrap();
    assert!(made.layout.is_none());
    assert_eq!((made.width, made.height), (640, 640));
}

#[test]
fn a_registered_model_reloads_the_catalogue() {
    let mut panel = ModelsPanel::default();
    assert!(panel.ensure_catalogue());
    assert!(!panel.ensure_catalogue());
    panel.catalogue_read(Ok(vec![
        entry("a", ModelKind::Pose2d),
        entry("b", ModelKind::Detector),
        entry("c", ModelKind::Pose2d),
    ]));
    assert_eq!(panel.of_kind(ModelKind::Pose2d), vec![0, 2]);
    assert_eq!(panel.current_name(&name("b")), "Model b");
    assert_eq!(panel.current_name(&name("z")), "z");
    panel.local.path = name("p");
    panel.register_local(Err(name("no")));
    assert!(panel.loaded);
    assert_eq!(panel.local.path, "p");
    panel.register_local(Ok(name("Mine")));
    assert!(!panel.loaded);
    assert_eq!(panel.local.path, "");
    assert_eq!(panel.local.message.as_ref().unwrap().text, "registered Mine");
    panel.catalogue_read(Err(name("bad file")));
    assert_eq!(panel.load_error.as_deref(), Some("bad file"));
    assert_eq!(panel.catalogue.len(), 3);
    assert_eq!(offered_as(&panel.catalogue[0], true), "Model a");
    assert_eq!(offered_as(&panel.catalogue[0], false), "Model a (not installed)");
}

#[test]
fn an_install_shows_how_far_it_is() {
    assert!(row(true, &None).removable);
    assert!(row(false, &None).installable);
    let busy = row(false, &Some(Install::Downloading));
    assert!(!busy.installable);
    assert!(matches!(busy.progress, Progress::Bar));
    let failed = row(false, &Some(Install::Failed(name("offline"))));
    assert!(failed.installable);
    assert!(matches!(failed.progress, Progress::Failed(text) if text == "failed: offline"));
}

#[test]
fn a_name_makes_an_id() {
    let id = |text: &str| slug(&name(text));
    assert_eq!(id("RTMPose M  (body8)"), "rtmpose-m-body8");
    assert_eq!(id("  --YOLOX/Tiny.v2!"), "yolox-tiny-v2");
    assert_eq!(id("2 AZ az"), "2-az-az");
    assert_eq!(id(" -- \u{e9}"), "");
    assert_eq!(id(""), "");
}

fn report(role: TrackerRole, lost: bool, live: f64, sigma: f64) -> TrackerReport {
    TrackerReport { role, lost, live: scalar(live), sigma: scalar(sigma), inferred: false }
}

#[test]
fn trackers_are_numbered_without_gaps() {
    let mut config = OutputConfig::fresh(name("a"), name("b"));
    for (index, tracker) in config.trackers.iter_mut().enumerate() {
        tracker.enabled = index % 3 == 0;
    }
    assert_eq!(
        sent_as(&config.trackers),
        vec![Some(1), None, None, Some(2), None, None, Some(3), None]
    );
    assert_eq!(
        missing_essentials(&config),
        vec![TrackerRole::LeftFoot, TrackerRole::RightFoot]
    );
}

#[test]
fn trackers_that_are_off_take_no_number() {
    let fresh = OutputConfig::fresh(name("a"), name("b"));
    let mut tracker = fresh.trackers[0];
    tracker.enabled = false;
    let mut trackers = vec![tracker; 300];
    trackers[299].enabled = true;
    let numbers = sent_as(&trackers);
    assert_eq!(numbers[298], None::<u8>);
    assert_eq!(numbers[299], Some(1));
}

#[test]
fn a_tracker_is_graded_by_how_much_of_it_arrives() {
    let reports = vec![
        report(TrackerRole::Hip, false, 99.0, 0.01),
        report(TrackerRole::LeftFoot, false, 60.0, 0.03),
        report(TrackerRole::RightFoot, false, 20.0, 0.09),
        report(TrackerRole::Chest, true, 99.0, 0.01),
    ];
    assert_eq!(live_trackers(&reports), 3);
    let graded = |role| arriving(true, report_for(&reports, role));
    assert_eq!(graded(TrackerRole::Hip), Arrival::Live(Grade::Good));
    assert_eq!(graded(TrackerRole::LeftFoot), Arrival::Live(Grade::Fair));
    assert_eq!(graded(TrackerRole::RightFoot), Arrival::Live(Grade::Bad));
    assert_eq!(graded(TrackerRole::Chest), Arrival::Lost);
    assert_eq!(graded(TrackerRole::LeftElbow), Arrival::Unknown);
    assert_eq!(arriving(false, Some(reports[0])), Arrival::Off);
    assert_eq!(uncertainty(Some(reports[0])), Some(Grade::Good));
    assert_eq!(uncertainty(Some(reports[1])), Some(Grade::Fair));
    assert_eq!(uncertainty(Some(reports[2])), Some(Grade::Bad));
    assert_eq!(uncertainty(Some(reports[3])), None);
    assert_eq!(lead_grade(scalar(251.0)), Grade::Fair);
    assert_eq!(lead_grade(scalar(250.0)), Grade::Good);
}

#[test]
fn a_problem_goes_before_a_warning() {
    let both = wanted_notice(Some(name("dead")), Some(name("odd"))).unwrap();
    assert_eq!(both.level, Level::Problem);
    assert_eq!(both.text, "dead");
    let one = wanted_notice(None, Some(name("odd"))).unwrap();
    assert_eq!(one.level, Level::Warning);
    assert!(wanted_notice(None, None).is_none());

    let config = OutputConfig::fresh(name("a"), name("b"));
    let checks = output_checklist(&config, true);
    assert!(!checks[0].met && checks[1].met && checks[2].met);
    let checks = checklist(true, false, true);
    assert_eq!(checks[1].remedy, "start them in the Cameras panel");
    assert!(checks[0].met && !checks[1].met);
}

#[test]
fn the_view_is_framed_once() {
    let mut panel = TrackingPanel::default();
    assert!(!panel.frame_now(0));
    assert!(panel.frame_now(5));
    assert!(!panel.frame_now(5));
}

fn origin() -> Point3 {
    Point3 { x: scalar(0.0), y: scalar(0.0), z: scalar(0.0) }
}

#[test]
fn joints_and_bones_are_coloured_by_how_well_they_are_known() {
    assert_eq!(quality(scalar(0.01), false), Quality::Seen(Grade::Good));
    assert_eq!(quality(scalar(0.03), false), Quality::Seen(Grade::Fair));
    assert_eq!(quality(scalar(0.3), false), Quality::Seen(Grade::Bad));
    assert_eq!(quality(scalar(0.01), true), Quality::Inferred);

    let joint = |sigma| FilteredJoint {
        point: origin(),
        velocity: origin(),
        predicted: origin(),
        lead: scalar(0.0),
        sigma: scalar(sigma),
        inferred: false,
    };
    let mut filtered = Filtered::empty(at(0), Duration::zero());
    filtered.set(Joint::LeftHip, joint(0.005));
    filtered.set(Joint::LeftKnee, joint(0.03));
    filtered.set(Joint::RightAnkle, joint(0.03));
    let drawn = drawn_bones(&filtered);
    assert_eq!(drawn.len(), 1);
    assert_eq!(drawn[0].bone, Bone::new(Joint::LeftHip, Joint::LeftKnee));
    assert_eq!(drawn[0].quality, Quality::Seen(Grade::Fair));

    let mut fitted = Fitted::empty(at(0));
    let fit = |inferred| FittedJoint {
        point: origin(),
        sigma: scalar(0.02),
        inferred,
        correction: scalar(0.015),
    };
    fitted.set(Joint::Hip, fit(false));
    fitted.set(Joint::LeftKnee, fit(true));
    let mut raw = Pose3d::empty(at(0));
    raw.set(
        Joint::Hip,
        FusedJoint {
            point: origin(),
            sigma: scalar(0.02),
            residual: scalar(0.004),
            weights: vec![(0, scalar(0.5)), (1, scalar(0.5))],
            rejected: vec![2],
        },
    );
    let placed: Vec<Joint> = fitted.iter().iter().map(|(joint, _)| *joint).collect();
    assert_eq!(placed, vec![Joint::LeftKnee, Joint::Hip]);
    assert_eq!(raw.iter().len(), 1);
    assert_eq!(raw.iter()[0].0, Joint::Hip);
    assert_eq!(filtered.iter().len(), 3);
    assert_eq!(filtered.iter()[1].1.sigma, scalar(0.03));
    let rows = joint_rows(&fitted, &raw);
    assert_eq!(rows.len(), 2);
    assert_eq!(rows[0].joint, Joint::LeftKnee);
    assert!(rows[0].seen.is_none() && rows[0].moved.is_none());
    let seen = rows[1].seen.clone().unwrap();
    assert_eq!((seen.rays, seen.dropped), (2, vec![2]));
    assert_eq!(seen.residual, scalar(0.004));
    assert_eq!(rows[1].moved, Some(scalar(0.015)));
}

#[test]
fn the_tracking_panel_says_what_looks_wrong() {
    assert_eq!(floor_grade(scalar(-0.06)), Grade::Good);
    assert_eq!(floor_grade(scalar(-0.061)), Grade::Fair);
    assert!(leg_disagrees(scalar(-0.09)));
    assert!(!leg_disagrees(scalar(0.08)));
    let camera = CameraContribution {
        id: name("a"),
        aligned: scalar(0.95),
        rejected: scalar(0.1),
        problem: None,
    };
    assert_eq!(camera_row(&camera), CameraRow::Used { keeping_up: Grade::Good, outvoted: false });
    let camera = CameraContribution { aligned: scalar(0.5), rejected: scalar(0.3), ..camera };
    assert_eq!(camera_row(&camera), CameraRow::Used { keeping_up: Grade::Fair, outvoted: true });
    let camera = CameraContribution { problem: Some(name("asleep")), ..camera };
    assert_eq!(camera_row(&camera), CameraRow::Unused);
}

#[test]
fn a_link_between_guides_switches_the_tab() {
    let mut guide = GuidePanel::default();
    assert!(guide.follow(&name("troubleshooting.md")));
    assert_eq!(guide.selected, 2);
    assert!(guide.follow(&name("cameras.md")));
    assert_eq!(guide.selected, 0);
    assert!(!guide.follow(&name("https://example.org")));
    assert_eq!(guide.selected, 0);
    assert!(LogPanel::default().follow);
    assert_eq!(level_label(LogLevel::Warn).trim(), "WARN");
    assert_eq!(Panel::ALL[2].title(), "Calibration");
}
