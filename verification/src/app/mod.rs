//! The application shell: what it starts, stops, saves and reports.

pub mod panels;

use vstd::prelude::*;

use crate::app::panels::Panel;
use crate::config::camera::CameraConfig;
use crate::config::{Config, OutputConfig, OutputModel, UiConfig, WindowConfig, WindowPosition};
use crate::fusion::bones::Skeleton;
use crate::scalar::Scalar;
use crate::time::{since, Instant};

verus! {

/// How long to wait after the last change before writing the config, in
/// nanoseconds.
pub const SAVE_DEBOUNCE: u64 = 2_000_000_000;

/// How long the output settings must hold still before the stage is restarted
/// with them, in nanoseconds. Long enough to cover a slider drag, short enough
/// that a user who changed the port does not wonder whether it took.
pub const OUTPUT_SETTLE: u64 = 500_000_000;

/// What is started when the application starts.
#[derive(Debug, Clone, Copy, PartialEq, Eq, Structural)]
pub struct Launch {
    pub capture: bool,
    pub pipeline: bool,
}

/// Whether any camera is enabled.
pub open spec fn any_enabled(cameras: Seq<CameraConfig>) -> bool {
    exists|i: int| 0 <= i < cameras.len() && (#[trigger] cameras[i]).enabled
}

/// What is started when the application starts: the cameras, if they are wanted
/// and there are any, and then the models on them.
pub fn launch(config: &Config) -> (launch: Launch)
    ensures
        launch.capture == (config.capture.auto_start && any_enabled(config.cameras@)),
        launch.pipeline == (launch.capture && config.inference.enabled),
{
    let mut any: bool = false;
    let mut i: usize = 0;
    while i < config.cameras.len()
        invariant
            i <= config.cameras.len(),
            any == exists|k: int| 0 <= k < i && (#[trigger] config.cameras@[k]).enabled,
        decreases config.cameras.len() - i,
    {
        if config.cameras[i].enabled {
            any = true;
        }
        i = i + 1;
    }
    let capture: bool = config.capture.auto_start && any;
    Launch { capture, pipeline: capture && config.inference.enabled }
}

/// Whether the config has changes that were not written.
#[derive(Debug, Clone, Copy, PartialEq, Eq, Structural)]
pub struct Saving {
    /// When the last of them was made.
    pub dirty_since: Option<Instant>,
}

/// What happens to the config.
pub enum SaveEvent {
    /// It was changed.
    Changed { now: Instant },
    /// It was asked whether it is to be written.
    Asked { now: Instant, force: bool },
}

/// Whether the config is to be written, given its last change that was not.
pub open spec fn save_due(dirty_since: Option<Instant>, now: Instant, force: bool) -> bool {
    dirty_since is Some && (force || since(now, dirty_since->0) >= SAVE_DEBOUNCE)
}

/// The last change that was not written, after something happened.
pub open spec fn dirty_after(dirty_since: Option<Instant>, event: SaveEvent) -> Option<Instant> {
    match event {
        SaveEvent::Changed { now } => Some(now),
        SaveEvent::Asked { now, force } => if save_due(dirty_since, now, force) {
            None
        } else {
            dirty_since
        },
    }
}

/// The last change that was not written, after a history of events.
pub open spec fn dirty_by(events: Seq<SaveEvent>) -> Option<Instant>
    decreases events.len(),
{
    if events.len() == 0 {
        None
    } else {
        dirty_after(dirty_by(events.drop_last()), events.last())
    }
}

/// Whether an event is the last change of a history.
pub open spec fn last_change(events: Seq<SaveEvent>, at: int) -> bool {
    &&& 0 <= at < events.len()
    &&& events[at] is Changed
    &&& forall|i: int| at < i < events.len() ==> !((#[trigger] events[i]) is Changed)
}

/// Unless it is forced, the config is written only once its last change is as old
/// as it has to be.
pub proof fn a_save_waits_for_the_last_change(events: Seq<SaveEvent>, now: Instant)
    requires
        save_due(dirty_by(events), now, false),
    ensures
        exists|at: int|
            #[trigger] last_change(events, at) && now.nanos - events[at]->Changed_now.nanos
                >= SAVE_DEBOUNCE,
{
    lemma_dirty_since_the_last_change(events);
}

proof fn lemma_dirty_since_the_last_change(events: Seq<SaveEvent>)
    requires
        dirty_by(events) is Some,
    ensures
        exists|at: int|
            #[trigger] last_change(events, at) && dirty_by(events) == Some(
                events[at]->Changed_now,
            ),
    decreases events.len(),
{
    if events.last() is Changed {
        assert(last_change(events, events.len() - 1));
    } else {
        let before = events.drop_last();
        lemma_dirty_since_the_last_change(before);
        let at = choose|at: int|
            #[trigger] last_change(before, at) && dirty_by(before) == Some(
                before[at]->Changed_now,
            );
        assert(events[at] == before[at]);
        assert forall|i: int| at < i < events.len() implies !((
        #[trigger] events[i]) is Changed) by {
            if i < before.len() {
                assert(events[i] == before[i]);
            }
        }
        assert(last_change(events, at));
    }
}

impl Saving {
    /// Nothing to write.
    pub fn new() -> (saving: Self)
        ensures
            saving.dirty_since is None,
    {
        Saving { dirty_since: None }
    }

    /// Takes note of a change. The wait starts over with each, so that a slider
    /// being dragged is not written halfway.
    pub fn mark_dirty(&mut self, now: Instant)
        ensures
            final(self).dirty_since == dirty_after(
                old(self).dirty_since,
                SaveEvent::Changed { now },
            ),
    {
        self.dirty_since = Some(now);
    }

    /// Whether the config is to be written now, which leaves nothing to write. A
    /// write that fails is taken note of as a change is.
    pub fn save_if_due(&mut self, now: Instant, force: bool) -> (due: bool)
        ensures
            due == save_due(old(self).dirty_since, now, force),
            final(self).dirty_since == dirty_after(
                old(self).dirty_since,
                SaveEvent::Asked { now, force },
            ),
    {
        let due: bool = match self.dirty_since {
            Some(since_when) => force || now.saturating_duration_since(since_when).nanos
                >= SAVE_DEBOUNCE,
            None => false,
        };
        if due {
            self.dirty_since = None;
        }
        due
    }
}

/// The window as it stands on the screen.
#[derive(Debug, Clone, Copy, PartialEq, Eq, Structural)]
pub struct SeenWindow {
    pub maximized: bool,
    pub width: Scalar,
    pub height: Scalar,
    pub pos: WindowPosition,
    /// Whether its size is the one on record, give or take a pixel.
    pub same_size: bool,
    /// Whether its place is the one on record, give or take a pixel.
    pub same_pos: bool,
}

/// The record once a window has been seen. Only the restored geometry is worth
/// remembering: a maximized window reports the screen size, which is not where
/// the user put it.
pub open spec fn remembered(window: WindowConfig, seen: SeenWindow) -> WindowConfig {
    if seen.maximized || (seen.same_size && window.pos is Some && seen.same_pos) {
        WindowConfig { maximized: seen.maximized, ..window }
    } else {
        WindowConfig {
            width: seen.width,
            height: seen.height,
            pos: Some(seen.pos),
            maximized: seen.maximized,
        }
    }
}

/// Records window geometry so the next launch reopens where the user left it, and
/// says whether that is a change to be saved.
pub fn track_window_geometry(window: &mut WindowConfig, seen: Option<SeenWindow>) -> (dirty: bool)
    ensures
        match seen {
            Some(seen) => {
                &&& *final(window) == remembered(*old(window), seen)
                &&& dirty == (seen.maximized != old(window).maximized || (!seen.maximized && !(
                seen.same_size && old(window).pos is Some && seen.same_pos)))
            },
            None => *final(window) == *old(window) && !dirty,
        },
{
    match seen {
        None => false,
        Some(seen) => {
            let mut dirty: bool = false;
            if seen.maximized != window.maximized {
                window.maximized = seen.maximized;
                dirty = true;
            }
            if seen.maximized {
                return dirty;
            }
            if !seen.same_size || window.pos.is_none() || !seen.same_pos {
                window.width = seen.width;
                window.height = seen.height;
                window.pos = Some(seen.pos);
                dirty = true;
            }
            dirty
        },
    }
}

/// What is to be done about the fusion stage.
#[derive(Debug, Clone, Copy)]
pub enum FusionSync {
    /// It is to be stopped, where it runs, and this is why it does not.
    Stop { problem: Option<&'static str> },
    /// It is to be left as it is.
    Keep,
    /// It is to be started.
    Start,
}

/// Starts or stops the fusion stage as its prerequisites come and go.
///
/// Fusion needs a calibrated room and cameras running with a model attached. Both
/// are things a user changes while the application is open, so this is asked
/// every frame, and when it cannot run the reason is kept for the panel to show.
pub fn sync_fusion(enabled: bool, cameras_running: bool, room: bool, fusing: bool) -> (sync:
    FusionSync)
    ensures
        ({
            let wanted = enabled && cameras_running;
            match sync {
                FusionSync::Stop { problem } => (!wanted || !room) && match problem {
                    Some(text) => wanted && text@ == "no room profile is loaded"@,
                    None => !wanted,
                },
                FusionSync::Keep => wanted && room && fusing,
                FusionSync::Start => wanted && room && !fusing,
            }
        }),
{
    let wanted: bool = enabled && cameras_running;
    if !wanted {
        return FusionSync::Stop { problem: None };
    }
    if !room {
        return FusionSync::Stop { problem: Some("no room profile is loaded") };
    }
    if fusing {
        FusionSync::Keep
    } else {
        FusionSync::Start
    }
}

/// Output settings that are waiting to be put in force.
#[derive(Debug, Clone)]
pub struct Settling {
    pub with: OutputConfig,
    /// When they were first seen.
    pub since: Instant,
}

/// Settings that are waiting to be put in force, as mathematical values.
pub struct SettlingModel {
    pub with: OutputModel,
    pub since: Instant,
}

/// What is known of the output stage.
#[derive(Debug, Clone)]
pub struct OutputSync {
    /// The output settings the running stage was started with. A change to any
    /// of them means the socket, the numbering or the send clock is wrong, and
    /// none of those can be adjusted from outside the thread.
    pub sending_with: Option<OutputConfig>,
    /// The output settings last seen after a change and since when, so a slider
    /// being dragged does not restart the stage on every frame of the drag.
    pub settling: Option<Settling>,
    /// Why the stage is not running, when it should be.
    pub problem: Option<String>,
}

/// What is known of the output stage, as mathematical values.
pub struct OutputSyncModel {
    pub sending_with: Option<OutputModel>,
    pub settling: Option<SettlingModel>,
    pub problem: Option<Seq<char>>,
}

impl View for OutputSync {
    type V = OutputSyncModel;

    open spec fn view(&self) -> OutputSyncModel {
        OutputSyncModel {
            sending_with: match self.sending_with {
                Some(config) => Some(config@),
                None => None,
            },
            settling: match self.settling {
                Some(settling) => Some(
                    SettlingModel { with: settling.with@, since: settling.since },
                ),
                None => None,
            },
            problem: match self.problem {
                Some(problem) => Some(problem@),
                None => None,
            },
        }
    }
}

/// What is to be done about the output stage.
#[derive(Debug, Clone, Copy, PartialEq, Eq, Structural)]
pub struct OutputStep {
    pub stop: bool,
    pub start: bool,
}

/// Whether the running stage was started with other settings.
pub open spec fn stale(sending_with: Option<OutputModel>, config: OutputModel) -> bool {
    sending_with is Some && !sending_with->0.equals(config)
}

/// The settings that are waiting, once these were seen: where they differ the
/// wait starts over.
pub open spec fn watched(
    settling: Option<SettlingModel>,
    config: OutputModel,
    now: Instant,
) -> Option<SettlingModel> {
    match settling {
        Some(waiting) => if waiting.with.equals(config) {
            Some(waiting)
        } else {
            Some(SettlingModel { with: config, since: now })
        },
        None => None,
    }
}

/// Whether settings have not held still for long enough.
pub open spec fn unsettled(settling: Option<SettlingModel>, now: Instant) -> bool {
    settling is Some && since(now, settling->0.since) < OUTPUT_SETTLE
}

/// What is known of the output stage after it was looked at, and what is to be
/// done about it.
pub open spec fn synced(
    sync: OutputSyncModel,
    config: OutputModel,
    fusing: bool,
    sending: bool,
    now: Instant,
) -> (OutputSyncModel, OutputStep) {
    let settling = watched(sync.settling, config, now);
    if !(config.enabled && fusing) {
        (
            OutputSyncModel { sending_with: None, settling, problem: None },
            OutputStep { stop: sending, start: false },
        )
    } else if stale(sync.sending_with, config) {
        (
            OutputSyncModel {
                sending_with: None,
                settling: Some(SettlingModel { with: config, since: now }),
                ..sync
            },
            OutputStep { stop: true, start: false },
        )
    } else if sending {
        (sync, OutputStep { stop: false, start: false })
    } else if unsettled(settling, now) {
        (OutputSyncModel { settling, ..sync }, OutputStep { stop: false, start: false })
    } else {
        (OutputSyncModel { settling: None, ..sync }, OutputStep { stop: false, start: true })
    }
}

impl OutputSync {
    /// Nothing is being sent.
    pub fn new() -> (sync: Self)
        ensures
            sync.sending_with is None,
            sync.settling is None,
            sync.problem is None,
    {
        OutputSync { sending_with: None, settling: None, problem: None }
    }

    /// Takes note of the settings while others are waiting to be put in force.
    fn watch(&mut self, config: &OutputConfig, now: Instant)
        ensures
            final(self)@ == (OutputSyncModel {
                settling: watched(old(self)@.settling, config@, now),
                ..old(self)@
            }),
    {
        let differs: bool = match &self.settling {
            Some(settling) => !settling.with.same(config),
            None => false,
        };
        if differs {
            self.settling = Some(Settling { with: config.clone(), since: now });
        }
    }

    /// Decides whether the output stage is to be stopped, started or left alone.
    ///
    /// Everything the stage needs is fixed when it is built, so a settings change
    /// means a restart. A stage running with settings that no longer match is
    /// stopped as soon as the change is noticed; starting is what waits, and every
    /// further change makes it wait anew.
    pub fn sync(
        &mut self,
        config: &OutputConfig,
        fusing: bool,
        sending: bool,
        now: Instant,
    ) -> (step: OutputStep)
        ensures
            (final(self)@, step) == synced(old(self)@, config@, fusing, sending, now),
    {
        if !(config.enabled && fusing) {
            self.watch(config, now);
            self.sending_with = None;
            self.problem = None;
            return OutputStep { stop: sending, start: false };
        }
        let changed: bool = match &self.sending_with {
            Some(running) => !running.same(config),
            None => false,
        };
        if changed {
            self.sending_with = None;
            self.settling = Some(Settling { with: config.clone(), since: now });
            return OutputStep { stop: true, start: false };
        }
        if sending {
            return OutputStep { stop: false, start: false };
        }
        self.watch(config, now);
        if let Some(settling) = &self.settling {
            if now.saturating_duration_since(settling.since).nanos < OUTPUT_SETTLE {
                return OutputStep { stop: false, start: false };
            }
        }
        self.settling = None;
        OutputStep { stop: false, start: true }
    }

    /// Takes note of how a start went. Only settings that actually started
    /// something are remembered: storing them regardless would make a failed
    /// start look current, and it would never be retried.
    pub fn started(&mut self, outcome: Result<OutputConfig, String>)
        ensures
            *final(self) == match outcome {
                Ok(config) => (OutputSync {
                    problem: None,
                    sending_with: Some(config),
                    ..*old(self)
                }),
                Err(problem) => (OutputSync { problem: Some(problem), ..*old(self) }),
            },
    {
        match outcome {
            Ok(config) => {
                self.problem = None;
                self.sending_with = Some(config);
            },
            Err(problem) => {
                self.problem = Some(problem);
            },
        }
    }
}

/// One look at the output stage.
pub struct Look {
    pub config: OutputModel,
    pub fusing: bool,
    pub sending: bool,
    pub now: Instant,
}

/// What is known of the output stage after a history of looks, and what the last
/// of them said is to be done.
pub open spec fn synced_by(
    sync: OutputSyncModel,
    looks: Seq<Look>,
) -> (OutputSyncModel, OutputStep)
    decreases looks.len(),
{
    if looks.len() == 0 {
        (sync, OutputStep { stop: false, start: false })
    } else {
        let look = looks.last();
        synced(
            synced_by(sync, looks.drop_last()).0,
            look.config,
            look.fusing,
            look.sending,
            look.now,
        )
    }
}

/// Whether a stage that is sending is found with changed settings at the first of
/// the looks, and is not started at any of them.
pub open spec fn stopped_throughout(sync: OutputSyncModel, looks: Seq<Look>) -> bool {
    &&& looks.len() > 0
    &&& looks[0].config.enabled && looks[0].fusing
    &&& stale(sync.sending_with, looks[0].config)
    &&& forall|i: int| 0 < i < looks.len() ==> !(#[trigger] looks[i]).sending
    &&& forall|n: int|
        0 < n <= looks.len() ==> !(#[trigger] synced_by(sync, looks.take(n))).1.start
}

/// Whether every look after one saw the settings it saw.
pub open spec fn held_since(looks: Seq<Look>, from: int) -> bool {
    &&& 0 <= from < looks.len()
    &&& forall|i: int|
        from < i < looks.len() ==> looks[from].config.equals((#[trigger] looks[i]).config)
}

/// While a stage is stopped for a change, it knows since when the settings hold.
proof fn lemma_settling_since(sync: OutputSyncModel, looks: Seq<Look>)
    requires
        stopped_throughout(sync, looks),
    ensures
        ({
            let after = synced_by(sync, looks).0;
            &&& after.sending_with is None
            &&& after.settling is Some
            &&& exists|from: int|
                #[trigger] held_since(looks, from) && after.settling->0 == (SettlingModel {
                    with: looks[from].config,
                    since: looks[from].now,
                })
        }),
    decreases looks.len(),
{
    let last = looks.len() - 1;
    let earlier = looks.drop_last();
    assert(looks.take(looks.len() as int) =~= looks);
    if last == 0 {
        assert(synced_by(sync, earlier).0 == sync);
        assert(held_since(looks, 0));
    } else {
        assert forall|n: int| 0 < n <= earlier.len() implies !(#[trigger] synced_by(
            sync,
            earlier.take(n),
        )).1.start by {
            assert(earlier.take(n) =~= looks.take(n));
        }
        assert(stopped_throughout(sync, earlier));
        lemma_settling_since(sync, earlier);
        let before = synced_by(sync, earlier).0;
        let from = choose|from: int|
            #[trigger] held_since(earlier, from) && before.settling->0 == (SettlingModel {
                with: earlier[from].config,
                since: earlier[from].now,
            });
        assert(looks[from] == earlier[from]);
        assert(!looks[last].sending);
        assert(!synced_by(sync, looks.take(looks.len() as int)).1.start);
        if looks[from].config.equals(looks[last].config) {
            assert forall|i: int| from < i < looks.len() implies looks[from].config.equals(
                (#[trigger] looks[i]).config,
            ) by {
                if i < last {
                    assert(looks[i] == earlier[i]);
                }
            }
            assert(held_since(looks, from));
        } else {
            assert(held_since(looks, last));
        }
    }
}

/// A stage whose settings were changed is stopped at once, and is started again
/// only with settings that every look saw for the whole time they are to settle,
/// however often they were changed on the way.
pub proof fn a_changed_stage_waits_for_its_settings_to_hold(
    sync: OutputSyncModel,
    looks: Seq<Look>,
    next: Look,
)
    requires
        stopped_throughout(sync, looks),
        !next.sending,
    ensures
        synced_by(sync, looks.take(1)).1.stop,
        synced_by(sync, looks.push(next)).1.start ==> exists|from: int|
            #[trigger] held_since(looks.push(next), from) && from < looks.len()
                && next.now.nanos - looks[from].now.nanos >= OUTPUT_SETTLE,
{
    let first = looks.take(1);
    assert(synced_by(sync, first.drop_last()).0 == sync);
    lemma_settling_since(sync, looks);
    let all = looks.push(next);
    assert(all.drop_last() =~= looks);
    let before = synced_by(sync, looks).0;
    let from = choose|from: int|
        #[trigger] held_since(looks, from) && before.settling->0 == (SettlingModel {
            with: looks[from].config,
            since: looks[from].now,
        });
    if synced_by(sync, all).1.start {
        assert(looks[from].config.equals(next.config));
        assert forall|i: int| from < i < all.len() implies all[from].config.equals(
            (#[trigger] all[i]).config,
        ) by {
            if i < looks.len() {
                assert(all[i] == looks[i]);
            }
        }
        assert(held_since(all, from));
    }
}

/// Settings that have held still for long enough are put in force.
pub proof fn settled_settings_are_put_in_force(
    sync: OutputSyncModel,
    config: OutputModel,
    now: Instant,
)
    requires
        config.enabled,
        sync.sending_with is None,
        match sync.settling {
            Some(settling) => settling.with.equals(config) && settling.since.nanos
                + OUTPUT_SETTLE <= now.nanos,
            None => true,
        },
    ensures
        synced(sync, config, true, false, now).1.start,
{
}

/// A start that failed is tried again the next time the stage is looked at.
pub proof fn a_failed_start_is_retried(
    sync: OutputSyncModel,
    config: OutputModel,
    problem: Seq<char>,
    now: Instant,
    later: Instant,
)
    requires
        config.enabled,
        sync.sending_with is None,
        synced(sync, config, true, false, now).1.start,
    ensures
        ({
            let after = OutputSyncModel {
                problem: Some(problem),
                ..synced(sync, config, true, false, now).0
            };
            synced(after, config, true, false, later).1.start
        }),
{
}

/// Whether a measured body is worth keeping, so that the next launch starts from
/// a skeleton rather than from nothing.
pub fn keeps_body(measured: Option<&Skeleton>) -> (keep: bool)
    ensures
        keep == match measured {
            Some(skeleton) => skeleton.bones@.len() > 0,
            None => false,
        },
{
    match measured {
        Some(skeleton) => skeleton.bones.len() > 0,
        None => false,
    }
}

/// What is shown of a worker that stopped unexpectedly.
pub fn failure_text(worker: &String, message: &String) -> (text: String)
    ensures
        text@ == worker@ + ": "@ + message@,
{
    let mut text = worker.clone();
    text.append(": ");
    text.append(message.as_str());
    text
}

/// Turns to another panel, and says whether that is a change to be saved.
pub fn select_panel(ui: &mut UiConfig, panel: Panel) -> (dirty: bool)
    ensures
        dirty == (old(ui).panel != panel),
        *final(ui) == (UiConfig { panel, ..*old(ui) }),
{
    let dirty: bool = ui.panel != panel;
    ui.panel = panel;
    dirty
}

/// What the user did with the startup banner.
#[derive(Debug, Clone, Copy, PartialEq, Eq, Structural)]
pub enum BannerAction {
    Nothing,
    Dismiss,
    Recheck,
}

/// Whether the startup report is shown from now on, given whether a check that
/// was repeated found nothing.
pub fn banner_stays(shown: bool, action: BannerAction, clear: bool) -> (stays: bool)
    ensures
        stays == match action {
            BannerAction::Nothing => shown,
            BannerAction::Dismiss => false,
            BannerAction::Recheck => !clear,
        },
{
    match action {
        BannerAction::Nothing => shown,
        BannerAction::Dismiss => false,
        BannerAction::Recheck => !clear,
    }
}

/// What heads the startup report.
pub fn banner_headline(blocked: bool) -> (headline: &'static str)
    ensures
        headline@ == if blocked {
            "Tracking cannot start yet:"@
        } else {
            "Tracking will run, with this worth a look:"@
        },
{
    if blocked {
        "Tracking cannot start yet:"
    } else {
        "Tracking will run, with this worth a look:"
    }
}

/// What changed is written two seconds after the last change, or at once where that is
/// forced; nothing is written where nothing changed, and what was written counts as
/// unchanged.
pub proof fn a_change_is_written_two_seconds_later(changed: Instant, now: Instant, force: bool)
    requires
        changed.nanos <= now.nanos,
    ensures
        save_due(Some(changed), now, force) <==> force || now.nanos - changed.nanos
            >= 2_000_000_000,
        !save_due(None, now, force),
        forall|before: Option<Instant>| #[trigger]
            dirty_after(before, SaveEvent::Changed { now }) == Some(now),
        forall|before: Option<Instant>|
            #![trigger dirty_after(before, SaveEvent::Asked { now, force })]
            dirty_after(before, SaveEvent::Asked { now, force }) == if save_due(
                before,
                now,
                force,
            ) {
                None
            } else {
                before
            },
{
}

/// A window that is maximized keeps the place and size it had; any other that moved,
/// was resized or was never placed takes those it is seen at. Either way it is known
/// whether it is maximized.
pub proof fn a_maximized_window_keeps_its_place(window: WindowConfig, seen: SeenWindow)
    ensures
        ({
            let after = remembered(window, seen);
            let moved = !seen.maximized && (!seen.same_size || !seen.same_pos || window.pos is None);
            &&& after.maximized == seen.maximized
            &&& moved ==> after.width == seen.width && after.height == seen.height && after.pos
                == Some(seen.pos)
            &&& !moved ==> after.width == window.width && after.height == window.height && after.pos
                == window.pos
        }),
{
}

/// Whether any camera is enabled is whether one of them is.
pub proof fn one_enabled_camera_is_enough(cameras: Seq<CameraConfig>, i: int)
    ensures
        0 <= i < cameras.len() && cameras[i].enabled ==> any_enabled(cameras),
        (forall|k: int| 0 <= k < cameras.len() ==> !(#[trigger] cameras[k]).enabled)
            ==> !any_enabled(cameras),
{
}

/// An output that is switched off, or has no body to send, stops if it was sending and
/// forgets what it was sending with and what went wrong. One that is sending with other
/// settings stops. Otherwise it goes on if it is sending, and starts if it is not unless
/// its settings were changed less than half a second ago; and it never stops and starts
/// at once.
pub proof fn an_output_stops_or_starts_as_its_settings_say(
    sync: OutputSyncModel,
    config: OutputModel,
    fusing: bool,
    sending: bool,
    now: Instant,
)
    requires
        sync.settling is Some ==> sync.settling->0.since.nanos <= now.nanos,
    ensures
        ({
            let (after, step) = synced(sync, config, fusing, sending, now);
            let wanted = config.enabled && fusing;
            let changed = sync.sending_with is Some && !sync.sending_with->0.equals(config);
            let recent = sync.settling is Some && (!sync.settling->0.with.equals(config)
                || now.nanos - sync.settling->0.since.nanos < 500_000_000);
            &&& !(step.stop && step.start)
            &&& !wanted ==> step.stop == sending && !step.start && after.sending_with is None
                && after.problem is None
            &&& wanted && changed ==> step.stop && after.sending_with is None && after.settling
                is Some && after.settling->0.with == config && after.settling->0.since == now
                && after.problem == sync.problem
            &&& wanted && !changed ==> !step.stop && after.sending_with == sync.sending_with
                && after.problem == sync.problem
            &&& wanted && !changed && sending ==> !step.start && after == sync
            &&& wanted && !changed && !sending ==> (step.start <==> !recent)
            &&& step.start ==> after.settling is None
        }),
{
}

} // verus!
