//! Guided calibration against the headset.
//!
//! The wizard is deliberately opinionated about what it will let a user do. A
//! calibration that comes out subtly wrong is worse than one that refuses to
//! start, so the prerequisites are checked before recording, the things that
//! make a walk unusable are shown while it is still running, and the result is
//! reported in terms of what went wrong rather than as a single number.

use vstd::prelude::*;

use crate::calib::latency::{Estimate, PLAUSIBLE};
use crate::calib::recorder::{Coverage, Rig};
use crate::calib::solve::CameraCalibration;
use crate::config::camera::CameraConfig;
use crate::list::{increasing, lemma_grown};
use crate::models::all_joints_stand_at_their_index;
use crate::order::{ints, order_of, places, stable_order};
use crate::scalar::{lemma_worth_increases, Scalar};
use crate::text::{
    decimal, decimal_text, join, joined, padded, padded_text, texts_of, trim, trimmed,
};
use crate::time::{Duration, NANOS_PER_SEC};

verus! {

/// 0.15: rotation spread below which a rig's offset cannot be separated from a
/// shift of every camera.
pub const OBSERVABLE: u64 = 0x3fc3_3333_3333_3333;

/// 0.03: positional error a calibration is good at, in metres at the distance
/// the person walked.
///
/// Three centimetres, not one. A bar set where webcams cannot reach it would
/// mean the wizard complained about every calibration anyone ever ran, which is
/// the same as saying nothing.
pub const GOOD_ERROR: u64 = 0x3f9e_b851_eb85_1eb8;

/// 0.08: past this, the feet will be visibly in the wrong place.
pub const POOR_ERROR: u64 = 0x3fb4_7ae1_47ae_147b;

/// 0.02: positional uncertainty the camera *placement* is good for, in metres.
pub const GOOD_PRECISION: u64 = 0x3f94_7ae1_47ae_147b;

/// 0.05: how far from a plane a walk has to be.
pub const GOOD_SPREAD: u64 = 0x3fa9_9999_9999_999a;

/// 0.5: how often a camera should have the feet in shot.
pub const FEET_ENOUGH: u64 = 0x3fe0_0000_0000_0000;

/// 1.1: below this, a worn headset is not a standing person, in metres.
pub const IMPLAUSIBLE_HEIGHT: u64 = 0x3ff1_9999_9999_999a;

/// How many points of a walk are drawn at most, about.
pub const WALK_POINTS: usize = 600;

/// Where the wizard stands.
#[derive(Debug, Clone, Copy, PartialEq, Eq, Structural)]
pub enum Stage {
    Idle,
    Recording,
    Solving,
    Reviewing,
}

/// What the background solve has to say.
#[derive(Debug, Clone)]
pub enum SolverReply {
    /// Nothing yet.
    Pending,
    /// The room was solved.
    Solved,
    /// The walk could not be solved, and why.
    Failed(String),
    /// The solver is gone without a word.
    Died,
}

/// What the calibration panel remembers.
#[derive(Debug, Clone)]
pub struct CalibrationPanel {
    pub stage: Stage,
    /// Name the next save will use.
    pub profile: String,
    pub message: Option<String>,
    /// A profile the user has clicked delete on once. The second click on the
    /// same name is what deletes; a click anywhere else disarms it.
    pub confirm_delete: Option<String>,
}

/// What a click on a profile's delete button asks for.
#[derive(Debug, Clone, Copy, PartialEq, Eq, Structural)]
pub enum DeleteClick {
    /// Ask again.
    Arm,
    /// Delete the profile.
    Delete,
}

/// What a text says, if there is one.
pub open spec fn text_of(text: Option<String>) -> Option<Seq<char>> {
    match text {
        Some(text) => Some(text@),
        None => None,
    }
}

fn names(text: &Option<String>, name: &String) -> (same: bool)
    ensures
        same == (text_of(*text) == Some(name@)),
{
    match text {
        Some(text) => *text == *name,
        None => false,
    }
}

impl Default for CalibrationPanel {
    fn default() -> (panel: Self)
        ensures
            panel.stage == Stage::Idle,
            panel.profile@.len() == 0,
            panel.message is None,
            panel.confirm_delete is None,
    {
        CalibrationPanel {
            stage: Stage::Idle,
            profile: String::new(),
            message: None,
            confirm_delete: None,
        }
    }
}

impl CalibrationPanel {
    /// Picks up the result of a solve that was running in the background.
    pub fn poll_solver(&mut self, reply: SolverReply)
        ensures
            final(self).profile == old(self).profile,
            final(self).confirm_delete == old(self).confirm_delete,
            old(self).stage != Stage::Solving ==> *final(self) == *old(self),
            old(self).stage == Stage::Solving ==> match reply {
                SolverReply::Pending => *final(self) == *old(self),
                SolverReply::Solved => final(self).stage == Stage::Reviewing && final(self).message
                    == old(self).message,
                SolverReply::Failed(error) => final(self).stage == Stage::Idle
                    && final(self).message == Some(error),
                SolverReply::Died => final(self).stage == Stage::Idle && text_of(
                    final(self).message,
                ) == Some("the solver thread died"@),
            },
    {
        if self.stage != Stage::Solving {
            return;
        }
        match reply {
            SolverReply::Pending => {},
            SolverReply::Solved => {
                self.stage = Stage::Reviewing;
            },
            SolverReply::Failed(error) => {
                self.message = Some(error);
                self.stage = Stage::Idle;
            },
            SolverReply::Died => {
                self.message = Some("the solver thread died".to_owned());
                self.stage = Stage::Idle;
            },
        }
    }

    /// Starts a recording, if SteamVR is there to record against, and says
    /// whether it did.
    pub fn start_recording(&mut self, linked: bool) -> (started: bool)
        ensures
            started == linked,
            *final(self) == if linked {
                CalibrationPanel {
                    stage: Stage::Recording,
                    message: None,
                    confirm_delete: None,
                    ..*old(self)
                }
            } else {
                CalibrationPanel { confirm_delete: None, ..*old(self) }
            },
    {
        self.confirm_delete = None;
        if !linked {
            return false;
        }
        self.message = None;
        self.stage = Stage::Recording;
        true
    }

    /// Ends a recording: what was recorded is solved, if anything was.
    pub fn finish_recording(&mut self, recorded: bool)
        ensures
            *final(self) == (CalibrationPanel {
                stage: if recorded {
                    Stage::Solving
                } else {
                    Stage::Idle
                },
                confirm_delete: None,
                ..*old(self)
            }),
    {
        self.confirm_delete = None;
        self.stage = if recorded {
            Stage::Solving
        } else {
            Stage::Idle
        };
    }

    /// Drops what was recorded or solved.
    pub fn discard(&mut self)
        ensures
            *final(self) == (CalibrationPanel {
                stage: Stage::Idle,
                confirm_delete: None,
                ..*old(self)
            }),
    {
        self.confirm_delete = None;
        self.stage = Stage::Idle;
    }

    /// The name to save under, if there is a solved room and the name is not
    /// blank.
    pub fn save_name(&self) -> (name: Option<String>)
        ensures
            match name {
                Some(name) => self.stage == Stage::Reviewing && name@ == trimmed(self.profile@)
                    && name@.len() > 0,
                None => self.stage != Stage::Reviewing || trimmed(self.profile@).len() == 0,
            },
    {
        if self.stage != Stage::Reviewing {
            return None;
        }
        let name: String = trim(&self.profile);
        if name.as_str().is_empty() {
            None
        } else {
            Some(name)
        }
    }

    /// Takes note of how the save went. A profile that was saved is the one in
    /// force.
    pub fn saved(&mut self, outcome: Result<String, String>, room: &mut Option<String>)
        requires
            old(self).stage == Stage::Reviewing,
        ensures
            match outcome {
                Ok(name) => {
                    &&& *final(room) == Some(name)
                    &&& *final(self) == (CalibrationPanel {
                        stage: Stage::Idle,
                        message: None,
                        confirm_delete: None,
                        ..*old(self)
                    })
                },
                Err(error) => {
                    &&& *final(room) == *old(room)
                    &&& text_of(final(self).message) == Some(
                        "could not save the profile: "@ + error@,
                    )
                    &&& *final(self) == (CalibrationPanel {
                        message: final(self).message,
                        confirm_delete: None,
                        ..*old(self)
                    })
                },
            },
    {
        self.confirm_delete = None;
        match outcome {
            Ok(name) => {
                *room = Some(name);
                self.message = None;
                self.stage = Stage::Idle;
            },
            Err(error) => {
                let mut message = "could not save the profile: ".to_owned();
                message.append(error.as_str());
                self.message = Some(message);
            },
        }
    }

    /// Takes note of how the load of a profile went. One that was loaded is the
    /// one in force.
    pub fn loaded(
        &mut self,
        name: &String,
        outcome: Result<(), String>,
        room: &mut Option<String>,
    )
        ensures
            final(self).confirm_delete is None,
            final(self).stage == old(self).stage,
            final(self).profile == old(self).profile,
            match outcome {
                Ok(_) => *final(room) == Some(*name) && final(self).message is None,
                Err(error) => {
                    &&& *final(room) == *old(room)
                    &&& text_of(final(self).message) == Some(
                        "could not load "@ + name@ + ": "@ + error@,
                    )
                },
            },
    {
        self.confirm_delete = None;
        match outcome {
            Ok(_) => {
                *room = Some(name.clone());
                self.message = None;
            },
            Err(error) => {
                let mut message = "could not load ".to_owned();
                message.append(name.as_str());
                message.append(": ");
                message.append(error.as_str());
                self.message = Some(message);
            },
        }
    }

    /// Takes note of a click on anything but a delete button.
    pub fn click_elsewhere(&mut self)
        ensures
            text_of(final(self).confirm_delete) == armed_after(
                text_of(old(self).confirm_delete),
                Click::Elsewhere,
            ),
            *final(self) == (CalibrationPanel {
                confirm_delete: final(self).confirm_delete,
                ..*old(self)
            }),
    {
        self.confirm_delete = None;
    }

    /// Whether a profile's delete button has been clicked once.
    pub fn armed(&self, name: &String) -> (armed: bool)
        ensures
            armed == (text_of(self.confirm_delete) == Some(name@)),
    {
        names(&self.confirm_delete, name)
    }

    /// Takes a click on a profile's delete button. Deleting takes two clicks on
    /// the same name: profiles are an afternoon of walking each.
    pub fn click_delete(&mut self, name: &String) -> (click: DeleteClick)
        ensures
            ({
                let armed = text_of(old(self).confirm_delete) == Some(name@);
                &&& click == if armed {
                    DeleteClick::Delete
                } else {
                    DeleteClick::Arm
                }
                &&& text_of(final(self).confirm_delete) == armed_after(
                    text_of(old(self).confirm_delete),
                    Click::Delete(name@),
                )
                &&& *final(self) == (CalibrationPanel {
                    confirm_delete: final(self).confirm_delete,
                    ..*old(self)
                })
            }),
    {
        if self.armed(name) {
            self.confirm_delete = None;
            DeleteClick::Delete
        } else {
            self.confirm_delete = Some(name.clone());
            DeleteClick::Arm
        }
    }

    /// Takes note of how the deletion of a profile went, and says whether the
    /// one in force has to be unloaded: keeping a config that names a file that
    /// no longer exists would turn the next startup into a failed load.
    pub fn deleted(
        &mut self,
        name: &String,
        outcome: Result<(), String>,
        room: &mut Option<String>,
    ) -> (unload: bool)
        ensures
            unload == (outcome is Ok && text_of(*old(room)) == Some(name@)),
            *final(room) == if unload {
                None
            } else {
                *old(room)
            },
            match outcome {
                Ok(_) => final(self).message is None,
                Err(error) => text_of(final(self).message) == Some(
                    "could not delete "@ + name@ + ": "@ + error@,
                ),
            },
            *final(self) == (CalibrationPanel { message: final(self).message, ..*old(self) }),
    {
        match outcome {
            Ok(_) => {
                self.message = None;
                if names(room, name) {
                    *room = None;
                    true
                } else {
                    false
                }
            },
            Err(error) => {
                let mut message = "could not delete ".to_owned();
                message.append(name.as_str());
                message.append(": ");
                message.append(error.as_str());
                self.message = Some(message);
                false
            },
        }
    }
}

/// A click in the panel.
pub enum Click {
    /// On the delete button of a profile.
    Delete(Seq<char>),
    /// On anything else: a recording started or finished, a result kept or
    /// dropped, a profile loaded.
    Elsewhere,
}

/// Which profile is armed after a click.
pub open spec fn armed_after(armed: Option<Seq<char>>, click: Click) -> Option<Seq<char>> {
    match click {
        Click::Delete(name) => if armed == Some(name) {
            None
        } else {
            Some(name)
        },
        Click::Elsewhere => None,
    }
}

/// Which profile is armed after a history of clicks.
pub open spec fn armed_by(clicks: Seq<Click>) -> Option<Seq<char>>
    decreases clicks.len(),
{
    if clicks.len() == 0 {
        None
    } else {
        armed_after(armed_by(clicks.drop_last()), clicks.last())
    }
}

/// A click deletes a profile only if the click before it was on the same delete
/// button, with none on anything else in between.
pub proof fn deleting_takes_two_clicks(clicks: Seq<Click>, name: Seq<char>)
    requires
        armed_by(clicks) == Some(name),
    ensures
        clicks.len() > 0,
        clicks.last() == Click::Delete(name),
{
}

/// How the link to SteamVR stands.
#[derive(Debug, Clone, Copy, PartialEq, Eq, Structural)]
pub enum LinkState {
    Stopped,
    Searching,
    Connected,
}

/// What the panel says of the link, but for the rate of one that is up.
pub fn link_text(state: LinkState, installed: bool) -> (text: &'static str)
    ensures
        text@ == match state {
            LinkState::Connected => "connected"@,
            LinkState::Searching => if installed {
                "SteamVR is installed but not running"@
            } else {
                "no SteamVR runtime found on this machine"@
            },
            LinkState::Stopped => "stopped"@,
        },
{
    match state {
        LinkState::Connected => "connected",
        LinkState::Searching => if installed {
            "SteamVR is installed but not running"
        } else {
            "no SteamVR runtime found on this machine"
        },
        LinkState::Stopped => "stopped",
    }
}

/// What the panel says of a device: whether it is there, and whether it is being
/// followed.
pub fn device_text(following: Option<bool>) -> (text: &'static str)
    ensures
        text@ == match following {
            Some(true) => "ok"@,
            Some(false) => "lost"@,
            None => "absent"@,
        },
{
    match following {
        Some(true) => "ok",
        Some(false) => "lost",
        None => "absent",
    }
}

/// Whether SteamVR's floor is implausible: a headset that is being followed sits
/// too low to be worn by a standing person.
pub fn floor_implausible(height: Option<Scalar>) -> (implausible: bool)
    ensures
        implausible == (height is Some && !Scalar::of(IMPLAUSIBLE_HEIGHT).at_most(height->0)),
{
    match height {
        Some(height) => !Scalar::from_bits(IMPLAUSIBLE_HEIGHT).le(height),
        None => false,
    }
}

/// The headset as SteamVR reports it.
#[derive(Debug, Clone, Copy, PartialEq, Eq, Structural)]
pub struct Headset {
    pub connected: bool,
    pub followed: bool,
}

/// What stands in the way on SteamVR's side.
pub open spec fn vr_blocker(headset: Option<Headset>) -> Option<Seq<char>> {
    match headset {
        None => Some("SteamVR is not connected"@),
        Some(headset) => if !headset.connected {
            Some("SteamVR is not connected"@)
        } else if !headset.followed {
            Some("the headset is not being tracked"@)
        } else {
            None
        },
    }
}

/// What stands in the way on the cameras' side.
pub open spec fn camera_blocker(streaming: nat) -> Option<Seq<char>> {
    if streaming < 2 {
        Some(
            decimal(streaming)
                + " camera(s) are running keypoints; two is the minimum and three or more is what survives being stood in front of"@,
        )
    } else {
        None
    }
}

/// Everything that stands in the way.
pub open spec fn all_blockers(headset: Option<Headset>, streaming: nat) -> Seq<Seq<char>> {
    let vr = match vr_blocker(headset) {
        Some(text) => seq![text],
        None => Seq::empty(),
    };
    match camera_blocker(streaming) {
        Some(text) => vr.push(text),
        None => vr,
    }
}

/// Everything standing between the user and a recording.
///
/// Listed rather than reduced to a disabled button with no explanation: each of
/// these has a different fix, and the user is the only one who can apply it.
pub fn blockers(headset: Option<Headset>, streaming: usize) -> (blockers: Vec<String>)
    ensures
        texts_of(blockers@) == all_blockers(headset, streaming as nat),
{
    let mut out: Vec<String> = Vec::new();
    match headset {
        None => {
            out.push("SteamVR is not connected".to_owned());
        },
        Some(headset) => {
            if !headset.connected {
                out.push("SteamVR is not connected".to_owned());
            } else if !headset.followed {
                out.push("the headset is not being tracked".to_owned());
            }
        },
    }
    if streaming < 2 {
        let mut text = decimal_text(streaming as u64);
        text.append(
            " camera(s) are running keypoints; two is the minimum and three or more is what survives being stood in front of",
        );
        out.push(text);
    }
    proof {
        assert(texts_of(out@) =~= all_blockers(headset, streaming as nat));
    }
    out
}

/// Nothing stands in the way exactly when the headset is being followed and two
/// cameras are running.
pub proof fn recording_needs_the_headset_and_two_cameras(headset: Option<Headset>, streaming: nat)
    ensures
        all_blockers(headset, streaming).len() == 0 <==> headset is Some && headset->0.connected
            && headset->0.followed && streaming >= 2,
{
}

/// How many of the enabled cameras are running keypoints.
pub open spec fn streaming_among(cameras: Seq<CameraConfig>, running: Seq<bool>, n: nat) -> nat
    decreases n,
{
    if n == 0 {
        0
    } else {
        streaming_among(cameras, running, (n - 1) as nat) + if cameras[n - 1].enabled && running[n
            - 1] {
            1nat
        } else {
            0nat
        }
    }
}

/// How many of the enabled cameras are running keypoints.
pub fn streaming(cameras: &Vec<CameraConfig>, running: &Vec<bool>) -> (count: usize)
    requires
        running@.len() == cameras@.len(),
    ensures
        count == streaming_among(cameras@, running@, cameras@.len()),
{
    let mut count: usize = 0;
    let mut i: usize = 0;
    while i < cameras.len()
        invariant
            i <= cameras.len(),
            count <= i,
            running@.len() == cameras@.len(),
            count == streaming_among(cameras@, running@, i as nat),
        decreases cameras.len() - i,
    {
        if cameras[i].enabled && running[i] {
            count = count + 1;
        }
        i = i + 1;
    }
    count
}

/// A span of time in minutes and seconds.
pub fn duration(elapsed: Duration) -> (text: String)
    ensures
        ({
            let seconds = elapsed.nanos as int / NANOS_PER_SEC as int;
            text@ == decimal((seconds / 60) as nat) + ":"@ + padded((seconds % 60) as nat)
        }),
{
    let seconds: u64 = elapsed.nanos / NANOS_PER_SEC;
    let mut text = decimal_text(seconds / 60);
    text.append(":");
    text.append(padded_text(seconds % 60).as_str());
    text
}

/// Where a rig stands in the list: by device, then by keypoint.
pub open spec fn rig_key(rig: Rig) -> int {
    rig.role.rank() * 256 + rig.joint.place()
}

/// The order the rigs are listed in.
pub fn rig_order(rigs: &Vec<Rig>) -> (order: Vec<usize>)
    ensures
        places(order@) == order_of(rigs@.map_values(|rig: Rig| rig_key(rig))),
{
    let mut keys: Vec<u128> = Vec::new();
    let mut i: usize = 0;
    while i < rigs.len()
        invariant
            i <= rigs.len(),
            keys@.len() == i,
            forall|k: int| 0 <= k < i ==> #[trigger] keys@[k] == rig_key(rigs@[k]),
        decreases rigs.len() - i,
    {
        let rig: Rig = rigs[i];
        keys.push(rig.role.order() as u128 * 256 + rig.joint.index() as u128);
        i = i + 1;
    }
    proof {
        assert(ints(keys@) =~= rigs@.map_values(|rig: Rig| rig_key(rig)));
    }
    stable_order(&keys)
}

/// Whether a rig has turned enough for its offset to be found.
pub fn turned_enough(spread: Scalar) -> (enough: bool)
    ensures
        enough == !spread.less(Scalar::of(OBSERVABLE)),
{
    !spread.lt(Scalar::from_bits(OBSERVABLE))
}

/// The largest of the first `n` counts, and one where they are smaller.
pub open spec fn busiest_of(cells: Seq<u32>, n: nat) -> u32
    decreases n,
{
    if n == 0 {
        1
    } else {
        let before = busiest_of(cells, (n - 1) as nat);
        if cells[n - 1] > before {
            cells[n - 1]
        } else {
            before
        }
    }
}

/// What the brightest cell of a coverage map stands for.
///
/// Scaled against the busiest cell rather than an absolute count: what the user
/// needs to see is which parts of the frame are thin *relative to the rest*.
pub fn busiest(coverage: &Coverage) -> (busiest: u32)
    ensures
        busiest == busiest_of(coverage.cells@, coverage.cells@.len()),
{
    let mut busiest: u32 = 1;
    let mut i: usize = 0;
    while i < coverage.cells.len()
        invariant
            i <= coverage.cells.len(),
            busiest == busiest_of(coverage.cells@, i as nat),
        decreases coverage.cells.len() - i,
    {
        if coverage.cells[i] > busiest {
            busiest = coverage.cells[i];
        }
        i = i + 1;
    }
    busiest
}

/// How many points of a walk to skip between the ones drawn. A walk holds tens of
/// thousands of samples and a line between every pair of them is a solid smear
/// rather than a path.
pub fn walk_stride(points: usize) -> (stride: usize)
    ensures
        stride == if points >= WALK_POINTS {
            points as int / WALK_POINTS as int
        } else {
            1
        },
        stride >= 1,
{
    let stride: usize = points / WALK_POINTS;
    if stride >= 1 {
        stride
    } else {
        1
    }
}

/// How well the cameras can locate something at floor height.
#[derive(Debug, Clone, Copy, PartialEq, Eq, Structural)]
pub enum FloorPrecision {
    /// To within this many metres.
    Metres(Scalar),
    /// No two cameras have the floor in shot, so the feet are absent rather than
    /// imprecise.
    OutOfShot,
}

impl FloorPrecision {
    /// Whether a foot can be located this well.
    pub open spec fn good(self, limit: Scalar) -> bool {
        match self {
            FloorPrecision::Metres(metres) => metres.at_most(limit),
            FloorPrecision::OutOfShot => false,
        }
    }

    /// Whether a foot can be located this well.
    pub fn is_good(&self, limit: Scalar) -> (good: bool)
        ensures
            good == self.good(limit),
    {
        match self {
            FloorPrecision::Metres(metres) => metres.le(limit),
            FloorPrecision::OutOfShot => false,
        }
    }
}

/// What to do about a result that is not good.
#[derive(Debug, Clone, Copy, PartialEq, Eq, Structural)]
pub enum Advice {
    /// Nothing: it is good.
    Fine,
    /// It is usable.
    Approximate,
    /// It is not.
    Wrong,
}

impl Advice {
    /// The advice as one line, where there is any.
    pub fn text(self) -> (text: Option<&'static str>)
        ensures
            match (self, text) {
                (Advice::Fine, None) => true,
                (Advice::Approximate, Some(text)) => text@
                    == "Usable, but the feet will look approximate. Walking again, more slowly and covering more of the room, usually improves it."@,
                (Advice::Wrong, Some(text)) => text@
                    == "That is enough to put the feet visibly wrong. Walking again, more slowly and covering more of the room, is usually the fix."@,
                _ => false,
            },
    {
        match self {
            Advice::Fine => None,
            Advice::Approximate => Some(
                "Usable, but the feet will look approximate. Walking again, more slowly and covering more of the room, usually improves it.",
            ),
            Advice::Wrong => Some(
                "That is enough to put the feet visibly wrong. Walking again, more slowly and covering more of the room, is usually the fix.",
            ),
        }
    }
}

/// How a camera's delay is shown.
#[derive(Debug, Clone, Copy, PartialEq, Eq, Structural)]
pub enum LatencyCell {
    /// It was not measured.
    Absent,
    /// It is too long for a webcam.
    Implausible(Duration),
    /// It is known.
    Sure(Duration),
    /// The walk was too slow to tell.
    Unsure(Duration),
}

/// How a camera's delay is shown.
pub open spec fn latency_cell_of(latency: Option<Estimate>) -> LatencyCell {
    match latency {
        None => LatencyCell::Absent,
        Some(estimate) => if estimate.latency.nanos >= PLAUSIBLE {
            LatencyCell::Implausible(estimate.latency)
        } else if estimate.confident() {
            LatencyCell::Sure(estimate.latency)
        } else {
            LatencyCell::Unsure(estimate.latency)
        },
    }
}

/// How a camera's delay is shown. One that could not be measured is not broken;
/// the walk simply was not brisk enough to leave a mark.
pub fn latency_cell(latency: Option<Estimate>) -> (cell: LatencyCell)
    ensures
        cell == latency_cell_of(latency),
{
    match latency {
        None => LatencyCell::Absent,
        Some(estimate) => if !estimate.is_plausible() {
            LatencyCell::Implausible(estimate.latency)
        } else if estimate.is_confident() {
            LatencyCell::Sure(estimate.latency)
        } else {
            LatencyCell::Unsure(estimate.latency)
        },
    }
}

/// How a camera's row is coloured.
#[derive(Debug, Clone, Copy, PartialEq, Eq, Structural)]
pub struct RowGrade {
    pub error: bool,
    pub feet: bool,
    pub spread: bool,
    pub latency: LatencyCell,
}

/// How a camera's row is coloured.
pub open spec fn graded(camera: CameraCalibration) -> RowGrade {
    RowGrade {
        error: camera.metres() is Some && camera.metres()->0.at_most(Scalar::of(GOOD_ERROR)),
        feet: Scalar::of(FEET_ENOUGH).at_most(camera.feet),
        spread: Scalar::of(GOOD_SPREAD).less(camera.spread),
        latency: latency_cell_of(camera.latency),
    }
}

/// The worst error among the first `n` cameras, and no number where none has one.
pub open spec fn worst_error(cameras: Seq<CameraCalibration>, n: nat) -> Scalar
    decreases n,
{
    if n == 0 {
        Scalar::of(NO_ERROR)
    } else {
        let before = worst_error(cameras, (n - 1) as nat);
        match cameras[n - 1].metres() {
            Some(error) => before.larger(error),
            None => before,
        }
    }
}

/// The bits of what is not a number.
pub const NO_ERROR: u64 = 0x7ff8_0000_0000_0000;

/// The ids of the first `n` cameras whose delay is too long for a webcam.
pub open spec fn slow_among(cameras: Seq<CameraCalibration>, n: nat) -> Seq<Seq<char>>
    decreases n,
{
    if n == 0 {
        Seq::empty()
    } else {
        let before = slow_among(cameras, (n - 1) as nat);
        let camera = cameras[n - 1];
        if camera.latency is Some && camera.latency->0.latency.nanos >= PLAUSIBLE {
            before.push(camera.id@)
        } else {
            before
        }
    }
}

/// The ids of the first `n` cameras that rarely had the feet in shot.
pub open spec fn blind_among(cameras: Seq<CameraCalibration>, n: nat) -> Seq<Seq<char>>
    decreases n,
{
    if n == 0 {
        Seq::empty()
    } else {
        let before = blind_among(cameras, (n - 1) as nat);
        if cameras[n - 1].feet.less(Scalar::of(FEET_ENOUGH)) {
            before.push(cameras[n - 1].id@)
        } else {
            before
        }
    }
}

/// What is said of cameras that are too late.
pub open spec fn slow_line(slow: Seq<Seq<char>>) -> Option<Seq<char>> {
    if slow.len() == 0 {
        None
    } else {
        Some(
            joined(slow, ", "@, slow.len())
                + " appears to be delivering frames more than a tenth of a second late. That is not normal for a webcam \u{2014} check its measured frame rate and dropped-frame count in the Cameras panel. The delay has not been applied."@,
        )
    }
}

/// What is said of cameras that cannot see the feet.
pub open spec fn blind_line(blind: Seq<Seq<char>>) -> Option<Seq<char>> {
    if blind.len() == 0 {
        None
    } else {
        Some(
            joined(blind, ", "@, blind.len())
                + " rarely had your feet in shot. The calibration is unaffected \u{2014} it works from the headset and the controllers \u{2014} but a camera that cannot see a leg cannot help track one. Aim it lower or move it back."@,
        )
    }
}

/// What there is to say about a solved room.
#[derive(Debug, Clone)]
pub struct Verdict {
    /// The worst camera's error in metres, where any is known. The worst rather
    /// than the average, because a joint is only as well placed as the camera
    /// that saw it worst.
    pub error: Scalar,
    pub good: bool,
    pub advice: Advice,
    /// What is said of cameras that are too late.
    pub slow: Option<String>,
    /// Whether the placement is good, where it was judged.
    pub tight: Option<bool>,
    /// What is said of cameras that cannot see the feet.
    pub blind: Option<String>,
    /// How each camera's row is coloured.
    pub rows: Vec<RowGrade>,
}

/// What to do about an error.
pub open spec fn advised(error: Scalar) -> Advice {
    if error.finite() && error.at_most(Scalar::of(GOOD_ERROR)) {
        Advice::Fine
    } else if Scalar::of(POOR_ERROR).less(error) {
        Advice::Wrong
    } else {
        Advice::Approximate
    }
}

/// Whether a placement is good: it can locate a head well, and a foot too where
/// that was asked.
pub open spec fn tight_placement(precision: Scalar, floor: Option<FloorPrecision>) -> bool {
    precision.at_most(Scalar::of(GOOD_PRECISION)) && (floor is None || floor->0.good(
        Scalar::of(GOOD_PRECISION),
    ))
}

fn slow_ids(cameras: &Vec<CameraCalibration>) -> (ids: Vec<String>)
    ensures
        texts_of(ids@) == slow_among(cameras@, cameras@.len()),
{
    let mut ids: Vec<String> = Vec::new();
    let mut i: usize = 0;
    proof {
        assert(texts_of(ids@) =~= Seq::empty());
    }
    while i < cameras.len()
        invariant
            i <= cameras.len(),
            texts_of(ids@) == slow_among(cameras@, i as nat),
        decreases cameras.len() - i,
    {
        if let Some(estimate) = cameras[i].latency {
            if !estimate.is_plausible() {
                let ghost before = ids@;
                ids.push(cameras[i].id.clone());
                assert(texts_of(ids@) =~= texts_of(before).push(cameras@[i as int].id@));
            }
        }
        i = i + 1;
    }
    ids
}

fn blind_ids(cameras: &Vec<CameraCalibration>) -> (ids: Vec<String>)
    ensures
        texts_of(ids@) == blind_among(cameras@, cameras@.len()),
{
    let mut ids: Vec<String> = Vec::new();
    let mut i: usize = 0;
    proof {
        assert(texts_of(ids@) =~= Seq::empty());
    }
    while i < cameras.len()
        invariant
            i <= cameras.len(),
            texts_of(ids@) == blind_among(cameras@, i as nat),
        decreases cameras.len() - i,
    {
        if cameras[i].feet.lt(Scalar::from_bits(FEET_ENOUGH)) {
            let ghost before = ids@;
            ids.push(cameras[i].id.clone());
            assert(texts_of(ids@) =~= texts_of(before).push(cameras@[i as int].id@));
        }
        i = i + 1;
    }
    ids
}

fn about(ids: &Vec<String>, rest: &str) -> (text: Option<String>)
    ensures
        text_of(text) == if ids@.len() == 0 {
            None
        } else {
            Some(joined(texts_of(ids@), ", "@, ids@.len()) + rest@)
        },
{
    if ids.len() == 0 {
        return None;
    }
    let mut text = join(ids, ", ");
    text.append(rest);
    Some(text)
}

/// Judges a solved room: how far out the feet will be, which cameras are too
/// late or too blind to help, and whether where the cameras stand is any good.
pub fn summary(
    cameras: &Vec<CameraCalibration>,
    precision: Option<Scalar>,
    floor: Option<FloorPrecision>,
) -> (verdict: Verdict)
    ensures
        verdict.error == worst_error(cameras@, cameras@.len()),
        verdict.good == (verdict.error.finite() && verdict.error.at_most(Scalar::of(GOOD_ERROR))),
        verdict.advice == advised(verdict.error),
        text_of(verdict.slow) == slow_line(slow_among(cameras@, cameras@.len())),
        verdict.tight == match precision {
            Some(precision) => Some(tight_placement(precision, floor)),
            None => None,
        },
        text_of(verdict.blind) == blind_line(blind_among(cameras@, cameras@.len())),
        verdict.rows@ == cameras@.map_values(|camera: CameraCalibration| graded(camera)),
{
    let good_error: Scalar = Scalar::from_bits(GOOD_ERROR);
    let mut error: Scalar = Scalar::from_bits(NO_ERROR);
    let mut rows: Vec<RowGrade> = Vec::new();
    let mut i: usize = 0;
    while i < cameras.len()
        invariant
            i <= cameras.len(),
            good_error == Scalar::of(GOOD_ERROR),
            error == worst_error(cameras@, i as nat),
            rows@.len() == i,
            forall|k: int| 0 <= k < i ==> #[trigger] rows@[k] == graded(cameras@[k]),
        decreases cameras.len() - i,
    {
        let camera: &CameraCalibration = &cameras[i];
        let mut close: bool = false;
        if let Some(own) = camera.error_metres() {
            error = error.max(own);
            close = own.le(good_error);
        }
        rows.push(
            RowGrade {
                error: close,
                feet: Scalar::from_bits(FEET_ENOUGH).le(camera.feet),
                spread: Scalar::from_bits(GOOD_SPREAD).lt(camera.spread),
                latency: latency_cell(camera.latency),
            },
        );
        i = i + 1;
    }
    let good: bool = error.is_finite() && error.le(good_error);
    let advice: Advice = if good {
        Advice::Fine
    } else if Scalar::from_bits(POOR_ERROR).lt(error) {
        Advice::Wrong
    } else {
        Advice::Approximate
    };
    let slow_list = slow_ids(cameras);
    let blind_list = blind_ids(cameras);
    let slow = about(
        &slow_list,
        " appears to be delivering frames more than a tenth of a second late. That is not normal for a webcam \u{2014} check its measured frame rate and dropped-frame count in the Cameras panel. The delay has not been applied.",
    );
    let blind = about(
        &blind_list,
        " rarely had your feet in shot. The calibration is unaffected \u{2014} it works from the headset and the controllers \u{2014} but a camera that cannot see a leg cannot help track one. Aim it lower or move it back.",
    );
    let tight: Option<bool> = match precision {
        Some(precision) => {
            let limit: Scalar = Scalar::from_bits(GOOD_PRECISION);
            let feet: bool = match floor {
                Some(floor) => floor.is_good(limit),
                None => true,
            };
            Some(precision.le(limit) && feet)
        },
        None => None,
    };
    proof {
        assert(texts_of(slow_list@).len() == slow_list@.len());
        assert(texts_of(blind_list@).len() == blind_list@.len());
        assert(rows@ =~= cameras@.map_values(|camera: CameraCalibration| graded(camera)));
    }
    Verdict { error, good, advice, slow, tight, blind, rows }
}

/// A room is called good only if no camera whose error is known is out by more
/// than a good calibration is.
pub proof fn a_good_room_has_no_bad_camera(cameras: Seq<CameraCalibration>, n: nat, i: int)
    requires
        0 <= i < n <= cameras.len(),
        cameras[i].metres() is Some,
        !cameras[i].metres()->0.nan(),
        worst_error(cameras, n).at_most(Scalar::of(GOOD_ERROR)),
    ensures
        cameras[i].metres()->0.at_most(Scalar::of(GOOD_ERROR)),
    decreases n,
{
    lemma_worst_error_bounds(cameras, n, i);
}

proof fn lemma_worst_error_bounds(cameras: Seq<CameraCalibration>, n: nat, i: int)
    requires
        0 <= i < n <= cameras.len(),
        cameras[i].metres() is Some,
        !cameras[i].metres()->0.nan(),
    ensures
        cameras[i].metres()->0.at_most(worst_error(cameras, n)),
    decreases n,
{
    if i < n - 1 {
        lemma_worst_error_bounds(cameras, (n - 1) as nat, i);
    }
}

/// A click on a name that is armed deletes it and disarms; on any other name it arms
/// that one; anywhere else it disarms.
pub proof fn only_the_armed_name_is_deleted(armed: Option<Seq<char>>, name: Seq<char>)
    ensures
        armed_after(armed, Click::Delete(name)) is None <==> armed == Some(name),
        armed_after(armed, Click::Delete(name)) is Some ==> armed_after(
            armed,
            Click::Delete(name),
        )->0 == name,
        armed_after(armed, Click::Elsewhere) is None,
{
}

/// A headset that is not there or not connected is in the way before one that nobody
/// follows; fewer than two cameras are, by their number.
pub proof fn what_is_in_the_way_is_said(headset: Option<Headset>, streaming: nat)
    ensures
        headset is None || !headset->0.connected ==> vr_blocker(headset) == Some(
            "SteamVR is not connected"@,
        ),
        headset is Some && headset->0.connected && !headset->0.followed ==> vr_blocker(headset)
            == Some("the headset is not being tracked"@),
        headset is Some && headset->0.connected && headset->0.followed ==> vr_blocker(headset)
            is None,
        camera_blocker(streaming) is None <==> streaming >= 2,
        streaming < 2 ==> decimal(streaming).is_prefix_of(camera_blocker(streaming)->0),
        vr_blocker(headset) is Some ==> all_blockers(headset, streaming)[0] == vr_blocker(
            headset,
        )->0,
        camera_blocker(streaming) is Some ==> all_blockers(headset, streaming).last()
            == camera_blocker(streaming)->0,
{
}

/// The cameras that stream are those that are enabled and running.
pub proof fn every_running_camera_streams(cameras: Seq<CameraConfig>, running: Seq<bool>, n: nat)
    -> (from: Seq<int>)
    ensures
        increasing(from),
        forall|i: int| #[trigger]
            from.contains(i) <==> 0 <= i < n && cameras[i].enabled && running[i],
        streaming_among(cameras, running, n) == from.len(),
    decreases n,
{
    if n == 0 {
        Seq::empty()
    } else {
        let before = every_running_camera_streams(cameras, running, (n - 1) as nat);
        let more = cameras[n - 1].enabled && running[n - 1];
        let from = if more {
            before.push(n - 1)
        } else {
            before
        };
        lemma_grown(before, from, more, n - 1);
        from
    }
}

/// Rigs are ordered by what they are worn as, and by the joint where that is the same.
pub proof fn rigs_are_ordered_by_their_role(a: Rig, b: Rig)
    ensures
        rig_key(a) < rig_key(b) <==> a.role.rank() < b.role.rank() || (a.role == b.role
            && a.joint.place() < b.joint.place()),
        rig_key(a) == rig_key(b) ==> a.role == b.role && a.joint.place() == b.joint.place(),
{
    all_joints_stand_at_their_index(a.joint);
    all_joints_stand_at_their_index(b.joint);
}

/// The busiest cell has no fewer than any other, and never fewer than one.
pub proof fn no_cell_is_busier(cells: Seq<u32>, n: nat)
    requires
        n <= cells.len(),
    ensures
        busiest_of(cells, n) >= 1,
        forall|i: int| 0 <= i < n ==> #[trigger] cells[i] <= busiest_of(cells, n),
        busiest_of(cells, n) == 1 || exists|i: int|
            0 <= i < n && #[trigger] cells[i] == busiest_of(cells, n),
    decreases n,
{
    if n > 0 {
        no_cell_is_busier(cells, (n - 1) as nat);
        let before = busiest_of(cells, (n - 1) as nat);
        assert(busiest_of(cells, n) == before || busiest_of(cells, n) == cells[n - 1]);
    }
}

/// A delay of a tenth of a second and a fifth more is not believed, however sure it is;
/// a shorter one is sure exactly if it was measured so.
pub proof fn a_long_delay_is_not_believed(estimate: Estimate)
    ensures
        ({
            let cell = latency_cell_of(Some(estimate));
            &&& cell is Implausible <==> estimate.latency.nanos >= 120_000_000
            &&& cell is Sure <==> estimate.latency.nanos < 120_000_000 && estimate.confident()
            &&& cell is Unsure <==> estimate.latency.nanos < 120_000_000 && !estimate.confident()
            &&& cell is Implausible ==> cell == LatencyCell::Implausible(estimate.latency)
            &&& cell is Sure ==> cell == LatencyCell::Sure(estimate.latency)
            &&& cell is Unsure ==> cell == LatencyCell::Unsure(estimate.latency)
        }),
        latency_cell_of(None) is Absent,
{
}

/// A camera is good that is off by three centimetres at most, has the feet in shot at
/// least every other frame, and saw more than a twentieth of the frame walked through.
pub proof fn a_camera_is_graded_on_each_count(camera: CameraCalibration)
    ensures
        graded(camera).error <==> camera.metres() is Some && camera.metres()->0.at_most(
            Scalar::of(0x3f9e_b851_eb85_1eb8),
        ),
        graded(camera).feet <==> Scalar::of(0x3fe0_0000_0000_0000).at_most(camera.feet),
        graded(camera).spread <==> Scalar::of(0x3fa9_9999_9999_999a).less(camera.spread),
        graded(camera).latency == latency_cell_of(camera.latency),
{
}

/// The worst error is that of some camera, and no camera that has one has a worse; it is
/// no number where no camera has one.
pub proof fn the_worst_error_is_some_cameras(cameras: Seq<CameraCalibration>, n: nat)
    requires
        n <= cameras.len(),
    ensures
        forall|i: int|
            0 <= i < n && (#[trigger] cameras[i]).metres() is Some
                && !cameras[i].metres()->0.nan() ==> cameras[i].metres()->0.at_most(
                worst_error(cameras, n),
            ),
        worst_error(cameras, n) == Scalar::of(0x7ff8_0000_0000_0000) || exists|i: int|
            0 <= i < n && (#[trigger] cameras[i]).metres() == Some(worst_error(cameras, n)),
    decreases n,
{
    if n > 0 {
        the_worst_error_is_some_cameras(cameras, (n - 1) as nat);
        let before = worst_error(cameras, (n - 1) as nat);
        let now = worst_error(cameras, n);
        assert(now == before || cameras[n - 1].metres() == Some(now));
        if before != Scalar::of(0x7ff8_0000_0000_0000) && now == before {
            let i = choose|i: int|
                0 <= i < n - 1 && (#[trigger] cameras[i]).metres() == Some(before);
            assert(cameras[i].metres() == Some(now));
        }
        assert forall|i: int|
            0 <= i < n && (#[trigger] cameras[i]).metres() is Some
                && !cameras[i].metres()->0.nan() implies cameras[i].metres()->0.at_most(now) by {
            lemma_worst_error_bounds(cameras, n, i);
        }
    }
}

/// Exactly the cameras whose delay is not believed are named as slow, in order.
pub proof fn every_slow_camera_is_named(cameras: Seq<CameraCalibration>, n: nat) -> (from: Seq<int>)
    ensures
        increasing(from),
        from.len() == slow_among(cameras, n).len(),
        forall|i: int| #[trigger]
            from.contains(i) <==> 0 <= i < n && cameras[i].latency is Some
                && cameras[i].latency->0.latency.nanos >= 120_000_000,
        forall|k: int|
            0 <= k < from.len() ==> slow_among(cameras, n)[k] == cameras[#[trigger] from[k]].id@,
    decreases n,
{
    if n == 0 {
        Seq::empty()
    } else {
        let before = every_slow_camera_is_named(cameras, (n - 1) as nat);
        let camera = cameras[n - 1];
        let more = camera.latency is Some && camera.latency->0.latency.nanos >= 120_000_000;
        let from = if more {
            before.push(n - 1)
        } else {
            before
        };
        lemma_grown(before, from, more, n - 1);
        let list = slow_among(cameras, n);
        assert forall|k: int| 0 <= k < from.len() implies list[k] == cameras[#[trigger] from[k]].id@ by {
            if k < before.len() {
                assert(before[k] == from[k]);
                assert(slow_among(cameras, (n - 1) as nat)[k] == list[k]);
            }
        }
        from
    }
}

/// Exactly the cameras that have the feet in shot less than every other frame are named
/// as blind to them, in order.
pub proof fn every_camera_blind_to_the_feet_is_named(cameras: Seq<CameraCalibration>, n: nat) -> (from:
    Seq<int>)
    ensures
        increasing(from),
        from.len() == blind_among(cameras, n).len(),
        forall|i: int| #[trigger]
            from.contains(i) <==> 0 <= i < n && cameras[i].feet.less(
                Scalar::of(0x3fe0_0000_0000_0000),
            ),
        forall|k: int|
            0 <= k < from.len() ==> blind_among(cameras, n)[k] == cameras[#[trigger] from[k]].id@,
    decreases n,
{
    if n == 0 {
        Seq::empty()
    } else {
        let before = every_camera_blind_to_the_feet_is_named(cameras, (n - 1) as nat);
        let more = cameras[n - 1].feet.less(Scalar::of(0x3fe0_0000_0000_0000));
        let from = if more {
            before.push(n - 1)
        } else {
            before
        };
        lemma_grown(before, from, more, n - 1);
        let list = blind_among(cameras, n);
        assert forall|k: int| 0 <= k < from.len() implies list[k] == cameras[#[trigger] from[k]].id@ by {
            if k < before.len() {
                assert(before[k] == from[k]);
                assert(blind_among(cameras, (n - 1) as nat)[k] == list[k]);
            }
        }
        from
    }
}

/// A line about cameras is said exactly if there are any, and names them first, with a
/// comma between.
pub proof fn a_line_names_the_cameras_it_is_about(ids: Seq<Seq<char>>)
    ensures
        slow_line(ids) is Some <==> ids.len() > 0,
        blind_line(ids) is Some <==> ids.len() > 0,
        ids.len() > 0 ==> joined(ids, ", "@, ids.len()).is_prefix_of(slow_line(ids)->0),
        ids.len() > 0 ==> joined(ids, ", "@, ids.len()).is_prefix_of(blind_line(ids)->0),
{
}

/// A room that is off by three centimetres at most is fine and one off by more than
/// eight is wrong; what lies between, and what is not known, is approximate.
pub proof fn a_room_is_judged_by_its_worst_error(error: Scalar)
    ensures
        advised(error) is Fine <==> error.finite() && error.at_most(
            Scalar::of(0x3f9e_b851_eb85_1eb8),
        ),
        advised(error) is Wrong <==> Scalar::of(0x3fb4_7ae1_47ae_147b).less(error),
        error.nan() ==> advised(error) is Approximate,
{
    lemma_worth_increases(0x3f9e_b851_eb85_1eb8, 0x3fb4_7ae1_47ae_147b);
}

/// A placement is tight within two centimetres, the floor's too where it was looked for;
/// a floor that was out of shot is not.
pub proof fn a_placement_is_tight_within_two_centimetres(
    precision: Scalar,
    floor: Option<FloorPrecision>,
)
    ensures
        ({
            let limit = Scalar::of(0x3f94_7ae1_47ae_147b);
            tight_placement(precision, floor) <==> precision.at_most(limit) && match floor {
                None => true,
                Some(FloorPrecision::Metres(metres)) => metres.at_most(limit),
                Some(FloorPrecision::OutOfShot) => false,
            }
        }),
{
}

/// A rig has to turn by three twentieths to be told apart; a headset lower than a metre
/// and a tenth is not worn; and six hundred points are enough to draw a walk.
pub proof fn what_a_walk_is_held_to()
    ensures
        OBSERVABLE == 0x3fc3_3333_3333_3333,
        IMPLAUSIBLE_HEIGHT == 0x3ff1_9999_9999_999a,
        WALK_POINTS == 600,
{
}

} // verus!
