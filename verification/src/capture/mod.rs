//! Frame capture.
//!
//! One thread per camera reads frames, timestamps them on arrival and publishes
//! the latest one into a single-slot mailbox. Nothing is queued: a frame that
//! the pipeline did not pick up before the next one arrived is worthless for
//! real-time tracking, so it is overwritten and counted.

pub mod decode;
pub mod formats;
pub mod source;

use vstd::prelude::*;

use crate::capture::source::{ControlInfo, NegotiatedFormat};
use crate::config::camera::{CameraConfig, ControlName};
use crate::list::{
    first_where, increasing, lemma_first_where, lemma_first_where_is, lemma_grown,
};
use crate::order::places;
use crate::scalar::Scalar;
use crate::time::{since, Duration, Instant};

verus! {

/// A decoded RGB8 frame.
#[derive(Debug, Clone)]
pub struct FrameData {
    pub width: u32,
    pub height: u32,
    /// Tightly packed RGB8, `width * height * 3` bytes.
    pub rgb: Vec<u8>,
    /// When the frame was handed over by the source.
    pub captured_at: Instant,
    /// Monotonic per-camera counter, used to detect a new frame.
    pub seq: u64,
}

/// How a camera is doing.
#[derive(Debug, Clone, Copy, PartialEq, Eq, Structural)]
pub enum CameraState {
    Stopped,
    Opening,
    Running,
    Failed,
}

impl CameraState {
    /// The word shown for the state.
    pub fn label(self) -> (label: &'static str)
        ensures
            label@ == match self {
                CameraState::Stopped => "stopped"@,
                CameraState::Opening => "opening"@,
                CameraState::Running => "running"@,
                CameraState::Failed => "failed"@,
            },
    {
        match self {
            CameraState::Stopped => "stopped",
            CameraState::Opening => "opening",
            CameraState::Running => "running",
            CameraState::Failed => "failed",
        }
    }
}

/// What a camera has done so far.
#[derive(Debug, Clone)]
pub struct CameraStats {
    pub state: CameraState,
    pub captured: u64,
    /// Frames replaced in the mailbox before a consumer took them.
    pub overwritten: u64,
    pub errors: u64,
    /// Smoothed capture rate in frames per second.
    pub measured_fps: Scalar,
    /// Smoothed time spent decoding one frame, in milliseconds.
    pub decode_ms: Scalar,
    pub last_error: Option<String>,
    pub negotiated: Option<NegotiatedFormat>,
    /// Device properties, as last read from the camera.
    pub controls: Vec<ControlInfo>,
}

/// A request from the UI to the camera thread.
#[derive(Debug, Clone, Copy, PartialEq, Eq, Structural)]
pub enum CameraCommand {
    SetControl { name: ControlName, value: i64, auto: bool },
}

impl Default for CameraStats {
    fn default() -> (stats: Self)
        ensures
            stats.state == CameraState::Stopped,
            stats.captured == 0,
            stats.overwritten == 0,
            stats.errors == 0,
            stats.measured_fps.bits == 0,
            stats.decode_ms.bits == 0,
            stats.last_error is None,
            stats.negotiated is None,
            stats.controls@.len() == 0,
    {
        CameraStats {
            state: CameraState::Stopped,
            captured: 0,
            overwritten: 0,
            errors: 0,
            measured_fps: Scalar::from_bits(0),
            decode_ms: Scalar::from_bits(0),
            last_error: None,
            negotiated: None,
            controls: Vec::new(),
        }
    }
}

/// A mailbox that holds the latest frame.
#[derive(Debug, Clone)]
pub struct Slot<F> {
    pub frame: Option<F>,
    /// False once a consumer has taken the frame currently in the slot.
    pub unread: bool,
}

/// The properties with one of them read anew: in place where it is listed
/// already, else at the end.
pub open spec fn with_control(controls: Seq<ControlInfo>, info: ControlInfo) -> Seq<ControlInfo> {
    let at = first_where(controls, |control: ControlInfo| control.name == info.name);
    if at < controls.len() {
        controls.update(at, info)
    } else {
        controls.push(info)
    }
}

/// The runtime side of one configured camera.
#[derive(Debug, Clone)]
pub struct CameraChannel<F> {
    pub slot: Slot<F>,
    pub stats: CameraStats,
    /// When the last frame arrived, which is what the frame rate is measured
    /// from.
    pub last_frame_at: Option<Instant>,
}

impl<F> CameraChannel<F> {
    /// Whether a frame in the slot is only unread while there is one.
    pub open spec fn well_formed(self) -> bool {
        self.slot.unread ==> self.slot.frame is Some
    }

    /// A camera that has delivered nothing.
    pub fn new() -> (channel: Self)
        ensures
            channel.well_formed(),
            channel.slot.frame is None,
            !channel.slot.unread,
            channel.last_frame_at is None,
            channel.stats.state == CameraState::Stopped,
            channel.stats.captured == 0,
            channel.stats.overwritten == 0,
            channel.stats.errors == 0,
            channel.stats.measured_fps.bits == 0,
            channel.stats.decode_ms.bits == 0,
            channel.stats.last_error is None,
            channel.stats.negotiated is None,
            channel.stats.controls@.len() == 0,
    {
        CameraChannel {
            slot: Slot { frame: None, unread: false },
            stats: CameraStats::default(),
            last_frame_at: None,
        }
    }

    /// The most recent frame, without consuming it. Used by the preview.
    pub fn peek(&self) -> (frame: Option<&F>)
        ensures
            match frame {
                Some(frame) => self.slot.frame == Some(*frame),
                None => self.slot.frame is None,
            },
    {
        self.slot.frame.as_ref()
    }

    /// The most recent frame if it has not been taken yet. Used by the
    /// pipeline, so that `overwritten` counts frames that were really missed.
    pub fn take(&mut self) -> (frame: Option<&F>)
        requires
            old(self).well_formed(),
        ensures
            match frame {
                Some(frame) => old(self).slot.unread && old(self).slot.frame == Some(*frame),
                None => !old(self).slot.unread,
            },
            final(self).well_formed(),
            *final(self) == (CameraChannel {
                slot: Slot { unread: false, ..old(self).slot },
                ..*old(self)
            }),
    {
        if !self.slot.unread {
            return None;
        }
        self.slot.unread = false;
        self.slot.frame.as_ref()
    }

    /// Puts a frame into the mailbox, over the one that is there, and hands back
    /// how long ago the previous one came, where any time passed.
    pub fn publish(&mut self, frame: F, captured_at: Instant) -> (gap: Option<Duration>)
        requires
            old(self).stats.captured < u64::MAX,
            old(self).stats.overwritten < u64::MAX,
        ensures
            final(self).well_formed(),
            *final(self) == (CameraChannel {
                slot: Slot { frame: Some(frame), unread: true },
                stats: CameraStats {
                    captured: (old(self).stats.captured + 1) as u64,
                    overwritten: if old(self).slot.unread {
                        (old(self).stats.overwritten + 1) as u64
                    } else {
                        old(self).stats.overwritten
                    },
                    ..old(self).stats
                },
                last_frame_at: Some(captured_at),
            }),
            gap == match old(self).last_frame_at {
                Some(previous) => if since(captured_at, previous) > 0 {
                    Some(Duration { nanos: since(captured_at, previous) as u64 })
                } else {
                    None
                },
                None => None,
            },
    {
        if self.slot.unread {
            self.stats.overwritten = self.stats.overwritten + 1;
        }
        self.slot.frame = Some(frame);
        self.slot.unread = true;
        self.stats.captured = self.stats.captured + 1;
        let previous: Option<Instant> = self.last_frame_at;
        self.last_frame_at = Some(captured_at);
        match previous {
            Some(previous) => {
                let gap: Duration = captured_at.saturating_duration_since(previous);
                if gap.is_zero() {
                    None
                } else {
                    Some(gap)
                }
            },
            None => None,
        }
    }

    /// Takes note of how the camera is doing.
    pub fn set_state(&mut self, state: CameraState)
        ensures
            *final(self) == (CameraChannel {
                stats: CameraStats { state, ..old(self).stats },
                ..*old(self)
            }),
    {
        self.stats.state = state;
    }

    /// Takes note of what the source settled on.
    pub fn set_negotiated(&mut self, format: NegotiatedFormat)
        ensures
            *final(self) == (CameraChannel {
                stats: CameraStats { negotiated: Some(format), ..old(self).stats },
                ..*old(self)
            }),
    {
        self.stats.negotiated = Some(format);
    }

    /// Takes note of a failure.
    pub fn fail(&mut self, message: String)
        requires
            old(self).stats.errors < u64::MAX,
        ensures
            *final(self) == (CameraChannel {
                stats: CameraStats {
                    state: CameraState::Failed,
                    errors: (old(self).stats.errors + 1) as u64,
                    last_error: Some(message),
                    ..old(self).stats
                },
                ..*old(self)
            }),
    {
        self.stats.state = CameraState::Failed;
        self.stats.errors = self.stats.errors + 1;
        self.stats.last_error = Some(message);
    }

    /// Takes note of one property as it was read back.
    ///
    /// Read back rather than assumed: devices clamp, round to their step size,
    /// and sometimes refuse outright.
    pub fn update_control(&mut self, info: ControlInfo)
        ensures
            final(self).stats.controls@ == with_control(old(self).stats.controls@, info),
            *final(self) == (CameraChannel {
                stats: CameraStats { controls: final(self).stats.controls, ..old(self).stats },
                ..*old(self)
            }),
    {
        let ghost same = |control: ControlInfo| control.name == info.name;
        let mut i: usize = 0;
        while i < self.stats.controls.len()
            invariant
                i <= self.stats.controls.len(),
                *self == *old(self),
                same == (|control: ControlInfo| control.name == info.name),
                forall|k: int| 0 <= k < i ==> !same(#[trigger] self.stats.controls@[k]),
            decreases self.stats.controls.len() - i,
        {
            if self.stats.controls[i].name == info.name {
                proof {
                    lemma_first_where_is(self.stats.controls@, same, i as int);
                }
                self.stats.controls.set(i, info);
                return;
            }
            i = i + 1;
        }
        proof {
            lemma_first_where_is(self.stats.controls@, same, i as int);
        }
        self.stats.controls.push(info);
    }
}

/// What became of the frames of a camera.
pub struct Account {
    pub captured: nat,
    pub overwritten: nat,
    pub taken: nat,
    /// Whether the frame in the mailbox is still to be taken.
    pub unread: bool,
}

/// The account after a frame was published or asked for.
pub open spec fn accounted(account: Account, published: bool) -> Account {
    let waiting: nat = if account.unread {
        1
    } else {
        0
    };
    if published {
        Account {
            captured: account.captured + 1,
            overwritten: account.overwritten + waiting,
            unread: true,
            ..account
        }
    } else {
        Account { taken: account.taken + waiting, unread: false, ..account }
    }
}

/// The account after a history of frames published (true) and asked for (false).
pub open spec fn account_of(history: Seq<bool>) -> Account
    decreases history.len(),
{
    if history.len() == 0 {
        Account { captured: 0, overwritten: 0, taken: 0, unread: false }
    } else {
        accounted(account_of(history.drop_last()), history.last())
    }
}

/// Every frame was taken once, was overwritten, or is still waiting: none is lost
/// without being counted, and none is handed out twice.
pub proof fn every_frame_is_accounted_for(history: Seq<bool>)
    ensures
        ({
            let account = account_of(history);
            account.captured == account.taken + account.overwritten + if account.unread {
                1nat
            } else {
                0nat
            }
        }),
    decreases history.len(),
{
    if history.len() > 0 {
        every_frame_is_accounted_for(history.drop_last());
    }
}

/// How long a camera that could not be opened is left alone at first, in
/// nanoseconds.
pub const FIRST_WAIT: u64 = 500_000_000;

/// How long it is left alone at most, in nanoseconds.
pub const LONGEST_WAIT: u64 = 5_000_000_000;

/// How often the property values are re-read while streaming, in nanoseconds.
/// Properties the device regulates itself drift, and the UI should show that,
/// but each read is a driver round trip so it is not done per frame.
pub const CONTROL_REFRESH: u64 = 2_000_000_000;

/// What keeps a camera thread going: how long to wait before opening the camera
/// again, which frame comes next, and when the properties were last read.
///
/// A webcam that briefly drops off the bus should recover on its own rather than
/// requiring the user to restart tracking.
#[derive(Debug, Clone, Copy, PartialEq, Eq, Structural)]
pub struct CameraRun {
    pub backoff: Duration,
    pub seq: u64,
    pub refreshed: Instant,
}

/// The wait after one more failure to open: twice as long, up to a limit.
pub open spec fn doubled_wait(wait: int) -> int {
    if 2 * wait <= LONGEST_WAIT {
        2 * wait
    } else {
        LONGEST_WAIT as int
    }
}

/// What happens to a camera thread.
#[derive(Debug, Clone, Copy, PartialEq, Eq, Structural)]
pub enum RunEvent {
    /// The camera was opened.
    Opened,
    /// The camera could not be opened.
    OpenFailed,
    /// A frame was numbered.
    Numbered,
}

/// The number of the last frame, after something happened to the thread. Frames
/// go on being numbered from where they were when the camera comes back, so no
/// number is ever given twice.
pub open spec fn seq_after(seq: int, event: RunEvent) -> int {
    match event {
        RunEvent::Numbered => seq + 1,
        _ => seq,
    }
}

/// The number of the last frame, after a history of events.
pub open spec fn last_number(events: Seq<RunEvent>) -> int
    decreases events.len(),
{
    if events.len() == 0 {
        0
    } else {
        seq_after(last_number(events.drop_last()), events.last())
    }
}

/// Of two frames of a camera the later has the higher number, however often the
/// camera was lost and opened again in between.
pub proof fn frame_numbers_only_grow(events: Seq<RunEvent>, earlier: int, later: int)
    requires
        0 <= earlier < later < events.len(),
        events[earlier] == RunEvent::Numbered,
        events[later] == RunEvent::Numbered,
    ensures
        0 < last_number(events.take(earlier + 1)) < last_number(events.take(later + 1)),
{
    lemma_numbers_grow(events, 0, earlier);
    lemma_numbers_grow(events, earlier + 1, later);
    assert(events.take(earlier + 1).drop_last() =~= events.take(earlier));
    assert(events.take(later + 1).drop_last() =~= events.take(later));
}

proof fn lemma_numbers_grow(events: Seq<RunEvent>, from: int, to: int)
    requires
        0 <= from <= to <= events.len(),
    ensures
        last_number(events.take(0)) == 0,
        last_number(events.take(from)) <= last_number(events.take(to)),
    decreases to,
{
    if from < to {
        lemma_numbers_grow(events, from, to - 1);
        assert(events.take(to).drop_last() =~= events.take(to - 1));
    }
}

impl CameraRun {
    /// Whether the wait is within its bounds.
    pub open spec fn well_formed(self) -> bool {
        FIRST_WAIT <= self.backoff.nanos <= LONGEST_WAIT
    }

    /// A thread that has just started.
    pub fn new(now: Instant) -> (run: Self)
        ensures
            run.well_formed(),
            run.backoff.nanos == FIRST_WAIT,
            run.seq == 0,
            run.refreshed == now,
    {
        CameraRun { backoff: Duration::from_nanos(FIRST_WAIT), seq: 0, refreshed: now }
    }

    /// Takes note that the camera was opened: the next failure waits as little
    /// as the first. The frames go on being numbered from where they were.
    pub fn opened(&mut self, now: Instant)
        ensures
            final(self).well_formed(),
            final(self).backoff.nanos == FIRST_WAIT,
            final(self).seq == seq_after(old(self).seq as int, RunEvent::Opened),
            final(self).refreshed == now,
    {
        self.backoff = Duration::from_nanos(FIRST_WAIT);
        self.refreshed = now;
    }

    /// Takes note that the camera could not be opened, and says how long to wait
    /// before trying again.
    pub fn open_failed(&mut self) -> (wait: Duration)
        requires
            old(self).well_formed(),
        ensures
            wait == old(self).backoff,
            final(self).well_formed(),
            final(self).backoff.nanos == doubled_wait(old(self).backoff.nanos as int),
            final(self).seq == seq_after(old(self).seq as int, RunEvent::OpenFailed),
            final(self).refreshed == old(self).refreshed,
    {
        let wait: Duration = self.backoff;
        let twice: Duration = Duration::from_nanos(self.backoff.nanos * 2);
        self.backoff = twice.shorter(Duration::from_nanos(LONGEST_WAIT));
        wait
    }

    /// Whether the properties are to be read again, which counts from now on if
    /// they are.
    pub fn refresh_due(&mut self, now: Instant) -> (due: bool)
        ensures
            due == (since(now, old(self).refreshed) >= CONTROL_REFRESH),
            *final(self) == (CameraRun {
                refreshed: if due {
                    now
                } else {
                    old(self).refreshed
                },
                ..*old(self)
            }),
    {
        if now.saturating_duration_since(self.refreshed).nanos >= CONTROL_REFRESH {
            self.refreshed = now;
            true
        } else {
            false
        }
    }

    /// The number of the next frame.
    pub fn next_seq(&mut self) -> (seq: u64)
        requires
            old(self).seq < u64::MAX,
        ensures
            seq == seq_after(old(self).seq as int, RunEvent::Numbered),
            *final(self) == (CameraRun { seq, ..*old(self) }),
    {
        self.seq = self.seq + 1;
        self.seq
    }
}

/// The wait after a number of failures in a row.
pub open spec fn wait_after(failures: nat) -> int
    decreases failures,
{
    if failures == 0 {
        FIRST_WAIT as int
    } else {
        doubled_wait(wait_after((failures - 1) as nat))
    }
}

/// The waits never shrink while the camera keeps failing, and from the fourth
/// failure on they are at their limit.
pub proof fn the_wait_grows_to_its_limit(failures: nat)
    ensures
        FIRST_WAIT <= wait_after(failures) <= wait_after(failures + 1) <= LONGEST_WAIT,
        failures >= 4 ==> wait_after(failures) == LONGEST_WAIT,
    decreases failures,
{
    if failures > 0 {
        the_wait_grows_to_its_limit((failures - 1) as nat);
    }
    if failures == 4 {
        reveal_with_fuel(wait_after, 6);
    }
}

/// The enabled ones among the first `n` cameras.
pub open spec fn enabled_among(configs: Seq<CameraConfig>, n: nat) -> Seq<int>
    decreases n,
{
    if n == 0 {
        Seq::empty()
    } else if configs[n - 1].enabled {
        enabled_among(configs, (n - 1) as nat).push(n - 1)
    } else {
        enabled_among(configs, (n - 1) as nat)
    }
}

/// Which of the configured cameras are started: every enabled one.
pub fn to_start(configs: &Vec<CameraConfig>) -> (cameras: Vec<usize>)
    ensures
        places(cameras@) == enabled_among(configs@, configs@.len()),
        cameras@.len() <= configs@.len(),
{
    let mut cameras: Vec<usize> = Vec::new();
    let mut i: usize = 0;
    proof {
        assert(places(cameras@) =~= Seq::empty());
    }
    while i < configs.len()
        invariant
            i <= configs.len(),
            cameras@.len() <= i,
            places(cameras@) == enabled_among(configs@, i as nat),
        decreases configs.len() - i,
    {
        let ghost before = cameras@;
        if configs[i].enabled {
            cameras.push(i);
            assert(places(cameras@) =~= places(before).push(i as int));
        }
        i = i + 1;
    }
    cameras
}

/// The name of a camera's thread.
pub fn thread_name(config: &CameraConfig) -> (name: String)
    ensures
        name@ == "capture:"@ + config.id@,
{
    let mut name = "capture:".to_owned();
    name.append(config.id.as_str());
    name
}

/// A property that is read back takes the place of what was known of it, and joins the
/// others where nothing was; the others stay.
pub proof fn a_property_is_known_once(controls: Seq<ControlInfo>, info: ControlInfo)
    ensures
        ({
            let after = with_control(controls, info);
            &&& after.contains(info)
            &&& after.len() == if exists|i: int|
                0 <= i < controls.len() && (#[trigger] controls[i]).name == info.name {
                controls.len()
            } else {
                controls.len() + 1
            }
            &&& forall|i: int|
                0 <= i < controls.len() && (#[trigger] controls[i]).name != info.name ==> after[i]
                    == controls[i]
            &&& forall|i: int, j: int|
                0 <= i < j < controls.len() && (#[trigger] controls[i]).name == info.name && (
                #[trigger] controls[j]).name == info.name ==> after[j] == controls[j]
        }),
{
    let named = |control: ControlInfo| control.name == info.name;
    lemma_first_where(controls, named);
    let at = first_where(controls, named);
    let after = with_control(controls, info);
    if at < controls.len() {
        assert(named(controls[at]));
        assert(controls[at].name == info.name);
        assert(after[at] == info);
        assert forall|i: int, j: int|
            0 <= i < j < controls.len() && (#[trigger] controls[i]).name == info.name && (
            #[trigger] controls[j]).name == info.name implies after[j] == controls[j] by {
            assert(named(controls[i]));
        }
    } else {
        assert(after[controls.len() as int] == info);
        assert forall|i: int| 0 <= i < controls.len() implies (#[trigger] controls[i]).name
            != info.name by {
            assert(!named(controls[i]));
        }
    }
}

/// The first wait is half a second, each is twice the one before, and none is longer
/// than five seconds.
pub proof fn each_wait_is_twice_the_one_before(failures: nat)
    ensures
        wait_after(0) == 500_000_000,
        wait_after(failures + 1) == 2 * wait_after(failures) || wait_after(failures + 1)
            == 5_000_000_000,
        wait_after(failures) <= 5_000_000_000,
        2 * wait_after(failures) <= 5_000_000_000 ==> wait_after(failures + 1) == 2 * wait_after(
            failures,
        ),
{
    the_wait_grows_to_its_limit(failures);
}

/// Exactly the cameras that are enabled are started, in order.
pub proof fn every_enabled_camera_is_started(configs: Seq<CameraConfig>, n: nat)
    requires
        n <= configs.len(),
    ensures
        ({
            let found = enabled_among(configs, n);
            &&& increasing(found)
            &&& forall|i: int| #[trigger]
                found.contains(i) <==> 0 <= i < n && configs[i].enabled
        }),
    decreases n,
{
    if n > 0 {
        every_enabled_camera_is_started(configs, (n - 1) as nat);
        let before = enabled_among(configs, (n - 1) as nat);
        lemma_grown(before, enabled_among(configs, n), configs[n - 1].enabled, n - 1);
    }
}

/// A frame that is numbered gets the next number, and nothing else takes one.
pub proof fn only_a_frame_takes_a_number(seq: int)
    ensures
        seq_after(seq, RunEvent::Numbered) == seq + 1,
        seq_after(seq, RunEvent::Opened) == seq,
        seq_after(seq, RunEvent::OpenFailed) == seq,
{
}

/// Any wait up to two and a half seconds is doubled, and any longer one becomes five;
/// what a device has to say of its properties is asked for again after two.
pub proof fn a_wait_is_doubled_up_to_five_seconds(wait: int)
    ensures
        wait <= 2_500_000_000 ==> doubled_wait(wait) == wait + wait,
        wait > 2_500_000_000 ==> doubled_wait(wait) == 5_000_000_000,
        CONTROL_REFRESH == 2_000_000_000,
{
}

/// A frame that is published counts as captured, and as overwritten too where one was
/// waiting; one that is taken counts only where one was waiting.
pub proof fn a_frame_that_waits_is_taken_or_overwritten(account: Account)
    ensures
        ({
            let (published, taken) = (accounted(account, true), accounted(account, false));
            &&& published.captured == account.captured + 1 && published.taken == account.taken
            &&& published.unread && !taken.unread
            &&& taken.captured == account.captured && taken.overwritten == account.overwritten
            &&& account.unread ==> published.overwritten == account.overwritten + 1 && taken.taken
                == account.taken + 1
            &&& !account.unread ==> published.overwritten == account.overwritten && taken.taken
                == account.taken
        }),
{
}

} // verus!
