//! A message that is allowed to change, but not quickly.
//!
//! Every panel reports what is wrong from live statistics, and live statistics
//! cross their thresholds constantly. Each crossing turns a warning on or off at
//! the repaint rate, and because a warning is a line of text, everything under it
//! moves by a line of text sixty times a second.
//!
//! So a notice is latched. It has to be asked for continuously before it appears,
//! and it stays for a good while after it stops being asked for.

use vstd::prelude::*;

use crate::scalar::Scalar;
use crate::time::{since, Instant};

verus! {

/// How urgent a notice is, which is all that decides how it is drawn.
#[derive(Debug, Clone, Copy, PartialEq, Eq, Structural)]
pub enum Level {
    /// Something is wrong and the stage is still running.
    Warning,
    /// Something is wrong and it is why nothing is happening.
    Problem,
}

/// How long a message has to be wanted before it appears, in nanoseconds.
///
/// Long enough to outlast a statistic crossing its threshold and coming
/// straight back, short enough that a real fault is reported while the user
/// is still looking at what caused it.
pub const APPEAR: u64 = 400_000_000;

/// How long a message stays after nothing is asking for it any more, in
/// nanoseconds.
///
/// Much longer, because this is the direction that takes a line of layout
/// away from under the pointer.
pub const LINGER: u64 = 2_500_000_000;

/// A message and how urgent it is.
#[derive(Debug, Clone)]
pub struct Message {
    pub text: String,
    pub level: Level,
}

/// A message as mathematical values.
pub struct MessageModel {
    pub text: Seq<char>,
    pub level: Level,
}

impl View for Message {
    type V = MessageModel;

    open spec fn view(&self) -> MessageModel {
        MessageModel { text: self.text@, level: self.level }
    }
}

/// What a message says, if there is one.
pub open spec fn said(message: Option<Message>) -> Option<MessageModel> {
    match message {
        Some(message) => Some(message@),
        None => None,
    }
}

/// A change that is wanted, and since when.
#[derive(Debug, Clone)]
pub struct Asked {
    /// What is wanted in place of what is shown.
    pub wanted: Option<Message>,
    /// When it was first wanted, without a break since.
    pub since: Instant,
}

/// A wanted change as mathematical values.
pub struct AskedModel {
    pub wanted: Option<MessageModel>,
    pub since: Instant,
}

impl View for Asked {
    type V = AskedModel;

    open spec fn view(&self) -> AskedModel {
        AskedModel { wanted: said(self.wanted), since: self.since }
    }
}

/// A latched message.
///
/// Held by the panel across frames, which is what gives it somewhere to
/// remember the last thing it was asked for.
#[derive(Debug, Clone)]
pub struct Notice {
    pub shown: Option<Message>,
    /// What the panel is asking for instead of what is shown, and since when.
    /// Cleared as soon as the two agree again, and begun anew as soon as the
    /// panel asks for something else.
    pub asked: Option<Asked>,
}

/// A latched message as mathematical values.
pub struct NoticeModel {
    pub shown: Option<MessageModel>,
    pub asked: Option<AskedModel>,
}

impl View for Notice {
    type V = NoticeModel;

    open spec fn view(&self) -> NoticeModel {
        NoticeModel {
            shown: said(self.shown),
            asked: match self.asked {
                Some(asked) => Some(asked@),
                None => None,
            },
        }
    }
}

/// How long a change has to be wanted before it is made.
pub open spec fn dwell(wanted: Option<MessageModel>) -> int {
    if wanted is None {
        LINGER as int
    } else {
        APPEAR as int
    }
}

impl NoticeModel {
    /// A notice that shows nothing and was asked for nothing.
    pub open spec fn blank() -> NoticeModel {
        NoticeModel { shown: None, asked: None }
    }

    /// Since when something has been wanted without a break, if it is wanted now.
    pub open spec fn wanted_since(self, wanted: Option<MessageModel>, now: Instant) -> Instant {
        match self.asked {
            Some(asked) if asked.wanted == wanted => asked.since,
            _ => now,
        }
    }

    /// The notice once it has been asked for something.
    pub open spec fn settled(self, wanted: Option<MessageModel>, now: Instant) -> NoticeModel {
        let start = self.wanted_since(wanted, now);
        if wanted == self.shown {
            NoticeModel { asked: None, ..self }
        } else if since(now, start) >= dwell(wanted) {
            NoticeModel { shown: wanted, asked: None }
        } else {
            NoticeModel { asked: Some(AskedModel { wanted, since: start }), ..self }
        }
    }
}

impl Default for Notice {
    fn default() -> (notice: Self)
        ensures
            notice@ == NoticeModel::blank(),
    {
        Notice { shown: None, asked: None }
    }
}

fn same(a: &Option<Message>, b: &Option<Message>) -> (same: bool)
    ensures
        same == (said(*a) == said(*b)),
{
    match (a, b) {
        (Some(a), Some(b)) => a.text == b.text && a.level == b.level,
        (None, None) => true,
        _ => false,
    }
}

impl Notice {
    /// Whether anything is currently being shown, for a caller that has to
    /// space around it.
    pub fn visible(&self) -> (visible: bool)
        ensures
            visible == self@.shown is Some,
    {
        self.shown.is_some()
    }

    /// Takes in what is wanted right now, and lets the message change if it has
    /// been wanted for long enough. Taking a line away is the change that hurts,
    /// so it is the slow one.
    pub fn settle(&mut self, wanted: Option<Message>, now: Instant)
        ensures
            final(self)@ == old(self)@.settled(said(wanted), now),
    {
        if same(&wanted, &self.shown) {
            self.asked = None;
            return;
        }
        let start: Instant = match &self.asked {
            Some(asked) => if same(&asked.wanted, &wanted) {
                asked.since
            } else {
                now
            },
            None => now,
        };
        let dwell: u64 = if wanted.is_none() {
            LINGER
        } else {
            APPEAR
        };
        if now.saturating_duration_since(start).nanos >= dwell {
            self.shown = wanted;
            self.asked = None;
        } else {
            self.asked = Some(Asked { wanted, since: start });
        }
    }
}

/// One time a notice was asked for something.
pub struct Call {
    pub wanted: Option<MessageModel>,
    pub now: Instant,
}

/// A new notice after a history of calls.
pub open spec fn settled_by(calls: Seq<Call>) -> NoticeModel
    decreases calls.len(),
{
    if calls.len() == 0 {
        NoticeModel::blank()
    } else {
        settled_by(calls.drop_last()).settled(calls.last().wanted, calls.last().now)
    }
}

/// Whether every call from one on wanted the same.
pub open spec fn wanted_from(calls: Seq<Call>, from: int, wanted: Option<MessageModel>) -> bool {
    &&& 0 <= from < calls.len()
    &&& forall|i: int| from <= i < calls.len() ==> (#[trigger] calls[i]).wanted == wanted
}

/// What a notice remembers being asked for was wanted on every call since then.
proof fn lemma_asked_without_a_break(calls: Seq<Call>)
    ensures
        match settled_by(calls).asked {
            Some(asked) => exists|from: int|
                #[trigger] wanted_from(calls, from, asked.wanted) && calls[from].now
                    == asked.since,
            None => true,
        },
    decreases calls.len(),
{
    if calls.len() > 0 {
        let before = settled_by(calls.drop_last());
        let last = calls.last();
        lemma_asked_without_a_break(calls.drop_last());
        if let Some(asked) = settled_by(calls).asked {
            if before.asked is Some && before.asked->0.wanted == last.wanted {
                let from = choose|from: int|
                    #[trigger] wanted_from(calls.drop_last(), from, asked.wanted)
                        && calls.drop_last()[from].now == asked.since;
                assert forall|i: int| from <= i < calls.len() implies (
                #[trigger] calls[i]).wanted == asked.wanted by {
                    if i < calls.len() - 1 {
                        assert(calls[i] == calls.drop_last()[i]);
                    }
                }
                assert(calls[from] == calls.drop_last()[from]);
                assert(wanted_from(calls, from, asked.wanted));
            } else {
                assert(wanted_from(calls, calls.len() - 1, asked.wanted));
            }
        }
    }
}

/// Whatever is newly shown was what every call wanted for at least its dwell: a
/// message that was asked for now and then, or in turn with another, does not
/// appear, and the line is not taken away while anything asks for it.
pub proof fn what_is_newly_shown_was_wanted_throughout(calls: Seq<Call>)
    requires
        calls.len() > 0,
        settled_by(calls).shown != settled_by(calls.drop_last()).shown,
    ensures
        exists|from: int|
            #[trigger] wanted_from(calls, from, settled_by(calls).shown)
                && calls.last().now.nanos - calls[from].now.nanos >= dwell(
                settled_by(calls).shown,
            ),
{
    let before = settled_by(calls.drop_last());
    let wanted = calls.last().wanted;
    lemma_asked_without_a_break(calls.drop_last());
    let from = choose|from: int|
        #[trigger] wanted_from(calls.drop_last(), from, wanted) && calls.drop_last()[from].now
            == before.asked->0.since;
    assert forall|i: int| from <= i < calls.len() implies (#[trigger] calls[i]).wanted
        == wanted by {
        if i < calls.len() - 1 {
            assert(calls[i] == calls.drop_last()[i]);
        }
    }
    assert(calls[from] == calls.drop_last()[from]);
    assert(wanted_from(calls, from, wanted));
}

/// A message that is asked for without a break appears once the dwell is over,
/// and then stays for as long as it is asked for.
pub proof fn a_message_that_holds_appears_and_stays(
    notice: NoticeModel,
    wanted: Option<MessageModel>,
    start: Instant,
    now: Instant,
    later: Instant,
)
    requires
        notice.shown != wanted,
        notice.asked is None || notice.asked->0.wanted != wanted,
        start.nanos + dwell(wanted) <= now.nanos,
    ensures
        ({
            let asked = notice.settled(wanted, start);
            let settled = asked.settled(wanted, now);
            &&& asked == (NoticeModel {
                asked: Some(AskedModel { wanted, since: start }),
                ..notice
            })
            &&& settled.shown == wanted
            &&& settled.settled(wanted, later).shown == wanted
        }),
{
}

/// A threshold that has to be crossed properly to count.
///
/// A notice only settles quickly when the thing it is reporting settles, and a
/// bare comparison never does. This makes the way in and the way out different
/// numbers, so a statistic sitting on the limit stays wherever it already was
/// rather than reporting both answers at once.
#[derive(Debug, Clone, Copy, PartialEq, Eq, Structural)]
pub struct Threshold {
    pub over: bool,
}

impl Default for Threshold {
    fn default() -> (threshold: Self)
        ensures
            !threshold.over,
    {
        Threshold { over: false }
    }
}

impl Threshold {
    /// True once `value` is over `limit`, and only false again once it has come
    /// back to `release`, which is the limit less its margin.
    pub fn over(&mut self, value: Scalar, limit: Scalar, release: Scalar) -> (over: bool)
        ensures
            over == if old(self).over {
                release.less(value)
            } else {
                limit.less(value)
            },
            final(self).over == over,
    {
        self.over = if self.over {
            release.lt(value)
        } else {
            limit.lt(value)
        };
        self.over
    }
}

/// A value between the release and the limit changes no answer.
pub proof fn a_threshold_holds_between_its_limits(
    over: bool,
    value: Scalar,
    limit: Scalar,
    release: Scalar,
)
    requires
        release.less(value),
        value.at_most(limit),
    ensures
        over == if over {
            release.less(value)
        } else {
            limit.less(value)
        },
{
}

/// A message that is asked for appears four tenths of a second later, no sooner; one
/// that is no longer asked for goes two and a half seconds later, no sooner.
pub proof fn a_message_appears_sooner_than_it_goes(
    notice: NoticeModel,
    wanted: Option<MessageModel>,
    now: Instant,
)
    requires
        notice.shown != wanted,
        notice.asked is Some,
        notice.asked->0.wanted == wanted,
        notice.asked->0.since.nanos <= now.nanos,
    ensures
        ({
            let after = notice.settled(wanted, now);
            let passed = now.nanos - notice.asked->0.since.nanos;
            &&& wanted is Some ==> (after.shown == wanted <==> passed >= 400_000_000)
            &&& wanted is None ==> (after.shown == wanted <==> passed >= 2_500_000_000)
            &&& after.shown == wanted ==> after.asked is None
            &&& after.shown != wanted ==> after == notice
        }),
{
}

/// Asking for what is shown changes nothing of it and forgets any other change.
pub proof fn asking_for_what_is_shown_keeps_it(notice: NoticeModel, now: Instant)
    ensures
        notice.settled(notice.shown, now).shown == notice.shown,
        notice.settled(notice.shown, now).asked is None,
{
}

} // verus!
