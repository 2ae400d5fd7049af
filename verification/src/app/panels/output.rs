//! Where the trackers go, and whether they are arriving.
//!
//! What this has to be good at is the case where nothing appears in the game,
//! which is almost never a fault here. It is a camera that cannot see the feet, a
//! room profile that was never loaded, or a consumer listening on a different
//! port. So the panel leads with which of those it is rather than with a row of
//! zeroes.

use vstd::prelude::*;

use crate::app::panels::notice::{said, Level, Message, MessageModel, Notice, NoticeModel};
use crate::config::{enabled_among, OutputConfig, TrackerConfig};
use crate::list::{first_where, lemma_filter_step, lemma_first_where_is};
use crate::output::{TrackerRole, ROLES};
use crate::scalar::{lemma_worth_increases, Scalar};

verus! {

/// 0.02: uncertainty a tracker is good at, in metres.
pub const GOOD_SIGMA: u64 = 0x3f94_7ae1_47ae_147b;

/// 0.05: uncertainty past which a tracker is not worth driving a limb from.
pub const POOR_SIGMA: u64 = 0x3fa9_9999_9999_999a;

/// 90.0
pub const MOSTLY_LIVE: u64 = 0x4056_8000_0000_0000;

/// 50.0
pub const HALF_LIVE: u64 = 0x4049_0000_0000_0000;

/// 250.0: how far ahead a prediction reads as far, in milliseconds.
pub const FAR_AHEAD: u64 = 0x406f_4000_0000_0000;

/// How good a figure is, which is all that decides its colour.
#[derive(Debug, Clone, Copy, PartialEq, Eq, Structural)]
pub enum Grade {
    Good,
    Fair,
    Bad,
}

/// How one tracker is doing.
#[derive(Debug, Clone, Copy, PartialEq, Eq, Structural)]
pub struct TrackerReport {
    pub role: TrackerRole,
    /// Whether it is not being sent.
    pub lost: bool,
    /// How much of the time it is being sent, in percent.
    pub live: Scalar,
    /// How well it is located, in metres.
    pub sigma: Scalar,
    pub inferred: bool,
}

/// What the output panel remembers.
#[derive(Debug, Clone)]
pub struct OutputPanel {
    /// Whatever is wrong, held steady. The trackers section under it is a grid
    /// of checkboxes, and a line appearing above them moves every one.
    pub notice: Notice,
}

impl Default for OutputPanel {
    fn default() -> (panel: Self)
        ensures
            panel.notice@ == NoticeModel::blank(),
    {
        OutputPanel { notice: Notice::default() }
    }
}

/// How many of the trackers are being sent.
pub fn live_trackers(trackers: &Vec<TrackerReport>) -> (live: usize)
    ensures
        live == trackers@.filter(|tracker: TrackerReport| !tracker.lost).len(),
{
    let ghost wanted = |tracker: TrackerReport| !tracker.lost;
    let mut live: usize = 0;
    let mut i: usize = 0;
    proof {
        assert(trackers@.take(0).filter(wanted).len() == 0) by {
            reveal(Seq::filter);
        }
    }
    while i < trackers.len()
        invariant
            i <= trackers.len(),
            live <= i,
            wanted == (|tracker: TrackerReport| !tracker.lost),
            live == trackers@.take(i as int).filter(wanted).len(),
        decreases trackers.len() - i,
    {
        proof {
            lemma_filter_step(trackers@, wanted, i as int);
        }
        if !trackers[i].lost {
            live = live + 1;
        }
        i = i + 1;
    }
    proof {
        assert(trackers@.take(i as int) =~= trackers@);
    }
    live
}

/// How the reach of the prediction is coloured: the number that explains
/// everything else about how it feels.
pub fn lead_grade(lead_ms: Scalar) -> (grade: Grade)
    ensures
        grade == if Scalar::of(FAR_AHEAD).less(lead_ms) {
            Grade::Fair
        } else {
            Grade::Good
        },
{
    if Scalar::from_bits(FAR_AHEAD).lt(lead_ms) {
        Grade::Fair
    } else {
        Grade::Good
    }
}

/// What the panel wants to say while trackers are going out: a problem before a
/// warning.
pub fn wanted_notice(problem: Option<String>, warning: Option<String>) -> (wanted: Option<Message>)
    ensures
        said(wanted) == match (problem, warning) {
            (Some(text), _) => Some(MessageModel { text: text@, level: Level::Problem }),
            (None, Some(text)) => Some(MessageModel { text: text@, level: Level::Warning }),
            (None, None) => None,
        },
{
    match problem {
        Some(text) => Some(Message { text, level: Level::Problem }),
        None => match warning {
            Some(text) => Some(Message { text, level: Level::Warning }),
            None => None,
        },
    }
}

/// One prerequisite, whether it is met, and where to go if it is not.
#[derive(Debug, Clone, Copy)]
pub struct Check {
    pub needed: &'static str,
    pub met: bool,
    pub remedy: &'static str,
}

/// What has to hold before trackers go out.
pub fn checklist(config: &OutputConfig, fusing: bool) -> (checks: [Check; 3])
    ensures
        checks[0].met == config.enabled,
        checks[1].met == (enabled_among(config.trackers@).len() > 0),
        checks[2].met == fusing,
        checks[0].needed@ == "Output enabled"@,
        checks[1].needed@ == "At least one tracker chosen"@,
        checks[2].needed@ == "A body being reconstructed"@,
        checks[0].remedy@ == "turn it on under Settings below"@,
        checks[1].remedy@ == "choose them under Trackers below"@,
        checks[2].remedy@ == "start it in the Tracking panel"@,
{
    let chosen: bool = config.enabled_roles().len() > 0;
    [
        Check {
            needed: "Output enabled",
            met: config.enabled,
            remedy: "turn it on under Settings below",
        },
        Check {
            needed: "At least one tracker chosen",
            met: chosen,
            remedy: "choose them under Trackers below",
        },
        Check {
            needed: "A body being reconstructed",
            met: fusing,
            remedy: "start it in the Tracking panel",
        },
    ]
}

/// How many of the first `n` trackers are on.
pub open spec fn on_before(trackers: Seq<TrackerConfig>, n: nat) -> nat
    decreases n,
{
    if n == 0 {
        0
    } else {
        on_before(trackers, (n - 1) as nat) + if trackers[n - 1].enabled {
            1nat
        } else {
            0nat
        }
    }
}

/// The index each tracker goes out as, for those that are on.
///
/// It depends on which others are on, so it is worked out from the same list the
/// checkboxes edit rather than from whatever the running stage happens to have.
pub fn sent_as(trackers: &Vec<TrackerConfig>) -> (indices: Vec<Option<u8>>)
    requires
        on_before(trackers@, trackers@.len()) <= 255,
    ensures
        indices@.len() == trackers@.len(),
        forall|i: int|
            0 <= i < trackers@.len() ==> #[trigger] indices@[i] == if trackers@[i].enabled {
                Some((on_before(trackers@, i as nat) + 1) as u8)
            } else {
                None
            },
{
    let mut indices: Vec<Option<u8>> = Vec::new();
    let mut index: u8 = 0;
    let mut i: usize = 0;
    while i < trackers.len()
        invariant
            i <= trackers.len(),
            on_before(trackers@, trackers@.len()) <= 255,
            indices@.len() == i,
            index == on_before(trackers@, i as nat),
            forall|k: int|
                0 <= k < i ==> #[trigger] indices@[k] == if trackers@[k].enabled {
                    Some((on_before(trackers@, k as nat) + 1) as u8)
                } else {
                    None
                },
        decreases trackers.len() - i,
    {
        proof {
            lemma_count_grows(trackers@, i + 1, trackers@.len() as int);
        }
        if trackers[i].enabled {
            index = index + 1;
            indices.push(Some(index));
        } else {
            indices.push(None);
        }
        i = i + 1;
    }
    indices
}

/// The trackers that are on are numbered from one without a gap: each gets the
/// number after that of the one before it.
pub proof fn the_numbering_has_no_gaps(trackers: Seq<TrackerConfig>, i: int, j: int)
    requires
        0 <= i < j < trackers.len(),
        trackers[i].enabled,
        trackers[j].enabled,
        forall|k: int| i < k < j ==> !(#[trigger] trackers[k]).enabled,
    ensures
        on_before(trackers, j as nat) == on_before(trackers, i as nat) + 1,
    decreases j - i,
{
    if j == i + 1 {
    } else {
        assert(!trackers[j - 1].enabled);
        lemma_same_count(trackers, i + 1, j);
    }
}

proof fn lemma_count_grows(trackers: Seq<TrackerConfig>, from: int, to: int)
    requires
        0 <= from <= to <= trackers.len(),
    ensures
        on_before(trackers, from as nat) <= on_before(trackers, to as nat),
    decreases to - from,
{
    if from < to {
        lemma_count_grows(trackers, from, to - 1);
    }
}

proof fn lemma_same_count(trackers: Seq<TrackerConfig>, from: int, to: int)
    requires
        0 <= from <= to <= trackers.len(),
        forall|k: int| from <= k < to ==> !(#[trigger] trackers[k]).enabled,
    ensures
        on_before(trackers, from as nat) == on_before(trackers, to as nat),
    decreases to - from,
{
    if from < to {
        lemma_same_count(trackers, from, to - 1);
        assert(!trackers[to - 1].enabled);
    }
}

/// The report of a role, if there is one.
pub fn report_for(reports: &Vec<TrackerReport>, role: TrackerRole) -> (report: Option<
    TrackerReport,
>)
    ensures
        ({
            let at = first_where(reports@, |report: TrackerReport| report.role == role);
            match report {
                Some(report) => at < reports@.len() && report == reports@[at],
                None => at == reports@.len(),
            }
        }),
{
    let ghost wanted = |report: TrackerReport| report.role == role;
    let mut i: usize = 0;
    while i < reports.len()
        invariant
            i <= reports.len(),
            wanted == (|report: TrackerReport| report.role == role),
            forall|k: int| 0 <= k < i ==> !wanted(#[trigger] reports@[k]),
        decreases reports.len() - i,
    {
        if reports[i].role == role {
            proof {
                lemma_first_where_is(reports@, wanted, i as int);
            }
            return Some(reports[i]);
        }
        i = i + 1;
    }
    proof {
        lemma_first_where_is(reports@, wanted, i as int);
    }
    None
}

/// How reliably a tracker is reaching the consumer.
#[derive(Debug, Clone, Copy, PartialEq, Eq, Structural)]
pub enum Arrival {
    /// It is not switched on.
    Off,
    /// Nothing is known of it.
    Unknown,
    /// It is not being sent.
    Lost,
    /// It is being sent, this reliably.
    Live(Grade),
}

/// How reliably a tracker is reaching the consumer.
pub fn arriving(enabled: bool, report: Option<TrackerReport>) -> (arrival: Arrival)
    ensures
        arrival == if !enabled {
            Arrival::Off
        } else {
            match report {
                None => Arrival::Unknown,
                Some(report) => if report.lost {
                    Arrival::Lost
                } else if Scalar::of(MOSTLY_LIVE).less(report.live) {
                    Arrival::Live(Grade::Good)
                } else if Scalar::of(HALF_LIVE).less(report.live) {
                    Arrival::Live(Grade::Fair)
                } else {
                    Arrival::Live(Grade::Bad)
                },
            }
        },
{
    if !enabled {
        return Arrival::Off;
    }
    match report {
        None => Arrival::Unknown,
        Some(report) => if report.lost {
            Arrival::Lost
        } else if Scalar::from_bits(MOSTLY_LIVE).lt(report.live) {
            Arrival::Live(Grade::Good)
        } else if Scalar::from_bits(HALF_LIVE).lt(report.live) {
            Arrival::Live(Grade::Fair)
        } else {
            Arrival::Live(Grade::Bad)
        },
    }
}

/// How well a tracker is located, where it is being sent.
pub fn uncertainty(report: Option<TrackerReport>) -> (grade: Option<Grade>)
    ensures
        grade == match report {
            Some(report) => if report.lost {
                None
            } else if report.sigma.at_most(Scalar::of(GOOD_SIGMA)) {
                Some(Grade::Good)
            } else if report.sigma.at_most(Scalar::of(POOR_SIGMA)) {
                Some(Grade::Fair)
            } else {
                Some(Grade::Bad)
            },
            None => None,
        },
{
    match report {
        Some(report) => if report.lost {
            None
        } else if report.sigma.le(Scalar::from_bits(GOOD_SIGMA)) {
            Some(Grade::Good)
        } else if report.sigma.le(Scalar::from_bits(POOR_SIGMA)) {
            Some(Grade::Fair)
        } else {
            Some(Grade::Bad)
        },
        None => None,
    }
}

/// Whether a role is essential and not among those that are on.
pub open spec fn missed(enabled: Seq<TrackerRole>) -> spec_fn(TrackerRole) -> bool {
    |role: TrackerRole| role.essential() && !enabled.contains(role)
}

fn among(roles: &Vec<TrackerRole>, role: TrackerRole) -> (found: bool)
    ensures
        found == roles@.contains(role),
{
    let mut i: usize = 0;
    while i < roles.len()
        invariant
            i <= roles.len(),
            forall|k: int| 0 <= k < i ==> roles@[k] != role,
        decreases roles.len() - i,
    {
        if roles[i] == role {
            return true;
        }
        i = i + 1;
    }
    false
}

/// Roles the essential set is missing.
pub fn missing_essentials(config: &OutputConfig) -> (missing: Vec<TrackerRole>)
    ensures
        missing@ == TrackerRole::ALL@.filter(missed(enabled_among(config.trackers@))),
{
    let enabled = config.enabled_roles();
    let ghost all = TrackerRole::ALL@;
    let ghost wanted = missed(enabled@);
    let mut missing: Vec<TrackerRole> = Vec::new();
    let mut i: usize = 0;
    proof {
        assert(all.take(0).filter(wanted) =~= Seq::empty()) by {
            reveal(Seq::filter);
        }
    }
    while i < ROLES
        invariant
            i <= ROLES,
            all == TrackerRole::ALL@,
            wanted == missed(enabled@),
            missing@ == all.take(i as int).filter(wanted),
        decreases ROLES - i,
    {
        proof {
            lemma_filter_step(all, wanted, i as int);
        }
        let role: TrackerRole = TrackerRole::ALL[i];
        if role.is_essential() && !among(&enabled, role) {
            missing.push(role);
        }
        i = i + 1;
    }
    proof {
        assert(all.take(i as int) =~= all);
    }
    missing
}

/// The first tracker that is on has none before it.
pub proof fn the_numbering_starts_at_the_first(trackers: Seq<TrackerConfig>, i: int)
    requires
        0 <= i < trackers.len(),
        forall|k: int| 0 <= k < i ==> !(#[trigger] trackers[k]).enabled,
    ensures
        on_before(trackers, i as nat) == 0,
{
    lemma_same_count(trackers, 0, i);
}

/// A role is missed exactly if it is the hip or a foot and is not on.
pub proof fn only_the_hip_and_the_feet_are_missed(enabled: Seq<TrackerRole>, role: TrackerRole)
    ensures
        missed(enabled)(role) <==> (role == TrackerRole::Hip || role == TrackerRole::LeftFoot
            || role == TrackerRole::RightFoot) && !enabled.contains(role),
{
}

/// Two centimetres is a good place for a tracker and five a poor one; nine times in ten
/// is often and every other time is not; a quarter of a second is far ahead.
pub proof fn what_a_tracker_is_held_to()
    ensures
        GOOD_SIGMA == 0x3f94_7ae1_47ae_147b,
        POOR_SIGMA == 0x3fa9_9999_9999_999a,
        MOSTLY_LIVE == 0x4056_8000_0000_0000,
        HALF_LIVE == 0x4049_0000_0000_0000,
        FAR_AHEAD == 0x406f_4000_0000_0000,
        Scalar::of(GOOD_SIGMA).less(Scalar::of(POOR_SIGMA)),
        Scalar::of(HALF_LIVE).less(Scalar::of(MOSTLY_LIVE)),
{
    lemma_worth_increases(GOOD_SIGMA as int, POOR_SIGMA as int);
    lemma_worth_increases(HALF_LIVE as int, MOSTLY_LIVE as int);
}

} // verus!
