//! How much the body is moving in ways a body cannot move.
//!
//! The measurement is the second difference: where the joint is now, minus
//! twice where it was, plus where it was before that. Anything moving at a
//! constant velocity contributes nothing to it, while noise registers at roughly
//! two and a half times its own amplitude.
//!
//! The median across joints rather than the mean, so that one badly seen ankle
//! does not become the whole body's verdict.

use vstd::prelude::*;

use crate::geometry::Point3;
use crate::list::{increasing, lemma_grown};
use crate::models::{all_joints_stand_at_their_index, Joint, JointMap, JOINTS};
use crate::order::{pick_ranked, ranked};
use crate::scalar::Scalar;

verus! {

/// 0.002
pub const WORTH_NAMING: u64 = 0x3f60_624d_d2f1_a9fc;

/// The last two positions of a joint, and how long it has been present. A joint
/// that blinked has no usable history.
#[derive(Debug, Clone, Copy, PartialEq, Eq, Structural)]
pub struct Track {
    pub previous: Option<Point3>,
    pub before: Option<Point3>,
    pub seen: u32,
}

/// Three positions of one joint on consecutive ticks, oldest first.
#[derive(Debug, Clone, Copy, PartialEq, Eq, Structural)]
pub struct Wobble {
    pub before: Point3,
    pub previous: Point3,
    pub now: Point3,
}

/// A joint that was not there.
pub open spec fn unseen() -> Track {
    Track { previous: None, before: None, seen: 0 }
}

/// A joint's history after one more tick.
pub open spec fn followed(track: Track, point: Option<Point3>) -> Track {
    match point {
        Some(point) => Track {
            previous: Some(point),
            before: track.previous,
            seen: if track.seen < u32::MAX {
                (track.seen + 1) as u32
            } else {
                track.seen
            },
        },
        None => unseen(),
    }
}

/// The three positions a tick completes, if they are consecutive.
pub open spec fn completed(track: Track, point: Option<Point3>) -> Option<Wobble> {
    match (point, track.previous, track.before) {
        (Some(now), Some(previous), Some(before)) => if track.seen >= 2 {
            Some(Wobble { before, previous, now })
        } else {
            None
        },
        _ => None,
    }
}

/// What the first `n` joints complete on a tick, in the order of the joints.
pub open spec fn all_completed(
    history: Seq<Track>,
    points: Seq<Option<Point3>>,
    n: nat,
) -> Seq<Wobble>
    decreases n,
{
    if n == 0 {
        Seq::empty()
    } else {
        let before = all_completed(history, points, (n - 1) as nat);
        match completed(history[n - 1], points[n - 1]) {
            Some(wobble) => before.push(wobble),
            None => before,
        }
    }
}

/// How settled one stage of the chain is.
#[derive(Debug, Clone)]
pub struct ShakeMeter {
    /// One entry per joint once the first tick has been seen.
    pub history: Vec<Track>,
}

impl View for ShakeMeter {
    type V = Seq<Track>;

    /// Each joint's history, by its index.
    open spec fn view(&self) -> Seq<Track> {
        if self.history@.len() == JOINTS {
            self.history@
        } else {
            Seq::new(JOINTS as nat, |i: int| unseen())
        }
    }
}

impl Default for ShakeMeter {
    fn default() -> (meter: Self)
        ensures
            meter@ == Seq::new(JOINTS as nat, |i: int| unseen()),
    {
        let meter = ShakeMeter { history: Vec::new() };
        assert(meter@ =~= Seq::new(JOINTS as nat, |i: int| unseen()));
        meter
    }
}

impl ShakeMeter {
    /// Takes one tick's worth of positions and hands back the joints whose
    /// second difference can be taken.
    ///
    /// Only once all three samples are consecutive. A joint that came back after
    /// a gap would otherwise report the gap as shake.
    pub fn observe(&mut self, points: &JointMap<Point3>) -> (wobbles: Vec<Wobble>)
        ensures
            wobbles@ == all_completed(old(self)@, points@, JOINTS as nat),
            forall|i: int|
                0 <= i < JOINTS ==> #[trigger] final(self)@[i] == followed(
                    old(self)@[i],
                    points@[i],
                ),
    {
        if self.history.len() != JOINTS {
            let mut fresh: Vec<Track> = Vec::new();
            while fresh.len() < JOINTS
                invariant
                    fresh.len() <= JOINTS,
                    forall|i: int| 0 <= i < fresh.len() ==> #[trigger] fresh@[i] == unseen(),
                decreases JOINTS - fresh.len(),
            {
                fresh.push(Track { previous: None, before: None, seen: 0 });
            }
            assert(fresh@ =~= self@);
            self.history = fresh;
        }
        let mut wobbles: Vec<Wobble> = Vec::new();
        let mut i: usize = 0;
        while i < JOINTS
            invariant
                i <= JOINTS,
                self.history@.len() == JOINTS,
                wobbles@ == all_completed(old(self)@, points@, i as nat),
                forall|k: int|
                    0 <= k < i ==> #[trigger] self.history@[k] == followed(
                        old(self)@[k],
                        points@[k],
                    ),
                forall|k: int| i <= k < JOINTS ==> #[trigger] self.history@[k] == old(self)@[k],
            decreases JOINTS - i,
        {
            let joint: Joint = Joint::ALL[i];
            proof {
                all_joints_stand_at_their_index(joint);
            }
            let track: Track = self.history[i];
            match points.get(joint) {
                Some(point) => {
                    if let (Some(previous), Some(before)) = (track.previous, track.before) {
                        if track.seen >= 2 {
                            wobbles.push(Wobble { before, previous, now: *point });
                        }
                    }
                    let seen: u32 = if track.seen < u32::MAX {
                        track.seen + 1
                    } else {
                        track.seen
                    };
                    self.history.set(
                        i,
                        Track { previous: Some(*point), before: track.previous, seen },
                    );
                },
                None => {
                    self.history.set(i, Track { previous: None, before: None, seen: 0 });
                },
            }
            i = i + 1;
        }
        wobbles
    }

    /// The typical joint's second difference on one tick, if any could be taken.
    pub fn typical(shakes: &Vec<Scalar>) -> (median: Option<Scalar>)
        ensures
            median == if shakes@.len() == 0 {
                None
            } else {
                Some(ranked(shakes@, shakes@.len() as int / 2))
            },
    {
        if shakes.len() == 0 {
            return None;
        }
        Some(pick_ranked(shakes, shakes.len() / 2))
    }
}

/// A joint contributes to the shake exactly when it has been there on this tick
/// and the two before it.
pub proof fn a_blink_reports_nothing(
    start: Track,
    first: Option<Point3>,
    second: Option<Point3>,
    third: Option<Point3>,
)
    requires
        start.seen > 0 ==> start.previous is Some,
    ensures
        completed(followed(followed(start, first), second), third) == match (first, second, third) {
            (Some(before), Some(previous), Some(now)) => Some(Wobble { before, previous, now }),
            _ => None,
        },
{
}

/// What each stage of the chain added to the shake, in metres, in the order of
/// the chain.
#[derive(Debug, Clone, Copy, PartialEq, Eq, Structural)]
pub struct Added {
    /// Straight out of the triangulation.
    pub raw: Scalar,
    /// By the skeleton fit holding the body together.
    pub fitted: Scalar,
    /// By the smoothing.
    pub filtered: Scalar,
    /// By the prediction, which is what the trackers are told.
    pub predicted: Scalar,
}

impl Added {
    /// What the stages added, in the order of the chain.
    pub open spec fn amounts(self) -> Seq<Scalar> {
        seq![self.raw, self.fitted, self.filtered, self.predicted]
    }

    /// Whether a stage added the most: more than the ones after it, and no less
    /// than the ones before it.
    pub open spec fn leads(self, stage: int) -> bool {
        &&& 0 <= stage < 4
        &&& forall|i: int|
            0 <= i < stage ==> (#[trigger] self.amounts()[i]).place()
                <= self.amounts()[stage].place()
        &&& forall|i: int|
            stage < i < 4 ==> (#[trigger] self.amounts()[i]).place()
                < self.amounts()[stage].place()
    }

    /// The stage that added the most, and how much, in metres.
    ///
    /// None when nothing stands out, which is the common and uninteresting
    /// case of a chain that is simply quiet.
    pub fn worst_stage(&self) -> (worst: Option<(&'static str, Scalar)>)
        ensures
            forall|stage: int| #[trigger]
                self.leads(stage) ==> match worst {
                    Some((name, added)) => {
                        &&& added == self.amounts()[stage]
                        &&& Scalar { bits: WORTH_NAMING }.less(added)
                        &&& name@ == stage_name(stage)@
                    },
                    None => !Scalar { bits: WORTH_NAMING }.less(self.amounts()[stage]),
                },
            exists|stage: int| self.leads(stage),
    {
        let mut name: &'static str = "the cameras";
        let mut most: Scalar = self.raw;
        let ghost mut stage: int = 0;
        if !self.fitted.precedes(most) {
            name = "the skeleton fit";
            most = self.fitted;
            proof {
                stage = 1;
            }
        }
        if !self.filtered.precedes(most) {
            name = "the smoothing";
            most = self.filtered;
            proof {
                stage = 2;
            }
        }
        if !self.predicted.precedes(most) {
            name = "the prediction";
            most = self.predicted;
            proof {
                stage = 3;
            }
        }
        proof {
            assert(self.leads(stage));
            assert forall|other: int| #[trigger] self.leads(other) implies other == stage by {
                if other < stage {
                    assert(self.amounts()[stage].place() < self.amounts()[other].place());
                } else if stage < other {
                    assert(self.amounts()[other].place() < self.amounts()[stage].place());
                }
            }
        }
        if Scalar::from_bits(WORTH_NAMING).lt(most) {
            Some((name, most))
        } else {
            None
        }
    }
}

/// What a stage of the chain is called.
pub open spec fn stage_name(stage: int) -> &'static str {
    if stage == 0 {
        "the cameras"
    } else if stage == 1 {
        "the skeleton fit"
    } else if stage == 2 {
        "the smoothing"
    } else {
        "the prediction"
    }
}

/// Whether wobbles are those of the joints at these places.
pub open spec fn wobbles_of(
    wobbles: Seq<Wobble>,
    from: Seq<int>,
    history: Seq<Track>,
    points: Seq<Option<Point3>>,
    n: int,
) -> bool {
    &&& from.len() == wobbles.len()
    &&& increasing(from)
    &&& forall|i: int| #[trigger]
        from.contains(i) <==> 0 <= i < n && points[i] is Some && history[i].previous is Some
            && history[i].before is Some && history[i].seen >= 2
    &&& forall|k: int|
        0 <= k < from.len() ==> wobbles[k].now == points[#[trigger] from[k]]->0
            && wobbles[k].previous == history[from[k]].previous->0 && wobbles[k].before
            == history[from[k]].before->0
}

/// A wobble comes of every joint that was there on this tick and the two before it,
/// with its place on the three, in the order of the joints, and of no other.
pub proof fn every_joint_seen_three_times_has_a_wobble(
    history: Seq<Track>,
    points: Seq<Option<Point3>>,
    n: nat,
)
    ensures
        exists|from: Seq<int>| #[trigger]
            wobbles_of(all_completed(history, points, n), from, history, points, n as int),
    decreases n,
{
    if n == 0 {
        assert(wobbles_of(
            all_completed(history, points, 0),
            Seq::<int>::empty(),
            history,
            points,
            0,
        ));
    } else {
        every_joint_seen_three_times_has_a_wobble(history, points, (n - 1) as nat);
        let earlier = all_completed(history, points, (n - 1) as nat);
        let before = choose|from: Seq<int>| #[trigger]
            wobbles_of(earlier, from, history, points, n - 1);
        let more = completed(history[n - 1], points[n - 1]) is Some;
        let from = if more {
            before.push(n - 1)
        } else {
            before
        };
        lemma_grown(before, from, more, n - 1);
        let wobbles = all_completed(history, points, n);
        assert forall|k: int| 0 <= k < from.len() implies wobbles[k].now
            == points[#[trigger] from[k]]->0 && wobbles[k].previous
            == history[from[k]].previous->0 && wobbles[k].before == history[from[k]].before->0 by {
            if k < before.len() {
                assert(from[k] == before[k]);
                assert(wobbles[k] == earlier[k]);
            }
        }
        assert(wobbles_of(wobbles, from, history, points, n as int));
    }
}

/// A joint's track holds where it was last and the time before, and starts over when
/// it is missed.
pub proof fn a_track_holds_the_last_two_places(track: Track, point: Point3)
    ensures
        ({
            let after = followed(track, Some(point));
            &&& after.previous == Some(point)
            &&& after.before == track.previous
            &&& track.seen < u32::MAX ==> after.seen == track.seen + 1
        }),
        ({
            let after = followed(track, None);
            after.previous is None && after.before is None && after.seen == 0
        }),
{
}

/// The stage that leads added no less than any before it and more than any after it,
/// in the order of the chain.
pub proof fn the_leading_stage_added_the_most(added: Added, stage: int)
    requires
        added.leads(stage),
    ensures
        0 <= stage < 4,
        ({
            let most = if stage == 0 {
                added.raw
            } else if stage == 1 {
                added.fitted
            } else if stage == 2 {
                added.filtered
            } else {
                added.predicted
            };
            &&& added.amounts()[stage] == most
            &&& added.raw.place() <= most.place()
            &&& added.fitted.place() <= most.place()
            &&& added.filtered.place() <= most.place()
            &&& added.predicted.place() <= most.place()
            &&& stage < 1 ==> added.fitted.place() < most.place()
            &&& stage < 2 ==> added.filtered.place() < most.place()
            &&& stage < 3 ==> added.predicted.place() < most.place()
        }),
        stage_name(0)@ == "the cameras"@,
        stage_name(1)@ == "the skeleton fit"@,
        stage_name(2)@ == "the smoothing"@,
        stage_name(3)@ == "the prediction"@,
{
    assert(added.amounts()[0] == added.raw);
    assert(added.amounts()[1] == added.fitted);
    assert(added.amounts()[2] == added.filtered);
    assert(added.amounts()[3] == added.predicted);
}

/// A stage is worth naming that adds two thousandths.
pub proof fn what_is_worth_naming()
    ensures
        WORTH_NAMING == 0x3f60_624d_d2f1_a9fc,
{
}

} // verus!
