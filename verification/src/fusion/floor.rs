//! Measuring the floor the user is standing on.
//!
//! Everything is expressed against SteamVR's idea of the floor, and nothing
//! else ever checks that idea. But the cameras can see the feet, and a foot on
//! the ground *is* the floor, which makes this an independent measurement of a
//! quantity the rest of the application takes on trust.
//!
//! It reports and does not correct. A floor that disagrees means the room setup
//! is wrong, and quietly compensating for it here would leave every other
//! application on the machine with the user underground.

use std::collections::VecDeque;

use vstd::prelude::*;

use crate::fusion::fuse::{FusedJoint, Pose3d};
use crate::models::{all_joints_stand_at_their_index, Joint, JOINTS};
use crate::order::{pick_ranked, ranked};
use crate::scalar::Scalar;

verus! {

/// Joints that touch the ground.
///
/// The toe and heel rather than the ankle: the ankle sits some way above the
/// sole, by an amount that varies with the person and their shoes.
pub const GROUNDED: [Joint; 4] = [
    Joint::LeftHeel,
    Joint::RightHeel,
    Joint::LeftBigToe,
    Joint::RightBigToe,
];

/// 0.05
const MAX_SIGMA: u64 = 0x3fa9_9999_9999_999a;

/// 0.06
const TOLERANCE: u64 = 0x3fae_b851_eb85_1eb8;

/// Positive infinity.
pub const INFINITY: u64 = 0x7ff0_0000_0000_0000;

/// What the meter accepts.
#[derive(Debug, Clone, Copy, PartialEq, Eq, Structural)]
pub struct FloorOptions {
    /// Positional uncertainty a foot must be under to count, in metres.
    pub max_sigma: Scalar,
    /// Samples kept. At sixty a second this is a few seconds of walking, which
    /// is enough for several footfalls.
    pub capacity: usize,
    /// Samples needed before the estimate is offered at all.
    pub min_samples: usize,
    /// How far the measured floor may sit from zero before it is worth saying
    /// something, in metres.
    pub tolerance: Scalar,
}

impl Default for FloorOptions {
    fn default() -> (options: Self)
        ensures
            options.max_sigma.bits == 0x3fa9_9999_9999_999a,
            options.capacity == 600,
            options.min_samples == 120,
            options.tolerance.bits == 0x3fae_b851_eb85_1eb8,
    {
        FloorOptions {
            max_sigma: Scalar::from_bits(MAX_SIGMA),
            capacity: 600,
            min_samples: 120,
            tolerance: Scalar::from_bits(TOLERANCE),
        }
    }
}

/// The lowest of the first `n` grounded joints that were located well enough,
/// and infinity where none was.
pub open spec fn lowest(joints: Seq<Option<FusedJoint>>, max_sigma: Scalar, n: nat) -> Scalar
    decreases n,
{
    if n == 0 {
        Scalar { bits: INFINITY }
    } else {
        let before = lowest(joints, max_sigma, (n - 1) as nat);
        match joints[GROUNDED@[n - 1].place()] {
            Some(foot) => if foot.sigma.at_most(max_sigma) {
                before.smaller(foot.point.y)
            } else {
                before
            },
            None => before,
        }
    }
}

/// A window of samples with one more: the newest that there is room for.
pub open spec fn remembered<T>(window: Seq<T>, capacity: int, sample: T) -> Seq<T> {
    let more = window.push(sample);
    if more.len() > capacity {
        more.skip(more.len() - capacity)
    } else {
        more
    }
}

/// Adds a sample to a window.
pub fn remember<T>(window: &mut VecDeque<T>, capacity: usize, sample: T)
    ensures
        final(window)@ == remembered(old(window)@, capacity as int, sample),
{
    window.push_back(sample);
    let ghost more = window@;
    while window.len() > capacity
        invariant
            window@.len() <= more.len(),
            window@ == more.skip(more.len() - window@.len()),
            window@.len() >= capacity || window@ == more,
        decreases window@.len(),
    {
        let _oldest = window.pop_front();
        assert(window@ =~= more.skip(more.len() - window@.len()));
    }
}

/// Watches where the feet actually end up.
#[derive(Debug, Clone)]
pub struct FloorMeter {
    pub options: FloorOptions,
    /// Lowest confident foot on each tick, in metres.
    pub lows: VecDeque<Scalar>,
}

impl Default for FloorMeter {
    fn default() -> (meter: Self)
        ensures
            meter.options.max_sigma.bits == 0x3fa9_9999_9999_999a,
            meter.options.capacity == 600,
            meter.options.min_samples == 120,
            meter.options.tolerance.bits == 0x3fae_b851_eb85_1eb8,
            meter.lows@.len() == 0,
    {
        Self::new(FloorOptions::default())
    }
}

/// Copies a window out, oldest first.
fn listed(window: &VecDeque<Scalar>) -> (list: Vec<Scalar>)
    ensures
        list@ == window@,
{
    let mut list: Vec<Scalar> = Vec::new();
    let mut i: usize = 0;
    while i < window.len()
        invariant
            i <= window.len(),
            list@ == window@.take(i as int),
        decreases window.len() - i,
    {
        list.push(window[i]);
        proof {
            assert(list@ =~= window@.take(i + 1));
        }
        i = i + 1;
    }
    proof {
        assert(window@.take(i as int) =~= window@);
    }
    list
}

impl FloorMeter {
    /// A meter that has seen nothing.
    pub fn new(options: FloorOptions) -> (meter: Self)
        ensures
            meter.options == options,
            meter.lows@.len() == 0,
    {
        FloorMeter { options, lows: VecDeque::new() }
    }

    /// Forgets what was seen.
    pub fn reset(&mut self)
        ensures
            final(self).options == old(self).options,
            final(self).lows@.len() == 0,
    {
        self.lows.clear();
    }

    /// Records the lowest foot in one reconstruction.
    ///
    /// The *raw* reconstruction, never the fitted one. The fit holds every
    /// joint above its own idea of the floor, so measuring its output would
    /// return that idea back unchanged.
    pub fn observe(&mut self, pose: &Pose3d)
        ensures
            final(self).options == old(self).options,
            ({
                let low = lowest(pose.joints@, old(self).options.max_sigma, 4);
                final(self).lows@ == if low.finite() {
                    remembered(old(self).lows@, old(self).options.capacity as int, low)
                } else {
                    old(self).lows@
                }
            }),
    {
        let mut low: Scalar = Scalar::from_bits(INFINITY);
        let mut i: usize = 0;
        while i < 4
            invariant
                i <= 4,
                *self == *old(self),
                low == lowest(pose.joints@, self.options.max_sigma, i as nat),
            decreases 4 - i,
        {
            let joint: Joint = GROUNDED[i];
            if let Some(foot) = pose.get(joint) {
                if foot.sigma.le(self.options.max_sigma) {
                    low = low.min(foot.point.y);
                }
            }
            i = i + 1;
        }
        if low.is_finite() {
            remember(&mut self.lows, self.options.capacity, low);
        }
    }

    /// Where the floor appears to be: the tenth percentile of the lowest-foot
    /// heights, once there are enough of them.
    pub open spec fn measured(self) -> Option<Scalar> {
        if self.lows@.len() < self.options.min_samples || self.lows@.len() == 0 {
            None
        } else {
            Some(ranked(self.lows@, self.lows@.len() as int / 10))
        }
    }

    /// Where the floor appears to be, in metres, relative to where SteamVR
    /// says it is.
    ///
    /// The tenth percentile of the lowest-foot heights rather than the median.
    /// A foot is only on the ground for part of each stride and is in the air
    /// for the rest, so the middle of the distribution is a swinging foot, not
    /// the floor. Not the outright minimum either, which is whichever single
    /// frame the triangulation was most wrong on.
    pub fn estimate(&self) -> (floor: Option<Scalar>)
        requires
            self.lows@.len() > 0 || self.options.min_samples > 0,
        ensures
            floor == self.measured(),
    {
        if self.lows.len() < self.options.min_samples {
            return None;
        }
        let list = listed(&self.lows);
        Some(pick_ranked(&list, list.len() / 10))
    }

    /// How far off SteamVR's floor is, when it is far enough off to matter.
    pub fn disagreement(&self) -> (floor: Option<Scalar>)
        requires
            self.lows@.len() > 0 || self.options.min_samples > 0,
        ensures
            match self.measured() {
                Some(measured) => floor == if self.options.tolerance.less(
                    Scalar { bits: measured.magnitude() as u64 },
                ) {
                    Some(measured)
                } else {
                    None
                },
                None => floor is None,
            },
    {
        match self.estimate() {
            Some(measured) => {
                let size: Scalar = measured.abs();
                assert(size == Scalar { bits: measured.magnitude() as u64 });
                if self.options.tolerance.lt(size) {
                    Some(measured)
                } else {
                    None
                }
            },
            None => None,
        }
    }

    /// How many ticks the estimate rests on.
    pub fn samples(&self) -> (samples: usize)
        ensures
            samples == self.lows@.len(),
    {
        self.lows.len()
    }
}

/// A window never holds more than its capacity, whatever that is, and holds the
/// newest sample wherever it can hold any.
pub proof fn the_window_stays_within_its_capacity<T>(window: Seq<T>, capacity: nat, sample: T)
    ensures
        remembered(window, capacity as int, sample).len() <= capacity,
        capacity > 0 ==> remembered(window, capacity as int, sample).last() == sample,
{
}

/// What stays in a window is what was in it last and the new sample behind it, in
/// order, none of it lost while there is room.
pub proof fn a_window_forgets_the_oldest_first<T>(window: Seq<T>, capacity: nat, sample: T)
    ensures
        ({
            let after = remembered(window, capacity as int, sample);
            &&& after.len() == if window.len() + 1 <= capacity {
                window.len() + 1
            } else {
                capacity
            }
            &&& forall|k: int|
                0 <= k < after.len() - 1 ==> #[trigger] after[k] == window[window.len() + 1
                    - after.len() + k]
            &&& after.len() > 0 ==> after[after.len() - 1] == sample
        }),
{
}

/// Whether a foot was located well enough to say where the floor is.
pub open spec fn sure_foot(
    joints: Seq<Option<FusedJoint>>,
    max_sigma: Scalar,
    joint: Joint,
) -> bool {
    joints[joint.place()] is Some && joints[joint.place()]->0.sigma.at_most(max_sigma)
}

/// The lowest foot of a pose is no higher than either heel or either big toe that was
/// located well enough, and is as high as one of them; where none was, there is no
/// lowest.
pub proof fn the_lowest_foot_is_a_heel_or_a_toe(joints: Seq<Option<FusedJoint>>, max_sigma: Scalar)
    requires
        forall|i: int| 0 <= i < JOINTS && (#[trigger] joints[i]) is Some
            ==> !joints[i]->0.point.y.nan(),
        joints.len() == JOINTS,
    ensures
        ({
            let low = lowest(joints, max_sigma, 4);
            let at = |joint: Joint| joints[joint.place()]->0.point.y;
            &&& sure_foot(joints, max_sigma, Joint::LeftHeel) ==> low.at_most(at(Joint::LeftHeel))
            &&& sure_foot(joints, max_sigma, Joint::RightHeel) ==> low.at_most(
                at(Joint::RightHeel),
            )
            &&& sure_foot(joints, max_sigma, Joint::LeftBigToe) ==> low.at_most(
                at(Joint::LeftBigToe),
            )
            &&& sure_foot(joints, max_sigma, Joint::RightBigToe) ==> low.at_most(
                at(Joint::RightBigToe),
            )
            &&& low == Scalar::of(0x7ff0_0000_0000_0000) || (sure_foot(
                joints,
                max_sigma,
                Joint::LeftHeel,
            ) && low == at(Joint::LeftHeel)) || (sure_foot(joints, max_sigma, Joint::RightHeel)
                && low == at(Joint::RightHeel)) || (sure_foot(
                joints,
                max_sigma,
                Joint::LeftBigToe,
            ) && low == at(Joint::LeftBigToe)) || (sure_foot(
                joints,
                max_sigma,
                Joint::RightBigToe,
            ) && low == at(Joint::RightBigToe))
        }),
{
    reveal_with_fuel(lowest, 5);
    all_joints_stand_at_their_index(Joint::LeftHeel);
    all_joints_stand_at_their_index(Joint::RightHeel);
    all_joints_stand_at_their_index(Joint::LeftBigToe);
    all_joints_stand_at_their_index(Joint::RightBigToe);
    assert(GROUNDED@[0] == Joint::LeftHeel);
    assert(GROUNDED@[1] == Joint::RightHeel);
    assert(GROUNDED@[2] == Joint::LeftBigToe);
    assert(GROUNDED@[3] == Joint::RightBigToe);
    lemma_nothing_is_above_infinity(joints[Joint::LeftHeel.place()]->0.point.y);
    lemma_nothing_is_above_infinity(joints[Joint::RightHeel.place()]->0.point.y);
    lemma_nothing_is_above_infinity(joints[Joint::LeftBigToe.place()]->0.point.y);
    lemma_nothing_is_above_infinity(joints[Joint::RightBigToe.place()]->0.point.y);
}

proof fn lemma_nothing_is_above_infinity(value: Scalar)
    ensures
        !value.nan() ==> value.at_most(Scalar { bits: INFINITY }),
        !(Scalar { bits: INFINITY }).nan(),
{
    crate::scalar::numbers_compare_by_their_bits(value, Scalar { bits: INFINITY });
}

/// The floor is where a tenth of the footfalls are lower, once there are enough.
pub proof fn the_floor_is_where_a_tenth_are_lower(meter: FloorMeter)
    requires
        meter.options.min_samples > 0,
    ensures
        meter.measured() is Some <==> meter.lows@.len() >= meter.options.min_samples,
        meter.measured() is Some ==> ({
            let order = crate::order::order_of(crate::order::scalar_keys(meter.lows@));
            let floor = meter.measured()->0;
            let n = meter.lows@.len() as int;
            &&& meter.lows@.contains(floor)
            &&& order.len() == n
            &&& forall|i: int, j: int|
                0 <= i < j < n ==> #[trigger] order[i] != #[trigger] order[j]
            &&& forall|i: int|
                0 <= i < n ==> 0 <= #[trigger] order[i] < n && (10 * i <= n
                    ==> meter.lows@[order[i]].place() <= floor.place()) && (10 * i > n - 10
                    ==> floor.place() <= meter.lows@[order[i]].place())
        }),
{
    if meter.lows@.len() >= meter.options.min_samples {
        crate::order::a_rank_counts_what_is_below(meter.lows@, meter.lows@.len() as int / 10);
    }
}

} // verus!
