//! The body the pose models see: the joints of the Halpe 26 layout.

use vstd::prelude::*;

use crate::list::{count_where, increasing, lemma_filter_step, lemma_grown};

verus! {

/// A joint a pose model reports.
#[derive(Debug, Clone, Copy, PartialEq, Eq, PartialOrd, Ord, Hash, Structural)]
pub enum Joint {
    Nose,
    LeftEye,
    RightEye,
    LeftEar,
    RightEar,
    LeftShoulder,
    RightShoulder,
    LeftElbow,
    RightElbow,
    LeftWrist,
    RightWrist,
    LeftHip,
    RightHip,
    LeftKnee,
    RightKnee,
    LeftAnkle,
    RightAnkle,
    Head,
    Neck,
    Hip,
    LeftBigToe,
    RightBigToe,
    LeftSmallToe,
    RightSmallToe,
    LeftHeel,
    RightHeel,
}

/// How many joints there are.
pub const JOINTS: usize = 26;

impl Joint {
    /// Every joint, in the order of its index.
    pub const ALL: [Joint; 26] = [
        Joint::Nose,
        Joint::LeftEye,
        Joint::RightEye,
        Joint::LeftEar,
        Joint::RightEar,
        Joint::LeftShoulder,
        Joint::RightShoulder,
        Joint::LeftElbow,
        Joint::RightElbow,
        Joint::LeftWrist,
        Joint::RightWrist,
        Joint::LeftHip,
        Joint::RightHip,
        Joint::LeftKnee,
        Joint::RightKnee,
        Joint::LeftAnkle,
        Joint::RightAnkle,
        Joint::Head,
        Joint::Neck,
        Joint::Hip,
        Joint::LeftBigToe,
        Joint::RightBigToe,
        Joint::LeftSmallToe,
        Joint::RightSmallToe,
        Joint::LeftHeel,
        Joint::RightHeel,
    ];

    /// The joint's place in [`Joint::ALL`].
    pub open spec fn place(self) -> int {
        match self {
            Joint::Nose => 0,
            Joint::LeftEye => 1,
            Joint::RightEye => 2,
            Joint::LeftEar => 3,
            Joint::RightEar => 4,
            Joint::LeftShoulder => 5,
            Joint::RightShoulder => 6,
            Joint::LeftElbow => 7,
            Joint::RightElbow => 8,
            Joint::LeftWrist => 9,
            Joint::RightWrist => 10,
            Joint::LeftHip => 11,
            Joint::RightHip => 12,
            Joint::LeftKnee => 13,
            Joint::RightKnee => 14,
            Joint::LeftAnkle => 15,
            Joint::RightAnkle => 16,
            Joint::Head => 17,
            Joint::Neck => 18,
            Joint::Hip => 19,
            Joint::LeftBigToe => 20,
            Joint::RightBigToe => 21,
            Joint::LeftSmallToe => 22,
            Joint::RightSmallToe => 23,
            Joint::LeftHeel => 24,
            Joint::RightHeel => 25,
        }
    }

    /// The joint's place in [`Joint::ALL`].
    pub fn index(self) -> (index: usize)
        ensures
            index == self.place(),
            index < JOINTS,
    {
        match self {
            Joint::Nose => 0,
            Joint::LeftEye => 1,
            Joint::RightEye => 2,
            Joint::LeftEar => 3,
            Joint::RightEar => 4,
            Joint::LeftShoulder => 5,
            Joint::RightShoulder => 6,
            Joint::LeftElbow => 7,
            Joint::RightElbow => 8,
            Joint::LeftWrist => 9,
            Joint::RightWrist => 10,
            Joint::LeftHip => 11,
            Joint::RightHip => 12,
            Joint::LeftKnee => 13,
            Joint::RightKnee => 14,
            Joint::LeftAnkle => 15,
            Joint::RightAnkle => 16,
            Joint::Head => 17,
            Joint::Neck => 18,
            Joint::Hip => 19,
            Joint::LeftBigToe => 20,
            Joint::RightBigToe => 21,
            Joint::LeftSmallToe => 22,
            Joint::RightSmallToe => 23,
            Joint::LeftHeel => 24,
            Joint::RightHeel => 25,
        }
    }

    /// The joint with the sides of the body swapped.
    pub open spec fn mirrored(self) -> Joint {
        match self {
            Joint::Nose => Joint::Nose,
            Joint::LeftEye => Joint::RightEye,
            Joint::RightEye => Joint::LeftEye,
            Joint::LeftEar => Joint::RightEar,
            Joint::RightEar => Joint::LeftEar,
            Joint::LeftShoulder => Joint::RightShoulder,
            Joint::RightShoulder => Joint::LeftShoulder,
            Joint::LeftElbow => Joint::RightElbow,
            Joint::RightElbow => Joint::LeftElbow,
            Joint::LeftWrist => Joint::RightWrist,
            Joint::RightWrist => Joint::LeftWrist,
            Joint::LeftHip => Joint::RightHip,
            Joint::RightHip => Joint::LeftHip,
            Joint::LeftKnee => Joint::RightKnee,
            Joint::RightKnee => Joint::LeftKnee,
            Joint::LeftAnkle => Joint::RightAnkle,
            Joint::RightAnkle => Joint::LeftAnkle,
            Joint::Head => Joint::Head,
            Joint::Neck => Joint::Neck,
            Joint::Hip => Joint::Hip,
            Joint::LeftBigToe => Joint::RightBigToe,
            Joint::RightBigToe => Joint::LeftBigToe,
            Joint::LeftSmallToe => Joint::RightSmallToe,
            Joint::RightSmallToe => Joint::LeftSmallToe,
            Joint::LeftHeel => Joint::RightHeel,
            Joint::RightHeel => Joint::LeftHeel,
        }
    }

    /// The same joint on the other side of the body. A joint on the midline is
    /// its own mirror.
    pub fn mirror(self) -> (other: Joint)
        ensures
            other == self.mirrored(),
    {
        match self {
            Joint::Nose => Joint::Nose,
            Joint::LeftEye => Joint::RightEye,
            Joint::RightEye => Joint::LeftEye,
            Joint::LeftEar => Joint::RightEar,
            Joint::RightEar => Joint::LeftEar,
            Joint::LeftShoulder => Joint::RightShoulder,
            Joint::RightShoulder => Joint::LeftShoulder,
            Joint::LeftElbow => Joint::RightElbow,
            Joint::RightElbow => Joint::LeftElbow,
            Joint::LeftWrist => Joint::RightWrist,
            Joint::RightWrist => Joint::LeftWrist,
            Joint::LeftHip => Joint::RightHip,
            Joint::RightHip => Joint::LeftHip,
            Joint::LeftKnee => Joint::RightKnee,
            Joint::RightKnee => Joint::LeftKnee,
            Joint::LeftAnkle => Joint::RightAnkle,
            Joint::RightAnkle => Joint::LeftAnkle,
            Joint::Head => Joint::Head,
            Joint::Neck => Joint::Neck,
            Joint::Hip => Joint::Hip,
            Joint::LeftBigToe => Joint::RightBigToe,
            Joint::RightBigToe => Joint::LeftBigToe,
            Joint::LeftSmallToe => Joint::RightSmallToe,
            Joint::RightSmallToe => Joint::LeftSmallToe,
            Joint::LeftHeel => Joint::RightHeel,
            Joint::RightHeel => Joint::LeftHeel,
        }
    }

    /// The name shown for the joint.
    pub open spec fn title(self) -> &'static str {
        match self {
            Joint::Nose => "nose",
            Joint::LeftEye => "left eye",
            Joint::RightEye => "right eye",
            Joint::LeftEar => "left ear",
            Joint::RightEar => "right ear",
            Joint::LeftShoulder => "left shoulder",
            Joint::RightShoulder => "right shoulder",
            Joint::LeftElbow => "left elbow",
            Joint::RightElbow => "right elbow",
            Joint::LeftWrist => "left wrist",
            Joint::RightWrist => "right wrist",
            Joint::LeftHip => "left hip",
            Joint::RightHip => "right hip",
            Joint::LeftKnee => "left knee",
            Joint::RightKnee => "right knee",
            Joint::LeftAnkle => "left ankle",
            Joint::RightAnkle => "right ankle",
            Joint::Head => "head",
            Joint::Neck => "neck",
            Joint::Hip => "hip",
            Joint::LeftBigToe => "left big toe",
            Joint::RightBigToe => "right big toe",
            Joint::LeftSmallToe => "left small toe",
            Joint::RightSmallToe => "right small toe",
            Joint::LeftHeel => "left heel",
            Joint::RightHeel => "right heel",
        }
    }

    /// The name shown for the joint.
    pub fn name(self) -> (name: &'static str)
        ensures
            name@ == self.title()@,
    {
        match self {
            Joint::Nose => "nose",
            Joint::LeftEye => "left eye",
            Joint::RightEye => "right eye",
            Joint::LeftEar => "left ear",
            Joint::RightEar => "right ear",
            Joint::LeftShoulder => "left shoulder",
            Joint::RightShoulder => "right shoulder",
            Joint::LeftElbow => "left elbow",
            Joint::RightElbow => "right elbow",
            Joint::LeftWrist => "left wrist",
            Joint::RightWrist => "right wrist",
            Joint::LeftHip => "left hip",
            Joint::RightHip => "right hip",
            Joint::LeftKnee => "left knee",
            Joint::RightKnee => "right knee",
            Joint::LeftAnkle => "left ankle",
            Joint::RightAnkle => "right ankle",
            Joint::Head => "head",
            Joint::Neck => "neck",
            Joint::Hip => "hip",
            Joint::LeftBigToe => "left big toe",
            Joint::RightBigToe => "right big toe",
            Joint::LeftSmallToe => "left small toe",
            Joint::RightSmallToe => "right small toe",
            Joint::LeftHeel => "left heel",
            Joint::RightHeel => "right heel",
        }
    }

    /// Whether the joint is from the hips down.
    pub open spec fn lower_body(self) -> bool {
        match self {
            Joint::LeftHip => true,
            Joint::RightHip => true,
            Joint::LeftKnee => true,
            Joint::RightKnee => true,
            Joint::LeftAnkle => true,
            Joint::RightAnkle => true,
            Joint::Hip => true,
            Joint::LeftBigToe => true,
            Joint::RightBigToe => true,
            Joint::LeftSmallToe => true,
            Joint::RightSmallToe => true,
            Joint::LeftHeel => true,
            Joint::RightHeel => true,
            _ => false,
        }
    }

    /// Whether the joint is from the hips down, which is what the trackers need.
    pub fn is_lower_body(self) -> (lower: bool)
        ensures
            lower == self.lower_body(),
    {
        match self {
            Joint::LeftHip => true,
            Joint::RightHip => true,
            Joint::LeftKnee => true,
            Joint::RightKnee => true,
            Joint::LeftAnkle => true,
            Joint::RightAnkle => true,
            Joint::Hip => true,
            Joint::LeftBigToe => true,
            Joint::RightBigToe => true,
            Joint::LeftSmallToe => true,
            Joint::RightSmallToe => true,
            Joint::LeftHeel => true,
            Joint::RightHeel => true,
            _ => false,
        }
    }
}

/// The list of all joints holds each joint at its index, so it names every
/// joint exactly once.
pub proof fn all_joints_stand_at_their_index(joint: Joint)
    ensures
        0 <= joint.place() < JOINTS,
        Joint::ALL@.len() == JOINTS,
        Joint::ALL@[joint.place()] == joint,
        forall|i: int| 0 <= i < JOINTS ==> (#[trigger] Joint::ALL@[i]).place() == i,
{
    assert forall|i: int| 0 <= i < JOINTS implies (#[trigger] Joint::ALL@[i]).place() == i by {
        if i == 0 {
            assert(Joint::ALL@[0].place() == 0);
        }
        if i == 1 {
            assert(Joint::ALL@[1].place() == 1);
        }
        if i == 2 {
            assert(Joint::ALL@[2].place() == 2);
        }
        if i == 3 {
            assert(Joint::ALL@[3].place() == 3);
        }
        if i == 4 {
            assert(Joint::ALL@[4].place() == 4);
        }
        if i == 5 {
            assert(Joint::ALL@[5].place() == 5);
        }
        if i == 6 {
            assert(Joint::ALL@[6].place() == 6);
        }
        if i == 7 {
            assert(Joint::ALL@[7].place() == 7);
        }
        if i == 8 {
            assert(Joint::ALL@[8].place() == 8);
        }
        if i == 9 {
            assert(Joint::ALL@[9].place() == 9);
        }
        if i == 10 {
            assert(Joint::ALL@[10].place() == 10);
        }
        if i == 11 {
            assert(Joint::ALL@[11].place() == 11);
        }
        if i == 12 {
            assert(Joint::ALL@[12].place() == 12);
        }
        if i == 13 {
            assert(Joint::ALL@[13].place() == 13);
        }
        if i == 14 {
            assert(Joint::ALL@[14].place() == 14);
        }
        if i == 15 {
            assert(Joint::ALL@[15].place() == 15);
        }
        if i == 16 {
            assert(Joint::ALL@[16].place() == 16);
        }
        if i == 17 {
            assert(Joint::ALL@[17].place() == 17);
        }
        if i == 18 {
            assert(Joint::ALL@[18].place() == 18);
        }
        if i == 19 {
            assert(Joint::ALL@[19].place() == 19);
        }
        if i == 20 {
            assert(Joint::ALL@[20].place() == 20);
        }
        if i == 21 {
            assert(Joint::ALL@[21].place() == 21);
        }
        if i == 22 {
            assert(Joint::ALL@[22].place() == 22);
        }
        if i == 23 {
            assert(Joint::ALL@[23].place() == 23);
        }
        if i == 24 {
            assert(Joint::ALL@[24].place() == 24);
        }
        if i == 25 {
            assert(Joint::ALL@[25].place() == 25);
        }
    }
}

/// Mirroring twice is no change, and it keeps the lower body the lower body.
pub proof fn mirroring_twice_changes_nothing(joint: Joint)
    ensures
        joint.mirrored().mirrored() == joint,
        joint.mirrored().lower_body() == joint.lower_body(),
{
}

/// Something kept for each joint that has it.
#[derive(Debug, Clone)]
pub struct JointMap<T> {
    /// One slot per joint, by its index. A joint past the end has nothing.
    pub slots: Vec<Option<T>>,
}

/// What is kept for each joint, by its index.
pub open spec fn kept<T>(slots: Seq<Option<T>>) -> Seq<Option<T>> {
    Seq::new(
        JOINTS as nat,
        |i: int|
            if i < slots.len() {
                slots[i]
            } else {
                None
            },
    )
}

/// How many joints something is kept for.
pub open spec fn present<T>(kept: Seq<Option<T>>) -> nat {
    count_where(kept, |slot: Option<T>| slot is Some)
}

/// What is kept for the first `n` joints, with the joint, leaving out those with
/// nothing.
pub open spec fn listed<T>(kept: Seq<Option<T>>, n: nat) -> Seq<(Joint, T)>
    decreases n,
{
    if n == 0 {
        Seq::empty()
    } else {
        let before = listed(kept, (n - 1) as nat);
        match kept[n - 1] {
            Some(value) => before.push((Joint::ALL@[n - 1], value)),
            None => before,
        }
    }
}

/// Whether a list of references stands for a list of values.
pub open spec fn refers<T>(list: Seq<(Joint, &T)>, values: Seq<(Joint, T)>) -> bool {
    &&& list.len() == values.len()
    &&& forall|i: int|
        0 <= i < list.len() ==> (#[trigger] list[i]).0 == values[i].0 && *list[i].1 == values[i].1
}

impl<T> View for JointMap<T> {
    type V = Seq<Option<T>>;

    open spec fn view(&self) -> Seq<Option<T>> {
        kept(self.slots@)
    }
}

impl<T> JointMap<T> {
    /// Nothing for any joint.
    pub fn empty() -> (map: Self)
        ensures
            map@ == Seq::new(JOINTS as nat, |i: int| None::<T>),
    {
        let map = JointMap { slots: Vec::new() };
        assert(map@ =~= Seq::new(JOINTS as nat, |i: int| None::<T>));
        map
    }

    /// What is kept for a joint.
    pub fn get(&self, joint: Joint) -> (kept: Option<&T>)
        ensures
            match kept {
                Some(kept) => self@[joint.place()] == Some(*kept),
                None => self@[joint.place()] is None,
            },
    {
        let index: usize = joint.index();
        if index < self.slots.len() {
            self.slots[index].as_ref()
        } else {
            None
        }
    }

    /// Keeps something for a joint, in place of what was kept before.
    pub fn set(&mut self, joint: Joint, value: T)
        ensures
            final(self)@ == old(self)@.update(joint.place(), Some(value)),
    {
        let index: usize = joint.index();
        while self.slots.len() <= index
            invariant
                index < JOINTS,
                self@ == old(self)@,
            decreases JOINTS - self.slots.len(),
        {
            self.slots.push(None);
            assert(self@ =~= old(self)@);
        }
        self.slots.set(index, Some(value));
        assert(self@ =~= old(self)@.update(joint.place(), Some(value)));
    }

    /// A second map that keeps the same.
    pub fn copied(&self) -> (copy: Self)
        where
            T: Copy,

        ensures
            copy@ == self@,
    {
        let mut slots: Vec<Option<T>> = Vec::new();
        let mut i: usize = 0;
        while i < self.slots.len()
            invariant
                i <= self.slots.len(),
                slots@ == self.slots@.take(i as int),
            decreases self.slots.len() - i,
        {
            slots.push(self.slots[i]);
            assert(slots@ =~= self.slots@.take(i + 1));
            i = i + 1;
        }
        assert(slots@ =~= self.slots@);
        JointMap { slots }
    }

    /// What is kept, with the joint, in the order of the joints.
    pub fn iter(&self) -> (list: Vec<(Joint, &T)>)
        ensures
            refers(list@, listed(self@, JOINTS as nat)),
    {
        let mut list: Vec<(Joint, &T)> = Vec::new();
        let mut i: usize = 0;
        while i < JOINTS
            invariant
                i <= JOINTS,
                refers(list@, listed(self@, i as nat)),
            decreases JOINTS - i,
        {
            let joint: Joint = Joint::ALL[i];
            proof {
                all_joints_stand_at_their_index(joint);
            }
            if let Some(value) = self.get(joint) {
                list.push((joint, value));
            }
            i = i + 1;
        }
        list
    }

    /// How many joints something is kept for.
    pub fn count(&self) -> (count: usize)
        ensures
            count == present(self@),
            count <= JOINTS,
    {
        let ghost some = |slot: Option<T>| slot is Some;
        let ghost all = self@;
        let mut count: usize = 0;
        let mut i: usize = 0;
        proof {
            assert(all.take(0).filter(some).len() == 0) by {
                reveal(Seq::filter);
            }
        }
        while i < JOINTS
            invariant
                i <= JOINTS,
                all == self@,
                some == (|slot: Option<T>| slot is Some),
                count == all.take(i as int).filter(some).len(),
                count <= i,
            decreases JOINTS - i,
        {
            proof {
                lemma_filter_step(all, some, i as int);
            }
            if i < self.slots.len() && self.slots[i].is_some() {
                count = count + 1;
            }
            i = i + 1;
        }
        proof {
            assert(all.take(i as int) =~= all);
        }
        count
    }

    /// Whether nothing is kept for any joint.
    pub fn is_empty(&self) -> (empty: bool)
        ensures
            empty == (present(self@) == 0),
    {
        self.count() == 0
    }
}

/// A joint's other side is the one whose name says the other side; a joint on neither
/// side is its own.
pub proof fn the_other_side_is_named_after_it(joint: Joint)
    ensures
        ({
            let (mine, other) = (joint.title()@, joint.mirrored().title()@);
            ||| exists|part: Seq<char>|
                #![trigger "left "@ + part]
                mine == "left "@ + part && other == "right "@ + part
            ||| exists|part: Seq<char>|
                #![trigger "left "@ + part]
                mine == "right "@ + part && other == "left "@ + part
            ||| joint.mirrored() == joint && (joint == Joint::Nose || joint == Joint::Head || joint
                == Joint::Neck || joint == Joint::Hip)
        }),
{
    reveal_strlit("left ");
    reveal_strlit("right ");
    reveal_strlit("nose");
    reveal_strlit("head");
    reveal_strlit("neck");
    reveal_strlit("hip");
    reveal_strlit("left eye");
    reveal_strlit("right eye");
    reveal_strlit("left ear");
    reveal_strlit("right ear");
    reveal_strlit("left shoulder");
    reveal_strlit("right shoulder");
    reveal_strlit("left elbow");
    reveal_strlit("right elbow");
    reveal_strlit("left wrist");
    reveal_strlit("right wrist");
    reveal_strlit("left hip");
    reveal_strlit("right hip");
    reveal_strlit("left knee");
    reveal_strlit("right knee");
    reveal_strlit("left ankle");
    reveal_strlit("right ankle");
    reveal_strlit("left big toe");
    reveal_strlit("right big toe");
    reveal_strlit("left small toe");
    reveal_strlit("right small toe");
    reveal_strlit("left heel");
    reveal_strlit("right heel");
    let (mine, other) = (joint.title()@, joint.mirrored().title()@);
    if mine.len() > 0 && mine[0] == 'l' {
        let part = mine.skip(5);
        assert(mine =~= "left "@ + part);
        assert(other =~= "right "@ + part);
    } else if mine.len() > 0 && mine[0] == 'r' {
        let part = mine.skip(6);
        assert(other =~= "left "@ + part);
        assert(mine =~= "right "@ + part);
    }
}

/// The lower body is the hips and all that is below: the knees, the ankles, the toes
/// and the heels.
pub proof fn the_lower_body_is_the_hips_and_below(joint: Joint)
    ensures
        joint.lower_body() <==> 11 <= joint.place() <= 16 || 19 <= joint.place() <= 25,
{
}

/// Exactly the joints that are kept are listed, each with its value, in the order of
/// the joints; and they are counted.
pub proof fn every_joint_that_is_kept_is_listed<T>(kept: Seq<Option<T>>, n: nat) -> (from: Seq<int>)
    requires
        n <= kept.len(),
        n <= JOINTS,
    ensures
        increasing(from),
        from.len() == listed(kept, n).len(),
        forall|i: int| #[trigger] from.contains(i) <==> 0 <= i < n && kept[i] is Some,
        forall|k: int|
            0 <= k < from.len() ==> 0 <= #[trigger] from[k] < n && listed(kept, n)[k] == (
                Joint::ALL@[from[k]],
                kept[from[k]]->0,
            ),
        present(kept.take(n as int)) == from.len(),
    decreases n,
{
    let here = |slot: Option<T>| slot is Some;
    if n == 0 {
        assert(listed(kept, n).len() == 0);
        assert(kept.take(0) =~= Seq::empty());
        assert(Seq::<Option<T>>::empty().filter(here).len() == 0) by {
            reveal(Seq::filter);
        }
        Seq::empty()
    } else {
        let before = every_joint_that_is_kept_is_listed(kept, (n - 1) as nat);
        let more = kept[n - 1] is Some;
        let from = if more {
            before.push(n - 1)
        } else {
            before
        };
        lemma_grown(before, from, more, n - 1);
        lemma_filter_step(kept, here, n - 1);
        let list = listed(kept, n);
        assert forall|k: int| 0 <= k < from.len() implies 0 <= #[trigger] from[k] < n && list[k] == (
            Joint::ALL@[from[k]],
            kept[from[k]]->0,
        ) by {
            if k < before.len() {
                assert(listed(kept, (n - 1) as nat)[k] == list[k]);
                assert(before[k] == from[k]);
            }
        }
        from
    }
}

/// What a map keeps of a joint is what stands in its place, and nothing where the list
/// does not reach that far.
pub proof fn a_slot_is_kept_by_its_place<T>(slots: Seq<Option<T>>, i: int)
    requires
        0 <= i < 26,
    ensures
        kept(slots).len() == 26,
        i < slots.len() ==> kept(slots)[i] == slots[i],
        i >= slots.len() ==> kept(slots)[i] is None,
{
}

} // verus!
