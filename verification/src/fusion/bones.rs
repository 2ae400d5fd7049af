//! Measuring the body the cameras are watching.
//!
//! Triangulated joints jitter, and the jitter is not anatomically possible: a
//! shin that measures 41 cm one frame and 46 cm the next is telling you about
//! keypoint noise, not about the leg. Knowing how long the bones really are is
//! what lets the fit downstream reject the half of the noise that would
//! lengthen them.
//!
//! Lengths are measured rather than assumed. A table of average proportions
//! would be wrong for most people by more than the error being chased, and the
//! cameras are already producing the measurement for free.

use vstd::prelude::*;

use crate::fusion::fuse::{FusedJoint, Pose3d};
use crate::list::{first_where, increasing, lemma_filter_step, lemma_first_where, lemma_first_where_is};
use crate::models::Joint;
use crate::order::{a_rank_counts_what_is_below, order_of, pick_ranked, ranked, scalar_keys};
use crate::scalar::Scalar;

verus! {

/// A segment between two joints whose length does not change.
#[derive(Debug, Clone, Copy, PartialEq, Eq, Hash, Structural)]
pub struct Bone {
    pub from: Joint,
    pub to: Joint,
}

impl Bone {
    /// The bone between two joints.
    pub fn new(from: Joint, to: Joint) -> (bone: Self)
        ensures
            bone.from == from,
            bone.to == to,
    {
        Bone { from, to }
    }

    /// The bone with the sides of the body swapped.
    pub open spec fn mirrored(self) -> Bone {
        Bone { from: self.from.mirrored(), to: self.to.mirrored() }
    }

    /// Whether this bone stands before another, by its ends.
    pub open spec fn before(self, other: Bone) -> bool {
        self.from.place() < other.from.place() || (self.from == other.from && self.to.place()
            < other.to.place())
    }

    /// What a bone and its mirror share: whichever of the two stands first.
    pub open spec fn shared(self) -> Bone {
        if self.mirrored().before(self) {
            self.mirrored()
        } else {
            self
        }
    }

    /// The same bone on the other side of the body.
    pub fn mirror(self) -> (other: Self)
        ensures
            other == self.mirrored(),
    {
        Bone { from: self.from.mirror(), to: self.to.mirror() }
    }

    /// A key that a bone and its mirror share, so the two sides pool their
    /// measurements.
    pub fn family(self) -> (key: Self)
        ensures
            key == self.shared(),
    {
        let mirrored: Bone = self.mirror();
        if mirrored.from.index() < self.from.index() || (mirrored.from == self.from
            && mirrored.to.index() < self.to.index()) {
            mirrored
        } else {
            self
        }
    }

    /// The bone's ends, by name.
    pub fn label(self) -> (label: String)
        ensures
            label@ == self.from.title()@ + " - "@ + self.to.title()@,
    {
        let mut label = self.from.name().to_owned();
        label.append(" - ");
        label.append(self.to.name());
        label
    }
}

/// How many bones the skeleton has.
pub const BONE_COUNT: usize = 22;

/// The ends of each bone of the skeleton the body is held to.
///
/// Arms are here even though the trackers are lower-body: an elbow is one of the
/// eight points a user can enable, and the shoulder-to-elbow length is what keeps
/// a mis-detected wrist from claiming the elbow moved. The heel and toe are what
/// give a foot an orientation rather than just a position, so their spacing
/// matters as much as the leg's.
pub const ENDS: [(Joint, Joint); 22] = [
    (Joint::LeftHip, Joint::RightHip),
    (Joint::Hip, Joint::LeftHip),
    (Joint::Hip, Joint::RightHip),
    (Joint::LeftHip, Joint::LeftKnee),
    (Joint::RightHip, Joint::RightKnee),
    (Joint::LeftKnee, Joint::LeftAnkle),
    (Joint::RightKnee, Joint::RightAnkle),
    (Joint::LeftAnkle, Joint::LeftHeel),
    (Joint::RightAnkle, Joint::RightHeel),
    (Joint::LeftAnkle, Joint::LeftBigToe),
    (Joint::RightAnkle, Joint::RightBigToe),
    (Joint::LeftHeel, Joint::LeftBigToe),
    (Joint::RightHeel, Joint::RightBigToe),
    (Joint::Hip, Joint::Neck),
    (Joint::Neck, Joint::Head),
    (Joint::Neck, Joint::LeftShoulder),
    (Joint::Neck, Joint::RightShoulder),
    (Joint::LeftShoulder, Joint::RightShoulder),
    (Joint::LeftShoulder, Joint::LeftElbow),
    (Joint::RightShoulder, Joint::RightElbow),
    (Joint::LeftElbow, Joint::LeftWrist),
    (Joint::RightElbow, Joint::RightWrist),
];

/// The bone at a place of the table.
pub open spec fn bone_at(i: int) -> Bone {
    Bone { from: ENDS@[i].0, to: ENDS@[i].1 }
}

/// Every bone of the skeleton.
pub open spec fn skeleton_bones() -> Seq<Bone> {
    Seq::new(BONE_COUNT as nat, |i: int| bone_at(i))
}

/// Every bone of the skeleton the body is held to.
pub fn bones() -> (bones: Vec<Bone>)
    ensures
        bones@ == skeleton_bones(),
{
    let mut bones: Vec<Bone> = Vec::new();
    let mut i: usize = 0;
    while i < BONE_COUNT
        invariant
            i <= BONE_COUNT,
            bones@.len() == i,
            forall|k: int| 0 <= k < i ==> #[trigger] bones@[k] == bone_at(k),
        decreases BONE_COUNT - i,
    {
        let ends: (Joint, Joint) = ENDS[i];
        bones.push(Bone { from: ends.0, to: ends.1 });
        i = i + 1;
    }
    assert(bones@ =~= skeleton_bones());
    bones
}

/// A bone and its mirror share a family, which is one of the two.
pub proof fn a_bone_and_its_mirror_share_a_family(bone: Bone)
    ensures
        bone.shared() == bone.mirrored().shared(),
        bone.shared() == bone || bone.shared() == bone.mirrored(),
        bone.shared().shared() == bone.shared(),
        bone.mirrored().mirrored() == bone,
{
    crate::models::mirroring_twice_changes_nothing(bone.from);
    crate::models::mirroring_twice_changes_nothing(bone.to);
    crate::models::all_joints_stand_at_their_index(bone.from);
    crate::models::all_joints_stand_at_their_index(bone.to);
    crate::models::all_joints_stand_at_their_index(bone.from.mirrored());
    crate::models::all_joints_stand_at_their_index(bone.to.mirrored());
}

/// Every bone has a mirror that is also a bone. One that spans the midline
/// mirrors onto itself with its ends swapped, which is the same segment.
pub proof fn every_bone_has_a_mirror(i: int)
    requires
        0 <= i < BONE_COUNT,
    ensures
        skeleton_bones().contains(bone_at(i).mirrored()) || bone_at(i).mirrored() == (Bone {
            from: bone_at(i).to,
            to: bone_at(i).from,
        }),
{
    let bones = skeleton_bones();
    let twin = |k: int| bones[k] == bone_at(i).mirrored();
    if i == 1 || (3 <= i <= 11 && i % 2 == 1) || i == 15 || i == 18 || i == 20 {
        assert(bones[i + 1] == bone_at(i).mirrored());
    } else if i == 2 || (4 <= i <= 12 && i % 2 == 0) || i == 16 || i == 19 || i == 21 {
        assert(bones[i - 1] == bone_at(i).mirrored());
    } else if i == 13 || i == 14 {
        assert(bones[i] == bone_at(i).mirrored());
    }
}

/// 0.03
const MAX_SIGMA: u64 = 0x3f9e_b851_eb85_1eb8;

/// 0.08
const MAX_SCATTER: u64 = 0x3fb4_7ae1_47ae_147b;

/// What counts as a measurement.
#[derive(Debug, Clone, Copy, PartialEq, Eq, Structural)]
pub struct MeasureOptions {
    /// Positional uncertainty a joint must be under before its distance to a
    /// neighbour counts as a measurement, in metres.
    pub max_sigma: Scalar,
    /// Samples a bone needs before its length is trusted.
    pub min_samples: usize,
    /// How much a bone's samples may scatter, relative to its length, before
    /// the measurement is treated as never having settled.
    pub max_scatter: Scalar,
    /// Samples kept per bone family. Enough to measure through a walk; past it
    /// the oldest are dropped.
    pub capacity: usize,
}

impl Default for MeasureOptions {
    fn default() -> (options: Self)
        ensures
            options.max_sigma.bits == 0x3f9e_b851_eb85_1eb8,
            options.min_samples == 120,
            options.max_scatter.bits == 0x3fb4_7ae1_47ae_147b,
            options.capacity == 3000,
    {
        MeasureOptions {
            max_sigma: Scalar::from_bits(MAX_SIGMA),
            min_samples: 120,
            max_scatter: Scalar::from_bits(MAX_SCATTER),
            capacity: 3000,
        }
    }
}

/// One bone as it was measured.
#[derive(Debug, Clone, Copy, PartialEq, Eq, Structural)]
pub struct BoneLength {
    pub bone: Bone,
    /// Length in metres.
    pub length: Scalar,
    /// How many observations went into it, over both sides of the body.
    pub samples: usize,
    /// Robust spread of those observations, in metres.
    pub scatter: Scalar,
    /// The spread relative to the length.
    pub relative: Scalar,
}

impl BoneLength {
    /// Whether this length is worth holding the body to.
    pub open spec fn settled(self, options: MeasureOptions) -> bool {
        &&& self.samples >= options.min_samples
        &&& Scalar { bits: 0 }.less(self.length)
        &&& self.relative.at_most(options.max_scatter)
    }

    /// Whether this length is worth holding the body to.
    pub fn is_settled(&self, options: &MeasureOptions) -> (settled: bool)
        ensures
            settled == self.settled(*options),
    {
        self.samples >= options.min_samples && Scalar::from_bits(0).lt(self.length)
            && self.relative.le(options.max_scatter)
    }
}

/// A measured body.
#[derive(Debug, Clone)]
pub struct Skeleton {
    pub bones: Vec<BoneLength>,
    pub measured_at: Option<String>,
}

impl Default for Skeleton {
    fn default() -> (skeleton: Self)
        ensures
            skeleton.bones@.len() == 0,
            skeleton.measured_at is None,
    {
        Skeleton { bones: Vec::new(), measured_at: None }
    }
}

/// What was measured of a bone: the first entry that names it.
pub open spec fn measured(bones: Seq<BoneLength>, bone: Bone) -> Option<BoneLength> {
    let at = first_where(bones, |entry: BoneLength| entry.bone == bone);
    if at < bones.len() {
        Some(bones[at])
    } else {
        None
    }
}

impl Skeleton {
    /// What was measured of a bone.
    pub fn get(&self, bone: Bone) -> (entry: Option<&BoneLength>)
        ensures
            match entry {
                Some(entry) => measured(self.bones@, bone) == Some(*entry),
                None => measured(self.bones@, bone) is None,
            },
    {
        let ghost wanted = |entry: BoneLength| entry.bone == bone;
        let mut i: usize = 0;
        while i < self.bones.len()
            invariant
                i <= self.bones.len(),
                wanted == (|entry: BoneLength| entry.bone == bone),
                forall|k: int| 0 <= k < i ==> !wanted(#[trigger] self.bones@[k]),
            decreases self.bones.len() - i,
        {
            if self.bones[i].bone == bone {
                proof {
                    lemma_first_where_is(self.bones@, wanted, i as int);
                }
                return Some(&self.bones[i]);
            }
            i = i + 1;
        }
        proof {
            lemma_first_where_is(self.bones@, wanted, i as int);
        }
        None
    }

    /// How long a bone is, in metres, if it was measured.
    pub fn length(&self, bone: Bone) -> (length: Option<Scalar>)
        ensures
            length == match measured(self.bones@, bone) {
                Some(entry) => Some(entry.length),
                None => None,
            },
    {
        match self.get(bone) {
            Some(entry) => Some(entry.length),
            None => None,
        }
    }

    /// The thigh and the shin, which laid end to end are the straight leg, if
    /// both were measured.
    ///
    /// The number to compare against the user's height: it and the headset's
    /// floor height are two independent measurements of the same person.
    pub fn leg_length(&self) -> (leg: Option<(Scalar, Scalar)>)
        ensures
            leg == match (
                measured(
                    self.bones@,
                    Bone { from: Joint::LeftHip, to: Joint::LeftKnee },
                ),
                measured(
                    self.bones@,
                    Bone { from: Joint::LeftKnee, to: Joint::LeftAnkle },
                ),
            ) {
                (Some(thigh), Some(shin)) => Some((thigh.length, shin.length)),
                _ => None,
            },
    {
        let thigh = self.length(Bone::new(Joint::LeftHip, Joint::LeftKnee));
        let shin = self.length(Bone::new(Joint::LeftKnee, Joint::LeftAnkle));
        match (thigh, shin) {
            (Some(thigh), Some(shin)) => Some((thigh, shin)),
            _ => None,
        }
    }

    /// How many entries have a settled length.
    pub open spec fn settled_count(self, options: MeasureOptions) -> nat {
        self.bones@.filter(|entry: BoneLength| entry.settled(options)).len()
    }

    /// How many lengths have settled, out of the [`BONE_COUNT`] the skeleton
    /// has.
    pub fn coverage(&self, options: &MeasureOptions) -> (settled: usize)
        ensures
            settled == self.settled_count(*options),
    {
        let ghost wanted = |entry: BoneLength| entry.settled(*options);
        let mut settled: usize = 0;
        let mut i: usize = 0;
        proof {
            assert(self.bones@.take(0).filter(wanted).len() == 0) by {
                reveal(Seq::filter);
            }
        }
        while i < self.bones.len()
            invariant
                i <= self.bones.len(),
                settled <= i,
                wanted == (|entry: BoneLength| entry.settled(*options)),
                settled == self.bones@.take(i as int).filter(wanted).len(),
            decreases self.bones.len() - i,
        {
            proof {
                lemma_filter_step(self.bones@, wanted, i as int);
            }
            if self.bones[i].is_settled(options) {
                settled = settled + 1;
            }
            i = i + 1;
        }
        proof {
            assert(self.bones@.take(i as int) =~= self.bones@);
        }
        settled
    }
}

/// One bone as a pose shows it.
#[derive(Debug, Clone, Copy, PartialEq, Eq, Structural)]
pub struct Span {
    /// Uncertainty of the joint it starts at, in metres.
    pub from_sigma: Scalar,
    /// Uncertainty of the joint it ends at, in metres.
    pub to_sigma: Scalar,
    /// Distance between the two, in metres.
    pub length: Scalar,
}

/// What a pose shows of a bone, if it has both its ends.
pub open spec fn span_of(
    joints: Seq<Option<FusedJoint>>,
    bone: Bone,
    length: Scalar,
) -> Option<Span> {
    match (joints[bone.from.place()], joints[bone.to.place()]) {
        (Some(from), Some(to)) => Some(
            Span { from_sigma: from.sigma, to_sigma: to.sigma, length },
        ),
        _ => None,
    }
}

/// What a pose shows of each bone, where it has both ends. `lengths` holds how far
/// apart the ends are, in metres, for the bones that have them.
pub fn spans(pose: &Pose3d, lengths: &Vec<Scalar>) -> (spans: Vec<Option<Span>>)
    requires
        lengths@.len() == BONE_COUNT,
    ensures
        spans@.len() == BONE_COUNT,
        forall|i: int|
            0 <= i < BONE_COUNT ==> #[trigger] spans@[i] == span_of(
                pose.joints@,
                bone_at(i),
                lengths@[i],
            ),
{
    let bones = bones();
    let mut spans: Vec<Option<Span>> = Vec::new();
    let mut i: usize = 0;
    while i < BONE_COUNT
        invariant
            i <= BONE_COUNT,
            bones@ == skeleton_bones(),
            lengths@.len() == BONE_COUNT,
            spans@.len() == i,
            forall|k: int|
                0 <= k < i ==> #[trigger] spans@[k] == span_of(
                    pose.joints@,
                    bone_at(k),
                    lengths@[k],
                ),
        decreases BONE_COUNT - i,
    {
        let bone: Bone = bones[i];
        let span: Option<Span> = match (pose.get(bone.from), pose.get(bone.to)) {
            (Some(from), Some(to)) => Some(
                Span { from_sigma: from.sigma, to_sigma: to.sigma, length: lengths[i] },
            ),
            _ => None,
        };
        spans.push(span);
        i = i + 1;
    }
    spans
}

/// Where the samples of a bone are kept: at the first bone of its family.
pub open spec fn slot(bone: Bone) -> int {
    first_where(skeleton_bones(), |other: Bone| other.shared() == bone.shared())
}

fn slot_of(bones: &Vec<Bone>, at: usize) -> (slot: usize)
    requires
        bones@ == skeleton_bones(),
        at < BONE_COUNT,
    ensures
        slot == self::slot(bone_at(at as int)),
        slot <= at,
{
    let key: Bone = bones[at].family();
    let ghost bone = bone_at(at as int);
    let ghost wanted = |other: Bone| other.shared() == bone.shared();
    let mut i: usize = 0;
    while i < at
        invariant
            i <= at < BONE_COUNT,
            bones@ == skeleton_bones(),
            bone == bone_at(at as int),
            key == bone.shared(),
            wanted == (|other: Bone| other.shared() == bone.shared()),
            forall|k: int| 0 <= k < i ==> !wanted(#[trigger] skeleton_bones()[k]),
        decreases at - i,
    {
        if bones[i].family() == key {
            proof {
                lemma_first_where_is(skeleton_bones(), wanted, i as int);
            }
            return i;
        }
        i = i + 1;
    }
    proof {
        lemma_first_where_is(skeleton_bones(), wanted, at as int);
    }
    at
}

/// Samples with one more, the oldest gone once there are more than `capacity`.
pub open spec fn sampled(samples: Seq<Scalar>, capacity: int, length: Scalar) -> Seq<Scalar> {
    let more = samples.push(length);
    if more.len() > capacity {
        more.drop_first()
    } else {
        more
    }
}

/// Whether a bone was seen well enough to count.
pub open spec fn counts(span: Option<Span>, options: MeasureOptions) -> bool {
    match span {
        Some(span) => !options.max_sigma.less(span.from_sigma) && !options.max_sigma.less(
            span.to_sigma,
        ),
        None => false,
    }
}

/// The samples after the first `n` bones of a pose.
pub open spec fn observed(
    samples: Seq<Seq<Scalar>>,
    spans: Seq<Option<Span>>,
    options: MeasureOptions,
    n: nat,
) -> Seq<Seq<Scalar>>
    decreases n,
{
    if n == 0 {
        samples
    } else {
        let before = observed(samples, spans, options, (n - 1) as nat);
        let at = slot(bone_at(n - 1));
        match spans[n - 1] {
            Some(span) => if counts(spans[n - 1], options) {
                before.update(at, sampled(before[at], options.capacity as int, span.length))
            } else {
                before
            },
            None => before,
        }
    }
}

/// The middle of a list of samples: the one in the middle twice, or the two
/// either side of it.
pub open spec fn middle(samples: Seq<Scalar>) -> (Scalar, Scalar) {
    let half = samples.len() as int / 2;
    if samples.len() % 2 == 1 {
        (ranked(samples, half), ranked(samples, half))
    } else {
        (ranked(samples, half - 1), ranked(samples, half))
    }
}

/// The middle of a list of samples. The median is the mean of the two.
pub fn median_pair(samples: &Vec<Scalar>) -> (pair: (Scalar, Scalar))
    requires
        samples@.len() > 0,
    ensures
        pair == middle(samples@),
{
    let half: usize = samples.len() / 2;
    if samples.len() % 2 == 1 {
        let value: Scalar = pick_ranked(samples, half);
        (value, value)
    } else {
        (pick_ranked(samples, half - 1), pick_ranked(samples, half))
    }
}

/// What the samples of one bone say.
#[derive(Debug, Clone, Copy, PartialEq, Eq, Structural)]
pub struct Reading {
    pub bone: Bone,
    /// The lower of the two samples whose mean is the median.
    pub low: Scalar,
    /// The upper of the two.
    pub high: Scalar,
    /// How many observations there are, over both sides of the body.
    pub samples: usize,
}

/// What the samples of the first `n` bones say, leaving out those with none.
pub open spec fn readings(samples: Seq<Seq<Scalar>>, n: nat) -> Seq<Reading>
    decreases n,
{
    if n == 0 {
        Seq::empty()
    } else {
        let before = readings(samples, (n - 1) as nat);
        let own = samples[slot(bone_at(n - 1))];
        if own.len() == 0 {
            before
        } else {
            before.push(
                Reading {
                    bone: bone_at(n - 1),
                    low: middle(own).0,
                    high: middle(own).1,
                    samples: own.len() as usize,
                },
            )
        }
    }
}

/// Accumulates bone lengths from fused poses.
#[derive(Debug, Clone)]
pub struct BoneMeter {
    pub options: MeasureOptions,
    /// Samples per bone family, kept at the family's first bone, so a limb the
    /// cameras rarely see borrows the measurement of the one they do.
    pub samples: Vec<Vec<Scalar>>,
    pub poses: usize,
}

/// The samples as mathematical lists.
pub open spec fn lists(samples: Seq<Vec<Scalar>>) -> Seq<Seq<Scalar>> {
    samples.map_values(|list: Vec<Scalar>| list@)
}

impl BoneMeter {
    /// Whether there is a list for each bone.
    pub open spec fn well_formed(self) -> bool {
        self.samples@.len() == BONE_COUNT
    }

    /// The samples per bone family.
    pub open spec fn kept(self) -> Seq<Seq<Scalar>> {
        lists(self.samples@)
    }

    /// A meter that has seen nothing.
    pub fn new(options: MeasureOptions) -> (meter: Self)
        ensures
            meter.well_formed(),
            meter.options == options,
            meter.poses == 0,
            meter.kept() == Seq::new(BONE_COUNT as nat, |i: int| Seq::<Scalar>::empty()),
    {
        let meter = BoneMeter { options, samples: empty_lists(), poses: 0 };
        assert(meter.kept() =~= Seq::new(BONE_COUNT as nat, |i: int| Seq::<Scalar>::empty()));
        meter
    }

    /// How many poses were seen.
    pub fn poses(&self) -> (poses: usize)
        ensures
            poses == self.poses,
    {
        self.poses
    }

    /// Forgets what was seen.
    pub fn reset(&mut self)
        ensures
            final(self).well_formed(),
            final(self).options == old(self).options,
            final(self).poses == 0,
            final(self).kept() == Seq::new(BONE_COUNT as nat, |i: int| Seq::<Scalar>::empty()),
    {
        self.samples = empty_lists();
        self.poses = 0;
        assert(self.kept() =~= Seq::new(BONE_COUNT as nat, |i: int| Seq::<Scalar>::empty()));
    }

    /// Records every bone this pose was confident enough about. `spans` holds
    /// what the pose shows of each bone, where it has both ends.
    pub fn observe(&mut self, spans: &Vec<Option<Span>>)
        requires
            old(self).well_formed(),
            old(self).poses < usize::MAX,
            spans@.len() == BONE_COUNT,
        ensures
            final(self).well_formed(),
            final(self).options == old(self).options,
            final(self).poses == old(self).poses + 1,
            final(self).kept() == observed(
                old(self).kept(),
                spans@,
                old(self).options,
                BONE_COUNT as nat,
            ),
    {
        self.poses = self.poses + 1;
        let bones = bones();
        let mut i: usize = 0;
        while i < BONE_COUNT
            invariant
                i <= BONE_COUNT,
                bones@ == skeleton_bones(),
                spans@.len() == BONE_COUNT,
                self.well_formed(),
                self.options == old(self).options,
                self.poses == old(self).poses + 1,
                self.kept() == observed(old(self).kept(), spans@, old(self).options, i as nat),
            decreases BONE_COUNT - i,
        {
            if let Some(span) = spans[i] {
                if !self.options.max_sigma.lt(span.from_sigma) && !self.options.max_sigma.lt(
                    span.to_sigma,
                ) {
                    let at: usize = slot_of(&bones, i);
                    let ghost before = self.kept();
                    let capacity: usize = self.options.capacity;
                    let own: &mut Vec<Scalar> = &mut self.samples[at];
                    assert(own@ == before[at as int]);
                    own.push(span.length);
                    if own.len() > capacity {
                        let _oldest = own.remove(0);
                    }
                    assert(own@ =~= sampled(before[at as int], capacity as int, span.length));
                    assert(self.kept() =~= before.update(
                        at as int,
                        sampled(before[at as int], capacity as int, span.length),
                    ));
                }
            }
            i = i + 1;
        }
    }

    /// The measurement so far.
    ///
    /// The estimate is a median rather than a mean, because a limb the model
    /// occasionally puts on the other leg produces samples that are wrong by
    /// tens of centimetres, and a mean would carry all of them.
    pub fn finish(&self) -> (found: Vec<Reading>)
        requires
            self.well_formed(),
        ensures
            found@ == readings(self.kept(), BONE_COUNT as nat),
    {
        let bones = bones();
        let mut found: Vec<Reading> = Vec::new();
        let mut i: usize = 0;
        while i < BONE_COUNT
            invariant
                i <= BONE_COUNT,
                bones@ == skeleton_bones(),
                self.well_formed(),
                found@ == readings(self.kept(), i as nat),
            decreases BONE_COUNT - i,
        {
            let at: usize = slot_of(&bones, i);
            let own: &Vec<Scalar> = &self.samples[at];
            assert(own@ == self.kept()[at as int]);
            if own.len() > 0 {
                let (low, high): (Scalar, Scalar) = median_pair(own);
                found.push(Reading { bone: bones[i], low, high, samples: own.len() });
            }
            i = i + 1;
        }
        found
    }

    /// The samples of the family a bone of the table belongs to.
    pub fn family_samples(&self, at: usize) -> (samples: &Vec<Scalar>)
        requires
            self.well_formed(),
            at < BONE_COUNT,
        ensures
            samples@ == self.kept()[slot(bone_at(at as int))],
    {
        let bones = bones();
        let slot: usize = slot_of(&bones, at);
        assert(self.samples@[slot as int]@ == self.kept()[slot as int]);
        &self.samples[slot]
    }
}

impl Default for BoneMeter {
    fn default() -> (meter: Self)
        ensures
            meter.well_formed(),
            meter.poses == 0,
            meter.options.min_samples == 120,
            meter.options.capacity == 3000,
            meter.options.max_sigma.bits == 0x3f9e_b851_eb85_1eb8,
            meter.options.max_scatter.bits == 0x3fb4_7ae1_47ae_147b,
            meter.kept() == Seq::new(BONE_COUNT as nat, |i: int| Seq::<Scalar>::empty()),
    {
        Self::new(MeasureOptions::default())
    }
}

fn empty_lists() -> (empty: Vec<Vec<Scalar>>)
    ensures
        empty@.len() == BONE_COUNT,
        forall|i: int| 0 <= i < BONE_COUNT ==> (#[trigger] empty@[i])@ == Seq::<Scalar>::empty(),
{
    let mut empty: Vec<Vec<Scalar>> = Vec::new();
    while empty.len() < BONE_COUNT
        invariant
            empty.len() <= BONE_COUNT,
            forall|i: int|
                0 <= i < empty.len() ==> (#[trigger] empty@[i])@ == Seq::<Scalar>::empty(),
        decreases BONE_COUNT - empty.len(),
    {
        empty.push(Vec::new());
    }
    empty
}

/// Whether a bone still needs measuring.
pub open spec fn lacking(bones: Seq<BoneLength>, bone: Bone, options: MeasureOptions) -> bool {
    match measured(bones, bone) {
        Some(entry) => !entry.settled(options),
        None => true,
    }
}

/// Bones still short of a settled measurement, for the UI to point at.
pub fn outstanding(skeleton: &Skeleton, options: &MeasureOptions) -> (missing: Vec<Bone>)
    ensures
        missing@ == skeleton_bones().filter(
            |bone: Bone| lacking(skeleton.bones@, bone, *options),
        ),
{
    let bones = bones();
    let ghost wanted = |bone: Bone| lacking(skeleton.bones@, bone, *options);
    let mut missing: Vec<Bone> = Vec::new();
    let mut i: usize = 0;
    proof {
        assert(bones@.take(0).filter(wanted) =~= Seq::empty()) by {
            reveal(Seq::filter);
        }
    }
    while i < bones.len()
        invariant
            i <= bones.len(),
            wanted == (|bone: Bone| lacking(skeleton.bones@, bone, *options)),
            missing@ == bones@.take(i as int).filter(wanted),
        decreases bones.len() - i,
    {
        proof {
            lemma_filter_step(bones@, wanted, i as int);
        }
        let lacks: bool = match skeleton.get(bones[i]) {
            Some(entry) => !entry.is_settled(options),
            None => true,
        };
        if lacks {
            missing.push(bones[i]);
        }
        i = i + 1;
    }
    proof {
        assert(bones@.take(i as int) =~= bones@);
    }
    missing
}

/// The two sides of the body share one measurement: a bone and its mirror keep
/// their samples in the same place, so they read alike.
pub proof fn the_two_sides_share_one_measurement(bone: Bone)
    ensures
        slot(bone) == slot(bone.mirrored()),
{
    a_bone_and_its_mirror_share_a_family(bone);
    let mirrored = bone.mirrored();
    assert((|other: Bone| other.shared() == bone.shared()) =~= (|other: Bone|
        other.shared() == mirrored.shared()));
}

/// The samples of a meter that has seen these poses, each given by what it shows
/// of the bones.
pub open spec fn kept_after(poses: Seq<Seq<Option<Span>>>, options: MeasureOptions) -> Seq<
    Seq<Scalar>,
>
    decreases poses.len(),
{
    if poses.len() == 0 {
        Seq::new(BONE_COUNT as nat, |i: int| Seq::<Scalar>::empty())
    } else {
        observed(
            kept_after(poses.drop_last(), options),
            poses.last(),
            options,
            BONE_COUNT as nat,
        )
    }
}

/// The lengths that count among the first `n` bones of a pose, over one family.
pub open spec fn counted_in(
    spans: Seq<Option<Span>>,
    options: MeasureOptions,
    family: int,
    n: nat,
) -> Seq<Scalar>
    decreases n,
{
    if n == 0 {
        Seq::empty()
    } else {
        let before = counted_in(spans, options, family, (n - 1) as nat);
        if slot(bone_at(n - 1)) == family && counts(spans[n - 1], options) {
            before.push(spans[n - 1]->0.length)
        } else {
            before
        }
    }
}

/// The lengths that count in a history of poses, over one family.
pub open spec fn counted(
    poses: Seq<Seq<Option<Span>>>,
    options: MeasureOptions,
    family: int,
) -> Seq<Scalar>
    decreases poses.len(),
{
    if poses.len() == 0 {
        Seq::empty()
    } else {
        counted(poses.drop_last(), options, family) + counted_in(
            poses.last(),
            options,
            family,
            BONE_COUNT as nat,
        )
    }
}

/// The newest samples, as many as there is room for.
pub open spec fn newest(samples: Seq<Scalar>, capacity: nat) -> Seq<Scalar> {
    if samples.len() > capacity {
        samples.skip(samples.len() - capacity)
    } else {
        samples
    }
}

/// Whether a bone's family has a sample.
pub open spec fn has_samples(kept: Seq<Seq<Scalar>>) -> spec_fn(Bone) -> bool {
    |bone: Bone| kept[slot(bone)].len() > 0
}

/// The bones of a list of readings.
pub open spec fn bones_of(found: Seq<Reading>) -> Seq<Bone> {
    found.map_values(|reading: Reading| reading.bone)
}

/// Whether a reading says what the samples of its bone say.
pub open spec fn reads(reading: Reading, kept: Seq<Seq<Scalar>>, capacity: usize) -> bool {
    let own = kept[slot(reading.bone)];
    &&& reading.low == middle(own).0
    &&& reading.high == middle(own).1
    &&& reading.samples == own.len()
    &&& 0 < reading.samples <= capacity
}

/// After any history of poses, a meter holds for each family the newest lengths
/// that were seen well enough to count, of a bone or of its mirror, up to its
/// capacity. What it reads off are the bones whose family has one, in the order of
/// the table and each once, with the middle and the number of those samples.
pub proof fn a_meter_reads_off_what_it_has_seen(
    poses: Seq<Seq<Option<Span>>>,
    options: MeasureOptions,
)
    ensures
        ({
            let kept = kept_after(poses, options);
            let found = readings(kept, BONE_COUNT as nat);
            &&& kept.len() == BONE_COUNT
            &&& forall|i: int|
                0 <= i < BONE_COUNT ==> kept[slot(#[trigger] bone_at(i))] == newest(
                    counted(poses, options, slot(bone_at(i))),
                    options.capacity as nat,
                )
            &&& bones_of(found) == skeleton_bones().filter(has_samples(kept))
            &&& bones_of(found).no_duplicates()
            &&& forall|k: int|
                0 <= k < found.len() ==> reads(#[trigger] found[k], kept, options.capacity)
        }),
{
    let kept = kept_after(poses, options);
    lemma_kept_after(poses, options);
    assert forall|i: int| 0 <= i < BONE_COUNT implies kept[slot(#[trigger] bone_at(i))] == newest(
        counted(poses, options, slot(bone_at(i))),
        options.capacity as nat,
    ) by {
        lemma_slot(i);
    }
    lemma_readings(kept, options.capacity, BONE_COUNT as nat);
    let bones = skeleton_bones();
    assert(bones.take(BONE_COUNT as int) =~= bones);
}

/// A bone and its mirror read alike, whatever was seen.
pub proof fn the_two_sides_read_alike(
    poses: Seq<Seq<Option<Span>>>,
    options: MeasureOptions,
    j: int,
    k: int,
)
    requires
        ({
            let found = readings(kept_after(poses, options), BONE_COUNT as nat);
            &&& 0 <= j < found.len()
            &&& 0 <= k < found.len()
            &&& found[j].bone == found[k].bone.mirrored()
        }),
    ensures
        ({
            let found = readings(kept_after(poses, options), BONE_COUNT as nat);
            &&& found[j].low == found[k].low
            &&& found[j].high == found[k].high
            &&& found[j].samples == found[k].samples
        }),
{
    let found = readings(kept_after(poses, options), BONE_COUNT as nat);
    a_meter_reads_off_what_it_has_seen(poses, options);
    the_two_sides_share_one_measurement(found[k].bone);
    assert(reads(found[j], kept_after(poses, options), options.capacity));
    assert(reads(found[k], kept_after(poses, options), options.capacity));
}

/// A family has a sample exactly if there is room for one and one of its bones was
/// seen well enough, on either side of the body, in any of the poses.
pub proof fn a_family_is_measured_once_it_was_seen(
    poses: Seq<Seq<Option<Span>>>,
    options: MeasureOptions,
    bone: Bone,
)
    requires
        skeleton_bones().contains(bone),
    ensures
        has_samples(kept_after(poses, options))(bone) <==> options.capacity > 0 && exists|
            p: int,
            i: int,
        |
            0 <= p < poses.len() && 0 <= i < BONE_COUNT && #[trigger] counts(poses[p][i], options)
                && bone_at(i).shared() == bone.shared(),
{
    let at = choose|i: int| 0 <= i < BONE_COUNT && skeleton_bones()[i] == bone;
    assert(bone == bone_at(at));
    lemma_slot(at);
    lemma_kept_after(poses, options);
    lemma_counted(poses, options, slot(bone));
    assert forall|i: int| 0 <= i < BONE_COUNT implies (slot(#[trigger] bone_at(i)) == slot(bone))
        == (bone_at(i).shared() == bone.shared()) by {
        lemma_slot(i);
        if bone_at(i).shared() == bone.shared() {
            assert((|other: Bone| other.shared() == bone_at(i).shared()) =~= (|other: Bone|
                other.shared() == bone.shared()));
        }
    }
}

/// No bone is listed twice.
pub proof fn bones_are_listed_once()
    ensures
        skeleton_bones().no_duplicates(),
{
    assert forall|i: int, j: int| 0 <= i < j < BONE_COUNT implies bone_at(i) != bone_at(j) by {}
}

/// Where the samples of a bone of the table are kept.
proof fn lemma_slot(i: int)
    requires
        0 <= i < BONE_COUNT,
    ensures
        0 <= slot(bone_at(i)) <= i,
        bone_at(slot(bone_at(i))).shared() == bone_at(i).shared(),
{
    let bone = bone_at(i);
    let wanted = |other: Bone| other.shared() == bone.shared();
    lemma_first_where(skeleton_bones(), wanted);
    assert(wanted(skeleton_bones()[i]));
}

proof fn lemma_kept_after(poses: Seq<Seq<Option<Span>>>, options: MeasureOptions)
    ensures
        kept_after(poses, options).len() == BONE_COUNT,
        forall|family: int|
            0 <= family < BONE_COUNT ==> #[trigger] kept_after(poses, options)[family] == newest(
                counted(poses, options, family),
                options.capacity as nat,
            ),
    decreases poses.len(),
{
    if poses.len() > 0 {
        let earlier = poses.drop_last();
        lemma_kept_after(earlier, options);
        assert forall|family: int| 0 <= family < BONE_COUNT implies #[trigger] kept_after(
            poses,
            options,
        )[family] == newest(counted(poses, options, family), options.capacity as nat) by {
            lemma_observed(
                kept_after(earlier, options),
                poses.last(),
                options,
                family,
                counted(earlier, options, family),
                BONE_COUNT as nat,
            );
        }
        lemma_observed(
            kept_after(earlier, options),
            poses.last(),
            options,
            0,
            counted(earlier, options, 0),
            BONE_COUNT as nat,
        );
    }
}

proof fn lemma_observed(
    samples: Seq<Seq<Scalar>>,
    spans: Seq<Option<Span>>,
    options: MeasureOptions,
    family: int,
    before: Seq<Scalar>,
    n: nat,
)
    requires
        samples.len() == BONE_COUNT,
        0 <= family < BONE_COUNT,
        n <= BONE_COUNT,
        samples[family] == newest(before, options.capacity as nat),
    ensures
        observed(samples, spans, options, n).len() == BONE_COUNT,
        observed(samples, spans, options, n)[family] == newest(
            before + counted_in(spans, options, family, n),
            options.capacity as nat,
        ),
    decreases n,
{
    if n == 0 {
        assert(before + counted_in(spans, options, family, 0) =~= before);
    } else {
        lemma_observed(samples, spans, options, family, before, (n - 1) as nat);
        lemma_slot(n - 1);
        let seen = before + counted_in(spans, options, family, (n - 1) as nat);
        if counts(spans[n - 1], options) && slot(bone_at(n - 1)) == family {
            let length = spans[n - 1]->0.length;
            assert(before + counted_in(spans, options, family, n) =~= seen.push(length));
            assert(sampled(
                newest(seen, options.capacity as nat),
                options.capacity as int,
                length,
            ) =~= newest(seen.push(length), options.capacity as nat));
        }
    }
}

proof fn lemma_counted(poses: Seq<Seq<Option<Span>>>, options: MeasureOptions, family: int)
    ensures
        counted(poses, options, family).len() > 0 <==> exists|p: int, i: int|
            0 <= p < poses.len() && 0 <= i < BONE_COUNT && #[trigger] counts(poses[p][i], options)
                && slot(bone_at(i)) == family,
    decreases poses.len(),
{
    if poses.len() > 0 {
        let earlier = poses.drop_last();
        let last = poses.len() - 1;
        lemma_counted(earlier, options, family);
        lemma_counted_in(poses.last(), options, family, BONE_COUNT as nat);
        if counted(earlier, options, family).len() > 0 {
            let (p, i) = choose|p: int, i: int|
                0 <= p < earlier.len() && 0 <= i < BONE_COUNT && #[trigger] counts(
                    earlier[p][i],
                    options,
                ) && slot(bone_at(i)) == family;
            assert(counts(poses[p][i], options));
        }
        if counted_in(poses.last(), options, family, BONE_COUNT as nat).len() > 0 {
            let i = choose|i: int|
                0 <= i < BONE_COUNT && #[trigger] counts(poses.last()[i], options) && slot(
                    bone_at(i),
                ) == family;
            assert(counts(poses[last][i], options));
        }
        if exists|p: int, i: int|
            0 <= p < poses.len() && 0 <= i < BONE_COUNT && #[trigger] counts(poses[p][i], options)
                && slot(bone_at(i)) == family {
            let (p, i) = choose|p: int, i: int|
                0 <= p < poses.len() && 0 <= i < BONE_COUNT && #[trigger] counts(
                    poses[p][i],
                    options,
                ) && slot(bone_at(i)) == family;
            if p < last {
                assert(counts(earlier[p][i], options));
            } else {
                assert(counts(poses.last()[i], options));
            }
        }
    }
}

proof fn lemma_counted_in(
    spans: Seq<Option<Span>>,
    options: MeasureOptions,
    family: int,
    n: nat,
)
    requires
        n <= BONE_COUNT,
    ensures
        counted_in(spans, options, family, n).len() > 0 <==> exists|i: int|
            0 <= i < n && #[trigger] counts(spans[i], options) && slot(bone_at(i)) == family,
    decreases n,
{
    if n > 0 {
        lemma_counted_in(spans, options, family, (n - 1) as nat);
    }
}

proof fn lemma_readings(kept: Seq<Seq<Scalar>>, capacity: usize, n: nat)
    requires
        kept.len() == BONE_COUNT,
        forall|family: int| 0 <= family < BONE_COUNT ==> (#[trigger] kept[family]).len() <= capacity,
        n <= BONE_COUNT,
    ensures
        bones_of(readings(kept, n)) == skeleton_bones().take(n as int).filter(has_samples(kept)),
        bones_of(readings(kept, n)).no_duplicates(),
        forall|k: int|
            0 <= k < readings(kept, n).len() ==> skeleton_bones().take(n as int).contains(
                (#[trigger] readings(kept, n)[k]).bone,
            ),
        forall|k: int|
            0 <= k < readings(kept, n).len() ==> reads(
                #[trigger] readings(kept, n)[k],
                kept,
                capacity,
            ),
    decreases n,
{
    let bones = skeleton_bones();
    if n == 0 {
        reveal(Seq::filter);
        assert(bones_of(readings(kept, 0)) =~= bones.take(0).filter(has_samples(kept)));
    } else {
        lemma_readings(kept, capacity, (n - 1) as nat);
        lemma_filter_step(bones, has_samples(kept), n - 1);
        lemma_slot(n - 1);
        assert(kept[slot(bone_at(n - 1))].len() <= capacity);
        assert(bones_of(readings(kept, n)) =~= bones.take(n as int).filter(has_samples(kept)));
        bones_are_listed_once();
        let (before, after) = (readings(kept, (n - 1) as nat), readings(kept, n));
        assert forall|k: int| 0 <= k < before.len() implies (#[trigger] before[k]).bone != bones[n
            - 1] && bones.take(n as int).contains(before[k].bone) by {
            let seen = bones.take(n - 1);
            let i = choose|i: int| 0 <= i < seen.len() && seen[i] == before[k].bone;
            assert(bones.take(n as int)[i] == before[k].bone);
        }
        if after.len() > before.len() {
            assert(bones.take(n as int)[n - 1] == after.last().bone);
        }
        assert forall|j: int, k: int| 0 <= j < k < after.len() implies bones_of(after)[j]
            != bones_of(after)[k] by {
            assert(bones_of(before)[j] == before[j].bone);
            if k < before.len() {
                assert(bones_of(before)[k] == before[k].bone);
            }
        }
    }
}

/// No family keeps more samples than its capacity once it started within it.
pub proof fn samples_stay_within_capacity(samples: Seq<Scalar>, capacity: int, length: Scalar)
    requires
        samples.len() <= capacity,
    ensures
        sampled(samples, capacity, length).len() <= capacity,
{
}

/// Whether two bones are one and the same, or the same on the other side of the
/// body.
pub open spec fn same_on_either_side(a: Bone, b: Bone) -> bool {
    a == b || (a.from == b.from.mirrored() && a.to == b.to.mirrored())
}

/// Bones keep their samples together exactly if they are the same on either side of
/// the body.
pub proof fn families_are_the_two_sides(i: int, j: int)
    requires
        0 <= i < BONE_COUNT,
        0 <= j < BONE_COUNT,
    ensures
        slot(bone_at(i)) == slot(bone_at(j)) <==> same_on_either_side(bone_at(i), bone_at(j)),
        0 <= slot(bone_at(i)) < BONE_COUNT,
{
    let (a, b) = (bone_at(i), bone_at(j));
    lemma_slot(i);
    lemma_slot(j);
    a_bone_and_its_mirror_share_a_family(a);
    a_bone_and_its_mirror_share_a_family(b);
    if a.shared() == b.shared() {
        assert((|other: Bone| other.shared() == a.shared()) =~= (|other: Bone|
            other.shared() == b.shared()));
        assert(slot(a) == slot(b));
        if a.shared() == a && b.shared() == b.mirrored() {
            assert(a == b.mirrored());
        } else if a.shared() == a.mirrored() && b.shared() == b {
            assert(a.mirrored() == b);
            assert(a == b.mirrored());
        } else if a.shared() == a.mirrored() && b.shared() == b.mirrored() {
            assert(a.mirrored().mirrored() == b.mirrored().mirrored());
        }
    }
    if same_on_either_side(a, b) && a != b {
        assert(a == b.mirrored());
        assert(a.shared() == b.shared());
    }
}

/// The bones of a family, by their places in the table, that a pose shows well
/// enough: it has both their ends, and neither is less sure than it has to be.
pub open spec fn surely_shown(
    from: Seq<int>,
    joints: Seq<Option<FusedJoint>>,
    options: MeasureOptions,
    bone: Bone,
) -> bool {
    &&& increasing(from)
    &&& forall|i: int| #[trigger]
        from.contains(i) <==> 0 <= i < BONE_COUNT && same_on_either_side(bone_at(i), bone)
            && joints[bone_at(i).from.place()] is Some && joints[bone_at(i).to.place()] is Some
            && !options.max_sigma.less(joints[bone_at(i).from.place()]->0.sigma)
            && !options.max_sigma.less(joints[bone_at(i).to.place()]->0.sigma)
}

/// After one pose, a family has gained the lengths of exactly those of its bones
/// that the pose has both ends of, neither of them less sure than it has to be, in
/// the order of the table; of all its samples the newest are kept, up to the
/// capacity.
pub proof fn a_length_counts_only_if_both_ends_are_sure(
    samples: Seq<Seq<Scalar>>,
    joints: Seq<Option<FusedJoint>>,
    lengths: Seq<Scalar>,
    options: MeasureOptions,
    b: int,
)
    requires
        samples.len() == BONE_COUNT,
        0 <= b < BONE_COUNT,
        samples[slot(bone_at(b))].len() <= options.capacity,
    ensures
        ({
            let shown = Seq::new(
                BONE_COUNT as nat,
                |i: int| span_of(joints, bone_at(i), lengths[i]),
            );
            let before = samples[slot(bone_at(b))];
            let after = observed(samples, shown, options, BONE_COUNT as nat)[slot(bone_at(b))];
            exists|from: Seq<int>|
                {
                    let all = before + from.map_values(|i: int| lengths[i]);
                    &&& #[trigger] surely_shown(from, joints, options, bone_at(b))
                    &&& after.len() == if all.len() <= options.capacity {
                        all.len() as int
                    } else {
                        options.capacity as int
                    }
                    &&& forall|k: int|
                        0 <= k < after.len() ==> #[trigger] after[k] == all[all.len() - after.len()
                            + k]
                }
        }),
{
    let shown = Seq::new(BONE_COUNT as nat, |i: int| span_of(joints, bone_at(i), lengths[i]));
    let family = slot(bone_at(b));
    let before = samples[family];
    lemma_slot(b);
    lemma_observed(samples, shown, options, family, before, BONE_COUNT as nat);
    let from = lemma_shown(shown, joints, lengths, options, b, BONE_COUNT as nat);
    assert(surely_shown(from, joints, options, bone_at(b)));
}

proof fn lemma_shown(
    shown: Seq<Option<Span>>,
    joints: Seq<Option<FusedJoint>>,
    lengths: Seq<Scalar>,
    options: MeasureOptions,
    b: int,
    n: nat,
) -> (from: Seq<int>)
    requires
        n <= BONE_COUNT,
        0 <= b < BONE_COUNT,
        shown == Seq::new(BONE_COUNT as nat, |i: int| span_of(joints, bone_at(i), lengths[i])),
    ensures
        counted_in(shown, options, slot(bone_at(b)), n) == from.map_values(|i: int| lengths[i]),
        increasing(from),
        forall|i: int| #[trigger]
            from.contains(i) <==> 0 <= i < n && same_on_either_side(bone_at(i), bone_at(b))
                && joints[bone_at(i).from.place()] is Some && joints[bone_at(i).to.place()] is Some
                && !options.max_sigma.less(joints[bone_at(i).from.place()]->0.sigma)
                && !options.max_sigma.less(joints[bone_at(i).to.place()]->0.sigma),
    decreases n,
{
    if n == 0 {
        let from = Seq::<int>::empty();
        assert(from.map_values(|i: int| lengths[i]) =~= Seq::empty());
        from
    } else {
        let before = lemma_shown(shown, joints, lengths, options, b, (n - 1) as nat);
        families_are_the_two_sides(n - 1, b);
        let bone = bone_at(n - 1);
        let sure = same_on_either_side(bone, bone_at(b)) && joints[bone.from.place()] is Some
            && joints[bone.to.place()] is Some && !options.max_sigma.less(
            joints[bone.from.place()]->0.sigma,
        ) && !options.max_sigma.less(joints[bone.to.place()]->0.sigma);
        let from = if sure {
            before.push(n - 1)
        } else {
            before
        };
        assert(from.map_values(|i: int| lengths[i]) =~= counted_in(
            shown,
            options,
            slot(bone_at(b)),
            n,
        ));
        assert forall|k: int| 0 <= k < before.len() implies #[trigger] before[k] < n - 1 by {
            assert(before.contains(before[k]));
        }
        assert forall|i: int| #[trigger] from.contains(i) <==> before.contains(i) || (sure && i == n
            - 1) by {
            if before.contains(i) {
                let k = choose|k: int| 0 <= k < before.len() && before[k] == i;
                assert(from[k] == i);
            }
            if sure && i == n - 1 {
                assert(from[before.len() as int] == i);
            }
        }
        from
    }
}

/// A length has settled exactly if it has samples enough, is a length at all, and
/// its samples scatter no more than they may.
pub proof fn a_length_settles_by_its_samples(entry: BoneLength, options: MeasureOptions)
    ensures
        entry.settled(options) <==> entry.samples >= options.min_samples && Scalar::of(0).less(
            entry.length,
        ) && entry.relative.at_most(options.max_scatter),
{
}

/// What was measured of a bone is the first entry that names it.
pub proof fn a_bone_is_found_by_its_ends(bones: Seq<BoneLength>, bone: Bone)
    ensures
        measured(bones, bone) is Some <==> exists|e: int|
            0 <= e < bones.len() && (#[trigger] bones[e]).bone.from == bone.from
                && bones[e].bone.to == bone.to,
        measured(bones, bone) is Some ==> exists|e: int|
            0 <= e < bones.len() && (#[trigger] bones[e]).bone == bone && measured(bones, bone)
                == Some(bones[e]) && forall|k: int|
                0 <= k < e ==> (#[trigger] bones[k]).bone != bone,
{
    let named = |entry: BoneLength| entry.bone == bone;
    lemma_first_where(bones, named);
    let at = first_where(bones, named);
    if at < bones.len() {
        assert(named(bones[at]));
        assert(bones[at].bone == bone);
        assert forall|k: int| 0 <= k < at implies (#[trigger] bones[k]).bone != bone by {
            assert(!named(bones[k]));
        }
    } else {
        assert forall|k: int| 0 <= k < bones.len() implies (#[trigger] bones[k]).bone != bone by {
            assert(!named(bones[k]));
        }
    }
}

/// A bone is outstanding exactly if it was not measured, or its length has not
/// settled.
pub proof fn a_bone_is_outstanding_until_it_settles(
    bones: Seq<BoneLength>,
    bone: Bone,
    options: MeasureOptions,
)
    ensures
        measured(bones, bone) is None ==> lacking(bones, bone, options),
        measured(bones, bone) is Some ==> ({
            let entry = measured(bones, bone)->0;
            lacking(bones, bone, options) <==> entry.samples < options.min_samples || !Scalar::of(
                0,
            ).less(entry.length) || !entry.relative.at_most(options.max_scatter)
        }),
{
}

/// The middle of an odd list is one sample, with as many no larger as no smaller; of
/// an even list it is the two next to each other in the middle.
pub proof fn as_many_samples_lie_either_side_of_the_middle(samples: Seq<Scalar>)
    requires
        samples.len() > 0,
    ensures
        ({
            let (low, high) = middle(samples);
            let order = order_of(scalar_keys(samples));
            let n = samples.len() as int;
            &&& order.len() == n
            &&& forall|i: int, j: int|
                0 <= i < j < n ==> #[trigger] order[i] != #[trigger] order[j]
            &&& forall|i: int|
                0 <= i < n ==> 0 <= #[trigger] order[i] < n && (2 * i <= n
                    ==> samples[order[i]].place() <= high.place()) && (2 * i <= n - 1
                    ==> samples[order[i]].place() <= low.place()) && (2 * i >= n - 1
                    ==> high.place() <= samples[order[i]].place()) && (2 * i >= n - 2
                    ==> low.place() <= samples[order[i]].place())
            &&& samples.contains(low)
            &&& samples.contains(high)
            &&& n % 2 == 1 ==> low == high
        }),
{
    let half = samples.len() as int / 2;
    a_rank_counts_what_is_below(samples, half);
    if samples.len() % 2 == 0 {
        a_rank_counts_what_is_below(samples, half - 1);
    }
}

/// The table holds the hips, both legs and feet, the spine, the shoulders and both
/// arms.
pub proof fn the_skeleton_is_whole()
    ensures
        skeleton_bones().len() == 22,
        skeleton_bones().contains(Bone { from: Joint::LeftHip, to: Joint::LeftKnee }),
        skeleton_bones().contains(Bone { from: Joint::RightHip, to: Joint::RightKnee }),
        skeleton_bones().contains(Bone { from: Joint::LeftKnee, to: Joint::LeftAnkle }),
        skeleton_bones().contains(Bone { from: Joint::RightKnee, to: Joint::RightAnkle }),
        skeleton_bones().contains(Bone { from: Joint::LeftHip, to: Joint::RightHip }),
        skeleton_bones().contains(Bone { from: Joint::LeftAnkle, to: Joint::LeftHeel }),
        skeleton_bones().contains(Bone { from: Joint::LeftAnkle, to: Joint::LeftBigToe }),
        skeleton_bones().contains(Bone { from: Joint::RightAnkle, to: Joint::RightHeel }),
        skeleton_bones().contains(Bone { from: Joint::RightAnkle, to: Joint::RightBigToe }),
        skeleton_bones().contains(Bone { from: Joint::Hip, to: Joint::Neck }),
        skeleton_bones().contains(Bone { from: Joint::LeftShoulder, to: Joint::LeftElbow }),
        skeleton_bones().contains(Bone { from: Joint::RightShoulder, to: Joint::RightElbow }),
{
    let bones = skeleton_bones();
    assert(bones[0] == Bone { from: Joint::LeftHip, to: Joint::RightHip });
    assert(bones[3] == Bone { from: Joint::LeftHip, to: Joint::LeftKnee });
    assert(bones[4] == Bone { from: Joint::RightHip, to: Joint::RightKnee });
    assert(bones[5] == Bone { from: Joint::LeftKnee, to: Joint::LeftAnkle });
    assert(bones[6] == Bone { from: Joint::RightKnee, to: Joint::RightAnkle });
    assert(bones[7] == Bone { from: Joint::LeftAnkle, to: Joint::LeftHeel });
    assert(bones[8] == Bone { from: Joint::RightAnkle, to: Joint::RightHeel });
    assert(bones[9] == Bone { from: Joint::LeftAnkle, to: Joint::LeftBigToe });
    assert(bones[10] == Bone { from: Joint::RightAnkle, to: Joint::RightBigToe });
    assert(bones[13] == Bone { from: Joint::Hip, to: Joint::Neck });
    assert(bones[18] == Bone { from: Joint::LeftShoulder, to: Joint::LeftElbow });
    assert(bones[19] == Bone { from: Joint::RightShoulder, to: Joint::RightElbow });
}

/// The bones that count as settled are those that are, each once.
pub proof fn every_settled_bone_counts(
    skeleton: Skeleton,
    more: Skeleton,
    entry: BoneLength,
    options: MeasureOptions,
)
    requires
        more.bones@ == skeleton.bones@.push(entry),
    ensures
        more.settled_count(options) == skeleton.settled_count(options) + if entry.settled(options) {
            1nat
        } else {
            0nat
        },
        skeleton.bones@.len() == 0 ==> skeleton.settled_count(options) == 0,
{
    let settled = |entry: BoneLength| entry.settled(options);
    let n = skeleton.bones@.len() as int;
    lemma_filter_step(more.bones@, settled, n);
    assert(more.bones@.take(n) =~= skeleton.bones@);
    assert(more.bones@.take(n + 1) =~= more.bones@);
    if n == 0 {
        assert(skeleton.bones@.filter(settled).len() == 0) by {
            reveal(Seq::filter);
        }
    }
}

} // verus!
