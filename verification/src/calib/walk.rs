//! The recorder's working state: what a frame of a calibration walk adds.

use vstd::prelude::*;

use crate::calib::recorder::{
    counted, covers, inside, is_inside, span_of, stand_ins, CameraTrail, DevicePose, Recording,
    RecorderConfig, Rig, Sample, Stamped, Track, TrailModel, LONG_ENOUGH, TURNED_ENOUGH,
};
use crate::geometry::Point2;
use crate::list::{first_where, lemma_first_where, lemma_first_where_is};
use crate::models::Joint;
use crate::pipeline::{Keypoint, PoseFrame};
use crate::scalar::Scalar;
use crate::time::{Duration, Instant};
use crate::vr::Role;

verus! {

/// How many roles a device can have.
pub const ROLES: usize = 4;

/// The recorder's working state.
#[derive(Debug, Clone)]
pub struct Walk {
    pub recording: Recording,
    /// Last frame taken from each camera, so a frame is never counted twice.
    pub last_seq: Vec<Option<u64>>,
    /// Last accepted pixel per camera and rig, for the stationary check.
    pub last_pixel: Vec<Vec<Option<Point2>>>,
    /// Every pose recorded so far, by role. A rig only comes into being once its
    /// keypoint has been seen, and the keypoint may have been out of frame for
    /// the first part of the walk.
    pub pending: Vec<Track>,
}

/// The working state as mathematical values.
pub struct WalkModel {
    /// The rigs that were seen, in the order sightings index them.
    pub rigs: Seq<Rig>,
    /// Every pose of the devices of each role, by rank.
    pub poses: Seq<Seq<Stamped>>,
    /// What each camera contributed.
    pub trails: Seq<TrailModel>,
    /// The last frame taken from each camera.
    pub seqs: Seq<Option<u64>>,
    /// The last accepted pixel of a camera and a rig.
    pub pixels: Map<(int, int), Point2>,
}

/// A sighting that is worth keeping unless the keypoint has hardly moved.
#[derive(Debug, Clone, Copy, PartialEq, Eq, Structural)]
pub struct Candidate {
    pub rig: usize,
    pub pixel: Point2,
    pub confidence: Scalar,
    /// Where this camera last saw the rig.
    pub previous: Option<Point2>,
}

/// The first of the joints from place `n` on that a frame has, with its
/// keypoint.
pub open spec fn spotted(
    keypoints: Seq<Option<Keypoint>>,
    joints: Seq<Joint>,
    n: int,
) -> Option<(Joint, Keypoint)>
    decreases joints.len() - n,
{
    if n < 0 || n >= joints.len() {
        None
    } else {
        match keypoints[joints[n].place()] {
            Some(keypoint) => Some((joints[n], keypoint)),
            None => spotted(keypoints, joints, n + 1),
        }
    }
}

/// Whether a rig is this one.
pub open spec fn same_rig(rig: Rig) -> spec_fn(Rig) -> bool {
    |other: Rig| other == rig
}

/// Where a rig stands among those seen, or the place it will take.
pub open spec fn rig_place(rigs: Seq<Rig>, rig: Rig) -> int {
    first_where(rigs, same_rig(rig))
}

/// The rigs with one more, unless it is among them.
pub open spec fn with_rig(rigs: Seq<Rig>, rig: Rig) -> Seq<Rig> {
    if rig_place(rigs, rig) < rigs.len() {
        rigs
    } else {
        rigs.push(rig)
    }
}

impl WalkModel {
    /// The state with one trail replaced.
    pub open spec fn with_trail(self, camera: int, trail: TrailModel) -> WalkModel {
        WalkModel { trails: self.trails.update(camera, trail), ..self }
    }

    /// What one role of a frame does to the state, and what it leaves to be
    /// judged by how far the keypoint moved.
    ///
    /// In order: the best stand-in the frame has, if any; whether the model was
    /// sure of it; the rig it belongs to, which is added if it is new; whether
    /// there are poses either side of the frame to pair it with; and whether it
    /// is in the frame at all.
    pub open spec fn sighted(
        self,
        camera: int,
        frame: PoseFrame,
        config: RecorderConfig,
        role: Role,
    ) -> (WalkModel, Option<Candidate>) {
        let trail = self.trails[camera];
        match spotted(frame.keypoints@, stand_ins(role), 0) {
            None => (self, None),
            Some((joint, keypoint)) => {
                let rig = Rig { role, joint };
                let place = rig_place(self.rigs, rig);
                let joined = WalkModel { rigs: with_rig(self.rigs, rig), ..self };
                let pixel = Point2 { x: keypoint.x, y: keypoint.y };
                if keypoint.confidence.less(config.min_confidence) {
                    (
                        self.with_trail(
                            camera,
                            TrailModel {
                                rejected_confidence: trail.rejected_confidence + 1,
                                ..trail
                            },
                        ),
                        None,
                    )
                } else if !covers(self.poses[role.rank()], frame.captured_at) {
                    (
                        joined.with_trail(
                            camera,
                            TrailModel { rejected_no_pose: trail.rejected_no_pose + 1, ..trail },
                        ),
                        None,
                    )
                } else if !inside(pixel, frame.width, frame.height) {
                    (
                        joined.with_trail(
                            camera,
                            TrailModel {
                                rejected_offscreen: trail.rejected_offscreen + 1,
                                ..trail
                            },
                        ),
                        None,
                    )
                } else {
                    (
                        joined,
                        Some(
                            Candidate {
                                rig: place as usize,
                                pixel,
                                confidence: keypoint.confidence,
                                previous: if self.pixels.dom().contains((camera, place)) {
                                    Some(self.pixels[(camera, place)])
                                } else {
                                    None
                                },
                            },
                        ),
                    )
                }
            },
        }
    }

    /// What the first `n` roles of a frame do to the state.
    pub open spec fn sighted_all(
        self,
        camera: int,
        frame: PoseFrame,
        config: RecorderConfig,
        n: nat,
    ) -> (WalkModel, Seq<Candidate>)
        decreases n,
    {
        if n == 0 {
            (self, Seq::empty())
        } else {
            let (before, found) = self.sighted_all(camera, frame, config, (n - 1) as nat);
            let (after, candidate) = before.sighted(camera, frame, config, Role::RIGS@[n - 1]);
            match candidate {
                Some(candidate) => (after, found.push(candidate)),
                None => (after, found),
            }
        }
    }

    /// The state once a frame has been taken note of.
    pub open spec fn noted(self, camera: int, frame: PoseFrame) -> WalkModel {
        let trail = self.trails[camera];
        WalkModel {
            seqs: self.seqs.update(camera, Some(frame.seq)),
            trails: self.trails.update(
                camera,
                TrailModel { width: frame.width, height: frame.height, ..trail },
            ),
            ..self
        }
    }

    /// What a frame does to the state.
    pub open spec fn considered(
        self,
        camera: int,
        frame: PoseFrame,
        config: RecorderConfig,
    ) -> (WalkModel, Seq<Candidate>) {
        if self.seqs[camera] == Some(frame.seq) {
            (self, Seq::empty())
        } else if self.trails[camera].samples.len() >= config.max_per_camera {
            (self.noted(camera, frame), Seq::empty())
        } else {
            self.noted(camera, frame).sighted_all(
                camera,
                frame,
                config,
                if config.use_controllers {
                    3
                } else {
                    1
                },
            )
        }
    }

    /// The state once a candidate has been judged by how far it moved from where
    /// this camera last saw the rig. A camera that has all the samples it may
    /// have takes no more, though one frame offers several.
    pub open spec fn judged(
        self,
        camera: int,
        at: Instant,
        candidate: Candidate,
        moved: Scalar,
        config: RecorderConfig,
    ) -> WalkModel {
        let trail = self.trails[camera];
        if trail.samples.len() >= config.max_per_camera {
            self
        } else if candidate.previous is Some && moved.less(config.min_pixel_step) {
            self.with_trail(
                camera,
                TrailModel { rejected_stationary: trail.rejected_stationary + 1, ..trail },
            )
        } else {
            WalkModel {
                pixels: self.pixels.insert((camera, candidate.rig as int), candidate.pixel),
                trails: self.trails.update(
                    camera,
                    trail.recorded(
                        Sample {
                            at,
                            rig: candidate.rig,
                            pixel: candidate.pixel,
                            confidence: candidate.confidence,
                        },
                    ),
                ),
                ..self
            }
        }
    }

    /// The state with one more pose of a device.
    pub open spec fn followed(self, role: Role, at: Instant, pose: DevicePose) -> WalkModel {
        WalkModel {
            poses: self.poses.update(
                role.rank(),
                self.poses[role.rank()].push(Stamped { at, pose }),
            ),
            ..self
        }
    }
}

/// Whether a pixel is kept for a camera and a rig.
pub open spec fn pixel_kept(pixels: Seq<Vec<Option<Point2>>>, key: (int, int)) -> bool {
    &&& 0 <= key.0 < pixels.len()
    &&& 0 <= key.1 < pixels[key.0]@.len()
    &&& pixels[key.0]@[key.1] is Some
}

/// The pixels kept, by camera and rig.
pub open spec fn pixel_map(pixels: Seq<Vec<Option<Point2>>>) -> Map<(int, int), Point2> {
    Map::new(
        |key: (int, int)| pixel_kept(pixels, key),
        |key: (int, int)| pixels[key.0]@[key.1]->0,
    )
}

impl View for Walk {
    type V = WalkModel;

    open spec fn view(&self) -> WalkModel {
        WalkModel {
            rigs: self.recording.rigs@,
            poses: self.pending@.map_values(|track: Track| track@),
            trails: self.recording.cameras@.map_values(|trail: CameraTrail| trail@),
            seqs: self.last_seq@,
            pixels: pixel_map(self.last_pixel@),
        }
    }
}

impl Walk {
    /// Whether the parts of the state fit together. Among them: every rig's
    /// track is the whole history of its role, so a rig discovered late still
    /// has the poses from before it was discovered.
    pub open spec fn well_formed(self) -> bool {
        &&& self.pending@.len() == ROLES
        &&& self.recording.tracks@.len() == self.recording.rigs@.len()
        &&& self.last_seq@.len() == self.recording.cameras@.len()
        &&& self.last_pixel@.len() == self.recording.cameras@.len()
        &&& self.recording.rigs@.no_duplicates()
        &&& forall|k: int|
            0 <= k < self.recording.rigs@.len() ==> (#[trigger] self.recording.tracks@[k])@
                == self.pending@[self.recording.rigs@[k].role.rank()]@
        &&& forall|k: int|
            0 <= k < self.recording.cameras@.len() ==> (
            #[trigger] self.recording.cameras@[k]).well_formed()
    }

    /// A walk nobody has taken a step of.
    pub fn new(cameras: &Vec<String>) -> (walk: Self)
        ensures
            walk.well_formed(),
            walk@.rigs.len() == 0,
            walk@.poses == Seq::new(ROLES as nat, |i: int| Seq::<Stamped>::empty()),
            walk@.seqs == Seq::new(cameras@.len(), |i: int| None::<u64>),
            walk@.pixels == Map::<(int, int), Point2>::empty(),
            walk@.trails.len() == cameras@.len(),
            forall|i: int|
                0 <= i < cameras@.len() ==> #[trigger] walk@.trails[i] == (TrailModel {
                    camera: cameras@[i]@,
                    width: 0,
                    height: 0,
                    samples: Seq::empty(),
                    columns: 8,
                    rows: 6,
                    cells: Seq::new(48, |i: int| 0u32),
                    rejected_confidence: 0,
                    rejected_stationary: 0,
                    rejected_no_pose: 0,
                    rejected_offscreen: 0,
                }),
    {
        let mut trails: Vec<CameraTrail> = Vec::new();
        let mut last_seq: Vec<Option<u64>> = Vec::new();
        let mut last_pixel: Vec<Vec<Option<Point2>>> = Vec::new();
        let mut i: usize = 0;
        while i < cameras.len()
            invariant
                i <= cameras.len(),
                trails@.len() == i,
                last_seq@.len() == i,
                last_pixel@.len() == i,
                forall|k: int| 0 <= k < i ==> #[trigger] last_seq@[k] is None,
                forall|k: int| 0 <= k < i ==> (#[trigger] last_pixel@[k])@.len() == 0,
                forall|k: int|
                    0 <= k < i ==> (#[trigger] trails@[k]).well_formed() && trails@[k]@ == (
                    TrailModel {
                        camera: cameras@[k]@,
                        width: 0,
                        height: 0,
                        samples: Seq::empty(),
                        columns: 8,
                        rows: 6,
                        cells: Seq::new(48, |i: int| 0u32),
                        rejected_confidence: 0,
                        rejected_stationary: 0,
                        rejected_no_pose: 0,
                        rejected_offscreen: 0,
                    }),
            decreases cameras.len() - i,
        {
            trails.push(CameraTrail::new(cameras[i].clone()));
            last_seq.push(None);
            last_pixel.push(Vec::new());
            i = i + 1;
        }
        let pending: Vec<Track> = vec![Track::new(), Track::new(), Track::new(), Track::new()];
        let walk = Walk {
            recording: Recording {
                rigs: Vec::new(),
                tracks: Vec::new(),
                cameras: trails,
                duration: Duration::zero(),
            },
            last_seq,
            last_pixel,
            pending,
        };
        proof {
            assert(walk@.poses =~= Seq::new(ROLES as nat, |i: int| Seq::<Stamped>::empty()));
            assert(walk@.seqs =~= Seq::new(cameras@.len(), |i: int| None::<u64>));
            assert(walk@.pixels =~= Map::<(int, int), Point2>::empty());
        }
        walk
    }

    /// Takes note of where a device was.
    ///
    /// A track exists per rig, and a rig is only created once a keypoint has
    /// been paired with it, so the pose goes to every rig of this role, and is
    /// held aside for rigs that appear later in the walk.
    pub fn push_pose(&mut self, role: Role, at: Instant, pose: DevicePose)
        requires
            old(self).well_formed(),
        ensures
            final(self).well_formed(),
            final(self)@ == old(self)@.followed(role, at, pose),
            final(self).recording.duration == old(self).recording.duration,
    {
        let ghost stamped = Stamped { at, pose };
        let mut i: usize = 0;
        while i < self.recording.rigs.len()
            invariant
                i <= self.recording.rigs@.len(),
                stamped == (Stamped { at, pose }),
                *self == (Walk {
                    recording: Recording {
                        tracks: self.recording.tracks,
                        ..old(self).recording
                    },
                    ..*old(self)
                }),
                self.recording.tracks@.len() == self.recording.rigs@.len(),
                forall|k: int|
                    0 <= k < self.recording.rigs@.len() ==> (#[trigger] self.recording.tracks@[k])@
                        == if k < i && self.recording.rigs@[k].role == role {
                        old(self).recording.tracks@[k]@.push(stamped)
                    } else {
                        old(self).recording.tracks@[k]@
                    },
            decreases self.recording.rigs@.len() - i,
        {
            if self.recording.rigs[i].role == role {
                let ghost tracks = self.recording.tracks@;
                let track: &mut Track = &mut self.recording.tracks[i];
                track.push(at, pose);
                assert(self.recording.tracks@ =~= tracks.update(
                    i as int,
                    self.recording.tracks@[i as int],
                ));
            }
            i = i + 1;
        }
        let rank: usize = role.order() as usize;
        let ghost pending = self.pending@;
        let track: &mut Track = &mut self.pending[rank];
        track.push(at, pose);
        proof {
            assert(self.pending@ =~= pending.update(rank as int, self.pending@[rank as int]));
            assert(self@.poses =~= old(self)@.followed(role, at, pose).poses);
            assert forall|k: int| 0 <= k < self.recording.rigs@.len() implies (
            #[trigger] self.recording.tracks@[k])@
                == self.pending@[self.recording.rigs@[k].role.rank()]@ by {
                let own = self.recording.rigs@[k].role;
                assert(own.rank() == role.rank() ==> own == role);
                assert(old(self).recording.tracks@[k]@ == old(self).pending@[own.rank()]@);
            }
        }
    }

    /// The index of a rig, which is added if it is new.
    fn rig(&mut self, rig: Rig) -> (index: usize)
        requires
            old(self).well_formed(),
        ensures
            final(self).well_formed(),
            index == rig_place(old(self)@.rigs, rig),
            index < final(self)@.rigs.len(),
            final(self)@.rigs[index as int] == rig,
            final(self)@ == (WalkModel { rigs: with_rig(old(self)@.rigs, rig), ..old(self)@ }),
            final(self).recording.cameras == old(self).recording.cameras,
            final(self).recording.duration == old(self).recording.duration,
            final(self).last_seq == old(self).last_seq,
            final(self).last_pixel == old(self).last_pixel,
            final(self).pending == old(self).pending,
    {
        let ghost wanted = same_rig(rig);
        let mut i: usize = 0;
        while i < self.recording.rigs.len()
            invariant
                i <= self.recording.rigs@.len(),
                self.well_formed(),
                *self == *old(self),
                wanted == same_rig(rig),
                forall|k: int| 0 <= k < i ==> !wanted(#[trigger] self.recording.rigs@[k]),
            decreases self.recording.rigs@.len() - i,
        {
            if self.recording.rigs[i] == rig {
                proof {
                    lemma_first_where_is(self.recording.rigs@, wanted, i as int);
                }
                return i;
            }
            i = i + 1;
        }
        proof {
            lemma_first_where_is(self.recording.rigs@, wanted, i as int);
        }
        let track: Track = self.pending[rig.role.order() as usize].copied();
        let ghost (rigs, tracks) = (self.recording.rigs@, self.recording.tracks@);
        self.recording.rigs.push(rig);
        self.recording.tracks.push(track);
        proof {
            assert forall|a: int, b: int|
                0 <= a < self.recording.rigs@.len() && 0 <= b < self.recording.rigs@.len() && a
                    != b implies self.recording.rigs@[a] != self.recording.rigs@[b] by {
                if a < i {
                    assert(!wanted(rigs[a]));
                }
                if b < i {
                    assert(!wanted(rigs[b]));
                }
            }
            assert forall|k: int| 0 <= k < self.recording.rigs@.len() implies (
            #[trigger] self.recording.tracks@[k])@
                == self.pending@[self.recording.rigs@[k].role.rank()]@ by {
                if k < i {
                    assert(tracks[k]@ == self.pending@[rigs[k].role.rank()]@);
                }
            }
        }
        i
    }

    /// Where a camera last saw a rig.
    fn previous(&self, camera: usize, rig: usize) -> (pixel: Option<Point2>)
        requires
            self.well_formed(),
            camera < self@.trails.len(),
        ensures
            pixel == if self@.pixels.dom().contains((camera as int, rig as int)) {
                Some(self@.pixels[(camera as int, rig as int)])
            } else {
                None
            },
    {
        let row: &Vec<Option<Point2>> = &self.last_pixel[camera];
        if rig < row.len() {
            row[rig]
        } else {
            None
        }
    }

    /// Looks at one role of a frame.
    fn look(
        &mut self,
        camera: usize,
        frame: &PoseFrame,
        config: &RecorderConfig,
        role: Role,
    ) -> (candidate: Option<Candidate>)
        requires
            old(self).well_formed(),
            camera < old(self)@.trails.len(),
            old(self)@.trails[camera as int].rejected_confidence < u64::MAX,
            old(self)@.trails[camera as int].rejected_no_pose < u64::MAX,
            old(self)@.trails[camera as int].rejected_offscreen < u64::MAX,
        ensures
            final(self).well_formed(),
            (final(self)@, candidate) == old(self)@.sighted(camera as int, *frame, *config, role),
            final(self).recording.duration == old(self).recording.duration,
    {
        let joints = Rig::candidates(role);
        let mut found: Option<(Joint, Keypoint)> = None;
        let mut i: usize = 0;
        while i < joints.len() && found.is_none()
            invariant
                i <= joints.len(),
                joints@ == stand_ins(role),
                match found {
                    Some(pair) => spotted(frame.keypoints@, joints@, 0) == Some(pair),
                    None => spotted(frame.keypoints@, joints@, 0) == spotted(
                        frame.keypoints@,
                        joints@,
                        i as int,
                    ),
                },
            decreases
                    joints.len() - i,
                    if found is None {
                        1int
                    } else {
                        0int
                    },
        {
            if let Some(keypoint) = frame.keypoints.get(joints[i]) {
                found = Some((joints[i], *keypoint));
            } else {
                i = i + 1;
            }
        }
        let (joint, keypoint): (Joint, Keypoint) = match found {
            Some(pair) => pair,
            None => {
                return None;
            },
        };
        let ghost before = self@;
        if keypoint.confidence.lt(config.min_confidence) {
            let trail: &mut CameraTrail = &mut self.recording.cameras[camera];
            trail.rejected_confidence = trail.rejected_confidence + 1;
            proof {
                lemma_one_trail_changed(
                    old(self).recording.cameras@,
                    self.recording.cameras@,
                    camera as int,
                );
            }
            return None;
        }
        let rig: usize = self.rig(Rig { role, joint });
        let ghost joined = *self;
        assert(self.recording.tracks@[rig as int]@ == self@.poses[role.rank()]);
        if !self.recording.tracks[rig].has(frame.captured_at) {
            let trail: &mut CameraTrail = &mut self.recording.cameras[camera];
            trail.rejected_no_pose = trail.rejected_no_pose + 1;
            proof {
                lemma_one_trail_changed(
                    joined.recording.cameras@,
                    self.recording.cameras@,
                    camera as int,
                );
            }
            return None;
        }
        let pixel = Point2 { x: keypoint.x, y: keypoint.y };
        if !is_inside(pixel, frame.width, frame.height) {
            let trail: &mut CameraTrail = &mut self.recording.cameras[camera];
            trail.rejected_offscreen = trail.rejected_offscreen + 1;
            proof {
                lemma_one_trail_changed(
                    joined.recording.cameras@,
                    self.recording.cameras@,
                    camera as int,
                );
            }
            return None;
        }
        let previous: Option<Point2> = self.previous(camera, rig);
        Some(Candidate { rig, pixel, confidence: keypoint.confidence, previous })
    }

    /// Looks at a frame of a camera, and hands back the sightings that are worth
    /// keeping unless the keypoint has hardly moved.
    pub fn consider(
        &mut self,
        camera: usize,
        frame: &PoseFrame,
        config: &RecorderConfig,
    ) -> (candidates: Vec<Candidate>)
        requires
            old(self).well_formed(),
            camera < old(self)@.trails.len(),
            old(self).recording.cameras@[camera as int].roomy(),
        ensures
            final(self).well_formed(),
            (final(self)@, candidates@) == old(self)@.considered(camera as int, *frame, *config),
            final(self).recording.duration == old(self).recording.duration,
    {
        let mut candidates: Vec<Candidate> = Vec::new();
        if let Some(seq) = self.last_seq[camera] {
            if seq == frame.seq {
                return candidates;
            }
        }
        self.last_seq.set(camera, Some(frame.seq));
        let trail: &mut CameraTrail = &mut self.recording.cameras[camera];
        trail.width = frame.width;
        trail.height = frame.height;
        proof {
            lemma_one_trail_changed(
                old(self).recording.cameras@,
                self.recording.cameras@,
                camera as int,
            );
            assert(self@ == old(self)@.noted(camera as int, *frame));
        }
        let ghost noted = self@;
        if self.recording.cameras[camera].samples.len() >= config.max_per_camera {
            return candidates;
        }
        let roles: usize = if config.use_controllers {
            3
        } else {
            1
        };
        let mut i: usize = 0;
        while i < roles
            invariant
                i <= roles <= 3,
                self.well_formed(),
                camera < self@.trails.len(),
                (self@, candidates@) == noted.sighted_all(camera as int, *frame, *config, i as nat),
                self@.trails[camera as int].rejected_confidence <= u64::MAX - 3 + i,
                self@.trails[camera as int].rejected_no_pose <= u64::MAX - 3 + i,
                self@.trails[camera as int].rejected_offscreen <= u64::MAX - 3 + i,
                self.recording.duration == old(self).recording.duration,
            decreases roles - i,
        {
            let role: Role = Role::RIGS[i];
            if let Some(candidate) = self.look(camera, frame, config, role) {
                candidates.push(candidate);
            }
            i = i + 1;
        }
        candidates
    }

    /// Keeps a sighting, unless the camera is full or the keypoint has hardly
    /// moved from where this camera last saw the rig. `moved` is how far that
    /// was, in pixels.
    pub fn judge(
        &mut self,
        camera: usize,
        at: Instant,
        candidate: Candidate,
        moved: Scalar,
        config: &RecorderConfig,
    )
        requires
            old(self).well_formed(),
            camera < old(self)@.trails.len(),
            old(self).recording.cameras@[camera as int].roomy(),
        ensures
            final(self).well_formed(),
            final(self)@ == old(self)@.judged(camera as int, at, candidate, moved, *config),
            final(self).recording.duration == old(self).recording.duration,
    {
        let rig: usize = candidate.rig;
        if self.recording.cameras[camera].samples.len() >= config.max_per_camera {
            return;
        }
        if candidate.previous.is_some() && moved.lt(config.min_pixel_step) {
            let trail: &mut CameraTrail = &mut self.recording.cameras[camera];
            trail.rejected_stationary = trail.rejected_stationary + 1;
            proof {
                lemma_one_trail_changed(
                    old(self).recording.cameras@,
                    self.recording.cameras@,
                    camera as int,
                );
            }
            return;
        }
        let ghost rows = self.last_pixel@;
        let row: &mut Vec<Option<Point2>> = &mut self.last_pixel[camera];
        let ghost start = row@;
        while row.len() <= rig
            invariant
                row@.len() >= start.len(),
                row@.take(start.len() as int) == start,
                forall|k: int| start.len() <= k < row@.len() ==> #[trigger] row@[k] is None,
                row@.len() <= start.len() || row@.len() <= rig + 1,
            decreases rig + 1 - row@.len(),
        {
            row.push(None);
            assert(row@.take(start.len() as int) =~= start);
        }
        let ghost grown = row@;
        row.set(rig, Some(candidate.pixel));
        proof {
            let key = (camera as int, rig as int);
            assert(self.last_pixel@ =~= rows.update(
                camera as int,
                self.last_pixel@[camera as int],
            ));
            let after = self.last_pixel@[camera as int]@;
            assert forall|k: int| 0 <= k < after.len() && k != rig implies (#[trigger] after[k]
                is Some) == (k < start.len() && start[k] is Some) && (k < start.len() ==> after[k]
                == start[k]) by {
                if k < start.len() {
                    assert(grown.take(start.len() as int)[k] == start[k]);
                }
            }
            assert(pixel_map(self.last_pixel@) =~= pixel_map(rows).insert(key, candidate.pixel));
        }
        let trail: &mut CameraTrail = &mut self.recording.cameras[camera];
        trail.record(
            Sample { at, rig, pixel: candidate.pixel, confidence: candidate.confidence },
        );
        proof {
            lemma_one_trail_changed(
                old(self).recording.cameras@,
                self.recording.cameras@,
                camera as int,
            );
        }
    }

    /// Whether a camera's counts can still go up.
    pub fn has_room(&self, camera: usize) -> (room: bool)
        requires
            camera < self.recording.cameras@.len(),
        ensures
            room == self.recording.cameras@[camera as int].roomy(),
    {
        let trail: &CameraTrail = &self.recording.cameras[camera];
        let mut i: usize = 0;
        while i < trail.coverage.cells.len()
            invariant
                i <= trail.coverage.cells.len(),
                camera < self.recording.cameras@.len(),
                *trail == self.recording.cameras@[camera as int],
                forall|k: int| 0 <= k < i ==> #[trigger] trail.coverage.cells@[k] < u32::MAX,
            decreases trail.coverage.cells.len() - i,
        {
            if trail.coverage.cells[i] == u32::MAX {
                assert(trail.coverage.cells@[i as int] == u32::MAX);
                return false;
            }
            i = i + 1;
        }
        trail.rejected_confidence <= u64::MAX - 3 && trail.rejected_stationary <= u64::MAX - 3
            && trail.rejected_no_pose <= u64::MAX - 3 && trail.rejected_offscreen <= u64::MAX - 3
    }

    /// The first rig that is the headset's.
    pub fn head(&self) -> (head: Option<usize>)
        ensures
            ({
                let at = first_where(self@.rigs, |rig: Rig| rig.role == Role::Head);
                match head {
                    Some(head) => head == at && at < self@.rigs.len(),
                    None => at == self@.rigs.len(),
                }
            }),
    {
        let ghost wanted = |rig: Rig| rig.role == Role::Head;
        let mut i: usize = 0;
        while i < self.recording.rigs.len()
            invariant
                i <= self.recording.rigs.len(),
                wanted == (|rig: Rig| rig.role == Role::Head),
                forall|k: int| 0 <= k < i ==> !wanted(#[trigger] self.recording.rigs@[k]),
            decreases self.recording.rigs.len() - i,
        {
            if self.recording.rigs[i].role == Role::Head {
                proof {
                    lemma_first_where_is(self.recording.rigs@, wanted, i as int);
                }
                return Some(i);
            }
            i = i + 1;
        }
        proof {
            lemma_first_where_is(self.recording.rigs@, wanted, i as int);
        }
        None
    }

    /// The one thing worth interrupting the user for while they are still
    /// walking, given how much the headset has turned.
    ///
    /// Only worth saying once there is enough of a walk to judge.
    pub fn warning(&self, turned: Scalar) -> (warning: Option<&'static str>)
        requires
            self.well_formed(),
        ensures
            ({
                let seen = exists|k: int|
                    0 <= k < self@.rigs.len() && (#[trigger] self@.rigs[k]).role == Role::Head;
                let flagged = seen && span_of(self@.poses[Role::Head.rank()]) >= LONG_ENOUGH
                    && turned.less(Scalar::of(TURNED_ENOUGH));
                match warning {
                    Some(text) => flagged && text@
                        == "turn your head more while walking: the offset between the headset and the head keypoint cannot be separated from the camera positions otherwise"@,
                    None => !flagged,
                }
            }),
    {
        proof {
            lemma_first_where(self@.rigs, |rig: Rig| rig.role == Role::Head);
        }
        match self.head() {
            Some(head) => {
                assert(self@.rigs[head as int].role == Role::Head);
                assert(self.recording.tracks@[head as int]@ == self@.poses[Role::Head.rank()]);
                if self.recording.tracks[head].span().nanos < LONG_ENOUGH {
                    return None;
                }
                if turned.lt(Scalar::from_bits(TURNED_ENOUGH)) {
                    Some(
                        "turn your head more while walking: the offset between the headset and the head keypoint cannot be separated from the camera positions otherwise",
                    )
                } else {
                    None
                }
            },
            None => None,
        }
    }
}

/// A list of trails in which one was changed.
proof fn lemma_one_trail_changed(before: Seq<CameraTrail>, after: Seq<CameraTrail>, camera: int)
    requires
        0 <= camera < before.len(),
        after.len() == before.len(),
        forall|k: int| 0 <= k < before.len() && k != camera ==> #[trigger] after[k] == before[k],
    ensures
        after.map_values(|trail: CameraTrail| trail@) == before.map_values(
            |trail: CameraTrail| trail@,
        ).update(camera, after[camera]@),
{
    assert(after.map_values(|trail: CameraTrail| trail@) =~= before.map_values(
        |trail: CameraTrail| trail@,
    ).update(camera, after[camera]@));
}

/// A frame that was already taken is not taken again.
pub proof fn the_same_frame_is_not_recorded_twice(
    walk: WalkModel,
    camera: int,
    frame: PoseFrame,
    config: RecorderConfig,
)
    requires
        0 <= camera < walk.trails.len(),
        walk.seqs.len() == walk.trails.len(),
    ensures
        ({
            let once = walk.considered(camera, frame, config).0;
            once.considered(camera, frame, config) == (once, Seq::<Candidate>::empty())
        }),
{
    lemma_looking_keeps_the_frame(walk.noted(camera, frame), camera, frame, config, 3);
    lemma_looking_keeps_the_frame(walk.noted(camera, frame), camera, frame, config, 1);
}

proof fn lemma_looking_keeps_the_frame(
    walk: WalkModel,
    camera: int,
    frame: PoseFrame,
    config: RecorderConfig,
    n: nat,
)
    ensures
        walk.sighted_all(camera, frame, config, n).0.seqs == walk.seqs,
    decreases n,
{
    if n > 0 {
        lemma_looking_keeps_the_frame(walk, camera, frame, config, (n - 1) as nat);
    }
}

/// Whether no camera has more samples than it may have.
pub open spec fn within_cap(walk: WalkModel, config: RecorderConfig) -> bool {
    forall|i: int|
        0 <= i < walk.trails.len() ==> (#[trigger] walk.trails[i]).samples.len()
            <= config.max_per_camera
}

/// No camera ever gets more samples than it may have, however many of a frame's
/// sightings are kept.
pub proof fn no_camera_takes_more_than_its_cap(
    walk: WalkModel,
    camera: int,
    frame: PoseFrame,
    at: Instant,
    candidate: Candidate,
    moved: Scalar,
    config: RecorderConfig,
)
    requires
        0 <= camera < walk.trails.len(),
        within_cap(walk, config),
    ensures
        within_cap(walk.considered(camera, frame, config).0, config),
        within_cap(walk.judged(camera, at, candidate, moved, config), config),
{
    lemma_looking_takes_no_sample(walk.noted(camera, frame), camera, frame, config, 3);
    lemma_looking_takes_no_sample(walk.noted(camera, frame), camera, frame, config, 1);
}

proof fn lemma_looking_takes_no_sample(
    walk: WalkModel,
    camera: int,
    frame: PoseFrame,
    config: RecorderConfig,
    n: nat,
)
    requires
        0 <= camera < walk.trails.len(),
    ensures
        ({
            let after = walk.sighted_all(camera, frame, config, n).0;
            &&& after.trails.len() == walk.trails.len()
            &&& forall|i: int|
                0 <= i < walk.trails.len() ==> (#[trigger] after.trails[i]).samples
                    == walk.trails[i].samples
        }),
    decreases n,
{
    if n > 0 {
        lemma_looking_takes_no_sample(walk, camera, frame, config, (n - 1) as nat);
    }
}

/// Whether a candidate is worth a sample: a keypoint inside the frame, sure enough,
/// of a rig whose device was being followed when the frame was taken.
pub open spec fn sound(
    walk: WalkModel,
    candidate: Candidate,
    frame: PoseFrame,
    config: RecorderConfig,
) -> bool {
    &&& inside(candidate.pixel, frame.width, frame.height)
    &&& !candidate.confidence.less(config.min_confidence)
    &&& candidate.rig < walk.rigs.len()
    &&& covers(walk.poses[walk.rigs[candidate.rig as int].role.rank()], frame.captured_at)
}

/// Nothing is offered that the camera did not see, the model was not sure of, or
/// no pose can be paired with.
pub proof fn only_sound_sightings_are_offered(
    walk: WalkModel,
    camera: int,
    frame: PoseFrame,
    config: RecorderConfig,
    i: int,
)
    requires
        0 <= camera < walk.trails.len(),
        walk.rigs.len() + 3 <= usize::MAX,
        0 <= i < walk.considered(camera, frame, config).1.len(),
    ensures
        sound(
            walk.considered(camera, frame, config).0,
            walk.considered(camera, frame, config).1[i],
            frame,
            config,
        ),
{
    let n: nat = if config.use_controllers {
        3
    } else {
        1
    };
    lemma_sightings_are_sound(walk.noted(camera, frame), camera, frame, config, n);
}

proof fn lemma_sightings_are_sound(
    walk: WalkModel,
    camera: int,
    frame: PoseFrame,
    config: RecorderConfig,
    n: nat,
)
    requires
        n <= 3,
        walk.rigs.len() + 3 <= usize::MAX,
    ensures
        ({
            let (after, found) = walk.sighted_all(camera, frame, config, n);
            &&& after.poses == walk.poses
            &&& after.rigs.len() <= walk.rigs.len() + n
            &&& forall|i: int|
                0 <= i < found.len() ==> sound(after, #[trigger] found[i], frame, config)
        }),
    decreases n,
{
    if n > 0 {
        lemma_sightings_are_sound(walk, camera, frame, config, (n - 1) as nat);
        let (before, found) = walk.sighted_all(camera, frame, config, (n - 1) as nat);
        let role = Role::RIGS@[n - 1];
        let (after, candidate) = before.sighted(camera, frame, config, role);
        let all = walk.sighted_all(camera, frame, config, n).1;
        assert forall|k: int| 0 <= k < before.rigs.len() implies after.rigs[k]
            == before.rigs[k] by {}
        if let Some((joint, keypoint)) = spotted(frame.keypoints@, stand_ins(role), 0) {
            let rig = Rig { role, joint };
            lemma_first_where(before.rigs, same_rig(rig));
        }
        assert forall|i: int| 0 <= i < all.len() implies sound(
            after,
            #[trigger] all[i],
            frame,
            config,
        ) by {
            if i < found.len() {
                assert(sound(before, found[i], frame, config));
            }
        }
    }
}

/// With the controllers left out, only the headset's rigs are ever added.
pub proof fn controllers_can_be_left_out(
    walk: WalkModel,
    camera: int,
    frame: PoseFrame,
    config: RecorderConfig,
)
    requires
        !config.use_controllers,
        0 <= camera < walk.trails.len(),
    ensures
        ({
            let after = walk.considered(camera, frame, config).0;
            &&& after.rigs.len() <= walk.rigs.len() + 1
            &&& after.rigs.len() > walk.rigs.len() ==> after.rigs.last().role == Role::Head
            &&& forall|k: int| 0 <= k < walk.rigs.len() ==> after.rigs[k] == walk.rigs[k]
        }),
{
    reveal_with_fuel(WalkModel::sighted_all, 3);
    assert(Role::RIGS@[0] == Role::Head);
}

/// A role is stood in for by the first of its joints that a frame has.
pub proof fn the_best_stand_in_is_taken(
    keypoints: Seq<Option<Keypoint>>,
    joints: Seq<Joint>,
    n: int,
) -> (at: int)
    requires
        0 <= n <= joints.len(),
    ensures
        n <= at <= joints.len(),
        forall|j: int| n <= j < at ==> keypoints[(#[trigger] joints[j]).place()] is None,
        at == joints.len() <==> spotted(keypoints, joints, n) is None,
        at < joints.len() ==> keypoints[joints[at].place()] is Some && spotted(
            keypoints,
            joints,
            n,
        ) == Some((joints[at], keypoints[joints[at].place()]->0)),
    decreases joints.len() - n,
{
    if n == joints.len() || keypoints[joints[n].place()] is Some {
        n
    } else {
        the_best_stand_in_is_taken(keypoints, joints, n + 1)
    }
}

/// A rig keeps its place once it has one, and takes the next otherwise; the others
/// stay where they are.
pub proof fn a_rig_keeps_its_place(rigs: Seq<Rig>, rig: Rig)
    ensures
        ({
            let (place, after) = (rig_place(rigs, rig), with_rig(rigs, rig));
            &&& 0 <= place < after.len()
            &&& after[place] == rig
            &&& forall|i: int| 0 <= i < rigs.len() ==> #[trigger] after[i] == rigs[i]
            &&& after.len() == if rigs.contains(rig) {
                rigs.len()
            } else {
                rigs.len() + 1
            }
            &&& forall|i: int| 0 <= i < place ==> #[trigger] after[i] != rig
        }),
{
    let same = same_rig(rig);
    lemma_first_where(rigs, same);
    let place = rig_place(rigs, rig);
    if place < rigs.len() {
        assert(same(rigs[place]));
        assert(rigs[place] == rig);
    } else {
        assert forall|i: int| 0 <= i < rigs.len() implies #[trigger] rigs[i] != rig by {
            assert(!same(rigs[i]));
        }
    }
    assert forall|i: int| 0 <= i < place implies #[trigger] with_rig(rigs, rig)[i] != rig by {
        assert(!same(rigs[i]));
    }
}

/// Whether nothing but what was turned down tells one trail from another.
pub open spec fn only_counts_differ(a: TrailModel, b: TrailModel) -> bool {
    &&& a.camera == b.camera
    &&& a.width == b.width && a.height == b.height
    &&& a.samples == b.samples
    &&& a.columns == b.columns && a.rows == b.rows
    &&& a.cells == b.cells
}

/// A role's sighting in a frame is handed on, as the camera saw it, exactly if the
/// model was sure of it, there are poses either side of the frame to pair it with and
/// it is in the frame at all; else it is counted by the first of these that fails. No
/// sample and no other camera is touched.
pub proof fn a_sighting_is_handed_on_as_it_was_seen(
    walk: WalkModel,
    camera: int,
    frame: PoseFrame,
    config: RecorderConfig,
    role: Role,
)
    requires
        0 <= camera < walk.trails.len(),
        walk.rigs.len() < usize::MAX,
        spotted(frame.keypoints@, stand_ins(role), 0) is Some,
    ensures
        ({
            let (joint, keypoint) = spotted(frame.keypoints@, stand_ins(role), 0)->0;
            let (after, candidate) = walk.sighted(camera, frame, config, role);
            let sure = !keypoint.confidence.less(config.min_confidence);
            let poses = walk.poses[role.rank()];
            let paired = poses.len() > 0 && poses[0].at.nanos <= frame.captured_at.nanos
                <= poses[poses.len() - 1].at.nanos;
            let shown = inside(
                Point2 { x: keypoint.x, y: keypoint.y },
                frame.width,
                frame.height,
            );
            let (old_trail, trail) = (walk.trails[camera], after.trails[camera]);
            &&& candidate is Some <==> sure && paired && shown
            &&& candidate is Some ==> candidate->0.pixel.x == keypoint.x
                && candidate->0.pixel.y == keypoint.y && candidate->0.confidence
                == keypoint.confidence && after.rigs[candidate->0.rig as int] == (Rig {
                role,
                joint,
            })
            &&& candidate is Some ==> candidate->0.previous == if walk.pixels.dom().contains(
                (camera, candidate->0.rig as int),
            ) {
                Some(walk.pixels[(camera, candidate->0.rig as int)])
            } else {
                None
            }
            &&& trail.rejected_confidence == old_trail.rejected_confidence + if sure {
                0int
            } else {
                1
            }
            &&& trail.rejected_no_pose == old_trail.rejected_no_pose + if sure && !paired {
                1int
            } else {
                0
            }
            &&& trail.rejected_offscreen == old_trail.rejected_offscreen + if sure && paired
                && !shown {
                1int
            } else {
                0
            }
            &&& trail.rejected_stationary == old_trail.rejected_stationary
            &&& only_counts_differ(trail, old_trail)
            &&& !sure || walk.rigs.contains(Rig { role, joint }) ==> after.rigs == walk.rigs
            &&& sure && !walk.rigs.contains(Rig { role, joint }) ==> after.rigs
                == walk.rigs.push(Rig { role, joint })
            &&& after.trails.len() == walk.trails.len()
            &&& forall|i: int|
                0 <= i < walk.trails.len() && i != camera ==> #[trigger] after.trails[i]
                    == walk.trails[i]
            &&& after.poses == walk.poses
            &&& after.seqs == walk.seqs
            &&& after.pixels == walk.pixels
        }),
{
    let (joint, keypoint) = spotted(frame.keypoints@, stand_ins(role), 0)->0;
    a_rig_keeps_its_place(walk.rigs, Rig { role, joint });
}

/// A role that nothing in a frame stands in for leaves the walk as it is.
pub proof fn a_role_nobody_sees_changes_nothing(
    walk: WalkModel,
    camera: int,
    frame: PoseFrame,
    config: RecorderConfig,
    role: Role,
)
    requires
        spotted(frame.keypoints@, stand_ins(role), 0) is None,
    ensures
        walk.sighted(camera, frame, config, role).0 == walk,
        walk.sighted(camera, frame, config, role).1 is None,
{
}

/// A sighting is kept, as it was handed on and stamped with its frame, unless the
/// camera is full or the keypoint has hardly moved since this camera last kept one of
/// its rig.
pub proof fn a_kept_sighting_is_as_it_was_seen(
    walk: WalkModel,
    camera: int,
    at: Instant,
    candidate: Candidate,
    moved: Scalar,
    config: RecorderConfig,
)
    requires
        0 <= camera < walk.trails.len(),
    ensures
        ({
            let after = walk.judged(camera, at, candidate, moved, config);
            let (old_trail, trail) = (walk.trails[camera], after.trails[camera]);
            let full = old_trail.samples.len() >= config.max_per_camera;
            let still = candidate.previous is Some && moved.less(config.min_pixel_step);
            let n = old_trail.samples.len() as int;
            &&& full ==> after == walk
            &&& !full && still ==> only_counts_differ(trail, old_trail)
                && trail.rejected_stationary == old_trail.rejected_stationary + 1 && after.pixels
                == walk.pixels
            &&& trail.rejected_confidence == old_trail.rejected_confidence
            &&& trail.rejected_no_pose == old_trail.rejected_no_pose
            &&& trail.rejected_offscreen == old_trail.rejected_offscreen
            &&& !full && !still ==> {
                &&& trail.samples.len() == n + 1
                &&& trail.samples.take(n) == old_trail.samples
                &&& trail.samples[n].at == at
                &&& trail.samples[n].rig == candidate.rig
                &&& trail.samples[n].pixel.x == candidate.pixel.x
                &&& trail.samples[n].pixel.y == candidate.pixel.y
                &&& trail.samples[n].confidence == candidate.confidence
                &&& trail.rejected_stationary == old_trail.rejected_stationary
                &&& trail.camera == old_trail.camera
                &&& trail.width == old_trail.width && trail.height == old_trail.height
                &&& trail.cells == counted(
                    old_trail.cells,
                    old_trail.columns,
                    old_trail.rows,
                    candidate.pixel,
                    old_trail.width,
                    old_trail.height,
                )
                &&& after.pixels.dom().contains((camera, candidate.rig as int))
                &&& after.pixels[(camera, candidate.rig as int)] == candidate.pixel
                &&& forall|key: (int, int)|
                    key != (camera, candidate.rig as int) ==> #[trigger] after.pixels.dom().contains(
                        key,
                    ) == walk.pixels.dom().contains(key)
                &&& forall|key: (int, int)|
                    key != (camera, candidate.rig as int) && walk.pixels.dom().contains(key)
                        ==> #[trigger] after.pixels[key] == walk.pixels[key]
            }
            &&& after.trails.len() == walk.trails.len()
            &&& forall|i: int|
                0 <= i < walk.trails.len() && i != camera ==> #[trigger] after.trails[i]
                    == walk.trails[i]
            &&& after.rigs == walk.rigs
            &&& after.poses == walk.poses
            &&& after.seqs == walk.seqs
        }),
{
    let after = walk.judged(camera, at, candidate, moved, config);
    let n = walk.trails[camera].samples.len() as int;
    if after.trails[camera].samples.len() == n + 1 {
        assert(after.trails[camera].samples.take(n) =~= walk.trails[camera].samples);
    }
}

/// A frame is taken note of: its number and the size its pixels refer to. A frame that
/// was taken already, and any frame of a camera that is full, offers nothing.
pub proof fn a_frame_is_taken_note_of(
    walk: WalkModel,
    camera: int,
    frame: PoseFrame,
    config: RecorderConfig,
)
    requires
        0 <= camera < walk.trails.len(),
        walk.seqs.len() == walk.trails.len(),
    ensures
        ({
            let noted = walk.noted(camera, frame);
            &&& noted.seqs[camera] == Some(frame.seq)
            &&& noted.trails[camera].width == frame.width
            &&& noted.trails[camera].height == frame.height
            &&& noted.trails[camera] == (TrailModel {
                width: frame.width,
                height: frame.height,
                ..walk.trails[camera]
            })
            &&& noted.trails.len() == walk.trails.len()
            &&& forall|i: int|
                0 <= i < walk.trails.len() && i != camera ==> #[trigger] noted.trails[i]
                    == walk.trails[i] && noted.seqs[i] == walk.seqs[i]
            &&& noted.rigs == walk.rigs && noted.poses == walk.poses && noted.pixels == walk.pixels
            &&& walk.seqs[camera] == Some(frame.seq) ==> walk.considered(camera, frame, config) == (
                walk,
                Seq::<Candidate>::empty(),
            )
            &&& walk.seqs[camera] != Some(frame.seq) && walk.trails[camera].samples.len()
                >= config.max_per_camera ==> walk.considered(camera, frame, config) == (
                noted,
                Seq::<Candidate>::empty(),
            )
            &&& walk.seqs[camera] != Some(frame.seq) && walk.trails[camera].samples.len()
                < config.max_per_camera && config.use_controllers ==> walk.considered(
                camera,
                frame,
                config,
            ) == noted.sighted_all(camera, frame, config, 3)
            &&& walk.seqs[camera] != Some(frame.seq) && walk.trails[camera].samples.len()
                < config.max_per_camera && !config.use_controllers ==> walk.considered(
                camera,
                frame,
                config,
            ) == noted.sighted_all(camera, frame, config, 1)
        }),
{
}

/// The headset is looked for first, then the left controller, then the right.
pub proof fn the_headset_is_looked_for_first(
    walk: WalkModel,
    camera: int,
    frame: PoseFrame,
    config: RecorderConfig,
)
    ensures
        ({
            let (one, head) = walk.sighted(camera, frame, config, Role::Head);
            let (two, left) = one.sighted(camera, frame, config, Role::LeftHand);
            let (three, right) = two.sighted(camera, frame, config, Role::RightHand);
            let list = |found: Option<Candidate>|
                if found is Some {
                    seq![found->0]
                } else {
                    Seq::empty()
                };
            &&& walk.sighted_all(camera, frame, config, 1) == (one, list(head))
            &&& walk.sighted_all(camera, frame, config, 3) == (three, list(head) + list(left)
                + list(right))
        }),
{
    reveal_with_fuel(WalkModel::sighted_all, 4);
    assert(Role::RIGS@[0] == Role::Head);
    assert(Role::RIGS@[1] == Role::LeftHand);
    assert(Role::RIGS@[2] == Role::RightHand);
    let (one, head) = walk.sighted(camera, frame, config, Role::Head);
    let (two, left) = one.sighted(camera, frame, config, Role::LeftHand);
    let (three, right) = two.sighted(camera, frame, config, Role::RightHand);
    let list = |found: Option<Candidate>|
        if found is Some {
            seq![found->0]
        } else {
            Seq::empty()
        };
    assert(walk.sighted_all(camera, frame, config, 1).1 =~= list(head));
    assert(walk.sighted_all(camera, frame, config, 3).1 =~= list(head) + list(left) + list(right));
}

/// A pose of a device joins those of its role, and no other role's.
pub proof fn a_pose_joins_those_of_its_role(
    walk: WalkModel,
    role: Role,
    at: Instant,
    pose: DevicePose,
)
    requires
        walk.poses.len() == 4,
    ensures
        ({
            let after = walk.followed(role, at, pose);
            let mine = role.rank();
            &&& after.poses.len() == 4
            &&& after.poses[mine].len() == walk.poses[mine].len() + 1
            &&& after.poses[mine].last().at == at
            &&& after.poses[mine].last().pose == pose
            &&& after.poses[mine].drop_last() == walk.poses[mine]
            &&& forall|i: int| 0 <= i < 4 && i != mine ==> #[trigger] after.poses[i] == walk.poses[i]
            &&& after.rigs == walk.rigs && after.trails == walk.trails && after.seqs == walk.seqs
                && after.pixels == walk.pixels
        }),
{
    let after = walk.followed(role, at, pose);
    assert(after.poses[role.rank()].drop_last() =~= walk.poses[role.rank()]);
}

} // verus!
