//! The trackers that are sent out.

use vstd::prelude::*;

verus! {

/// What a virtual tracker stands for.
#[derive(Debug, Clone, Copy, PartialEq, Eq, PartialOrd, Ord, Hash, Structural)]
pub enum TrackerRole {
    Hip,
    LeftFoot,
    RightFoot,
    LeftKnee,
    RightKnee,
    Chest,
    LeftElbow,
    RightElbow,
}

/// How many roles there are.
pub const ROLES: usize = 8;

impl TrackerRole {
    /// Every role, the ones that make full-body tracking work first.
    pub const ALL: [TrackerRole; 8] = [
        TrackerRole::Hip,
        TrackerRole::LeftFoot,
        TrackerRole::RightFoot,
        TrackerRole::LeftKnee,
        TrackerRole::RightKnee,
        TrackerRole::Chest,
        TrackerRole::LeftElbow,
        TrackerRole::RightElbow,
    ];

    /// The name shown for the role.
    pub open spec fn title(self) -> &'static str {
        match self {
            TrackerRole::Hip => "Hip",
            TrackerRole::LeftFoot => "Left foot",
            TrackerRole::RightFoot => "Right foot",
            TrackerRole::LeftKnee => "Left knee",
            TrackerRole::RightKnee => "Right knee",
            TrackerRole::Chest => "Chest",
            TrackerRole::LeftElbow => "Left elbow",
            TrackerRole::RightElbow => "Right elbow",
        }
    }

    /// The name shown for the role.
    pub fn label(self) -> (label: &'static str)
        ensures
            label@ == self.title()@,
    {
        match self {
            TrackerRole::Hip => "Hip",
            TrackerRole::LeftFoot => "Left foot",
            TrackerRole::RightFoot => "Right foot",
            TrackerRole::LeftKnee => "Left knee",
            TrackerRole::RightKnee => "Right knee",
            TrackerRole::Chest => "Chest",
            TrackerRole::LeftElbow => "Left elbow",
            TrackerRole::RightElbow => "Right elbow",
        }
    }

    /// Hips and both feet: the three that make full-body tracking work, and the
    /// three a camera looking at a standing person can actually see.
    pub open spec fn essential(self) -> bool {
        self == TrackerRole::Hip || self == TrackerRole::LeftFoot || self == TrackerRole::RightFoot
    }

    /// Whether full-body tracking does not work without it.
    pub fn is_essential(self) -> (essential: bool)
        ensures
            essential == self.essential(),
    {
        matches!(self, TrackerRole::Hip | TrackerRole::LeftFoot | TrackerRole::RightFoot)
    }
}

/// Full-body tracking needs the hip and both feet, and they are the first of the roles;
/// every role has a place of its own.
pub proof fn the_essential_roles_come_first(i: int, j: int)
    requires
        0 <= i < 8,
        0 <= j < 8,
    ensures
        TrackerRole::ALL@[i].essential() <==> i < 3,
        TrackerRole::ALL@[i] == TrackerRole::ALL@[j] <==> i == j,
        TrackerRole::ALL@[0] == TrackerRole::Hip,
{
}

} // verus!
