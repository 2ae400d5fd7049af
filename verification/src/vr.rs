//! The devices SteamVR tracks.

use vstd::prelude::*;

verus! {

/// What a tracked device is to the user.
#[derive(Debug, Clone, Copy, PartialEq, Eq, PartialOrd, Ord, Hash, Structural)]
pub enum Role {
    Head,
    LeftHand,
    RightHand,
    /// Any other device, such as a base station or a puck.
    Other,
}

impl Role {
    /// The roles the calibration walk can use.
    pub const RIGS: [Role; 3] = [Role::Head, Role::LeftHand, Role::RightHand];

    /// The name shown for the role.
    pub open spec fn title(self) -> &'static str {
        match self {
            Role::Head => "Headset",
            Role::LeftHand => "Left controller",
            Role::RightHand => "Right controller",
            Role::Other => "Other device",
        }
    }

    /// The name shown for the role.
    pub fn label(self) -> (label: &'static str)
        ensures
            label@ == self.title()@,
    {
        match self {
            Role::Head => "Headset",
            Role::LeftHand => "Left controller",
            Role::RightHand => "Right controller",
            Role::Other => "Other device",
        }
    }

    /// Where the role stands in a list shown to the user.
    pub open spec fn rank(self) -> int {
        match self {
            Role::Head => 0,
            Role::LeftHand => 1,
            Role::RightHand => 2,
            Role::Other => 3,
        }
    }

    /// Where the role stands in a list shown to the user.
    pub fn order(self) -> (order: u8)
        ensures
            order == self.rank(),
    {
        match self {
            Role::Head => 0,
            Role::LeftHand => 1,
            Role::RightHand => 2,
            Role::Other => 3,
        }
    }
}

/// The headset comes first, then the controllers, the left before the right, and
/// everything else last.
pub proof fn the_headset_comes_first()
    ensures
        Role::Head.rank() == 0,
        Role::LeftHand.rank() == 1,
        Role::RightHand.rank() == 2,
        Role::Other.rank() == 3,
{
}

} // verus!
