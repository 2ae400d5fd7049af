//! The panels making up the main window.

pub mod calibration;
pub mod cameras;
pub mod guide;
pub mod log;
pub mod models;
pub mod notice;
pub mod output;
pub mod tracking;

use vstd::prelude::*;

verus! {

/// One page of the main window.
#[derive(Debug, Clone, Copy, PartialEq, Eq, Structural)]
pub enum Panel {
    Cameras,
    Models,
    Calibration,
    Tracking,
    Output,
    Log,
}

impl Panel {
    pub const ALL: [Panel; 6] = [
        Panel::Cameras,
        Panel::Models,
        Panel::Calibration,
        Panel::Tracking,
        Panel::Output,
        Panel::Log,
    ];

    /// The heading of the panel.
    pub fn title(self) -> (title: &'static str)
        ensures
            title@ == match self {
                Panel::Cameras => "Cameras"@,
                Panel::Models => "Models"@,
                Panel::Calibration => "Calibration"@,
                Panel::Tracking => "Tracking"@,
                Panel::Output => "Output"@,
                Panel::Log => "Log"@,
            },
    {
        match self {
            Panel::Cameras => "Cameras",
            Panel::Models => "Models",
            Panel::Calibration => "Calibration",
            Panel::Tracking => "Tracking",
            Panel::Output => "Output",
            Panel::Log => "Log",
        }
    }

    /// Whether the shell should put this panel's body in a scroll area.
    ///
    /// Almost every panel wants one: they are lists and tables that grow with
    /// the number of cameras, models or joints. The exceptions manage their own,
    /// because they have a header that has to stay put while the body underneath
    /// moves.
    pub fn scrolls(self) -> (scrolls: bool)
        ensures
            scrolls == !(self == Panel::Cameras || self == Panel::Models || self == Panel::Log),
    {
        !matches!(self, Panel::Cameras | Panel::Models | Panel::Log)
    }

    /// One-line description shown under the panel heading.
    pub fn description(self) -> (description: &'static str)
        ensures
            description@ == match self {
                Panel::Cameras => "Select capture devices and check that every camera streams reliably."@,
                Panel::Models => "Download pose models and assign them to cameras."@,
                Panel::Calibration => "Solve camera intrinsics and extrinsics against the headset."@,
                Panel::Tracking => "Watch the reconstructed skeleton and per-joint quality."@,
                Panel::Output => "Configure the tracker output backend."@,
                Panel::Log => "Application log."@,
            },
    {
        match self {
            Panel::Cameras => "Select capture devices and check that every camera streams reliably.",
            Panel::Models => "Download pose models and assign them to cameras.",
            Panel::Calibration => "Solve camera intrinsics and extrinsics against the headset.",
            Panel::Tracking => "Watch the reconstructed skeleton and per-joint quality.",
            Panel::Output => "Configure the tracker output backend.",
            Panel::Log => "Application log.",
        }
    }
}

} // verus!
