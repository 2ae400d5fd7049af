//! The guides, readable inside the application.
//!
//! The guides link to each other by file name. Handed to the system as an
//! address, such a link could not be opened; caught here, it switches the tab,
//! which is where that file actually is.

use vstd::prelude::*;

verus! {

/// How many guides there are.
pub const SECTIONS: usize = 3;

/// The tab labels, in the order a first install meets them.
pub const TITLES: [&'static str; 3] = [
    "Placing the cameras",
    "Calibrating a room",
    "Troubleshooting",
];

/// The file names links refer to the guides by, in the same order.
pub open spec fn file_of(section: int) -> Seq<char> {
    if section == 0 {
        "cameras.md"@
    } else if section == 1 {
        "calibration.md"@
    } else {
        "troubleshooting.md"@
    }
}

/// Which guide is open.
#[derive(Debug, Clone, Copy, PartialEq, Eq, Structural)]
pub struct GuidePanel {
    pub selected: usize,
}

impl Default for GuidePanel {
    fn default() -> (panel: Self)
        ensures
            panel.selected == 0,
    {
        GuidePanel { selected: 0 }
    }
}

impl GuidePanel {
    /// Takes a link that was clicked. One to a guide opens its tab; any other is
    /// left to the system.
    pub fn follow(&mut self, url: &String) -> (caught: bool)
        ensures
            caught == exists|section: int| 0 <= section < SECTIONS && url@ == file_of(section),
            caught ==> final(self).selected < SECTIONS && url@ == file_of(
                final(self).selected as int,
            ),
            !caught ==> final(self).selected == old(self).selected,
    {
        let cameras = "cameras.md".to_owned();
        let calibration = "calibration.md".to_owned();
        let troubleshooting = "troubleshooting.md".to_owned();
        if *url == cameras {
            assert(url@ == file_of(0));
            self.selected = 0;
            true
        } else if *url == calibration {
            assert(url@ == file_of(1));
            self.selected = 1;
            true
        } else if *url == troubleshooting {
            assert(url@ == file_of(2));
            self.selected = 2;
            true
        } else {
            assert forall|section: int| 0 <= section < SECTIONS implies url@ != file_of(
                section,
            ) by {
                assert(section == 0 || section == 1 || section == 2);
            }
            false
        }
    }
}

/// The guides are those of the cameras, the calibration and what goes wrong, each with
/// a file of its own.
pub proof fn every_guide_has_a_file_of_its_own(i: int, j: int)
    requires
        0 <= i < 3,
        0 <= j < 3,
    ensures
        file_of(i) == file_of(j) <==> i == j,
        file_of(0) == "cameras.md"@,
        file_of(1) == "calibration.md"@,
        file_of(2) == "troubleshooting.md"@,
        SECTIONS == 3,
{
    reveal_strlit("cameras.md");
    reveal_strlit("calibration.md");
    reveal_strlit("troubleshooting.md");
    assert("cameras.md"@[1] == 'a' && "calibration.md"@[2] == 'l' && "cameras.md"@[2] == 'm');
    assert("troubleshooting.md"@[0] == 't' && "calibration.md"@[0] == 'c');
    assert("cameras.md"@[0] == 'c');
}

} // verus!
