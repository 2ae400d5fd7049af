//! Keeping a joint out until it means to stay in.
//!
//! Every test that decides whether a joint is reconstructed is a threshold on a
//! quantity that moves from tick to tick, and a joint on the edge of one passes
//! and fails at the tick rate. A joint that is reconstructed sits where the
//! cameras put it; one that is not is invented by the fit. The two differ by the
//! calibration error, so a joint that flips teleports.
//!
//! So the decision is held. A joint that fails its test goes out at once, and
//! coming back takes a run of ticks that all agree. A joint starts admitted, so
//! acquiring the body at startup costs nothing.

use vstd::prelude::*;

use crate::models::{Joint, JOINTS};

verus! {

/// Per-joint admission, so a joint on the edge of a threshold stops flipping.
#[derive(Debug, Clone)]
pub struct Settling {
    /// One entry per joint once the first tick has been seen.
    pub state: Vec<State>,
}

/// How one joint stands.
#[derive(Debug, Clone, Copy, PartialEq, Eq, Structural)]
pub struct State {
    /// Consecutive ticks the reconstruction has solved this joint.
    pub passes: u32,
    /// Whether it is currently allowed through.
    pub inside: bool,
}

/// A joint nothing has happened to yet: admitted until something takes it out.
pub open spec fn untouched() -> State {
    State { passes: 0, inside: true }
}

/// How a joint stands after one more tick.
pub open spec fn after_tick(state: State, solved: bool, dwell: u32) -> State {
    if !solved {
        State { passes: 0, inside: false }
    } else {
        let passes = if state.passes < u32::MAX {
            (state.passes + 1) as u32
        } else {
            state.passes
        };
        State { passes, inside: state.inside || passes >= dwell }
    }
}

/// What a joint owes after a tick left it in this state.
pub open spec fn owed(state: State, dwell: u32) -> int {
    if state.inside {
        0
    } else {
        dwell - state.passes
    }
}

impl Default for Settling {
    fn default() -> (settling: Self)
        ensures
            settling@ == Seq::new(JOINTS as nat, |i: int| untouched()),
    {
        let settling = Settling { state: Vec::new() };
        assert(settling@ =~= Seq::new(JOINTS as nat, |i: int| untouched()));
        settling
    }
}

impl View for Settling {
    type V = Seq<State>;

    /// How each joint stands, by its index.
    open spec fn view(&self) -> Seq<State> {
        if self.state@.len() == JOINTS {
            self.state@
        } else {
            Seq::new(JOINTS as nat, |i: int| untouched())
        }
    }
}

impl Settling {
    /// How many more consecutive solved ticks this joint owes before it may be
    /// used. Zero means it may be used now.
    ///
    /// Call once per joint per tick, whether or not it was solved: a tick the
    /// joint missed is what starts it owing anything.
    pub fn wait(&mut self, joint: Joint, solved: bool, dwell: u32) -> (wait: u32)
        ensures
            final(self)@ == old(self)@.update(
                joint.place(),
                after_tick(old(self)@[joint.place()], solved, dwell),
            ),
            wait == owed(after_tick(old(self)@[joint.place()], solved, dwell), dwell),
    {
        if self.state.len() != JOINTS {
            let mut fresh: Vec<State> = Vec::new();
            while fresh.len() < JOINTS
                invariant
                    fresh.len() <= JOINTS,
                    forall|i: int| 0 <= i < fresh.len() ==> #[trigger] fresh@[i] == untouched(),
                decreases JOINTS - fresh.len(),
            {
                fresh.push(State { passes: 0, inside: true });
            }
            assert(fresh@ =~= self@);
            self.state = fresh;
        }
        let index: usize = joint.index();
        let state: State = self.state[index];
        if !solved {
            self.state.set(index, State { passes: 0, inside: false });
            return dwell;
        }
        let passes: u32 = if state.passes < u32::MAX {
            state.passes + 1
        } else {
            state.passes
        };
        if state.inside || passes >= dwell {
            self.state.set(index, State { passes, inside: true });
            0
        } else {
            self.state.set(index, State { passes, inside: false });
            dwell - passes
        }
    }
}

/// How a joint stands after a history of ticks, oldest first.
pub open spec fn after_history(ticks: Seq<bool>, dwell: u32) -> State
    decreases ticks.len(),
{
    if ticks.len() == 0 {
        untouched()
    } else {
        after_tick(after_history(ticks.drop_last(), dwell), ticks.last(), dwell)
    }
}

/// How many of the latest ticks in a row were solved.
pub open spec fn latest_run(ticks: Seq<bool>) -> nat
    decreases ticks.len(),
{
    if ticks.len() == 0 || !ticks.last() {
        0
    } else {
        latest_run(ticks.drop_last()) + 1
    }
}

/// A joint that never missed a tick may be used from the start.
pub proof fn a_joint_never_missed_is_never_held_out(ticks: Seq<bool>, dwell: u32)
    requires
        forall|i: int| 0 <= i < ticks.len() ==> #[trigger] ticks[i],
    ensures
        owed(after_history(ticks, dwell), dwell) == 0,
    decreases ticks.len(),
{
    if ticks.len() > 0 {
        let before = ticks.drop_last();
        assert forall|i: int| 0 <= i < before.len() implies #[trigger] before[i] by {
            assert(before[i] == ticks[i]);
        }
        a_joint_never_missed_is_never_held_out(before, dwell);
    }
}

/// A joint that has missed a tick is let in exactly when the latest run of
/// solved ticks is a full dwell, and until then owes the rest of it.
pub proof fn a_joint_that_missed_owes_a_full_run(ticks: Seq<bool>, dwell: u32, miss: int)
    requires
        0 <= miss < ticks.len(),
        !ticks[miss],
        ticks.len() <= u32::MAX,
    ensures
        ({
            let state = after_history(ticks, dwell);
            let run = latest_run(ticks);
            &&& state.passes == run
            &&& state.inside == (run > 0 && run >= dwell)
            &&& !ticks.last() ==> owed(state, dwell) == dwell
            &&& ticks.last() ==> owed(state, dwell) == if run >= dwell {
                0
            } else {
                dwell - run
            }
        }),
    decreases ticks.len(),
{
    lemma_run_is_short(ticks);
    if ticks.last() {
        let before = ticks.drop_last();
        assert(before[miss] == ticks[miss]);
        a_joint_that_missed_owes_a_full_run(before, dwell, miss);
        lemma_run_is_short(before);
    }
}

proof fn lemma_run_is_short(ticks: Seq<bool>)
    ensures
        latest_run(ticks) <= ticks.len(),
    decreases ticks.len(),
{
    if ticks.len() > 0 && ticks.last() {
        lemma_run_is_short(ticks.drop_last());
    }
}

} // verus!
