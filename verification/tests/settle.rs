//! Joints that are held out until they mean to stay in.

use optra::fusion::settle::Settling;
use optra::models::Joint;

const DWELL: u32 = 6;

/// Nothing has gone wrong yet, so nothing is owed.
#[test]
fn a_joint_seen_from_the_start_is_used_from_the_start() {
    let mut settling = Settling::default();
    for _ in 0..10 {
        assert_eq!(settling.wait(Joint::LeftAnkle, true, DWELL), 0);
    }
}

/// The case the whole module is for.
#[test]
fn a_joint_that_alternates_is_held_out_rather_than_flipping() {
    let mut settling = Settling::default();
    let mut used = 0;

    for tick in 0..600 {
        if settling.wait(Joint::LeftAnkle, tick % 2 == 0, DWELL) == 0 {
            used += 1;
        }
    }

    // The first tick is solved and the joint has not been out yet, so it is used
    // once. After that it can never gather six in a row.
    assert_eq!(used, 1, "a joint alternating at the tick rate was let through {used} times");
}

/// A joint that genuinely comes back should come back, and not much later.
#[test]
fn a_joint_that_returns_and_stays_is_readmitted() {
    let mut settling = Settling::default();

    assert_eq!(settling.wait(Joint::Hip, false, DWELL), DWELL);
    for expected in (1..DWELL).rev() {
        assert_eq!(settling.wait(Joint::Hip, true, DWELL), expected);
    }
    assert_eq!(
        settling.wait(Joint::Hip, true, DWELL),
        0,
        "a joint solved on {DWELL} ticks running is still being held out"
    );

    // And stays in, rather than owing the dwell again every tick.
    assert_eq!(settling.wait(Joint::Hip, true, DWELL), 0);
}

/// One bad tick is enough to take a joint out.
#[test]
fn a_single_miss_takes_a_settled_joint_out() {
    let mut settling = Settling::default();
    for _ in 0..100 {
        settling.wait(Joint::RightKnee, true, DWELL);
    }
    settling.wait(Joint::RightKnee, false, DWELL);
    assert!(settling.wait(Joint::RightKnee, true, DWELL) > 0);
}

/// Joints do not share a verdict.
#[test]
fn one_joint_settling_does_not_hold_another_out() {
    let mut settling = Settling::default();
    settling.wait(Joint::LeftAnkle, false, DWELL);
    assert!(settling.wait(Joint::LeftAnkle, true, DWELL) > 0);
    assert_eq!(settling.wait(Joint::RightAnkle, true, DWELL), 0);
}

/// Zero turns it off.
#[test]
fn a_dwell_of_zero_admits_everything() {
    let mut settling = Settling::default();
    settling.wait(Joint::Hip, false, 0);
    assert_eq!(settling.wait(Joint::Hip, true, 0), 0);
}
