//! Messages that settle.

use optra::app::panels::notice::{Level, Message, Notice, Threshold, LINGER};
use optra::scalar::Scalar;
use optra::time::{Duration, Instant};

fn warning(text: &str) -> Option<Message> {
    Some(Message { text: text.to_owned(), level: Level::Warning })
}

fn start() -> Instant {
    Instant { nanos: 5_000_000_000 }
}

#[test]
fn a_message_asked_for_once_never_appears() {
    let mut notice = Notice::default();
    let start = start();

    // Sixty repaints a second, every other one wanting the warning: what a
    // statistic sitting exactly on its threshold looks like.
    for tick in 0..600u32 {
        let at = start.after(Duration::from_millis(tick as u64 * 16));
        let wanted = if tick % 2 == 0 { warning("on the edge") } else { None };
        notice.settle(wanted, at);
    }

    assert!(!notice.visible(), "a warning that blinks at thirty hertz should not be drawn at all");
}

#[test]
fn a_message_that_holds_appears_and_then_stays() {
    let mut notice = Notice::default();
    let start = start();

    for tick in 0..60u32 {
        notice.settle(
            warning("cam1 is not being used"),
            start.after(Duration::from_millis(tick as u64 * 16)),
        );
    }
    assert!(notice.visible(), "half a second of asking should be enough");

    // It goes away, and the layout under it must not move for a while.
    let gone = start.after(Duration::from_secs(1));
    notice.settle(None, gone);
    notice.settle(None, gone.after(Duration::from_millis(1000)));
    assert!(notice.visible(), "a second later it should still be there");

    notice.settle(None, gone.after(Duration::from_nanos(LINGER)));
    assert!(!notice.visible(), "and by the linger it should be gone");
}

fn over(threshold: &mut Threshold, value: f64, limit: f64, margin: f64) -> bool {
    let scalar = |number: f64| Scalar::from_bits(number.to_bits());
    threshold.over(scalar(value), scalar(limit), scalar(limit * (1.0 - margin)))
}

#[test]
fn a_threshold_does_not_report_both_answers_at_once() {
    let mut threshold = Threshold::default();

    assert!(!over(&mut threshold, 0.019, 0.02, 0.25));
    assert!(over(&mut threshold, 0.021, 0.02, 0.25));
    // Back under the limit, but not far enough under to count as settled.
    assert!(over(&mut threshold, 0.019, 0.02, 0.25));
    assert!(!over(&mut threshold, 0.014, 0.02, 0.25));
}

#[test]
fn the_same_words_at_another_level_are_another_message() {
    let mut notice = Notice::default();
    let start = start();
    notice.settle(warning("late"), start);
    notice.settle(warning("late"), start.after(Duration::from_millis(400)));
    assert_eq!(notice.shown.as_ref().map(|message| message.level), Some(Level::Warning));

    let problem = || Some(Message { text: "late".to_owned(), level: Level::Problem });
    notice.settle(problem(), start.after(Duration::from_millis(500)));
    assert_eq!(notice.shown.as_ref().map(|message| message.level), Some(Level::Warning));
    notice.settle(problem(), start.after(Duration::from_millis(900)));
    assert_eq!(notice.shown.as_ref().map(|message| message.level), Some(Level::Problem));
}

#[test]
fn asking_for_what_is_shown_forgets_the_change_that_was_wanted() {
    let mut notice = Notice::default();
    let start = start();
    notice.settle(warning("late"), start);
    assert_eq!(notice.asked.as_ref().map(|asked| asked.since), Some(start));
    notice.settle(None, start.after(Duration::from_millis(300)));
    assert!(notice.asked.is_none());
    notice.settle(warning("late"), start.after(Duration::from_millis(390)));
    notice.settle(warning("late"), start.after(Duration::from_millis(789)));
    assert!(!notice.visible());
    notice.settle(warning("late"), start.after(Duration::from_millis(790)));
    assert!(notice.visible());
}

#[test]
fn a_message_that_takes_over_from_another_waits_its_own_turn() {
    let mut notice = Notice::default();
    let start = start();
    notice.settle(warning("first"), start);
    notice.settle(warning("second"), start.after(Duration::from_millis(400)));
    assert!(!notice.visible(), "the second was asked for only now");
    notice.settle(warning("second"), start.after(Duration::from_millis(799)));
    assert!(!notice.visible());
    notice.settle(warning("second"), start.after(Duration::from_millis(800)));
    assert_eq!(notice.shown.map(|message| message.text).as_deref(), Some("second"));
}

#[test]
fn two_messages_in_turn_show_neither() {
    let mut notice = Notice::default();
    for tick in 0..600u64 {
        let wanted = warning(if tick % 2 == 0 { "first" } else { "second" });
        notice.settle(wanted, start().after(Duration::from_millis(tick * 16)));
    }
    assert!(!notice.visible());
}

#[test]
fn the_linger_counts_from_when_nothing_was_asked_for() {
    let mut notice = Notice::default();
    let start = start();
    notice.settle(warning("late"), start);
    notice.settle(warning("late"), start.after(Duration::from_millis(400)));
    assert!(notice.visible());
    notice.settle(warning("other"), start.after(Duration::from_millis(500)));
    notice.settle(None, start.after(Duration::from_millis(600)));
    notice.settle(None, start.after(Duration::from_millis(3099)));
    assert!(notice.visible());
    notice.settle(None, start.after(Duration::from_millis(3100)));
    assert!(!notice.visible());
}
