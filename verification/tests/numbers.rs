//! Numbers, times, texts and orders.

use optra::order::{pick_ranked, scalar_order, stable_order};
use optra::scalar::Scalar;
use optra::text::{decimal_text, join, padded_text, power_of_two_text, trim};
use optra::time::{Duration, Instant};

fn scalar(number: f64) -> Scalar {
    Scalar::from_bits(number.to_bits())
}

const NUMBERS: [f64; 14] = [
    f64::NEG_INFINITY,
    -1.0e300,
    -2.5,
    -1.0,
    -5e-324,
    -0.0,
    0.0,
    5e-324,
    2.2250738585072014e-308,
    1.0,
    1.0000000000000002,
    7.25,
    f64::MAX,
    f64::INFINITY,
];

#[test]
fn comparisons_are_those_of_the_hardware() {
    let mut all: Vec<f64> = NUMBERS.to_vec();
    all.push(f64::NAN);
    all.push(-f64::NAN);
    for a in &all {
        for b in &all {
            let (x, y) = (scalar(*a), scalar(*b));
            assert_eq!(x.lt(y), a < b, "{a} < {b}");
            assert_eq!(x.le(y), a <= b, "{a} <= {b}");
            assert_eq!(
                x.precedes(y),
                a.total_cmp(b) == std::cmp::Ordering::Less,
                "{a} before {b}"
            );
        }
        assert_eq!(scalar(*a).is_nan(), a.is_nan());
        assert_eq!(scalar(*a).is_finite(), a.is_finite());
        assert_eq!(scalar(*a).is_zero(), *a == 0.0);
        assert_eq!(scalar(*a).abs().bits, a.abs().to_bits());
    }
}

#[test]
fn the_larger_and_the_smaller_are_those_of_the_hardware() {
    for a in NUMBERS {
        for b in NUMBERS {
            if a == b {
                continue;
            }
            assert_eq!(scalar(a).max(scalar(b)).bits, a.max(b).to_bits(), "{a} or {b}");
            assert_eq!(scalar(a).min(scalar(b)).bits, a.min(b).to_bits(), "{a} or {b}");
        }
        assert_eq!(scalar(f64::NAN).max(scalar(a)).bits, a.to_bits());
        assert_eq!(scalar(a).max(scalar(f64::NAN)).bits, a.to_bits());
        assert_eq!(scalar(f64::NAN).min(scalar(a)).bits, a.to_bits());
    }
}

#[test]
fn whole_numbers_convert_exactly() {
    for n in [0, 1, 2, 3, 640, 1280, 65_535, 1 << 31, u32::MAX] {
        assert_eq!(Scalar::from_u32(n).bits, f64::from(n).to_bits(), "{n}");
    }
}

#[test]
fn the_whole_part_of_a_multiple_is_exact() {
    for value in [0.0, 5e-324, 0.124, 0.125, 1.0, 99.99, 1279.5, 4294967295.5] {
        for n in [0u32, 1, 6, 8, 1024] {
            assert_eq!(
                scalar(value).whole_times(n),
                (value * f64::from(n)).floor() as u64,
                "{n} times {value}"
            );
        }
    }
}

#[test]
fn a_sorted_list_has_its_middle_in_the_middle() {
    let values: Vec<Scalar> = [3.0, -1.0, 2.0, -0.0, 0.0].iter().map(|v| scalar(*v)).collect();
    assert_eq!(scalar_order(&values), vec![1, 3, 4, 2, 0]);
    assert_eq!(pick_ranked(&values, 2), scalar(0.0));
    assert_eq!(pick_ranked(&values, 4), scalar(3.0));
}

#[test]
fn equal_keys_keep_their_order() {
    assert_eq!(stable_order(&vec![5, 1, 5, 0, 1]), vec![3, 1, 4, 0, 2]);
    assert!(stable_order(&Vec::new()).is_empty());
}

#[test]
fn numbers_are_written_in_decimal() {
    assert_eq!(decimal_text(0), "0");
    assert_eq!(decimal_text(907), "907");
    assert_eq!(decimal_text(u64::MAX), u64::MAX.to_string());
    assert_eq!(padded_text(7), "07");
    assert_eq!(padded_text(70), "70");
    assert_eq!(power_of_two_text(0), "1");
    assert_eq!(power_of_two_text(10), "1024");
    assert_eq!(power_of_two_text(64), "18446744073709551616");
    assert_eq!(power_of_two_text(1023), format!("{:.0}", 2f64.powi(1023)));
}

#[test]
fn white_space_goes_from_both_ends() {
    for text in ["", "   ", "a", "  two words\t", "\u{3000}wide\u{2003}", "x\u{200b} "] {
        assert_eq!(trim(&text.to_owned()), text.trim(), "{text:?}");
    }
}

#[test]
fn texts_are_joined_with_a_separator() {
    let texts = |list: &[&str]| list.iter().map(|text| (*text).to_owned()).collect::<Vec<String>>();
    assert_eq!(join(&texts(&[]), ", "), "");
    assert_eq!(join(&texts(&["a"]), ", "), "a");
    assert_eq!(join(&texts(&["a", "", "c"]), ", "), "a, , c");
}

#[test]
fn spans_and_instants_do_not_wrap() {
    let early = Instant { nanos: 10 };
    let late = Instant { nanos: 25 };
    assert_eq!(late.saturating_duration_since(early), Duration::from_nanos(15));
    assert_eq!(early.saturating_duration_since(late), Duration::zero());
    assert_eq!(early.before(Duration::from_nanos(11)), Instant { nanos: 0 });
    assert_eq!(late.after(Duration::from_nanos(u64::MAX)), Instant { nanos: u64::MAX });
    assert_eq!(
        Duration::from_nanos(u64::MAX).saturating_add(Duration::from_nanos(1)),
        Duration::from_nanos(u64::MAX)
    );
}
