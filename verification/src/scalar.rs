//! Real numbers as the application measures them, carried by their bits.
//!
//! A [`Scalar`] holds the bit pattern of an IEEE 754 double. Every such number
//! is a whole multiple of the smallest positive one, so its value is an integer
//! once counted in those units: [`Scalar::units`]. Comparisons are stated over
//! that integer and carried out on the bits, so a threshold decided here is
//! decided exactly as the hardware would decide it.

use vstd::arithmetic::div_mod::{lemma_div_denominator, lemma_div_multiples_vanish};
use vstd::arithmetic::power2::{lemma_pow2_adds, lemma_pow2_pos, lemma_pow2_strictly_increases, lemma_pow2_unfold, lemma2_to64, pow2};
use vstd::prelude::*;

verus! {

/// The bit that holds the sign.
pub const SIGN: u64 = 0x8000_0000_0000_0000;

/// The magnitude bits of infinity: every larger magnitude is not a number.
pub const INFINITE: u64 = 0x7ff0_0000_0000_0000;

/// One past the largest fraction.
pub const FRACTION: u64 = 0x0010_0000_0000_0000;

/// How many doublings take the smallest positive double to one.
pub const UNIT_EXPONENT: u64 = 1074;

/// A double, by its bits.
#[derive(Debug, Clone, Copy, PartialEq, Eq, Structural)]
pub struct Scalar {
    pub bits: u64,
}

/// What a magnitude is worth in the smallest positive doubles. Infinity is worth
/// more than every finite magnitude.
pub open spec fn worth(magnitude: int) -> int {
    let exponent = magnitude / (FRACTION as int);
    let fraction = magnitude % (FRACTION as int);
    if exponent == 0 {
        fraction
    } else {
        (FRACTION as int + fraction) * pow2((exponent - 1) as nat)
    }
}

/// A larger magnitude is worth more.
pub proof fn lemma_worth_increases(low: int, high: int)
    requires
        0 <= low < high,
    ensures
        0 <= worth(low) < worth(high),
{
    let unit = FRACTION as int;
    let (e, f) = (low / unit, low % unit);
    let (g, h) = (high / unit, high % unit);
    assert(0 <= e <= g && 0 <= f < unit && 0 <= h < unit && (e == g ==> f < h)) by (nonlinear_arith)
        requires
            0 <= low < high,
            unit == 0x0010_0000_0000_0000,
            e == low / unit,
            f == low % unit,
            g == high / unit,
            h == high % unit,
    ;
    if g > 0 {
        lemma_pow2_pos((g - 1) as nat);
        let top = pow2((g - 1) as nat) as int;
        if e == 0 {
            assert((unit + h) * top >= unit) by (nonlinear_arith)
                requires
                    top >= 1,
                    unit >= 1,
                    h >= 0,
            ;
        } else if e == g {
            assert(0 <= (unit + f) * top < (unit + h) * top) by (nonlinear_arith)
                requires
                    top >= 1,
                    unit >= 1,
                    0 <= f < h,
            ;
        } else {
            lemma_pow2_pos((e - 1) as nat);
            let step = pow2((e - 1) as nat) as int;
            lemma_pow2_adds((e - 1) as nat, (g - e) as nat);
            lemma_pow2_pos((g - e) as nat);
            let ratio = pow2((g - e) as nat) as int;
            if g - e > 1 {
                lemma_pow2_strictly_increases(1, (g - e) as nat);
            }
            lemma2_to64();
            assert(ratio >= 2);
            assert(0 <= (unit + f) * step < (unit + h) * top) by (nonlinear_arith)
                requires
                    top == step * ratio,
                    ratio >= 2,
                    step >= 1,
                    unit >= 1,
                    0 <= f < unit,
                    h >= 0,
            {
                assert((unit + f) * step < 2 * unit * step);
                assert(2 * unit * step <= unit * top);
                assert(unit * top <= (unit + h) * top);
            }
        }
    }
}

impl Scalar {
    /// The number with these bits.
    pub open spec fn of(bits: u64) -> Scalar {
        Scalar { bits }
    }

    /// Whether the sign bit is set.
    pub open spec fn negative(self) -> bool {
        self.bits >= SIGN
    }

    /// The bits without the sign.
    pub open spec fn magnitude(self) -> int {
        if self.negative() {
            self.bits - SIGN
        } else {
            self.bits as int
        }
    }

    /// Whether the bits are no number at all.
    pub open spec fn nan(self) -> bool {
        self.magnitude() > INFINITE
    }

    /// Whether the bits are a number short of infinity.
    pub open spec fn finite(self) -> bool {
        self.magnitude() < INFINITE
    }

    /// The value, counted in the smallest positive doubles.
    pub open spec fn units(self) -> int {
        if self.negative() {
            -worth(self.magnitude())
        } else {
            worth(self.magnitude())
        }
    }

    /// Whether `self` is a smaller number than `other`; never where either is
    /// not a number.
    pub open spec fn less(self, other: Scalar) -> bool {
        !self.nan() && !other.nan() && self.units() < other.units()
    }

    /// Whether `self` is a number no larger than the number `other`.
    pub open spec fn at_most(self, other: Scalar) -> bool {
        !self.nan() && !other.nan() && self.units() <= other.units()
    }

    /// The place of the bits in the total order of all doubles, which puts the
    /// negative zero below the positive one and what is not a number at the
    /// ends.
    pub open spec fn place(self) -> int {
        if self.negative() {
            -self.magnitude() - 1
        } else {
            self.magnitude()
        }
    }

    /// The number with these bits.
    pub fn from_bits(bits: u64) -> (scalar: Self)
        ensures
            scalar.bits == bits,
    {
        Scalar { bits }
    }

    /// The bits without the sign, with the sign put back as the sign of an
    /// integer.
    fn signed(self) -> (key: i64)
        ensures
            key == if self.negative() {
                -self.magnitude()
            } else {
                self.magnitude()
            },
    {
        if self.bits >= SIGN {
            -((self.bits - SIGN) as i64)
        } else {
            self.bits as i64
        }
    }

    /// Whether the bits are no number at all.
    pub fn is_nan(self) -> (not: bool)
        ensures
            not == self.nan(),
    {
        let magnitude: u64 = if self.bits >= SIGN {
            self.bits - SIGN
        } else {
            self.bits
        };
        magnitude > INFINITE
    }

    /// Whether the bits are a number short of infinity.
    pub fn is_finite(self) -> (finite: bool)
        ensures
            finite == self.finite(),
    {
        let magnitude: u64 = if self.bits >= SIGN {
            self.bits - SIGN
        } else {
            self.bits
        };
        magnitude < INFINITE
    }

    /// `self < other`.
    pub fn lt(self, other: Scalar) -> (less: bool)
        ensures
            less == self.less(other),
    {
        proof {
            lemma_units_follow_keys(self, other);
        }
        !self.is_nan() && !other.is_nan() && self.signed() < other.signed()
    }

    /// `self <= other`.
    pub fn le(self, other: Scalar) -> (at_most: bool)
        ensures
            at_most == self.at_most(other),
    {
        proof {
            lemma_units_follow_keys(self, other);
        }
        !self.is_nan() && !other.is_nan() && self.signed() <= other.signed()
    }

    /// Whether the value is zero, of either sign.
    pub fn is_zero(self) -> (zero: bool)
        ensures
            zero == (self.units() == 0),
    {
        proof {
            if self.magnitude() > 0 {
                lemma_worth_increases(0, self.magnitude());
            }
        }
        self.signed() == 0
    }

    /// Whether `self` comes before `other` in the total order of all doubles.
    pub fn precedes(self, other: Scalar) -> (before: bool)
        ensures
            before == (self.place() < other.place()),
    {
        let here: i64 = self.signed();
        let there: i64 = other.signed();
        let (a, b): (bool, bool) = (self.bits >= SIGN, other.bits >= SIGN);
        if a && !b {
            true
        } else if !a && b {
            false
        } else {
            here < there
        }
    }

    /// The smaller of two numbers, and the one that is a number where the other
    /// is not.
    pub open spec fn smaller(self, other: Scalar) -> Scalar {
        if self.nan() || other.less(self) {
            other
        } else {
            self
        }
    }

    /// The larger of two numbers, and the one that is a number where the other
    /// is not.
    pub open spec fn larger(self, other: Scalar) -> Scalar {
        if self.nan() || self.less(other) {
            other
        } else {
            self
        }
    }

    /// The smaller of two numbers, and the one that is a number where the other
    /// is not.
    pub fn min(self, other: Scalar) -> (least: Scalar)
        ensures
            least == self.smaller(other),
    {
        if self.is_nan() || other.lt(self) {
            other
        } else {
            self
        }
    }

    /// The larger of two numbers, and the one that is a number where the other
    /// is not.
    pub fn max(self, other: Scalar) -> (most: Scalar)
        ensures
            most == self.larger(other),
    {
        if self.is_nan() || self.lt(other) {
            other
        } else {
            self
        }
    }

    /// A whole number.
    pub fn from_u32(n: u32) -> (scalar: Scalar)
        ensures
            scalar.finite(),
            !scalar.negative(),
            scalar.units() == n * pow2(UNIT_EXPONENT as nat),
    {
        if n == 0 {
            proof {
                let unit = pow2(UNIT_EXPONENT as nat);
                assert(n * unit == 0) by (nonlinear_arith)
                    requires
                        n == 0,
                ;
            }
            return Scalar { bits: 0 };
        }
        let mut significand: u64 = n as u64;
        let mut exponent: u64 = UNIT_EXPONENT + 1;
        proof {
            lemma2_to64();
            lemma_pow2_adds(32, 20);
        }
        while significand < FRACTION
            invariant
                n > 0,
                1023 <= exponent <= UNIT_EXPONENT + 1,
                pow2((UNIT_EXPONENT + 1 - exponent) as nat) <= significand < 2 * FRACTION,
                significand * pow2((exponent - 1) as nat) == n * pow2(UNIT_EXPONENT as nat),
                pow2(52) == FRACTION,
            decreases exponent,
        {
            proof {
                let done = (UNIT_EXPONENT + 1 - exponent) as nat;
                if done >= 52 {
                    if done > 52 {
                        lemma_pow2_strictly_increases(52, done);
                    }
                    assert(false);
                }
                lemma_pow2_unfold(done + 1);
                lemma_pow2_unfold((exponent - 1) as nat);
                let half = pow2((exponent - 2) as nat) as int;
                assert((2 * significand) * half == significand * (2 * half)) by (nonlinear_arith);
            }
            significand = significand * 2;
            exponent = exponent - 1;
        }
        let bits: u64 = exponent * FRACTION + (significand - FRACTION);
        proof {
            assert(bits / FRACTION == exponent && bits % FRACTION == significand - FRACTION)
                by (nonlinear_arith)
                requires
                    bits == exponent * FRACTION + (significand - FRACTION),
                    FRACTION == 0x0010_0000_0000_0000,
                    FRACTION <= significand < 2 * FRACTION,
            ;
        }
        Scalar { bits }
    }

    /// The whole part of `n` times the number.
    pub open spec fn whole_of(self, n: int) -> int {
        self.units() * n / pow2(UNIT_EXPONENT as nat) as int
    }

    /// The whole part of `n` times a number that is not negative and fits 32
    /// bits.
    pub fn whole_times(self, n: u32) -> (whole: u64)
        requires
            !self.negative(),
            self.finite(),
            self.units() < 0x1_0000_0000 * pow2(UNIT_EXPONENT as nat),
            n <= 1024,
        ensures
            whole == self.whole_of(n as int),
    {
        let exponent: u64 = self.bits / FRACTION;
        let fraction: u64 = self.bits % FRACTION;
        let significand: u64 = if exponent == 0 {
            fraction
        } else {
            FRACTION + fraction
        };
        let doublings: u64 = if exponent == 0 {
            0
        } else {
            exponent - 1
        };
        proof {
            lemma2_to64();
            assert(self.units() == significand * pow2(doublings as nat)) by {
                if exponent == 0 {
                    assert(significand * 1 == significand);
                }
            }
            if doublings >= UNIT_EXPONENT {
                lemma_pow2_adds(32, 20);
                let rest = (doublings - UNIT_EXPONENT) as nat;
                lemma_pow2_adds(UNIT_EXPONENT as nat, rest);
                lemma_pow2_pos(rest);
                lemma_pow2_pos(UNIT_EXPONENT as nat);
                let (one, more) = (pow2(UNIT_EXPONENT as nat) as int, pow2(rest) as int);
                assert(significand * (one * more) >= 0x1_0000_0000 * one) by (nonlinear_arith)
                    requires
                        significand >= 0x10_0000_0000_0000,
                        one >= 1,
                        more >= 1,
                ;
                assert(false);
            }
            assert(significand * n < 0x8000_0000_0000_0000) by (nonlinear_arith)
                requires
                    significand < 0x20_0000_0000_0000,
                    n <= 1024,
            ;
        }
        let halvings: u64 = UNIT_EXPONENT - doublings;
        let product: u64 = significand * n as u64;
        let mut whole: u64 = product;
        let mut k: u64 = 0;
        proof {
            assert(product as int / 1 == product);
        }
        while k < halvings
            invariant
                k <= halvings,
                whole == product as int / pow2(k as nat) as int,
            decreases halvings - k,
        {
            proof {
                lemma_pow2_pos(k as nat);
                lemma_pow2_unfold(k as nat + 1);
                lemma_div_denominator(product as int, pow2(k as nat) as int, 2);
                assert(pow2(k as nat) * 2 == pow2(k as nat + 1));
            }
            whole = whole / 2;
            k = k + 1;
        }
        proof {
            let (up, down) = (pow2(doublings as nat) as int, pow2(halvings as nat) as int);
            lemma_pow2_pos(doublings as nat);
            lemma_pow2_pos(halvings as nat);
            lemma_pow2_adds(doublings as nat, halvings as nat);
            assert(self.units() * n == up * product) by (nonlinear_arith)
                requires
                    self.units() == significand * up,
                    product == significand * n,
            ;
            lemma_div_multiples_vanish(product as int, up);
            lemma_div_denominator(up * product, up, down);
        }
        whole
    }

    /// The number without its sign.
    pub fn abs(self) -> (size: Scalar)
        ensures
            !size.negative(),
            size.magnitude() == self.magnitude(),
    {
        if self.bits >= SIGN {
            Scalar { bits: self.bits - SIGN }
        } else {
            self
        }
    }
}

/// Values compare as the signed magnitudes do.
proof fn lemma_units_follow_keys(a: Scalar, b: Scalar)
    ensures
        ({
            let left = if a.negative() {
                -a.magnitude()
            } else {
                a.magnitude()
            };
            let right = if b.negative() {
                -b.magnitude()
            } else {
                b.magnitude()
            };
            &&& (left < right) == (a.units() < b.units())
            &&& (left == right) == (a.units() == b.units())
        }),
{
    let (m, n) = (a.magnitude(), b.magnitude());
    if m < n {
        lemma_worth_increases(m, n);
    } else if n < m {
        lemma_worth_increases(n, m);
    }
    if m > 0 {
        lemma_worth_increases(0, m);
    }
    if n > 0 {
        lemma_worth_increases(0, n);
    }
}

/// A finite number is either at most zero or above it.
pub proof fn lemma_finite_compares(a: Scalar)
    requires
        a.finite(),
    ensures
        a.at_most(Scalar::of(0)) == !Scalar::of(0).less(a),
{
}

/// Numbers compare by their bits: two that are not negative as they stand, two that
/// are the other way round, and a negative one comes before the rest unless both are
/// zero. What is not a number compares with nothing.
pub proof fn numbers_compare_by_their_bits(a: Scalar, b: Scalar)
    ensures
        a.bits < 0x8000_0000_0000_0000 && b.bits < 0x8000_0000_0000_0000 && !a.nan() && !b.nan()
            ==> (a.less(b) <==> a.bits < b.bits) && (a.at_most(b) <==> a.bits <= b.bits),
        a.bits >= 0x8000_0000_0000_0000 && b.bits >= 0x8000_0000_0000_0000 && !a.nan() && !b.nan()
            ==> (a.less(b) <==> a.bits > b.bits) && (a.at_most(b) <==> a.bits >= b.bits),
        a.bits >= 0x8000_0000_0000_0000 && b.bits < 0x8000_0000_0000_0000 && !a.nan() && !b.nan()
            ==> a.at_most(b) && (a.less(b) <==> a.bits > 0x8000_0000_0000_0000 || b.bits > 0),
        a.nan() || b.nan() ==> !a.less(b) && !a.at_most(b),
        a.nan() <==> a.bits % 0x8000_0000_0000_0000 > 0x7ff0_0000_0000_0000,
        a.finite() <==> a.bits % 0x8000_0000_0000_0000 < 0x7ff0_0000_0000_0000,
{
    lemma_units_follow_keys(a, b);
}

/// The smaller and the larger of two numbers are one of the two, and lie on their
/// side of both; of a number and what is none, the number is taken.
pub proof fn the_smaller_and_the_larger_lie_either_side(a: Scalar, b: Scalar)
    ensures
        a.smaller(b) == a || a.smaller(b) == b,
        a.larger(b) == a || a.larger(b) == b,
        !a.nan() && !b.nan() ==> a.smaller(b).at_most(a) && a.smaller(b).at_most(b) && a.at_most(
            a.larger(b),
        ) && b.at_most(a.larger(b)),
        a.nan() ==> a.smaller(b) == b && a.larger(b) == b,
        b.nan() && !a.nan() ==> a.smaller(b) == a && a.larger(b) == a,
{
}

/// The smallest doubles are worth one unit more each, and from there on the worth doubles
/// with every step of the exponent.
pub proof fn worth_doubles_with_the_exponent(magnitude: int)
    requires
        magnitude >= 0,
    ensures
        magnitude < 0x20_0000_0000_0000 ==> worth(magnitude) == magnitude,
        magnitude >= 0x10_0000_0000_0000 ==> worth(magnitude + 0x10_0000_0000_0000) == 2 * worth(
            magnitude,
        ),
{
    let unit = FRACTION as int;
    lemma2_to64();
    if magnitude >= unit {
        let (exponent, fraction) = (magnitude / unit, magnitude % unit);
        assert((magnitude + unit) / unit == exponent + 1 && (magnitude + unit) % unit == fraction);
        lemma_pow2_unfold(exponent as nat);
        assert((unit + fraction) * (2 * pow2((exponent - 1) as nat)) == 2 * ((unit + fraction)
            * pow2((exponent - 1) as nat))) by (nonlinear_arith);
        if magnitude < 2 * unit {
            assert(exponent == 1 && fraction == magnitude - unit);
            assert(pow2((exponent - 1) as nat) == 1);
            assert((unit + fraction) * 1 == magnitude);
        }
    } else {
        assert(magnitude / unit == 0 && magnitude % unit == magnitude);
    }
}

/// The sign is the top bit, and turns a number round without changing its size; a unit is
/// two to the power of minus one thousand and seventy-four.
pub proof fn the_sign_turns_a_number_round(bits: u64)
    requires
        bits < 0x8000_0000_0000_0000,
    ensures
        ({
            let (plus, minus) = (Scalar::of(bits), Scalar::of((bits + 0x8000_0000_0000_0000) as u64));
            &&& minus.units() == -plus.units()
            &&& plus.units() == worth(bits as int)
            &&& plus.place() == bits
            &&& minus.place() == -1 - bits
            &&& plus.nan() == minus.nan()
            &&& plus.finite() == minus.finite()
            &&& plus.finite() <==> bits < 0x7ff0_0000_0000_0000
        }),
        UNIT_EXPONENT == 1074,
{
}

} // verus!
