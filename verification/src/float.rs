//! Floating-point numbers, held by their bit patterns.

use vstd::arithmetic::power2::*;
use vstd::prelude::*;

verus! {

/// A number of the IEEE 754 format with 64 bits, as `f64::to_bits` gives it.
#[derive(Debug, Clone, Copy)]
pub struct Float {
    /// The bit pattern.
    pub bits: u64,
}

impl Float {
    /// The sign bit.
    pub open spec fn negative(self) -> bool {
        self.bits >= 0x8000_0000_0000_0000
    }

    /// The biased exponent.
    pub open spec fn exponent(self) -> nat {
        (self.bits as nat / 0x10_0000_0000_0000) % 2048
    }

    /// The digits behind the binary point.
    pub open spec fn fraction(self) -> nat {
        self.bits as nat % 0x10_0000_0000_0000
    }

    /// Whether the pattern stands for no number.
    pub open spec fn is_nan(self) -> bool {
        self.exponent() == 2047 && self.fraction() != 0
    }

    /// Whether the pattern stands for an infinity.
    pub open spec fn is_infinite(self) -> bool {
        self.exponent() == 2047 && self.fraction() == 0
    }

    /// The absolute value of a finite number, in units of 2 to the power -1074.
    pub open spec fn magnitude(self) -> nat {
        if self.exponent() == 0 {
            self.fraction()
        } else {
            ((0x10_0000_0000_0000 + self.fraction()) * pow2((self.exponent() - 1) as nat)) as nat
        }
    }

    /// The number is zero or below it.
    pub open spec fn at_most_zero(self) -> bool {
        &&& !self.is_nan()
        &&& self.negative() || (!self.is_infinite() && self.magnitude() == 0)
    }

    /// The number is above one.
    pub open spec fn above_one(self) -> bool {
        &&& !self.is_nan()
        &&& !self.negative()
        &&& self.is_infinite() || self.magnitude() > pow2(1074)
    }

    proof fn lemma_above_one(self)
        requires
            !self.negative(),
            self.exponent() < 2047,
        ensures
            self.magnitude() > pow2(1074) <==> self.bits > 0x3ff0_0000_0000_0000,
            self.magnitude() == 0 <==> self.bits == 0,
    {
        let e = self.exponent();
        let f = self.fraction();
        assert(self.bits == e * 0x10_0000_0000_0000 + f);
        lemma2_to64_rest();
        assert(pow2(52) == 0x10_0000_0000_0000);
        if e == 0 {
            lemma_pow2_strictly_increases(52, 1074);
        } else {
            let k = (e - 1) as nat;
            lemma_pow2_pos(k);
            lemma_pow2_adds(52, k);
            lemma_pow2_adds(53, k);
            assert(pow2(53) == 0x20_0000_0000_0000);
            assert((0x10_0000_0000_0000 + f) * pow2(k) == 0x10_0000_0000_0000 * pow2(k) + f * pow2(
                k,
            )) by (nonlinear_arith);
            assert(f * pow2(k) >= 0 && (f > 0 ==> f * pow2(k) > 0)) by (nonlinear_arith)
                requires
                    f >= 0,
                    pow2(k) > 0,
            ;
            assert((0x10_0000_0000_0000 + f) * pow2(k) < 0x20_0000_0000_0000 * pow2(k))
                by (nonlinear_arith)
                requires
                    f < 0x10_0000_0000_0000,
                    pow2(k) > 0,
            ;
            if e >= 1024 {
                lemma_pow2_strictly_increases(1074, 52 + k);
            } else if e <= 1022 {
                if 53 + k < 1074 {
                    lemma_pow2_strictly_increases(53 + k, 1074);
                }
            } else {
                assert(52 + k == 1074);
                if f == 0 {
                    assert(0 * pow2(k) == 0);
                }
            }
        }
    }

    /// Whether the number lies outside the interval from zero, which is not in
    /// it, to one, which is. What is no number lies outside.
    pub fn outside_unit_interval(&self) -> (outside: bool)
        ensures
            outside == (self.is_nan() || self.at_most_zero() || self.above_one()),
    {
        proof {
            let e = self.exponent();
            let f = self.fraction();
            if !self.negative() {
                assert(self.bits == e * 0x10_0000_0000_0000 + f);
                if e < 2047 {
                    self.lemma_above_one();
                }
            }
        }
        self.bits == 0 || self.bits > 0x3ff0_0000_0000_0000
    }

    /// A ratio of two counts lies below this number of percent.
    pub open spec fn exceeds_ratio(self, part: nat, whole: nat) -> bool {
        &&& !self.is_nan()
        &&& !self.negative()
        &&& self.is_infinite() || 100 * part * pow2(1074) < self.magnitude() * whole
    }

    /// Whether the ratio of two counts lies below this number of percent.
    pub fn is_above_ratio(&self, part: u64, whole: u64) -> (above: bool)
        ensures
            above == self.exceeds_ratio(part as nat, whole as nat),
    {
        let exponent: u64 = (self.bits / 0x10_0000_0000_0000) % 2048;
        let fraction: u64 = self.bits % 0x10_0000_0000_0000;
        if self.bits >= 0x8000_0000_0000_0000 {
            return false;
        }
        if exponent == 2047 {
            return fraction == 0;
        }
        let scale: u64 = if exponent == 0 {
            0
        } else {
            exponent - 1
        };
        let digits: u64 = if exponent == 0 {
            fraction
        } else {
            0x10_0000_0000_0000 + fraction
        };
        let a: u128 = 100 * (part as u128);
        proof {
            assert(digits * whole <= 0x20_0000_0000_0000 * 0xffff_ffff_ffff_ffff)
                by (nonlinear_arith)
                requires
                    digits <= 0x20_0000_0000_0000,
                    whole <= 0xffff_ffff_ffff_ffff,
            ;
        }
        let b: u128 = digits as u128 * whole as u128;
        proof {
            lemma2_to64();
            let w = whole as nat;
            assert(self.magnitude() == digits * pow2(scale as nat));
            assert((digits * pow2(scale as nat)) * w == b * pow2(scale as nat)) by (nonlinear_arith)
                requires
                    b == digits * w,
            ;
        }
        if scale >= 1074 {
            let d: u64 = scale - 1074;
            proof {
                lemma_pow2_adds(d as nat, 1074);
                lemma_pow2_pos(1074);
                lemma_pow2_pos(d as nat);
                let unit = pow2(1074);
                let step = pow2(d as nat);
                assert(a * unit < b * (step * unit) <==> a < b * step) by (nonlinear_arith)
                    requires
                        unit > 0,
                ;
                lemma_below_multiple(a as nat, b as nat, step);
            }
            halved(a, d) < b
        } else {
            let d: u64 = 1074 - scale;
            proof {
                lemma_pow2_adds(d as nat, scale as nat);
                lemma_pow2_pos(scale as nat);
                lemma_pow2_pos(d as nat);
                let unit = pow2(scale as nat);
                let step = pow2(d as nat);
                assert(a * (step * unit) < b * unit <==> a * step < b) by (nonlinear_arith)
                    requires
                        unit > 0,
                ;
                if b > 0 {
                    lemma_below_multiple((b - 1) as nat, a as nat, step);
                } else {
                    assert(a * step >= 0) by (nonlinear_arith)
                        requires
                            a >= 0,
                            step > 0,
                    ;
                }
            }
            b > 0 && halved(b - 1, d) >= a
        }
    }
}

proof fn lemma_below_multiple(a: nat, b: nat, step: nat)
    requires
        step > 0,
    ensures
        a < b * step <==> a / step < b,
{
    vstd::arithmetic::div_mod::lemma_fundamental_div_mod(a as int, step as int);
    assert(a < b * step <==> a / step < b) by (nonlinear_arith)
        requires
            step > 0,
            a >= 0,
            b >= 0,
            a == step * (a / step) + a % step,
            0 <= a % step < step,
    ;
}

/// A number halved several times, rounded down.
fn halved(number: u128, times: u64) -> (half: u128)
    ensures
        half == number as nat / pow2(times as nat),
{
    let mut half: u128 = number;
    let mut i: u64 = 0;
    proof {
        lemma2_to64();
    }
    while i < times
        invariant
            i <= times,
            half == number as nat / pow2(i as nat),
        decreases times - i,
    {
        proof {
            let step = pow2(i as nat);
            lemma_pow2_pos(i as nat);
            lemma_pow2_unfold((i + 1) as nat);
            vstd::arithmetic::div_mod::lemma_div_denominator(number as int, step as int, 2);
            assert(step * 2 == pow2((i + 1) as nat));
        }
        half = half / 2;
        i = i + 1;
    }
    half
}

/// The numbers above zero and up to one are those with the patterns above
/// zero and up to that of one.
pub proof fn the_unit_interval_is_a_range_of_patterns(f: Float)
    ensures
        f.is_nan() || f.at_most_zero() || f.above_one() <==> f.bits == 0 || f.bits
            > 0x3ff0_0000_0000_0000,
{
    let e = f.exponent();
    if !f.negative() {
        assert(f.bits == e * 0x10_0000_0000_0000 + f.fraction());
        if e < 2047 {
            f.lemma_above_one();
        }
    }
}

/// A number with a significand of 53 bits and an exponent is above a ratio in
/// percent exactly where the significand, scaled by the exponent, times the
/// whole is above a hundred times the part.
pub proof fn ratios_are_compared_by_value(f: Float, part: nat, whole: nat)
    requires
        f.bits < 0x7ff0_0000_0000_0000,
        f.bits >= 0x10_0000_0000_0000,
    ensures
        f.exceeds_ratio(part, whole) <==> 100 * part * pow2(1075) < (0x10_0000_0000_0000
            + f.bits as nat % 0x10_0000_0000_0000) * pow2(f.bits as nat / 0x10_0000_0000_0000)
            * whole,
{
    let e = f.exponent();
    let m = 0x10_0000_0000_0000 + f.fraction();
    assert(e == f.bits as nat / 0x10_0000_0000_0000);
    assert(1 <= e < 2047);
    lemma_pow2_unfold(1075);
    lemma_pow2_unfold(e);
    let unit = pow2(1074);
    let step = pow2((e - 1) as nat);
    assert(100 * part * (2 * unit) < m * (2 * step) * whole <==> 100 * part * unit < m * step
        * whole) by (nonlinear_arith);
}

/// No ratio is below zero percent or less, none below what is no number, and
/// every one below infinity.
pub proof fn ratios_and_other_patterns(f: Float, part: nat, whole: nat)
    ensures
        f.bits == 0 ==> !f.exceeds_ratio(part, whole),
        f.bits >= 0x8000_0000_0000_0000 ==> !f.exceeds_ratio(part, whole),
        0x7ff0_0000_0000_0000 < f.bits < 0x8000_0000_0000_0000 ==> !f.exceeds_ratio(part, whole),
        f.bits == 0x7ff0_0000_0000_0000 ==> f.exceeds_ratio(part, whole),
        0 < f.bits < 0x10_0000_0000_0000 ==> (f.exceeds_ratio(part, whole) <==> 100 * part * pow2(
            1074,
        ) < f.bits as nat * whole),
{
    if f.bits == 0 {
        assert(f.magnitude() == 0);
        assert(0 * whole == 0);
        assert(100 * part * pow2(1074) >= 0) by (nonlinear_arith)
            requires
                part >= 0,
                pow2(1074) >= 0,
        ;
    }
}

} // verus!
