//! IEEE-754 binary64 numbers as 64-bit patterns, with arithmetic stated exactly.
//!
//! Every finite number is an integer multiple of 2^-1074, so the meaning of a pattern
//! is the integer [`Real::value`] that counts those units. Sums, products, quotients
//! and roots are the nearest number to the exact result, ties to even.

use crate::rounding::{
    bit_length, power_of_two, round_root_scaled, round_truncated, EXPONENT_UNIT, INFINITY_FIELD, SIGNIFICAND_END,
};
use vstd::arithmetic::div_mod::*;
use vstd::arithmetic::mul::*;
use vstd::arithmetic::power2::*;
use vstd::prelude::*;

verus! {

/// The sign bit.
pub const SIGN_BIT: u64 = 0x8000_0000_0000_0000;

/// The pattern that stands for an undefined result.
pub const NAN_BITS: u64 = 0x7FF8_0000_0000_0000;

/// The number 1.
pub const ONE_BITS: u64 = 0x3FF0_0000_0000_0000;

/// A binary64 number, held as its bit pattern.
#[derive(Clone, Copy, Debug, PartialEq, Eq, Structural)]
pub struct Real {
    pub bits: u64,
}

/// Power of two by which a magnitude field scales its significand.
pub open spec fn field_scale(field: nat) -> nat {
    if field < SIGNIFICAND_END {
        0
    } else {
        (field / EXPONENT_UNIT as nat - 1) as nat
    }
}

/// Integer significand of a magnitude field.
pub open spec fn field_significand(field: nat) -> nat {
    if field < SIGNIFICAND_END {
        field
    } else {
        field % EXPONENT_UNIT as nat + EXPONENT_UNIT as nat
    }
}

/// Magnitude of a field, in units of 2^-1074.
pub open spec fn field_magnitude(field: nat) -> nat {
    field_significand(field) * pow2(field_scale(field))
}

/// The number 1, counted in units of 2^-1074.
pub open spec fn one_in_units() -> nat {
    pow2(1074)
}

impl Real {
    pub open spec fn negative(self) -> bool {
        self.bits >= SIGN_BIT
    }

    /// The pattern without its sign bit.
    pub open spec fn field(self) -> nat {
        if self.negative() {
            (self.bits - SIGN_BIT) as nat
        } else {
            self.bits as nat
        }
    }

    pub open spec fn nan(self) -> bool {
        self.field() > INFINITY_FIELD
    }

    pub open spec fn infinite(self) -> bool {
        self.field() == INFINITY_FIELD
    }

    pub open spec fn finite(self) -> bool {
        self.field() < INFINITY_FIELD
    }

    /// Magnitude in units of 2^-1074; infinity counts as 2^1024.
    pub open spec fn magnitude(self) -> nat {
        field_magnitude(self.field())
    }

    /// Signed magnitude in units of 2^-1074.
    pub open spec fn value(self) -> int {
        if self.negative() {
            -(self.magnitude() as int)
        } else {
            self.magnitude() as int
        }
    }

    /// The number with the given sign and magnitude field.
    pub open spec fn signed(negative: bool, field: nat) -> Real {
        if negative {
            Real { bits: (SIGN_BIT + field) as u64 }
        } else {
            Real { bits: field as u64 }
        }
    }

    pub open spec fn undefined() -> Real {
        Real { bits: NAN_BITS }
    }

    /// The number nearest to `n / d` units.
    pub open spec fn nearest(negative: bool, n: nat, d: nat) -> Real {
        Real::signed(negative, crate::rounding::round_ratio(n, d))
    }

    pub open spec fn plus(self, other: Real) -> Real {
        if self.nan() || other.nan() {
            Real::undefined()
        } else if self.infinite() && other.infinite() {
            if self.negative() == other.negative() {
                self
            } else {
                Real::undefined()
            }
        } else if self.infinite() {
            self
        } else if other.infinite() {
            other
        } else {
            let sum = self.value() + other.value();
            if sum == 0 {
                Real::signed(self.negative() && other.negative(), 0)
            } else if sum < 0 {
                Real::nearest(true, (-sum) as nat, 1)
            } else {
                Real::nearest(false, sum as nat, 1)
            }
        }
    }

    pub open spec fn negated(self) -> Real {
        Real::signed(!self.negative(), self.field())
    }

    pub open spec fn minus(self, other: Real) -> Real {
        self.plus(other.negated())
    }

    pub open spec fn absolute(self) -> Real {
        Real::signed(false, self.field())
    }

    pub open spec fn times(self, other: Real) -> Real {
        let negative = self.negative() != other.negative();
        if self.nan() || other.nan() {
            Real::undefined()
        } else if self.infinite() || other.infinite() {
            if self.field() == 0 || other.field() == 0 {
                Real::undefined()
            } else {
                Real::signed(negative, INFINITY_FIELD as nat)
            }
        } else {
            Real::nearest(negative, self.magnitude() * other.magnitude(), one_in_units())
        }
    }

    pub open spec fn over(self, other: Real) -> Real {
        let negative = self.negative() != other.negative();
        if self.nan() || other.nan() {
            Real::undefined()
        } else if self.infinite() {
            if other.infinite() {
                Real::undefined()
            } else {
                Real::signed(negative, INFINITY_FIELD as nat)
            }
        } else if other.infinite() {
            Real::signed(negative, 0)
        } else if other.field() == 0 {
            if self.field() == 0 {
                Real::undefined()
            } else {
                Real::signed(negative, INFINITY_FIELD as nat)
            }
        } else {
            Real::nearest(negative, self.magnitude() * one_in_units(), other.magnitude())
        }
    }

    pub open spec fn root(self) -> Real {
        if self.nan() || (self.negative() && self.field() != 0) {
            Real::undefined()
        } else if self.infinite() || self.field() == 0 {
            self
        } else {
            Real::signed(false, crate::rounding::round_root(self.magnitude() * one_in_units()))
        }
    }

    /// The number nearest to an integer.
    pub open spec fn of_integer(i: int) -> Real {
        if i < 0 {
            Real::nearest(true, (-i) as nat * one_in_units(), 1)
        } else {
            Real::nearest(false, i as nat * one_in_units(), 1)
        }
    }

    /// The larger number; an undefined side gives way to the other.
    pub open spec fn larger(self, other: Real) -> Real {
        if self.nan() || self.below(other) {
            other
        } else {
            self
        }
    }

    /// The smaller number; an undefined side gives way to the other.
    pub open spec fn smaller(self, other: Real) -> Real {
        if self.nan() || other.below(self) {
            other
        } else {
            self
        }
    }

    /// The number moved into the interval from `low` to `high`.
    pub open spec fn clamped(self, low: Real, high: Real) -> Real {
        if self.below(low) {
            low
        } else if high.below(self) {
            high
        } else {
            self
        }
    }

    /// One with the sign of the number.
    pub open spec fn sign_unit(self) -> Real {
        if self.nan() {
            Real::undefined()
        } else {
            Real::signed(self.negative(), ONE_BITS as nat)
        }
    }

    /// The nearest integer, halves away from zero, held to the range of `i64`;
    /// 0 for an undefined number.
    pub open spec fn nearest_integer(self) -> int {
        let whole = ((2 * self.magnitude() + one_in_units()) / (2 * one_in_units())) as int;
        if self.nan() {
            0
        } else if self.negative() {
            if whole > 0x8000_0000_0000_0000 {
                -0x8000_0000_0000_0000
            } else {
                -whole
            }
        } else if whole > i64::MAX {
            i64::MAX as int
        } else {
            whole
        }
    }

    /// Numeric order; false as soon as a side is undefined.
    pub open spec fn below(self, other: Real) -> bool {
        !self.nan() && !other.nan() && self.value() < other.value()
    }

    /// Numeric order or equality; false as soon as a side is undefined.
    pub open spec fn at_most(self, other: Real) -> bool {
        !self.nan() && !other.nan() && self.value() <= other.value()
    }
}

/// A field splits into a significand below 2^53 and a scale below 2047.
pub proof fn lemma_field_parts(field: nat)
    requires
        field <= INFINITY_FIELD,
    ensures
        field_significand(field) < SIGNIFICAND_END,
        field_scale(field) <= 2046,
        field_scale(field) > 0 ==> field_significand(field) >= EXPONENT_UNIT,
        field == field_scale(field) * EXPONENT_UNIT + field_significand(field),
        field < INFINITY_FIELD ==> field_scale(field) <= 2045,
{
}

/// Larger fields have larger magnitudes.
pub proof fn lemma_field_order(a: nat, b: nat)
    requires
        a < b <= INFINITY_FIELD,
    ensures
        field_magnitude(a) < field_magnitude(b),
{
    lemma_field_parts(a);
    lemma_field_parts(b);
    let sa = field_significand(a);
    let sb = field_significand(b);
    let ka = field_scale(a);
    let kb = field_scale(b);
    let pa = pow2(ka);
    let pb = pow2(kb);
    lemma_pow2_pos(ka);
    lemma_pow2_pos(kb);
    if ka == kb {
        assert(sa * pa < sb * pa) by (nonlinear_arith)
            requires
                sa < sb,
                pa > 0,
        ;
    } else {
        assert(ka < kb);
        lemma_pow2_adds((kb - ka) as nat, ka);
        lemma_pow2_unfold((kb - ka) as nat);
        let r = pow2((kb - ka) as nat);
        let h = pow2((kb - ka - 1) as nat);
        lemma_pow2_pos((kb - ka - 1) as nat);
        assert(sa * pa < sb * (r * pa)) by (nonlinear_arith)
            requires
                sa < SIGNIFICAND_END,
                sb >= EXPONENT_UNIT,
                r == 2 * h,
                h >= 1,
                pa > 0,
        ;
    }
}

/// The pattern 0 is the number zero.
pub proof fn lemma_zero()
    ensures
        (Real { bits: 0 }).value() == 0,
        (Real { bits: 0 }).finite(),
{
    assert(0 * pow2(0) == 0);
}

impl Real {
    pub fn is_negative(self) -> (r: bool)
        ensures
            r == self.negative(),
    {
        self.bits >= SIGN_BIT
    }

    pub fn magnitude_field(self) -> (r: u64)
        ensures
            r == self.field(),
            r < SIGN_BIT,
    {
        if self.bits >= SIGN_BIT {
            self.bits - SIGN_BIT
        } else {
            self.bits
        }
    }

    pub fn is_nan(self) -> (r: bool)
        ensures
            r == self.nan(),
    {
        self.magnitude_field() > INFINITY_FIELD
    }

    pub fn is_finite(self) -> (r: bool)
        ensures
            r == self.finite(),
    {
        self.magnitude_field() < INFINITY_FIELD
    }

    fn with_sign(negative: bool, field: u64) -> (r: Real)
        requires
            field < SIGN_BIT,
        ensures
            r == Real::signed(negative, field as nat),
    {
        if negative {
            Real { bits: SIGN_BIT + field }
        } else {
            Real { bits: field }
        }
    }

    pub fn neg(self) -> (r: Real)
        ensures
            r == self.negated(),
    {
        Real::with_sign(!self.is_negative(), self.magnitude_field())
    }

    pub fn abs(self) -> (r: Real)
        ensures
            r == self.absolute(),
    {
        Real::with_sign(false, self.magnitude_field())
    }

    /// `self < other`.
    pub fn lt(self, other: Real) -> (r: bool)
        ensures
            r == self.below(other),
    {
        if self.is_nan() || other.is_nan() {
            return false;
        }
        let a = self.magnitude_field();
        let b = other.magnitude_field();
        proof {
            lemma_sign_order(self, other);
        }
        if self.is_negative() {
            if other.is_negative() {
                b < a
            } else {
                a > 0 || b > 0
            }
        } else if other.is_negative() {
            false
        } else {
            a < b
        }
    }

    /// `self <= other`.
    pub fn le(self, other: Real) -> (r: bool)
        ensures
            r == self.at_most(other),
    {
        !self.is_nan() && !other.is_nan() && !other.lt(self)
    }
}

/// How the fields of two numbers order their values.
proof fn lemma_sign_order(x: Real, y: Real)
    requires
        !x.nan(),
        !y.nan(),
    ensures
        x.field() < y.field() <==> x.magnitude() < y.magnitude(),
        y.field() < x.field() <==> y.magnitude() < x.magnitude(),
        x.field() == 0 <==> x.magnitude() == 0,
        y.field() == 0 <==> y.magnitude() == 0,
{
    if x.field() < y.field() {
        lemma_field_order(x.field(), y.field());
    }
    if y.field() < x.field() {
        lemma_field_order(y.field(), x.field());
    }
    assert(field_magnitude(0) == 0) by {
        assert(0 * pow2(0) == 0);
    }
    if x.field() > 0 {
        lemma_field_order(0, x.field());
    }
    if y.field() > 0 {
        lemma_field_order(0, y.field());
    }
}


/// A common factor drops out of a truncation.
proof fn lemma_truncation_factor(n: nat, d: nat, e: int, a: nat, b: nat, c: nat)
    requires
        b > 0,
        c > 0,
        n * pow2(if e < 0 { (-e) as nat } else { 0 }) == a * c,
        d * pow2(if e > 0 { e as nat } else { 0 }) == b * c,
    ensures
        crate::rounding::truncated(n, d, e, a / b, a % b != 0),
{
    lemma_fundamental_div_mod(a as int, b as int);
    lemma_mod_bound(a as int, b as int);
    let q = a / b;
    let r = a % b;
    assert(a * c == (b * c) * q + r * c) by (nonlinear_arith)
        requires
            a == b * q + r,
    ;
    assert(r * c < b * c) by (nonlinear_arith)
        requires
            r < b,
            c > 0,
    ;
    assert(r * c >= 0 && (r * c == 0 <==> r == 0)) by (nonlinear_arith)
        requires
            c > 0,
            r >= 0,
    ;
    lemma_fundamental_div_mod_converse((a * c) as int, (b * c) as int, q as int, (r * c) as int);
}

/// An exact count of units of 2^e.
proof fn lemma_truncation_exact(m: nat, e: nat)
    ensures
        crate::rounding::truncated(m * pow2(e), 1, e as int, m, false),
{
    crate::rounding::lemma_pow2_constants();
    lemma_pow2_pos(e);
    assert(m * pow2(e) * 1 == m * pow2(e));
    assert(1 * pow2(e) == pow2(e));
    lemma_truncation_factor(m * pow2(e), 1, e as int, m, 1, pow2(e));
    assert(m / 1 == m);
    assert(m % 1 == 0);
}

/// A far smaller term only shows below the sixteenth part of a unit.
proof fn lemma_truncation_far(s: nat, k: nat, y: nat, subtract: bool)
    requires
        k >= 4,
        s >= 1,
        0 < y < pow2((k - 4) as nat),
    ensures
        !subtract ==> crate::rounding::truncated(s * pow2(k) + y, 1, k - 4, 16 * s, true),
        subtract ==> s * pow2(k) > y && crate::rounding::truncated(
            (s * pow2(k) - y) as nat,
            1,
            k - 4,
            (16 * s - 1) as nat,
            true,
        ),
{
    let w = pow2((k - 4) as nat);
    crate::rounding::lemma_pow2_constants();
    lemma2_to64();
    lemma_pow2_adds((k - 4) as nat, 4);
    assert(s * pow2(k) == w * (16 * s)) by (nonlinear_arith)
        requires
            pow2(k) == w * 16,
    ;
    if subtract {
        assert(w * (16 * s) - y == w * (16 * s - 1) + (w - y)) by (nonlinear_arith);
        assert(w * (16 * s - 1) >= 0) by (nonlinear_arith)
            requires
                s >= 1,
                w >= 0,
        ;
        lemma_fundamental_div_mod_converse(
            w * (16 * s) - y,
            w as int,
            16 * s - 1,
            w - y,
        );
    } else {
        lemma_fundamental_div_mod_converse(
            (w * (16 * s) + y) as int,
            w as int,
            (16 * s) as int,
            y as int,
        );
    }
}

/// A significand with its scale.
struct Parts {
    significand: u64,
    scale: u32,
}

fn split_field(field: u64) -> (r: Parts)
    requires
        field <= INFINITY_FIELD,
    ensures
        r.significand == field_significand(field as nat),
        r.scale == field_scale(field as nat),
        r.significand < SIGNIFICAND_END,
        r.scale <= 2046,
        field < INFINITY_FIELD ==> r.scale <= 2045,
        r.scale > 0 ==> r.significand >= EXPONENT_UNIT,
        field_magnitude(field as nat) == r.significand * pow2(r.scale as nat),
        field > 0 ==> r.significand > 0,
{
    if field < SIGNIFICAND_END {
        Parts { significand: field, scale: 0 }
    } else {
        Parts {
            significand: field % EXPONENT_UNIT + EXPONENT_UNIT,
            scale: (field / EXPONENT_UNIT - 1) as u32,
        }
    }
}

/// Sum of two finite magnitudes with the sign of the first, whose scale is not smaller.
fn combine(negative: bool, a: Parts, b: Parts, subtract: bool) -> (r: Real)
    requires
        a.significand < SIGNIFICAND_END,
        b.significand < SIGNIFICAND_END,
        b.scale <= a.scale <= 2045,
        a.scale > 0 ==> a.significand >= EXPONENT_UNIT,
    ensures
        ({
            let x = a.significand * pow2(a.scale as nat);
            let y = b.significand * pow2(b.scale as nat);
            let total = if subtract { x - y } else { x + y };
            &&& total > 0 ==> r == Real::nearest(negative, total as nat, 1)
            &&& total < 0 ==> r == Real::nearest(!negative, (-total) as nat, 1)
            &&& total == 0 ==> r == Real::signed(negative && !subtract, 0)
        }),
{
    let gap: u32 = a.scale - b.scale;
    let ghost x = a.significand * pow2(a.scale as nat);
    let ghost y = b.significand * pow2(b.scale as nat);
    proof {
        lemma_pow2_pos(a.scale as nat);
        lemma_pow2_pos(b.scale as nat);
        lemma_mul_nonnegative(a.significand as int, pow2(a.scale as nat) as int);
        lemma_mul_nonnegative(b.significand as int, pow2(b.scale as nat) as int);
    }
    if gap > 57 {
        let e: i32 = a.scale as i32 - 4;
        let m: u128 = a.significand as u128 * 16;
        if b.significand == 0 {
            proof {
                lemma2_to64();
                lemma_pow2_adds(e as nat, 4);
                assert(x == (16 * a.significand) * pow2(e as nat)) by (nonlinear_arith)
                    requires
                        x == a.significand * pow2(a.scale as nat),
                        pow2(a.scale as nat) == pow2(e as nat) * 16,
                ;
                lemma_truncation_exact((16 * a.significand) as nat, e as nat);
                assert(y == 0) by (nonlinear_arith)
                    requires
                        y == b.significand * pow2(b.scale as nat),
                        b.significand == 0,
                ;
                assert(x > 0) by (nonlinear_arith)
                    requires
                        x == a.significand * pow2(a.scale as nat),
                        a.significand > 0,
                        pow2(a.scale as nat) > 0,
                ;
            }
            let field = round_truncated(m, e, false, Ghost(x as nat), Ghost(1));
            return Real::with_sign(negative, field);
        }
        proof {
            lemma_far_term(b.significand as nat, b.scale as nat, a.scale as nat);
            lemma_truncation_far(a.significand as nat, a.scale as nat, y as nat, subtract);
        }
        if subtract {
            let field = round_truncated(m - 1, e, true, Ghost((x - y) as nat), Ghost(1));
            return Real::with_sign(negative, field);
        } else {
            let field = round_truncated(m, e, true, Ghost((x + y) as nat), Ghost(1));
            return Real::with_sign(negative, field);
        }
    }
    let lift = power_of_two(gap);
    let ghost unit = pow2(b.scale as nat);
    proof {
        lemma_near_terms(a.significand, a.scale, b.scale, lift);
    }
    let big: u128 = a.significand as u128 * lift;
    let small: u128 = b.significand as u128;
    if !subtract {
        let m: u128 = big + small;
        proof {
            assert(x + y == m * unit) by (nonlinear_arith)
                requires
                    x == big * unit,
                    y == small * unit,
                    m == big + small,
            ;
            lemma_truncation_exact(m as nat, b.scale as nat);
        }
        let field = round_truncated(m, b.scale as i32, false, Ghost((x + y) as nat), Ghost(1));
        if m == 0 {
            proof {
                assert(m * unit == 0) by (nonlinear_arith)
                    requires
                        m == 0,
                ;
            }
            return Real::with_sign(negative, 0);
        }
        proof {
            assert(m * unit > 0) by (nonlinear_arith)
                requires
                    m > 0,
                    unit > 0,
            ;
        }
        Real::with_sign(negative, field)
    } else if big > small {
        let m: u128 = big - small;
        proof {
            assert(x - y == m * unit && m * unit > 0) by (nonlinear_arith)
                requires
                    x == big * unit,
                    y == small * unit,
                    m == big - small,
                    m > 0,
                    unit > 0,
            ;
            lemma_truncation_exact(m as nat, b.scale as nat);
        }
        let field = round_truncated(m, b.scale as i32, false, Ghost((x - y) as nat), Ghost(1));
        Real::with_sign(negative, field)
    } else if big < small {
        let m: u128 = small - big;
        proof {
            assert(y - x == m * unit && m * unit > 0) by (nonlinear_arith)
                requires
                    x == big * unit,
                    y == small * unit,
                    m == small - big,
                    m > 0,
                    unit > 0,
            ;
            lemma_truncation_exact(m as nat, b.scale as nat);
        }
        let field = round_truncated(m, b.scale as i32, false, Ghost((y - x) as nat), Ghost(1));
        Real::with_sign(!negative, field)
    } else {
        Real::with_sign(false, 0)
    }
}

/// A term whose scale is more than 57 lower stays below 2^(k - 4).
proof fn lemma_far_term(s: nat, k: nat, top: nat)
    requires
        0 < s < SIGNIFICAND_END,
        top > k + 57,
    ensures
        0 < s * pow2(k) < pow2((top - 4) as nat),
{
    crate::rounding::lemma_pow2_constants();
    lemma_pow2_pos(k);
    lemma_pow2_adds(53, k);
    lemma_pow2_strictly_increases((53 + k) as nat, (top - 4) as nat);
    assert(0 < s * pow2(k) < SIGNIFICAND_END * pow2(k)) by (nonlinear_arith)
        requires
            0 < s < SIGNIFICAND_END,
            pow2(k) > 0,
    ;
}

/// Two terms whose scales are close, on the scale of the lower one.
proof fn lemma_near_terms(sa: u64, ka: u32, kb: u32, lift: u128)
    requires
        kb <= ka <= kb + 57,
        sa < SIGNIFICAND_END,
        lift == pow2((ka - kb) as nat),
    ensures
        0 <= sa * lift <= 0x4000_0000_0000_0000_0000_0000_0000,
        sa * pow2(ka as nat) == (sa * lift) * pow2(kb as nat),
{
    crate::rounding::lemma_pow2_constants();
    lemma2_to64_rest();
    lemma_pow2_adds((ka - kb) as nat, kb as nat);
    if ka - kb < 57 {
        lemma_pow2_strictly_increases((ka - kb) as nat, 57);
    }
    assert(0 <= sa * lift <= SIGNIFICAND_END * 0x200_0000_0000_0000) by (nonlinear_arith)
        requires
            0 <= sa < SIGNIFICAND_END,
            0 <= lift <= 0x200_0000_0000_0000,
    ;
    assert(sa * (lift * pow2(kb as nat)) == (sa * lift) * pow2(kb as nat)) by (nonlinear_arith);
}

impl Real {
    /// Correctly rounded sum.
    pub fn add(self, other: Real) -> (r: Real)
        ensures
            r == self.plus(other),
    {
        if self.is_nan() || other.is_nan() {
            return Real { bits: NAN_BITS };
        }
        let fa = self.magnitude_field();
        let fb = other.magnitude_field();
        let na = self.is_negative();
        let nb = other.is_negative();
        if fa == INFINITY_FIELD {
            if fb == INFINITY_FIELD && na != nb {
                return Real { bits: NAN_BITS };
            }
            return self;
        }
        if fb == INFINITY_FIELD {
            return other;
        }
        let a = split_field(fa);
        let b = split_field(fb);
        if a.scale >= b.scale {
            combine(na, a, b, na != nb)
        } else {
            combine(nb, b, a, na != nb)
        }
    }

    /// Correctly rounded difference.
    pub fn sub(self, other: Real) -> (r: Real)
        ensures
            r == self.minus(other),
    {
        self.add(other.neg())
    }
}

impl Real {
    /// Correctly rounded product.
    pub fn mul(self, other: Real) -> (r: Real)
        ensures
            r == self.times(other),
    {
        if self.is_nan() || other.is_nan() {
            return Real { bits: NAN_BITS };
        }
        let fa = self.magnitude_field();
        let fb = other.magnitude_field();
        let negative = self.is_negative() != other.is_negative();
        if fa == INFINITY_FIELD || fb == INFINITY_FIELD {
            if fa == 0 || fb == 0 {
                return Real { bits: NAN_BITS };
            }
            return Real::with_sign(negative, INFINITY_FIELD);
        }
        let a = split_field(fa);
        let b = split_field(fb);
        let e: i32 = a.scale as i32 + b.scale as i32 - 1074;
        let ghost n = self.magnitude() * other.magnitude();
        proof {
            lemma_product_bound(a.significand, b.significand);
            lemma_product_truncation(
                a.significand as nat,
                a.scale as nat,
                b.significand as nat,
                b.scale as nat,
            );
        }
        let m: u128 = a.significand as u128 * b.significand as u128;
        let field = round_truncated(m, e, false, Ghost(n), Ghost(one_in_units()));
        Real::with_sign(negative, field)
    }

    /// Correctly rounded quotient.
    pub fn div(self, other: Real) -> (r: Real)
        ensures
            r == self.over(other),
    {
        if self.is_nan() || other.is_nan() {
            return Real { bits: NAN_BITS };
        }
        let fa = self.magnitude_field();
        let fb = other.magnitude_field();
        let negative = self.is_negative() != other.is_negative();
        if fa == INFINITY_FIELD {
            if fb == INFINITY_FIELD {
                return Real { bits: NAN_BITS };
            }
            return Real::with_sign(negative, INFINITY_FIELD);
        }
        if fb == INFINITY_FIELD {
            return Real::with_sign(negative, 0);
        }
        if fb == 0 {
            if fa == 0 {
                return Real { bits: NAN_BITS };
            }
            return Real::with_sign(negative, INFINITY_FIELD);
        }
        let a = split_field(fa);
        let b = split_field(fb);
        let ghost n = self.magnitude() * one_in_units();
        let ghost d = other.magnitude();
        proof {
            lemma_sign_order(self, other);
        }
        if fa == 0 {
            proof {
                assert(n == 0) by (nonlinear_arith)
                    requires
                        n == self.magnitude() * one_in_units(),
                        self.magnitude() == 0,
                ;
                lemma_round_ratio_zero(d);
            }
            return Real::with_sign(negative, 0);
        }
        let len = bit_length(a.significand as u128);
        let t: u32 = 127 - len;
        let lift = power_of_two(t);
        proof {
            lemma_normalized(a.significand, len, lift);
        }
        let wide: u128 = a.significand as u128 * lift;
        let divisor: u128 = b.significand as u128;
        let m: u128 = wide / divisor;
        let rest: u128 = wide % divisor;
        let e: i32 = a.scale as i32 - b.scale as i32 + 1074 - t as i32;
        proof {
            lemma_quotient_truncation(
                a.significand as nat,
                a.scale as nat,
                b.significand as nat,
                b.scale as nat,
                t as nat,
            );
            assert(m <= wide) by {
                lemma_div_is_ordered_by_denominator(wide as int, 1, divisor as int);
            }
            assert(m >= SIGNIFICAND_END) by (nonlinear_arith)
                requires
                    wide >= 0x4000_0000_0000_0000_0000_0000_0000_0000,
                    0 < divisor < SIGNIFICAND_END,
                    m == wide as int / divisor as int,
            ;
        }
        let field = round_truncated(m, e, rest != 0, Ghost(n), Ghost(d));
        Real::with_sign(negative, field)
    }
}

proof fn lemma_product_bound(sa: u64, sb: u64)
    requires
        sa < SIGNIFICAND_END,
        sb < SIGNIFICAND_END,
    ensures
        0 <= sa * sb <= 0x4_0000_0000_0000_0000_0000_0000_00,
{
    assert(0 <= sa * sb <= SIGNIFICAND_END * SIGNIFICAND_END) by (nonlinear_arith)
        requires
            0 <= sa < SIGNIFICAND_END,
            0 <= sb < SIGNIFICAND_END,
    ;
}

/// The product of two significands counts units of 2^(ka + kb - 1074).
proof fn lemma_product_truncation(sa: nat, ka: nat, sb: nat, kb: nat)
    ensures
        crate::rounding::truncated(
            (sa * pow2(ka)) * (sb * pow2(kb)),
            pow2(1074),
            ka + kb - 1074,
            sa * sb,
            false,
        ),
        pow2(1074) > 0,
{
    let e = ka + kb - 1074;
    let en: nat = if e < 0 { (-e) as nat } else { 0 };
    let ep: nat = if e > 0 { e as nat } else { 0 };
    let n = (sa * pow2(ka)) * (sb * pow2(kb));
    lemma_pow2_pos(1074);
    lemma_pow2_pos(ep);
    lemma_pow2_adds(ka, kb);
    lemma_pow2_adds((ka + kb) as nat, en);
    lemma_pow2_adds(1074, ep);
    let c = pow2(1074) * pow2(ep);
    assert(pow2((ka + kb) as nat) * pow2(en) == c);
    assert(n * pow2(en) == (sa * sb) * c) by (nonlinear_arith)
        requires
            n == (sa * pow2(ka)) * (sb * pow2(kb)),
            (pow2(ka) * pow2(kb)) * pow2(en) == c,
    ;
    assert(c > 0) by (nonlinear_arith)
        requires
            c == pow2(1074) * pow2(ep),
            pow2(1074) > 0,
            pow2(ep) > 0,
    ;
    lemma_truncation_factor(n, pow2(1074), e, sa * sb, 1, c);
    assert((sa * sb) / 1 == sa * sb);
    assert((sa * sb) % 1 == 0);
}

/// Shifting a significand to the top of 127 bits.
proof fn lemma_normalized(s: u64, len: u32, lift: u128)
    requires
        1 <= len <= 127,
        pow2((len - 1) as nat) <= s < pow2(len as nat),
        lift == pow2((127 - len) as nat),
    ensures
        0x4000_0000_0000_0000_0000_0000_0000_0000 <= s * lift
            < 0x8000_0000_0000_0000_0000_0000_0000_0000,
{
    crate::rounding::lemma_pow2_127();
    lemma_pow2_adds((len - 1) as nat, (127 - len) as nat);
    lemma_pow2_adds(len as nat, (127 - len) as nat);
    lemma_pow2_unfold(127);
    lemma_pow2_pos((127 - len) as nat);
    assert(pow2((len - 1) as nat) * lift <= s * lift < pow2(len as nat) * lift)
        by (nonlinear_arith)
        requires
            pow2((len - 1) as nat) <= s < pow2(len as nat),
            lift > 0,
    ;
}

/// The quotient of a shifted significand counts units of 2^(ka - kb + 1074 - t).
proof fn lemma_quotient_truncation(sa: nat, ka: nat, sb: nat, kb: nat, t: nat)
    requires
        sb > 0,
    ensures
        crate::rounding::truncated(
            (sa * pow2(ka)) * pow2(1074),
            sb * pow2(kb),
            ka - kb + 1074 - t,
            (sa * pow2(t)) / sb,
            (sa * pow2(t)) % sb != 0,
        ),
{
    let e = ka - kb + 1074 - t;
    let en: nat = if e < 0 { (-e) as nat } else { 0 };
    let ep: nat = if e > 0 { e as nat } else { 0 };
    let n = (sa * pow2(ka)) * pow2(1074);
    let d = sb * pow2(kb);
    lemma_pow2_pos(kb);
    lemma_pow2_pos(ep);
    lemma_pow2_adds(ka, 1074);
    lemma_pow2_adds((ka + 1074) as nat, en);
    lemma_pow2_adds(kb, ep);
    lemma_pow2_adds(t, (kb + ep) as nat);
    let c = pow2((kb + ep) as nat);
    lemma_pow2_pos((kb + ep) as nat);
    assert(ka + 1074 + en == t + kb + ep);
    assert(n * pow2(en) == (sa * pow2(t)) * c) by (nonlinear_arith)
        requires
            n == (sa * pow2(ka)) * pow2(1074),
            (pow2(ka) * pow2(1074)) * pow2(en) == pow2(t) * c,
    ;
    assert(d * pow2(ep) == sb * c) by (nonlinear_arith)
        requires
            d == sb * pow2(kb),
            c == pow2(kb) * pow2(ep),
    ;
    lemma_truncation_factor(n, d, e, sa * pow2(t), sb, c);
}

/// Zero rounds to zero.
pub proof fn lemma_round_ratio_zero(d: nat)
    requires
        d > 0,
    ensures
        crate::rounding::round_ratio(0, d) == 0,
{
    crate::rounding::lemma_pow2_constants();
    lemma_basic_div(0, d as int);
    lemma_small_mod(0, d);
    assert(d * pow2(0) == d);
}

impl Real {
    /// Correctly rounded square root.
    pub fn sqrt(self) -> (r: Real)
        ensures
            r == self.root(),
    {
        let field = self.magnitude_field();
        if field > INFINITY_FIELD || (self.is_negative() && field != 0) {
            return Real { bits: NAN_BITS };
        }
        if field == INFINITY_FIELD || field == 0 {
            return self;
        }
        let a = split_field(field);
        let len = bit_length(a.significand as u128);
        proof {
            crate::rounding::lemma_pow2_constants();
            if len > 53 {
                if len - 1 > 53 {
                    lemma_pow2_strictly_increases(53, (len - 1) as nat);
                }
                assert(false);
            }
        }
        let full: u32 = 127 - len;
        let t: u32 = if (a.scale + 1074 - full) % 2 == 0 {
            full
        } else {
            full - 1
        };
        let lift = power_of_two(t);
        let j: u32 = (a.scale + 1074 - t) / 2;
        let ghost n = self.magnitude() * one_in_units();
        proof {
            lemma_root_operand(a.significand, a.scale, len, t, j, lift);
        }
        let wide: u128 = a.significand as u128 * lift;
        let root = round_root_scaled(wide, j, Ghost(n));
        Real::with_sign(false, root)
    }

    /// The number nearest to `n`.
    pub fn from_u64(n: u64) -> (r: Real)
        ensures
            r == Real::of_integer(n as int),
    {
        proof {
            lemma_truncation_exact(n as nat, 1074);
        }
        let field = round_truncated(
            n as u128,
            1074,
            false,
            Ghost(n as nat * one_in_units()),
            Ghost(1),
        );
        Real::with_sign(false, field)
    }

    pub fn from_usize(n: usize) -> (r: Real)
        ensures
            r == Real::of_integer(n as int),
    {
        Real::from_u64(n as u64)
    }

    pub fn max(self, other: Real) -> (r: Real)
        ensures
            r == self.larger(other),
    {
        if self.is_nan() || self.lt(other) {
            other
        } else {
            self
        }
    }

    pub fn min(self, other: Real) -> (r: Real)
        ensures
            r == self.smaller(other),
    {
        if self.is_nan() || other.lt(self) {
            other
        } else {
            self
        }
    }

    pub fn clamp(self, low: Real, high: Real) -> (r: Real)
        requires
            low.at_most(high),
        ensures
            r == self.clamped(low, high),
    {
        if self.lt(low) {
            low
        } else if high.lt(self) {
            high
        } else {
            self
        }
    }

    pub fn signum(self) -> (r: Real)
        ensures
            r == self.sign_unit(),
    {
        if self.is_nan() {
            Real { bits: NAN_BITS }
        } else {
            Real::with_sign(self.is_negative(), ONE_BITS)
        }
    }

    /// The nearest integer, halves away from zero.
    pub fn round_to_i64(self) -> (r: i64)
        ensures
            r == self.nearest_integer(),
    {
        let field = self.magnitude_field();
        if field > INFINITY_FIELD {
            return 0;
        }
        let a = split_field(field);
        let whole: u128 = if a.scale >= 1074 {
            let over: u32 = a.scale - 1074;
            if over > 64 {
                proof {
                    lemma_whole_huge(a.significand as nat, a.scale as nat);
                }
                0x1_0000_0000_0000_0000
            } else {
                let lift = power_of_two(over);
                proof {
                    lemma_whole_integer(a.significand as nat, a.scale as nat);
                    lemma_whole_bound(a.significand, over, lift);
                }
                a.significand as u128 * lift
            }
        } else {
            let under: u32 = 1074 - a.scale;
            if under > 60 {
                proof {
                    lemma_whole_tiny(a.significand as nat, a.scale as nat);
                }
                0
            } else {
                let p = power_of_two(under);
                proof {
                    lemma_whole_fraction(a.significand as nat, a.scale as nat);
                    lemma2_to64_rest();
                    lemma2_to64();
                    if under < 60 {
                        lemma_pow2_strictly_increases(under as nat, 60);
                    }
                }
                (2 * a.significand as u128 + p) / (2 * p)
            }
        };
        if self.is_negative() {
            if whole >= 0x8000_0000_0000_0000 {
                i64::MIN
            } else {
                -(whole as i64)
            }
        } else if whole > 0x7FFF_FFFF_FFFF_FFFF {
            i64::MAX
        } else {
            whole as i64
        }
    }
}

/// The operand of a square root as an even power of two times a wide integer.
proof fn lemma_root_operand(s: u64, scale: u32, len: u32, t: u32, j: u32, lift: u128)
    requires
        1 <= len <= 53,
        pow2((len - 1) as nat) <= s < pow2(len as nat),
        t == 127 - len || t == 126 - len,
        scale + 1074 == 2 * j + t,
        lift == pow2(t as nat),
    ensures
        0x1000_0000_0000_0000_0000_0000_0000_0000 <= s * lift
            < 0x8000_0000_0000_0000_0000_0000_0000_0000,
        (s * pow2(scale as nat)) * pow2(1074) == (s * lift) * (pow2(j as nat) * pow2(j as nat)),
{
    let top = pow2((127 - len) as nat);
    crate::rounding::lemma_pow2_127();
    lemma_pow2_adds((len - 1) as nat, (127 - len) as nat);
    lemma_pow2_adds(len as nat, (127 - len) as nat);
    lemma_pow2_unfold(127);
    lemma_pow2_unfold((127 - len) as nat);
    lemma_pow2_pos(t as nat);
    assert(pow2((len - 1) as nat) * top <= s * top < pow2(len as nat) * top) by (nonlinear_arith)
        requires
            pow2((len - 1) as nat) <= s < pow2(len as nat),
            top > 0,
    ;
    if t == 126 - len {
        assert(s * top == 2 * (s * lift)) by (nonlinear_arith)
            requires
                top == 2 * lift,
        ;
    }
    lemma_pow2_adds(scale as nat, 1074);
    lemma_pow2_adds(j as nat, j as nat);
    lemma_pow2_adds(t as nat, (j + j) as nat);
    let cc = pow2(j as nat) * pow2(j as nat);
    assert((s * pow2(scale as nat)) * pow2(1074) == (s * lift) * cc) by (nonlinear_arith)
        requires
            pow2(scale as nat) * pow2(1074) == lift * cc,
    ;
}

/// Rounding an integer count of ones.
proof fn lemma_whole_integer(s: nat, k: nat)
    requires
        k >= 1074,
    ensures
        (2 * (s * pow2(k)) + pow2(1074)) / (2 * pow2(1074)) == s * pow2((k - 1074) as nat),
{
    let u = pow2(1074);
    lemma_pow2_pos(1074);
    lemma_pow2_adds(1074, (k - 1074) as nat);
    let q = s * pow2((k - 1074) as nat);
    assert(2 * (s * pow2(k)) + u == (2 * u) * q + u) by (nonlinear_arith)
        requires
            pow2(k) == u * pow2((k - 1074) as nat),
            q == s * pow2((k - 1074) as nat),
    ;
    lemma_fundamental_div_mod_converse(
        (2 * (s * pow2(k)) + u) as int,
        (2 * u) as int,
        q as int,
        u as int,
    );
}

proof fn lemma_whole_bound(s: u64, over: u32, lift: u128)
    requires
        s < SIGNIFICAND_END,
        over <= 64,
        lift == pow2(over as nat),
    ensures
        0 <= s * lift <= 0x20_0000_0000_0000_0000_0000_0000_0000,
{
    lemma2_to64();
    if over < 64 {
        lemma_pow2_strictly_increases(over as nat, 64);
    }
    assert(0 <= s * lift <= SIGNIFICAND_END * 0x1_0000_0000_0000_0000) by (nonlinear_arith)
        requires
            0 <= s < SIGNIFICAND_END,
            0 <= lift <= 0x1_0000_0000_0000_0000,
    ;
}

/// Beyond 2^116 ones.
proof fn lemma_whole_huge(s: nat, k: nat)
    requires
        k > 1074 + 64,
        s >= EXPONENT_UNIT,
    ensures
        (2 * (s * pow2(k)) + pow2(1074)) / (2 * pow2(1074)) > 0x1_0000_0000_0000_0000,
{
    lemma_whole_integer(s, k);
    lemma2_to64();
    lemma_pow2_strictly_increases(64, (k - 1074) as nat);
    let p = pow2((k - 1074) as nat);
    assert(s * p > 0x1_0000_0000_0000_0000) by (nonlinear_arith)
        requires
            p > 0x1_0000_0000_0000_0000,
            s >= 1,
    ;
}

/// Rounding a count of binary fractions of one.
proof fn lemma_whole_fraction(s: nat, k: nat)
    requires
        k < 1074,
    ensures
        (2 * (s * pow2(k)) + pow2(1074)) / (2 * pow2(1074)) == (2 * s + pow2((1074 - k) as nat))
            / (2 * pow2((1074 - k) as nat)),
{
    let c = pow2(k);
    let p = pow2((1074 - k) as nat);
    lemma_pow2_pos(k);
    lemma_pow2_pos((1074 - k) as nat);
    lemma_pow2_adds(k, (1074 - k) as nat);
    let a = 2 * s + p;
    let b = 2 * p;
    assert(2 * (s * c) + pow2(1074) == c * a) by (nonlinear_arith)
        requires
            pow2(1074) == c * p,
            a == 2 * s + p,
    ;
    assert(2 * pow2(1074) == c * b) by (nonlinear_arith)
        requires
            pow2(1074) == c * p,
            b == 2 * p,
    ;
    lemma_fundamental_div_mod(a as int, b as int);
    lemma_mod_bound(a as int, b as int);
    let q = a / b;
    let r = a % b;
    assert(c * a == (c * b) * q + c * r) by (nonlinear_arith)
        requires
            a == b * q + r,
    ;
    assert(0 <= c * r < c * b) by (nonlinear_arith)
        requires
            0 <= r < b,
            c > 0,
    ;
    lemma_fundamental_div_mod_converse((c * a) as int, (c * b) as int, q as int, (c * r) as int);
}

/// Less than half of one.
proof fn lemma_whole_tiny(s: nat, k: nat)
    requires
        k + 60 < 1074,
        s < SIGNIFICAND_END,
    ensures
        (2 * (s * pow2(k)) + pow2(1074)) / (2 * pow2(1074)) == 0,
{
    lemma_whole_fraction(s, k);
    lemma2_to64_rest();
    lemma_pow2_strictly_increases(60, (1074 - k) as nat);
    let p = pow2((1074 - k) as nat);
    lemma_basic_div((2 * s + p) as int, (2 * p) as int);
}

} // verus!
