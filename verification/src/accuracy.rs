//! How far rounding moves a result from its exact value.

use crate::binary64;
use crate::binary64::Real;
use crate::order;
use crate::rounding;
use crate::rounding::{EXPONENT_UNIT, INFINITY_FIELD, SIGNIFICAND_END};
use vstd::arithmetic::div_mod::*;
use vstd::arithmetic::power2::*;
use vstd::prelude::*;

verus! {

/// The distance between two values.
pub open spec fn apart(a: int, b: int) -> int {
    if a < b {
        b - a
    } else {
        a - b
    }
}

/// What a scale and a rounded significand stand for.
proof fn lemma_assembled(k: nat, e: nat)
    requires
        e <= SIGNIFICAND_END,
        k > 0 ==> e >= EXPONENT_UNIT,
    ensures
        binary64::field_magnitude(k * EXPONENT_UNIT as nat + e) == e * pow2(k),
{
    let field = k * EXPONENT_UNIT as nat + e;
    rounding::lemma_pow2_constants();
    lemma_pow2_unfold(k + 1);
    if k == 0 && e < SIGNIFICAND_END {
        assert(field == e);
    } else {
        assert(field >= SIGNIFICAND_END) by (nonlinear_arith)
            requires
                field == k * EXPONENT_UNIT as nat + e,
                k == 0 ==> e == SIGNIFICAND_END,
                k > 0 ==> e >= EXPONENT_UNIT,
                SIGNIFICAND_END == 2 * EXPONENT_UNIT,
        ;
        let carry: int = if e == SIGNIFICAND_END {
            1
        } else {
            0
        };
        let rest = e - EXPONENT_UNIT - carry * EXPONENT_UNIT;
        assert(field == (k + 1 + carry) * EXPONENT_UNIT + rest) by (nonlinear_arith)
            requires
                field == k * EXPONENT_UNIT + e,
                rest == e - EXPONENT_UNIT - carry * EXPONENT_UNIT,
        ;
        lemma_fundamental_div_mod_converse(
            field as int,
            EXPONENT_UNIT as int,
            k + 1 + carry,
            rest,
        );
        let p = pow2(k);
        if carry == 1 {
            assert(EXPONENT_UNIT * (2 * p) == SIGNIFICAND_END * p) by (nonlinear_arith)
                requires
                    SIGNIFICAND_END == 2 * EXPONENT_UNIT,
            ;
        }
    }
}

/// A ratio is rounded to within half a unit, or to within its share of 2^-53.
pub proof fn lemma_ratio_error(n: nat, d: nat)
    requires
        d > 0,
        rounding::round_ratio(n, d) < INFINITY_FIELD,
    ensures
        ({
            let error = apart(
                (binary64::field_magnitude(rounding::round_ratio(n, d)) * d) as int,
                n as int,
            );
            2 * error <= d || error * SIGNIFICAND_END <= n
        }),
{
    let q = n / d;
    let k = rounding::ulp_scale(q);
    let p = pow2(k);
    lemma_pow2_pos(k);
    order::lemma_ulp_scale_bounds(q);
    rounding::lemma_pow2_constants();
    let unit = d * p;
    assert(unit > 0) by (nonlinear_arith)
        requires
            unit == d * p,
            d > 0,
            p > 0,
    ;
    let m = n / unit;
    let rest = n % unit;
    lemma_div_denominator(n as int, d as int, p as int);
    assert(m == q / p);
    lemma_fundamental_div_mod(q as int, p as int);
    let qr = q % p;
    assert(m < SIGNIFICAND_END) by (nonlinear_arith)
        requires
            q == p * m + qr,
            qr >= 0,
            q < SIGNIFICAND_END * p,
            p > 0,
    ;
    if k > 0 {
        assert(m >= EXPONENT_UNIT) by (nonlinear_arith)
            requires
                q == p * m + qr,
                qr < p,
                q >= EXPONENT_UNIT * p,
                p > 0,
        ;
    }
    let e = rounding::nearest_even(m, rest, unit);
    lemma_assembled(k, e);
    let v = e * p;
    lemma_fundamental_div_mod(n as int, unit as int);
    assert(v * d == e * unit) by (nonlinear_arith)
        requires
            v == e * p,
            unit == d * p,
    ;
    let error = apart((v * d) as int, n as int);
    assert((m + 1) * unit == unit * m + unit) by (nonlinear_arith);
    assert(m * unit == unit * m) by (nonlinear_arith);
    assert(2 * error <= unit);
    if k == 0 {
        assert(unit == d) by (nonlinear_arith)
            requires
                unit == d * p,
                p == 1,
        ;
    } else {
        assert(error * SIGNIFICAND_END <= n) by (nonlinear_arith)
            requires
                2 * error <= unit,
                n == unit * m + rest,
                rest >= 0,
                m >= EXPONENT_UNIT,
                unit > 0,
                SIGNIFICAND_END == 2 * EXPONENT_UNIT,
        ;
    }
}

/// The square of a rounded root lies within 2^-51 of the number, where that is large.
pub proof fn lemma_root_error(n: nat)
    requires
        n >= pow2(200),
    ensures
        ({
            let v = binary64::field_magnitude(rounding::round_root(n));
            apart((v * v) as int, n as int) * 0x8_0000_0000_0000 <= n
        }),
{
    rounding::lemma_floor_root_exists(n);
    let r = rounding::floor_root(n);
    let k = rounding::ulp_scale(r);
    let p = pow2(k);
    lemma_pow2_pos(k);
    order::lemma_ulp_scale_bounds(r);
    rounding::lemma_pow2_constants();
    if k == 0 {
        lemma_pow2_adds(53, 53);
        lemma_pow2_strictly_increases(106, 200);
        assert(false) by (nonlinear_arith)
            requires
                r < SIGNIFICAND_END * p,
                p == 1,
                n < (r + 1) * (r + 1),
                n >= SIGNIFICAND_END * SIGNIFICAND_END,
        ;
    }
    let m = r / p;
    lemma_fundamental_div_mod(r as int, p as int);
    let rest = r % p;
    assert(EXPONENT_UNIT <= m < SIGNIFICAND_END) by (nonlinear_arith)
        requires
            r == p * m + rest,
            0 <= rest < p,
            EXPONENT_UNIT * p <= r < SIGNIFICAND_END * p,
            p > 0,
    ;
    let middle = (2 * m + 1) * p;
    let up = 4 * n > middle * middle || (4 * n == middle * middle && m % 2 == 1);
    let e = if up {
        m + 1
    } else {
        m
    };
    lemma_assembled(k, e);
    let v = e * p;
    assert(m * p <= r && r + 1 <= (m + 1) * p) by (nonlinear_arith)
        requires
            r == p * m + rest,
            0 <= rest < p,
    ;
    let low = m * p;
    let high = (m + 1) * p;
    assert(low * low <= n) by (nonlinear_arith)
        requires
            low <= r,
            r * r <= n,
            low >= 0,
    ;
    assert(n <= high * high) by (nonlinear_arith)
        requires
            r + 1 <= high,
            n < (r + 1) * (r + 1),
    ;
    let pp = p * p;
    assert(low * low == (m * m) * pp) by (nonlinear_arith)
        requires
            low == m * p,
            pp == p * p,
    ;
    assert(high * high == (m * m) * pp + 2 * (m * pp) + pp) by (nonlinear_arith)
        requires
            high == (m + 1) * p,
            pp == p * p,
    ;
    assert(middle * middle == 4 * ((m * m) * pp) + 4 * (m * pp) + pp) by (nonlinear_arith)
        requires
            middle == (2 * m + 1) * p,
            pp == p * p,
    ;
    let square = (m * m) * pp;
    let cross = m * pp;
    assert(square >= EXPONENT_UNIT * cross && cross >= EXPONENT_UNIT * pp && pp > 0)
        by (nonlinear_arith)
        requires
            square == (m * m) * pp,
            cross == m * pp,
            pp == p * p,
            p > 0,
            m >= EXPONENT_UNIT,
    ;
    assert(e * p == if up {
        high
    } else {
        low
    });
}

/// A product of finite numbers lies within its share of 2^-53, or half a unit, of the exact
/// one.
pub proof fn lemma_product_error(x: Real, y: Real)
    requires
        x.finite(),
        y.finite(),
        x.times(y).finite(),
    ensures
        apart(
            (x.times(y).magnitude() * binary64::one_in_units()) as int,
            (x.magnitude() * y.magnitude()) as int,
        ) * SIGNIFICAND_END <= x.magnitude() * y.magnitude() + binary64::one_in_units()
            * EXPONENT_UNIT,
{
    let one = binary64::one_in_units();
    lemma_pow2_pos(1074);
    let n = x.magnitude() * y.magnitude();
    order::lemma_round_range(n, one);
    order::lemma_signed(x.negative() != y.negative(), rounding::round_ratio(n, one));
    lemma_ratio_error(n, one);
}

/// A finite sum of numbers that are not negative lies within its share of 2^-53 of the exact
/// one.
pub proof fn lemma_sum_error(x: Real, y: Real)
    requires
        x.finite(),
        y.finite(),
        !x.negative(),
        !y.negative(),
        x.plus(y).finite(),
    ensures
        !x.plus(y).negative(),
        apart(x.plus(y).value(), x.value() + y.value()) * SIGNIFICAND_END <= x.value()
            + y.value(),
{
    let n = x.magnitude() + y.magnitude();
    binary64::lemma_zero();
    if n == 0 {
        order::lemma_signed(false, 0);
    } else {
        order::lemma_round_range(n, 1);
        order::lemma_signed(false, rounding::round_ratio(n, 1));
        lemma_ratio_error(n, 1);
    }
}

} // verus!
