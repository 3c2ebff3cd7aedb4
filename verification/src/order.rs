//! How rounding and arithmetic keep the order of numbers.

use crate::binary64;
use crate::binary64::{Real, ONE_BITS};
use crate::rounding;
use crate::rounding::{EXPONENT_UNIT, INFINITY_FIELD, SIGNIFICAND_END};
use vstd::arithmetic::div_mod::*;
use vstd::arithmetic::power2::*;
use vstd::prelude::*;

verus! {

/// The binade that `ulp_scale` picks holds `q`.
pub proof fn lemma_ulp_scale_bounds(q: nat)
    ensures
        q < SIGNIFICAND_END * pow2(rounding::ulp_scale(q)),
        rounding::ulp_scale(q) > 0 ==> q >= EXPONENT_UNIT * pow2(rounding::ulp_scale(q)),
    decreases q,
{
    rounding::lemma_pow2_constants();
    if q >= SIGNIFICAND_END {
        lemma_ulp_scale_bounds(q / 2);
        let k = rounding::ulp_scale(q / 2);
        let p = pow2(k);
        lemma_pow2_unfold(k + 1);
        assert(pow2(k + 1) == 2 * p);
        assert(EXPONENT_UNIT * (2 * p) == 2 * (EXPONENT_UNIT * p)) by (nonlinear_arith);
        assert(SIGNIFICAND_END * (2 * p) == 2 * (SIGNIFICAND_END * p)) by (nonlinear_arith);
        if k == 0 {
            assert(q >= EXPONENT_UNIT * 2);
        }
    }
}

proof fn lemma_ulp_scale_order(a: nat, b: nat)
    requires
        a <= b,
    ensures
        rounding::ulp_scale(a) <= rounding::ulp_scale(b),
    decreases b,
{
    if a >= SIGNIFICAND_END {
        lemma_ulp_scale_order(a / 2, b / 2);
    }
}

/// A ratio that is not larger has a quotient that is not larger.
proof fn lemma_quotient_order(n1: nat, d1: nat, n2: nat, d2: nat)
    requires
        d1 > 0,
        d2 > 0,
        n1 * d2 <= n2 * d1,
    ensures
        n1 / d1 <= n2 / d2,
{
    lemma_fundamental_div_mod(n1 as int, d1 as int);
    lemma_fundamental_div_mod(n2 as int, d2 as int);
    let q1 = (n1 / d1) as int;
    let q2 = (n2 / d2) as int;
    let r1 = (n1 % d1) as int;
    let r2 = (n2 % d2) as int;
    if q1 > q2 {
        assert(n1 * d2 > n2 * d1) by (nonlinear_arith)
            requires
                n1 == d1 * q1 + r1,
                n2 == d2 * q2 + r2,
                r1 >= 0,
                0 <= r2 < d2,
                q1 >= q2 + 1,
                d1 > 0,
                d2 > 0,
        ;
    }
}

/// Rounding to the nearest integer keeps the order of two ratios.
proof fn lemma_nearest_even_order(n1: nat, u1: nat, n2: nat, u2: nat)
    requires
        u1 > 0,
        u2 > 0,
        n1 * u2 <= n2 * u1,
    ensures
        rounding::nearest_even(n1 / u1, n1 % u1, u1) <= rounding::nearest_even(n2 / u2, n2 % u2, u2),
{
    lemma_quotient_order(n1, u1, n2, u2);
    lemma_fundamental_div_mod(n1 as int, u1 as int);
    lemma_fundamental_div_mod(n2 as int, u2 as int);
    let m = n1 / u1;
    let r1 = n1 % u1;
    let r2 = n2 % u2;
    if m == n2 / u2 {
        assert(r1 * u2 <= r2 * u1) by (nonlinear_arith)
            requires
                n1 * u2 <= n2 * u1,
                n1 == u1 * m + r1,
                n2 == u2 * m + r2,
        ;
        if 2 * r1 > u1 && 2 * r2 <= u2 {
            assert(r1 * u2 > r2 * u1) by (nonlinear_arith)
                requires
                    2 * r1 > u1,
                    2 * r2 <= u2,
                    u1 > 0,
                    u2 > 0,
            ;
        }
        if 2 * r1 == u1 && 2 * r2 < u2 {
            assert(r1 * u2 > r2 * u1) by (nonlinear_arith)
                requires
                    2 * r1 == u1,
                    2 * r2 < u2,
                    u1 > 0,
                    u2 > 0,
            ;
        }
    }
}

/// Rounding keeps the order of two ratios.
pub proof fn lemma_round_order(n1: nat, d1: nat, n2: nat, d2: nat)
    requires
        d1 > 0,
        d2 > 0,
        n1 * d2 <= n2 * d1,
    ensures
        rounding::round_ratio(n1, d1) <= rounding::round_ratio(n2, d2) <= INFINITY_FIELD,
{
    lemma_quotient_order(n1, d1, n2, d2);
    let q1 = n1 / d1;
    let q2 = n2 / d2;
    let k1 = rounding::ulp_scale(q1);
    let k2 = rounding::ulp_scale(q2);
    lemma_ulp_scale_order(q1, q2);
    lemma_pow2_pos(k1);
    lemma_pow2_pos(k2);
    let p1 = pow2(k1);
    let p2 = pow2(k2);
    let u1 = d1 * p1;
    let u2 = d2 * p2;
    assert(u1 > 0 && u2 > 0) by (nonlinear_arith)
        requires
            u1 == d1 * p1,
            u2 == d2 * p2,
            d1 > 0,
            d2 > 0,
            p1 > 0,
            p2 > 0,
    ;
    if k1 == k2 {
        assert(n1 * u2 <= n2 * u1) by (nonlinear_arith)
            requires
                n1 * d2 <= n2 * d1,
                u1 == d1 * p1,
                u2 == d2 * p1,
                p1 > 0,
        ;
        lemma_nearest_even_order(n1, u1, n2, u2);
    } else {
        lemma_ulp_scale_bounds(q1);
        lemma_ulp_scale_bounds(q2);
        lemma_fundamental_div_mod(n1 as int, d1 as int);
        lemma_fundamental_div_mod(n2 as int, d2 as int);
        let r1 = n1 % d1;
        let r2 = n2 % d2;
        assert(n1 < SIGNIFICAND_END * u1) by (nonlinear_arith)
            requires
                n1 == d1 * q1 + r1,
                r1 < d1,
                q1 + 1 <= SIGNIFICAND_END * p1,
                u1 == d1 * p1,
        ;
        assert(n2 >= EXPONENT_UNIT * u2) by (nonlinear_arith)
            requires
                n2 == d2 * q2 + r2,
                r2 >= 0,
                q2 >= EXPONENT_UNIT * p2,
                u2 == d2 * p2,
        ;
        lemma_fundamental_div_mod(n1 as int, u1 as int);
        lemma_fundamental_div_mod(n2 as int, u2 as int);
        let m1 = n1 / u1;
        let m2 = n2 / u2;
        let s1 = n1 % u1;
        let s2 = n2 % u2;
        assert(m1 < SIGNIFICAND_END) by (nonlinear_arith)
            requires
                n1 == u1 * m1 + s1,
                s1 >= 0,
                n1 < SIGNIFICAND_END * u1,
                u1 > 0,
        ;
        assert(m2 >= EXPONENT_UNIT) by (nonlinear_arith)
            requires
                n2 == u2 * m2 + s2,
                s2 < u2,
                n2 >= EXPONENT_UNIT * u2,
                u2 > 0,
        ;
        assert(k1 * EXPONENT_UNIT + SIGNIFICAND_END <= k2 * EXPONENT_UNIT + EXPONENT_UNIT)
            by (nonlinear_arith)
            requires
                k1 + 1 <= k2,
                SIGNIFICAND_END == 2 * EXPONENT_UNIT,
        ;
    }
}

/// A magnitude that is a number already rounds to itself.
pub proof fn lemma_round_identity(field: nat, d: nat)
    requires
        field <= INFINITY_FIELD,
        d > 0,
    ensures
        rounding::round_ratio(binary64::field_magnitude(field) * d, d) == field,
{
    binary64::lemma_field_parts(field);
    let s = binary64::field_significand(field);
    let k = binary64::field_scale(field);
    let p = pow2(k);
    let q = s * p;
    let n = q * d;
    let unit = d * p;
    lemma_pow2_pos(k);
    assert(q < SIGNIFICAND_END * p) by (nonlinear_arith)
        requires
            q == s * p,
            s < SIGNIFICAND_END,
            p > 0,
    ;
    if k > 0 {
        assert(q >= EXPONENT_UNIT * p) by (nonlinear_arith)
            requires
                q == s * p,
                s >= EXPONENT_UNIT,
                p > 0,
        ;
    }
    rounding::lemma_ulp_scale_binade(q, k);
    assert(n == d * q) by (nonlinear_arith)
        requires
            n == q * d,
    ;
    lemma_div_multiples_vanish(q as int, d as int);
    assert(n / d == q);
    assert(unit > 0) by (nonlinear_arith)
        requires
            unit == d * p,
            d > 0,
            p > 0,
    ;
    assert(n == unit * s) by (nonlinear_arith)
        requires
            n == q * d,
            q == s * p,
            unit == d * p,
    ;
    lemma_div_multiples_vanish(s as int, unit as int);
    lemma_fundamental_div_mod(n as int, unit as int);
    assert(n / unit == s);
    assert(n % unit == 0);
}

/// Rounding never leaves the range of fields.
pub proof fn lemma_round_range(n: nat, d: nat)
    ensures
        rounding::round_ratio(n, d) <= INFINITY_FIELD,
{
}

/// Fields in order have magnitudes in order.
pub proof fn lemma_magnitude_order(a: nat, b: nat)
    requires
        a <= b <= INFINITY_FIELD,
    ensures
        binary64::field_magnitude(a) <= binary64::field_magnitude(b),
{
    if a < b {
        binary64::lemma_field_order(a, b);
    }
}

/// Magnitudes in order have fields in order.
pub proof fn lemma_magnitude_reflects(a: nat, b: nat)
    requires
        a <= INFINITY_FIELD,
        b <= INFINITY_FIELD,
        binary64::field_magnitude(a) <= binary64::field_magnitude(b),
    ensures
        a <= b,
{
    if a > b {
        binary64::lemma_field_order(b, a);
    }
}

/// What a sign and a field make.
pub proof fn lemma_signed(negative: bool, field: nat)
    requires
        field <= INFINITY_FIELD,
    ensures
        !Real::signed(negative, field).nan(),
        Real::signed(negative, field).field() == field,
        Real::signed(negative, field).negative() == negative,
        Real::signed(negative, field).magnitude() == binary64::field_magnitude(field),
        Real::signed(negative, field).value() == if negative {
            -(binary64::field_magnitude(field) as int)
        } else {
            binary64::field_magnitude(field) as int
        },
        Real::signed(negative, field).finite() <==> field < INFINITY_FIELD,
{
}

/// The number nearest to a whole count of units.
pub open spec fn rounded(value: int) -> Real {
    if value < 0 {
        Real::nearest(true, (-value) as nat, 1)
    } else {
        Real::nearest(false, value as nat, 1)
    }
}

/// Rounding keeps the order of values.
pub proof fn lemma_rounded_order(a: int, b: int)
    requires
        a <= b,
    ensures
        rounded(a).at_most(rounded(b)),
{
    let ma = if a < 0 { (-a) as nat } else { a as nat };
    let mb = if b < 0 { (-b) as nat } else { b as nat };
    lemma_round_range(ma, 1);
    lemma_round_range(mb, 1);
    lemma_signed(a < 0, rounding::round_ratio(ma, 1));
    lemma_signed(b < 0, rounding::round_ratio(mb, 1));
    if a < 0 && b < 0 {
        assert(mb * 1 <= ma * 1);
        lemma_round_order(mb, 1, ma, 1);
        lemma_magnitude_order(rounding::round_ratio(mb, 1), rounding::round_ratio(ma, 1));
    } else if a >= 0 {
        assert(ma * 1 <= mb * 1);
        lemma_round_order(ma, 1, mb, 1);
        lemma_magnitude_order(rounding::round_ratio(ma, 1), rounding::round_ratio(mb, 1));
    }
}

/// The value of a number rounds to that value.
pub proof fn lemma_rounded_value(x: Real)
    requires
        !x.nan(),
    ensures
        rounded(x.value()).value() == x.value(),
        !rounded(x.value()).nan(),
{
    let m = x.magnitude();
    lemma_round_identity(x.field(), 1);
    assert(m * 1 == m);
    lemma_signed(x.value() < 0, x.field());
}

/// A defined sum lies where its rounded exact value lies.
pub proof fn lemma_plus_value(x: Real, y: Real)
    requires
        x.finite(),
        y.finite(),
    ensures
        !x.plus(y).nan(),
        x.plus(y).value() == rounded(x.value() + y.value()).value(),
{
    let sum = x.value() + y.value();
    if sum == 0 {
        lemma_signed(x.negative() && y.negative(), 0);
        lemma_round_identity(0, 1);
        lemma_signed(false, 0);
        assert(binary64::field_magnitude(0) == 0) by {
            binary64::lemma_zero();
        }
        assert(rounding::round_ratio(0, 1) == 0);
    } else if sum < 0 {
        lemma_round_range((-sum) as nat, 1);
        lemma_signed(true, rounding::round_ratio((-sum) as nat, 1));
    } else {
        lemma_round_range(sum as nat, 1);
        lemma_signed(false, rounding::round_ratio(sum as nat, 1));
    }
}

/// Adding a number that is not negative does not make a number smaller, and adding one
/// that is not positive does not make it larger.
pub proof fn lemma_plus_direction(x: Real, y: Real)
    requires
        !x.nan(),
        !y.nan(),
        x.infinite() && y.infinite() ==> x.negative() == y.negative(),
    ensures
        !x.plus(y).nan(),
        y.value() >= 0 ==> x.at_most(x.plus(y)),
        y.value() <= 0 ==> x.plus(y).at_most(x),
{
    if x.finite() && y.finite() {
        lemma_plus_value(x, y);
        lemma_rounded_value(x);
        if y.value() >= 0 {
            lemma_rounded_order(x.value(), x.value() + y.value());
        }
        if y.value() <= 0 {
            lemma_rounded_order(x.value() + y.value(), x.value());
        }
    } else if x.finite() {
        lemma_magnitude_order(x.field(), INFINITY_FIELD as nat);
        binary64::lemma_field_order(0, INFINITY_FIELD as nat);
    }
}

/// The sign of a product follows from the signs of the factors.
pub proof fn lemma_times_sign(x: Real, y: Real)
    requires
        x.finite(),
        y.finite(),
    ensures
        !x.times(y).nan(),
        x.negative() == y.negative() ==> x.times(y).value() >= 0,
        x.negative() != y.negative() ==> x.times(y).value() <= 0,
        x.value() == 0 || y.value() == 0 ==> x.times(y).value() == 0,
{
    lemma_pow2_pos(1074);
    let n = x.magnitude() * y.magnitude();
    lemma_round_range(n, binary64::one_in_units());
    let field = rounding::round_ratio(n, binary64::one_in_units());
    lemma_signed(x.negative() != y.negative(), field);
    if x.value() == 0 || y.value() == 0 {
        assert(n == 0) by (nonlinear_arith)
            requires
                n == x.magnitude() * y.magnitude(),
                x.magnitude() == 0 || y.magnitude() == 0,
        ;
        binary64::lemma_round_ratio_zero(binary64::one_in_units());
        binary64::lemma_zero();
        assert(binary64::field_magnitude(0) == 0);
    }
}

/// A quotient is not larger than 1 where the dividend is not larger than the divisor.
pub proof fn lemma_over_unit(x: Real, y: Real)
    requires
        x.finite(),
        y.finite(),
        x.magnitude() <= y.magnitude(),
        y.field() != 0,
    ensures
        x.over(y).finite(),
        x.over(y).field() <= ONE_BITS,
        x.over(y).negative() == (x.negative() != y.negative()),
{
    lemma_pow2_pos(1074);
    let one = binary64::one_in_units();
    let mx = x.magnitude();
    let my = y.magnitude();
    binary64::lemma_field_order(0, y.field());
    lemma_one();
    let n = mx * one;
    let bound = one * 1;
    assert(n * 1 <= bound * my) by (nonlinear_arith)
        requires
            n == mx * one,
            bound == one * 1,
            mx <= my,
    ;
    lemma_round_order(n, my, bound, 1);
    lemma_round_identity(ONE_BITS as nat, 1);
    lemma_signed(x.negative() != y.negative(), rounding::round_ratio(n, my));
}

/// The pattern of 1 holds one whole.
pub proof fn lemma_one()
    ensures
        binary64::field_magnitude(ONE_BITS as nat) == binary64::one_in_units(),
        (Real { bits: ONE_BITS }).value() == binary64::one_in_units(),
        (Real { bits: ONE_BITS }).finite(),
        !(Real { bits: ONE_BITS }).negative(),
{
    rounding::lemma_pow2_constants();
    assert(binary64::field_scale(ONE_BITS as nat) == 1022);
    assert(binary64::field_significand(ONE_BITS as nat) == EXPONENT_UNIT);
    lemma_pow2_adds(52, 1022);
}

/// Multiplying by a number of at most 1 does not enlarge a magnitude.
pub proof fn lemma_times_shrinks(x: Real, y: Real)
    requires
        x.finite(),
        y.finite(),
        y.field() <= ONE_BITS,
    ensures
        x.times(y).finite(),
        x.times(y).field() <= x.field(),
        x.times(y).negative() == (x.negative() != y.negative()),
{
    lemma_pow2_pos(1074);
    let one = binary64::one_in_units();
    let mx = x.magnitude();
    let my = y.magnitude();
    lemma_one();
    lemma_magnitude_order(y.field(), ONE_BITS as nat);
    let n = mx * my;
    let bound = mx * one;
    assert(n * one <= bound * one) by (nonlinear_arith)
        requires
            n == mx * my,
            bound == mx * one,
            my <= one,
    ;
    lemma_round_order(n, one, bound, one);
    lemma_round_identity(x.field(), one);
    lemma_signed(x.negative() != y.negative(), rounding::round_ratio(n, one));
}

/// A whole number below 2^53 times a power of two is a number, as far as there are any.
pub proof fn lemma_scaled_exact(n: nat, e: nat)
    requires
        0 < n < SIGNIFICAND_END,
        54 <= e <= 1990,
    ensures
        rounding::round_ratio(n * pow2(e), 1) < INFINITY_FIELD,
        binary64::field_magnitude(rounding::round_ratio(n * pow2(e), 1)) == n * pow2(e),
{
    let one = pow2(e);
    lemma_pow2_pos(e);
    let q = n * one;
    rounding::lemma_pow2_constants();
    lemma_ulp_scale_bounds(q);
    let k = rounding::ulp_scale(q);
    let p = pow2(k);
    lemma_pow2_pos(k);
    lemma_pow2_unfold(e + 1);
    if k > e {
        if k > e + 1 {
            lemma_pow2_strictly_increases(e + 1, k);
        }
        assert(false) by (nonlinear_arith)
            requires
                q >= EXPONENT_UNIT * p,
                p >= 2 * one,
                q == n * one,
                n < SIGNIFICAND_END,
                SIGNIFICAND_END == 2 * EXPONENT_UNIT,
                one > 0,
        ;
    }
    if k == 0 {
        lemma_pow2_strictly_increases(53, e);
        assert(false) by (nonlinear_arith)
            requires
                q < SIGNIFICAND_END * p,
                p == 1,
                q == n * one,
                n >= 1,
                one > SIGNIFICAND_END,
        ;
    }
    let lift = pow2((e - k) as nat);
    lemma_pow2_adds((e - k) as nat, k);
    let m = n * lift;
    assert(q == p * m) by (nonlinear_arith)
        requires
            q == n * one,
            one == lift * p,
            m == n * lift,
    ;
    assert(EXPONENT_UNIT <= m < SIGNIFICAND_END) by (nonlinear_arith)
        requires
            q == p * m,
            q >= EXPONENT_UNIT * p,
            q < SIGNIFICAND_END * p,
            p > 0,
    ;
    let unit = 1 * p;
    assert(unit == p);
    lemma_div_multiples_vanish(m as int, p as int);
    lemma_fundamental_div_mod(q as int, p as int);
    assert(q / p == m);
    assert(q % p == 0);
    assert(q / 1 == q);
    let field = k * EXPONENT_UNIT as nat + m;
    assert(field < INFINITY_FIELD) by (nonlinear_arith)
        requires
            field == k * EXPONENT_UNIT as nat + m,
            k <= 1990,
            m < SIGNIFICAND_END,
    ;
    assert(rounding::round_ratio(q, 1) == field);
    assert(field >= SIGNIFICAND_END) by (nonlinear_arith)
        requires
            field == k * EXPONENT_UNIT as nat + m,
            k >= 1,
            m >= EXPONENT_UNIT,
            SIGNIFICAND_END == 2 * EXPONENT_UNIT,
    ;
    assert(field / EXPONENT_UNIT as nat == k + 1 && field % EXPONENT_UNIT as nat == m
        - EXPONENT_UNIT) by {
        let rest = m - EXPONENT_UNIT;
        assert(field == (k + 1) * EXPONENT_UNIT + rest) by (nonlinear_arith)
            requires
                field == k * EXPONENT_UNIT + m,
                rest == m - EXPONENT_UNIT,
        ;
        lemma_fundamental_div_mod_converse(
            field as int,
            EXPONENT_UNIT as int,
            (k + 1) as int,
            rest,
        );
    }
    assert(binary64::field_magnitude(field) == m * p);
    assert(m * p == p * m) by (nonlinear_arith);
}

/// Integers below 2^53 are numbers.
pub proof fn lemma_integer_exact(i: int)
    requires
        0 <= i < SIGNIFICAND_END,
    ensures
        Real::of_integer(i).value() == i * binary64::one_in_units(),
        Real::of_integer(i).finite(),
        !Real::of_integer(i).negative(),
{
    let one = binary64::one_in_units();
    let n = i as nat;
    if i == 0 {
        assert(n * one == 0) by (nonlinear_arith)
            requires
                n == 0,
        ;
        binary64::lemma_round_ratio_zero(1);
        binary64::lemma_zero();
        assert(i * one == 0) by (nonlinear_arith)
            requires
                i == 0,
        ;
    } else {
        lemma_scaled_exact(n, 1074);
        lemma_signed(false, rounding::round_ratio(n * one, 1));
        assert(i * one == n * one);
    }
}

/// A number divided by a whole number is no larger.
pub proof fn lemma_over_shrinks(x: Real, n: int)
    requires
        x.finite(),
        1 <= n < SIGNIFICAND_END,
    ensures
        x.over(Real::of_integer(n)).finite(),
        x.over(Real::of_integer(n)).field() <= x.field(),
        x.over(Real::of_integer(n)).negative() == x.negative(),
{
    let one = binary64::one_in_units();
    lemma_pow2_pos(1074);
    lemma_integer_exact(n);
    let divisor = Real::of_integer(n);
    let d = divisor.magnitude();
    binary64::lemma_zero();
    assert(d >= one) by (nonlinear_arith)
        requires
            d == n * one,
            n >= 1,
    ;
    let m = x.magnitude();
    assert((m * one) * d <= (m * d) * d) by (nonlinear_arith)
        requires
            one <= d,
            m >= 0,
    ;
    lemma_round_order(m * one, d, m * d, d);
    lemma_round_identity(x.field(), d);
    lemma_signed(x.negative(), rounding::round_ratio(m * one, d));
}

/// Integers in order are numbers in order; those that fit a machine word are finite.
pub proof fn lemma_integer_order(i: int, j: int)
    requires
        0 <= i <= j <= u64::MAX,
    ensures
        Real::of_integer(i).finite(),
        Real::of_integer(j).finite(),
        !Real::of_integer(i).negative(),
        !Real::of_integer(j).negative(),
        Real::of_integer(i).field() <= Real::of_integer(j).field(),
        Real::of_integer(i).magnitude() <= Real::of_integer(j).magnitude(),
{
    let one = binary64::one_in_units();
    let a = i as nat * one;
    let b = j as nat * one;
    let top: nat = 0x43F0_0000_0000_0000;
    rounding::lemma_pow2_constants();
    assert(binary64::field_scale(top) == 1086);
    assert(binary64::field_significand(top) == EXPONENT_UNIT);
    lemma_pow2_adds(12, 1074);
    lemma2_to64();
    let c = binary64::field_magnitude(top);
    assert(c == EXPONENT_UNIT as nat * (pow2(12) * one));
    assert(a * 1 <= b * 1 && b * 1 <= c * 1) by (nonlinear_arith)
        requires
            a == i as nat * one,
            b == j as nat * one,
            0 <= i <= j <= u64::MAX,
            c == EXPONENT_UNIT as nat * (pow2(12) * one),
            pow2(12) == 4096,
    ;
    lemma_round_order(a, 1, b, 1);
    lemma_round_order(b, 1, c, 1);
    lemma_round_identity(top, 1);
    assert(c * 1 == c);
    let fa = rounding::round_ratio(a, 1);
    let fb = rounding::round_ratio(b, 1);
    lemma_signed(false, fa);
    lemma_signed(false, fb);
    lemma_magnitude_order(fa, fb);
}

/// The order of the factors does not matter.
pub proof fn lemma_times_commutes(x: Real, y: Real)
    ensures
        x.times(y) == y.times(x),
{
    assert(x.magnitude() * y.magnitude() == y.magnitude() * x.magnitude()) by (nonlinear_arith);
}

/// A quotient of integers, the divisor not the smaller one, lies between 0 and 1.
pub proof fn lemma_integer_share(i: int, j: int)
    requires
        0 <= i <= j <= u64::MAX,
        j > 0,
    ensures
        Real::of_integer(i).over(Real::of_integer(j)).finite(),
        !Real::of_integer(i).over(Real::of_integer(j)).negative(),
        Real::of_integer(i).over(Real::of_integer(j)).field() <= ONE_BITS,
{
    let one = binary64::one_in_units();
    lemma_pow2_pos(1074);
    lemma_integer_order(i, j);
    lemma_integer_order(1, j);
    lemma_integer_exact(1);
    binary64::lemma_zero();
    assert(1 * one == one);
    assert(Real::of_integer(j).field() != 0);
    lemma_over_unit(Real::of_integer(i), Real::of_integer(j));
}

/// A number of at least `i` has a nearest integer of at least `i`.
pub proof fn lemma_nearest_integer_bound(x: Real, i: int)
    requires
        !x.nan(),
        0 <= i <= i64::MAX,
        x.value() >= i * binary64::one_in_units(),
    ensures
        x.nearest_integer() >= i,
{
    let one = binary64::one_in_units();
    lemma_pow2_pos(1074);
    let m = x.magnitude();
    if x.negative() {
        assert(i == 0 && m == 0) by (nonlinear_arith)
            requires
                -(m as int) >= i * one,
                i >= 0,
                one > 0,
        ;
        assert((2 * m + one) / (2 * one) == 0) by (nonlinear_arith)
            requires
                m == 0,
                one > 0,
        ;
    } else {
        assert((2 * m + one) / (2 * one) >= i) by (nonlinear_arith)
            requires
                m >= i * one,
                i >= 0,
                one > 0,
        ;
    }
}

/// A number between 0 and `i` has a nearest integer of at most `i`.
pub proof fn lemma_nearest_integer_limit(x: Real, i: int)
    requires
        !x.nan(),
        0 <= i <= i64::MAX,
        0 <= x.value() <= i * binary64::one_in_units(),
    ensures
        x.nearest_integer() <= i,
{
    let one = binary64::one_in_units();
    lemma_pow2_pos(1074);
    let m = x.magnitude();
    if x.negative() {
        assert((2 * m + one) / (2 * one) == 0) by (nonlinear_arith)
            requires
                m == 0,
                one > 0,
        ;
    } else {
        assert((2 * m + one) / (2 * one) <= i) by (nonlinear_arith)
            requires
                m <= i * one,
                i >= 0,
                one > 0,
        ;
    }
}

/// Larger summands give a sum that is not smaller.
pub proof fn lemma_plus_order(a: Real, b: Real, c: Real, d: Real)
    requires
        a.finite(),
        b.finite(),
        c.finite(),
        d.finite(),
        a.at_most(b),
        c.at_most(d),
    ensures
        a.plus(c).at_most(b.plus(d)),
{
    lemma_plus_value(a, c);
    lemma_plus_value(b, d);
    lemma_rounded_order(a.value() + c.value(), b.value() + d.value());
}

/// Multiplying by a factor that is not negative keeps the order.
pub proof fn lemma_times_order(x: Real, y: Real, factor: Real)
    requires
        x.finite(),
        y.finite(),
        factor.finite(),
        !factor.negative(),
        x.at_most(y),
    ensures
        x.times(factor).at_most(y.times(factor)),
{
    let one = binary64::one_in_units();
    lemma_pow2_pos(1074);
    lemma_times_sign(x, factor);
    lemma_times_sign(y, factor);
    let f = factor.magnitude();
    let a = x.magnitude() * f;
    let b = y.magnitude() * f;
    lemma_round_range(a, one);
    lemma_round_range(b, one);
    lemma_signed(x.negative(), rounding::round_ratio(a, one));
    lemma_signed(y.negative(), rounding::round_ratio(b, one));
    if !x.negative() && !y.negative() {
        assert(a * one <= b * one) by (nonlinear_arith)
            requires
                a == x.magnitude() * f,
                b == y.magnitude() * f,
                x.magnitude() <= y.magnitude(),
        ;
        lemma_round_order(a, one, b, one);
        lemma_magnitude_order(rounding::round_ratio(a, one), rounding::round_ratio(b, one));
    } else if x.negative() && y.negative() {
        assert(b * one <= a * one) by (nonlinear_arith)
            requires
                a == x.magnitude() * f,
                b == y.magnitude() * f,
                y.magnitude() <= x.magnitude(),
        ;
        lemma_round_order(b, one, a, one);
        lemma_magnitude_order(rounding::round_ratio(b, one), rounding::round_ratio(a, one));
    } else if y.negative() {
        assert(x.magnitude() == 0 && y.magnitude() == 0);
        lemma_times_sign(x, factor);
        lemma_times_sign(y, factor);
    }
}

/// Dividing numbers that are not negative by a positive one keeps the order.
pub proof fn lemma_over_order(x: Real, y: Real, divisor: Real)
    requires
        x.finite(),
        y.finite(),
        divisor.finite(),
        !x.negative(),
        !y.negative(),
        !divisor.negative(),
        divisor.field() != 0,
        x.at_most(y),
    ensures
        x.over(divisor).at_most(y.over(divisor)),
{
    let one = binary64::one_in_units();
    lemma_pow2_pos(1074);
    let d = divisor.magnitude();
    binary64::lemma_field_order(0, divisor.field());
    assert(d > 0);
    let a = x.magnitude() * one;
    let b = y.magnitude() * one;
    lemma_round_range(a, d);
    lemma_round_range(b, d);
    lemma_signed(false, rounding::round_ratio(a, d));
    lemma_signed(false, rounding::round_ratio(b, d));
    assert(a * d <= b * d) by (nonlinear_arith)
        requires
            a == x.magnitude() * one,
            b == y.magnitude() * one,
            x.magnitude() <= y.magnitude(),
    ;
    lemma_round_order(a, d, b, d);
    lemma_magnitude_order(rounding::round_ratio(a, d), rounding::round_ratio(b, d));
}

/// The two numbers are each other's negatives, either both zero or both undefined
/// included.
pub open spec fn opposite(x: Real, y: Real) -> bool {
    &&& x.field() == y.field()
    &&& x.nan() || x.field() == 0 || x.negative() != y.negative()
}

/// A number and its negation are opposite.
pub proof fn lemma_opposite_negated(x: Real)
    requires
        !x.nan(),
    ensures
        opposite(x, x.negated()),
        opposite(x.negated(), x),
{
    lemma_signed(!x.negative(), x.field());
}

/// Opposite summands have opposite sums.
pub proof fn lemma_opposite_plus(x1: Real, x2: Real, y1: Real, y2: Real)
    requires
        opposite(x1, x2),
        opposite(y1, y2),
    ensures
        opposite(x1.plus(y1), x2.plus(y2)),
{
    binary64::lemma_zero();
    lemma_signed(true, 0);
    lemma_signed(false, 0);
    if x1.finite() && y1.finite() {
        assert(x2.value() == -x1.value());
        assert(y2.value() == -y1.value());
        let sum = x1.value() + y1.value();
        if sum != 0 {
            let m = if sum < 0 { (-sum) as nat } else { sum as nat };
            lemma_round_range(m, 1);
            lemma_signed(true, rounding::round_ratio(m, 1));
            lemma_signed(false, rounding::round_ratio(m, 1));
        }
    }
}

/// A sum is no larger than that of numbers that are no smaller in magnitude.
pub proof fn lemma_sum_magnitude(x: Real, y: Real, a: Real, b: Real)
    requires
        x.finite(),
        y.finite(),
        a.finite(),
        b.finite(),
        !a.negative(),
        !b.negative(),
        x.magnitude() <= a.magnitude(),
        y.magnitude() <= b.magnitude(),
    ensures
        !x.plus(y).nan(),
        !a.plus(b).nan(),
        !a.plus(b).negative(),
        x.plus(y).magnitude() <= a.plus(b).magnitude(),
        a.plus(b).finite() ==> x.plus(y).finite(),
{
    let (low_a, low_b) = (a.negated(), b.negated());
    lemma_signed(true, a.field());
    lemma_signed(true, b.field());
    lemma_signed(false, 0);
    lemma_opposite_negated(a);
    lemma_opposite_negated(b);
    lemma_plus_order(x, a, y, b);
    lemma_plus_order(low_a, x, low_b, y);
    lemma_opposite_plus(a, low_a, b, low_b);
    let sum = a.value() + b.value();
    if sum > 0 {
        lemma_round_range(sum as nat, 1);
        lemma_signed(false, rounding::round_ratio(sum as nat, 1));
    }
    lemma_magnitude_reflects(x.plus(y).field(), a.plus(b).field());
}

/// Opposite numbers have opposite multiples.
pub proof fn lemma_opposite_times(x1: Real, x2: Real, factor: Real)
    requires
        opposite(x1, x2),
        factor.finite(),
    ensures
        opposite(x1.times(factor), x2.times(factor)),
{
    let one = binary64::one_in_units();
    lemma_pow2_pos(1074);
    lemma_signed(true, INFINITY_FIELD as nat);
    lemma_signed(false, INFINITY_FIELD as nat);
    if x1.finite() {
        let n = x1.magnitude() * factor.magnitude();
        lemma_round_range(n, one);
        lemma_signed(true, rounding::round_ratio(n, one));
        lemma_signed(false, rounding::round_ratio(n, one));
        if x1.field() == 0 {
            binary64::lemma_zero();
            assert(n == 0) by (nonlinear_arith)
                requires
                    n == x1.magnitude() * factor.magnitude(),
                    x1.magnitude() == 0,
            ;
            binary64::lemma_round_ratio_zero(one);
        }
    }
}

/// A number between two whole ones is finite.
pub proof fn lemma_between_is_finite(x: Real, low: int, high: int)
    requires
        !x.nan(),
        0 <= low <= high < SIGNIFICAND_END,
        low * binary64::one_in_units() <= x.value() <= high * binary64::one_in_units(),
    ensures
        x.finite(),
{
    let one = binary64::one_in_units();
    lemma_pow2_pos(1074);
    assert(low * one >= 0) by (nonlinear_arith)
        requires
            low >= 0,
            one > 0,
    ;
    lemma_integer_exact(high);
    if x.infinite() {
        binary64::lemma_field_order(Real::of_integer(high).field(), INFINITY_FIELD as nat);
    }
}

/// A sum whose exact value lies between two whole numbers lies between them.
pub proof fn lemma_plus_between(x: Real, y: Real, low: int, high: int)
    requires
        x.finite(),
        y.finite(),
        0 <= low <= high < SIGNIFICAND_END,
        low * binary64::one_in_units() <= x.value() + y.value(),
        x.value() + y.value() <= high * binary64::one_in_units(),
    ensures
        x.plus(y).finite(),
        low * binary64::one_in_units() <= x.plus(y).value() <= high * binary64::one_in_units(),
{
    lemma_plus_value(x, y);
    lemma_integer_exact(low);
    lemma_integer_exact(high);
    lemma_rounded_value(Real::of_integer(low));
    lemma_rounded_value(Real::of_integer(high));
    lemma_rounded_order(Real::of_integer(low).value(), x.value() + y.value());
    lemma_rounded_order(x.value() + y.value(), Real::of_integer(high).value());
    lemma_between_is_finite(x.plus(y), low, high);
}

/// The root of a positive number is a positive number.
pub proof fn lemma_root_positive(x: Real)
    requires
        x.finite(),
        !x.negative(),
        x.field() != 0,
    ensures
        x.root().finite(),
        !x.root().negative(),
        x.root().field() != 0,
        x.root().field() == rounding::round_root(x.magnitude() * binary64::one_in_units()),
{
    let one = binary64::one_in_units();
    let m = x.magnitude();
    let n = m * one;
    lemma_pow2_pos(1074);
    binary64::lemma_zero();
    binary64::lemma_field_order(0, x.field());
    assert(n >= 1) by (nonlinear_arith)
        requires
            n == m * one,
            m >= 1,
            one >= 1,
    ;
    binary64::lemma_field_parts(x.field());
    let scale = binary64::field_scale(x.field());
    let sig = binary64::field_significand(x.field());
    rounding::lemma_pow2_constants();
    assert(m < pow2(2098)) by {
        vstd::arithmetic::power2::lemma_pow2_adds(53, 2045);
        if scale < 2045 {
            vstd::arithmetic::power2::lemma_pow2_strictly_increases(scale, 2045);
        }
        vstd::arithmetic::power2::lemma2_to64_rest();
        lemma_pow2_pos(2045);
        assert(sig * pow2(scale) < pow2(53) * pow2(2045)) by (nonlinear_arith)
            requires
                sig < pow2(53),
                pow2(scale) <= pow2(2045),
                pow2(2045) > 0,
        ;
    }
    assert(n < pow2(4090)) by {
        vstd::arithmetic::power2::lemma_pow2_adds(2098, 1074);
        vstd::arithmetic::power2::lemma_pow2_strictly_increases(3172, 4090);
        assert(m * one < pow2(2098) * one) by (nonlinear_arith)
            requires
                m < pow2(2098),
                one > 0,
        ;
    }
    rounding::lemma_floor_root_exists(n);
    let q = rounding::floor_root(n);
    assert(q >= 1) by (nonlinear_arith)
        requires
            n >= 1,
            n < (q + 1) * (q + 1),
    ;
    let k = rounding::ulp_scale(q);
    let unit = pow2(k);
    lemma_pow2_pos(k);
    lemma_ulp_scale_bounds(q);
    assert(q / unit < SIGNIFICAND_END) by (nonlinear_arith)
        requires
            q < SIGNIFICAND_END * unit,
            unit > 0,
    ;
    if k >= 2045 {
        if k > 2045 {
            vstd::arithmetic::power2::lemma_pow2_strictly_increases(2045, k);
        }
        vstd::arithmetic::power2::lemma_pow2_adds(2045, 2045);
        let low = pow2(2045);
        lemma_pow2_pos(2045);
        assert(q >= low) by (nonlinear_arith)
            requires
                q >= EXPONENT_UNIT * unit,
                unit >= low,
                low > 0,
        ;
        assert(q * q >= low * low) by (nonlinear_arith)
            requires
                q >= low,
                low > 0,
        ;
        assert(false);
    }
    if k == 0 {
        assert(pow2(0) == 1) by {
            vstd::arithmetic::power2::lemma2_to64();
        }
        assert(q / unit == q) by (nonlinear_arith)
            requires
                unit == 1,
        ;
    }
    let field = rounding::round_root(n);
    let head = k * EXPONENT_UNIT;
    let tail = (q / unit) as int;
    assert(field == head + tail || field == head + tail + 1);
    assert(0 <= head <= 2044 * EXPONENT_UNIT && (k > 0 ==> head >= EXPONENT_UNIT))
        by (nonlinear_arith)
        requires
            head == k * EXPONENT_UNIT,
            0 <= k <= 2044,
    ;
    assert(0 < field < INFINITY_FIELD);
    lemma_signed(false, field);
}

} // verus!
