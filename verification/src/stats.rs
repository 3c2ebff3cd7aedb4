//! Means and variances, added up from the left.

use crate::binary64;
use crate::binary64::Real;
use crate::constants::ZERO;
use crate::order;
use crate::rounding::SIGNIFICAND_END;
use vstd::arithmetic::power2::*;
use vstd::prelude::*;

verus! {

/// Sum of the values from `start` up to (not including) `end`, added from the left.
pub open spec fn sum_of(values: Seq<Real>, start: int, end: int) -> Real
    decreases end - start,
{
    if end <= start {
        Real { bits: ZERO }
    } else {
        sum_of(values, start, end - 1).plus(values[end - 1])
    }
}

/// Sum of the squared distances from `mean`, added from the left.
pub open spec fn squares_around(values: Seq<Real>, mean: Real, start: int, end: int) -> Real
    decreases end - start,
{
    if end <= start {
        Real { bits: ZERO }
    } else {
        let distance = values[end - 1].minus(mean);
        squares_around(values, mean, start, end - 1).plus(distance.times(distance))
    }
}

/// Arithmetic mean of the values from `start` up to `end`.
pub open spec fn mean_of(values: Seq<Real>, start: int, end: int) -> Real {
    sum_of(values, start, end).over(Real::of_integer(end - start))
}

/// Mean squared distance from the mean of the values from `start` up to `end`.
pub open spec fn variance_of(values: Seq<Real>, start: int, end: int) -> Real {
    squares_around(values, mean_of(values, start, end), start, end).over(
        Real::of_integer(end - start),
    )
}

/// Arithmetic mean of the values from `start` up to `end`.
pub fn mean_between(values: &Vec<Real>, start: usize, end: usize) -> (r: Real)
    requires
        start <= end <= values@.len(),
    ensures
        r == mean_of(values@, start as int, end as int),
{
    let mut sum = Real { bits: ZERO };
    let mut i: usize = start;
    while i < end
        invariant
            start <= i <= end <= values@.len(),
            sum == sum_of(values@, start as int, i as int),
        decreases end - i,
    {
        sum = sum.add(values[i]);
        i = i + 1;
    }
    sum.div(Real::from_usize(end - start))
}

/// Mean squared distance from the mean of the values from `start` up to `end`.
pub fn variance_between(values: &Vec<Real>, start: usize, end: usize) -> (r: Real)
    requires
        start <= end <= values@.len(),
    ensures
        r == variance_of(values@, start as int, end as int),
{
    let mean = mean_between(values, start, end);
    let mut sum = Real { bits: ZERO };
    let mut i: usize = start;
    while i < end
        invariant
            start <= i <= end <= values@.len(),
            sum == squares_around(values@, mean, start as int, i as int),
        decreases end - i,
    {
        let distance = values[i].sub(mean);
        sum = sum.add(distance.mul(distance));
        i = i + 1;
    }
    sum.div(Real::from_usize(end - start))
}

/// Mean and variance rest on the values they are taken of.
pub proof fn lemma_same_values(a: Seq<Real>, b: Seq<Real>, start: int, end: int)
    requires
        forall|j: int| start <= j < end ==> a[j] == b[j],
    ensures
        mean_of(a, start, end) == mean_of(b, start, end),
        variance_of(a, start, end) == variance_of(b, start, end),
{
    lemma_same_sum(a, b, start, end);
    lemma_same_squares(a, b, mean_of(a, start, end), start, end);
}

proof fn lemma_same_sum(a: Seq<Real>, b: Seq<Real>, start: int, end: int)
    requires
        forall|j: int| start <= j < end ==> a[j] == b[j],
    ensures
        sum_of(a, start, end) == sum_of(b, start, end),
    decreases end - start,
{
    if start < end {
        lemma_same_sum(a, b, start, end - 1);
    }
}

proof fn lemma_same_squares(a: Seq<Real>, b: Seq<Real>, mean: Real, start: int, end: int)
    requires
        forall|j: int| start <= j < end ==> a[j] == b[j],
    ensures
        squares_around(a, mean, start, end) == squares_around(b, mean, start, end),
    decreases end - start,
{
    if start < end {
        lemma_same_squares(a, b, mean, start, end - 1);
    }
}

/// Mean and variance of a part are those of the values it holds.
pub proof fn lemma_part(values: Seq<Real>, part: Seq<Real>, start: int)
    requires
        forall|j: int| 0 <= j < part.len() ==> part[j] == values[start + j],
    ensures
        mean_of(part, 0, part.len() as int) == mean_of(values, start, start + part.len()),
        variance_of(part, 0, part.len() as int) == variance_of(
            values,
            start,
            start + part.len(),
        ),
{
    lemma_part_sum(values, part, start, part.len() as int);
    let mean = mean_of(values, start, start + part.len());
    lemma_part_squares(values, part, mean, start, part.len() as int);
}

proof fn lemma_part_sum(values: Seq<Real>, part: Seq<Real>, start: int, k: int)
    requires
        0 <= k <= part.len(),
        forall|j: int| 0 <= j < part.len() ==> part[j] == values[start + j],
    ensures
        sum_of(part, 0, k) == sum_of(values, start, start + k),
    decreases k,
{
    if k > 0 {
        lemma_part_sum(values, part, start, k - 1);
        assert(part[k - 1] == values[start + (k - 1)]);
    }
}

proof fn lemma_part_squares(
    values: Seq<Real>,
    part: Seq<Real>,
    mean: Real,
    start: int,
    k: int,
)
    requires
        0 <= k <= part.len(),
        forall|j: int| 0 <= j < part.len() ==> part[j] == values[start + j],
    ensures
        squares_around(part, mean, 0, k) == squares_around(values, mean, start, start + k),
    decreases k,
{
    if k > 0 {
        lemma_part_squares(values, part, mean, start, k - 1);
        assert(part[k - 1] == values[start + (k - 1)]);
    }
}

/// Values that stand at the mean have no spread.
pub proof fn lemma_no_spread(values: Seq<Real>, mean: Real, start: int, end: int)
    requires
        forall|j: int| start <= j < end ==> (#[trigger] values[j]).minus(mean).field() == 0,
    ensures
        squares_around(values, mean, start, end) == (Real { bits: ZERO }),
    decreases end - start,
{
    if start < end {
        lemma_no_spread(values, mean, start, end - 1);
        let distance = values[end - 1].minus(mean);
        let one = binary64::one_in_units();
        binary64::lemma_zero();
        vstd::arithmetic::power2::lemma_pow2_pos(1074);
        assert(distance.magnitude() == 0);
        assert(distance.magnitude() * distance.magnitude() == 0) by (nonlinear_arith)
            requires
                distance.magnitude() == 0,
        ;
        binary64::lemma_round_ratio_zero(one);
    }
}

/// The sum of `k` equal whole numbers is exact.
proof fn lemma_equal_sum(values: Seq<Real>, whole: int, start: int, end: int)
    requires
        start <= end,
        whole >= 0,
        whole * (end - start) < SIGNIFICAND_END,
        whole < SIGNIFICAND_END,
        forall|j: int| start <= j < end ==> #[trigger] values[j] == Real::of_integer(whole),
    ensures
        sum_of(values, start, end) == Real::of_integer(whole * (end - start)),
    decreases end - start,
{
    binary64::lemma_zero();
    binary64::lemma_round_ratio_zero(1);
    if start < end {
        let k = end - 1 - start;
        assert(0 <= whole * k && whole * k + whole == whole * (k + 1)) by (nonlinear_arith)
            requires
                whole >= 0,
                k >= 0,
        ;
        lemma_equal_sum(values, whole, start, end - 1);
        order::lemma_integer_exact(whole * k);
        order::lemma_integer_exact(whole);
        let one = binary64::one_in_units() as int;
        assert((whole * k) * one + whole * one == (whole * k + whole) * one) by (nonlinear_arith);
        vstd::arithmetic::power2::lemma_pow2_pos(1074);
        assert((whole * k + whole) * one >= 0) by (nonlinear_arith)
            requires
                whole * k >= 0,
                whole >= 0,
                one > 0,
        ;
    } else {
        assert(whole * (end - start) == 0) by (nonlinear_arith)
            requires
                end == start,
        ;
        assert(0 * binary64::one_in_units() == 0);
    }
}

/// The mean of equal whole numbers is that number.
pub proof fn lemma_equal_mean(values: Seq<Real>, whole: int, start: int, end: int)
    requires
        start < end,
        whole >= 0,
        whole * (end - start) < SIGNIFICAND_END,
        end - start < SIGNIFICAND_END,
        forall|j: int| start <= j < end ==> #[trigger] values[j] == Real::of_integer(whole),
    ensures
        mean_of(values, start, end) == Real::of_integer(whole),
{
    let n = end - start;
    let one = binary64::one_in_units() as int;
    assert(whole <= whole * n) by (nonlinear_arith)
        requires
            whole >= 0,
            n >= 1,
    ;
    lemma_equal_sum(values, whole, start, end);
    order::lemma_integer_exact(whole);
    order::lemma_integer_exact(n);
    order::lemma_integer_exact(whole * n);
    vstd::arithmetic::power2::lemma_pow2_pos(1074);
    assert(n * one > 0) by (nonlinear_arith)
        requires
            n >= 1,
            one > 0,
    ;
    binary64::lemma_zero();
    let divisor = (n * one) as nat;
    let exact = Real::of_integer(whole);
    assert(Real::of_integer(n).field() != 0);
    assert(((whole * n) * one) * one == (whole * one) * (n * one)) by (nonlinear_arith);
    order::lemma_round_identity(exact.field(), divisor);
}

/// Squared distances that are finite or infinite add up to a number that is not negative.
pub proof fn lemma_squares_defined(values: Seq<Real>, mean: Real, start: int, end: int)
    requires
        forall|j: int| start <= j < end ==> !(#[trigger] values[j]).minus(mean).nan(),
    ensures
        !squares_around(values, mean, start, end).nan(),
        !squares_around(values, mean, start, end).negative(),
    decreases end - start,
{
    binary64::lemma_zero();
    if start < end {
        lemma_squares_defined(values, mean, start, end - 1);
        let before = squares_around(values, mean, start, end - 1);
        let distance = values[end - 1].minus(mean);
        assert(!distance.nan());
        let square = distance.times(distance);
        let n = distance.magnitude() * distance.magnitude();
        order::lemma_round_range(n, binary64::one_in_units());
        order::lemma_signed(
            false,
            crate::rounding::round_ratio(n, binary64::one_in_units()),
        );
        order::lemma_signed(false, crate::rounding::INFINITY_FIELD as nat);
        assert(!square.nan() && !square.negative());
        order::lemma_signed(false, 0);
        let sum = before.value() + square.value();
        if before.finite() && square.finite() && sum > 0 {
            order::lemma_round_range(sum as nat, 1);
            order::lemma_signed(false, crate::rounding::round_ratio(sum as nat, 1));
        }
    }
}

/// Values that are not negative have a sum that is not negative.
pub proof fn lemma_sum_not_negative(values: Seq<Real>, start: int, end: int)
    requires
        forall|j: int|
            start <= j < end ==> (#[trigger] values[j]).finite() && !values[j].negative(),
    ensures
        !sum_of(values, start, end).nan(),
        !sum_of(values, start, end).negative(),
    decreases end - start,
{
    binary64::lemma_zero();
    if start < end {
        lemma_sum_not_negative(values, start, end - 1);
        let before = sum_of(values, start, end - 1);
        let next = values[end - 1];
        assert(next.finite() && !next.negative());
        order::lemma_signed(false, 0);
        let sum = before.value() + next.value();
        if before.finite() && sum > 0 {
            order::lemma_round_range(sum as nat, 1);
            order::lemma_signed(false, crate::rounding::round_ratio(sum as nat, 1));
        }
    }
}

/// `n` times 2^512, in units.
pub open spec fn heap(n: nat) -> nat {
    n * pow2(1586)
}

/// The number `n` times 2^512.
pub open spec fn heap_number(n: nat) -> Real {
    Real::signed(false, crate::rounding::round_ratio(heap(n), 1))
}

/// Up to 2^53 times 2^512 is a number.
pub proof fn lemma_heap(n: nat)
    requires
        n <= SIGNIFICAND_END,
    ensures
        heap_number(n).finite(),
        !heap_number(n).negative(),
        heap_number(n).magnitude() == heap(n),
        heap_number(n).value() == heap(n),
{
    let field = crate::rounding::round_ratio(heap(n), 1);
    if n == 0 {
        assert(heap(0) == 0) by (nonlinear_arith)
            requires
                heap(0) == 0nat * pow2(1586),
        ;
        binary64::lemma_round_ratio_zero(1);
        binary64::lemma_zero();
    } else if n < SIGNIFICAND_END {
        order::lemma_scaled_exact(n, 1586);
    } else {
        let half = crate::rounding::EXPONENT_UNIT as nat;
        lemma_pow2_unfold(1587);
        order::lemma_scaled_exact(half, 1587);
        assert(half * (2 * pow2(1586)) == n * pow2(1586)) by (nonlinear_arith)
            requires
                n == 2 * half,
        ;
    }
    order::lemma_signed(false, field);
}

/// Numbers of at most 2^512 add up to no more than their count times that.
pub proof fn lemma_heaped_sum(values: Seq<Real>, start: int, end: int)
    requires
        start <= end,
        end - start <= SIGNIFICAND_END,
        forall|j: int|
            start <= j < end ==> (#[trigger] values[j]).finite() && values[j].magnitude() <= heap(
                1,
            ),
    ensures
        sum_of(values, start, end).finite(),
        sum_of(values, start, end).magnitude() <= heap((end - start) as nat),
    decreases end - start,
{
    binary64::lemma_zero();
    let n = (end - start) as nat;
    lemma_heap(n);
    if start < end {
        lemma_heaped_sum(values, start, end - 1);
        let before = (n - 1) as nat;
        lemma_heap(before);
        lemma_heap(1);
        let (a, b) = (heap_number(before), heap_number(1));
        assert(heap(n) == heap(before) + heap(1)) by (nonlinear_arith)
            requires
                heap(n) == n * pow2(1586),
                heap(before) == before * pow2(1586),
                heap(1) == 1 * pow2(1586),
                n == before + 1,
        ;
        order::lemma_plus_value(a, b);
        order::lemma_rounded_value(heap_number(n));
        assert(values[end - 1].finite());
        order::lemma_sum_magnitude(sum_of(values, start, end - 1), values[end - 1], a, b);
        assert(a.plus(b).value() == heap(n));
        order::lemma_magnitude_reflects(a.plus(b).field(), heap_number(n).field());
    }
}

/// A number whose square is finite is below 2^512.
pub proof fn lemma_finite_square(x: Real)
    requires
        x.finite(),
        x.times(x).finite(),
    ensures
        x.magnitude() <= heap(1),
{
    let m = x.magnitude();
    let one = binary64::one_in_units();
    let limit = pow2(1586);
    lemma_pow2_pos(1586);
    lemma_pow2_pos(1074);
    assert(heap(1) == limit) by (nonlinear_arith)
        requires
            heap(1) == 1 * limit,
    ;
    if m > limit {
        let infinity = crate::rounding::INFINITY_FIELD as nat;
        let top = binary64::field_magnitude(infinity);
        crate::rounding::lemma_pow2_constants();
        assert(binary64::field_scale(infinity) == 2046);
        assert(binary64::field_significand(infinity) == crate::rounding::EXPONENT_UNIT);
        lemma_pow2_adds(52, 2046);
        assert(top == pow2(2098));
        lemma_pow2_adds(1586, 1586);
        lemma_pow2_adds(2098, 1074);
        assert(top * one == limit * limit);
        assert(limit * limit <= m * m) by (nonlinear_arith)
            requires
                0 <= limit <= m,
        ;
        assert((top * one) * one <= (m * m) * one) by (nonlinear_arith)
            requires
                top * one <= m * m,
                one >= 0,
        ;
        order::lemma_round_order(top * one, one, m * m, one);
        order::lemma_round_identity(infinity, one);
        order::lemma_round_range(m * m, one);
        order::lemma_signed(false, crate::rounding::round_ratio(m * m, one));
    }
}

/// Law: the mean is the sum of the values, added up from the first to the last, divided by
/// their number.
pub proof fn law_mean_is_sum_by_count(values: Seq<Real>, start: int, end: int)
    requires
        0 <= start <= end <= values.len(),
    ensures
        mean_of(values, start, end) == values.subrange(start, end).fold_left(
            Real { bits: ZERO },
            |sum: Real, v: Real| sum.plus(v),
        ).over(Real::of_integer(end - start)),
{
    lemma_sum_fold(values, start, end);
}

proof fn lemma_sum_fold(values: Seq<Real>, start: int, end: int)
    requires
        0 <= start <= end <= values.len(),
    ensures
        sum_of(values, start, end) == values.subrange(start, end).fold_left(
            Real { bits: ZERO },
            |sum: Real, v: Real| sum.plus(v),
        ),
    decreases end - start,
{
    if start < end {
        lemma_sum_fold(values, start, end - 1);
        assert(values.subrange(start, end).drop_last() =~= values.subrange(start, end - 1));
    }
}

/// Law: the variance is the mean squared distance of the values from their mean: the
/// squares, added up from the first to the last, divided by the number of values.
pub proof fn law_variance_is_mean_square(values: Seq<Real>, start: int, end: int)
    requires
        0 <= start <= end <= values.len(),
    ensures
        ({
            let mean = mean_of(values, start, end);
            variance_of(values, start, end) == values.subrange(start, end).fold_left(
                Real { bits: ZERO },
                |sum: Real, v: Real| sum.plus(v.minus(mean).times(v.minus(mean))),
            ).over(Real::of_integer(end - start))
        }),
{
    lemma_squares_fold(values, mean_of(values, start, end), start, end);
}

proof fn lemma_squares_fold(values: Seq<Real>, mean: Real, start: int, end: int)
    requires
        0 <= start <= end <= values.len(),
    ensures
        squares_around(values, mean, start, end) == values.subrange(start, end).fold_left(
            Real { bits: ZERO },
            |sum: Real, v: Real| sum.plus(v.minus(mean).times(v.minus(mean))),
        ),
    decreases end - start,
{
    if start < end {
        lemma_squares_fold(values, mean, start, end - 1);
        assert(values.subrange(start, end).drop_last() =~= values.subrange(start, end - 1));
    }
}

} // verus!
