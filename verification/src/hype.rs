//! An attention proxy drawn from trading volume.

use crate::binary64;
use crate::binary64::Real;
use crate::constants::{BILLIONTH, SIX_TENTHS, ZERO};
use crate::order;
use crate::rounding::SIGNIFICAND_END;
use crate::stats;
use crate::stats::{mean_between, variance_between};
use vstd::prelude::*;

verus! {

/// How many bars count, the current one included: the wanted window, no more than there
/// are bars, and at least 5.
pub open spec fn effective_window(window: int, n: int) -> int {
    let shorter = if window < n { window } else { n };
    if shorter < 5 {
        5
    } else {
        shorter
    }
}

/// First bar that counts for bar `i` under an effective window `w`.
pub open spec fn window_start(i: int, w: int) -> int {
    if i + 1 < w {
        0
    } else {
        i + 1 - w
    }
}

/// The volume of bar `i` as a deviation from the recent mean, in standard deviations and
/// scaled for squashing: 0.6 times the z-score.
pub open spec fn hype_argument(volumes: Seq<Real>, w: int, i: int) -> Real {
    let start = window_start(i, w);
    let mean = stats::mean_of(volumes, start, i + 1);
    let deviation = stats::variance_of(volumes, start, i + 1).plus(Real { bits: BILLIONTH }).root();
    volumes[i].minus(mean).over(deviation).times(Real { bits: SIX_TENTHS })
}

fn argument_at(volumes: &Vec<Real>, w: usize, i: usize) -> (r: Real)
    requires
        i < volumes@.len(),
        w > 0,
    ensures
        r == hype_argument(volumes@, w as int, i as int),
{
    let n: usize = volumes.len();
    assert(i + 1 <= n);
    let start: usize = if i + 1 < w {
        0
    } else {
        i + 1 - w
    };
    let mean = mean_between(volumes, start, i + 1);
    let deviation = variance_between(volumes, start, i + 1).add(Real { bits: BILLIONTH }).sqrt();
    volumes[i].sub(mean).div(deviation).mul(Real { bits: SIX_TENTHS })
}

/// The scaled z-score of each volume against the last `window` volumes, itself included.
/// The hype of a bar is the hyperbolic tangent of its entry.
pub fn compute_volume_hype(volumes: &Vec<Real>, window: usize) -> (r: Vec<Real>)
    ensures
        r@ == Seq::new(
            volumes@.len(),
            |i: int|
                hype_argument(
                    volumes@,
                    effective_window(window as int, volumes@.len() as int),
                    i,
                ),
        ),
{
    let n: usize = volumes.len();
    let shorter: usize = if window < n {
        window
    } else {
        n
    };
    let w: usize = if shorter < 5 {
        5
    } else {
        shorter
    };
    let mut r: Vec<Real> = Vec::new();
    let mut i: usize = 0;
    while i < n
        invariant
            i <= n,
            n == volumes@.len(),
            w == effective_window(window as int, n as int),
            r@.len() == i,
            forall|j: int|
                0 <= j < i ==> #[trigger] r@[j] == hype_argument(volumes@, w as int, j),
        decreases n - i,
    {
        r.push(argument_at(volumes, w, i));
        i = i + 1;
    }
    r
}

/// A volume at the mean of its window, like all others of the window, has no hype.
proof fn lemma_no_hype(volumes: Seq<Real>, w: int, i: int)
    requires
        w > 0,
        0 <= i < volumes.len(),
        i + 1 - window_start(i, w) < SIGNIFICAND_END,
        ({
            let start = window_start(i, w);
            let mean = stats::mean_of(volumes, start, i + 1);
            forall|j: int|
                start <= j <= i ==> (#[trigger] volumes[j]).minus(mean).field() == 0
        }),
    ensures
        hype_argument(volumes, w, i).field() == 0,
{
    let start = window_start(i, w);
    let mean = stats::mean_of(volumes, start, i + 1);
    let n = i + 1 - start;
    let one = binary64::one_in_units();
    binary64::lemma_zero();
    vstd::arithmetic::power2::lemma_pow2_pos(1074);
    stats::lemma_no_spread(volumes, mean, start, i + 1);
    order::lemma_integer_exact(n);
    assert(n * one > 0) by (nonlinear_arith)
        requires
            n >= 1,
            one > 0,
    ;
    let count = Real::of_integer(n);
    assert(count.field() != 0);
    assert(0 * one == 0);
    binary64::lemma_round_ratio_zero(count.magnitude());
    assert(stats::variance_of(volumes, start, i + 1) == (Real { bits: ZERO }));
    let floor = Real { bits: BILLIONTH };
    binary64::lemma_field_order(0, BILLIONTH as nat);
    order::lemma_round_identity(BILLIONTH as nat, 1);
    assert(floor.magnitude() * 1 == floor.magnitude());
    assert((Real { bits: ZERO }).plus(floor) == floor);
    order::lemma_root_positive(floor);
    let deviation = floor.root();
    binary64::lemma_field_order(0, deviation.field());
    binary64::lemma_round_ratio_zero(deviation.magnitude());
    let distance = volumes[i].minus(mean);
    assert(distance.magnitude() * one == 0) by (nonlinear_arith)
        requires
            distance.magnitude() == 0,
    ;
    let share = distance.over(deviation);
    order::lemma_signed(true, 0);
    order::lemma_signed(false, 0);
    assert(share.field() == 0);
    let factor = Real { bits: SIX_TENTHS };
    assert(share.magnitude() * factor.magnitude() == 0) by (nonlinear_arith)
        requires
            share.magnitude() == 0,
    ;
    binary64::lemma_round_ratio_zero(one);
}

/// Law: the first bar has no hype.
pub proof fn law_first_bar_has_no_hype(volumes: Seq<Real>, window: int)
    requires
        volumes.len() > 0,
        volumes[0].finite(),
    ensures
        hype_argument(volumes, effective_window(window, volumes.len() as int), 0).field() == 0,
{
    let v = volumes[0];
    let zero = Real { bits: ZERO };
    let one = binary64::one_in_units();
    binary64::lemma_zero();
    vstd::arithmetic::power2::lemma_pow2_pos(1074);
    reveal_with_fuel(stats::sum_of, 2);
    order::lemma_integer_exact(1);
    assert(1 * one == one);
    order::lemma_round_identity(v.field(), 1);
    assert(v.magnitude() * 1 == v.magnitude());
    order::lemma_signed(v.negative(), v.field());
    order::lemma_signed(false, 0);
    let sum = zero.plus(v);
    assert(sum.field() == v.field() && sum.value() == v.value()) by {
        if v.field() != 0 {
            binary64::lemma_field_order(0, v.field());
        }
    }
    order::lemma_round_identity(sum.field(), one);
    order::lemma_signed(sum.negative(), sum.field());
    let mean = stats::mean_of(volumes, 0, 1);
    assert(mean.field() == sum.field() && mean.value() == sum.value());
    order::lemma_signed(!mean.negative(), mean.field());
    order::lemma_signed(true, 0);
    assert(v.minus(mean).field() == 0);
    lemma_no_hype(volumes, effective_window(window, volumes.len() as int), 0);
}

/// Law: a bar has no hype where the volumes of its window are all their mean.
pub proof fn law_level_volumes_have_no_hype(volumes: Seq<Real>, window: int, i: int)
    requires
        0 <= i < volumes.len(),
        ({
            let start = window_start(i, effective_window(window, volumes.len() as int));
            let mean = stats::mean_of(volumes, start, i + 1);
            &&& i + 1 - start < SIGNIFICAND_END
            &&& mean.finite()
            &&& forall|j: int| start <= j <= i ==> #[trigger] volumes[j] == mean
        }),
    ensures
        hype_argument(volumes, effective_window(window, volumes.len() as int), i).field() == 0,
{
    let w = effective_window(window, volumes.len() as int);
    let mean = stats::mean_of(volumes, window_start(i, w), i + 1);
    order::lemma_signed(!mean.negative(), mean.field());
    order::lemma_signed(true, 0);
    order::lemma_signed(false, 0);
    assert(mean.minus(mean).field() == 0);
    lemma_no_hype(volumes, w, i);
}

/// Law: a bar whose window holds the same whole number of shares throughout has no hype, as
/// long as their sum is exact.
pub proof fn law_even_volumes_have_no_hype(volumes: Seq<Real>, window: int, i: int, shares: int)
    requires
        0 <= i < volumes.len(),
        shares >= 0,
        ({
            let start = window_start(i, effective_window(window, volumes.len() as int));
            &&& i + 1 - start < SIGNIFICAND_END
            &&& shares * (i + 1 - start) < SIGNIFICAND_END
            &&& forall|j: int|
                start <= j <= i ==> #[trigger] volumes[j] == Real::of_integer(shares)
        }),
    ensures
        hype_argument(volumes, effective_window(window, volumes.len() as int), i).field() == 0,
{
    let w = effective_window(window, volumes.len() as int);
    let start = window_start(i, w);
    let n = i + 1 - start;
    assert(shares <= shares * n) by (nonlinear_arith)
        requires
            shares >= 0,
            n >= 1,
    ;
    stats::lemma_equal_mean(volumes, shares, start, i + 1);
    order::lemma_integer_exact(shares);
    law_level_volumes_have_no_hype(volumes, window, i);
}

/// Where the mean and the distances from it are finite, hype is defined.
proof fn lemma_hype_defined(volumes: Seq<Real>, w: int, i: int)
    requires
        w > 0,
        0 <= i < volumes.len(),
        i + 1 - window_start(i, w) < SIGNIFICAND_END,
        ({
            let start = window_start(i, w);
            let mean = stats::mean_of(volumes, start, i + 1);
            forall|j: int| start <= j <= i ==> (#[trigger] volumes[j]).minus(mean).finite()
        }),
    ensures
        !hype_argument(volumes, w, i).nan(),
{
    let start = window_start(i, w);
    let n = i + 1 - start;
    let mean = stats::mean_of(volumes, start, i + 1);
    let one = binary64::one_in_units();
    binary64::lemma_zero();
    vstd::arithmetic::power2::lemma_pow2_pos(1074);
    stats::lemma_squares_defined(volumes, mean, start, i + 1);
    let squares = stats::squares_around(volumes, mean, start, i + 1);
    let variance = stats::variance_of(volumes, start, i + 1);
    order::lemma_integer_exact(n);
    order::lemma_signed(false, crate::rounding::INFINITY_FIELD as nat);
    if squares.finite() {
        order::lemma_over_shrinks(squares, n);
    }
    assert(!variance.nan() && !variance.negative());
    let floor = Real { bits: BILLIONTH };
    binary64::lemma_field_order(0, BILLIONTH as nat);
    order::lemma_plus_direction(floor, variance);
    let raised = variance.plus(floor);
    assert(raised.value() == floor.plus(variance).value());
    assert(!raised.nan() && raised.value() >= floor.value() > 0);
    if raised.finite() {
        order::lemma_root_positive(raised);
    }
    let deviation = raised.root();
    assert(!deviation.nan() && deviation.field() != 0 && !deviation.negative());
    let distance = volumes[i].minus(mean);
    assert(distance.finite());
    let share = distance.over(deviation);
    order::lemma_round_range(distance.magnitude() * one, deviation.magnitude());
    lemma_any_sign(crate::rounding::round_ratio(distance.magnitude() * one, deviation.magnitude()));
    lemma_any_sign(0);
    lemma_any_sign(crate::rounding::INFINITY_FIELD as nat);
    assert(!share.nan());
    let factor = Real { bits: SIX_TENTHS };
    order::lemma_round_range(share.magnitude() * factor.magnitude(), one);
    lemma_any_sign(crate::rounding::round_ratio(share.magnitude() * factor.magnitude(), one));
}

proof fn lemma_any_sign(field: nat)
    requires
        field <= crate::rounding::INFINITY_FIELD,
    ensures
        !Real::signed(true, field).nan(),
        !Real::signed(false, field).nan(),
{
    order::lemma_signed(true, field);
    order::lemma_signed(false, field);
}

/// Law: the hype of a bar is defined where the volumes of its window are finite, not
/// negative, and have a finite sum.
pub proof fn law_hype_is_defined(volumes: Seq<Real>, window: int, i: int)
    requires
        0 <= i < volumes.len(),
        ({
            let start = window_start(i, effective_window(window, volumes.len() as int));
            &&& i + 1 - start < SIGNIFICAND_END
            &&& stats::sum_of(volumes, start, i + 1).finite()
            &&& forall|j: int|
                start <= j <= i ==> (#[trigger] volumes[j]).finite() && !volumes[j].negative()
        }),
    ensures
        !hype_argument(volumes, effective_window(window, volumes.len() as int), i).nan(),
{
    let w = effective_window(window, volumes.len() as int);
    let start = window_start(i, w);
    let n = i + 1 - start;
    stats::lemma_sum_not_negative(volumes, start, i + 1);
    let mean = stats::mean_of(volumes, start, i + 1);
    order::lemma_over_shrinks(stats::sum_of(volumes, start, i + 1), n);
    assert forall|j: int| start <= j <= i implies (#[trigger] volumes[j]).minus(mean).finite() by {
        let v = volumes[j];
        let larger = if v.magnitude() < mean.magnitude() { mean } else { v };
        lemma_distance_finite(v, mean, larger);
    }
    lemma_hype_defined(volumes, w, i);
}

/// Two numbers that are not negative lie no further apart than the larger is large.
proof fn lemma_distance_finite(x: Real, y: Real, larger: Real)
    requires
        x.finite(),
        y.finite(),
        larger.finite(),
        !x.negative(),
        !y.negative(),
        !larger.negative(),
        x.magnitude() <= larger.magnitude(),
        y.magnitude() <= larger.magnitude(),
    ensures
        x.minus(y).finite(),
{
    order::lemma_signed(true, y.field());
    order::lemma_signed(true, larger.field());
    let low = larger.negated();
    order::lemma_plus_value(x, y.negated());
    order::lemma_rounded_value(larger);
    order::lemma_rounded_value(low);
    order::lemma_rounded_order(x.value() - y.value(), larger.value());
    order::lemma_rounded_order(low.value(), x.value() - y.value());
    order::lemma_magnitude_reflects(x.minus(y).field(), larger.field());
}

/// Law: the hype of a bar is defined where the volumes of its window are finite, and so are
/// their squares.
pub proof fn law_hype_of_finite_squares_is_defined(volumes: Seq<Real>, window: int, i: int)
    requires
        0 <= i < volumes.len(),
        ({
            let start = window_start(i, effective_window(window, volumes.len() as int));
            &&& i + 1 - start < SIGNIFICAND_END
            &&& forall|j: int|
                start <= j <= i ==> (#[trigger] volumes[j]).finite() && volumes[j].times(
                    volumes[j],
                ).finite()
        }),
    ensures
        !hype_argument(volumes, effective_window(window, volumes.len() as int), i).nan(),
{
    let w = effective_window(window, volumes.len() as int);
    let start = window_start(i, w);
    let n = i + 1 - start;
    assert forall|j: int| start <= j <= i implies (#[trigger] volumes[j]).finite()
        && volumes[j].magnitude() <= stats::heap(1) by {
        stats::lemma_finite_square(volumes[j]);
    }
    stats::lemma_heaped_sum(volumes, start, i + 1);
    let sum = stats::sum_of(volumes, start, i + 1);
    let mean = stats::mean_of(volumes, start, i + 1);
    order::lemma_over_shrinks(sum, n);
    order::lemma_magnitude_order(mean.field(), sum.field());
    order::lemma_signed(!mean.negative(), mean.field());
    stats::lemma_heap(1);
    stats::lemma_heap(n as nat);
    stats::lemma_heap((n + 1) as nat);
    let (a, b) = (stats::heap_number(1), stats::heap_number(n as nat));
    let top = stats::heap_number((n + 1) as nat);
    assert(a.value() + b.value() == top.value()) by (nonlinear_arith)
        requires
            a.value() == 1 * vstd::arithmetic::power2::pow2(1586),
            b.value() == n * vstd::arithmetic::power2::pow2(1586),
            top.value() == (n + 1) * vstd::arithmetic::power2::pow2(1586),
    ;
    order::lemma_plus_value(a, b);
    order::lemma_rounded_value(top);
    assert(a.plus(b).value() == top.value());
    assert forall|j: int| start <= j <= i implies (#[trigger] volumes[j]).minus(mean).finite() by {
        order::lemma_sum_magnitude(volumes[j], mean.negated(), a, b);
        order::lemma_magnitude_reflects(a.plus(b).field(), top.field());
    }
    lemma_hype_defined(volumes, w, i);
}

/// Law: the hype of a bar rests on the volumes up to that bar alone.
pub proof fn law_hype_looks_back(a: Seq<Real>, b: Seq<Real>, window: int, i: int)
    requires
        0 <= i < a.len(),
        i < b.len(),
        forall|j: int| 0 <= j <= i ==> a[j] == b[j],
    ensures
        hype_argument(a, effective_window(window, a.len() as int), i) == hype_argument(
            b,
            effective_window(window, b.len() as int),
            i,
        ),
{
    let start = window_start(i, effective_window(window, a.len() as int));
    stats::lemma_same_values(a, b, start, i + 1);
}

} // verus!
