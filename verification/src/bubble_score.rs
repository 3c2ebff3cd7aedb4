//! The bubble score: how far the price stands from its fitted curve, moved by attention
//! and mood.

use crate::binary64::{Real, ONE_BITS};
use crate::constants::{MINUS_ONE, TRILLIONTH, ZERO};
use crate::order;
use vstd::prelude::*;

verus! {

/// Hype and sentiment raise the score of a price above its curve and lower the score of
/// a price below it.
pub open spec fn score(
    epsilon_norm: Real,
    hype: Real,
    sentiment: Real,
    alpha1: Real,
    alpha2: Real,
) -> Real {
    let zero = Real { bits: ZERO };
    if zero.at_most(epsilon_norm) {
        epsilon_norm.plus(alpha1.times(hype)).plus(alpha2.times(sentiment))
    } else {
        epsilon_norm.minus(alpha1.times(hype)).minus(alpha2.times(sentiment))
    }
}

/// The bubble score of one day.
pub fn compute_bubble_score(
    epsilon_norm: Real,
    hype: Real,
    sentiment: Real,
    alpha1: Real,
    alpha2: Real,
) -> (r: Real)
    ensures
        r == score(epsilon_norm, hype, sentiment, alpha1, alpha2),
{
    let zero = Real { bits: ZERO };
    if zero.le(epsilon_norm) {
        epsilon_norm.add(alpha1.mul(hype)).add(alpha2.mul(sentiment))
    } else {
        epsilon_norm.sub(alpha1.mul(hype)).sub(alpha2.mul(sentiment))
    }
}

/// Largest magnitude among the residuals from `start` up to (not including) `end`, 0 if
/// there is none; undefined residuals do not count.
pub open spec fn largest_residual(raw: Seq<Real>, start: int, end: int) -> Real
    decreases end - start,
{
    if end <= start {
        Real { bits: ZERO }
    } else {
        largest_residual(raw, start, end - 1).larger(raw[end - 1].absolute())
    }
}

/// A residual as a share of the largest magnitude so far, held to -1 .. 1; 0 as long as
/// that magnitude is negligible.
pub open spec fn share_of_largest(residual: Real, largest: Real) -> Real {
    if (Real { bits: TRILLIONTH }).below(largest) {
        residual.over(largest).clamped(Real { bits: MINUS_ONE }, Real { bits: ONE_BITS })
    } else {
        Real { bits: ZERO }
    }
}

pub fn normalize_share(residual: Real, largest: Real) -> (r: Real)
    ensures
        r == share_of_largest(residual, largest),
{
    let threshold = Real { bits: TRILLIONTH };
    if threshold.lt(largest) {
        let low = Real { bits: MINUS_ONE };
        let high = Real { bits: ONE_BITS };
        proof {
            lemma_unit_interval();
        }
        residual.div(largest).clamp(low, high)
    } else {
        Real { bits: ZERO }
    }
}

proof fn lemma_unit_interval()
    ensures
        (Real { bits: MINUS_ONE }).value() == -(crate::binary64::one_in_units() as int),
        (Real { bits: ONE_BITS }).value() == crate::binary64::one_in_units(),
        (Real { bits: MINUS_ONE }).at_most(Real { bits: ONE_BITS }),
        !(Real { bits: MINUS_ONE }).nan(),
        !(Real { bits: ONE_BITS }).nan(),
{
    order::lemma_one();
    vstd::arithmetic::power2::lemma_pow2_pos(1074);
    assert((Real { bits: MINUS_ONE }).field() == ONE_BITS);
}

/// Divides each residual from `start_idx` on by the largest magnitude from `start_idx` up
/// to its own day; the entries before `start_idx` are 0.
pub fn normalize_running_max(raw: &Vec<Real>, start_idx: usize) -> (out: Vec<Real>)
    ensures
        out@.len() == raw@.len(),
        forall|i: int|
            0 <= i < raw@.len() ==> #[trigger] out@[i] == if i < start_idx {
                Real { bits: ZERO }
            } else {
                share_of_largest(raw@[i], largest_residual(raw@, start_idx as int, i + 1))
            },
{
    let n: usize = raw.len();
    let mut out: Vec<Real> = Vec::new();
    let mut running_max = Real { bits: ZERO };
    let mut i: usize = 0;
    while i < n
        invariant
            i <= n,
            n == raw@.len(),
            out@.len() == i,
            running_max == largest_residual(raw@, start_idx as int, i as int),
            forall|j: int|
                0 <= j < i ==> #[trigger] out@[j] == if j < start_idx {
                    Real { bits: ZERO }
                } else {
                    share_of_largest(raw@[j], largest_residual(raw@, start_idx as int, j + 1))
                },
        decreases n - i,
    {
        if i < start_idx {
            out.push(Real { bits: ZERO });
        } else {
            running_max = running_max.max(raw[i].abs());
            out.push(normalize_share(raw[i], running_max));
        }
        i = i + 1;
    }
    out
}

/// Largest magnitude among all residuals.
pub fn largest_magnitude(residuals: &Vec<Real>) -> (r: Real)
    ensures
        r == largest_residual(residuals@, 0, residuals@.len() as int),
{
    let mut largest = Real { bits: ZERO };
    let mut i: usize = 0;
    while i < residuals.len()
        invariant
            i <= residuals@.len(),
            largest == largest_residual(residuals@, 0, i as int),
        decreases residuals@.len() - i,
    {
        largest = largest.max(residuals[i].abs());
        i = i + 1;
    }
    largest
}

/// The last residual as a share of the largest magnitude in its window, 0 for an empty
/// window.
pub open spec fn last_share(residuals: Seq<Real>) -> Real {
    if residuals.len() == 0 {
        Real { bits: ZERO }
    } else {
        share_of_largest(
            residuals.last(),
            largest_residual(residuals, 0, residuals.len() as int),
        )
    }
}

/// The normalized residual of the last day of one fit window.
pub fn normalize_last_residual_running_style(residuals: &Vec<Real>) -> (r: Real)
    ensures
        r == last_share(residuals@),
{
    if residuals.len() == 0 {
        return Real { bits: ZERO };
    }
    let largest = largest_magnitude(residuals);
    normalize_share(residuals[residuals.len() - 1], largest)
}

/// The normalized residual of the last day of one fit window.
pub fn normalize_last_residual(residuals: &Vec<Real>) -> (r: Real)
    ensures
        r == last_share(residuals@),
{
    normalize_last_residual_running_style(residuals)
}

/// All residuals of a stretch are finite.
pub open spec fn all_finite(raw: Seq<Real>) -> bool {
    forall|i: int| 0 <= i < raw.len() ==> (#[trigger] raw[i]).finite()
}

/// The largest magnitude of finite residuals is finite and bounds each of them.
pub proof fn lemma_largest_bounds(raw: Seq<Real>, start: int, end: int)
    requires
        0 <= start,
        end <= raw.len(),
        all_finite(raw),
    ensures
        largest_residual(raw, start, end).finite(),
        !largest_residual(raw, start, end).negative(),
        forall|i: int|
            start <= i < end ==> (#[trigger] raw[i]).magnitude() <= largest_residual(
                raw,
                start,
                end,
            ).magnitude(),
    decreases end - start,
{
    crate::binary64::lemma_zero();
    if start < end {
        lemma_largest_bounds(raw, start, end - 1);
        let before = largest_residual(raw, start, end - 1);
        let last = raw[end - 1].absolute();
        order::lemma_signed(false, raw[end - 1].field());
        assert(last.magnitude() == raw[end - 1].magnitude());
    }
}

/// Law: a normalized residual lies between -1 and 1 as soon as the residuals are numbers.
pub proof fn law_share_in_unit_interval(raw: Seq<Real>, start: int, i: int)
    requires
        0 <= start <= i < raw.len(),
        all_finite(raw),
    ensures
        ({
            let share = share_of_largest(raw[i], largest_residual(raw, start, i + 1));
            (Real { bits: MINUS_ONE }).at_most(share) && share.at_most(Real { bits: ONE_BITS })
        }),
{
    let largest = largest_residual(raw, start, i + 1);
    lemma_largest_bounds(raw, start, i + 1);
    lemma_unit_interval();
    crate::binary64::lemma_zero();
    vstd::arithmetic::power2::lemma_pow2_pos(1074);
    if (Real { bits: TRILLIONTH }).below(largest) {
        crate::binary64::lemma_field_order(0, TRILLIONTH as nat);
        assert(largest.field() != 0);
        order::lemma_over_unit(raw[i], largest);
    }
}

/// Law: weights and inputs that are not negative raise a non-negative normalized residual
/// and lower a negative one.
pub proof fn law_score_amplifies(
    epsilon_norm: Real,
    hype: Real,
    sentiment: Real,
    alpha1: Real,
    alpha2: Real,
)
    requires
        epsilon_norm.finite(),
        hype.finite(),
        sentiment.finite(),
        alpha1.finite(),
        alpha2.finite(),
        !hype.negative(),
        !sentiment.negative(),
        !alpha1.negative(),
        !alpha2.negative(),
    ensures
        epsilon_norm.value() >= 0 ==> epsilon_norm.at_most(
            score(epsilon_norm, hype, sentiment, alpha1, alpha2),
        ),
        epsilon_norm.value() < 0 ==> score(
            epsilon_norm,
            hype,
            sentiment,
            alpha1,
            alpha2,
        ).at_most(epsilon_norm),
{
    crate::binary64::lemma_zero();
    let h = alpha1.times(hype);
    let s = alpha2.times(sentiment);
    order::lemma_times_sign(alpha1, hype);
    order::lemma_times_sign(alpha2, sentiment);
    order::lemma_signed(!h.negative(), h.field());
    order::lemma_signed(!s.negative(), s.field());
    if epsilon_norm.value() >= 0 {
        order::lemma_plus_direction(epsilon_norm, h);
        order::lemma_plus_direction(epsilon_norm.plus(h), s);
    } else {
        order::lemma_plus_direction(epsilon_norm, h.negated());
        order::lemma_plus_direction(epsilon_norm.minus(h), s.negated());
    }
}

/// Law: the score is odd in the normalized residual. That of a price above its curve is
/// the residual plus the weighted hype and mood; the opposite residual has the opposite
/// score.
pub proof fn law_score_is_odd(
    above: Real,
    below: Real,
    hype: Real,
    sentiment: Real,
    alpha1: Real,
    alpha2: Real,
)
    requires
        !above.nan(),
        above.value() > 0,
        order::opposite(above, below),
        hype.finite(),
        sentiment.finite(),
        alpha1.finite(),
        alpha2.finite(),
    ensures
        score(above, hype, sentiment, alpha1, alpha2) == above.plus(alpha1.times(hype)).plus(
            alpha2.times(sentiment),
        ),
        order::opposite(
            score(above, hype, sentiment, alpha1, alpha2),
            score(below, hype, sentiment, alpha1, alpha2),
        ),
{
    crate::binary64::lemma_zero();
    let h = alpha1.times(hype);
    let s = alpha2.times(sentiment);
    order::lemma_times_sign(alpha1, hype);
    order::lemma_times_sign(alpha2, sentiment);
    order::lemma_opposite_negated(h);
    order::lemma_opposite_negated(s);
    assert(above.field() != 0);
    order::lemma_opposite_plus(above, below, h, h.negated());
    order::lemma_opposite_plus(above.plus(h), below.minus(h), s, s.negated());
}

} // verus!
