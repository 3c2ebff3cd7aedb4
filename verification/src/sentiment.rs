//! A sentiment proxy drawn from daily returns.

use crate::binary64::Real;
use crate::constants::{
    FIFTEEN_HUNDREDTHS, FIFTY_FIVE_HUNDREDTHS, FOUR_TENTHS, MINUS_FOUR_TENTHS, THREE_TENTHS,
    ZERO,
};
use crate::order;
use vstd::prelude::*;

verus! {

/// The share that the direction of a day has in its mood: 0.15 with the sign of the
/// return, 0 for a return of 0.
pub open spec fn direction_share(daily_return: Real) -> Real {
    if daily_return.field() == 0 {
        Real { bits: ZERO }
    } else {
        daily_return.sign_unit().times(Real { bits: FIFTEEN_HUNDREDTHS })
    }
}

/// The size of a day within its bounds.
pub open spec fn size_share(daily_return: Real) -> Real {
    daily_return.times(Real { bits: THREE_TENTHS }).clamped(
        Real { bits: MINUS_FOUR_TENTHS },
        Real { bits: FOUR_TENTHS },
    )
}

/// The mood of one day: its direction, and its size within bounds.
pub open spec fn mood(daily_return: Real) -> Real {
    direction_share(daily_return).plus(size_share(daily_return))
}

proof fn lemma_bounds_order()
    ensures
        (Real { bits: MINUS_FOUR_TENTHS }).at_most(Real { bits: FOUR_TENTHS }),
{
    let field: nat = FOUR_TENTHS as nat;
    assert((Real { bits: MINUS_FOUR_TENTHS }).field() == field);
}

fn day_mood(daily_return: Real) -> (r: Real)
    ensures
        r == mood(daily_return),
{
    proof {
        lemma_bounds_order();
    }
    let direction = if daily_return.magnitude_field() == 0 {
        Real { bits: ZERO }
    } else {
        daily_return.signum().mul(Real { bits: FIFTEEN_HUNDREDTHS })
    };
    let size = daily_return.mul(Real { bits: THREE_TENTHS }).clamp(
        Real { bits: MINUS_FOUR_TENTHS },
        Real { bits: FOUR_TENTHS },
    );
    direction.add(size)
}

/// The mood of each day.
pub fn compute_simple_sentiment(daily_returns: &Vec<Real>) -> (r: Vec<Real>)
    ensures
        r@ == daily_returns@.map_values(|x: Real| mood(x)),
{
    let mut r: Vec<Real> = Vec::new();
    let mut i: usize = 0;
    while i < daily_returns.len()
        invariant
            i <= daily_returns@.len(),
            r@.len() == i,
            forall|j: int| 0 <= j < i ==> #[trigger] r@[j] == mood(daily_returns@[j]),
        decreases daily_returns@.len() - i,
    {
        r.push(day_mood(daily_returns[i]));
        i = i + 1;
    }
    r
}

/// A mood of 0 on each of `n` days.
pub fn neutral_sentiment(n: usize) -> (r: Vec<Real>)
    ensures
        r@ == Seq::new(n as nat, |i: int| Real { bits: ZERO }),
{
    let mut r: Vec<Real> = Vec::new();
    let mut i: usize = 0;
    while i < n
        invariant
            i <= n,
            r@ == Seq::new(i as nat, |j: int| Real { bits: ZERO }),
        decreases n - i,
    {
        r.push(Real { bits: ZERO });
        i = i + 1;
    }
    r
}

/// The direction of a day counts as exactly 0.15 or its negative, or as 0.
pub proof fn lemma_direction(daily_return: Real)
    requires
        !daily_return.nan(),
    ensures
        direction_share(daily_return) == if daily_return.field() == 0 {
            Real { bits: ZERO }
        } else {
            Real::signed(daily_return.negative(), FIFTEEN_HUNDREDTHS as nat)
        },
        direction_share(daily_return).finite(),
        direction_share(daily_return).value() == if daily_return.value() > 0 {
            (Real { bits: FIFTEEN_HUNDREDTHS }).value()
        } else if daily_return.value() < 0 {
            -(Real { bits: FIFTEEN_HUNDREDTHS }).value()
        } else {
            0
        },
        (Real { bits: FIFTEEN_HUNDREDTHS }).value() > 0,
{
    let one = crate::binary64::one_in_units();
    vstd::arithmetic::power2::lemma_pow2_pos(1074);
    let weight = Real { bits: FIFTEEN_HUNDREDTHS };
    crate::binary64::lemma_zero();
    crate::binary64::lemma_field_order(0, FIFTEEN_HUNDREDTHS as nat);
    order::lemma_signed(daily_return.negative(), FIFTEEN_HUNDREDTHS as nat);
    order::lemma_signed(daily_return.negative(), crate::binary64::ONE_BITS as nat);
    if daily_return.field() != 0 {
        crate::binary64::lemma_field_order(0, daily_return.field());
        order::lemma_one();
        order::lemma_round_identity(FIFTEEN_HUNDREDTHS as nat, one);
        assert(one * weight.magnitude() == weight.magnitude() * one) by (nonlinear_arith);
    }
}

proof fn lemma_size(daily_return: Real)
    requires
        daily_return.finite(),
    ensures
        size_share(daily_return).finite(),
        daily_return.value() >= 0 ==> size_share(daily_return).value() >= 0,
        daily_return.value() <= 0 ==> size_share(daily_return).value() <= 0,
        size_share(daily_return).magnitude() <= (Real { bits: FOUR_TENTHS }).magnitude(),
{
    let factor = Real { bits: THREE_TENTHS };
    order::lemma_times_shrinks(daily_return, factor);
    order::lemma_times_sign(daily_return, factor);
    lemma_bounds_order();
    crate::binary64::lemma_zero();
    if daily_return.field() != 0 {
        crate::binary64::lemma_field_order(0, daily_return.field());
    }
}

/// Law: the mood has the sign of the return: positive for a gain, negative for a loss, 0
/// for no change.
pub proof fn law_mood_follows_return(daily_return: Real)
    requires
        daily_return.finite(),
    ensures
        !mood(daily_return).nan(),
        daily_return.value() > 0 ==> mood(daily_return).value() > 0,
        daily_return.value() < 0 ==> mood(daily_return).value() < 0,
        daily_return.value() == 0 ==> mood(daily_return) == (Real { bits: ZERO }),
{
    let direction = direction_share(daily_return);
    let size = size_share(daily_return);
    lemma_direction(daily_return);
    lemma_size(daily_return);
    crate::binary64::lemma_zero();
    order::lemma_plus_value(direction, size);
    order::lemma_rounded_value(direction);
    if daily_return.value() > 0 {
        order::lemma_rounded_order(direction.value(), direction.value() + size.value());
    } else if daily_return.value() < 0 {
        order::lemma_rounded_order(direction.value() + size.value(), direction.value());
    } else {
        assert(daily_return.field() == 0) by {
            if daily_return.field() != 0 {
                crate::binary64::lemma_field_order(0, daily_return.field());
            }
        }
    }
}

/// Law: a better return has no worse mood.
pub proof fn law_mood_grows(a: Real, b: Real)
    requires
        a.finite(),
        b.finite(),
        a.at_most(b),
    ensures
        mood(a).at_most(mood(b)),
{
    lemma_direction(a);
    lemma_direction(b);
    lemma_size(a);
    lemma_size(b);
    lemma_bounds_order();
    order::lemma_times_order(a, b, Real { bits: THREE_TENTHS });
    order::lemma_plus_order(direction_share(a), direction_share(b), size_share(a), size_share(b));
}

/// Law: opposite returns have opposite moods.
pub proof fn law_mood_is_odd(a: Real, b: Real)
    requires
        a.finite(),
        order::opposite(a, b),
    ensures
        order::opposite(mood(a), mood(b)),
{
    let low = Real { bits: MINUS_FOUR_TENTHS };
    let high = Real { bits: FOUR_TENTHS };
    lemma_direction(a);
    lemma_direction(b);
    crate::binary64::lemma_zero();
    order::lemma_signed(true, FIFTEEN_HUNDREDTHS as nat);
    order::lemma_signed(false, FIFTEEN_HUNDREDTHS as nat);
    order::lemma_opposite_times(a, b, Real { bits: THREE_TENTHS });
    order::lemma_times_shrinks(a, Real { bits: THREE_TENTHS });
    order::lemma_times_shrinks(b, Real { bits: THREE_TENTHS });
    assert(low.field() == high.field());
    assert(order::opposite(size_share(a), size_share(b)));
    order::lemma_opposite_plus(
        direction_share(a),
        direction_share(b),
        size_share(a),
        size_share(b),
    );
}

/// 0.15 and 0.4 together are no more than 0.55.
proof fn lemma_mood_limit()
    ensures
        (Real { bits: FIFTEEN_HUNDREDTHS }).value() + (Real { bits: FOUR_TENTHS }).value()
            <= (Real { bits: FIFTY_FIVE_HUNDREDTHS }).value(),
        (Real { bits: FIFTEEN_HUNDREDTHS }).finite(),
        (Real { bits: FOUR_TENTHS }).finite(),
        (Real { bits: FIFTY_FIVE_HUNDREDTHS }).finite(),
{
    let p = vstd::arithmetic::power2::pow2(1019);
    vstd::arithmetic::power2::lemma_pow2_pos(1019);
    vstd::arithmetic::power2::lemma_pow2_unfold(1020);
    vstd::arithmetic::power2::lemma_pow2_unfold(1021);
    assert(crate::binary64::field_scale(FIFTEEN_HUNDREDTHS as nat) == 1019);
    assert(crate::binary64::field_scale(FOUR_TENTHS as nat) == 1020);
    assert(crate::binary64::field_scale(FIFTY_FIVE_HUNDREDTHS as nat) == 1021);
    let a = crate::binary64::field_significand(FIFTEEN_HUNDREDTHS as nat);
    let b = crate::binary64::field_significand(FOUR_TENTHS as nat);
    let c = crate::binary64::field_significand(FIFTY_FIVE_HUNDREDTHS as nat);
    assert(a + 2 * b <= 4 * c);
    assert(a * p + b * (2 * p) <= c * (4 * p)) by (nonlinear_arith)
        requires
            a + 2 * b <= 4 * c,
            p >= 0,
    ;
}

/// Law: the mood of a return that is a number lies between -0.55 and 0.55.
pub proof fn law_mood_bounded(daily_return: Real)
    requires
        daily_return.finite(),
    ensures
        mood(daily_return).absolute().at_most(Real { bits: FIFTY_FIVE_HUNDREDTHS }),
{
    let limit = Real { bits: FIFTY_FIVE_HUNDREDTHS };
    let direction = direction_share(daily_return);
    let size = size_share(daily_return);
    lemma_direction(daily_return);
    lemma_size(daily_return);
    lemma_mood_limit();
    order::lemma_plus_value(direction, size);
    order::lemma_rounded_value(limit);
    order::lemma_signed(true, FIFTY_FIVE_HUNDREDTHS as nat);
    let opposite = Real::signed(true, FIFTY_FIVE_HUNDREDTHS as nat);
    order::lemma_rounded_value(opposite);
    let sum = direction.value() + size.value();
    order::lemma_rounded_order(sum, limit.value());
    order::lemma_rounded_order(opposite.value(), sum);
    let m = mood(daily_return);
    assert(opposite.value() <= m.value() <= limit.value());
    order::lemma_signed(false, m.field());
}

} // verus!
