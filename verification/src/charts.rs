//! What a chart shows of a series: which part, and between which bounds.

use crate::binary64::{Real, ONE_BITS};
use crate::constants::{
    EQUITY_MARGIN_HIGH, EQUITY_MARGIN_LOW, FIFTH, HALF, HUNDRED_FIVE_HUNDREDTHS, MILLIONTH,
    NEGATIVE_INFINITY, NINETY_FIVE_HUNDREDTHS, POSITIVE_INFINITY, PRICE_MARGIN_HIGH,
    PRICE_MARGIN_LOW, TEN, ZERO,
};
use vstd::prelude::*;

verus! {

/// The smallest of `first` and the first `k` values; undefined values do not count.
pub open spec fn least(values: Seq<Real>, first: Real, k: int) -> Real
    decreases k,
{
    if k <= 0 {
        first
    } else {
        least(values, first, k - 1).smaller(values[k - 1])
    }
}

/// The largest of `first` and the first `k` values; undefined values do not count.
pub open spec fn greatest(values: Seq<Real>, first: Real, k: int) -> Real
    decreases k,
{
    if k <= 0 {
        first
    } else {
        greatest(values, first, k - 1).larger(values[k - 1])
    }
}

fn least_of(values: &Vec<Real>, first: Real) -> (r: Real)
    ensures
        r == least(values@, first, values@.len() as int),
{
    let mut r = first;
    let mut i: usize = 0;
    while i < values.len()
        invariant
            i <= values@.len(),
            r == least(values@, first, i as int),
        decreases values@.len() - i,
    {
        r = r.min(values[i]);
        i = i + 1;
    }
    r
}

fn greatest_of(values: &Vec<Real>, first: Real) -> (r: Real)
    ensures
        r == greatest(values@, first, values@.len() as int),
{
    let mut r = first;
    let mut i: usize = 0;
    while i < values.len()
        invariant
            i <= values@.len(),
            r == greatest(values@, first, i as int),
        decreases values@.len() - i,
    {
        r = r.max(values[i]);
        i = i + 1;
    }
    r
}

/// The least and the greatest of all values.
pub open spec fn extremes(values: Seq<Real>) -> (Real, Real) {
    (
        least(values, Real { bits: POSITIVE_INFINITY }, values.len() as int),
        greatest(values, Real { bits: NEGATIVE_INFINITY }, values.len() as int),
    )
}

/// The bounds of an equity plot: 5 per cent beyond the extremes.
pub fn plot_bounds(equity: &Vec<Real>) -> (r: (Real, Real))
    ensures
        r.0 == extremes(equity@).0.times(Real { bits: NINETY_FIVE_HUNDREDTHS }),
        r.1 == extremes(equity@).1.times(Real { bits: HUNDRED_FIVE_HUNDREDTHS }),
{
    let low = least_of(equity, Real { bits: POSITIVE_INFINITY });
    let high = greatest_of(equity, Real { bits: NEGATIVE_INFINITY });
    (
        low.mul(Real { bits: NINETY_FIVE_HUNDREDTHS }),
        high.mul(Real { bits: HUNDRED_FIVE_HUNDREDTHS }),
    )
}

/// The extremes of prices; 0 and 1 where there is none.
pub open spec fn price_extremes(prices: Seq<Real>) -> (Real, Real) {
    if prices.len() == 0 {
        (Real { bits: ZERO }, Real { bits: ONE_BITS })
    } else {
        extremes(prices)
    }
}

/// The bounds of a price chart: half a per cent beyond the extremes, or 1 beyond a price
/// that does not move.
pub fn price_bounds(prices: &Vec<Real>) -> (r: (Real, Real))
    ensures
        ({
            let (low, high) = price_extremes(prices@);
            r == if (Real { bits: MILLIONTH }).below(high.minus(low).absolute()) {
                (
                    low.times(Real { bits: PRICE_MARGIN_LOW }),
                    high.times(Real { bits: PRICE_MARGIN_HIGH }),
                )
            } else {
                (low.minus(Real { bits: ONE_BITS }), high.plus(Real { bits: ONE_BITS }))
            }
        }),
{
    let one = Real { bits: ONE_BITS };
    let threshold = Real { bits: MILLIONTH };
    let mut low = Real { bits: ZERO };
    let mut high = one;
    if prices.len() > 0 {
        low = least_of(prices, Real { bits: POSITIVE_INFINITY });
        high = greatest_of(prices, Real { bits: NEGATIVE_INFINITY });
    }
    if threshold.lt(high.sub(low).abs()) {
        (low.mul(Real { bits: PRICE_MARGIN_LOW }), high.mul(Real { bits: PRICE_MARGIN_HIGH }))
    } else {
        (low.sub(one), high.add(one))
    }
}

/// The bounds of a score chart: it shows 0, all scores, and both thresholds with room.
pub fn score_bounds(scores: &Vec<Real>, long: Real, short: Real) -> (r: (Real, Real))
    ensures
        ({
            let n = scores@.len() as int;
            let zero = Real { bits: ZERO };
            r == if n == 0 {
                (short.negated().minus(Real { bits: HALF }), long.plus(Real { bits: HALF }))
            } else {
                (
                    least(scores@, zero, n).smaller(
                        short.negated().minus(Real { bits: FIFTH }),
                    ),
                    greatest(scores@, zero, n).larger(long.plus(Real { bits: FIFTH })),
                )
            }
        }),
{
    let zero = Real { bits: ZERO };
    let half = Real { bits: HALF };
    let fifth = Real { bits: FIFTH };
    if scores.len() == 0 {
        (short.neg().sub(half), long.add(half))
    } else {
        (
            least_of(scores, zero).min(short.neg().sub(fifth)),
            greatest_of(scores, zero).max(long.add(fifth)),
        )
    }
}

/// The extremes of an equity in dollars; the capital where there is none.
pub open spec fn equity_extremes(values: Seq<Real>, capital: Real) -> (Real, Real) {
    if values.len() == 0 {
        (capital, capital)
    } else {
        extremes(values)
    }
}

/// The bounds of an equity chart: one per cent beyond the extremes, or 10 beyond an equity
/// that does not move.
pub fn equity_bounds(values: &Vec<Real>, capital: Real) -> (r: (Real, Real))
    ensures
        ({
            let (low, high) = equity_extremes(values@, capital);
            r == if (Real { bits: ONE_BITS }).below(high.minus(low).absolute()) {
                (
                    low.times(Real { bits: EQUITY_MARGIN_LOW }),
                    high.times(Real { bits: EQUITY_MARGIN_HIGH }),
                )
            } else {
                (low.minus(Real { bits: TEN }), high.plus(Real { bits: TEN }))
            }
        }),
{
    let one = Real { bits: ONE_BITS };
    let ten = Real { bits: TEN };
    let mut low = capital;
    let mut high = capital;
    if values.len() > 0 {
        low = least_of(values, Real { bits: POSITIVE_INFINITY });
        high = greatest_of(values, Real { bits: NEGATIVE_INFINITY });
    }
    if one.lt(high.sub(low).abs()) {
        (low.mul(Real { bits: EQUITY_MARGIN_LOW }), high.mul(Real { bits: EQUITY_MARGIN_HIGH }))
    } else {
        (low.sub(ten), high.add(ten))
    }
}

/// The part of `n` entries that a view of `len` entries from `start` shows: it begins at an
/// entry, and shows at least one.
pub open spec fn visible_part(start: int, len: int, n: int) -> (int, int) {
    let last = if n > 0 {
        n - 1
    } else {
        0
    };
    let first = if start < last {
        start
    } else {
        last
    };
    let room = n - first;
    let shown = if len < room {
        len
    } else {
        room
    };
    (
        first,
        if shown < 1 {
            1
        } else {
            shown
        },
    )
}

/// The part of `n` entries that a view of `len` entries from `start` shows.
pub fn visible(start: usize, len: usize, n: usize) -> (r: (usize, usize))
    ensures
        (r.0 as int, r.1 as int) == visible_part(start as int, len as int, n as int),
        n > 0 ==> r.0 + r.1 <= n,
        r.1 >= 1,
{
    let last: usize = if n > 0 {
        n - 1
    } else {
        0
    };
    let first: usize = if start < last {
        start
    } else {
        last
    };
    let room: usize = n - first;
    let shown: usize = if len < room {
        len
    } else {
        room
    };
    (
        first,
        if shown < 1 {
            1
        } else {
            shown
        },
    )
}

} // verus!
