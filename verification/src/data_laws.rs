//! What the bars of a chart mean.

use crate::binary64::Real;
use crate::counting;
use crate::data;
use crate::data::{ChartQuote, ChartResult, PriceBar};
use crate::dates::Date;
use vstd::prelude::*;

verus! {

/// Row `i` gives a bar: its instant lies on a day from `start` to `end`, and it has a close
/// that is a positive number.
pub open spec fn row_counts(
    timestamps: Seq<i64>,
    quote: ChartQuote,
    start: Date,
    end: Date,
    i: int,
) -> bool {
    let t = timestamps[i] as int;
    &&& start.epoch_day * 86_400 <= t < (end.epoch_day + 1) * 86_400
    &&& i < quote.close@.len()
    &&& quote.close@[i] matches Some(close) && close.finite() && close.value() > 0
}

/// The bar says what row `i` says: the day of its instant, its close, and what else there
/// is. A missing open, high or low is no number, a missing volume is 0, and a missing
/// adjusted close is the close.
pub open spec fn bar_of_row(
    bar: PriceBar,
    timestamps: Seq<i64>,
    quote: ChartQuote,
    adjusted: Seq<Option<Real>>,
    i: int,
) -> bool {
    let t = timestamps[i] as int;
    let given = |values: Seq<Option<Real>>| i < values.len() && values[i] is Some;
    &&& bar.date.epoch_day * 86_400 <= t < (bar.date.epoch_day + 1) * 86_400
    &&& Some(bar.close) == quote.close@[i]
    &&& given(quote.open@) ==> Some(bar.open) == quote.open@[i]
    &&& !given(quote.open@) ==> bar.open.nan()
    &&& given(quote.high@) ==> Some(bar.high) == quote.high@[i]
    &&& !given(quote.high@) ==> bar.high.nan()
    &&& given(quote.low@) ==> Some(bar.low) == quote.low@[i]
    &&& !given(quote.low@) ==> bar.low.nan()
    &&& given(quote.volume@) ==> Some(bar.volume) == quote.volume@[i]
    &&& !given(quote.volume@) ==> bar.volume.value() == 0
    &&& given(adjusted) ==> Some(bar.adj_close) == adjusted[i]
    &&& !given(adjusted) ==> bar.adj_close == bar.close
}

/// Law: a chart gives one bar for each row on a wanted day with a positive close, in the
/// order of the rows, and no others; each says what its row says.
pub proof fn law_each_sound_row_is_a_bar(
    timestamps: Seq<i64>,
    quote: ChartQuote,
    adjusted: Seq<Option<Real>>,
    start: Date,
    end: Date,
    n: int,
    k: int,
)
    requires
        start.valid(),
        end.valid(),
        0 <= n <= timestamps.len(),
    ensures
        ({
            let bars = data::chart_bars(timestamps, quote, adjusted, start, end, n);
            let p = |i: int| row_counts(timestamps, quote, start, end, i);
            &&& bars.len() == counting::those(n, p).len()
            &&& counting::in_order(n, p).len() == bars.len()
            &&& 0 <= k < bars.len() ==> bar_of_row(
                bars[k],
                timestamps,
                quote,
                adjusted,
                counting::in_order(n, p)[k],
            )
        }),
    decreases n,
{
    let p = |i: int| row_counts(timestamps, quote, start, end, i);
    counting::lemma_those(n, p);
    if n > 0 {
        law_each_sound_row_is_a_bar(timestamps, quote, adjusted, start, end, n - 1, k);
        lemma_row(timestamps, quote, adjusted, start, end, n - 1);
    }
}

proof fn lemma_row(
    timestamps: Seq<i64>,
    quote: ChartQuote,
    adjusted: Seq<Option<Real>>,
    start: Date,
    end: Date,
    i: int,
)
    requires
        start.valid(),
        end.valid(),
        0 <= i < timestamps.len(),
    ensures
        ({
            let bar = data::chart_bar(timestamps, quote, adjusted, start, end, i);
            &&& bar is Some <==> row_counts(timestamps, quote, start, end, i)
            &&& bar matches Some(b) ==> bar_of_row(b, timestamps, quote, adjusted, i)
        }),
{
    crate::binary64::lemma_zero();
    let t = timestamps[i] as int;
    let day = t / 86_400;
    assert(day * 86_400 <= t < (day + 1) * 86_400);
}

/// The blocks that a response is read from: the rows, the quote and the adjusted closes of
/// its first result, where it has them.
pub open spec fn first_blocks(results: Seq<ChartResult>) -> (
    Seq<i64>,
    ChartQuote,
    Seq<Option<Real>>,
) {
    let result = results[0];
    (
        if result.timestamp is Some {
            result.timestamp->0@
        } else {
            Seq::empty()
        },
        result.quote@[0],
        if result.adjclose is Some && result.adjclose->0@.len() > 0 {
            result.adjclose->0@[0]@
        } else {
            Seq::empty()
        },
    )
}

/// Law: the bars of a response are those of the first blocks of its first result.
pub proof fn law_response_is_its_first_result(
    results: Seq<ChartResult>,
    start: Date,
    end: Date,
    k: int,
)
    requires
        start.valid(),
        end.valid(),
        results.len() > 0,
        results[0].quote@.len() > 0,
    ensures
        ({
            let bars = data::response_bars(results, start, end);
            let (rows, quote, adjusted) = first_blocks(results);
            let p = |i: int| row_counts(rows, quote, start, end, i);
            let n = rows.len() as int;
            &&& bars.len() == counting::those(n, p).len()
            &&& 0 <= k < bars.len() ==> bar_of_row(
                bars[k],
                rows,
                quote,
                adjusted,
                counting::in_order(n, p)[k],
            )
        }),
{
    let (rows, quote, adjusted) = first_blocks(results);
    law_each_sound_row_is_a_bar(rows, quote, adjusted, start, end, rows.len() as int, k);
}

} // verus!
