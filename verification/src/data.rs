//! Daily price bars, and how they are read out of a chart response.

use crate::binary64::{Real, NAN_BITS};
use crate::dates::Date;
use crate::text;
use crate::text::text_of_i64;
use vstd::prelude::*;
use vstd::seq_lib::*;
use vstd::string::*;

verus! {

/// One trading day of a security.
#[derive(Clone, Copy, Debug, PartialEq, Eq, Structural)]
pub struct PriceBar {
    pub date: Date,
    pub open: Real,
    pub high: Real,
    pub low: Real,
    pub close: Real,
    /// Close adjusted for splits and dividends; what returns and fits are taken from.
    pub adj_close: Real,
    pub volume: Real,
}

/// The parallel price arrays of a chart; an entry may be missing.
#[derive(Clone, Debug)]
pub struct ChartQuote {
    pub open: Vec<Option<Real>>,
    pub high: Vec<Option<Real>>,
    pub low: Vec<Option<Real>>,
    pub close: Vec<Option<Real>>,
    pub volume: Vec<Option<Real>>,
}

/// One result of a chart response.
#[derive(Clone, Debug)]
pub struct ChartResult {
    /// Unix seconds, one entry for each row of the arrays.
    pub timestamp: Option<Vec<i64>>,
    pub quote: Vec<ChartQuote>,
    pub adjclose: Option<Vec<Vec<Option<Real>>>>,
}

/// Why a chart response gave no bars.
#[derive(Clone, Debug)]
pub enum FetchError {
    /// The server answered with the given status line.
    Status(String),
    NoResult,
    NoQuote,
    NoBars,
}

impl FetchError {
    /// The message for a user.
    pub open spec fn text(self, ticker: Seq<char>) -> Seq<char> {
        match self {
            FetchError::Status(status) => "Yahoo API error for "@ + ticker + ": HTTP "@ + status@,
            FetchError::NoResult => "No result in Yahoo response"@,
            FetchError::NoQuote => "No quote data"@,
            FetchError::NoBars => "No valid price data returned for "@ + ticker,
        }
    }

    /// The message for a user.
    pub fn message(&self, ticker: &str) -> (r: String)
        ensures
            r@ == self.text(ticker@),
    {
        match self {
            FetchError::Status(status) => {
                let mut r = "Yahoo API error for ".to_owned();
                r.append(ticker);
                r.append(": HTTP ");
                r.append(status.as_str());
                r
            },
            FetchError::NoResult => "No result in Yahoo response".to_owned(),
            FetchError::NoQuote => "No quote data".to_owned(),
            FetchError::NoBars => {
                let mut r = "No valid price data returned for ".to_owned();
                r.append(ticker);
                r
            },
        }
    }
}

/// The address of the chart of a ticker between two instants.
pub open spec fn chart_address(ticker: Seq<char>, from: int, to: int) -> Seq<char> {
    "https://query1.finance.yahoo.com/v8/finance/chart/"@ + ticker + "?period1="@
        + text::integer_text(from) + "&period2="@ + text::integer_text(to)
        + "&interval=1d&indicators=quote&includeAdjustedClose=true"@
}

/// The address that asks for the daily bars of a ticker from `start` to the end of `end`.
pub fn chart_url(ticker: &str, start: Date, end: Date) -> (r: String)
    requires
        start.valid(),
        end.valid(),
    ensures
        r@ == chart_address(
            ticker@,
            start.epoch_day * 86_400,
            end.epoch_day * 86_400 + 86_399,
        ),
{
    let mut r = "https://query1.finance.yahoo.com/v8/finance/chart/".to_owned();
    r.append(ticker);
    r.append("?period1=");
    r.append(text_of_i64(start.first_second()).as_str());
    r.append("&period2=");
    r.append(text_of_i64(end.last_second()).as_str());
    r.append("&interval=1d&indicators=quote&includeAdjustedClose=true");
    r
}

/// The entry of an array, if there is one.
pub open spec fn entry(values: Seq<Option<Real>>, i: int) -> Option<Real> {
    if 0 <= i < values.len() {
        values[i]
    } else {
        None
    }
}

/// The entry of an array, or a stand-in where it is missing.
pub open spec fn entry_or(values: Seq<Option<Real>>, i: int, other: Real) -> Real {
    match entry(values, i) {
        Some(v) => v,
        None => other,
    }
}

fn read_entry(values: &Vec<Option<Real>>, i: usize, other: Real) -> (r: Real)
    ensures
        r == entry_or(values@, i as int, other),
{
    if i < values.len() {
        match values[i] {
            Some(v) => v,
            None => other,
        }
    } else {
        other
    }
}

/// The bar of row `i` of a chart: present when its instant is a day from `start` to
/// `end` and its close is a positive finite number. A missing open, high or low is
/// undefined, a missing volume is zero, a missing adjusted close is the close.
pub open spec fn chart_bar(
    timestamps: Seq<i64>,
    quote: ChartQuote,
    adjusted: Seq<Option<Real>>,
    start: Date,
    end: Date,
    i: int,
) -> Option<PriceBar> {
    let day = timestamps[i] as int / 86_400;
    let missing = Real { bits: NAN_BITS };
    let close = entry_or(quote.close@, i, missing);
    if crate::dates::in_calendar(day) && start.epoch_day <= day <= end.epoch_day
        && close.finite() && close.value() > 0 {
        Some(
            PriceBar {
                date: Date { epoch_day: day as i32 },
                open: entry_or(quote.open@, i, missing),
                high: entry_or(quote.high@, i, missing),
                low: entry_or(quote.low@, i, missing),
                close,
                adj_close: entry_or(adjusted, i, close),
                volume: entry_or(quote.volume@, i, Real { bits: 0 }),
            },
        )
    } else {
        None
    }
}

/// The bars of the first `n` rows of a chart, in the order of the rows.
pub open spec fn chart_bars(
    timestamps: Seq<i64>,
    quote: ChartQuote,
    adjusted: Seq<Option<Real>>,
    start: Date,
    end: Date,
    n: int,
) -> Seq<PriceBar>
    decreases n,
{
    if n <= 0 {
        Seq::empty()
    } else {
        let before = chart_bars(timestamps, quote, adjusted, start, end, n - 1);
        match chart_bar(timestamps, quote, adjusted, start, end, n - 1) {
            Some(bar) => before.push(bar),
            None => before,
        }
    }
}

fn read_bar(
    timestamps: &Vec<i64>,
    quote: &ChartQuote,
    adjusted: &Vec<Option<Real>>,
    start: Date,
    end: Date,
    i: usize,
) -> (r: Option<PriceBar>)
    requires
        i < timestamps@.len(),
    ensures
        r == chart_bar(timestamps@, *quote, adjusted@, start, end, i as int),
{
    let date = match Date::from_timestamp(timestamps[i]) {
        Some(date) => date,
        None => {
            return None;
        },
    };
    if date.epoch_day < start.epoch_day || date.epoch_day > end.epoch_day {
        return None;
    }
    let missing = Real { bits: NAN_BITS };
    let zero = Real { bits: 0 };
    let close = read_entry(&quote.close, i, missing);
    proof {
        crate::binary64::lemma_zero();
    }
    if close.is_finite() && zero.lt(close) {
        Some(
            PriceBar {
                date,
                open: read_entry(&quote.open, i, missing),
                high: read_entry(&quote.high, i, missing),
                low: read_entry(&quote.low, i, missing),
                close,
                adj_close: read_entry(adjusted, i, close),
                volume: read_entry(&quote.volume, i, zero),
            },
        )
    } else {
        None
    }
}

/// Bars in the order of their dates.
pub open spec fn ascending(bars: Seq<PriceBar>) -> bool {
    forall|i: int, j: int|
        0 <= i <= j < bars.len() ==> bars[i].date.epoch_day <= bars[j].date.epoch_day
}

/// The bars of one day, in the order in which they stand.
pub open spec fn bars_of_day(bars: Seq<PriceBar>, day: i32) -> Seq<PriceBar> {
    bars.filter(|b: PriceBar| b.date.epoch_day == day)
}

/// `sorted` holds the bars of `bars` by ascending date; bars of one day keep their order.
pub open spec fn stably_sorted(bars: Seq<PriceBar>, sorted: Seq<PriceBar>) -> bool {
    &&& ascending(sorted)
    &&& sorted.to_multiset() == bars.to_multiset()
    &&& forall|day: i32| #[trigger] bars_of_day(sorted, day) == bars_of_day(bars, day)
}

/// A filter that nothing passes leaves nothing.
proof fn lemma_filter_none(s: Seq<PriceBar>, day: i32)
    requires
        forall|i: int| 0 <= i < s.len() ==> (#[trigger] s[i]).date.epoch_day != day,
    ensures
        bars_of_day(s, day) == Seq::<PriceBar>::empty(),
    decreases s.len(),
{
    reveal(Seq::filter);
    if s.len() > 0 {
        lemma_filter_none(s.drop_last(), day);
    }
}

/// Inserting a bar behind all bars that are not later keeps the order.
proof fn lemma_insert_sorted(bars: Seq<PriceBar>, sorted: Seq<PriceBar>, at: int, bar: PriceBar)
    requires
        stably_sorted(bars, sorted),
        0 <= at <= sorted.len(),
        forall|i: int|
            0 <= i < at ==> (#[trigger] sorted[i]).date.epoch_day <= bar.date.epoch_day,
        forall|i: int|
            at <= i < sorted.len() ==> (#[trigger] sorted[i]).date.epoch_day
                > bar.date.epoch_day,
    ensures
        stably_sorted(bars.push(bar), sorted.insert(at, bar)),
{
    let head = sorted.take(at);
    let tail = sorted.skip(at);
    let result = sorted.insert(at, bar);
    assert(result =~= head.push(bar) + tail);
    assert(sorted =~= head + tail);
    assert(ascending(result)) by {
        assert forall|i: int, j: int| 0 <= i <= j < result.len() implies result[i].date.epoch_day
            <= result[j].date.epoch_day by {
            let a = if i < at { i } else { i - 1 };
            let b = if j < at { j } else { j - 1 };
            if i != at && j != at {
                assert(result[i] == sorted[a]);
                assert(result[j] == sorted[b]);
            } else if i == at && j != at {
                assert(result[j] == sorted[b]);
            } else if i != at && j == at {
                assert(result[i] == sorted[a]);
            }
        }
    }
    broadcast use group_to_multiset_ensures;

    assert(result.to_multiset() =~= sorted.to_multiset().insert(bar)) by {
        to_multiset_insert(sorted, at, bar);
    }
    assert forall|day: i32| #[trigger] bars_of_day(result, day) == bars_of_day(
        bars.push(bar),
        day,
    ) by {
        let p = |b: PriceBar| b.date.epoch_day == day;
        assert(bars_of_day(sorted, day) == bars_of_day(bars, day));
        Seq::filter_distributes_over_add(head.push(bar), tail, p);
        Seq::filter_distributes_over_add(head, tail, p);
        reveal(Seq::filter);
        assert(head.push(bar).drop_last() =~= head);
        assert(bars.push(bar).drop_last() =~= bars);
        if day == bar.date.epoch_day {
            assert forall|i: int| 0 <= i < tail.len() implies (#[trigger] tail[i]).date.epoch_day
                != day by {
                assert(tail[i] == sorted[at + i]);
            }
            lemma_filter_none(tail, day);
            assert(head.filter(p) + tail.filter(p) =~= head.filter(p));
            assert(head.push(bar).filter(p) + tail.filter(p) =~= head.filter(p).push(bar));
        }
    }
}

proof fn to_multiset_insert(s: Seq<PriceBar>, at: int, bar: PriceBar)
    requires
        0 <= at <= s.len(),
    ensures
        s.insert(at, bar).to_multiset() == s.to_multiset().insert(bar),
{
    s.to_multiset_ensures();
    assert(s.insert(at, bar).remove(at) =~= s);
    s.insert(at, bar).to_multiset_ensures();
    assert(s.insert(at, bar).to_multiset() =~= s.to_multiset().insert(bar));
}

/// Puts a bar behind all bars that are not later.
fn insert_bar(bars: &mut Vec<PriceBar>, bar: PriceBar, Ghost(unsorted): Ghost<Seq<PriceBar>>)
    requires
        stably_sorted(unsorted, old(bars)@),
    ensures
        stably_sorted(unsorted.push(bar), final(bars)@),
{
    let mut at: usize = bars.len();
    while at > 0 && bars[at - 1].date.epoch_day > bar.date.epoch_day
        invariant
            at <= bars@.len(),
            forall|i: int|
                at <= i < bars@.len() ==> (#[trigger] bars@[i]).date.epoch_day
                    > bar.date.epoch_day,
        decreases at,
    {
        at = at - 1;
    }
    proof {
        assert forall|i: int| 0 <= i < at implies (#[trigger] bars@[i]).date.epoch_day
            <= bar.date.epoch_day by {
            assert(bars@[i].date.epoch_day <= bars@[at - 1].date.epoch_day);
        }
        lemma_insert_sorted(unsorted, bars@, at as int, bar);
    }
    bars.insert(at, bar);
}

/// The rows that a chart result offers: none where it has no timestamps.
pub open spec fn result_rows(result: ChartResult) -> Seq<i64> {
    match result.timestamp {
        Some(t) => t@,
        None => Seq::empty(),
    }
}

/// The adjusted closes of a chart result: none where it has no such block.
pub open spec fn result_adjusted(result: ChartResult) -> Seq<Option<Real>> {
    match result.adjclose {
        Some(blocks) => if blocks@.len() > 0 {
            blocks@[0]@
        } else {
            Seq::empty()
        },
        None => Seq::empty(),
    }
}

/// All bars of the first result, in the order of its rows.
pub open spec fn response_bars(results: Seq<ChartResult>, start: Date, end: Date) -> Seq<PriceBar>
    recommends
        results.len() > 0,
        results[0].quote@.len() > 0,
{
    chart_bars(
        result_rows(results[0]),
        results[0].quote@[0],
        result_adjusted(results[0]),
        start,
        end,
        result_rows(results[0]).len() as int,
    )
}

/// Reads the bars from `start` to `end` out of a chart response, oldest first.
///
/// Only the first result, its first quote and its first adjusted block count.
pub fn bars_from_chart(results: &Vec<ChartResult>, start: Date, end: Date) -> (r: Result<
    Vec<PriceBar>,
    FetchError,
>)
    ensures
        r matches Err(FetchError::NoResult) <==> results@.len() == 0,
        r matches Err(FetchError::NoQuote) <==> results@.len() > 0 && results@[0].quote@.len()
            == 0,
        r matches Err(FetchError::NoBars) <==> results@.len() > 0 && results@[0].quote@.len() > 0
            && response_bars(results@, start, end).len() == 0,
        r is Ok <==> results@.len() > 0 && results@[0].quote@.len() > 0 && response_bars(
            results@,
            start,
            end,
        ).len() > 0,
        r matches Ok(bars) ==> stably_sorted(response_bars(results@, start, end), bars@),
{
    if results.len() == 0 {
        return Err(FetchError::NoResult);
    }
    let result = &results[0];
    if result.quote.len() == 0 {
        return Err(FetchError::NoQuote);
    }
    let quote = &result.quote[0];
    let no_rows: Vec<i64> = Vec::new();
    let timestamps: &Vec<i64> = match &result.timestamp {
        Some(t) => t,
        None => &no_rows,
    };
    let no_adjusted: Vec<Option<Real>> = Vec::new();
    let adjusted: &Vec<Option<Real>> = match &result.adjclose {
        Some(blocks) => if blocks.len() > 0 {
            &blocks[0]
        } else {
            &no_adjusted
        },
        None => &no_adjusted,
    };
    assert(adjusted@ =~= result_adjusted(*result));
    assert(timestamps@ =~= result_rows(*result));
    let mut bars: Vec<PriceBar> = Vec::new();
    let mut i: usize = 0;
    proof {
        assert(stably_sorted(Seq::<PriceBar>::empty(), bars@)) by {
            assert(bars@ =~= Seq::<PriceBar>::empty());
        }
    }
    while i < timestamps.len()
        invariant
            i <= timestamps@.len(),
            stably_sorted(
                chart_bars(timestamps@, *quote, adjusted@, start, end, i as int),
                bars@,
            ),
        decreases timestamps@.len() - i,
    {
        match read_bar(timestamps, quote, adjusted, start, end, i) {
            Some(bar) => {
                insert_bar(
                    &mut bars,
                    bar,
                    Ghost(chart_bars(timestamps@, *quote, adjusted@, start, end, i as int)),
                );
            },
            None => {},
        }
        i = i + 1;
    }
    proof {
        let all = response_bars(results@, start, end);
        all.to_multiset_ensures();
        bars@.to_multiset_ensures();
        assert(all.len() == bars@.len());
    }
    if bars.len() == 0 {
        return Err(FetchError::NoBars);
    }
    Ok(bars)
}

/// A bar that a chart between two days can give: a day between them, and a close that is a
/// positive number.
pub open spec fn sound_bar(bar: PriceBar, start: Date, end: Date) -> bool {
    &&& bar.date.valid()
    &&& start.epoch_day <= bar.date.epoch_day <= end.epoch_day
    &&& bar.close.finite()
    &&& bar.close.value() > 0
}

proof fn lemma_chart_bars_sound(
    timestamps: Seq<i64>,
    quote: ChartQuote,
    adjusted: Seq<Option<Real>>,
    start: Date,
    end: Date,
    n: int,
)
    ensures
        forall|i: int|
            0 <= i < chart_bars(timestamps, quote, adjusted, start, end, n).len() ==> sound_bar(
                #[trigger] chart_bars(timestamps, quote, adjusted, start, end, n)[i],
                start,
                end,
            ),
    decreases n,
{
    if n > 0 {
        lemma_chart_bars_sound(timestamps, quote, adjusted, start, end, n - 1);
        let shorter = chart_bars(timestamps, quote, adjusted, start, end, n - 1);
        let longer = chart_bars(timestamps, quote, adjusted, start, end, n);
        assert forall|i: int| 0 <= i < longer.len() implies sound_bar(
            #[trigger] longer[i],
            start,
            end,
        ) by {
            if i < shorter.len() {
                assert(longer[i] == shorter[i]);
            }
        }
    }
}

/// Law: bars that were read from a chart ascend by date, lie between the two days, and have
/// a close that is a positive number.
pub proof fn law_read_bars_are_sound(
    results: Seq<ChartResult>,
    start: Date,
    end: Date,
    bars: Seq<PriceBar>,
    i: int,
)
    requires
        stably_sorted(response_bars(results, start, end), bars),
        0 <= i < bars.len(),
    ensures
        sound_bar(bars[i], start, end),
        i > 0 ==> bars[i - 1].date.epoch_day <= bars[i].date.epoch_day,
{
    let all = response_bars(results, start, end);
    lemma_chart_bars_sound(
        result_rows(results[0]),
        results[0].quote@[0],
        result_adjusted(results[0]),
        start,
        end,
        result_rows(results[0]).len() as int,
    );
    all.to_multiset_ensures();
    bars.to_multiset_ensures();
    assert(bars.contains(bars[i]));
    assert(bars.to_multiset().count(bars[i]) > 0);
    assert(all.contains(bars[i]));
    let j = choose|j: int| 0 <= j < all.len() && all[j] == bars[i];
    assert(sound_bar(all[j], start, end));
}

/// The columns of a table of bars.
#[derive(Clone, Debug)]
pub struct BarColumns {
    /// Days since 1 January 1970.
    pub date_epoch: Vec<i32>,
    pub open: Vec<Real>,
    pub high: Vec<Real>,
    pub low: Vec<Real>,
    pub close: Vec<Real>,
    pub adj_close: Vec<Real>,
    pub volume: Vec<Real>,
}

/// The names of the columns of a table of bars, in the order of [`BarColumns`].
pub open spec fn bar_header() -> Seq<Seq<char>> {
    seq![
        "date_epoch"@,
        "open"@,
        "high"@,
        "low"@,
        "close"@,
        "adj_close"@,
        "volume"@,
    ]
}

/// The names of the columns of a table of bars, in the order of [`BarColumns`].
pub fn bar_column_names() -> (r: Vec<&'static str>)
    ensures
        r@.len() == bar_header().len(),
        forall|i: int| 0 <= i < r@.len() ==> (#[trigger] r@[i])@ == bar_header()[i],
{
    let mut r: Vec<&'static str> = Vec::new();
    r.push("date_epoch");
    r.push("open");
    r.push("high");
    r.push("low");
    r.push("close");
    r.push("adj_close");
    r.push("volume");
    r
}

/// The columns of a table of bars, one row for each bar.
pub fn bar_columns(bars: &Vec<PriceBar>) -> (r: BarColumns)
    ensures
        r.date_epoch@ == bars@.map_values(|b: PriceBar| b.date.epoch_day),
        r.open@ == bars@.map_values(|b: PriceBar| b.open),
        r.high@ == bars@.map_values(|b: PriceBar| b.high),
        r.low@ == bars@.map_values(|b: PriceBar| b.low),
        r.close@ == bars@.map_values(|b: PriceBar| b.close),
        r.adj_close@ == bars@.map_values(|b: PriceBar| b.adj_close),
        r.volume@ == bars@.map_values(|b: PriceBar| b.volume),
{
    let mut r = BarColumns {
        date_epoch: Vec::new(),
        open: Vec::new(),
        high: Vec::new(),
        low: Vec::new(),
        close: Vec::new(),
        adj_close: Vec::new(),
        volume: Vec::new(),
    };
    let mut i: usize = 0;
    while i < bars.len()
        invariant
            i <= bars@.len(),
            r.date_epoch@ == bars@.take(i as int).map_values(|b: PriceBar| b.date.epoch_day),
            r.open@ == bars@.take(i as int).map_values(|b: PriceBar| b.open),
            r.high@ == bars@.take(i as int).map_values(|b: PriceBar| b.high),
            r.low@ == bars@.take(i as int).map_values(|b: PriceBar| b.low),
            r.close@ == bars@.take(i as int).map_values(|b: PriceBar| b.close),
            r.adj_close@ == bars@.take(i as int).map_values(|b: PriceBar| b.adj_close),
            r.volume@ == bars@.take(i as int).map_values(|b: PriceBar| b.volume),
        decreases bars@.len() - i,
    {
        let b = bars[i];
        r.date_epoch.push(b.date.epoch_day);
        r.open.push(b.open);
        r.high.push(b.high);
        r.low.push(b.low);
        r.close.push(b.close);
        r.adj_close.push(b.adj_close);
        r.volume.push(b.volume);
        assert(bars@.take(i as int + 1) =~= bars@.take(i as int).push(b));
        i = i + 1;
    }
    assert(bars@.take(i as int) =~= bars@);
    r
}

} // verus!
