use hlpll_backtester::binary64::Real;
use hlpll_backtester::data::{
    bar_columns, bars_from_chart, chart_url, ChartQuote, ChartResult, FetchError,
};
use hlpll_backtester::dates::Date;

fn num(x: f64) -> Real {
    Real { bits: x.to_bits() }
}

fn some(v: &[f64]) -> Vec<Option<Real>> {
    v.iter().map(|&x| Some(num(x))).collect()
}

fn quote(close: Vec<Option<Real>>) -> ChartQuote {
    let n = close.len();
    ChartQuote {
        open: some(&vec![1.0; n]),
        high: some(&vec![2.0; n]),
        low: some(&vec![0.5; n]),
        close,
        volume: some(&vec![100.0; n]),
    }
}

fn result(days: &[i64], close: Vec<Option<Real>>) -> ChartResult {
    ChartResult {
        timestamp: Some(days.iter().map(|d| d * 86_400 + 52_200).collect()),
        quote: vec![quote(close)],
        adjclose: None,
    }
}

fn day(d: i32) -> Date {
    Date { epoch_day: d }
}

#[test]
fn rows_outside_the_range_or_without_a_price_are_dropped() {
    let close = vec![
        Some(num(10.0)),
        Some(num(11.0)),
        None,
        Some(num(f64::NAN)),
        Some(num(0.0)),
        Some(num(-3.0)),
        Some(num(f64::INFINITY)),
        Some(num(12.0)),
        Some(num(13.0)),
    ];
    let chart = vec![result(&[9, 10, 11, 12, 13, 14, 15, 16, 17], close)];
    let bars = bars_from_chart(&chart, day(10), day(16)).unwrap();
    let days: Vec<i32> = bars.iter().map(|b| b.date.epoch_day).collect();
    assert_eq!(days, vec![10, 16]);
    assert_eq!(bars[0].close, num(11.0));
    assert_eq!(bars[0].adj_close, num(11.0));
    assert_eq!(bars[0].open, num(1.0));
    assert_eq!(bars[0].high, num(2.0));
    assert_eq!(bars[0].low, num(0.5));
    assert_eq!(bars[0].volume, num(100.0));
}

#[test]
fn rows_are_sorted_by_date_and_equal_dates_keep_their_order() {
    let chart = vec![result(
        &[13, 11, 13, 10, 11],
        some(&[1.0, 2.0, 3.0, 4.0, 5.0]),
    )];
    let bars = bars_from_chart(&chart, day(0), day(100)).unwrap();
    let seen: Vec<(i32, f64)> = bars
        .iter()
        .map(|b| (b.date.epoch_day, f64::from_bits(b.close.bits)))
        .collect();
    assert_eq!(seen, vec![(10, 4.0), (11, 2.0), (11, 5.0), (13, 1.0), (13, 3.0)]);
}

#[test]
fn missing_entries_have_stand_ins() {
    let mut r = result(&[10, 11], some(&[5.0, 6.0]));
    r.quote[0].open = vec![None];
    r.quote[0].high = vec![];
    r.quote[0].volume = vec![None];
    r.adjclose = Some(vec![vec![Some(num(4.5)), None]]);
    let bars = bars_from_chart(&vec![r], day(10), day(11)).unwrap();
    assert!(bars[0].open.is_nan());
    assert!(bars[0].high.is_nan());
    assert_eq!(bars[0].volume, num(0.0));
    assert_eq!(bars[1].volume, num(0.0));
    assert_eq!(bars[0].adj_close, num(4.5));
    assert_eq!(bars[1].adj_close, num(6.0));
}

#[test]
fn only_the_first_result_quote_and_block_count() {
    let mut first = result(&[10], some(&[5.0]));
    first.quote.push(quote(some(&[99.0])));
    first.adjclose = Some(vec![vec![Some(num(7.0))], vec![Some(num(8.0))]]);
    let chart = vec![first, result(&[11], some(&[6.0]))];
    let bars = bars_from_chart(&chart, day(0), day(20)).unwrap();
    assert_eq!(bars.len(), 1);
    assert_eq!(bars[0].close, num(5.0));
    assert_eq!(bars[0].adj_close, num(7.0));
}

#[test]
fn each_fault_of_a_response_is_reported() {
    assert!(matches!(bars_from_chart(&vec![], day(0), day(1)), Err(FetchError::NoResult)));
    let mut r = result(&[10], some(&[5.0]));
    r.quote = vec![];
    assert!(matches!(bars_from_chart(&vec![r], day(0), day(20)), Err(FetchError::NoQuote)));
    let r = result(&[10], vec![None]);
    assert!(matches!(bars_from_chart(&vec![r], day(0), day(20)), Err(FetchError::NoBars)));
    let mut r = result(&[10], some(&[5.0]));
    r.timestamp = None;
    assert!(matches!(bars_from_chart(&vec![r], day(0), day(20)), Err(FetchError::NoBars)));
    assert_eq!(
        FetchError::Status("404 Not Found".to_string()).message("CAR"),
        "Yahoo API error for CAR: HTTP 404 Not Found"
    );
    assert_eq!(FetchError::NoResult.message("CAR"), "No result in Yahoo response");
    assert_eq!(FetchError::NoQuote.message("CAR"), "No quote data");
    assert_eq!(FetchError::NoBars.message("CAR"), "No valid price data returned for CAR");
}

#[test]
fn the_address_spans_whole_days() {
    let url = chart_url(
        "CAR",
        Date::parse("2018-01-01").unwrap(),
        Date::parse("2018-01-02").unwrap(),
    );
    assert_eq!(
        url,
        "https://query1.finance.yahoo.com/v8/finance/chart/CAR?period1=1514764800&period2=1514937599&interval=1d&indicators=quote&includeAdjustedClose=true"
    );
}

#[test]
fn bars_become_columns() {
    let chart = vec![result(&[10, 11], some(&[5.0, 6.0]))];
    let bars = bars_from_chart(&chart, day(0), day(20)).unwrap();
    let c = bar_columns(&bars);
    assert_eq!(c.date_epoch, vec![10, 11]);
    assert_eq!(c.close, vec![num(5.0), num(6.0)]);
    assert_eq!(c.adj_close, vec![num(5.0), num(6.0)]);
    assert_eq!(c.open, vec![num(1.0); 2]);
    assert_eq!(c.high, vec![num(2.0); 2]);
    assert_eq!(c.low, vec![num(0.5); 2]);
    assert_eq!(c.volume, vec![num(100.0); 2]);
}
