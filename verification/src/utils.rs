//! Tables, files and series that show a backtest.

use crate::backtest::{BacktestResult, DailySignal};
use crate::binary64::{Real, ONE_BITS};
use crate::constants::{HALF, HUNDRED, MINUS_HALF, TENTH, THOUSAND, ZERO};
use crate::dates;
use crate::dates::Date;
use vstd::prelude::*;
use vstd::string::*;

verus! {

/// The dates as days since 1 January 1970.
pub fn date_epochs(dates: &Vec<Date>) -> (r: Vec<i32>)
    ensures
        r@ == dates@.map_values(|d: Date| d.epoch_day),
{
    let mut r: Vec<i32> = Vec::new();
    let mut i: usize = 0;
    while i < dates.len()
        invariant
            i <= dates@.len(),
            r@ == dates@.take(i as int).map_values(|d: Date| d.epoch_day),
        decreases dates@.len() - i,
    {
        r.push(dates[i].epoch_day);
        assert(dates@.take(i as int + 1) =~= dates@.take(i as int).push(dates@[i as int]));
        i = i + 1;
    }
    assert(dates@.take(i as int) =~= dates@);
    r
}

/// The columns of a table of signals.
#[derive(Clone, Debug)]
pub struct SignalColumns {
    pub date: Vec<String>,
    pub date_epoch: Vec<i32>,
    pub close: Vec<Real>,
    pub daily_return: Vec<Real>,
    pub volume: Vec<Real>,
    pub eps_norm: Vec<Real>,
    pub hype_volume: Vec<Real>,
    pub sentiment: Vec<Real>,
    pub bubble_score: Vec<Real>,
    pub position: Vec<Real>,
    /// 1 on a day with a trade, else 0.
    pub trade: Vec<i32>,
}

/// The names of the columns of a table of signals, in the order of [`SignalColumns`].
pub open spec fn signal_header() -> Seq<Seq<char>> {
    seq![
        "date"@,
        "date_epoch"@,
        "close"@,
        "daily_return"@,
        "volume"@,
        "eps_norm"@,
        "hype_volume"@,
        "sentiment"@,
        "bubble_score"@,
        "position"@,
        "trade"@,
    ]
}

/// The names of the columns of a table of signals, in the order of [`SignalColumns`].
pub fn signal_column_names() -> (r: Vec<&'static str>)
    ensures
        r@.len() == signal_header().len(),
        forall|i: int| 0 <= i < r@.len() ==> (#[trigger] r@[i])@ == signal_header()[i],
{
    let mut r: Vec<&'static str> = Vec::new();
    r.push("date");
    r.push("date_epoch");
    r.push("close");
    r.push("daily_return");
    r.push("volume");
    r.push("eps_norm");
    r.push("hype_volume");
    r.push("sentiment");
    r.push("bubble_score");
    r.push("position");
    r.push("trade");
    r
}

/// Row `i` of a table of signals shows `s`.
pub open spec fn row_shows(c: SignalColumns, i: int, s: DailySignal) -> bool {
    &&& c.date@[i]@ == dates::text_of_day(s.date.epoch_day)
    &&& c.date_epoch@[i] == s.date.epoch_day
    &&& c.close@[i] == s.close
    &&& c.daily_return@[i] == s.daily_return
    &&& c.volume@[i] == s.volume
    &&& c.eps_norm@[i] == s.eps_norm
    &&& c.hype_volume@[i] == s.hype_volume
    &&& c.sentiment@[i] == s.sentiment
    &&& c.bubble_score@[i] == s.bubble_score
    &&& c.position@[i] == s.position
    &&& c.trade@[i] == if s.trade {
        1i32
    } else {
        0i32
    }
}

/// Every column has `n` rows.
pub open spec fn has_rows(c: SignalColumns, n: nat) -> bool {
    &&& c.date@.len() == n
    &&& c.date_epoch@.len() == n
    &&& c.close@.len() == n
    &&& c.daily_return@.len() == n
    &&& c.volume@.len() == n
    &&& c.eps_norm@.len() == n
    &&& c.hype_volume@.len() == n
    &&& c.sentiment@.len() == n
    &&& c.bubble_score@.len() == n
    &&& c.position@.len() == n
    &&& c.trade@.len() == n
}

/// The columns of a table of signals, one row for each.
pub fn signal_columns(signals: &Vec<DailySignal>) -> (r: SignalColumns)
    requires
        dated(signals@),
    ensures
        has_rows(r, signals@.len()),
        forall|i: int|
            0 <= i < signals@.len() ==> row_shows(r, i, #[trigger] signals@[i]),
{
    let mut r = SignalColumns {
        date: Vec::new(),
        date_epoch: Vec::new(),
        close: Vec::new(),
        daily_return: Vec::new(),
        volume: Vec::new(),
        eps_norm: Vec::new(),
        hype_volume: Vec::new(),
        sentiment: Vec::new(),
        bubble_score: Vec::new(),
        position: Vec::new(),
        trade: Vec::new(),
    };
    let mut i: usize = 0;
    while i < signals.len()
        invariant
            i <= signals@.len(),
            forall|j: int| 0 <= j < signals@.len() ==> (#[trigger] signals@[j]).date.valid(),
            has_rows(r, i as nat),
            forall|j: int| 0 <= j < i ==> row_shows(r, j, #[trigger] signals@[j]),
        decreases signals@.len() - i,
    {
        let s = signals[i];
        r.date.push(s.date.text());
        r.date_epoch.push(s.date.epoch_day);
        r.close.push(s.close);
        r.daily_return.push(s.daily_return);
        r.volume.push(s.volume);
        r.eps_norm.push(s.eps_norm);
        r.hype_volume.push(s.hype_volume);
        r.sentiment.push(s.sentiment);
        r.bubble_score.push(s.bubble_score);
        r.position.push(s.position);
        r.trade.push(
            if s.trade {
                1
            } else {
                0
            },
        );
        i = i + 1;
    }
    r
}

/// The closing remark of a summary on a position.
pub open spec fn closing_remark(position: Real) -> Seq<char> {
    if (Real { bits: HALF }).below(position) {
        "BUY / GO LONG (bullish)"@
    } else if position.below(Real { bits: MINUS_HALF }) {
        "SELL / GO SHORT (bearish/risk)"@
    } else {
        "HOLD / NEUTRAL (flat)"@
    }
}

/// The closing remark of a summary on a position.
pub fn closing_recommendation(position: Real) -> (r: &'static str)
    ensures
        r@ == closing_remark(position),
{
    let half = Real { bits: HALF };
    if half.lt(position) {
        "BUY / GO LONG (bullish)"
    } else if position.lt(Real { bits: MINUS_HALF }) {
        "SELL / GO SHORT (bearish/risk)"
    } else {
        "HOLD / NEUTRAL (flat)"
    }
}

/// The side of a position.
pub open spec fn side_text(position: Real) -> Seq<char> {
    if (Real { bits: HALF }).below(position) {
        "LONG"@
    } else if position.below(Real { bits: MINUS_HALF }) {
        "SHORT"@
    } else {
        "FLAT"@
    }
}

/// The side of a position.
pub fn position_side(position: Real) -> (r: &'static str)
    ensures
        r@ == side_text(position),
{
    let half = Real { bits: HALF };
    if half.lt(position) {
        "LONG"
    } else if position.lt(Real { bits: MINUS_HALF }) {
        "SHORT"
    } else {
        "FLAT"
    }
}

/// The figures of a summary. Shares are in per cent.
#[derive(Clone, Debug)]
pub struct Summary {
    pub total_return: Real,
    pub annualized_return: Real,
    pub sharpe: Real,
    pub max_drawdown: Real,
    pub num_trades: usize,
    pub buy_hold_return: Real,
    pub buy_hold_sharpe: Real,
    /// Last signal day and the remark on its position.
    pub closing: Option<(Date, &'static str)>,
}

/// The figures of a summary.
pub fn summary_of(result: &BacktestResult) -> (r: Summary)
    ensures
        r.total_return == result.total_return.times(Real { bits: HUNDRED }),
        r.annualized_return == result.annualized_return.times(Real { bits: HUNDRED }),
        r.sharpe == result.sharpe,
        r.max_drawdown == result.max_drawdown.times(Real { bits: HUNDRED }),
        r.num_trades == result.num_trades,
        r.buy_hold_return == result.buy_hold_return.times(Real { bits: HUNDRED }),
        r.buy_hold_sharpe == result.buy_hold_sharpe,
        r.closing is Some <==> result.signals@.len() > 0,
        r.closing matches Some((date, remark)) ==> date == result.signals@.last().date
            && remark@ == closing_remark(result.signals@.last().position),
{
    let hundred = Real { bits: HUNDRED };
    let closing: Option<(Date, &'static str)> = if result.signals.len() > 0 {
        let last = result.signals[result.signals.len() - 1];
        Some((last.date, closing_recommendation(last.position)))
    } else {
        None
    };
    Summary {
        total_return: result.total_return.mul(hundred),
        annualized_return: result.annualized_return.mul(hundred),
        sharpe: result.sharpe,
        max_drawdown: result.max_drawdown.mul(hundred),
        num_trades: result.num_trades,
        buy_hold_return: result.buy_hold_return.mul(hundred),
        buy_hold_sharpe: result.buy_hold_sharpe,
        closing,
    }
}

/// The dates of the signals.
pub fn signal_dates(signals: &Vec<DailySignal>) -> (r: Vec<Date>)
    ensures
        r@ == signals@.map_values(|s: DailySignal| s.date),
{
    let mut r: Vec<Date> = Vec::new();
    let mut i: usize = 0;
    while i < signals.len()
        invariant
            i <= signals@.len(),
            r@ == signals@.take(i as int).map_values(|s: DailySignal| s.date),
        decreases signals@.len() - i,
    {
        r.push(signals[i].date);
        assert(signals@.take(i as int + 1) =~= signals@.take(i as int).push(signals@[i as int]));
        i = i + 1;
    }
    assert(signals@.take(i as int) =~= signals@);
    r
}

/// The equity after each signal day; the whole curve where it does not have one entry more
/// than there are signals.
pub open spec fn equity_to_save(result: BacktestResult) -> Seq<Real> {
    if result.equity@.len() == result.signals@.len() + 1 {
        result.equity@.skip(1)
    } else {
        result.equity@
    }
}

/// The equity after each signal day.
pub fn exported_equity(result: &BacktestResult) -> (r: Vec<Real>)
    ensures
        r@ == equity_to_save(*result),
{
    let n: usize = result.equity.len();
    let first: usize = if n > 0 && n - 1 == result.signals.len() {
        1
    } else {
        0
    };
    let mut r: Vec<Real> = Vec::new();
    let mut i: usize = first;
    while i < n
        invariant
            first <= i <= n,
            n == result.equity@.len(),
            r@ == result.equity@.subrange(first as int, i as int),
        decreases n - i,
    {
        r.push(result.equity[i]);
        i = i + 1;
    }
    assert(result.equity@.subrange(0, n as int) =~= result.equity@);
    r
}

/// Equity in dollars.
pub fn dollar_equity(equity: &Vec<Real>, capital: Real) -> (r: Vec<Real>)
    ensures
        r@ == equity@.map_values(|e: Real| e.times(capital)),
{
    let mut r: Vec<Real> = Vec::new();
    let mut i: usize = 0;
    while i < equity.len()
        invariant
            i <= equity@.len(),
            r@ == equity@.take(i as int).map_values(|e: Real| e.times(capital)),
        decreases equity@.len() - i,
    {
        r.push(equity[i].mul(capital));
        assert(equity@.take(i as int + 1) =~= equity@.take(i as int).push(equity@[i as int]));
        i = i + 1;
    }
    assert(equity@.take(i as int) =~= equity@);
    r
}

/// `outdir/ticker_suffix`.
pub fn artifact_path(outdir: &str, ticker: &str, suffix: &str) -> (r: String)
    ensures
        r@ == path_text(outdir@, ticker@, suffix@),
{
    let mut r = outdir.to_owned();
    r.append("/");
    r.append(ticker);
    r.append("_");
    r.append(suffix);
    r
}

/// Everything that an export writes: tables, and the paths to write them to.
#[derive(Clone, Debug)]
pub struct Artifacts {
    pub signals_path: String,
    pub signals: SignalColumns,
    pub equity_path: String,
    /// The signal days, as dates and as days since 1 January 1970.
    pub dates: Vec<Date>,
    pub date_epoch: Vec<i32>,
    /// The name of the column of days in both tables of equity.
    pub date_column: &'static str,
    /// The equity after each signal day, and the name of its column.
    pub equity: Vec<Real>,
    pub equity_column: &'static str,
    pub dollar_path: String,
    pub dollar_equity: Vec<Real>,
    pub dollar_column: &'static str,
    pub plot_path: String,
}

/// Every signal has a date of the calendar.
pub open spec fn dated(signals: Seq<DailySignal>) -> bool {
    forall|i: int| 0 <= i < signals.len() ==> (#[trigger] signals[i]).date.valid()
}

/// `outdir/ticker_suffix`.
pub open spec fn path_text(outdir: Seq<char>, ticker: Seq<char>, suffix: Seq<char>) -> Seq<char> {
    outdir + "/"@ + ticker + "_"@ + suffix
}

/// `a` is the export of a result.
pub open spec fn is_export(
    a: Artifacts,
    result: BacktestResult,
    outdir: Seq<char>,
    capital: Real,
    thousands: Seq<char>,
) -> bool {
    let ticker = result.ticker@;
    &&& a.signals_path@ == path_text(outdir, ticker, "signals.csv"@)
    &&& has_rows(a.signals, result.signals@.len())
    &&& forall|i: int|
        0 <= i < result.signals@.len() ==> row_shows(a.signals, i, #[trigger] result.signals@[i])
    &&& a.equity_path@ == path_text(outdir, ticker, "equity.csv"@)
    &&& a.dates@ == result.signals@.map_values(|s: DailySignal| s.date)
    &&& a.date_epoch@ == a.dates@.map_values(|d: Date| d.epoch_day)
    &&& a.date_column@ == "date_epoch"@
    &&& a.equity@ == equity_to_save(result)
    &&& a.equity_column@ == "equity"@
    &&& a.dollar_path@ == path_text(outdir, ticker, "equity_"@ + thousands + "k.csv"@)
    &&& a.dollar_equity@ == equity_to_save(result).map_values(|e: Real| e.times(capital))
    &&& a.dollar_column@ == "equity_usd"@
    &&& a.plot_path@ == path_text(outdir, ticker, "equity.png"@)
}

/// The capital in thousands, which names a file of an export.
pub fn capital_in_thousands(capital: Real) -> (r: Real)
    ensures
        r == capital.over(Real { bits: THOUSAND }),
{
    capital.div(Real { bits: THOUSAND })
}

/// Everything that an export of a result writes. `thousands` is the text of the capital in
/// thousands.
pub fn export_backtest_artifacts(
    result: &BacktestResult,
    outdir: &str,
    initial_capital: Real,
    thousands: &str,
) -> (r: Artifacts)
    requires
        dated(result.signals@),
    ensures
        is_export(r, *result, outdir@, initial_capital, thousands@),
{
    let ticker = result.ticker.as_str();
    let dates = signal_dates(&result.signals);
    let date_epoch = date_epochs(&dates);
    let equity = exported_equity(result);
    let dollars = dollar_equity(&equity, initial_capital);
    let mut dollar_suffix = "equity_".to_owned();
    dollar_suffix.append(thousands);
    dollar_suffix.append("k.csv");
    Artifacts {
        signals_path: artifact_path(outdir, ticker, "signals.csv"),
        signals: signal_columns(&result.signals),
        equity_path: artifact_path(outdir, ticker, "equity.csv"),
        dates,
        date_epoch,
        date_column: "date_epoch",
        equity,
        equity_column: "equity",
        dollar_path: artifact_path(outdir, ticker, dollar_suffix.as_str()),
        dollar_equity: dollars,
        dollar_column: "equity_usd",
        plot_path: artifact_path(outdir, ticker, "equity.png"),
    }
}

/// The colour of a stretch of price.
#[derive(Clone, Copy, Debug, PartialEq, Eq, Structural)]
pub enum Regime {
    Long,
    Short,
    Flat,
}

/// The regime of a position.
pub open spec fn regime_of(position: Real) -> Regime {
    if (Real { bits: HALF }).below(position) {
        Regime::Long
    } else if position.below(Real { bits: MINUS_HALF }) {
        Regime::Short
    } else {
        Regime::Flat
    }
}

/// The position that the colouring last took up before the `k`-th signal from `start`, and
/// its regime: a position is taken up when it differs by more than 0.1.
pub open spec fn colouring(signals: Seq<DailySignal>, start: int, k: int) -> (Real, Regime)
    decreases k,
{
    if k <= 0 {
        (Real { bits: ZERO }, Regime::Flat)
    } else {
        let before = colouring(signals, start, k - 1);
        let p = signals[start + k - 1].position;
        if (Real { bits: TENTH }).below(p.minus(before.0).absolute()) {
            (p, regime_of(p))
        } else {
            before
        }
    }
}

/// The points of one regime among the first `k` signals from `start`: number from `start`
/// and price.
pub open spec fn regime_points(
    signals: Seq<DailySignal>,
    start: int,
    k: int,
    regime: Regime,
) -> Seq<(Real, Real)>
    decreases k,
{
    if k <= 0 {
        Seq::empty()
    } else {
        let before = regime_points(signals, start, k - 1, regime);
        if colouring(signals, start, k).1 == regime {
            before.push((Real::of_integer(k - 1), signals[start + k - 1].close))
        } else {
            before
        }
    }
}

/// How many of `len` entries from `start` there are among `n`; none where `start` lies
/// behind them.
pub open spec fn shown_count(start: int, len: int, n: int) -> int {
    if start > n {
        0
    } else if start + len < n {
        len
    } else {
        n - start
    }
}

fn count_shown(start: usize, len: usize, n: usize) -> (r: usize)
    ensures
        r == shown_count(start as int, len as int, n as int),
{
    if start > n {
        0
    } else if len < n - start {
        len
    } else {
        n - start
    }
}

fn regime_at(position: Real) -> (r: Regime)
    ensures
        r == regime_of(position),
{
    let half = Real { bits: HALF };
    if half.lt(position) {
        Regime::Long
    } else if position.lt(Real { bits: MINUS_HALF }) {
        Regime::Short
    } else {
        Regime::Flat
    }
}

fn taken_up(position: Real, before: Real) -> (r: bool)
    ensures
        r == (Real { bits: TENTH }).below(position.minus(before).absolute()),
{
    let threshold = Real { bits: TENTH };
    threshold.lt(position.sub(before).abs())
}

/// The prices of the `len` signals from `start`, split into those of long, short and flat
/// regimes.
pub fn build_regime_price_segments(signals: &Vec<DailySignal>, start: usize, len: usize) -> (r: (
    Vec<(Real, Real)>,
    Vec<(Real, Real)>,
    Vec<(Real, Real)>,
))
    requires
        start <= signals@.len(),
    ensures
        ({
            let k = shown_count(start as int, len as int, signals@.len() as int);
            &&& r.0@ == regime_points(signals@, start as int, k, Regime::Long)
            &&& r.1@ == regime_points(signals@, start as int, k, Regime::Short)
            &&& r.2@ == regime_points(signals@, start as int, k, Regime::Flat)
        }),
{
    let n: usize = signals.len();
    let count: usize = count_shown(start, len, n);
    let mut longs: Vec<(Real, Real)> = Vec::new();
    let mut shorts: Vec<(Real, Real)> = Vec::new();
    let mut flats: Vec<(Real, Real)> = Vec::new();
    let mut held = Real { bits: ZERO };
    let mut regime = Regime::Flat;
    let mut i: usize = 0;
    while i < count
        invariant
            i <= count,
            n == signals@.len(),
            start + count <= n,
            (held, regime) == colouring(signals@, start as int, i as int),
            longs@ == regime_points(signals@, start as int, i as int, Regime::Long),
            shorts@ == regime_points(signals@, start as int, i as int, Regime::Short),
            flats@ == regime_points(signals@, start as int, i as int, Regime::Flat),
        decreases count - i,
    {
        let s = signals[start + i];
        if taken_up(s.position, held) {
            held = s.position;
            regime = regime_at(s.position);
        }
        let point = (Real::from_usize(i), s.close);
        match regime {
            Regime::Long => {
                longs.push(point);
            },
            Regime::Short => {
                shorts.push(point);
            },
            Regime::Flat => {
                flats.push(point);
            },
        }
        i = i + 1;
    }
    (longs, shorts, flats)
}

/// Law: the three regimes share out the shown signals: each belongs to exactly one.
pub proof fn law_regimes_partition(signals: Seq<DailySignal>, start: int, k: int)
    requires
        k >= 0,
    ensures
        regime_points(signals, start, k, Regime::Long).len() + regime_points(
            signals,
            start,
            k,
            Regime::Short,
        ).len() + regime_points(signals, start, k, Regime::Flat).len() == k,
    decreases k,
{
    if k > 0 {
        law_regimes_partition(signals, start, k - 1);
    }
}

/// The scores of the `len` signals from `start`, numbered from `start`.
pub fn build_score_series(signals: &Vec<DailySignal>, start: usize, len: usize) -> (r: Vec<
    (Real, Real),
>)
    requires
        start <= signals@.len(),
    ensures
        r@ == Seq::new(
            shown_count(start as int, len as int, signals@.len() as int) as nat,
            |i: int| (Real::of_integer(i), signals@[start + i].bubble_score),
        ),
{
    let n: usize = signals.len();
    let count: usize = count_shown(start, len, n);
    let mut r: Vec<(Real, Real)> = Vec::new();
    let mut i: usize = 0;
    while i < count
        invariant
            i <= count,
            n == signals@.len(),
            start + count <= n,
            r@ == Seq::new(
                i as nat,
                |j: int| (Real::of_integer(j), signals@[start + j].bubble_score),
            ),
        decreases count - i,
    {
        r.push((Real::from_usize(i), signals[start + i].bubble_score));
        i = i + 1;
    }
    r
}

/// The entry of a curve after signal day `k`, 1 where the curve is shorter.
pub open spec fn curve_after(curve: Seq<Real>, k: int) -> Real {
    if k + 1 < curve.len() {
        curve[k + 1]
    } else {
        Real { bits: ONE_BITS }
    }
}

/// The equity in dollars after the `len` signals from `start`, numbered from `start`;
/// nothing where `start` lies behind the signals.
pub fn build_equity_series(
    res: &BacktestResult,
    start: usize,
    len: usize,
    capital: Real,
) -> (r: Vec<(Real, Real)>)
    ensures
        r@ == Seq::new(
            shown_count(start as int, len as int, res.signals@.len() as int) as nat,
            |i: int|
                (Real::of_integer(i), curve_after(res.equity@, start + i).times(capital)),
        ),
{
    let n: usize = res.signals.len();
    let count: usize = count_shown(start, len, n);
    let mut r: Vec<(Real, Real)> = Vec::new();
    let mut i: usize = 0;
    while i < count
        invariant
            i <= count,
            n == res.signals@.len(),
            count > 0 ==> start + count <= n,
            r@ == Seq::new(
                i as nat,
                |j: int|
                    (Real::of_integer(j), curve_after(res.equity@, start + j).times(capital)),
            ),
        decreases count - i,
    {
        let k: usize = start + i;
        let entry = if k < res.equity.len() && k + 1 < res.equity.len() {
            res.equity[k + 1]
        } else {
            Real { bits: ONE_BITS }
        };
        r.push((Real::from_usize(i), entry.mul(capital)));
        i = i + 1;
    }
    r
}

} // verus!
