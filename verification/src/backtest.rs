//! The walk-forward backtest: positions from signals, and the equity that they earn.

use crate::binary64::{Real, ONE_BITS};
use crate::config::{BacktestConfig, PositionBias};
use crate::constants::{
    BILLIONTH, FIFTH, HUNDRED, MILLIONTH, TEN_THOUSAND, TRADING_DAYS, TRILLIONTH, ZERO,
};
use crate::data::PriceBar;
use crate::dates::Date;
use crate::hlppl_signals;
use crate::hlppl_signals::{return_at, SignalPoint};
use crate::stats;
use crate::stats::{mean_between, variance_between};
use crate::text;
use crate::text::text_of_usize;
use vstd::prelude::*;
use vstd::string::*;

verus! {

/// The position that a score alone asks for.
pub open spec fn raw_position(score: Real, cfg: BacktestConfig) -> Real {
    if cfg.long_threshold.below(score) {
        cfg.max_position
    } else if score.below(cfg.short_threshold.negated()) {
        cfg.max_position.negated()
    } else {
        Real { bits: ZERO }
    }
}

/// The position after inversion and bias.
pub open spec fn base_position(score: Real, cfg: BacktestConfig) -> Real {
    let raw = raw_position(score, cfg);
    let turned = if cfg.invert_signal {
        raw.negated()
    } else {
        raw
    };
    match cfg.position_bias {
        PositionBias::LongOnly => turned.larger(Real { bits: ZERO }),
        PositionBias::ShortOnly => turned.smaller(Real { bits: ZERO }),
        PositionBias::LongShort => turned,
    }
}

/// The share of a position that a confidence leaves, between 0.2 and 1.
pub open spec fn confidence_scale(confidence: Real) -> Real {
    confidence.over(Real { bits: HUNDRED }).clamped(Real { bits: FIFTH }, Real { bits: ONE_BITS })
}

/// A position after a look at the bubble confidence: flat where the confidence is too
/// high, and scaled by it, as far as the settings ask for that.
pub open spec fn confident_position(position: Real, confidence: Real, cfg: BacktestConfig) -> Real {
    let held = if cfg.use_confidence_for_flat && cfg.confidence_flat_threshold.below(confidence) {
        Real { bits: ZERO }
    } else {
        position
    };
    if cfg.use_confidence_for_sizing && (Real { bits: BILLIONTH }).below(held.absolute()) {
        held.times(confidence_scale(confidence))
    } else {
        held
    }
}

/// The position to hold: without a confidence, the base position.
pub open spec fn target_position(
    score: Real,
    confidence: Option<Real>,
    cfg: BacktestConfig,
) -> Real {
    match confidence {
        Some(c) => confident_position(base_position(score, cfg), c, cfg),
        None => base_position(score, cfg),
    }
}

/// The position that a score asks for, after inversion and bias.
pub fn position_for_score(score: Real, cfg: &BacktestConfig) -> (r: Real)
    ensures
        r == base_position(score, *cfg),
{
    let zero = Real { bits: ZERO };
    let raw = if cfg.long_threshold.lt(score) {
        cfg.max_position
    } else if score.lt(cfg.short_threshold.neg()) {
        cfg.max_position.neg()
    } else {
        zero
    };
    let turned = if cfg.invert_signal {
        raw.neg()
    } else {
        raw
    };
    match cfg.position_bias {
        PositionBias::LongOnly => turned.max(zero),
        PositionBias::ShortOnly => turned.min(zero),
        PositionBias::LongShort => turned,
    }
}

proof fn lemma_scale_interval()
    ensures
        (Real { bits: FIFTH }).at_most(Real { bits: ONE_BITS }),
        !(Real { bits: FIFTH }).negative(),
        (Real { bits: FIFTH }).finite(),
{
    crate::order::lemma_magnitude_order(FIFTH as nat, ONE_BITS as nat);
}

/// A position after a look at the bubble confidence.
pub fn apply_confidence(position: Real, confidence: Real, cfg: &BacktestConfig) -> (r: Real)
    ensures
        r == confident_position(position, confidence, *cfg),
{
    let held = if cfg.use_confidence_for_flat && cfg.confidence_flat_threshold.lt(confidence) {
        Real { bits: ZERO }
    } else {
        position
    };
    let threshold = Real { bits: BILLIONTH };
    if cfg.use_confidence_for_sizing && threshold.lt(held.abs()) {
        proof {
            lemma_scale_interval();
        }
        let scale = confidence.div(Real { bits: HUNDRED }).clamp(
            Real { bits: FIFTH },
            Real { bits: ONE_BITS },
        );
        held.mul(scale)
    } else {
        held
    }
}

/// One signal day of a backtest.
#[derive(Clone, Copy, Debug, PartialEq, Eq, Structural)]
pub struct DailySignal {
    pub date: Date,
    /// Adjusted close.
    pub close: Real,
    /// The strategy's return of the day, costs included.
    pub daily_return: Real,
    pub volume: Real,
    pub eps_norm: Real,
    pub hype_volume: Real,
    pub sentiment: Real,
    pub bubble_score: Real,
    /// Held after the day's decision: negative short, 0 flat, positive long.
    pub position: Real,
    /// Whether the position changed.
    pub trade: bool,
    /// In per cent; 0 without an analysis.
    pub bubble_confidence: Real,
}

/// The outcome of a backtest.
#[derive(Clone, Debug)]
pub struct BacktestResult {
    pub ticker: String,
    pub start_date: Date,
    pub end_date: Date,
    pub n_days: usize,
    pub signals: Vec<DailySignal>,
    /// Starts at 1, one entry more than there are signals.
    pub equity: Vec<Real>,
    /// The equity of holding the asset throughout.
    pub bh_equity: Vec<Real>,
    pub total_return: Real,
    pub annualized_return: Real,
    pub sharpe: Real,
    pub max_drawdown: Real,
    pub num_trades: usize,
    pub buy_hold_return: Real,
    pub buy_hold_sharpe: Real,
}

/// Why a backtest cannot be made.
#[derive(Clone, Copy, Debug, PartialEq, Eq, Structural)]
pub enum BacktestError {
    NotEnoughData { have: usize, need: usize },
}

impl BacktestError {
    pub open spec fn text(self, ticker: Seq<char>) -> Seq<char> {
        match self {
            BacktestError::NotEnoughData { have, need } => "Not enough data for "@ + ticker
                + ": "@ + text::integer_text(have as int) + " bars < required "@
                + text::integer_text(need as int),
        }
    }

    pub fn message(&self, ticker: &str) -> (r: String)
        ensures
            r@ == self.text(ticker@),
    {
        match self {
            BacktestError::NotEnoughData { have, need } => {
                let mut r = "Not enough data for ".to_owned();
                r.append(ticker);
                r.append(": ");
                r.append(text_of_usize(*have).as_str());
                r.append(" bars < required ");
                r.append(text_of_usize(*need).as_str());
                r
            },
        }
    }
}

/// What a walk is made from: the bars, the settings, a signal for each day from
/// `lookback_days` on, and a bubble confidence for each such day where one is wanted and
/// could be had.
pub struct WalkInput<'a> {
    pub bars: &'a Vec<PriceBar>,
    pub cfg: &'a BacktestConfig,
    pub points: &'a Vec<SignalPoint>,
    pub confidences: &'a Vec<Option<Real>>,
}

impl<'a> WalkInput<'a> {
    /// Number of signal days.
    pub open spec fn days(self) -> int {
        self.bars@.len() - self.cfg.lookback_days
    }

    /// The bar of signal day `k`.
    pub open spec fn bar(self, k: int) -> int {
        self.cfg.lookback_days + k
    }

    /// There is a signal, and a confidence where one is wanted, for each signal day.
    pub open spec fn complete(self) -> bool {
        &&& self.points@.len() == self.days()
        &&& self.cfg.enable_bubble_analysis ==> self.confidences@.len() == self.days()
    }

    /// The bubble confidence of signal day `k`.
    pub open spec fn confidence(self, k: int) -> Option<Real> {
        if self.cfg.enable_bubble_analysis {
            self.confidences@[k]
        } else {
            None
        }
    }

    /// Held after the decision of signal day `k`; flat before the first.
    pub open spec fn position(self, k: int) -> Real {
        if k < 0 {
            Real { bits: ZERO }
        } else {
            target_position(self.points@[k].bubble_score, self.confidence(k), *self.cfg)
        }
    }

    /// The position changes on signal day `k`.
    pub open spec fn trades(self, k: int) -> bool {
        (Real { bits: MILLIONTH }).below(
            self.position(k).minus(self.position(k - 1)).absolute(),
        )
    }

    /// The cost of a position change.
    pub open spec fn cost(self) -> Real {
        self.cfg.cost_bps.over(Real { bits: TEN_THOUSAND }).absolute()
    }

    /// The strategy's return on signal day `k`: what the position held before earns, less
    /// the cost of a change. A day without an earlier bar earns nothing.
    pub open spec fn strategy_return(self, k: int) -> Real {
        if self.bar(k) <= 0 {
            Real { bits: ZERO }
        } else {
            let earned = self.position(k - 1).times(
                hlppl_signals::asset_return(self.bars@, self.bar(k)),
            );
            if self.trades(k) {
                earned.minus(self.cost())
            } else {
                earned
            }
        }
    }

    /// Signal day `k` as it is recorded.
    pub open spec fn signal(self, k: int) -> DailySignal {
        DailySignal {
            date: self.bars@[self.bar(k)].date,
            close: self.bars@[self.bar(k)].adj_close,
            daily_return: self.strategy_return(k),
            volume: self.bars@[self.bar(k)].volume,
            eps_norm: self.points@[k].eps_norm,
            hype_volume: self.points@[k].hype_volume,
            sentiment: self.points@[k].sentiment,
            bubble_score: self.points@[k].bubble_score,
            position: self.position(k),
            trade: self.trades(k),
            bubble_confidence: match self.confidence(k) {
                Some(c) => c,
                None => Real { bits: ZERO },
            },
        }
    }

    /// All signal days.
    pub open spec fn signals(self) -> Seq<DailySignal> {
        Seq::new(self.days() as nat, |k: int| self.signal(k))
    }

    /// The strategy's return of each signal day.
    pub open spec fn strategy_series(self) -> Seq<Real> {
        Seq::new(self.days() as nat, |k: int| self.strategy_return(k))
    }

    /// First signal day that has an earlier bar.
    pub open spec fn first_return_day(self) -> int {
        if self.cfg.lookback_days == 0 {
            1
        } else {
            0
        }
    }

    /// The strategy's returns on the days that have an earlier bar.
    pub open spec fn strategy_measured(self) -> Seq<Real> {
        self.strategy_series().skip(self.first_return_day())
    }

    /// The asset's returns on the days that have an earlier bar.
    pub open spec fn asset_measured(self) -> Seq<Real> {
        Seq::new(
            (self.days() - self.first_return_day()) as nat,
            |j: int|
                hlppl_signals::asset_return(self.bars@, self.bar(self.first_return_day() + j)),
        )
    }
}

/// What 1 grows to over the first `k` returns.
pub open spec fn compounded(series: Seq<Real>, k: int) -> Real
    decreases k,
{
    if k <= 0 {
        Real { bits: ONE_BITS }
    } else {
        compounded(series, k - 1).times((Real { bits: ONE_BITS }).plus(series[k - 1]))
    }
}

/// The equity curve of a series of returns: what 1 has grown to before the first return
/// and after each.
pub open spec fn equity_curve(series: Seq<Real>) -> Seq<Real> {
    Seq::new((series.len() + 1) as nat, |k: int| compounded(series, k))
}

/// How many of the signals are trades.
pub open spec fn trade_count(signals: Seq<DailySignal>) -> nat {
    signals.filter(|s: DailySignal| s.trade).len()
}

proof fn lemma_trade_count_grows(signals: Seq<DailySignal>, s: DailySignal)
    ensures
        trade_count(signals.push(s)) == trade_count(signals) + if s.trade {
            1nat
        } else {
            0
        },
{
    reveal(Seq::filter);
    assert(signals.push(s).drop_last() =~= signals);
}

/// The position to hold on a day.
pub fn decide_position(score: Real, confidence: Option<Real>, cfg: &BacktestConfig) -> (r: Real)
    ensures
        r == target_position(score, confidence, *cfg),
{
    let base = position_for_score(score, cfg);
    match confidence {
        Some(c) => apply_confidence(base, c, cfg),
        None => base,
    }
}

fn differs(a: Real, b: Real) -> (r: bool)
    ensures
        r == (Real { bits: MILLIONTH }).below(a.minus(b).absolute()),
{
    let threshold = Real { bits: MILLIONTH };
    threshold.lt(a.sub(b).abs())
}

fn net_return(position: Real, change: Real, trade: bool, cost: Real) -> (r: Real)
    ensures
        r == if trade {
            position.times(change).minus(cost)
        } else {
            position.times(change)
        },
{
    let earned = position.mul(change);
    if trade {
        earned.sub(cost)
    } else {
        earned
    }
}

fn grown(equity: Real, change: Real) -> (r: Real)
    ensures
        r == equity.times((Real { bits: ONE_BITS }).plus(change)),
{
    let one = Real { bits: ONE_BITS };
    equity.mul(one.add(change))
}

/// A walk through all signal days, before its figures are drawn.
#[derive(Clone, Debug)]
pub struct BacktestRun {
    pub ticker: String,
    pub start_date: Date,
    pub end_date: Date,
    pub signals: Vec<DailySignal>,
    pub equity: Vec<Real>,
    pub bh_equity: Vec<Real>,
    /// The strategy's returns on the days that have an earlier bar.
    pub daily_changes: Vec<Real>,
    /// The asset's returns on the days that have an earlier bar.
    pub bh_changes: Vec<Real>,
    pub num_trades: usize,
}

/// `run` is the walk of `input`.
pub open spec fn is_walk(run: BacktestRun, ticker: Seq<char>, input: WalkInput) -> bool {
    &&& run.ticker@ == ticker
    &&& run.start_date == input.bars@[input.cfg.lookback_days as int].date
    &&& run.end_date == input.bars@.last().date
    &&& run.signals@ == input.signals()
    &&& run.equity@ == equity_curve(input.strategy_series())
    &&& run.bh_equity@ == equity_curve(input.asset_measured())
    &&& run.daily_changes@ == input.strategy_measured()
    &&& run.bh_changes@ == input.asset_measured()
    &&& run.num_trades == trade_count(input.signals())
}

/// What a backtest takes besides the bars and the settings.
#[derive(Clone, Debug)]
pub struct WalkSignals {
    /// The signal of each day from `lookback_days` on.
    pub points: Vec<SignalPoint>,
    /// The bubble confidence of each such day that has one, where the settings ask for it.
    pub confidences: Vec<Option<Real>>,
    /// [`BacktestRun::daily_growth`] of the walk to the power of 252.
    pub annual_growth: Real,
}

/// `r` is the backtest of `input`. `annual_growth` is what the mean daily growth factor
/// makes of 1 in a year; it counts only for more than five returns.
pub open spec fn is_backtest(
    r: BacktestResult,
    ticker: Seq<char>,
    input: WalkInput,
    annual_growth: Real,
) -> bool {
    let one = Real { bits: ONE_BITS };
    let equity = equity_curve(input.strategy_series());
    let measured = input.strategy_measured();
    &&& r.ticker@ == ticker
    &&& r.start_date == input.bars@[input.cfg.lookback_days as int].date
    &&& r.end_date == input.bars@.last().date
    &&& r.n_days == input.days()
    &&& r.signals@ == input.signals()
    &&& r.equity@ == equity
    &&& r.bh_equity@ == equity_curve(input.asset_measured())
    &&& r.total_return == equity.last().minus(one)
    &&& r.annualized_return == if measured.len() > 5 {
        annual_growth.minus(one)
    } else {
        equity.last().minus(one)
    }
    &&& r.sharpe == sharpe_ratio(measured)
    &&& r.max_drawdown == largest_drawdown(equity, equity.len() as int)
    &&& r.num_trades == trade_count(input.signals())
    &&& r.buy_hold_return == total_change(input.asset_measured())
    &&& r.buy_hold_sharpe == sharpe_ratio(input.asset_measured())
}

/// Walks through the bars from `lookback_days` on. `points` holds the signal of each of
/// those days; `confidences`, where the settings ask for them, the bubble confidence of
/// each day that has one.
#[verifier::rlimit(40)]
pub fn run_backtest(
    ticker: &str,
    bars: &Vec<PriceBar>,
    cfg: &BacktestConfig,
    points: &Vec<SignalPoint>,
    confidences: &Vec<Option<Real>>,
) -> (r: Result<BacktestRun, BacktestError>)
    requires
        cfg.lookback_days + 30 <= usize::MAX,
        bars@.len() >= cfg.lookback_days + 30 ==> (WalkInput {
            bars,
            cfg,
            points,
            confidences,
        }).complete(),
    ensures
        r is Ok <==> bars@.len() >= cfg.lookback_days + 30,
        r matches Err(e) ==> e == (BacktestError::NotEnoughData {
            have: bars@.len() as usize,
            need: (cfg.lookback_days + 30) as usize,
        }),
        r matches Ok(run) ==> is_walk(
            run,
            ticker@,
            (WalkInput { bars, cfg, points, confidences }),
        ),
{
    let n: usize = bars.len();
    let first: usize = cfg.lookback_days;
    if n < first + 30 {
        return Err(BacktestError::NotEnoughData { have: n, need: first + 30 });
    }
    let ghost input = WalkInput { bars, cfg, points, confidences };
    let one = Real { bits: ONE_BITS };
    let cost = cfg.cost_bps.div(Real { bits: TEN_THOUSAND }).abs();
    let days: usize = n - first;
    let mut signals: Vec<DailySignal> = Vec::new();
    let mut equity: Vec<Real> = Vec::new();
    let mut bh_equity: Vec<Real> = Vec::new();
    let mut daily_changes: Vec<Real> = Vec::new();
    let mut bh_changes: Vec<Real> = Vec::new();
    equity.push(one);
    bh_equity.push(one);
    let mut position = Real { bits: ZERO };
    let mut num_trades: usize = 0;
    let mut k: usize = 0;
    proof {
        reveal(Seq::filter);
        assert(signals@ =~= input.signals().take(0));
    }
    while k < days
        invariant
            k <= days,
            n == bars@.len(),
            days == n - first,
            first == cfg.lookback_days,
            input == (WalkInput { bars, cfg, points, confidences }),
            input.complete(),
            cost == input.cost(),
            position == input.position(k - 1),
            signals@ == input.signals().take(k as int),
            equity@.len() == k + 1,
            forall|j: int|
                0 <= j <= k ==> #[trigger] equity@[j] == compounded(input.strategy_series(), j),
            num_trades <= k,
            num_trades == trade_count(signals@),
            daily_changes@.len() == bh_changes@.len(),
            bh_equity@.len() == bh_changes@.len() + 1,
            bh_changes@.len() == if k >= input.first_return_day() {
                k - input.first_return_day()
            } else {
                0
            },
            forall|j: int|
                0 <= j < daily_changes@.len() ==> #[trigger] daily_changes@[j]
                    == input.strategy_return(input.first_return_day() + j),
            forall|j: int|
                0 <= j < bh_changes@.len() ==> #[trigger] bh_changes@[j]
                    == input.asset_measured()[j],
            forall|j: int|
                0 <= j <= bh_changes@.len() ==> #[trigger] bh_equity@[j] == compounded(
                    input.asset_measured(),
                    j,
                ),
        decreases days - k,
    {
        let i: usize = first + k;
        let point = points[k];
        let confidence: Option<Real> = if cfg.enable_bubble_analysis {
            confidences[k]
        } else {
            None
        };
        let target = decide_position(point.bubble_score, confidence, cfg);
        assert(target == input.position(k as int));
        let trade = differs(target, position);
        assert(trade == input.trades(k as int));
        if trade {
            num_trades = num_trades + 1;
        }
        let mut daily_return = Real { bits: ZERO };
        if i > 0 {
            let change = return_at(bars, i);
            daily_return = net_return(position, change, trade, cost);
            assert(change == input.asset_measured()[bh_changes@.len() as int]);
            let bh_last = bh_equity[bh_equity.len() - 1];
            bh_equity.push(grown(bh_last, change));
            bh_changes.push(change);
            daily_changes.push(daily_return);
        }
        assert(daily_return == input.strategy_return(k as int));
        assert(daily_return == input.strategy_series()[k as int]);
        let last = equity[equity.len() - 1];
        equity.push(grown(last, daily_return));
        let signal = DailySignal {
            date: bars[i].date,
            close: bars[i].adj_close,
            daily_return,
            volume: bars[i].volume,
            eps_norm: point.eps_norm,
            hype_volume: point.hype_volume,
            sentiment: point.sentiment,
            bubble_score: point.bubble_score,
            position: target,
            trade,
            bubble_confidence: match confidence {
                Some(c) => c,
                None => Real { bits: ZERO },
            },
        };
        let ghost before = signals@;
        signals.push(signal);
        proof {
            assert(signal == input.signal(k as int));
            lemma_trade_count_grows(before, signal);
            assert(signals@ =~= input.signals().take(k + 1));
        }
        position = target;
        k = k + 1;
    }
    proof {
        assert(signals@ =~= input.signals());
        assert(equity@ =~= equity_curve(input.strategy_series()));
        assert(bh_equity@ =~= equity_curve(input.asset_measured()));
        assert(bh_changes@ =~= input.asset_measured());
        assert(daily_changes@ =~= input.strategy_measured());
    }
    Ok(
        BacktestRun {
            ticker: ticker.to_owned(),
            start_date: bars[first].date,
            end_date: bars[n - 1].date,
            signals,
            equity,
            bh_equity,
            daily_changes,
            bh_changes,
            num_trades,
        },
    )
}

/// Highest of the first `k` entries, the first one at least.
pub open spec fn running_peak(equity: Seq<Real>, k: int) -> Real
    decreases k,
{
    if k <= 0 {
        equity[0]
    } else {
        let before = running_peak(equity, k - 1);
        if before.below(equity[k - 1]) {
            equity[k - 1]
        } else {
            before
        }
    }
}

/// How far entry `k` lies under the highest entry so far, as a share of it.
pub open spec fn drawdown(equity: Seq<Real>, k: int) -> Real {
    let peak = running_peak(equity, k + 1);
    peak.minus(equity[k]).over(peak)
}

/// Largest drawdown among the first `k` entries, 0 at least.
pub open spec fn largest_drawdown(equity: Seq<Real>, k: int) -> Real
    decreases k,
{
    if k <= 0 {
        Real { bits: ZERO }
    } else {
        let before = largest_drawdown(equity, k - 1);
        if before.below(drawdown(equity, k - 1)) {
            drawdown(equity, k - 1)
        } else {
            before
        }
    }
}

/// The largest drop from a peak, as a share of the peak.
pub fn compute_max_drawdown(equity: &Vec<Real>) -> (r: Real)
    requires
        equity@.len() > 0,
    ensures
        r == largest_drawdown(equity@, equity@.len() as int),
{
    let mut peak = equity[0];
    let mut largest = Real { bits: ZERO };
    let mut i: usize = 0;
    while i < equity.len()
        invariant
            i <= equity@.len(),
            peak == running_peak(equity@, i as int),
            largest == largest_drawdown(equity@, i as int),
        decreases equity@.len() - i,
    {
        let e = equity[i];
        if peak.lt(e) {
            peak = e;
        }
        let fall = peak.sub(e).div(peak);
        if largest.lt(fall) {
            largest = fall;
        }
        i = i + 1;
    }
    largest
}

/// Mean over standard deviation, scaled to a year; 0 for at most five returns or without
/// deviation.
pub open spec fn sharpe_ratio(series: Seq<Real>) -> Real {
    let n = series.len() as int;
    let deviation = stats::variance_of(series, 0, n).root();
    if n > 5 && (Real { bits: TRILLIONTH }).below(deviation) {
        stats::mean_of(series, 0, n).over(deviation).times((Real { bits: TRADING_DAYS }).root())
    } else {
        Real { bits: ZERO }
    }
}

/// Mean over standard deviation, scaled to a year.
pub fn sharpe_of(series: &Vec<Real>) -> (r: Real)
    ensures
        r == sharpe_ratio(series@),
{
    let n: usize = series.len();
    if n > 5 {
        let mean = mean_between(series, 0, n);
        let deviation = variance_between(series, 0, n).sqrt();
        let threshold = Real { bits: TRILLIONTH };
        if threshold.lt(deviation) {
            let year = Real { bits: TRADING_DAYS };
            return mean.div(deviation).mul(year.sqrt());
        }
    }
    Real { bits: ZERO }
}

/// What a series of returns makes of 1, less 1; 0 without returns.
pub open spec fn total_change(series: Seq<Real>) -> Real {
    if series.len() == 0 {
        Real { bits: ZERO }
    } else {
        compounded(series, series.len() as int).minus(Real { bits: ONE_BITS })
    }
}

/// Walks through the bars and draws the figures of the walk.
pub fn complete_backtest(
    ticker: &str,
    bars: &Vec<PriceBar>,
    cfg: &BacktestConfig,
    signals: &WalkSignals,
) -> (r: Result<BacktestResult, BacktestError>)
    requires
        cfg.lookback_days + 30 <= usize::MAX,
        bars@.len() >= cfg.lookback_days + 30 ==> (WalkInput {
            bars,
            cfg,
            points: &signals.points,
            confidences: &signals.confidences,
        }).complete(),
    ensures
        r is Ok <==> bars@.len() >= cfg.lookback_days + 30,
        r matches Err(e) ==> e == (BacktestError::NotEnoughData {
            have: bars@.len() as usize,
            need: (cfg.lookback_days + 30) as usize,
        }),
        r matches Ok(result) ==> is_backtest(
            result,
            ticker@,
            (WalkInput {
                bars,
                cfg,
                points: &signals.points,
                confidences: &signals.confidences,
            }),
            signals.annual_growth,
        ) && result.equity@.len() == result.signals@.len() + 1,
{
    match run_backtest(ticker, bars, cfg, &signals.points, &signals.confidences) {
        Ok(run) => Ok(run.into_result(signals.annual_growth)),
        Err(e) => Err(e),
    }
}

impl BacktestRun {
    /// A curve has a first entry.
    pub open spec fn wf(self) -> bool {
        self.equity@.len() > 0 && self.bh_equity@.len() == self.bh_changes@.len() + 1
            && self.bh_equity@ == equity_curve(self.bh_changes@)
    }

    /// Growth of the equity over the whole walk, less 1.
    pub open spec fn total(self) -> Real {
        self.equity@.last().minus(Real { bits: ONE_BITS })
    }

    /// The mean daily growth factor that is raised to a year of 252 days; none for at most
    /// five returns.
    pub open spec fn annual_base(self) -> Option<Real> {
        let n = self.daily_changes@.len() as int;
        if n > 5 {
            Some(
                (Real { bits: ONE_BITS }).plus(stats::mean_of(self.daily_changes@, 0, n)),
            )
        } else {
            None
        }
    }

    /// The mean daily growth factor that is raised to a year of 252 days.
    pub fn daily_growth(&self) -> (r: Option<Real>)
        ensures
            r == self.annual_base(),
    {
        let n: usize = self.daily_changes.len();
        if n > 5 {
            let one = Real { bits: ONE_BITS };
            Some(one.add(mean_between(&self.daily_changes, 0, n)))
        } else {
            None
        }
    }

    /// Draws the figures of the walk. `annual_growth` is [`BacktestRun::daily_growth`] to
    /// the power of 252; it is ignored where there is no daily growth.
    pub fn into_result(self, annual_growth: Real) -> (r: BacktestResult)
        requires
            self.wf(),
        ensures
            r.ticker@ == self.ticker@,
            r.start_date == self.start_date,
            r.end_date == self.end_date,
            r.n_days == self.signals@.len(),
            r.signals@ == self.signals@,
            r.equity@ == self.equity@,
            r.bh_equity@ == self.bh_equity@,
            r.total_return == self.total(),
            r.annualized_return == if self.annual_base() is Some {
                annual_growth.minus(Real { bits: ONE_BITS })
            } else {
                self.total()
            },
            r.sharpe == sharpe_ratio(self.daily_changes@),
            r.max_drawdown == largest_drawdown(self.equity@, self.equity@.len() as int),
            r.num_trades == self.num_trades,
            r.buy_hold_return == total_change(self.bh_changes@),
            r.buy_hold_sharpe == sharpe_ratio(self.bh_changes@),
    {
        let one = Real { bits: ONE_BITS };
        let total = self.equity[self.equity.len() - 1].sub(one);
        let annualized = match self.daily_growth() {
            Some(_) => annual_growth.sub(one),
            None => total,
        };
        let buy_hold = if self.bh_changes.len() == 0 {
            Real { bits: ZERO }
        } else {
            self.bh_equity[self.bh_equity.len() - 1].sub(one)
        };
        let sharpe = sharpe_of(&self.daily_changes);
        let buy_hold_sharpe = sharpe_of(&self.bh_changes);
        let max_drawdown = compute_max_drawdown(&self.equity);
        BacktestResult {
            ticker: self.ticker,
            start_date: self.start_date,
            end_date: self.end_date,
            n_days: self.signals.len(),
            signals: self.signals,
            equity: self.equity,
            bh_equity: self.bh_equity,
            total_return: total,
            annualized_return: annualized,
            sharpe,
            max_drawdown,
            num_trades: self.num_trades,
            buy_hold_return: buy_hold,
            buy_hold_sharpe,
        }
    }
}

} // verus!
