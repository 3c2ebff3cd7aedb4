//! The engine that a front end drives: parameters, loaded bars, and the latest outcome.
//!
//! Whatever needs the network or a parameter search is done by the caller. Each method
//! here takes what the caller obtained and moves the engine on.

use crate::backtest::{
    complete_backtest, BacktestError, BacktestResult, DailySignal, WalkInput, WalkSignals,
};
use crate::backtest;
use crate::binary64::{Real, ONE_BITS};
use crate::confidence;
use crate::confidence::{compute_bubble_confidence, AnalysisError, BubbleAnalysisResult};
use crate::config::{BacktestConfig, RunMode};
use crate::constants::{HALF, HUNDRED, MINUS_HALF, TRILLIONTH, ZERO};
use crate::data::PriceBar;
use crate::dates;
use crate::dates::Date;
use crate::lppl::LpplParams;
use crate::prediction;
use crate::prediction::{
    compute_live_sentiment, run_future_bubble_prediction, wants_backtest,
    FutureBubblePrediction, LiveError, LiveNote, LiveReply, LiveSentimentSnapshot,
    PredictionError,
};
use crate::text;
use crate::text::{contains_text, text_of_usize, to_upper};
use crate::utils;
use crate::utils::{export_backtest_artifacts, Artifacts};
use vstd::prelude::*;
use vstd::string::*;

verus! {

/// A position from the day it was taken to the day of the next change, or to the last day.
#[derive(Clone, Debug)]
pub struct Trade {
    pub entry_date: Date,
    pub exit_date: Date,
    /// "LONG" or "SHORT".
    pub direction: String,
    pub bars_held: usize,
    pub ret_pct: Real,
    pub pnl_usd: Real,
}

/// A day on which a position of some size is taken.
pub open spec fn is_entry(s: DailySignal) -> bool {
    s.trade && !s.position.absolute().below(Real { bits: HALF })
}

/// The entry days among the first `n` signals.
pub open spec fn entry_days(signals: Seq<DailySignal>, n: int) -> Seq<int>
    decreases n,
{
    if n <= 0 {
        Seq::empty()
    } else if is_entry(signals[n - 1]) {
        entry_days(signals, n - 1).push(n - 1)
    } else {
        entry_days(signals, n - 1)
    }
}

/// The first day from `j` on with a trade, or the last day where there is none.
pub open spec fn exit_day(signals: Seq<DailySignal>, j: int) -> int
    decreases signals.len() - j,
{
    if j >= signals.len() {
        signals.len() - 1
    } else if signals[j].trade {
        j
    } else {
        exit_day(signals, j + 1)
    }
}

/// `t` is the position taken on the day `entry`.
pub open spec fn is_leg(
    t: Trade,
    signals: Seq<DailySignal>,
    equity: Seq<Real>,
    capital: Real,
    entry: int,
) -> bool {
    let exit = exit_day(signals, entry + 1);
    let before = equity[entry + 1];
    let after = equity[exit + 1];
    &&& t.entry_date == signals[entry].date
    &&& t.exit_date == signals[exit].date
    &&& t.direction@ == if (Real { bits: ZERO }).below(signals[entry].position) {
        "LONG"@
    } else {
        "SHORT"@
    }
    &&& t.bars_held == exit - entry + 1
    &&& t.ret_pct == if (Real { bits: TRILLIONTH }).below(before) {
        after.over(before).minus(Real { bits: ONE_BITS })
    } else {
        Real { bits: ZERO }
    }
    &&& t.pnl_usd == after.minus(before).times(capital)
}

/// `trades` holds the positions of a result, in order.
pub open spec fn are_legs(trades: Seq<Trade>, result: BacktestResult, capital: Real) -> bool {
    let signals = result.signals@;
    let equity = result.equity@;
    let entries = if equity.len() < 2 {
        Seq::empty()
    } else {
        entry_days(signals, signals.len() as int)
    };
    &&& trades.len() == entries.len()
    &&& forall|k: int|
        0 <= k < trades.len() ==> is_leg(#[trigger] trades[k], signals, equity, capital, entries[k])
}

/// `trades` holds the positions of a result, for some capital.
pub open spec fn drawn_from(trades: Seq<Trade>, result: BacktestResult) -> bool {
    exists|capital: Real| #[trigger] are_legs(trades, result, capital)
}

proof fn lemma_exit_day(signals: Seq<DailySignal>, j: int)
    requires
        0 < j <= signals.len(),
    ensures
        j - 1 <= exit_day(signals, j) < signals.len(),
        exit_day(signals, j) >= j || j == signals.len() || exit_day(signals, j) == signals.len()
            - 1,
    decreases signals.len() - j,
{
    if j < signals.len() && !signals[j].trade {
        lemma_exit_day(signals, j + 1);
    }
}

fn find_exit(signals: &Vec<DailySignal>, from: usize) -> (r: usize)
    requires
        0 < from <= signals@.len(),
    ensures
        r == exit_day(signals@, from as int),
        from - 1 <= r < signals@.len(),
{
    let n: usize = signals.len();
    let mut j: usize = from;
    while j < n && !signals[j].trade
        invariant
            0 < from <= j <= n,
            n == signals@.len(),
            exit_day(signals@, j as int) == exit_day(signals@, from as int),
        decreases n - j,
    {
        j = j + 1;
    }
    if j < n {
        j
    } else {
        n - 1
    }
}

/// The positions of a result, in order.
pub fn trades_of(result: &BacktestResult, capital: Real) -> (r: Vec<Trade>)
    requires
        result.equity@.len() >= 2 ==> result.equity@.len() > result.signals@.len(),
    ensures
        are_legs(r@, *result, capital),
{
    let signals = &result.signals;
    let equity = &result.equity;
    let mut r: Vec<Trade> = Vec::new();
    if equity.len() < 2 {
        return r;
    }
    let n: usize = signals.len();
    let half = Real { bits: HALF };
    let zero = Real { bits: ZERO };
    let threshold = Real { bits: TRILLIONTH };
    let mut i: usize = 0;
    while i < n
        invariant
            i <= n,
            n == signals@.len(),
            equity@.len() > n,
            half == (Real { bits: HALF }),
            zero == (Real { bits: ZERO }),
            threshold == (Real { bits: TRILLIONTH }),
            r@.len() == entry_days(signals@, i as int).len(),
            forall|k: int|
                0 <= k < r@.len() ==> is_leg(
                    #[trigger] r@[k],
                    signals@,
                    equity@,
                    capital,
                    entry_days(signals@, i as int)[k],
                ),
        decreases n - i,
    {
        let s = signals[i];
        if s.trade && !s.position.abs().lt(half) {
            let exit: usize = find_exit(signals, i + 1);
            let before = equity[i + 1];
            let after = equity[exit + 1];
            let ret_pct = if threshold.lt(before) {
                after.div(before).sub(Real { bits: ONE_BITS })
            } else {
                zero
            };
            let direction = if zero.lt(s.position) {
                "LONG".to_owned()
            } else {
                "SHORT".to_owned()
            };
            let ghost earlier = r@;
            let t = Trade {
                entry_date: s.date,
                exit_date: signals[exit].date,
                direction,
                bars_held: exit - i + 1,
                ret_pct,
                pnl_usd: after.sub(before).mul(capital),
            };
            assert(is_leg(t, signals@, equity@, capital, i as int));
            r.push(t);
            proof {
                let entries = entry_days(signals@, i + 1);
                assert(entries == entry_days(signals@, i as int).push(i as int));
                assert forall|k: int| 0 <= k < r@.len() implies is_leg(
                    #[trigger] r@[k],
                    signals@,
                    equity@,
                    capital,
                    entries[k],
                ) by {
                    if k < earlier.len() {
                        assert(r@[k] == earlier[k]);
                    }
                }
            }
        }
        i = i + 1;
    }
    r
}

proof fn lemma_entry_days(signals: Seq<DailySignal>, n: int)
    requires
        0 <= n <= signals.len(),
    ensures
        forall|k: int|
            0 <= k < entry_days(signals, n).len() ==> {
                let i = #[trigger] entry_days(signals, n)[k];
                0 <= i < n && is_entry(signals[i])
            },
        forall|k: int, l: int|
            0 <= k < l < entry_days(signals, n).len() ==> entry_days(signals, n)[k]
                < entry_days(signals, n)[l],
        forall|i: int|
            0 <= i < n && is_entry(#[trigger] signals[i]) ==> entry_days(signals, n).contains(i),
    decreases n,
{
    if n > 0 {
        lemma_entry_days(signals, n - 1);
        let shorter = entry_days(signals, n - 1);
        let longer = entry_days(signals, n);
        assert forall|i: int| 0 <= i < n && is_entry(#[trigger] signals[i]) implies longer.contains(
            i,
        ) by {
            if i < n - 1 {
                let k = choose|k: int| 0 <= k < shorter.len() && shorter[k] == i;
                assert(longer[k] == i);
            } else {
                assert(longer[longer.len() - 1] == i);
            }
        }
    }
}

/// Law: the positions of a result are taken on exactly the days with a trade into a
/// position of some size, each lasts at least a day, and none begins before the one before
/// it has ended.
pub proof fn law_legs_follow_trades(signals: Seq<DailySignal>, k: int)
    requires
        0 <= k < entry_days(signals, signals.len() as int).len(),
    ensures
        ({
            let entries = entry_days(signals, signals.len() as int);
            let exit = exit_day(signals, entries[k] + 1);
            &&& is_entry(signals[entries[k]])
            &&& entries[k] <= exit < signals.len()
            &&& k + 1 < entries.len() ==> exit <= entries[k + 1]
            &&& forall|i: int| entries[k] < i < exit ==> !(#[trigger] signals[i]).trade
        }),
{
    let n = signals.len() as int;
    let entries = entry_days(signals, n);
    lemma_entry_days(signals, n);
    lemma_exit_day(signals, entries[k] + 1);
    lemma_exit_quiet(signals, entries[k] + 1);
    if k + 1 < entries.len() {
        assert(entries[k] < entries[k + 1]);
        assert(is_entry(signals[entries[k + 1]]));
        if exit_day(signals, entries[k] + 1) > entries[k + 1] {
            assert(!signals[entries[k + 1]].trade);
        }
    }
}

proof fn lemma_exit_quiet(signals: Seq<DailySignal>, j: int)
    requires
        0 < j <= signals.len(),
    ensures
        forall|i: int| j <= i < exit_day(signals, j) ==> !(#[trigger] signals[i]).trade,
    decreases signals.len() - j,
{
    if j < signals.len() && !signals[j].trade {
        lemma_exit_quiet(signals, j + 1);
    }
}

/// Law: every day with a trade into a position of some size begins a position.
pub proof fn law_every_entry_is_a_leg(signals: Seq<DailySignal>, i: int)
    requires
        0 <= i < signals.len(),
        is_entry(signals[i]),
    ensures
        entry_days(signals, signals.len() as int).contains(i),
{
    lemma_entry_days(signals, signals.len() as int);
}

/// How the last attempt to load bars went.
#[derive(Clone, Copy, Debug, PartialEq, Eq, Structural)]
pub enum FetchStatus {
    NoData,
    Fetching,
    NoBars,
    Loaded { bars: usize, first: Date, last: Date, last_close: Real },
}

/// Why the engine could not do what was asked.
#[derive(Clone, Debug)]
pub enum EngineError {
    /// The download failed, with the given message.
    FetchFailed(String),
    NoBarsFetched,
    NoPriceData,
    NotEnoughBars { have: usize, need: usize },
    Backtest(BacktestError),
    NoResult,
    NoBarsForAnalysis,
    Analysis(AnalysisError),
    Prediction(PredictionError),
    Live(LiveError),
}

impl EngineError {
    pub open spec fn text(self, ticker: Seq<char>) -> Seq<char> {
        match self {
            EngineError::FetchFailed(e) => "Yahoo fetch failed for "@ + ticker + ": "@ + e@,
            EngineError::NoBarsFetched => "Yahoo returned zero bars."@,
            EngineError::NoPriceData => "No price data. Call fetch() first."@,
            EngineError::NotEnoughBars { have, need } => "Not enough bars (have "@
                + text::integer_text(have as int) + ", need at least "@ + text::integer_text(
                need as int,
            ) + ")"@,
            EngineError::Backtest(e) => e.text(ticker),
            EngineError::NoResult => "No result to export. Run the simulation first."@,
            EngineError::NoBarsForAnalysis => "No bars loaded for bubble analysis"@,
            EngineError::Analysis(e) => e.text(),
            EngineError::Prediction(e) => e.text(ticker),
            EngineError::Live(e) => e.text(),
        }
    }

    pub fn message(&self, ticker: &str) -> (r: String)
        ensures
            r@ == self.text(ticker@),
    {
        match self {
            EngineError::FetchFailed(e) => {
                let mut r = "Yahoo fetch failed for ".to_owned();
                r.append(ticker);
                r.append(": ");
                r.append(e.as_str());
                r
            },
            EngineError::NoBarsFetched => "Yahoo returned zero bars.".to_owned(),
            EngineError::NoPriceData => "No price data. Call fetch() first.".to_owned(),
            EngineError::NotEnoughBars { have, need } => {
                let mut r = "Not enough bars (have ".to_owned();
                r.append(text_of_usize(*have).as_str());
                r.append(", need at least ");
                r.append(text_of_usize(*need).as_str());
                r.append(")");
                r
            },
            EngineError::Backtest(e) => e.message(ticker),
            EngineError::NoResult => "No result to export. Run the simulation first.".to_owned(),
            EngineError::NoBarsForAnalysis => "No bars loaded for bubble analysis".to_owned(),
            EngineError::Analysis(e) => e.message().to_owned(),
            EngineError::Prediction(e) => e.message(ticker),
            EngineError::Live(e) => e.message().to_owned(),
        }
    }
}

/// What a run in the configured mode consists of.
#[derive(Clone, Copy, Debug, PartialEq, Eq, Structural)]
pub enum ModePlan {
    Backtest,
    /// A prediction, and a backtest with it if so.
    Predict { backtest: bool },
    Live,
}

/// What a run in the configured mode is made from, besides the bars and the settings.
#[derive(Clone, Debug)]
pub enum ModeInput {
    /// The signals of a backtest.
    Backtest(WalkSignals),
    /// The fits of the confidence analysis of the last bar for each seed, and in hybrid
    /// mode the signals of a backtest.
    Predict { fits: Vec<Vec<Option<LpplParams>>>, walk: Option<WalkSignals> },
    /// What the score of the last bar rests on, and the fits of its confidence analysis for
    /// each seed.
    Live { reply: LiveReply, fits: Vec<Vec<Option<LpplParams>>> },
}

/// A remark on where a sentiment comes from.
#[derive(Clone, Copy, Debug, PartialEq, Eq, Structural)]
pub enum ModeNote {
    Live(LiveNote),
    Prediction { median: Option<Date>, confidence: Real },
    Mode { mode: RunMode, confidence: Real },
    Silent,
}

/// The state of the market as the engine sees it now.
#[derive(Clone, Debug)]
pub struct CurrentSentiment {
    pub date: Date,
    pub bubble_score: Real,
    pub bubble_confidence: Real,
    pub position: Real,
    pub recommendation: String,
    pub risk_level: String,
    pub median_predicted_peak: Option<Date>,
    pub mode_note: ModeNote,
}

/// Parameters, loaded bars, and the latest outcome.
#[derive(Clone, Debug)]
pub struct HlpplEngine {
    pub ticker: String,
    pub start: Date,
    pub end: Date,
    pub config: BacktestConfig,
    pub initial_capital: Real,
    pub bars: Option<Vec<PriceBar>>,
    pub result: Option<BacktestResult>,
    pub trades: Vec<Trade>,
    pub fetch_status: FetchStatus,
    pub last_future_prediction: Option<FutureBubblePrediction>,
    pub last_live_sentiment: Option<LiveSentimentSnapshot>,
}

impl HlpplEngine {
    /// The equity of a result has one entry more than there are signals, and the trades
    /// are those of the result, for the capital at the time they were drawn.
    pub open spec fn wf(self) -> bool {
        match self.result {
            Some(result) => result.equity@.len() == result.signals@.len() + 1 && drawn_from(
                self.trades@,
                result,
            ),
            None => self.trades@.len() == 0,
        }
    }

    /// Everything but the outcomes is the same.
    pub open spec fn same_inputs(self, other: HlpplEngine) -> bool {
        &&& self.ticker == other.ticker
        &&& self.start == other.start
        &&& self.end == other.end
        &&& self.config == other.config
        &&& self.initial_capital == other.initial_capital
        &&& self.bars == other.bars
        &&& self.fetch_status == other.fetch_status
    }

    /// An engine with no data.
    pub fn new(
        ticker: &str,
        start: Date,
        end: Date,
        config: BacktestConfig,
        initial_capital: Real,
    ) -> (r: HlpplEngine)
        ensures
            r.wf(),
            r.ticker@ == text::upper_text(ticker@),
            r.start == start,
            r.end == end,
            r.config == config,
            r.initial_capital == initial_capital,
            r.bars is None,
            r.result is None,
            r.trades@.len() == 0,
            r.fetch_status == FetchStatus::NoData,
            r.last_future_prediction is None,
            r.last_live_sentiment is None,
    {
        HlpplEngine {
            ticker: to_upper(ticker),
            start,
            end,
            config,
            initial_capital,
            bars: None,
            result: None,
            trades: Vec::new(),
            fetch_status: FetchStatus::NoData,
            last_future_prediction: None,
            last_live_sentiment: None,
        }
    }

    /// Takes the outcome of a download. Bars replace the loaded ones and void every
    /// outcome; a failed download leaves everything but the status.
    pub fn fetch(&mut self, outcome: Result<Vec<PriceBar>, String>) -> (r: Result<
        usize,
        EngineError,
    >)
        requires
            old(self).wf(),
        ensures
            final(self).wf(),
            final(self).ticker == old(self).ticker,
            final(self).start == old(self).start,
            final(self).end == old(self).end,
            final(self).config == old(self).config,
            final(self).initial_capital == old(self).initial_capital,
            outcome matches Err(e) ==> {
                &&& r == Err::<usize, EngineError>(EngineError::FetchFailed(e))
                &&& final(self).fetch_status == FetchStatus::Fetching
                &&& final(self).bars == old(self).bars
                &&& final(self).result == old(self).result
                &&& final(self).trades == old(self).trades
                &&& final(self).last_future_prediction == old(self).last_future_prediction
                &&& final(self).last_live_sentiment == old(self).last_live_sentiment
            },
            outcome matches Ok(bars) ==> if bars@.len() == 0 {
                &&& r == Err::<usize, EngineError>(EngineError::NoBarsFetched)
                &&& final(self).fetch_status == FetchStatus::NoBars
                &&& final(self).bars is None
                &&& final(self).result == old(self).result
                &&& final(self).trades == old(self).trades
                &&& final(self).last_future_prediction == old(self).last_future_prediction
                &&& final(self).last_live_sentiment == old(self).last_live_sentiment
            } else {
                &&& r == Ok::<usize, EngineError>(bars@.len() as usize)
                &&& final(self).fetch_status == (FetchStatus::Loaded {
                    bars: bars@.len() as usize,
                    first: bars@.first().date,
                    last: bars@.last().date,
                    last_close: bars@.last().adj_close,
                })
                &&& final(self).bars == Some(bars)
                &&& final(self).result is None
                &&& final(self).trades@.len() == 0
                &&& final(self).last_future_prediction is None
                &&& final(self).last_live_sentiment is None
            },
    {
        self.fetch_status = FetchStatus::Fetching;
        match outcome {
            Err(e) => Err(EngineError::FetchFailed(e)),
            Ok(bars) => {
                let n: usize = bars.len();
                if n == 0 {
                    self.fetch_status = FetchStatus::NoBars;
                    self.bars = None;
                    return Err(EngineError::NoBarsFetched);
                }
                self.fetch_status = FetchStatus::Loaded {
                    bars: n,
                    first: bars[0].date,
                    last: bars[n - 1].date,
                    last_close: bars[n - 1].adj_close,
                };
                self.bars = Some(bars);
                self.result = None;
                self.trades = Vec::new();
                self.last_future_prediction = None;
                self.last_live_sentiment = None;
                Ok(n)
            },
        }
    }

    /// The status of the last attempt to load bars, as a user reads it. `last_price` is the
    /// text of the last close.
    pub open spec fn status(self, last_price: Seq<char>) -> Seq<char> {
        match self.fetch_status {
            FetchStatus::NoData => "No data loaded."@,
            FetchStatus::Fetching => "Fetching "@ + self.ticker@ + " "@ + dates::text_of_day(
                self.start.epoch_day,
            ) + " → "@ + dates::text_of_day(self.end.epoch_day) + " ..."@,
            FetchStatus::NoBars => "Yahoo returned zero bars."@,
            FetchStatus::Loaded { bars, first, last, last_close } => "Yahoo OK ✓ "@
                + text::integer_text(bars as int) + " bars | "@ + dates::text_of_day(
                first.epoch_day,
            ) + " → "@ + dates::text_of_day(last.epoch_day) + " | last $"@ + last_price,
        }
    }

    /// The status of the last attempt to load bars, as a user reads it.
    pub fn status_text(&self, last_price: &str) -> (r: String)
        requires
            self.start.valid(),
            self.end.valid(),
            self.fetch_status matches FetchStatus::Loaded { bars, first, last, last_close }
                ==> first.valid() && last.valid(),
        ensures
            r@ == self.status(last_price@),
    {
        match self.fetch_status {
            FetchStatus::NoData => "No data loaded.".to_owned(),
            FetchStatus::Fetching => {
                let mut r = "Fetching ".to_owned();
                r.append(self.ticker.as_str());
                r.append(" ");
                r.append(self.start.text().as_str());
                r.append(" → ");
                r.append(self.end.text().as_str());
                r.append(" ...");
                r
            },
            FetchStatus::NoBars => "Yahoo returned zero bars.".to_owned(),
            FetchStatus::Loaded { bars, first, last, last_close: _ } => {
                let mut r = "Yahoo OK ✓ ".to_owned();
                r.append(text_of_usize(bars).as_str());
                r.append(" bars | ");
                r.append(first.text().as_str());
                r.append(" → ");
                r.append(last.text().as_str());
                r.append(" | last $");
                r.append(last_price);
                r
            },
        }
    }

    /// What keeps a backtest from being made.
    pub open spec fn run_fault(self) -> Option<EngineError> {
        match self.bars {
            None => Some(EngineError::NoPriceData),
            Some(bars) => if bars@.len() < self.config.lookback_days + 30 {
                Some(
                    EngineError::NotEnoughBars {
                        have: bars@.len() as usize,
                        need: (self.config.lookback_days + 30) as usize,
                    },
                )
            } else {
                None
            },
        }
    }

    fn check_run(&self) -> (r: Option<EngineError>)
        requires
            self.config.lookback_days + 30 <= usize::MAX,
        ensures
            r == self.run_fault(),
    {
        match &self.bars {
            None => Some(EngineError::NoPriceData),
            Some(bars) => {
                let need: usize = self.config.lookback_days + 30;
                if bars.len() < need {
                    Some(EngineError::NotEnoughBars { have: bars.len(), need })
                } else {
                    None
                }
            },
        }
    }

    /// Puts the engine into historical mode and says what keeps a backtest from being
    /// made, if anything does.
    pub fn prepare_run(&mut self) -> (r: Option<EngineError>)
        requires
            old(self).config.lookback_days + 30 <= usize::MAX,
        ensures
            final(self).config == (BacktestConfig {
                run_mode: RunMode::HistoricalBacktest,
                ..old(self).config
            }),
            *final(self) == (HlpplEngine { config: final(self).config, ..*old(self) }),
            r == old(self).run_fault(),
    {
        self.config.run_mode = RunMode::HistoricalBacktest;
        self.check_run()
    }

    /// There is a signal, and a confidence where one is wanted, for each signal day of the
    /// loaded bars.
    pub open spec fn signals_ready(self, walk: WalkSignals) -> bool {
        &&& self.config.lookback_days + 30 <= usize::MAX
        &&& self.run_fault() is None ==> (WalkInput {
            bars: &self.bars->0,
            cfg: &self.config,
            points: &walk.points,
            confidences: &walk.confidences,
        }).complete()
    }

    /// `result` is the backtest of the loaded bars under the settings.
    pub open spec fn is_own_backtest(self, result: BacktestResult, walk: WalkSignals) -> bool {
        backtest::is_backtest(
            result,
            self.ticker@,
            (WalkInput {
                bars: &self.bars->0,
                cfg: &self.config,
                points: &walk.points,
                confidences: &walk.confidences,
            }),
            walk.annual_growth,
        )
    }

    /// The result kept is the backtest of the loaded bars under the settings, and the trades
    /// are those of the result.
    pub open spec fn keeps_backtest(self, walk: WalkSignals) -> bool {
        &&& self.result is Some
        &&& self.is_own_backtest(self.result->0, walk)
        &&& are_legs(self.trades@, self.result->0, self.initial_capital)
    }

    /// Puts the engine into historical mode, walks through the loaded bars, and keeps the
    /// outcome and the trades in it. A run that fails changes nothing but the mode.
    pub fn run(&mut self, walk: &WalkSignals) -> (r: Result<(), EngineError>)
        requires
            old(self).wf(),
            (HlpplEngine {
                config: BacktestConfig {
                    run_mode: RunMode::HistoricalBacktest,
                    ..old(self).config
                },
                ..*old(self)
            }).signals_ready(*walk),
        ensures
            final(self).wf(),
            final(self).config == (BacktestConfig {
                run_mode: RunMode::HistoricalBacktest,
                ..old(self).config
            }),
            r is Ok <==> old(self).run_fault() is None,
            r matches Err(e) ==> old(self).run_fault() == Some(e) && *final(self)
                == (HlpplEngine { config: final(self).config, ..*old(self) }),
            r is Ok ==> {
                &&& final(self).same_inputs(
                    (HlpplEngine { config: final(self).config, ..*old(self) }),
                )
                &&& final(self).keeps_backtest(*walk)
                &&& final(self).last_future_prediction == old(self).last_future_prediction
                &&& final(self).last_live_sentiment == old(self).last_live_sentiment
            },
    {
        self.config.run_mode = RunMode::HistoricalBacktest;
        self.walk_bars(walk)
    }

    /// Walks through the loaded bars, and keeps the outcome and the trades in it. A run that
    /// fails changes nothing.
    fn walk_bars(&mut self, walk: &WalkSignals) -> (r: Result<(), EngineError>)
        requires
            old(self).wf(),
            old(self).signals_ready(*walk),
        ensures
            final(self).wf(),
            r is Ok <==> old(self).run_fault() is None,
            r matches Err(e) ==> old(self).run_fault() == Some(e) && *final(self)
                == *old(self),
            r is Ok ==> {
                &&& final(self).same_inputs(*old(self))
                &&& final(self).keeps_backtest(*walk)
                &&& final(self).last_future_prediction == old(self).last_future_prediction
                &&& final(self).last_live_sentiment == old(self).last_live_sentiment
            },
    {
        match self.check_run() {
            Some(e) => {
                return Err(e);
            },
            None => {},
        }
        let outcome = match &self.bars {
            Some(bars) => complete_backtest(self.ticker.as_str(), bars, &self.config, walk),
            None => {
                return Err(EngineError::NoPriceData);
            },
        };
        match outcome {
            Ok(result) => {
                self.accept_result(result);
                Ok(())
            },
            Err(e) => Err(EngineError::Backtest(e)),
        }
    }

    /// Keeps the outcome of a backtest, and the trades in it.
    fn accept_result(&mut self, result: BacktestResult)
        requires
            result.equity@.len() == result.signals@.len() + 1,
        ensures
            final(self).wf(),
            final(self).same_inputs(*old(self)),
            final(self).result == Some(result),
            are_legs(final(self).trades@, result, final(self).initial_capital),
            final(self).last_future_prediction == old(self).last_future_prediction,
            final(self).last_live_sentiment == old(self).last_live_sentiment,
    {
        self.result = Some(result);
        self.recompute_trades();
    }

    /// Draws the trades out of the current result again, for the current capital.
    pub fn recompute_trades(&mut self)
        requires
            old(self).result matches Some(result) ==> result.equity@.len()
                == result.signals@.len() + 1,
        ensures
            final(self).wf(),
            final(self).same_inputs(*old(self)),
            final(self).result == old(self).result,
            final(self).last_future_prediction == old(self).last_future_prediction,
            final(self).last_live_sentiment == old(self).last_live_sentiment,
            final(self).result is None ==> final(self).trades@.len() == 0,
            final(self).result matches Some(result) ==> are_legs(
                final(self).trades@,
                result,
                final(self).initial_capital,
            ),
    {
        let trades: Vec<Trade> = match &self.result {
            Some(result) => trades_of(result, self.initial_capital),
            None => Vec::new(),
        };
        self.trades = trades;
        proof {
            if self.result is Some {
                assert(are_legs(self.trades@, self.result->0, self.initial_capital));
            }
        }
    }

    /// What a run in the configured mode consists of, or what keeps it from being made. A
    /// prediction or a snapshot needs bars; a backtest in historical mode needs enough of
    /// them.
    pub open spec fn plan_of(self) -> Result<ModePlan, EngineError> {
        if self.bars is None {
            Err(EngineError::NoPriceData)
        } else {
            match self.config.run_mode {
                RunMode::HistoricalBacktest => match self.run_fault() {
                    Some(e) => Err(e),
                    None => Ok(ModePlan::Backtest),
                },
                RunMode::FutureBubblePrediction => Ok(ModePlan::Predict { backtest: false }),
                RunMode::HybridAnalysis => Ok(ModePlan::Predict { backtest: true }),
                RunMode::LiveCurrentSentiment => Ok(ModePlan::Live),
            }
        }
    }

    /// What a run in the configured mode consists of, or what keeps it from being made.
    pub fn plan(&self) -> (r: Result<ModePlan, EngineError>)
        requires
            self.config.run_mode == RunMode::HistoricalBacktest ==> self.config.lookback_days + 30
                <= usize::MAX,
        ensures
            r == self.plan_of(),
    {
        if self.bars.is_none() {
            return Err(EngineError::NoPriceData);
        }
        match self.config.run_mode {
            RunMode::HistoricalBacktest => match self.check_run() {
                Some(e) => Err(e),
                None => Ok(ModePlan::Backtest),
            },
            RunMode::LiveCurrentSentiment => Ok(ModePlan::Live),
            _ => Ok(ModePlan::Predict { backtest: wants_backtest(&self.config) }),
        }
    }

    /// `fits` holds, for each seed, a fit or none for each window of the analysis of the
    /// last bar.
    pub open spec fn fits_last_bar(self, fits: Seq<Vec<Option<LpplParams>>>) -> bool {
        self.bars matches Some(bars) ==> bars@.len() > 0 ==> prediction::fits_match(
            prediction::sweep_at(self.config, bars@.len() - 1),
            bars@.len(),
            fits,
        )
    }

    /// What keeps a prediction from being made.
    pub open spec fn prediction_fault(self) -> Option<EngineError> {
        match self.bars {
            None => Some(EngineError::NoPriceData),
            Some(bars) => match prediction::prediction_fault(self.config, bars@.len()) {
                Some(e) => Some(EngineError::Prediction(e)),
                None => None,
            },
        }
    }

    /// Makes and keeps the bubble prediction of the loaded bars, and in hybrid mode the
    /// backtest of the same bars.
    pub fn get_future_prediction(
        &mut self,
        fits: &Vec<Vec<Option<LpplParams>>>,
        walk: &Option<WalkSignals>,
    ) -> (r: Result<(), EngineError>)
        requires
            old(self).wf(),
            old(self).fits_last_bar(fits@),
            old(self).bars matches Some(bars) ==> prediction::walk_ready(
                bars,
                old(self).config,
                *walk,
            ),
        ensures
            final(self).wf(),
            r is Ok <==> old(self).prediction_fault() is None,
            r matches Err(e) ==> old(self).prediction_fault() == Some(e) && *final(self)
                == *old(self),
            r is Ok ==> {
                &&& final(self).same_inputs(*old(self))
                &&& final(self).last_live_sentiment == old(self).last_live_sentiment
                &&& final(self).keeps_prediction(fits@)
                &&& if old(self).config.run_mode == RunMode::HybridAnalysis {
                    *walk matches Some(w) && final(self).keeps_backtest(w)
                } else {
                    final(self).result == old(self).result && final(self).trades
                        == old(self).trades
                }
            },
    {
        let outcome = match &self.bars {
            None => {
                return Err(EngineError::NoPriceData);
            },
            Some(bars) => run_future_bubble_prediction(
                self.ticker.as_str(),
                bars,
                &self.config,
                fits,
                walk,
            ),
        };
        match outcome {
            Err(e) => Err(EngineError::Prediction(e)),
            Ok((p, backtest)) => {
                self.last_future_prediction = Some(p);
                if let Some(result) = backtest {
                    self.accept_result(result);
                }
                Ok(())
            },
        }
    }

    /// The prediction kept is that of the loaded bars.
    pub open spec fn keeps_prediction(self, fits: Seq<Vec<Option<LpplParams>>>) -> bool {
        self.last_future_prediction matches Some(p) && prediction::predicts(
            p,
            self.ticker@,
            self.bars->0@,
            self.config,
            fits,
        )
    }

    /// What keeps a snapshot from being made.
    pub open spec fn live_fault(self) -> Option<EngineError> {
        match self.bars {
            None => Some(EngineError::NoPriceData),
            Some(bars) => match prediction::live_fault(self.config, bars@.len()) {
                Some(e) => Some(EngineError::Live(e)),
                None => None,
            },
        }
    }

    /// The snapshot kept is that of the last loaded bar.
    pub open spec fn keeps_snapshot(
        self,
        reply: LiveReply,
        fits: Seq<Vec<Option<LpplParams>>>,
    ) -> bool {
        self.last_live_sentiment matches Some(s) && prediction::snapshots(
            s,
            self.ticker@,
            self.bars->0@,
            self.config,
            prediction::live_score_of(self.bars->0@, self.config, reply),
            fits,
        )
    }

    /// `reply` and `fits` are what a snapshot of the last loaded bar is made from, where
    /// there are enough bars for one.
    pub open spec fn live_ready(
        self,
        reply: LiveReply,
        fits: Seq<Vec<Option<LpplParams>>>,
    ) -> bool {
        self.bars matches Some(bars) ==> bars@.len() >= 30 ==> {
            &&& prediction::reply_ready(reply, self.config, bars@.len())
            &&& prediction::fits_match(
                prediction::sweep_at(self.config, bars@.len() - 1),
                bars@.len(),
                fits,
            )
        }
    }

    /// Makes and keeps the snapshot of the last loaded bar.
    pub fn get_live_sentiment(
        &mut self,
        reply: LiveReply,
        fits: &Vec<Vec<Option<LpplParams>>>,
    ) -> (r: Result<(), EngineError>)
        requires
            old(self).wf(),
            old(self).live_ready(reply, fits@),
        ensures
            final(self).wf(),
            r is Ok <==> old(self).live_fault() is None,
            r matches Err(e) ==> old(self).live_fault() == Some(e) && *final(self)
                == *old(self),
            r is Ok ==> {
                &&& final(self).same_inputs(*old(self))
                &&& final(self).last_future_prediction == old(self).last_future_prediction
                &&& final(self).result == old(self).result
                &&& final(self).trades == old(self).trades
                &&& final(self).keeps_snapshot(reply, fits@)
            },
    {
        let outcome = match &self.bars {
            None => {
                return Err(EngineError::NoPriceData);
            },
            Some(bars) => compute_live_sentiment(
                self.ticker.as_str(),
                bars,
                &self.config,
                reply,
                fits,
            ),
        };
        match outcome {
            Err(e) => Err(EngineError::Live(e)),
            Ok(s) => {
                self.last_live_sentiment = Some(s);
                Ok(())
            },
        }
    }

    /// The input has the kind that the configured mode asks for, and covers the loaded bars.
    pub open spec fn suits_mode(self, input: ModeInput) -> bool {
        match (self.config.run_mode, input) {
            (RunMode::HistoricalBacktest, ModeInput::Backtest(walk)) => self.signals_ready(walk),
            (
                RunMode::FutureBubblePrediction | RunMode::HybridAnalysis,
                ModeInput::Predict { fits, walk },
            ) => {
                &&& self.fits_last_bar(fits@)
                &&& self.bars matches Some(bars) ==> prediction::walk_ready(
                    bars,
                    self.config,
                    walk,
                )
            },
            (RunMode::LiveCurrentSentiment, ModeInput::Live { reply, fits }) => self.live_ready(
                reply,
                fits@,
            ),
            _ => false,
        }
    }

    /// What keeps a run in the configured mode from being completed.
    pub open spec fn mode_fault(self) -> Option<EngineError> {
        match self.config.run_mode {
            RunMode::HistoricalBacktest => self.run_fault(),
            RunMode::FutureBubblePrediction => self.prediction_fault(),
            RunMode::HybridAnalysis => self.prediction_fault(),
            RunMode::LiveCurrentSentiment => self.live_fault(),
        }
    }

    /// Makes a run in the configured mode. A backtest replaces result and trades, a
    /// prediction or a snapshot replaces the one before, and a hybrid run replaces both
    /// prediction and result; a run that fails changes nothing.
    pub fn run_with_mode(&mut self, input: ModeInput) -> (r: Result<(), EngineError>)
        requires
            old(self).wf(),
            old(self).suits_mode(input),
        ensures
            final(self).wf(),
            r is Ok <==> old(self).mode_fault() is None,
            r matches Err(e) ==> old(self).mode_fault() == Some(e) && *final(self)
                == *old(self),
            r is Ok ==> final(self).same_inputs(*old(self)) && match input {
                ModeInput::Backtest(walk) => {
                    &&& final(self).keeps_backtest(walk)
                    &&& final(self).last_future_prediction == old(self).last_future_prediction
                    &&& final(self).last_live_sentiment == old(self).last_live_sentiment
                },
                ModeInput::Predict { fits, walk } => {
                    &&& final(self).keeps_prediction(fits@)
                    &&& final(self).last_live_sentiment == old(self).last_live_sentiment
                    &&& if old(self).config.run_mode == RunMode::HybridAnalysis {
                        walk matches Some(w) && final(self).keeps_backtest(w)
                    } else {
                        final(self).result == old(self).result && final(self).trades
                            == old(self).trades
                    }
                },
                ModeInput::Live { reply, fits } => {
                    &&& final(self).keeps_snapshot(reply, fits@)
                    &&& final(self).last_future_prediction == old(self).last_future_prediction
                    &&& final(self).result == old(self).result
                    &&& final(self).trades == old(self).trades
                },
            },
    {
        match input {
            ModeInput::Backtest(walk) => self.walk_bars(&walk),
            ModeInput::Predict { fits, walk } => self.get_future_prediction(&fits, &walk),
            ModeInput::Live { reply, fits } => self.get_live_sentiment(reply, &fits),
        }
    }

    /// What the initial capital has become.
    pub open spec fn capital_now(self) -> Real {
        match self.result {
            Some(result) if result.equity@.len() > 0 => self.initial_capital.times(
                result.equity@.last(),
            ),
            _ => self.initial_capital,
        }
    }

    /// What the initial capital has become: its multiple by the last equity, or itself
    /// without a result.
    pub fn final_capital(&self) -> (r: Real)
        ensures
            r == self.capital_now(),
    {
        match &self.result {
            Some(result) => if result.equity.len() > 0 {
                self.initial_capital.mul(result.equity[result.equity.len() - 1])
            } else {
                self.initial_capital
            },
            None => self.initial_capital,
        }
    }

    /// Profit or loss in dollars.
    pub fn total_pnl_usd(&self) -> (r: Real)
        ensures
            r == self.capital_now().minus(self.initial_capital),
    {
        self.final_capital().sub(self.initial_capital)
    }

    /// Profit or loss in per cent of the initial capital; 0 where that is not positive.
    pub fn pnl_percent(&self) -> (r: Real)
        ensures
            r == if (Real { bits: ZERO }).below(self.initial_capital) {
                self.capital_now().minus(self.initial_capital).over(
                    self.initial_capital,
                ).times(Real { bits: HUNDRED })
            } else {
                Real { bits: ZERO }
            },
    {
        let zero = Real { bits: ZERO };
        if zero.lt(self.initial_capital) {
            self.total_pnl_usd().div(self.initial_capital).mul(Real { bits: HUNDRED })
        } else {
            zero
        }
    }

    /// Everything that an export of the current result writes. `thousands` is the text of
    /// the capital in thousands.
    pub fn export_artifacts(&self, outdir: &str, thousands: &str) -> (r: Result<
        Artifacts,
        EngineError,
    >)
        requires
            self.result matches Some(result) ==> utils::dated(result.signals@),
        ensures
            r is Ok <==> self.result is Some,
            r matches Err(e) ==> e == EngineError::NoResult,
            r matches Ok(a) ==> utils::is_export(
                a,
                self.result->0,
                outdir@,
                self.initial_capital,
                thousands@,
            ),
    {
        match &self.result {
            Some(result) => Ok(
                export_backtest_artifacts(result, outdir, self.initial_capital, thousands),
            ),
            None => Err(EngineError::NoResult),
        }
    }

    /// The signals of the current result.
    pub fn signals(&self) -> (r: Option<&Vec<DailySignal>>)
        ensures
            r is Some <==> self.result is Some,
            r matches Some(s) ==> *s == self.result->0.signals,
    {
        match &self.result {
            Some(result) => Some(&result.signals),
            None => None,
        }
    }

    /// Whether bars have to be loaded first.
    pub fn needs_fetch(&self) -> (r: bool)
        ensures
            r == (self.bars is None),
    {
        self.bars.is_none()
    }

    /// What keeps the bubble analysis of the last bar from being made.
    pub open spec fn analysis_fault(self) -> Option<EngineError> {
        match self.bars {
            Some(bars) => if bars@.len() == 0 {
                Some(EngineError::NoBarsForAnalysis)
            } else {
                match prediction::sweep_at(self.config, bars@.len() - 1).fault(bars@.len()) {
                    Some(e) => Some(EngineError::Analysis(e)),
                    None => None,
                }
            },
            None => Some(EngineError::NoPriceData),
        }
    }

    /// `fits` holds a fit or none for each window of the analysis of the last bar.
    pub open spec fn fits_analysis(self, fits: Seq<Option<LpplParams>>) -> bool {
        self.bars matches Some(bars) ==> bars@.len() > 0 ==> {
            let sweep = prediction::sweep_at(self.config, bars@.len() - 1);
            sweep.fault(bars@.len()) is None ==> sweep.wf() && fits.len() == sweep.count()
        }
    }

    /// `a` is the analysis of the last bar.
    pub open spec fn analyses(
        self,
        a: BubbleAnalysisResult,
        fits: Seq<Option<LpplParams>>,
    ) -> bool {
        confidence::is_analysis(
            a,
            self.bars->0@,
            prediction::sweep_at(self.config, self.bars->0@.len() - 1),
            self.config.filter(),
            fits,
        )
    }

    /// The bubble confidence at the last bar with the run's own seed. `fits` holds the fits
    /// of the windows of [`crate::prediction::analysis_sweep`].
    pub fn run_bubble_analysis(&self, fits: &Vec<Option<LpplParams>>) -> (r: Result<
        BubbleAnalysisResult,
        EngineError,
    >)
        requires
            self.fits_analysis(fits@),
        ensures
            r is Ok <==> self.analysis_fault() is None,
            r matches Err(e) ==> self.analysis_fault() == Some(e),
            r matches Ok(a) ==> self.analyses(a, fits@),
    {
        match &self.bars {
            Some(bars) => {
                if bars.len() == 0 {
                    return Err(EngineError::NoBarsForAnalysis);
                }
                match compute_bubble_confidence(
                    bars,
                    bars.len() - 1,
                    self.config.analysis_lookback_min,
                    self.config.analysis_lookback_max,
                    self.config.analysis_step_days,
                    &self.config.lppl_filter_config(),
                    fits,
                ) {
                    Ok(a) => Ok(a),
                    Err(e) => Err(EngineError::Analysis(e)),
                }
            },
            None => Err(EngineError::NoPriceData),
        }
    }

    /// Whether a sentiment needs an analysis: neither a snapshot nor a prediction is at
    /// hand.
    pub open spec fn wants_analysis(self) -> bool {
        self.last_live_sentiment is None && self.last_future_prediction is None
    }

    /// Whether a sentiment needs an analysis.
    pub fn needs_analysis(&self) -> (r: bool)
        ensures
            r == self.wants_analysis(),
    {
        self.last_live_sentiment.is_none() && self.last_future_prediction.is_none()
    }

    /// Score, position and recommendation of the last signal.
    pub open spec fn last_view(self) -> (Real, Real, Seq<char>) {
        match self.result {
            Some(result) if result.signals@.len() > 0 => (
                result.signals@.last().bubble_score,
                result.signals@.last().position,
                plain_recommendation(result.signals@.last().position),
            ),
            _ => (Real { bits: ZERO }, Real { bits: ZERO }, "HOLD / FLAT"@),
        }
    }

    /// `s` is what the engine sees: the snapshot at hand, else the prediction at hand, else
    /// the analysis together with the last signal.
    pub open spec fn is_sentiment(
        self,
        s: CurrentSentiment,
        analysis: Option<BubbleAnalysisResult>,
    ) -> bool {
        if let Some(live) = self.last_live_sentiment {
            &&& s.date == live.date
            &&& s.bubble_score == live.bubble_score
            &&& s.bubble_confidence == live.bubble_confidence
            &&& s.position == live.position
            &&& s.recommendation@ == live.recommendation@
            &&& s.risk_level@ == live.risk_level@
            &&& s.median_predicted_peak == live.median_predicted_peak
            &&& s.mode_note == ModeNote::Live(live.actionable_note)
        } else if let Some(p) = self.last_future_prediction {
            &&& s.date == p.analysis_date
            &&& s.bubble_score == (Real { bits: ZERO })
            &&& s.bubble_confidence == p.bubble_confidence_index
            &&& s.position == (Real { bits: ZERO })
            &&& s.recommendation@ == prediction_recommendation(p, self.config)
            &&& s.risk_level@ == p.risk_level@
            &&& s.median_predicted_peak == p.median_predicted_date
            &&& s.mode_note == (ModeNote::Prediction {
                median: p.median_predicted_date,
                confidence: p.bubble_confidence_index,
            })
        } else {
            let a = analysis->0;
            &&& s.date == a.analysis_date
            &&& s.bubble_score == self.last_view().0
            &&& s.bubble_confidence == a.bubble_confidence_index
            &&& s.position == self.last_view().1
            &&& s.recommendation@ == if self.config.use_confidence_for_flat
                && self.config.confidence_flat_threshold.below(a.bubble_confidence_index) {
                "HOLD / FLAT (high bubble confidence - risk management override)"@
            } else {
                self.last_view().2
            }
            &&& s.risk_level@ == a.risk_level@
            &&& s.median_predicted_peak == a.median_predicted_date
            &&& s.mode_note == if self.config.run_mode == RunMode::HistoricalBacktest {
                ModeNote::Silent
            } else {
                ModeNote::Mode {
                    mode: self.config.run_mode,
                    confidence: a.bubble_confidence_index,
                }
            }
        }
    }

    /// The state of the market as the engine sees it. Where [`HlpplEngine::needs_analysis`]
    /// says so, the last bar is analysed; `fits` then holds the fits of the windows of
    /// [`crate::prediction::analysis_sweep`].
    pub fn get_current_sentiment(&self, fits: &Vec<Option<LpplParams>>) -> (r: Result<
        CurrentSentiment,
        EngineError,
    >)
        requires
            self.wants_analysis() ==> self.fits_analysis(fits@),
        ensures
            r is Ok <==> (self.wants_analysis() ==> self.analysis_fault() is None),
            r matches Err(e) ==> self.analysis_fault() == Some(e),
            r matches Ok(s) ==> if self.wants_analysis() {
                exists|a: BubbleAnalysisResult|
                    #[trigger] self.analyses(a, fits@) && self.is_sentiment(s, Some(a))
            } else {
                self.is_sentiment(s, None)
            },
    {
        if let Some(live) = &self.last_live_sentiment {
            return Ok(sentiment_of_snapshot(live));
        }
        if let Some(p) = &self.last_future_prediction {
            return Ok(sentiment_of_prediction(p, &self.config));
        }
        match self.run_bubble_analysis(fits) {
            Ok(a) => {
                assert(self.analyses(a, fits@));
                Ok(self.sentiment_of_analysis(&a))
            },
            Err(e) => Err(e),
        }
    }

    fn sentiment_of_analysis(&self, a: &BubbleAnalysisResult) -> (r: CurrentSentiment)
        requires
            self.last_live_sentiment is None,
            self.last_future_prediction is None,
        ensures
            self.is_sentiment(r, Some(*a)),
    {
        let mut score = Real { bits: ZERO };
        let mut position = Real { bits: ZERO };
        let mut recommendation = "HOLD / FLAT";
        if let Some(result) = &self.result {
            if result.signals.len() > 0 {
                let last = result.signals[result.signals.len() - 1];
                score = last.bubble_score;
                position = last.position;
                recommendation = recommend(position);
            }
        }
        if self.config.use_confidence_for_flat && self.config.confidence_flat_threshold.lt(
            a.bubble_confidence_index,
        ) {
            recommendation = "HOLD / FLAT (high bubble confidence - risk management override)";
        }
        let mode_note = match self.config.run_mode {
            RunMode::HistoricalBacktest => ModeNote::Silent,
            _ => ModeNote::Mode {
                mode: self.config.run_mode,
                confidence: a.bubble_confidence_index,
            },
        };
        CurrentSentiment {
            date: a.analysis_date,
            bubble_score: score,
            bubble_confidence: a.bubble_confidence_index,
            position,
            recommendation: recommendation.to_owned(),
            risk_level: a.risk_level.as_str().to_owned(),
            median_predicted_peak: a.median_predicted_date,
            mode_note,
        }
    }
}

/// The recommendation for a position, in short.
pub open spec fn plain_recommendation(position: Real) -> Seq<char> {
    if (Real { bits: HALF }).below(position) {
        "BUY / GO LONG"@
    } else if position.below(Real { bits: MINUS_HALF }) {
        "SELL / GO SHORT"@
    } else {
        "HOLD / FLAT"@
    }
}

/// The recommendation for a position, in short.
pub fn recommend(position: Real) -> (r: &'static str)
    ensures
        r@ == plain_recommendation(position),
{
    let half = Real { bits: HALF };
    if half.lt(position) {
        "BUY / GO LONG"
    } else if position.lt(Real { bits: MINUS_HALF }) {
        "SELL / GO SHORT"
    } else {
        "HOLD / FLAT"
    }
}

/// The recommendation that a prediction gives.
pub open spec fn prediction_recommendation(
    p: FutureBubblePrediction,
    cfg: BacktestConfig,
) -> Seq<char> {
    if cfg.confidence_flat_threshold.below(p.bubble_confidence_index) {
        "HOLD / FLAT (high C1 bubble risk from prediction)"@
    } else if text::occurs_in(p.risk_level@, "CRITICAL"@) || text::occurs_in(
        p.risk_level@,
        "HIGH"@,
    ) {
        "CAUTION / MONITOR (elevated future bubble probability)"@
    } else {
        "NEUTRAL (no strong future tc cluster)"@
    }
}

fn sentiment_of_snapshot(live: &LiveSentimentSnapshot) -> (s: CurrentSentiment)
    ensures
        s.date == live.date,
        s.bubble_score == live.bubble_score,
        s.bubble_confidence == live.bubble_confidence,
        s.position == live.position,
        s.recommendation@ == live.recommendation@,
        s.risk_level@ == live.risk_level@,
        s.median_predicted_peak == live.median_predicted_peak,
        s.mode_note == ModeNote::Live(live.actionable_note),
{
    CurrentSentiment {
        date: live.date,
        bubble_score: live.bubble_score,
        bubble_confidence: live.bubble_confidence,
        position: live.position,
        recommendation: live.recommendation.as_str().to_owned(),
        risk_level: live.risk_level.as_str().to_owned(),
        median_predicted_peak: live.median_predicted_peak,
        mode_note: ModeNote::Live(live.actionable_note),
    }
}

fn sentiment_of_prediction(p: &FutureBubblePrediction, cfg: &BacktestConfig) -> (s:
    CurrentSentiment)
    ensures
        s.date == p.analysis_date,
        s.bubble_score == (Real { bits: ZERO }),
        s.bubble_confidence == p.bubble_confidence_index,
        s.position == (Real { bits: ZERO }),
        s.recommendation@ == prediction_recommendation(*p, *cfg),
        s.risk_level@ == p.risk_level@,
        s.median_predicted_peak == p.median_predicted_date,
        s.mode_note == (ModeNote::Prediction {
            median: p.median_predicted_date,
            confidence: p.bubble_confidence_index,
        }),
{
    let level = p.risk_level.as_str();
    let recommendation = if cfg.confidence_flat_threshold.lt(p.bubble_confidence_index) {
        "HOLD / FLAT (high C1 bubble risk from prediction)"
    } else if contains_text(level, "CRITICAL") || contains_text(level, "HIGH") {
        "CAUTION / MONITOR (elevated future bubble probability)"
    } else {
        "NEUTRAL (no strong future tc cluster)"
    };
    CurrentSentiment {
        date: p.analysis_date,
        bubble_score: Real { bits: ZERO },
        bubble_confidence: p.bubble_confidence_index,
        position: Real { bits: ZERO },
        recommendation: recommendation.to_owned(),
        risk_level: p.risk_level.as_str().to_owned(),
        median_predicted_peak: p.median_predicted_date,
        mode_note: ModeNote::Prediction {
            median: p.median_predicted_date,
            confidence: p.bubble_confidence_index,
        },
    }
}

} // verus!
