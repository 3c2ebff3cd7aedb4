//! Bubble prediction at the end of the data, and a snapshot for a decision there.

use crate::backtest;
use crate::backtest::{
    apply_confidence, complete_backtest, position_for_score, BacktestError, BacktestResult,
    WalkInput, WalkSignals,
};
use crate::binary64::{Real, ONE_BITS};
use crate::bubble_score;
use crate::bubble_score::{compute_bubble_score, normalize_last_residual_running_style};
use crate::confidence;
use crate::confidence::{
    compute_bubble_confidence_ensemble, AnalysisError, EnsembleAnalysis, Sweep,
};
use crate::config::{BacktestConfig, RunMode, SignalMode};
use crate::constants::{FORTY_FIVE, HALF, MINUS_HALF, ZERO};
use crate::data::PriceBar;
use crate::dates::Date;
use crate::hlppl_signals;
use crate::hlppl_signals::{build_signal_series, sentiment_at, FitRequest, HYPE_WINDOW};
use crate::lppl::LpplParams;
use crate::order;
use vstd::prelude::*;
use vstd::string::*;

verus! {

/// What the end of the data says of a bubble to come.
#[derive(Clone, Debug)]
pub struct FutureBubblePrediction {
    pub ticker: String,
    pub analysis_date: Date,
    pub current_price: Real,
    pub total_windows_tested: usize,
    pub valid_fits: usize,
    /// Mean over the seeds, in per cent.
    pub bubble_confidence_index: Real,
    pub risk_level: String,
    pub risk_description: String,
    pub predicted_critical_dates: Vec<Date>,
    pub median_predicted_date: Option<Date>,
    /// Days from the analysis to the median critical date.
    pub median_days_to_tc: Option<i64>,
    /// Share of the critical dates within the horizon.
    pub prob_tc_within_horizon: Real,
    pub ensemble_seeds_used: Vec<u64>,
    pub ensemble_mean_confidence: Real,
    pub ensemble_std_confidence: Real,
    /// First day of the window and critical date, for fits of the first seed.
    pub sample_valid_fits: Vec<(Date, Date)>,
}

/// Why there is no prediction.
#[derive(Clone, Copy, Debug, PartialEq, Eq, Structural)]
pub enum PredictionError {
    NoBars,
    Analysis(AnalysisError),
    /// The backtest of a hybrid run could not be made.
    Backtest(BacktestError),
}

impl PredictionError {
    pub open spec fn text(self, ticker: Seq<char>) -> Seq<char> {
        match self {
            PredictionError::NoBars => "No bars for prediction"@,
            PredictionError::Analysis(e) => e.text(),
            PredictionError::Backtest(e) => e.text(ticker),
        }
    }

    pub fn message(&self, ticker: &str) -> (r: String)
        ensures
            r@ == self.text(ticker@),
    {
        match self {
            PredictionError::NoBars => "No bars for prediction".to_owned(),
            PredictionError::Analysis(e) => e.message().to_owned(),
            PredictionError::Backtest(e) => e.message(ticker),
        }
    }
}

/// The sweep of a run's confidence analysis at bar `i`.
pub open spec fn sweep_at(cfg: BacktestConfig, i: int) -> Sweep {
    Sweep {
        current_idx: i as usize,
        lookback_min: cfg.analysis_lookback_min,
        lookback_max: cfg.analysis_lookback_max,
        step_days: cfg.analysis_step_days,
    }
}

/// The sweep of a run's confidence analysis at bar `i`.
pub fn analysis_sweep(cfg: &BacktestConfig, i: usize) -> (r: Sweep)
    ensures
        r == sweep_at(*cfg, i as int),
{
    Sweep {
        current_idx: i,
        lookback_min: cfg.analysis_lookback_min,
        lookback_max: cfg.analysis_lookback_max,
        step_days: cfg.analysis_step_days,
    }
}

/// `fits` holds, for each seed, a fit or none for each window of the sweep.
pub open spec fn fits_match(
    sweep: Sweep,
    n: nat,
    fits: Seq<Vec<Option<LpplParams>>>,
) -> bool {
    &&& fits.len() > 0
    &&& sweep.fault(n) is None ==> sweep.wf() && forall|k: int|
        0 <= k < fits.len() ==> (#[trigger] fits[k])@.len() == sweep.count()
}

/// The run's confidence analysis at bar `i`. `fits` holds, for each seed of
/// [`BacktestConfig::seeds`], the fits of the sweep's windows.
pub fn analyse_bar(
    bars: &Vec<PriceBar>,
    cfg: &BacktestConfig,
    i: usize,
    fits: &Vec<Vec<Option<LpplParams>>>,
) -> (r: Result<EnsembleAnalysis, AnalysisError>)
    requires
        fits_match(sweep_at(*cfg, i as int), bars@.len(), fits@),
    ensures
        r is Ok <==> sweep_at(*cfg, i as int).fault(bars@.len()) is None,
        r matches Err(e) ==> sweep_at(*cfg, i as int).fault(bars@.len()) == Some(e),
        r matches Ok(e) ==> confidence::is_ensemble(
            e,
            bars@,
            sweep_at(*cfg, i as int),
            cfg.filter(),
            fits@,
        ),
{
    compute_bubble_confidence_ensemble(
        bars,
        i,
        cfg.analysis_lookback_min,
        cfg.analysis_lookback_max,
        cfg.analysis_step_days,
        &cfg.lppl_filter_config(),
        fits,
    )
}

/// The mean confidence at bar `i`, where the analysis can be made: what a backtest takes
/// for the day.
pub fn confidence_at(
    bars: &Vec<PriceBar>,
    cfg: &BacktestConfig,
    i: usize,
    fits: &Vec<Vec<Option<LpplParams>>>,
) -> (r: Option<Real>)
    requires
        fits_match(sweep_at(*cfg, i as int), bars@.len(), fits@),
    ensures
        r is Some <==> sweep_at(*cfg, i as int).fault(bars@.len()) is None,
        r matches Some(c) ==> exists|e: EnsembleAnalysis|
            #[trigger] confidence::is_ensemble(
                e,
                bars@,
                sweep_at(*cfg, i as int),
                cfg.filter(),
                fits@,
            ) && c == e.mean_confidence,
{
    match analyse_bar(bars, cfg, i, fits) {
        Ok(e) => {
            assert(confidence::is_ensemble(
                e,
                bars@,
                sweep_at(*cfg, i as int),
                cfg.filter(),
                fits@,
            ));
            Some(e.mean_confidence)
        },
        Err(_) => None,
    }
}

/// A date after `from`, and no more than `horizon` days after it.
pub open spec fn within_horizon(date: Date, from: Date, horizon: i64) -> bool {
    0 < date.epoch_day - from.epoch_day <= horizon
}

/// How many dates lie within the horizon.
pub open spec fn near_dates(dates: Seq<Date>, from: Date, horizon: i64) -> nat {
    dates.filter(|d: Date| within_horizon(d, from, horizon)).len()
}

/// Share of the dates within the horizon; 0 without dates.
pub open spec fn near_share(dates: Seq<Date>, from: Date, horizon: i64) -> Real {
    if dates.len() == 0 {
        Real { bits: ZERO }
    } else {
        Real::of_integer(near_dates(dates, from, horizon) as int).over(
            Real::of_integer(dates.len() as int),
        )
    }
}

fn share_within(dates: &Vec<Date>, from: Date, horizon: i64) -> (r: Real)
    ensures
        r == near_share(dates@, from, horizon),
{
    let n: usize = dates.len();
    if n == 0 {
        return Real { bits: ZERO };
    }
    let mut count: usize = 0;
    let mut i: usize = 0;
    proof {
        reveal(Seq::filter);
        assert(dates@.take(0) =~= Seq::<Date>::empty());
    }
    while i < n
        invariant
            i <= n,
            n == dates@.len(),
            count <= i,
            count == near_dates(dates@.take(i as int), from, horizon),
        decreases n - i,
    {
        let days: i64 = dates[i].days_since(&from);
        proof {
            reveal(Seq::filter);
            assert(dates@.take(i as int + 1).drop_last() =~= dates@.take(i as int));
        }
        if 0 < days && days <= horizon {
            count = count + 1;
        }
        i = i + 1;
    }
    assert(dates@.take(i as int) =~= dates@);
    Real::from_usize(count).div(Real::from_usize(n))
}

/// Law: the share of critical dates within the horizon is a probability.
pub proof fn law_horizon_share_is_probability(dates: Seq<Date>, from: Date, horizon: i64)
    requires
        dates.len() <= u64::MAX,
    ensures
        (Real { bits: ZERO }).at_most(near_share(dates, from, horizon)),
        near_share(dates, from, horizon).at_most(Real { bits: ONE_BITS }),
{
    crate::binary64::lemma_zero();
    order::lemma_one();
    vstd::arithmetic::power2::lemma_pow2_pos(1074);
    if dates.len() > 0 {
        lemma_near_dates_bound(dates, from, horizon);
        order::lemma_integer_share(
            near_dates(dates, from, horizon) as int,
            dates.len() as int,
        );
        order::lemma_magnitude_order(near_share(dates, from, horizon).field(), ONE_BITS as nat);
    }
}

proof fn lemma_near_dates_bound(dates: Seq<Date>, from: Date, horizon: i64)
    ensures
        near_dates(dates, from, horizon) <= dates.len(),
    decreases dates.len(),
{
    reveal(Seq::filter);
    if dates.len() > 0 {
        lemma_near_dates_bound(dates.drop_last(), from, horizon);
    }
}

/// Days from the analysis to the median critical date.
pub open spec fn days_to_median(median: Option<Date>, from: Date) -> Option<i64> {
    match median {
        Some(d) => Some((d.epoch_day - from.epoch_day) as i64),
        None => None,
    }
}

fn count_to_median(median: Option<Date>, from: Date) -> (r: Option<i64>)
    ensures
        r == days_to_median(median, from),
{
    match median {
        Some(d) => Some(d.days_since(&from)),
        None => None,
    }
}

/// `p` is the prediction that an ensemble analysis makes.
pub open spec fn is_prediction(
    p: FutureBubblePrediction,
    ticker: Seq<char>,
    cfg: BacktestConfig,
    e: EnsembleAnalysis,
) -> bool {
    let a = e.combined;
    &&& p.ticker@ == ticker
    &&& p.analysis_date == a.analysis_date
    &&& p.current_price == a.current_price
    &&& p.total_windows_tested == a.total_windows_tested
    &&& p.valid_fits == a.valid_fits
    &&& p.bubble_confidence_index == e.mean_confidence
    &&& p.risk_level@ == a.risk_level@
    &&& p.risk_description@ == confidence::description_of(a.risk_level@)
    &&& p.predicted_critical_dates@ == a.predicted_critical_dates@
    &&& p.median_predicted_date == a.median_predicted_date
    &&& p.median_days_to_tc == days_to_median(a.median_predicted_date, a.analysis_date)
    &&& p.prob_tc_within_horizon == near_share(
        a.predicted_critical_dates@,
        a.analysis_date,
        cfg.predict_horizon_days as i64,
    )
    &&& p.ensemble_seeds_used@ == cfg.analysis_seeds()
    &&& p.ensemble_mean_confidence == e.mean_confidence
    &&& p.ensemble_std_confidence == e.std_confidence
    &&& p.sample_valid_fits@ == a.valid_fit_details@
}

/// The prediction that an ensemble analysis makes.
pub fn prediction_of(ticker: &str, cfg: &BacktestConfig, e: EnsembleAnalysis) -> (r:
    FutureBubblePrediction)
    ensures
        is_prediction(r, ticker@, *cfg, e),
{
    let mean = e.mean_confidence;
    let deviation = e.std_confidence;
    let a = e.combined;
    let description = a.risk_description().to_owned();
    let days: Option<i64> = count_to_median(a.median_predicted_date, a.analysis_date);
    let horizon: i64 = cfg.predict_horizon_days as i64;
    let share = share_within(&a.predicted_critical_dates, a.analysis_date, horizon);
    FutureBubblePrediction {
        ticker: ticker.to_owned(),
        analysis_date: a.analysis_date,
        current_price: a.current_price,
        total_windows_tested: a.total_windows_tested,
        valid_fits: a.valid_fits,
        bubble_confidence_index: mean,
        risk_level: a.risk_level,
        risk_description: description,
        predicted_critical_dates: a.predicted_critical_dates,
        median_predicted_date: a.median_predicted_date,
        median_days_to_tc: days,
        prob_tc_within_horizon: share,
        ensemble_seeds_used: cfg.seeds(),
        ensemble_mean_confidence: mean,
        ensemble_std_confidence: deviation,
        sample_valid_fits: a.valid_fit_details,
    }
}

/// What is wrong with a prediction over `n` bars, the backtest of a hybrid run included.
pub open spec fn prediction_fault(cfg: BacktestConfig, n: nat) -> Option<PredictionError> {
    if n == 0 {
        Some(PredictionError::NoBars)
    } else {
        match sweep_at(cfg, n - 1).fault(n) {
            Some(e) => Some(PredictionError::Analysis(e)),
            None => if cfg.run_mode == RunMode::HybridAnalysis && n < cfg.lookback_days + 30 {
                Some(
                    PredictionError::Backtest(
                        BacktestError::NotEnoughData {
                            have: n as usize,
                            need: (cfg.lookback_days + 30) as usize,
                        },
                    ),
                )
            } else {
                None
            },
        }
    }
}

/// A hybrid run over the bars has the signals of its walk at hand as soon as it comes to
/// walk.
pub open spec fn walk_ready(
    bars: Vec<PriceBar>,
    cfg: BacktestConfig,
    walk: Option<WalkSignals>,
) -> bool {
    let n = bars@.len();
    cfg.run_mode == RunMode::HybridAnalysis && n > 0 && sweep_at(cfg, n - 1).fault(n) is None
        ==> {
        &&& cfg.lookback_days + 30 <= usize::MAX
        &&& n >= cfg.lookback_days + 30 ==> (walk matches Some(w) && (WalkInput {
            bars: &bars,
            cfg: &cfg,
            points: &w.points,
            confidences: &w.confidences,
        }).complete())
    }
}

/// `p` is the prediction at the last of the bars.
pub open spec fn predicts(
    p: FutureBubblePrediction,
    ticker: Seq<char>,
    bars: Seq<PriceBar>,
    cfg: BacktestConfig,
    fits: Seq<Vec<Option<LpplParams>>>,
) -> bool {
    exists|e: EnsembleAnalysis|
        #[trigger] confidence::is_ensemble(
            e,
            bars,
            sweep_at(cfg, bars.len() - 1),
            cfg.filter(),
            fits,
        ) && is_prediction(p, ticker, cfg, e)
}

/// `backtest` is what a prediction run keeps beside the prediction: in hybrid mode the walk
/// through the same bars under the same settings, otherwise nothing.
pub open spec fn goes_with(
    backtest: Option<BacktestResult>,
    ticker: Seq<char>,
    bars: Vec<PriceBar>,
    cfg: BacktestConfig,
    walk: Option<WalkSignals>,
) -> bool {
    &&& backtest is Some <==> cfg.run_mode == RunMode::HybridAnalysis
    &&& backtest matches Some(result) ==> {
        &&& result.equity@.len() == result.signals@.len() + 1
        &&& walk matches Some(w) && backtest::is_backtest(
            result,
            ticker,
            (WalkInput {
                bars: &bars,
                cfg: &cfg,
                points: &w.points,
                confidences: &w.confidences,
            }),
            w.annual_growth,
        )
    }
}

/// The bubble prediction at the last bar, and in hybrid mode the backtest of all bars.
/// `fits` holds, for each seed of [`BacktestConfig::seeds`], the fits of the windows of
/// [`analysis_sweep`]; `walk` the signals of a backtest, where one is made.
pub fn run_future_bubble_prediction(
    ticker: &str,
    bars: &Vec<PriceBar>,
    cfg: &BacktestConfig,
    fits: &Vec<Vec<Option<LpplParams>>>,
    walk: &Option<WalkSignals>,
) -> (r: Result<(FutureBubblePrediction, Option<BacktestResult>), PredictionError>)
    requires
        bars@.len() > 0 ==> fits_match(sweep_at(*cfg, bars@.len() - 1), bars@.len(), fits@),
        walk_ready(*bars, *cfg, *walk),
    ensures
        r is Ok <==> prediction_fault(*cfg, bars@.len()) is None,
        r matches Err(e) ==> prediction_fault(*cfg, bars@.len()) == Some(e),
        r matches Ok((p, backtest)) ==> predicts(p, ticker@, bars@, *cfg, fits@) && goes_with(
            backtest,
            ticker@,
            *bars,
            *cfg,
            *walk,
        ),
{
    let n: usize = bars.len();
    if n == 0 {
        return Err(PredictionError::NoBars);
    }
    let p = match analyse_bar(bars, cfg, n - 1, fits) {
        Ok(e) => {
            assert(confidence::is_ensemble(
                e,
                bars@,
                sweep_at(*cfg, bars@.len() - 1),
                cfg.filter(),
                fits@,
            ));
            prediction_of(ticker, cfg, e)
        },
        Err(e) => {
            return Err(PredictionError::Analysis(e));
        },
    };
    if !wants_backtest(cfg) {
        return Ok((p, None));
    }
    match walk {
        Some(w) => match complete_backtest(ticker, bars, cfg, w) {
            Ok(result) => Ok((p, Some(result))),
            Err(e) => Err(PredictionError::Backtest(e)),
        },
        None => Err(
            PredictionError::Backtest(
                BacktestError::NotEnoughData { have: n, need: cfg.lookback_days + 30 },
            ),
        ),
    }
}

/// Whether a prediction run makes a backtest as well.
pub fn wants_backtest(cfg: &BacktestConfig) -> (r: bool)
    ensures
        r == (cfg.run_mode == RunMode::HybridAnalysis),
{
    match cfg.run_mode {
        RunMode::HybridAnalysis => true,
        _ => false,
    }
}

/// A remark on the confidence of a snapshot.
#[derive(Clone, Copy, Debug, PartialEq, Eq, Structural)]
pub enum LiveNote {
    /// Above the configured threshold.
    HighConfidence(Real),
    /// Above 45 per cent.
    Elevated(Real),
    Normal,
}

/// What a decision at the latest bar is made from.
#[derive(Clone, Debug)]
pub struct LiveSentimentSnapshot {
    pub ticker: String,
    pub date: Date,
    pub current_price: Real,
    pub bubble_score: Real,
    /// Mean over the seeds, in per cent.
    pub bubble_confidence: Real,
    pub risk_level: String,
    /// The position that the strategy would take.
    pub position: Real,
    pub recommendation: String,
    pub actionable_note: LiveNote,
    pub median_predicted_peak: Option<Date>,
    pub median_days_to_tc: Option<i64>,
}

/// Why there is no snapshot.
#[derive(Clone, Copy, Debug, PartialEq, Eq, Structural)]
pub enum LiveError {
    TooFewBars,
    Analysis(AnalysisError),
}

impl LiveError {
    pub open spec fn text(self) -> Seq<char> {
        match self {
            LiveError::TooFewBars => "insufficient bars for live sentiment"@,
            LiveError::Analysis(e) => e.text(),
        }
    }

    pub fn message(&self) -> (r: &'static str)
        ensures
            r@ == self.text(),
    {
        match self {
            LiveError::TooFewBars => "insufficient bars for live sentiment",
            LiveError::Analysis(e) => e.message(),
        }
    }
}

/// The recommendation for a position.
pub open spec fn live_recommendation(position: Real) -> Seq<char> {
    if (Real { bits: HALF }).below(position) {
        "BUY / GO LONG (positive bubble score / momentum)"@
    } else if position.below(Real { bits: MINUS_HALF }) {
        "SELL / GO SHORT (negative score / overextension or momentum down)"@
    } else {
        "HOLD / FLAT"@
    }
}

/// The remark on a confidence.
pub open spec fn note_of(confidence: Real, cfg: BacktestConfig) -> LiveNote {
    if cfg.confidence_flat_threshold.below(confidence) {
        LiveNote::HighConfidence(confidence)
    } else if (Real { bits: FORTY_FIVE }).below(confidence) {
        LiveNote::Elevated(confidence)
    } else {
        LiveNote::Normal
    }
}

/// `s` is the snapshot that a score and an ensemble analysis make.
pub open spec fn is_snapshot(
    s: LiveSentimentSnapshot,
    ticker: Seq<char>,
    cfg: BacktestConfig,
    score: Real,
    e: EnsembleAnalysis,
) -> bool {
    &&& s.ticker@ == ticker
    &&& s.date == e.combined.analysis_date
    &&& s.current_price == e.combined.current_price
    &&& s.bubble_score == score
    &&& s.bubble_confidence == e.mean_confidence
    &&& s.risk_level@ == e.combined.risk_level@
    &&& s.position == backtest::target_position(score, Some(e.mean_confidence), cfg)
    &&& s.recommendation@ == live_recommendation(s.position)
    &&& s.actionable_note == note_of(e.mean_confidence, cfg)
    &&& s.median_predicted_peak == e.combined.median_predicted_date
    &&& s.median_days_to_tc == days_to_median(
        e.combined.median_predicted_date,
        e.combined.analysis_date,
    )
}

/// The snapshot that a score and an ensemble analysis make.
pub fn snapshot_of(ticker: &str, cfg: &BacktestConfig, score: Real, e: EnsembleAnalysis) -> (r:
    LiveSentimentSnapshot)
    ensures
        is_snapshot(r, ticker@, *cfg, score, e),
{
    let mean = e.mean_confidence;
    let a = e.combined;
    let position = apply_confidence(position_for_score(score, cfg), mean, cfg);
    let half = Real { bits: HALF };
    let recommendation = if half.lt(position) {
        "BUY / GO LONG (positive bubble score / momentum)".to_owned()
    } else if position.lt(Real { bits: MINUS_HALF }) {
        "SELL / GO SHORT (negative score / overextension or momentum down)".to_owned()
    } else {
        "HOLD / FLAT".to_owned()
    };
    let elevated = Real { bits: FORTY_FIVE };
    let note = if cfg.confidence_flat_threshold.lt(mean) {
        LiveNote::HighConfidence(mean)
    } else if elevated.lt(mean) {
        LiveNote::Elevated(mean)
    } else {
        LiveNote::Normal
    };
    let days: Option<i64> = count_to_median(a.median_predicted_date, a.analysis_date);
    LiveSentimentSnapshot {
        ticker: ticker.to_owned(),
        date: a.analysis_date,
        current_price: a.current_price,
        bubble_score: score,
        bubble_confidence: mean,
        risk_level: a.risk_level,
        position,
        recommendation,
        actionable_note: note,
        median_predicted_peak: a.median_predicted_date,
        median_days_to_tc: days,
    }
}

/// What is wrong with a snapshot over `n` bars.
pub open spec fn live_fault(cfg: BacktestConfig, n: nat) -> Option<LiveError> {
    if n < 30 {
        Some(LiveError::TooFewBars)
    } else {
        match sweep_at(cfg, n - 1).fault(n) {
            Some(e) => Some(LiveError::Analysis(e)),
            None => None,
        }
    }
}

/// The one fit that the score of the last of `n` bars rests on in fast mode: a window of
/// `lookback_days` bars, or of all but the first.
pub fn live_fit_request(cfg: &BacktestConfig, n: usize) -> (r: FitRequest)
    requires
        n > 0,
    ensures
        r.end == n,
        r.start == n - if cfg.lookback_days < n - 1 {
            cfg.lookback_days as int
        } else {
            n - 1
        },
        r.seed == cfg.random_seed,
{
    let w: usize = if cfg.lookback_days < n - 1 {
        cfg.lookback_days
    } else {
        n - 1
    };
    FitRequest { start: n - w, end: n, seed: cfg.random_seed }
}

/// The score of the last bar in fast mode; 0 where its window could not be fitted.
pub open spec fn fast_live_score(
    bars: Seq<PriceBar>,
    cfg: BacktestConfig,
    residuals: Option<Vec<Real>>,
    hype_volume: Real,
) -> Real {
    match residuals {
        Some(r) => bubble_score::score(
            bubble_score::last_share(r@),
            hype_volume,
            hlppl_signals::bar_mood(bars, bars.len() - 1),
            cfg.alpha1_hype,
            cfg.alpha2_sentiment,
        ),
        None => Real { bits: ZERO },
    }
}

/// The score of the last bar in fast mode, from the residuals of the fit that
/// [`live_fit_request`] asks for and the hype of that bar.
pub fn live_score_fast(
    bars: &Vec<PriceBar>,
    cfg: &BacktestConfig,
    residuals: &Option<Vec<Real>>,
    hype_volume: Real,
) -> (r: Real)
    requires
        bars@.len() > 0,
    ensures
        r == fast_live_score(bars@, *cfg, *residuals, hype_volume),
{
    match residuals {
        Some(r) => {
            let eps = normalize_last_residual_running_style(r);
            let mood = sentiment_at(bars, bars.len() - 1, HYPE_WINDOW);
            compute_bubble_score(eps, hype_volume, mood, cfg.alpha1_hype, cfg.alpha2_sentiment)
        },
        None => Real { bits: ZERO },
    }
}

/// The score of the last bar in paper mode; 0 without a series.
pub fn live_score_paper(series: &Option<hlppl_signals::HlpplSignalSeries>) -> (r: Real)
    ensures
        r == match series {
            Some(s) => if s.bubble_score@.len() > 0 {
                s.bubble_score@.last()
            } else {
                Real { bits: ZERO }
            },
            None => Real { bits: ZERO },
        },
{
    match series {
        Some(s) => if s.bubble_score.len() > 0 {
            s.bubble_score[s.bubble_score.len() - 1]
        } else {
            Real { bits: ZERO }
        },
        None => Real { bits: ZERO },
    }
}

/// What the score of the last bar rests on.
#[derive(Clone, Debug)]
pub enum LiveReply {
    /// The residuals of the fits that [`crate::hlppl_signals::paper_windows`] asks for, and
    /// the hype of each bar.
    Paper { fits: Vec<Option<Vec<Real>>>, hype: Vec<Real> },
    /// The residuals of the fit that [`live_fit_request`] asks for, and the hype of the last
    /// bar.
    Fast { residuals: Option<Vec<Real>>, hype: Real },
}

/// The reply is that of the configured signal, and covers `n` bars.
pub open spec fn reply_ready(reply: LiveReply, cfg: BacktestConfig, n: nat) -> bool {
    match (cfg.signal_mode, reply) {
        (SignalMode::Paper, LiveReply::Paper { fits, hype }) => {
            &&& hlppl_signals::windows_ok(cfg, n)
            &&& n >= cfg.lookback_days ==> fits@.len() == hlppl_signals::window_count(
                cfg,
                n as int,
            ) && hype@.len() == n
        },
        (SignalMode::Fast, LiveReply::Fast { residuals, hype }) => true,
        _ => false,
    }
}

/// The score of the last bar: in paper mode that of the signal series, 0 where there are
/// too few bars for one; in fast mode that of the last window.
pub open spec fn live_score_of(
    bars: Seq<PriceBar>,
    cfg: BacktestConfig,
    reply: LiveReply,
) -> Real {
    match reply {
        LiveReply::Paper { fits, hype } => if bars.len() >= cfg.lookback_days {
            hlppl_signals::paper_score(
                bars,
                cfg,
                Seq::new(bars.len(), |i: int| hlppl_signals::mean_residual(cfg, fits@, i)),
                hype@,
                bars.len() - 1,
            )
        } else {
            Real { bits: ZERO }
        },
        LiveReply::Fast { residuals, hype } => fast_live_score(bars, cfg, residuals, hype),
    }
}

/// The score of the last bar.
pub fn live_score(bars: &Vec<PriceBar>, cfg: &BacktestConfig, reply: LiveReply) -> (r: Real)
    requires
        bars@.len() > 0,
        reply_ready(reply, *cfg, bars@.len()),
    ensures
        r == live_score_of(bars@, *cfg, reply),
{
    match reply {
        LiveReply::Paper { fits, hype } => {
            let series = match build_signal_series(bars, cfg, &fits, hype) {
                Ok(s) => Some(s),
                Err(_) => None,
            };
            live_score_paper(&series)
        },
        LiveReply::Fast { residuals, hype } => live_score_fast(bars, cfg, &residuals, hype),
    }
}

/// `s` is the snapshot at the last of the bars.
pub open spec fn snapshots(
    s: LiveSentimentSnapshot,
    ticker: Seq<char>,
    bars: Seq<PriceBar>,
    cfg: BacktestConfig,
    score: Real,
    fits: Seq<Vec<Option<LpplParams>>>,
) -> bool {
    exists|e: EnsembleAnalysis|
        #[trigger] confidence::is_ensemble(
            e,
            bars,
            sweep_at(cfg, bars.len() - 1),
            cfg.filter(),
            fits,
        ) && is_snapshot(s, ticker, cfg, score, e)
}

/// The snapshot at the last bar. `reply` holds what its score rests on, `fits`, for each
/// seed of [`BacktestConfig::seeds`], the fits of the windows of [`analysis_sweep`].
pub fn compute_live_sentiment(
    ticker: &str,
    bars: &Vec<PriceBar>,
    cfg: &BacktestConfig,
    reply: LiveReply,
    fits: &Vec<Vec<Option<LpplParams>>>,
) -> (r: Result<LiveSentimentSnapshot, LiveError>)
    requires
        bars@.len() >= 30 ==> reply_ready(reply, *cfg, bars@.len()) && fits_match(
            sweep_at(*cfg, bars@.len() - 1),
            bars@.len(),
            fits@,
        ),
    ensures
        r is Ok <==> live_fault(*cfg, bars@.len()) is None,
        r matches Err(e) ==> live_fault(*cfg, bars@.len()) == Some(e),
        r matches Ok(s) ==> snapshots(
            s,
            ticker@,
            bars@,
            *cfg,
            live_score_of(bars@, *cfg, reply),
            fits@,
        ),
{
    if bars.len() < 30 {
        return Err(LiveError::TooFewBars);
    }
    let score = live_score(bars, cfg, reply);
    match analyse_bar(bars, cfg, bars.len() - 1, fits) {
        Ok(e) => {
            assert(confidence::is_ensemble(
                e,
                bars@,
                sweep_at(*cfg, bars@.len() - 1),
                cfg.filter(),
                fits@,
            ));
            Ok(snapshot_of(ticker, cfg, score, e))
        },
        Err(e) => Err(LiveError::Analysis(e)),
    }
}

/// Law: a snapshot never recommends buying a position that is not long, nor selling one
/// that is not short.
pub proof fn law_recommendation_follows_position(position: Real)
    ensures
        live_recommendation(position) == "BUY / GO LONG (positive bubble score / momentum)"@ ==>
            position.value() > 0,
        live_recommendation(position)
            == "SELL / GO SHORT (negative score / overextension or momentum down)"@ ==>
            position.value() < 0,
{
    reveal_strlit("BUY / GO LONG (positive bubble score / momentum)");
    reveal_strlit("SELL / GO SHORT (negative score / overextension or momentum down)");
    reveal_strlit("HOLD / FLAT");
    let buy = "BUY / GO LONG (positive bubble score / momentum)"@;
    let sell = "SELL / GO SHORT (negative score / overextension or momentum down)"@;
    let hold = "HOLD / FLAT"@;
    assert(buy.len() != sell.len() && buy.len() != hold.len() && sell.len() != hold.len());
    crate::binary64::lemma_field_order(0, HALF as nat);
    crate::binary64::lemma_zero();
    assert((Real { bits: MINUS_HALF }).field() == HALF);
}

/// Law: in paper mode the live snapshot is the last day of the backtest: the signal that is
/// validated over the past is the one that would be used now. Both rest on the same paper
/// signal of the bars, and take their confidence from the same fits of the analysis of the
/// last one.
#[verifier::rlimit(40)]
pub proof fn law_snapshot_is_last_day(
    s: LiveSentimentSnapshot,
    ticker: Seq<char>,
    input: WalkInput,
    series: hlppl_signals::HlpplSignalSeries,
    residuals: Vec<Option<Vec<Real>>>,
    hype: Vec<Real>,
    fits: Seq<Vec<Option<LpplParams>>>,
)
    requires
        input.complete(),
        input.days() > 0,
        input.cfg.enable_bubble_analysis,
        hype@.len() == input.bars@.len(),
        hlppl_signals::is_paper_series(series, input.bars@, *input.cfg, residuals@, hype@),
        input.points@ == Seq::new(
            input.days() as nat,
            |k: int| hlppl_signals::series_point(series, input.cfg.lookback_days + k),
        ),
        fits.len() > 0,
        input.confidences@.last() matches Some(c) && exists|e: EnsembleAnalysis|
            #[trigger] confidence::is_ensemble(
                e,
                input.bars@,
                sweep_at(*input.cfg, input.bars@.len() - 1),
                input.cfg.filter(),
                fits,
            ) && c == e.mean_confidence,
        snapshots(
            s,
            ticker,
            input.bars@,
            *input.cfg,
            live_score_of(
                input.bars@,
                *input.cfg,
                LiveReply::Paper { fits: residuals, hype },
            ),
            fits,
        ),
    ensures
        ({
            let last = input.signals().last();
            &&& s.date == last.date
            &&& s.current_price == last.close
            &&& s.bubble_score == last.bubble_score
            &&& s.bubble_confidence == last.bubble_confidence
            &&& s.position == last.position
        }),
{
    let n = input.bars@.len();
    assert(input.bars.len() == n);
    let sweep = sweep_at(*input.cfg, n - 1);
    let filter = input.cfg.filter();
    let score = live_score_of(
        input.bars@,
        *input.cfg,
        LiveReply::Paper { fits: residuals, hype },
    );
    assert(series.bubble_score@[n - 1] == score);
    let c = input.confidences@.last()->0;
    let e1 = choose|e: EnsembleAnalysis|
        #[trigger] confidence::is_ensemble(e, input.bars@, sweep, filter, fits) && c
            == e.mean_confidence;
    let e2 = choose|e: EnsembleAnalysis|
        #[trigger] confidence::is_ensemble(e, input.bars@, sweep, filter, fits) && is_snapshot(
            s,
            ticker,
            *input.cfg,
            score,
            e,
        );
    confidence::law_ensemble_is_reproducible(e1, e2, input.bars@, sweep, filter, fits);
    assert(confidence::is_analysis(e2.per_seed@[0], input.bars@, sweep, filter, fits[0]@));
    let k = input.days() - 1;
    assert(input.signals().last() == input.signal(k));
}

} // verus!
