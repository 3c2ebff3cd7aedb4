//! The command line: what its options ask for.

use crate::binary64::{Real, ONE_BITS};
use crate::config::{BacktestConfig, PositionBias, RunMode, SignalMode};
use crate::constants::{SEVEN_TENTHS, THREE_TENTHS};
use crate::dates;
use crate::dates::Date;
use crate::form;
use crate::form::{read_bias, read_mode, read_seeds, read_signal_mode};
use crate::prediction;
use crate::prediction::analysis_sweep;
use vstd::prelude::*;

verus! {

/// The options that make a configuration.
#[derive(Clone, Debug)]
pub struct RunOptions {
    pub window: usize,
    pub window_stride: usize,
    /// `paper` or `fast`.
    pub signal_mode: String,
    pub refit_every: usize,
    pub long_thresh: Real,
    pub short_thresh: Real,
    pub cost_bps: Real,
    /// `historical`, `prediction`, `live` or `hybrid`.
    pub mode: String,
    /// Seeds, separated by commas.
    pub ensemble_seeds: String,
    pub predict_horizon: usize,
    /// `longshort`, `longonly` or `shortonly`.
    pub position_bias: String,
    pub invert: bool,
    pub enable_bubble_analysis: bool,
    pub use_conf_flat: bool,
    pub conf_flat_thresh: Real,
    pub filter_m_min: Real,
    pub filter_m_max: Real,
    pub filter_omega_min: Real,
    pub filter_omega_max: Real,
}

/// `c` is the configuration that the options ask for; what they do not name is at its
/// default.
pub open spec fn follows_options(c: BacktestConfig, o: RunOptions) -> bool {
    &&& c.lookback_days == o.window
    &&& c.window_stride == o.window_stride
    &&& c.signal_mode == if o.signal_mode@ == "fast"@ {
        SignalMode::Fast
    } else {
        SignalMode::Paper
    }
    &&& c.refit_every == o.refit_every
    &&& c.long_threshold == o.long_thresh
    &&& c.short_threshold == o.short_thresh
    &&& c.cost_bps == o.cost_bps
    &&& c.run_mode == form::mode_of_word(o.mode@)
    &&& c.ensemble_seeds@ == form::seeds_of_text(o.ensemble_seeds@)
    &&& c.predict_horizon_days == o.predict_horizon
    &&& c.position_bias == if o.position_bias@ == "longonly"@ {
        PositionBias::LongOnly
    } else if o.position_bias@ == "shortonly"@ {
        PositionBias::ShortOnly
    } else {
        PositionBias::LongShort
    }
    &&& c.invert_signal == o.invert
    &&& c.enable_bubble_analysis == o.enable_bubble_analysis
    &&& c.use_confidence_for_flat == o.use_conf_flat
    &&& c.confidence_flat_threshold == o.conf_flat_thresh
    &&& c.filter_m_min == o.filter_m_min
    &&& c.filter_m_max == o.filter_m_max
    &&& c.filter_omega_min == o.filter_omega_min
    &&& c.filter_omega_max == o.filter_omega_max
    &&& c.alpha1_hype == (Real { bits: SEVEN_TENTHS })
    &&& c.alpha2_sentiment == (Real { bits: THREE_TENTHS })
    &&& c.lppl_random_starts == 1200
    &&& c.max_position == (Real { bits: ONE_BITS })
    &&& c.random_seed == 42
    &&& c.analysis_lookback_min == 60
    &&& c.analysis_lookback_max == 260
    &&& c.analysis_step_days == 5
    &&& c.filter_require_b_negative
    &&& c.filter_min_tc_offset_days == 3
    &&& !c.use_confidence_for_sizing
}

/// The configuration that the options ask for.
pub fn config_of(o: &RunOptions) -> (r: BacktestConfig)
    ensures
        follows_options(r, *o),
{
    let mut c = BacktestConfig::default();
    c.lookback_days = o.window;
    c.window_stride = o.window_stride;
    c.signal_mode = read_signal_mode(o.signal_mode.as_str());
    c.refit_every = o.refit_every;
    c.long_threshold = o.long_thresh;
    c.short_threshold = o.short_thresh;
    c.cost_bps = o.cost_bps;
    c.run_mode = read_mode(o.mode.as_str());
    c.ensemble_seeds = read_seeds(o.ensemble_seeds.as_str());
    c.predict_horizon_days = o.predict_horizon;
    c.position_bias = read_bias(o.position_bias.as_str());
    c.invert_signal = o.invert;
    c.enable_bubble_analysis = o.enable_bubble_analysis;
    c.use_confidence_for_flat = o.use_conf_flat;
    c.confidence_flat_threshold = o.conf_flat_thresh;
    c.filter_m_min = o.filter_m_min;
    c.filter_m_max = o.filter_m_max;
    c.filter_omega_min = o.filter_omega_min;
    c.filter_omega_max = o.filter_omega_max;
    c
}

/// What keeps a run with a configuration from being made at all: a paper window of no bars,
/// a fast signal that is never refitted, an analysis that does not move on, or settings
/// beyond the machine's range.
#[derive(Clone, Copy, Debug, PartialEq, Eq, Structural)]
pub enum RunFault {
    EmptyWindow,
    NoRefit,
    NoStep,
    TooLarge,
}

/// The configured mode holds a backtest.
pub open spec fn backtests(c: BacktestConfig) -> bool {
    c.run_mode == RunMode::HistoricalBacktest || c.run_mode == RunMode::HybridAnalysis
}

/// A run in the configured mode walks through `n` bars.
pub open spec fn walks(c: BacktestConfig, n: nat) -> bool {
    backtests(c) && n >= c.lookback_days + 30
}

/// A run in the configured mode over `n` bars builds the paper signal: for the days of a
/// walk, or for a snapshot of the last bar.
pub open spec fn builds_paper_signal(c: BacktestConfig, n: nat) -> bool {
    c.signal_mode == SignalMode::Paper && (walks(c, n) || c.run_mode
        == RunMode::LiveCurrentSentiment && n >= 30)
}

/// A run in the configured mode over `n` bars sweeps windows for a bubble confidence: in a
/// walk only where that is wanted, and nowhere without enough bars for the longest window.
pub open spec fn sweeps(c: BacktestConfig, n: nat) -> bool {
    &&& n > 0
    &&& prediction::sweep_at(c, n - 1).fault(n) is None
    &&& match c.run_mode {
        RunMode::HistoricalBacktest => c.enable_bubble_analysis && walks(c, n),
        _ => true,
    }
}

/// The first thing that keeps a run in the configured mode over `n` bars from being made.
pub open spec fn run_fault(c: BacktestConfig, n: nat) -> Option<RunFault> {
    if builds_paper_signal(c, n) && c.lookback_days == 0 {
        Some(RunFault::EmptyWindow)
    } else if c.signal_mode == SignalMode::Fast && walks(c, n) && c.refit_every == 0 {
        Some(RunFault::NoRefit)
    } else if sweeps(c, n) && c.analysis_step_days == 0 {
        Some(RunFault::NoStep)
    } else if backtests(c) && c.lookback_days > usize::MAX - 30 || builds_paper_signal(c, n) && n
        + c.window_stride + 1 > usize::MAX || sweeps(c, n) && n + c.analysis_step_days
        > usize::MAX {
        Some(RunFault::TooLarge)
    } else {
        None
    }
}

/// The first thing that keeps a run in the configured mode over `n` bars from being made.
pub fn check_run(c: &BacktestConfig, n: usize) -> (r: Option<RunFault>)
    ensures
        r == run_fault(*c, n as nat),
{
    let paper = match c.signal_mode {
        SignalMode::Paper => true,
        SignalMode::Fast => false,
    };
    let backtests = match c.run_mode {
        RunMode::HistoricalBacktest | RunMode::HybridAnalysis => true,
        _ => false,
    };
    let live = match c.run_mode {
        RunMode::LiveCurrentSentiment => true,
        _ => false,
    };
    let walks = backtests && n >= 30 && n - 30 >= c.lookback_days;
    let signal = paper && (walks || live && n >= 30);
    let wanted = match c.run_mode {
        RunMode::HistoricalBacktest => c.enable_bubble_analysis && walks,
        _ => true,
    };
    let sweeps = n > 0 && wanted && analysis_sweep(c, n - 1).check(n).is_none();
    if signal && c.lookback_days == 0 {
        Some(RunFault::EmptyWindow)
    } else if !paper && walks && c.refit_every == 0 {
        Some(RunFault::NoRefit)
    } else if sweeps && c.analysis_step_days == 0 {
        Some(RunFault::NoStep)
    } else if backtests && c.lookback_days > usize::MAX - 30 || signal && (c.window_stride
        == usize::MAX || n > usize::MAX - c.window_stride - 1) || sweeps && n > usize::MAX
        - c.analysis_step_days {
        Some(RunFault::TooLarge)
    } else {
        None
    }
}

/// Law: where nothing keeps a run from being made, the windows, the refits and the sweeps
/// that it makes are in order, those of a walk at each of its bars.
pub proof fn law_checked_runs_are_possible(c: BacktestConfig, n: nat, i: int)
    requires
        run_fault(c, n) is None,
        n <= usize::MAX,
        0 <= i < n,
    ensures
        builds_paper_signal(c, n) ==> crate::hlppl_signals::windows_ok(c, n),
        c.signal_mode == SignalMode::Fast && walks(c, n) ==> c.refit_every > 0,
        sweeps(c, n) ==> prediction::sweep_at(c, i).wf(),
        c.run_mode == RunMode::HistoricalBacktest && c.enable_bubble_analysis && walks(c, n) && (
        prediction::sweep_at(c, i).fault(n) is None) ==> sweeps(c, n),
        backtests(c) ==> c.lookback_days + 30 <= usize::MAX,
{
}

/// The dates of the command line.
pub fn read_dates(start: &str, end: &str) -> (r: Option<(Date, Date)>)
    ensures
        r == match (dates::day_of_text(start@), dates::day_of_text(end@)) {
            (Some(a), Some(b)) => Some((Date { epoch_day: a }, Date { epoch_day: b })),
            _ => None,
        },
        r matches Some((a, b)) ==> a.valid() && b.valid(),
{
    match (Date::parse(start), Date::parse(end)) {
        (Some(a), Some(b)) => Some((a, b)),
        _ => None,
    }
}

} // verus!
