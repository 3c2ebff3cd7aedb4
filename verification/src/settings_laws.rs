//! What the settings of a run come from, and what keeps it from being made.

use crate::binary64;
use crate::binary64::Real;
use crate::cli;
use crate::cli::{RunFault, RunOptions};
use crate::confidence::{AnalysisError, Sweep};
use crate::config::{BacktestConfig, PositionBias, RunMode, SignalMode};
use crate::constant_laws;
use crate::desktop;
use crate::desktop::Controls;
use crate::engine::{EngineError, HlpplEngine, ModePlan};
use crate::form;
use crate::form::{Form, FormNumbers};
use crate::lppl::LpplFitConfig;
use crate::order;
use crate::prediction;
use crate::text;
use vstd::prelude::*;

verus! {

/// Law: what a run takes where nothing was asked, in numbers.
pub proof fn law_defaults_in_numbers(c: BacktestConfig)
    requires
        c.is_default(),
    ensures
        c.lookback_days == 250 && c.refit_every == 25 && c.window_stride == 5,
        c.signal_mode == SignalMode::Paper && c.run_mode == RunMode::HistoricalBacktest,
        constant_laws::is_nearest(c.alpha1_hype, 7, 10),
        constant_laws::is_nearest(c.alpha2_sentiment, 3, 10),
        constant_laws::is_nearest(c.long_threshold, 55, 100),
        constant_laws::is_nearest(c.short_threshold, 55, 100),
        constant_laws::is_nearest(c.cost_bps, 12, 1),
        c.max_position.value() == binary64::one_in_units(),
        c.position_bias == PositionBias::LongShort && !c.invert_signal,
        c.random_seed == 42 && c.ensemble_seeds@.len() == 0 && c.lppl_random_starts == 1200,
        c.analysis_lookback_min == 60 && c.analysis_lookback_max == 260 && c.analysis_step_days
            == 5,
        constant_laws::is_nearest(c.filter_m_min, 1, 10),
        constant_laws::is_nearest(c.filter_m_max, 9, 10),
        constant_laws::is_nearest(c.filter_omega_min, 9, 2),
        constant_laws::is_nearest(c.filter_omega_max, 13, 1),
        c.filter_require_b_negative && c.filter_min_tc_offset_days == 3,
        constant_laws::is_nearest(c.confidence_flat_threshold, 50, 1),
        c.predict_horizon_days == 60,
        !c.enable_bubble_analysis && !c.use_confidence_for_flat && !c.use_confidence_for_sizing,
{
    constant_laws::law_constants_are_nearest();
    let x = c.long_threshold;
    lemma_same_ratio(x, 11, 20, 5);
    let y = c.short_threshold;
    lemma_same_ratio(y, 11, 20, 5);
}

/// Law: what the search of the published model looks through, in numbers; a run draws as
/// many starting points as it is configured to, and the rest is the published search.
pub proof fn law_published_search_in_numbers(c: BacktestConfig)
    ensures
        ({
            let s = LpplFitConfig::standard();
            &&& constant_laws::is_nearest(s.m_min, 1, 10)
            &&& constant_laws::is_nearest(s.m_max, 9, 10)
            &&& constant_laws::is_nearest(s.omega_min, 2, 1)
            &&& constant_laws::is_nearest(s.omega_max, 20, 1)
            &&& constant_laws::is_nearest(s.b_min, -1, 1)
            &&& constant_laws::is_nearest(s.b_max, -1, 100)
            &&& s.tc_future_min == 5 && s.tc_future_max == 250
            &&& s.num_random_starts == 1200 && s.num_polish_steps == 32
            &&& s.require_b_negative && s.require_damping
            &&& c.fit_settings().num_random_starts == c.lppl_random_starts
            &&& crate::search::same_terms(s, c.fit_settings())
            &&& c.fit_settings().num_polish_steps == s.num_polish_steps
        }),
{
    constant_laws::law_constants_are_nearest();
}

/// A ratio may be written in larger terms.
proof fn lemma_same_ratio(x: Real, num: int, den: int, k: int)
    requires
        constant_laws::is_nearest(x, num, den),
        k > 0,
        den > 0,
    ensures
        constant_laws::is_nearest(x, num * k, den * k),
{
    let v = x.value();
    let one = binary64::one_in_units() as int;
    let p = vstd::arithmetic::power2::pow2(binary64::field_scale(x.field())) as int;
    let (a, b, c) = (v * den, num * one, den * p);
    assert(v * (den * k) == k * a) by (nonlinear_arith)
        requires
            a == v * den,
    ;
    assert((num * k) * one == k * b) by (nonlinear_arith)
        requires
            b == num * one,
    ;
    assert((den * k) * p == k * c) by (nonlinear_arith)
        requires
            c == den * p,
    ;
    let gap = crate::accuracy::apart(a, b);
    let wide = crate::accuracy::apart(k * a, k * b);
    assert(2 * wide <= k * c) by (nonlinear_arith)
        requires
            wide == (if k * a < k * b {
                k * b - k * a
            } else {
                k * a - k * b
            }),
            gap == (if a < b {
                b - a
            } else {
                a - b
            }),
            2 * gap <= c,
            k > 0,
    ;
}

/// Law: the filter of a run holds the bounds that the run was configured with, each in its
/// place; the seeds of its analysis are those configured, or the seed of the run alone.
pub proof fn law_filter_and_seeds_are_configured(c: BacktestConfig)
    ensures
        c.filter().m_min == c.filter_m_min && c.filter().m_max == c.filter_m_max,
        c.filter().omega_min == c.filter_omega_min && c.filter().omega_max
            == c.filter_omega_max,
        c.filter().require_b_negative == c.filter_require_b_negative,
        c.filter().min_tc_offset_days == c.filter_min_tc_offset_days,
        c.analysis_seeds().len() > 0,
        c.ensemble_seeds@.len() > 0 ==> c.analysis_seeds() == c.ensemble_seeds@,
        c.ensemble_seeds@.len() == 0 ==> c.analysis_seeds().len() == 1
            && c.analysis_seeds()[0] == c.random_seed,
{
}

/// The bounds of the filter and the thresholds of a configuration.
pub open spec fn bounds_of(c: BacktestConfig) -> Seq<Real> {
    seq![
        c.long_threshold,
        c.short_threshold,
        c.cost_bps,
        c.filter_m_min,
        c.filter_m_max,
        c.filter_omega_min,
        c.filter_omega_max,
        c.confidence_flat_threshold,
    ]
}

/// Law: each option of the command line reaches the setting that it names.
pub proof fn law_options_reach_the_settings(c: BacktestConfig, o: RunOptions)
    requires
        cli::follows_options(c, o),
    ensures
        bounds_of(c) =~= seq![
            o.long_thresh,
            o.short_thresh,
            o.cost_bps,
            o.filter_m_min,
            o.filter_m_max,
            o.filter_omega_min,
            o.filter_omega_max,
            o.conf_flat_thresh,
        ],
        c.lookback_days == o.window && c.window_stride == o.window_stride && c.refit_every
            == o.refit_every && c.predict_horizon_days == o.predict_horizon,
        c.signal_mode == SignalMode::Fast <==> o.signal_mode@ == "fast"@,
        c.run_mode == RunMode::FutureBubblePrediction <==> o.mode@ == "prediction"@,
        c.run_mode == RunMode::LiveCurrentSentiment <==> o.mode@ == "live"@,
        c.run_mode == RunMode::HybridAnalysis <==> o.mode@ == "hybrid"@,
        c.position_bias == PositionBias::LongOnly <==> o.position_bias@ == "longonly"@,
        c.position_bias == PositionBias::ShortOnly <==> o.position_bias@ == "shortonly"@,
        c.invert_signal == o.invert,
        c.enable_bubble_analysis == o.enable_bubble_analysis,
        c.use_confidence_for_flat == o.use_conf_flat,
        c.ensemble_seeds@ == form::seeds_of_text(o.ensemble_seeds@),
        c.random_seed == 42 && c.analysis_lookback_min == 60 && c.analysis_lookback_max == 260
            && c.analysis_step_days == 5 && c.filter_min_tc_offset_days == 3,
        c.max_position.value() == binary64::one_in_units(),
{
    order::lemma_one();
    lemma_words();
}

proof fn lemma_words()
    ensures
        "prediction"@ != "live"@,
        "prediction"@ != "hybrid"@,
        "live"@ != "hybrid"@,
        "longonly"@ != "shortonly"@,
{
    reveal_strlit("prediction");
    reveal_strlit("live");
    reveal_strlit("hybrid");
    reveal_strlit("longonly");
    reveal_strlit("shortonly");
    assert("prediction"@.len() == 10 && "live"@.len() == 4 && "hybrid"@.len() == 6);
    assert("longonly"@.len() == 8 && "shortonly"@.len() == 9);
}

/// Law: each control of the window reaches the setting that it shows.
pub proof fn law_controls_reach_the_settings(c: BacktestConfig, k: Controls)
    requires
        desktop::follows_controls(c, k),
    ensures
        bounds_of(c) =~= seq![
            k.long_thresh,
            k.short_thresh,
            k.cost_bps,
            k.filter_m_min,
            k.filter_m_max,
            k.filter_omega_min,
            k.filter_omega_max,
            k.confidence_flat_threshold,
        ],
        c.lookback_days == k.window && c.refit_every == k.refit_every && c.predict_horizon_days
            == k.predict_horizon && c.random_seed == k.random_seed,
        c.analysis_lookback_min == k.analysis_lookback_min && c.analysis_lookback_max
            == k.analysis_lookback_max && c.analysis_step_days == k.analysis_step_days,
        c.filter_require_b_negative == k.filter_require_b_negative
            && c.filter_min_tc_offset_days == k.filter_min_tc_offset_days,
        c.position_bias == k.position_bias && c.invert_signal == k.invert_signal && c.run_mode
            == k.run_mode,
        c.enable_bubble_analysis == k.enable_bubble_analysis && c.use_confidence_for_flat
            == k.use_confidence_for_flat,
        c.ensemble_seeds@ == form::seeds_of_text(k.ensemble_seeds@),
{
}

/// Law: a form is without fault exactly where it has a ticker, two dates in order, a window
/// of 60 days or more, a refit interval, thresholds that are not negative, a cost and a
/// positive capital; its settings are then those of its fields.
pub proof fn law_faultless_forms_reach_the_settings(
    f: Form,
    numbers: FormNumbers,
    c: BacktestConfig,
)
    requires
        f.wf(),
    ensures
        f.fault(numbers) is None <==> {
            let (start, end) = (
                form::date_of_text(f.field(form::START as int)),
                form::date_of_text(f.field(form::END as int)),
            );
            let window = form::size_of_text(f.field(form::WINDOW as int));
            let refit = form::size_of_text(f.field(form::REFIT as int));
            &&& text::upper_text(text::trimmed_text(f.field(form::TICKER as int))).len() > 0
            &&& start is Some && end is Some && start->0.epoch_day < end->0.epoch_day
            &&& window is Some && window->0 >= 60
            &&& refit is Some && refit->0 > 0
            &&& numbers.long matches Some(x) && (x.nan() || x.value() >= 0)
            &&& numbers.short matches Some(x) && (x.nan() || x.value() >= 0)
            &&& numbers.cost is Some
            &&& numbers.capital matches Some(x) && (x.nan() || x.value() > 0)
        },
        f.fault(numbers) is None && f.asks_for(numbers, c) ==> {
            &&& Some(c.lookback_days as nat) == form::size_of_text(f.field(form::WINDOW as int))
            &&& Some(c.refit_every as nat) == form::size_of_text(f.field(form::REFIT as int))
            &&& Some(c.long_threshold) == numbers.long && Some(c.short_threshold)
                == numbers.short && Some(c.cost_bps) == numbers.cost
            &&& numbers.m_min matches Some(x) ==> c.filter_m_min == x
            &&& numbers.m_max matches Some(x) ==> c.filter_m_max == x
            &&& numbers.omega_min matches Some(x) ==> c.filter_omega_min == x
            &&& numbers.omega_max matches Some(x) ==> c.filter_omega_max == x
            &&& numbers.flat_threshold matches Some(x) ==> c.confidence_flat_threshold == x
        },
{
    binary64::lemma_zero();
}

/// Law: the mode decides what a run consists of. A backtest needs 30 bars beyond its window,
/// a snapshot 30 bars, and both predictions and snapshots an analysis whose longest
/// look-back lies within the bars and whose shortest has 30 days.
pub proof fn law_modes_decide_the_run(e: HlpplEngine)
    requires
        e.bars matches Some(bars) ==> bars@.len() <= usize::MAX,
    ensures
        e.bars is None ==> e.plan_of() == Err::<ModePlan, EngineError>(EngineError::NoPriceData),
        e.bars is None ==> e.mode_fault() == Some(EngineError::NoPriceData),
        e.bars matches Some(bars) ==> {
            let n = bars@.len() as int;
            let c = e.config;
            let enough = n >= c.lookback_days + 30;
            let analysed = n > 0 && c.analysis_lookback_max < n && c.analysis_lookback_min >= 30;
            &&& c.run_mode == RunMode::HistoricalBacktest ==> (e.plan_of() is Ok <==> enough) && (
            e.mode_fault() is None <==> enough) && (enough ==> e.plan_of() == Ok::<
                ModePlan,
                EngineError,
            >(ModePlan::Backtest))
            &&& c.run_mode == RunMode::FutureBubblePrediction ==> e.plan_of() == Ok::<
                ModePlan,
                EngineError,
            >(ModePlan::Predict { backtest: false }) && (e.mode_fault() is None <==> analysed)
            &&& c.run_mode == RunMode::HybridAnalysis ==> e.plan_of() == Ok::<
                ModePlan,
                EngineError,
            >(ModePlan::Predict { backtest: true }) && (e.mode_fault() is None <==> analysed
                && enough)
            &&& c.run_mode == RunMode::LiveCurrentSentiment ==> e.plan_of() == Ok::<
                ModePlan,
                EngineError,
            >(ModePlan::Live) && (e.mode_fault() is None <==> analysed && n >= 30)
        },
{
    if let Some(bars) = e.bars {
        if bars@.len() > 0 {
            let sweep = prediction::sweep_at(e.config, bars@.len() - 1);
            assert(sweep.current_idx == bars@.len() - 1);
        }
    }
}

/// Law: a sweep is refused where its bar does not exist or its longest look-back reaches
/// behind the first bar, and else where its shortest look-back has fewer than 30 days.
pub proof fn law_sweeps_are_refused(sweep: Sweep, n: nat)
    ensures
        sweep.fault(n) == Some(AnalysisError::InvalidRange) <==> sweep.current_idx >= n
            || sweep.current_idx < sweep.lookback_max,
        sweep.fault(n) == Some(AnalysisError::LookbackTooShort) <==> sweep.lookback_max
            <= sweep.current_idx < n && sweep.lookback_min < 30,
        sweep.fault(n) is None <==> sweep.lookback_max <= sweep.current_idx < n
            && sweep.lookback_min >= 30,
{
}

/// Law: the analysis of a run at a bar looks back from that bar as the run is configured to.
pub proof fn law_analysis_sweeps_as_configured(c: BacktestConfig, i: int)
    requires
        0 <= i <= usize::MAX,
    ensures
        ({
            let sweep = prediction::sweep_at(c, i);
            &&& sweep.current_idx == i
            &&& sweep.lookback_min == c.analysis_lookback_min
            &&& sweep.lookback_max == c.analysis_lookback_max
            &&& sweep.step_days == c.analysis_step_days
        }),
{
}

/// Law: a run is refused before it is made only where a setting that it needs is 0, or where
/// it would leave the machine's range.
pub proof fn law_refused_runs_are_impossible(c: BacktestConfig, n: nat)
    requires
        n <= usize::MAX,
    ensures
        cli::run_fault(c, n) == Some(RunFault::EmptyWindow) ==> c.lookback_days == 0
            && c.signal_mode == SignalMode::Paper && n >= 30,
        cli::run_fault(c, n) == Some(RunFault::NoRefit) ==> c.refit_every == 0 && c.signal_mode
            == SignalMode::Fast,
        cli::run_fault(c, n) == Some(RunFault::NoStep) ==> c.analysis_step_days == 0,
        cli::run_fault(c, n) == Some(RunFault::TooLarge) ==> c.lookback_days + 30 > usize::MAX
            || n + c.window_stride + 1 > usize::MAX || n + c.analysis_step_days > usize::MAX,
{
}

} // verus!
