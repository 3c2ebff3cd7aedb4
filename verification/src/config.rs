//! Settings of a backtest.

use crate::binary64::{Real, ONE_BITS};
use crate::confidence::LpplFilterConfig;
use crate::constants::{
    FIFTY, FIFTY_FIVE_HUNDREDTHS, FOUR_AND_HALF, NINE_TENTHS, SEVEN_TENTHS, TENTH, THIRTEEN,
    THREE_TENTHS, TWELVE,
};
use crate::lppl::LpplFitConfig;
use vstd::prelude::*;

verus! {

/// How the residuals of fits become a daily signal.
#[derive(Clone, Copy, Debug, PartialEq, Eq, Structural)]
pub enum SignalMode {
    /// Overlapping windows, the mean residual of each day, and a causal running maximum.
    Paper,
    /// One window, refitted from time to time and carried forward in between.
    Fast,
}

impl Default for SignalMode {
    fn default() -> (r: Self)
        ensures
            r == SignalMode::Paper,
    {
        SignalMode::Paper
    }
}

/// Which positions the strategy may take.
#[derive(Clone, Copy, Debug, PartialEq, Eq, Structural)]
pub enum PositionBias {
    LongShort,
    /// What would be a short position is flat.
    LongOnly,
    /// What would be a long position is flat.
    ShortOnly,
}

impl Default for PositionBias {
    fn default() -> (r: Self)
        ensures
            r == PositionBias::LongShort,
    {
        PositionBias::LongShort
    }
}

/// What a run is for.
#[derive(Clone, Copy, Debug, PartialEq, Eq, Structural)]
pub enum RunMode {
    /// A walk-forward backtest with trades and an equity curve.
    HistoricalBacktest,
    /// Bubble confidence and critical dates at the end of the data.
    FutureBubblePrediction,
    /// A snapshot for a decision at the latest bar.
    LiveCurrentSentiment,
    /// A prediction together with a backtest.
    HybridAnalysis,
}

impl Default for RunMode {
    fn default() -> (r: Self)
        ensures
            r == RunMode::HistoricalBacktest,
    {
        RunMode::HistoricalBacktest
    }
}

impl RunMode {
    /// The mode's name.
    pub open spec fn text(self) -> Seq<char> {
        match self {
            RunMode::HistoricalBacktest => "HistoricalBacktest"@,
            RunMode::FutureBubblePrediction => "FutureBubblePrediction"@,
            RunMode::LiveCurrentSentiment => "LiveCurrentSentiment"@,
            RunMode::HybridAnalysis => "HybridAnalysis"@,
        }
    }

    /// The mode's name.
    pub fn name(&self) -> (r: &'static str)
        ensures
            r@ == self.text(),
    {
        match self {
            RunMode::HistoricalBacktest => "HistoricalBacktest",
            RunMode::FutureBubblePrediction => "FutureBubblePrediction",
            RunMode::LiveCurrentSentiment => "LiveCurrentSentiment",
            RunMode::HybridAnalysis => "HybridAnalysis",
        }
    }
}

/// All settings of a run.
#[derive(Clone, Debug)]
pub struct BacktestConfig {
    /// Bars in a fit window.
    pub lookback_days: usize,
    /// Fast mode: bars between refits.
    pub refit_every: usize,
    /// Paper mode: bars between the ends of neighbouring windows.
    pub window_stride: usize,
    pub signal_mode: SignalMode,
    /// Weight of hype in the bubble score.
    pub alpha1_hype: Real,
    /// Weight of sentiment in the bubble score.
    pub alpha2_sentiment: Real,
    pub lppl_random_starts: usize,
    /// A score above this is a long signal.
    pub long_threshold: Real,
    /// A score below the negative of this is a short signal.
    pub short_threshold: Real,
    /// Cost of a position change, in basis points.
    pub cost_bps: Real,
    /// Size of a full position; 1 is fully invested.
    pub max_position: Real,
    pub position_bias: PositionBias,
    /// Takes a long signal as short and the other way round.
    pub invert_signal: bool,
    /// Seed of the parameter search.
    pub random_seed: u64,
    /// Whether each signal day gets a bubble confidence.
    pub enable_bubble_analysis: bool,
    pub analysis_lookback_min: usize,
    pub analysis_lookback_max: usize,
    pub analysis_step_days: usize,
    pub filter_m_min: Real,
    pub filter_m_max: Real,
    pub filter_omega_min: Real,
    pub filter_omega_max: Real,
    pub filter_require_b_negative: bool,
    pub filter_min_tc_offset_days: usize,
    /// Whether a confidence above the threshold forces a flat position.
    pub use_confidence_for_flat: bool,
    pub confidence_flat_threshold: Real,
    pub run_mode: RunMode,
    /// Seeds whose confidences are averaged; none stands for `random_seed` alone.
    pub ensemble_seeds: Vec<u64>,
    /// Days within which a critical date counts as near.
    pub predict_horizon_days: usize,
    /// Whether the confidence scales the position.
    pub use_confidence_for_sizing: bool,
}

impl BacktestConfig {
    /// The settings of a run of which nothing was asked.
    pub open spec fn is_default(self) -> bool {
        &&& self.lookback_days == 250
        &&& self.refit_every == 25
        &&& self.window_stride == 5
        &&& self.signal_mode == SignalMode::Paper
        &&& self.alpha1_hype == (Real { bits: SEVEN_TENTHS })
        &&& self.alpha2_sentiment == (Real { bits: THREE_TENTHS })
        &&& self.lppl_random_starts == 1200
        &&& self.long_threshold == (Real { bits: FIFTY_FIVE_HUNDREDTHS })
        &&& self.short_threshold == (Real { bits: FIFTY_FIVE_HUNDREDTHS })
        &&& self.cost_bps == (Real { bits: TWELVE })
        &&& self.max_position == (Real { bits: ONE_BITS })
        &&& self.position_bias == PositionBias::LongShort
        &&& !self.invert_signal
        &&& self.random_seed == 42
        &&& !self.enable_bubble_analysis
        &&& self.analysis_lookback_min == 60
        &&& self.analysis_lookback_max == 260
        &&& self.analysis_step_days == 5
        &&& self.filter_m_min == (Real { bits: TENTH })
        &&& self.filter_m_max == (Real { bits: NINE_TENTHS })
        &&& self.filter_omega_min == (Real { bits: FOUR_AND_HALF })
        &&& self.filter_omega_max == (Real { bits: THIRTEEN })
        &&& self.filter_require_b_negative
        &&& self.filter_min_tc_offset_days == 3
        &&& !self.use_confidence_for_flat
        &&& self.confidence_flat_threshold == (Real { bits: FIFTY })
        &&& self.run_mode == RunMode::HistoricalBacktest
        &&& self.ensemble_seeds@.len() == 0
        &&& self.predict_horizon_days == 60
        &&& !self.use_confidence_for_sizing
    }

    /// The search settings of this run: the published ones, with this run's effort.
    pub open spec fn fit_settings(self) -> LpplFitConfig {
        LpplFitConfig {
            num_random_starts: self.lppl_random_starts,
            ..LpplFitConfig::standard()
        }
    }

    /// The search settings of this run.
    pub fn lppl_fit_config(&self) -> (r: LpplFitConfig)
        ensures
            r == self.fit_settings(),
    {
        let mut r = LpplFitConfig::default();
        r.num_random_starts = self.lppl_random_starts;
        r
    }

    /// What a fit must satisfy to count as a bubble signature in this run.
    pub open spec fn filter(self) -> LpplFilterConfig {
        LpplFilterConfig {
            m_min: self.filter_m_min,
            m_max: self.filter_m_max,
            omega_min: self.filter_omega_min,
            omega_max: self.filter_omega_max,
            require_b_negative: self.filter_require_b_negative,
            min_tc_offset_days: self.filter_min_tc_offset_days,
        }
    }

    /// What a fit must satisfy to count as a bubble signature in this run.
    pub fn lppl_filter_config(&self) -> (r: LpplFilterConfig)
        ensures
            r == self.filter(),
    {
        LpplFilterConfig {
            m_min: self.filter_m_min,
            m_max: self.filter_m_max,
            omega_min: self.filter_omega_min,
            omega_max: self.filter_omega_max,
            require_b_negative: self.filter_require_b_negative,
            min_tc_offset_days: self.filter_min_tc_offset_days,
        }
    }

    /// Seeds of the confidence analysis: the ensemble, or the one seed of the run.
    pub open spec fn analysis_seeds(self) -> Seq<u64> {
        if self.ensemble_seeds@.len() == 0 {
            seq![self.random_seed]
        } else {
            self.ensemble_seeds@
        }
    }

    /// Seeds of the confidence analysis: the ensemble, or the one seed of the run.
    pub fn seeds(&self) -> (r: Vec<u64>)
        ensures
            r@ == self.analysis_seeds(),
            r@.len() > 0,
    {
        let mut r: Vec<u64> = Vec::new();
        if self.ensemble_seeds.len() == 0 {
            r.push(self.random_seed);
            return r;
        }
        let mut i: usize = 0;
        while i < self.ensemble_seeds.len()
            invariant
                i <= self.ensemble_seeds@.len(),
                r@ == self.ensemble_seeds@.take(i as int),
            decreases self.ensemble_seeds@.len() - i,
        {
            r.push(self.ensemble_seeds[i]);
            i = i + 1;
        }
        assert(self.ensemble_seeds@.take(i as int) =~= self.ensemble_seeds@);
        r
    }
}

impl Default for BacktestConfig {
    fn default() -> (r: Self)
        ensures
            r.is_default(),
    {
        BacktestConfig {
            lookback_days: 250,
            refit_every: 25,
            window_stride: 5,
            signal_mode: SignalMode::Paper,
            alpha1_hype: Real { bits: SEVEN_TENTHS },
            alpha2_sentiment: Real { bits: THREE_TENTHS },
            lppl_random_starts: 1200,
            long_threshold: Real { bits: FIFTY_FIVE_HUNDREDTHS },
            short_threshold: Real { bits: FIFTY_FIVE_HUNDREDTHS },
            cost_bps: Real { bits: TWELVE },
            max_position: Real { bits: ONE_BITS },
            position_bias: PositionBias::LongShort,
            invert_signal: false,
            random_seed: 42,
            enable_bubble_analysis: false,
            analysis_lookback_min: 60,
            analysis_lookback_max: 260,
            analysis_step_days: 5,
            filter_m_min: Real { bits: TENTH },
            filter_m_max: Real { bits: NINE_TENTHS },
            filter_omega_min: Real { bits: FOUR_AND_HALF },
            filter_omega_max: Real { bits: THIRTEEN },
            filter_require_b_negative: true,
            filter_min_tc_offset_days: 3,
            use_confidence_for_flat: false,
            confidence_flat_threshold: Real { bits: FIFTY },
            run_mode: RunMode::HistoricalBacktest,
            ensemble_seeds: Vec::new(),
            predict_horizon_days: 60,
            use_confidence_for_sizing: false,
        }
    }
}

} // verus!
