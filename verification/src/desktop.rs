//! The desktop window between two frames: its controls, and what its charts show.

use crate::backtest::{BacktestResult, DailySignal};
use crate::binary64::{Real, ONE_BITS};
use crate::config::{BacktestConfig, PositionBias, RunMode, SignalMode};
use crate::constants::{
    EIGHT, FIFTY, FIFTY_FIVE_HUNDREDTHS, FOUR_AND_HALF, HALF, NINE_TENTHS, SEVEN_TENTHS,
    SIXTY_FIVE_HUNDREDTHS, TENTH, TEN_THOUSAND, THIRTEEN, THREE_TENTHS, TWELVE,
};
use crate::dates;
use crate::dates::Date;
use crate::engine::HlpplEngine;
use crate::explorer;
use crate::form;
use crate::form::read_seeds;
use crate::text;
use crate::text::{text_of_usize, to_upper};
use vstd::prelude::*;
use vstd::string::*;

verus! {

/// The controls.
#[derive(Clone, Debug)]
pub struct Controls {
    pub ticker: String,
    pub start: String,
    pub end: String,
    pub window: usize,
    pub refit_every: usize,
    pub long_thresh: Real,
    pub short_thresh: Real,
    pub cost_bps: Real,
    pub initial_capital: Real,
    pub position_bias: PositionBias,
    pub invert_signal: bool,
    pub random_seed: u64,
    pub enable_bubble_analysis: bool,
    pub analysis_lookback_min: usize,
    pub analysis_lookback_max: usize,
    pub analysis_step_days: usize,
    pub filter_m_min: Real,
    pub filter_m_max: Real,
    pub filter_omega_min: Real,
    pub filter_omega_max: Real,
    pub filter_require_b_negative: bool,
    pub filter_min_tc_offset_days: usize,
    pub use_confidence_for_flat: bool,
    pub confidence_flat_threshold: Real,
    pub run_mode: RunMode,
    /// Seeds, separated by commas.
    pub ensemble_seeds: String,
    pub predict_horizon: usize,
}

/// What is wrong with the dates.
#[derive(Clone, Copy, Debug, PartialEq, Eq, Structural)]
pub enum DateFault {
    Start,
    End,
}

impl DateFault {
    pub open spec fn text(self) -> Seq<char> {
        match self {
            DateFault::Start => "Bad start date"@,
            DateFault::End => "Bad end date"@,
        }
    }

    pub fn message(&self) -> (r: &'static str)
        ensures
            r@ == self.text(),
    {
        match self {
            DateFault::Start => "Bad start date",
            DateFault::End => "Bad end date",
        }
    }
}

/// A date as it stands in a control.
pub open spec fn control_date(s: Seq<char>) -> Option<Date> {
    match dates::day_of_text(s) {
        Some(day) => Some(Date { epoch_day: day }),
        None => None,
    }
}

/// `c` agrees with the controls in everything that they show.
pub open spec fn follows_controls(c: BacktestConfig, k: Controls) -> bool {
    &&& c.lookback_days == k.window
    &&& c.refit_every == k.refit_every
    &&& c.long_threshold == k.long_thresh
    &&& c.short_threshold == k.short_thresh
    &&& c.cost_bps == k.cost_bps
    &&& c.position_bias == k.position_bias
    &&& c.invert_signal == k.invert_signal
    &&& c.random_seed == k.random_seed
    &&& c.enable_bubble_analysis == k.enable_bubble_analysis
    &&& c.analysis_lookback_min == k.analysis_lookback_min
    &&& c.analysis_lookback_max == k.analysis_lookback_max
    &&& c.analysis_step_days == k.analysis_step_days
    &&& c.filter_m_min == k.filter_m_min
    &&& c.filter_m_max == k.filter_m_max
    &&& c.filter_omega_min == k.filter_omega_min
    &&& c.filter_omega_max == k.filter_omega_max
    &&& c.filter_require_b_negative == k.filter_require_b_negative
    &&& c.filter_min_tc_offset_days == k.filter_min_tc_offset_days
    &&& c.use_confidence_for_flat == k.use_confidence_for_flat
    &&& c.confidence_flat_threshold == k.confidence_flat_threshold
    &&& c.run_mode == k.run_mode
    &&& c.ensemble_seeds@ == form::seeds_of_text(k.ensemble_seeds@)
    &&& c.predict_horizon_days == k.predict_horizon
}

/// What the controls do not show is at its default.
pub open spec fn rest_is_default(c: BacktestConfig) -> bool {
    &&& c.window_stride == 5
    &&& c.signal_mode == SignalMode::Paper
    &&& c.alpha1_hype == (Real { bits: SEVEN_TENTHS })
    &&& c.alpha2_sentiment == (Real { bits: THREE_TENTHS })
    &&& c.lppl_random_starts == 1200
    &&& c.max_position == (Real { bits: ONE_BITS })
    &&& !c.use_confidence_for_sizing
}

impl Controls {
    /// The controls of a window that has just been opened.
    pub fn new() -> (r: Controls)
        ensures
            r.ticker@ == "CAR"@,
            r.start@ == "2022-01-01"@,
            r.end@ == "2024-12-31"@,
            r.window == 180,
            r.refit_every == 20,
            r.long_thresh == (Real { bits: SIXTY_FIVE_HUNDREDTHS }),
            r.short_thresh == (Real { bits: SIXTY_FIVE_HUNDREDTHS }),
            r.cost_bps == (Real { bits: EIGHT }),
            r.initial_capital == (Real { bits: TEN_THOUSAND }),
            r.position_bias == PositionBias::LongShort,
            !r.invert_signal,
            r.random_seed == 42,
            r.enable_bubble_analysis,
            r.analysis_lookback_min == 60,
            r.analysis_lookback_max == 260,
            r.analysis_step_days == 5,
            r.filter_m_min == (Real { bits: TENTH }),
            r.filter_m_max == (Real { bits: NINE_TENTHS }),
            r.filter_omega_min == (Real { bits: FOUR_AND_HALF }),
            r.filter_omega_max == (Real { bits: THIRTEEN }),
            r.filter_require_b_negative,
            r.filter_min_tc_offset_days == 3,
            r.use_confidence_for_flat,
            r.confidence_flat_threshold == (Real { bits: FIFTY }),
            r.run_mode == RunMode::HistoricalBacktest,
            r.ensemble_seeds@ == "42"@,
            r.predict_horizon == 60,
    {
        Controls {
            ticker: "CAR".to_owned(),
            start: "2022-01-01".to_owned(),
            end: "2024-12-31".to_owned(),
            window: 180,
            refit_every: 20,
            long_thresh: Real { bits: SIXTY_FIVE_HUNDREDTHS },
            short_thresh: Real { bits: SIXTY_FIVE_HUNDREDTHS },
            cost_bps: Real { bits: EIGHT },
            initial_capital: Real { bits: TEN_THOUSAND },
            position_bias: PositionBias::LongShort,
            invert_signal: false,
            random_seed: 42,
            enable_bubble_analysis: true,
            analysis_lookback_min: 60,
            analysis_lookback_max: 260,
            analysis_step_days: 5,
            filter_m_min: Real { bits: TENTH },
            filter_m_max: Real { bits: NINE_TENTHS },
            filter_omega_min: Real { bits: FOUR_AND_HALF },
            filter_omega_max: Real { bits: THIRTEEN },
            filter_require_b_negative: true,
            filter_min_tc_offset_days: 3,
            use_confidence_for_flat: true,
            confidence_flat_threshold: Real { bits: FIFTY },
            run_mode: RunMode::HistoricalBacktest,
            ensemble_seeds: "42".to_owned(),
            predict_horizon: 60,
        }
    }

    /// The dates of the controls.
    pub fn dates(&self) -> (r: Result<(Date, Date), DateFault>)
        ensures
            r == match (control_date(self.start@), control_date(self.end@)) {
                (None, _) => Err::<(Date, Date), DateFault>(DateFault::Start),
                (Some(_), None) => Err(DateFault::End),
                (Some(start), Some(end)) => Ok((start, end)),
            },
            r matches Ok((start, end)) ==> start.valid() && end.valid(),
    {
        let start = match Date::parse(self.start.as_str()) {
            Some(d) => d,
            None => {
                return Err(DateFault::Start);
            },
        };
        match Date::parse(self.end.as_str()) {
            Some(end) => Ok((start, end)),
            None => Err(DateFault::End),
        }
    }

    fn write_config(&self, c: &mut BacktestConfig)
        ensures
            follows_controls(*final(c), *self),
            final(c).window_stride == old(c).window_stride,
            final(c).signal_mode == old(c).signal_mode,
            final(c).alpha1_hype == old(c).alpha1_hype,
            final(c).alpha2_sentiment == old(c).alpha2_sentiment,
            final(c).lppl_random_starts == old(c).lppl_random_starts,
            final(c).max_position == old(c).max_position,
            final(c).use_confidence_for_sizing == old(c).use_confidence_for_sizing,
    {
        c.lookback_days = self.window;
        c.refit_every = self.refit_every;
        c.long_threshold = self.long_thresh;
        c.short_threshold = self.short_thresh;
        c.cost_bps = self.cost_bps;
        c.position_bias = self.position_bias;
        c.invert_signal = self.invert_signal;
        c.random_seed = self.random_seed;
        c.enable_bubble_analysis = self.enable_bubble_analysis;
        c.analysis_lookback_min = self.analysis_lookback_min;
        c.analysis_lookback_max = self.analysis_lookback_max;
        c.analysis_step_days = self.analysis_step_days;
        c.filter_m_min = self.filter_m_min;
        c.filter_m_max = self.filter_m_max;
        c.filter_omega_min = self.filter_omega_min;
        c.filter_omega_max = self.filter_omega_max;
        c.filter_require_b_negative = self.filter_require_b_negative;
        c.filter_min_tc_offset_days = self.filter_min_tc_offset_days;
        c.use_confidence_for_flat = self.use_confidence_for_flat;
        c.confidence_flat_threshold = self.confidence_flat_threshold;
        c.run_mode = self.run_mode;
        c.ensemble_seeds = read_seeds(self.ensemble_seeds.as_str());
        c.predict_horizon_days = self.predict_horizon;
    }

    /// The configuration of a run with these controls.
    pub fn config(&self) -> (r: BacktestConfig)
        ensures
            follows_controls(r, *self),
            rest_is_default(r),
    {
        let mut c = BacktestConfig::default();
        self.write_config(&mut c);
        c
    }

    /// Puts the controls into an engine. A date that cannot be read leaves the engine's.
    pub fn sync_engine(&self, engine: &mut HlpplEngine)
        requires
            old(engine).wf(),
        ensures
            final(engine).wf(),
            final(engine).ticker@ == text::upper_text(self.ticker@),
            final(engine).start == match control_date(self.start@) {
                Some(d) => d,
                None => old(engine).start,
            },
            final(engine).end == match control_date(self.end@) {
                Some(d) => d,
                None => old(engine).end,
            },
            follows_controls(final(engine).config, *self),
            rest_is_default(old(engine).config) ==> rest_is_default(final(engine).config),
            final(engine).initial_capital == self.initial_capital,
            final(engine).bars == old(engine).bars,
            final(engine).result == old(engine).result,
            final(engine).trades == old(engine).trades,
            final(engine).fetch_status == old(engine).fetch_status,
            final(engine).last_future_prediction == old(engine).last_future_prediction,
            final(engine).last_live_sentiment == old(engine).last_live_sentiment,
    {
        if let Some(d) = Date::parse(self.start.as_str()) {
            engine.start = d;
        }
        if let Some(d) = Date::parse(self.end.as_str()) {
            engine.end = d;
        }
        engine.ticker = to_upper(self.ticker.as_str());
        engine.initial_capital = self.initial_capital;
        self.write_config(&mut engine.config);
    }

    /// The settings of the first quick button: CAR from 2022 to 2024.
    pub fn preset_car(&mut self)
        ensures
            final(self).ticker@ == "CAR"@,
            final(self).start@ == "2022-01-01"@,
            final(self).end@ == "2024-12-31"@,
            *final(self) == (Controls {
                ticker: final(self).ticker,
                start: final(self).start,
                end: final(self).end,
                window: 180,
                refit_every: 20,
                long_thresh: Real { bits: SIXTY_FIVE_HUNDREDTHS },
                short_thresh: Real { bits: SIXTY_FIVE_HUNDREDTHS },
                ..*old(self)
            }),
    {
        self.ticker = "CAR".to_owned();
        self.start = "2022-01-01".to_owned();
        self.end = "2024-12-31".to_owned();
        self.window = 180;
        self.refit_every = 20;
        self.long_thresh = Real { bits: SIXTY_FIVE_HUNDREDTHS };
        self.short_thresh = Real { bits: SIXTY_FIVE_HUNDREDTHS };
    }

    /// The settings of the second quick button: AMTX from 2021 to 2024.
    pub fn preset_amtx(&mut self)
        ensures
            final(self).ticker@ == "AMTX"@,
            final(self).start@ == "2021-01-01"@,
            final(self).end@ == "2024-12-31"@,
            *final(self) == (Controls {
                ticker: final(self).ticker,
                start: final(self).start,
                end: final(self).end,
                ..*old(self)
            }),
    {
        self.ticker = "AMTX".to_owned();
        self.start = "2021-01-01".to_owned();
        self.end = "2024-12-31".to_owned();
    }
}

/// The configuration of the engine behind a window that has just been opened: the defaults,
/// but for window, refits, thresholds and cost.
pub open spec fn is_first_config(c: BacktestConfig) -> bool {
    &&& c.lookback_days == 180
    &&& c.refit_every == 20
    &&& c.long_threshold == (Real { bits: SIXTY_FIVE_HUNDREDTHS })
    &&& c.short_threshold == (Real { bits: SIXTY_FIVE_HUNDREDTHS })
    &&& c.cost_bps == (Real { bits: EIGHT })
    &&& (BacktestConfig {
        lookback_days: 250,
        refit_every: 25,
        long_threshold: Real { bits: FIFTY_FIVE_HUNDREDTHS },
        short_threshold: Real { bits: FIFTY_FIVE_HUNDREDTHS },
        cost_bps: Real { bits: TWELVE },
        ..c
    }).is_default()
}

/// The configuration of the engine behind a window that has just been opened.
pub fn first_config() -> (r: BacktestConfig)
    ensures
        is_first_config(r),
{
    let mut r = BacktestConfig::default();
    r.lookback_days = 180;
    r.refit_every = 20;
    r.long_threshold = Real { bits: SIXTY_FIVE_HUNDREDTHS };
    r.short_threshold = Real { bits: SIXTY_FIVE_HUNDREDTHS };
    r.cost_bps = Real { bits: EIGHT };
    r
}

/// What the charts of the window show.
#[derive(Clone, Copy, Debug, PartialEq, Eq, Structural)]
pub struct WindowView {
    pub start: usize,
    pub len: usize,
    /// The inspected day.
    pub selected: usize,
}

impl WindowView {
    /// The view of a window that has just been opened.
    pub fn new() -> (r: WindowView)
        ensures
            r == (WindowView { start: 0, len: 400, selected: 0 }),
    {
        WindowView { start: 0, len: 400, selected: 0 }
    }

    /// Shows a result of `n` signals that has just been computed: up to 500 from the first,
    /// room for at least 30, the day in the middle inspected.
    pub fn show_result(&mut self, n: usize)
        ensures
            final(self).start == 0,
            final(self).len == if explorer::lower(n as int, 500) < 30 {
                30
            } else {
                explorer::lower(n as int, 500)
            },
            final(self).selected == n as int / 2,
    {
        let shown: usize = if n < 500 {
            n
        } else {
            500
        };
        self.start = 0;
        self.len = if shown < 30 {
            30
        } else {
            shown
        };
        self.selected = n / 2;
    }

    /// Shows up to 600 signals from the first.
    pub fn fit(&mut self, n: usize)
        ensures
            *final(self) == (WindowView {
                start: 0,
                len: explorer::lower(n as int, 600) as usize,
                ..*old(self)
            }),
    {
        self.start = 0;
        self.len = if n < 600 {
            n
        } else {
            600
        };
    }

    /// Inspects the day under the pointer, of the `shown` days from `first`: the nearest
    /// day, held to those shown.
    pub fn point_at(&mut self, first: usize, shown: usize, x: Real)
        requires
            shown > 0,
            first + shown <= usize::MAX,
        ensures
            *final(self) == (WindowView {
                selected: pointed_day(first as int, shown as int, x) as usize,
                ..*old(self)
            }),
            first <= final(self).selected < first + shown,
    {
        let day: i64 = x.round_to_i64();
        let last: usize = shown - 1;
        let rel: usize = if day < 0 {
            0
        } else if day as u64 >= last as u64 {
            last
        } else {
            day as usize
        };
        self.selected = first + rel;
    }
}

/// The day under the pointer.
pub open spec fn pointed_day(first: int, shown: int, x: Real) -> int {
    let day = x.nearest_integer();
    if day < 0 {
        first
    } else if day > shown - 1 {
        first + shown - 1
    } else {
        first + day
    }
}

/// The label of day `i` of a view from `first`: its date, or its number behind the last
/// signal.
pub open spec fn day_label(signals: Seq<DailySignal>, first: int, i: int) -> Seq<char> {
    if first + i < signals.len() {
        dates::text_of_day(signals[first + i].date.epoch_day)
    } else {
        text::integer_text(i)
    }
}

/// The labels of the `shown` days from `first`.
pub fn view_labels(signals: &Vec<DailySignal>, first: usize, shown: usize) -> (r: Vec<String>)
    requires
        crate::utils::dated(signals@),
    ensures
        r@.len() == shown,
        forall|i: int|
            0 <= i < shown ==> (#[trigger] r@[i])@ == day_label(signals@, first as int, i),
{
    let n: usize = signals.len();
    let mut r: Vec<String> = Vec::new();
    let mut i: usize = 0;
    while i < shown
        invariant
            i <= shown,
            n == signals@.len(),
            crate::utils::dated(signals@),
            r@.len() == i,
            forall|j: int|
                0 <= j < i ==> (#[trigger] r@[j])@ == day_label(signals@, first as int, j),
        decreases shown - i,
    {
        let label = if first < n && i < n - first {
            signals[first + i].date.text()
        } else {
            text_of_usize(i)
        };
        r.push(label);
        i = i + 1;
    }
    r
}

/// The equity of holding the asset, in dollars, after the first `k` signals from `start`,
/// numbered from `start`; it ends where the curve does.
pub open spec fn held_points(
    curve: Seq<Real>,
    start: int,
    k: int,
    capital: Real,
) -> Seq<(Real, Real)> {
    let count = if start + k + 1 <= curve.len() {
        k
    } else {
        explorer::less(curve.len() as int, start + 1)
    };
    Seq::new(
        count as nat,
        |i: int| (Real::of_integer(i), curve[start + i + 1].times(capital)),
    )
}

/// The equity of holding the asset, in dollars, after the `len` signals from `start`.
pub fn build_hold_series(
    res: &BacktestResult,
    start: usize,
    len: usize,
    capital: Real,
) -> (r: Vec<(Real, Real)>)
    ensures
        r@ == held_points(res.bh_equity@, start as int, len as int, capital),
{
    let n: usize = res.bh_equity.len();
    let room: usize = if start < n {
        n - start - 1
    } else {
        0
    };
    let count: usize = if len < room {
        len
    } else {
        room
    };
    let mut r: Vec<(Real, Real)> = Vec::new();
    let mut i: usize = 0;
    while i < count
        invariant
            i <= count,
            n == res.bh_equity@.len(),
            count > 0 ==> start + count < n,
            r@ == Seq::new(
                i as nat,
                |j: int|
                    (Real::of_integer(j), res.bh_equity@[start + j + 1].times(capital)),
            ),
        decreases count - i,
    {
        r.push((Real::from_usize(i), res.bh_equity[start + i + 1].mul(capital)));
        i = i + 1;
    }
    r
}

/// What a position means for the inspected day.
pub open spec fn reading_text(position: Real) -> Seq<char> {
    if (Real { bits: HALF }).below(position) {
        "BUY / GO LONG (bullish from positive bubble score)"@
    } else if position.below((Real { bits: HALF }).negated()) {
        "SELL / GO SHORT (bearish / bubble risk from negative score)"@
    } else {
        "HOLD / NEUTRAL (flat, no strong signal)"@
    }
}

/// What a position means for the inspected day.
pub fn cursor_reading(position: Real) -> (r: &'static str)
    ensures
        r@ == reading_text(position),
{
    let half = Real { bits: HALF };
    if half.lt(position) {
        "BUY / GO LONG (bullish from positive bubble score)"
    } else if position.lt(half.neg()) {
        "SELL / GO SHORT (bearish / bubble risk from negative score)"
    } else {
        "HOLD / NEUTRAL (flat, no strong signal)"
    }
}

} // verus!
