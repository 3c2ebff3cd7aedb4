//! The bubble confidence index: the share of look-back windows whose fit carries the
//! signature of a bubble, and the critical dates that those fits point to.

use crate::binary64::{Real, ONE_BITS};
use crate::constants::{
    FIFTEEN, FORTY_FIVE, FOUR_AND_HALF, HUNDRED, NINE_TENTHS, SEVENTY_FIVE, TENTH, THIRTEEN,
    ZERO,
};
use crate::data::PriceBar;
use crate::dates;
use crate::dates::Date;
use crate::lppl;
use crate::lppl::LpplParams;
use crate::order;
use crate::stats;
use crate::stats::{mean_between, variance_between};
use crate::text::same_text;
use vstd::prelude::*;
use vstd::seq_lib::*;
use vstd::string::*;

verus! {

/// What the parameters of a fit must satisfy to count as a bubble signature.
#[derive(Clone, Copy, Debug, PartialEq, Eq, Structural)]
pub struct LpplFilterConfig {
    pub m_min: Real,
    pub m_max: Real,
    pub omega_min: Real,
    pub omega_max: Real,
    /// Whether the price must accelerate upwards.
    pub require_b_negative: bool,
    /// How far ahead the critical time must lie.
    pub min_tc_offset_days: usize,
}

impl LpplFilterConfig {
    pub open spec fn standard() -> LpplFilterConfig {
        LpplFilterConfig {
            m_min: Real { bits: TENTH },
            m_max: Real { bits: NINE_TENTHS },
            omega_min: Real { bits: FOUR_AND_HALF },
            omega_max: Real { bits: THIRTEEN },
            require_b_negative: true,
            min_tc_offset_days: 3,
        }
    }
}

impl Default for LpplFilterConfig {
    fn default() -> (r: Self)
        ensures
            r == LpplFilterConfig::standard(),
    {
        LpplFilterConfig {
            m_min: Real { bits: TENTH },
            m_max: Real { bits: NINE_TENTHS },
            omega_min: Real { bits: FOUR_AND_HALF },
            omega_max: Real { bits: THIRTEEN },
            require_b_negative: true,
            min_tc_offset_days: 3,
        }
    }
}

/// Exponent, frequency and amplitude pass the filter, and the fit is sound in itself.
pub open spec fn passes_filter(p: LpplParams, filter: LpplFilterConfig) -> bool {
    &&& filter.m_min.at_most(p.m) && p.m.at_most(filter.m_max)
    &&& filter.omega_min.at_most(p.omega) && p.omega.at_most(filter.omega_max)
    &&& filter.require_b_negative ==> p.b.below(Real { bits: ZERO })
    &&& p.structurally_valid()
}

/// The critical time of a fit of the window from `start`, as an index of bars.
pub open spec fn critical_index(p: LpplParams, start: int) -> Real {
    Real::of_integer(start).plus(p.tc).minus(Real { bits: ONE_BITS })
}

/// The critical time lies far enough behind the bar `current`.
pub open spec fn critical_ahead(
    p: LpplParams,
    start: int,
    current: int,
    filter: LpplFilterConfig,
) -> bool {
    Real::of_integer(current).plus(Real::of_integer(filter.min_tc_offset_days as int)).below(
        critical_index(p, start),
    )
}

/// The fit of the window from `start` counts as a bubble signature at the bar `current`.
pub open spec fn signature(
    p: LpplParams,
    start: int,
    current: int,
    filter: LpplFilterConfig,
) -> bool {
    critical_ahead(p, start, current, filter) && passes_filter(p, filter)
}

/// Whole days from the bar `current` to the critical time.
pub open spec fn days_ahead(p: LpplParams, start: int, current: int) -> int {
    critical_index(p, start).minus(Real::of_integer(current)).nearest_integer()
}

fn is_signature(p: &LpplParams, start: usize, current: usize, filter: &LpplFilterConfig) -> (r: bool)
    ensures
        r == signature(*p, start as int, current as int, *filter),
{
    let zero = Real { bits: ZERO };
    let tc_abs = Real::from_usize(start).add(p.tc).sub(Real { bits: ONE_BITS });
    let bound = Real::from_usize(current).add(Real::from_usize(filter.min_tc_offset_days));
    bound.lt(tc_abs) && filter.m_min.le(p.m) && p.m.le(filter.m_max) && filter.omega_min.le(
        p.omega,
    ) && p.omega.le(filter.omega_max) && (!filter.require_b_negative || p.b.lt(zero))
        && p.is_valid()
}

fn whole_days_ahead(p: &LpplParams, start: usize, current: usize) -> (r: i64)
    ensures
        r == days_ahead(*p, start as int, current as int),
{
    let tc_abs = Real::from_usize(start).add(p.tc).sub(Real { bits: ONE_BITS });
    tc_abs.sub(Real::from_usize(current)).round_to_i64()
}

/// A reason for which a fit is no bubble signature.
#[derive(Clone, Copy, Debug, PartialEq, Eq, Structural)]
pub enum JlsFailure {
    /// The critical time is not far enough ahead.
    CriticalTimeTooNear,
    ExponentOutside,
    FrequencyOutside,
    /// The price does not accelerate upwards.
    AmplitudeNotNegative,
    /// The fit is not damped, or not sound in itself.
    NotStructurallyValid,
}

/// The reasons, in a fixed order.
pub open spec fn jls_failures(
    p: LpplParams,
    t_current: Real,
    filter: LpplFilterConfig,
) -> Seq<JlsFailure> {
    let bound = t_current.plus(Real { bits: ONE_BITS }).plus(
        Real::of_integer(filter.min_tc_offset_days as int),
    );
    let s0 = Seq::<JlsFailure>::empty();
    let s1 = if p.tc.at_most(bound) {
        s0.push(JlsFailure::CriticalTimeTooNear)
    } else {
        s0
    };
    let s2 = if p.m.below(filter.m_min) || filter.m_max.below(p.m) {
        s1.push(JlsFailure::ExponentOutside)
    } else {
        s1
    };
    let s3 = if p.omega.below(filter.omega_min) || filter.omega_max.below(p.omega) {
        s2.push(JlsFailure::FrequencyOutside)
    } else {
        s2
    };
    let s4 = if filter.require_b_negative && (Real { bits: ZERO }).at_most(p.b) {
        s3.push(JlsFailure::AmplitudeNotNegative)
    } else {
        s3
    };
    if p.structurally_valid() {
        s4
    } else {
        s4.push(JlsFailure::NotStructurallyValid)
    }
}

/// Checks a fit against the filter at the time `t_current`: whether it passes, and every
/// reason for which it does not.
pub fn is_strict_jls_valid(p: &LpplParams, t_current: Real, filter: &LpplFilterConfig) -> (r: (
    bool,
    Vec<JlsFailure>,
))
    ensures
        r.1@ == jls_failures(*p, t_current, *filter),
        r.0 <==> jls_failures(*p, t_current, *filter).len() == 0,
{
    let zero = Real { bits: ZERO };
    let mut reasons: Vec<JlsFailure> = Vec::new();
    let bound = t_current.add(Real { bits: ONE_BITS }).add(
        Real::from_usize(filter.min_tc_offset_days),
    );
    if p.tc.le(bound) {
        reasons.push(JlsFailure::CriticalTimeTooNear);
    }
    if p.m.lt(filter.m_min) || filter.m_max.lt(p.m) {
        reasons.push(JlsFailure::ExponentOutside);
    }
    if p.omega.lt(filter.omega_min) || filter.omega_max.lt(p.omega) {
        reasons.push(JlsFailure::FrequencyOutside);
    }
    if filter.require_b_negative && zero.le(p.b) {
        reasons.push(JlsFailure::AmplitudeNotNegative);
    }
    if !p.is_valid() {
        reasons.push(JlsFailure::NotStructurallyValid);
    }
    (reasons.len() == 0, reasons)
}

/// The risk level of a confidence, in per cent.
pub open spec fn risk_text(confidence: Real) -> Seq<char> {
    if confidence.below(Real { bits: FIFTEEN }) {
        "LOW RISK"@
    } else if confidence.below(Real { bits: FORTY_FIVE }) {
        "MODERATE RISK"@
    } else if confidence.below(Real { bits: SEVENTY_FIVE }) {
        "HIGH RISK"@
    } else {
        "CRITICAL BUBBLE REGIME"@
    }
}

/// The risk level of a confidence, in per cent.
pub fn risk_level_of(confidence: Real) -> (r: String)
    ensures
        r@ == risk_text(confidence),
{
    if confidence.lt(Real { bits: FIFTEEN }) {
        "LOW RISK".to_owned()
    } else if confidence.lt(Real { bits: FORTY_FIVE }) {
        "MODERATE RISK".to_owned()
    } else if confidence.lt(Real { bits: SEVENTY_FIVE }) {
        "HIGH RISK".to_owned()
    } else {
        "CRITICAL BUBBLE REGIME".to_owned()
    }
}

/// What a risk level means.
pub open spec fn description_of(level: Seq<char>) -> Seq<char> {
    if level == "LOW RISK"@ {
        "Normal organic trend or basic noise. No systematic herding signatures detected."@
    } else if level == "MODERATE RISK"@ {
        "Localized acceleration detected. Keep an eye on parabolic velocity changes."@
    } else if level == "HIGH RISK"@ {
        "Significant critical mass forming. The trend shows super-exponential characteristics."@
    } else if level == "CRITICAL BUBBLE REGIME"@ {
        "Extreme herd synchronization. Acceleration pattern is structurally unstable."@
    } else {
        "Unknown risk level."@
    }
}

/// The outcome of a sweep of look-back windows.
#[derive(Clone, Debug)]
pub struct BubbleAnalysisResult {
    pub analysis_date: Date,
    pub current_price: Real,
    pub total_windows_tested: usize,
    pub valid_fits: usize,
    /// Per cent, 0 to 100.
    pub bubble_confidence_index: Real,
    pub risk_level: String,
    /// In ascending order.
    pub predicted_critical_dates: Vec<Date>,
    pub median_predicted_date: Option<Date>,
    /// First day of the window and critical date, for each fit that counts.
    pub valid_fit_details: Vec<(Date, Date)>,
}

impl BubbleAnalysisResult {
    pub fn risk_description(&self) -> (r: &'static str)
        ensures
            r@ == description_of(self.risk_level@),
    {
        let level = self.risk_level.as_str();
        if same_text(level, "LOW RISK") {
            "Normal organic trend or basic noise. No systematic herding signatures detected."
        } else if same_text(level, "MODERATE RISK") {
            "Localized acceleration detected. Keep an eye on parabolic velocity changes."
        } else if same_text(level, "HIGH RISK") {
            "Significant critical mass forming. The trend shows super-exponential characteristics."
        } else if same_text(level, "CRITICAL BUBBLE REGIME") {
            "Extreme herd synchronization. Acceleration pattern is structurally unstable."
        } else {
            "Unknown risk level."
        }
    }
}

/// Why a sweep cannot be made.
#[derive(Clone, Copy, Debug, PartialEq, Eq, Structural)]
pub enum AnalysisError {
    /// The bar does not exist, or the longest look-back reaches behind the first bar.
    InvalidRange,
    /// The shortest look-back is under 30 days.
    LookbackTooShort,
}

impl AnalysisError {
    pub open spec fn text(self) -> Seq<char> {
        match self {
            AnalysisError::InvalidRange => "Invalid current_idx or lookback for bubble analysis"@,
            AnalysisError::LookbackTooShort => {
                "lookback_min must be at least 30 for stable LPPL"@
            },
        }
    }

    pub fn message(&self) -> (r: &'static str)
        ensures
            r@ == self.text(),
    {
        match self {
            AnalysisError::InvalidRange => "Invalid current_idx or lookback for bubble analysis",
            AnalysisError::LookbackTooShort => {
                "lookback_min must be at least 30 for stable LPPL"
            },
        }
    }
}

/// Look-back windows to sweep, all ending at one bar.
#[derive(Clone, Copy, Debug, PartialEq, Eq, Structural)]
pub struct Sweep {
    pub current_idx: usize,
    pub lookback_min: usize,
    pub lookback_max: usize,
    pub step_days: usize,
}

impl Sweep {
    /// The step leads on, and stays inside the machine's range.
    pub open spec fn wf(self) -> bool {
        self.step_days > 0 && self.current_idx + self.step_days <= usize::MAX
    }

    /// What is wrong with a sweep over `n` bars.
    pub open spec fn fault(self, n: nat) -> Option<AnalysisError> {
        if self.current_idx >= n || self.lookback_max > self.current_idx {
            Some(AnalysisError::InvalidRange)
        } else if self.lookback_min < 30 {
            Some(AnalysisError::LookbackTooShort)
        } else {
            None
        }
    }

    /// First window start: the longest look-back.
    pub open spec fn first_start(self) -> int {
        self.current_idx - self.lookback_max
    }

    /// Last window start: the shortest look-back that leaves at least 30 bars, or the
    /// first bar where the shortest look-back reaches behind it.
    pub open spec fn last_start(self) -> int {
        let shortest = if self.lookback_min <= self.current_idx {
            self.current_idx - self.lookback_min
        } else {
            0
        };
        if shortest <= self.current_idx - 29 {
            shortest
        } else {
            self.current_idx - 29
        }
    }

    /// How many windows there are.
    pub open spec fn count(self) -> int {
        if self.first_start() > self.last_start() {
            0
        } else {
            (self.last_start() - self.first_start()) / self.step_days as int + 1
        }
    }

    /// Start of window `k`.
    pub open spec fn start_of(self, k: int) -> int {
        self.first_start() + k * self.step_days
    }

    /// The starts of all windows, longest look-back first.
    pub open spec fn starts(self) -> Seq<int> {
        Seq::new(self.count() as nat, |k: int| self.start_of(k))
    }

    /// What is wrong with a sweep over `n` bars.
    pub fn check(&self, n: usize) -> (r: Option<AnalysisError>)
        ensures
            r == self.fault(n as nat),
    {
        if self.current_idx >= n || self.lookback_max > self.current_idx {
            Some(AnalysisError::InvalidRange)
        } else if self.lookback_min < 30 {
            Some(AnalysisError::LookbackTooShort)
        } else {
            None
        }
    }

    /// The starts of all windows, longest look-back first. Each window runs from its start
    /// to the current bar.
    pub fn window_starts(&self) -> (r: Vec<usize>)
        requires
            self.wf(),
            self.lookback_max <= self.current_idx,
        ensures
            r@.len() == self.count(),
            forall|k: int| 0 <= k < r@.len() ==> #[trigger] r@[k] == self.start_of(k),
    {
        let mut r: Vec<usize> = Vec::new();
        let shortest: usize = if self.lookback_min <= self.current_idx {
            self.current_idx - self.lookback_min
        } else {
            0
        };
        let mut start: usize = self.current_idx - self.lookback_max;
        assert(0 * self.step_days == 0) by (nonlinear_arith);
        while start <= shortest && self.current_idx - start >= 29
            invariant
                self.wf(),
                self.lookback_max <= self.current_idx,
                shortest <= self.current_idx,
                shortest == (if self.lookback_min <= self.current_idx {
                    self.current_idx - self.lookback_min
                } else {
                    0
                }),
                start == self.start_of(r@.len() as int),
                r@.len() > 0 ==> self.start_of(r@.len() - 1) <= self.last_start(),
                forall|k: int| 0 <= k < r@.len() ==> #[trigger] r@[k] == self.start_of(k),
                start <= self.current_idx + self.step_days,
            decreases self.current_idx + self.step_days - start,
        {
            r.push(start);
            proof {
                let len = r@.len() as int;
                assert(len * self.step_days == (len - 1) * self.step_days + self.step_days)
                    by (nonlinear_arith);
            }
            start = start + self.step_days;
        }
        proof {
            let len = r@.len() as int;
            let d = self.step_days as int;
            let span = self.last_start() - self.first_start();
            if len > 0 {
                assert((len - 1) * d <= span < len * d);
                assert(span / d == len - 1) by (nonlinear_arith)
                    requires
                        (len - 1) * d <= span < len * d,
                        d > 0,
                ;
            }
        }
        r
    }
}

/// Law: each window of a sweep without fault lies inside the bars, ends at the current
/// bar, and holds at least 30 bars and at most the longest look-back.
pub proof fn law_windows_inside(sweep: Sweep, n: nat, k: int)
    requires
        sweep.wf(),
        sweep.fault(n) is None,
        0 <= k < sweep.count(),
    ensures
        0 <= sweep.start_of(k) <= sweep.current_idx < n,
        sweep.current_idx - sweep.start_of(k) + 1 >= 30,
        sweep.current_idx - sweep.start_of(k) <= sweep.lookback_max,
        sweep.lookback_min <= sweep.current_idx ==> sweep.current_idx - sweep.start_of(k)
            >= sweep.lookback_min,
{
    let d = sweep.step_days as int;
    let span = sweep.last_start() - sweep.first_start();
    assert(0 <= k * d <= span) by (nonlinear_arith)
        requires
            0 <= k <= span / d,
            d > 0,
            span >= 0,
    ;
}

/// How many of the first `k` windows carry a bubble signature.
pub open spec fn signature_count(
    sweep: Sweep,
    filter: LpplFilterConfig,
    fits: Seq<Option<LpplParams>>,
    k: int,
) -> nat
    decreases k,
{
    if k <= 0 {
        0
    } else {
        let before = signature_count(sweep, filter, fits, k - 1);
        match fits[k - 1] {
            Some(p) if signature(p, sweep.start_of(k - 1), sweep.current_idx as int, filter) => {
                before + 1
            },
            _ => before,
        }
    }
}

/// The critical date that the fit of window `k` points to, where it carries a signature
/// and the calendar reaches that date.
pub open spec fn predicted_date(
    bars: Seq<PriceBar>,
    sweep: Sweep,
    filter: LpplFilterConfig,
    fits: Seq<Option<LpplParams>>,
    k: int,
) -> Option<Date> {
    let today = bars[sweep.current_idx as int].date;
    match fits[k] {
        Some(p) => {
            let day = today.epoch_day + days_ahead(
                p,
                sweep.start_of(k),
                sweep.current_idx as int,
            );
            if signature(p, sweep.start_of(k), sweep.current_idx as int, filter)
                && today.valid() && dates::in_calendar(day) {
                Some(Date { epoch_day: day as i32 })
            } else {
                None
            }
        },
        None => None,
    }
}

/// First day and critical date of the first `k` windows that point to a date.
pub open spec fn fit_details(
    bars: Seq<PriceBar>,
    sweep: Sweep,
    filter: LpplFilterConfig,
    fits: Seq<Option<LpplParams>>,
    k: int,
) -> Seq<(Date, Date)>
    decreases k,
{
    if k <= 0 {
        Seq::empty()
    } else {
        let before = fit_details(bars, sweep, filter, fits, k - 1);
        match predicted_date(bars, sweep, filter, fits, k - 1) {
            Some(date) => before.push((bars[sweep.start_of(k - 1)].date, date)),
            None => before,
        }
    }
}

/// The critical dates of a list of details.
pub open spec fn critical_dates(details: Seq<(Date, Date)>) -> Seq<Date> {
    details.map_values(|d: (Date, Date)| d.1)
}

/// Dates in ascending order.
pub open spec fn dates_ascend(s: Seq<Date>) -> bool {
    forall|i: int, j: int| 0 <= i <= j < s.len() ==> s[i].epoch_day <= s[j].epoch_day
}

/// `sorted` holds the same dates as `s`, in ascending order.
pub open spec fn sorted_dates(s: Seq<Date>, sorted: Seq<Date>) -> bool {
    dates_ascend(sorted) && sorted.to_multiset() == s.to_multiset()
}

/// The date in the middle; of an even number, the later of the two in the middle.
pub open spec fn middle_date(s: Seq<Date>) -> Option<Date> {
    if s.len() == 0 {
        None
    } else {
        Some(s[s.len() as int / 2])
    }
}

/// Share of the windows that count, in per cent; 0 where there is no window.
pub open spec fn confidence_index(valid: int, total: int) -> Real {
    if total > 0 {
        Real::of_integer(valid).over(Real::of_integer(total)).times(Real { bits: HUNDRED })
    } else {
        Real { bits: ZERO }
    }
}

/// `r` is the outcome of a sweep over `bars` whose windows were fitted with `fits`.
pub open spec fn is_analysis(
    r: BubbleAnalysisResult,
    bars: Seq<PriceBar>,
    sweep: Sweep,
    filter: LpplFilterConfig,
    fits: Seq<Option<LpplParams>>,
) -> bool {
    let total = sweep.count();
    let details = fit_details(bars, sweep, filter, fits, total);
    &&& r.analysis_date == bars[sweep.current_idx as int].date
    &&& r.current_price == bars[sweep.current_idx as int].adj_close
    &&& r.total_windows_tested == total
    &&& r.valid_fits == signature_count(sweep, filter, fits, total)
    &&& r.bubble_confidence_index == confidence_index(
        signature_count(sweep, filter, fits, total) as int,
        total,
    )
    &&& r.risk_level@ == risk_text(r.bubble_confidence_index)
    &&& r.valid_fit_details@ == details
    &&& sorted_dates(critical_dates(details), r.predicted_critical_dates@)
    &&& r.median_predicted_date == middle_date(r.predicted_critical_dates@)
}

/// Puts a date behind all dates that are not later.
fn insert_date(sorted: &mut Vec<Date>, date: Date)
    requires
        dates_ascend(old(sorted)@),
    ensures
        dates_ascend(final(sorted)@),
        final(sorted)@.to_multiset() == old(sorted)@.to_multiset().insert(date),
{
    let mut at: usize = sorted.len();
    while at > 0 && sorted[at - 1].epoch_day > date.epoch_day
        invariant
            at <= sorted@.len(),
            forall|i: int|
                at <= i < sorted@.len() ==> (#[trigger] sorted@[i]).epoch_day > date.epoch_day,
        decreases at,
    {
        at = at - 1;
    }
    proof {
        assert forall|i: int| 0 <= i < at implies (#[trigger] sorted@[i]).epoch_day
            <= date.epoch_day by {
            assert(sorted@[i].epoch_day <= sorted@[at - 1].epoch_day);
        }
    }
    let ghost before = sorted@;
    sorted.insert(at, date);
    proof {
        let after = sorted@;
        assert(after =~= before.insert(at as int, date));
        assert forall|i: int, j: int| 0 <= i <= j < after.len() implies after[i].epoch_day
            <= after[j].epoch_day by {
            let a = if i < at { i } else { i - 1 };
            let b = if j < at { j } else { j - 1 };
            if i != at {
                assert(after[i] == before[a]);
            }
            if j != at {
                assert(after[j] == before[b]);
            }
        }
        assert(after.remove(at as int) =~= before);
        broadcast use group_to_multiset_ensures;

        assert(after.to_multiset() =~= before.to_multiset().insert(date));
    }
}

/// Takes up the critical date of a window that begins on the day `first`.
fn record_date(dates: &mut Vec<Date>, details: &mut Vec<(Date, Date)>, first: Date, date: Date)
    requires
        dates_ascend(old(dates)@),
        old(dates)@.to_multiset() == critical_dates(old(details)@).to_multiset(),
    ensures
        dates_ascend(final(dates)@),
        final(details)@ == old(details)@.push((first, date)),
        final(dates)@.to_multiset() == critical_dates(final(details)@).to_multiset(),
{
    let ghost before = details@;
    insert_date(dates, date);
    details.push((first, date));
    proof {
        assert(critical_dates(details@) =~= critical_dates(before).push(date));
        broadcast use group_to_multiset_ensures;

    }
}

proof fn lemma_signature_count_bound(
    sweep: Sweep,
    filter: LpplFilterConfig,
    fits: Seq<Option<LpplParams>>,
    k: int,
)
    requires
        k >= 0,
    ensures
        signature_count(sweep, filter, fits, k) <= k,
    decreases k,
{
    if k > 0 {
        lemma_signature_count_bound(sweep, filter, fits, k - 1);
    }
}

/// The bubble confidence at one bar, from the fits of the sweep's windows in the order of
/// [`Sweep::window_starts`]. A window that could not be fitted has no entry but `None`.
pub fn compute_bubble_confidence(
    bars: &Vec<PriceBar>,
    current_idx: usize,
    lookback_min: usize,
    lookback_max: usize,
    step_days: usize,
    filter: &LpplFilterConfig,
    fits: &Vec<Option<LpplParams>>,
) -> (r: Result<BubbleAnalysisResult, AnalysisError>)
    requires
        ({
            let sweep = Sweep { current_idx, lookback_min, lookback_max, step_days };
            sweep.fault(bars@.len()) is None ==> sweep.wf() && fits@.len() == sweep.count()
        }),
    ensures
        ({
            let sweep = Sweep { current_idx, lookback_min, lookback_max, step_days };
            &&& r is Ok <==> sweep.fault(bars@.len()) is None
            &&& r matches Err(e) ==> sweep.fault(bars@.len()) == Some(e)
            &&& r matches Ok(a) ==> is_analysis(a, bars@, sweep, *filter, fits@)
        }),
{
    let sweep = &Sweep { current_idx, lookback_min, lookback_max, step_days };
    match sweep.check(bars.len()) {
        Some(e) => {
            return Err(e);
        },
        None => {},
    }
    let current: usize = sweep.current_idx;
    let today = bars[current].date;
    let starts = sweep.window_starts();
    let total: usize = starts.len();
    let mut valid: usize = 0;
    let mut dates: Vec<Date> = Vec::new();
    let mut details: Vec<(Date, Date)> = Vec::new();
    let mut k: usize = 0;
    proof {
        assert(critical_dates(Seq::empty()) =~= Seq::<Date>::empty());
        assert(dates@ =~= Seq::<Date>::empty());
    }
    while k < total
        invariant
            k <= total,
            sweep.wf(),
            sweep.fault(bars@.len()) is None,
            total == sweep.count(),
            fits@.len() == total,
            starts@.len() == total,
            forall|j: int| 0 <= j < total ==> #[trigger] starts@[j] == sweep.start_of(j),
            current == sweep.current_idx,
            today == bars@[current as int].date,
            valid <= k,
            valid == signature_count(*sweep, *filter, fits@, k as int),
            details@ == fit_details(bars@, *sweep, *filter, fits@, k as int),
            dates_ascend(dates@),
            dates@.to_multiset() == critical_dates(details@).to_multiset(),
        decreases total - k,
    {
        proof {
            law_windows_inside(*sweep, bars@.len(), k as int);
        }
        match fits[k] {
            Some(p) => {
                let start: usize = starts[k];
                if is_signature(&p, start, current, filter) {
                    valid = valid + 1;
                    let days: i64 = whole_days_ahead(&p, start, current);
                    match today.plus_days(days) {
                        Some(date) => {
                            record_date(&mut dates, &mut details, bars[start].date, date);
                        },
                        None => {},
                    }
                }
            },
            None => {},
        }
        k = k + 1;
    }
    let confidence = if total > 0 {
        Real::from_usize(valid).div(Real::from_usize(total)).mul(Real { bits: HUNDRED })
    } else {
        Real { bits: ZERO }
    };
    let median: Option<Date> = if dates.len() > 0 {
        Some(dates[dates.len() / 2])
    } else {
        None
    };
    Ok(
        BubbleAnalysisResult {
            analysis_date: today,
            current_price: bars[current].adj_close,
            total_windows_tested: total,
            valid_fits: valid,
            bubble_confidence_index: confidence,
            risk_level: risk_level_of(confidence),
            predicted_critical_dates: dates,
            median_predicted_date: median,
            valid_fit_details: details,
        },
    )
}

/// The pattern of 100 is 100.
pub proof fn lemma_hundred()
    ensures
        (Real { bits: HUNDRED }) == Real::of_integer(100),
        (Real { bits: HUNDRED }).finite(),
        !(Real { bits: HUNDRED }).negative(),
        (Real { bits: HUNDRED }).value() == 100 * crate::binary64::one_in_units(),
{
    let hundred = Real { bits: HUNDRED };
    let exact = Real::of_integer(100);
    order::lemma_integer_exact(100);
    crate::rounding::lemma_pow2_constants();
    assert(crate::binary64::field_scale(HUNDRED as nat) == 1028);
    assert(crate::binary64::field_significand(HUNDRED as nat) == 25 * 0x1_0000_0000_0000);
    vstd::arithmetic::power2::lemma2_to64_rest();
    vstd::arithmetic::power2::lemma_pow2_adds(48, 1028);
    vstd::arithmetic::power2::lemma_pow2_adds(2, 1074);
    let low = vstd::arithmetic::power2::pow2(48);
    let high = vstd::arithmetic::power2::pow2(1028);
    assert(low == 0x1_0000_0000_0000);
    assert((25 * low) * high == 25 * (low * high)) by (nonlinear_arith);
    vstd::arithmetic::power2::lemma2_to64();
    assert(hundred.magnitude() == exact.magnitude());
    order::lemma_magnitude_reflects(hundred.field(), exact.field());
    order::lemma_magnitude_reflects(exact.field(), hundred.field());
}

/// Law: a confidence lies between 0 and 100 per cent.
pub proof fn law_confidence_is_percentage(valid: int, total: int)
    requires
        0 <= valid <= total <= u64::MAX,
    ensures
        (Real { bits: ZERO }).at_most(confidence_index(valid, total)),
        confidence_index(valid, total).at_most(Real { bits: HUNDRED }),
{
    crate::binary64::lemma_zero();
    lemma_hundred();
    vstd::arithmetic::power2::lemma_pow2_pos(1074);
    if total > 0 {
        order::lemma_integer_share(valid, total);
        let share = Real::of_integer(valid).over(Real::of_integer(total));
        let hundred = Real { bits: HUNDRED };
        order::lemma_times_commutes(share, hundred);
        order::lemma_times_shrinks(hundred, share);
        order::lemma_magnitude_order(share.times(hundred).field(), hundred.field());
    }
}

/// Law: the outcome of a sweep counts no more fits than windows, its confidence is a
/// percentage, its dates ascend, and its median is one of them.
pub proof fn law_analysis_is_coherent(
    r: BubbleAnalysisResult,
    bars: Seq<PriceBar>,
    sweep: Sweep,
    filter: LpplFilterConfig,
    fits: Seq<Option<LpplParams>>,
)
    requires
        sweep.wf(),
        sweep.fault(bars.len()) is None,
        is_analysis(r, bars, sweep, filter, fits),
    ensures
        r.valid_fits <= r.total_windows_tested,
        (Real { bits: ZERO }).at_most(r.bubble_confidence_index),
        r.bubble_confidence_index.at_most(Real { bits: HUNDRED }),
        dates_ascend(r.predicted_critical_dates@),
        r.predicted_critical_dates@.len() == r.valid_fit_details@.len(),
        r.valid_fit_details@.len() <= r.valid_fits,
        r.median_predicted_date matches Some(d) ==> r.predicted_critical_dates@.contains(d),
        r.median_predicted_date is None <==> r.predicted_critical_dates@.len() == 0,
{
    let total = sweep.count();
    lemma_signature_count_bound(sweep, filter, fits, total);
    law_confidence_is_percentage(r.valid_fits as int, r.total_windows_tested as int);
    lemma_details_bound(bars, sweep, filter, fits, total);
    let listed = critical_dates(r.valid_fit_details@);
    listed.to_multiset_ensures();
    r.predicted_critical_dates@.to_multiset_ensures();
    if r.predicted_critical_dates@.len() > 0 {
        let mid = r.predicted_critical_dates@.len() as int / 2;
        assert(r.predicted_critical_dates@[mid] == r.median_predicted_date->0);
    }
}

proof fn lemma_details_bound(
    bars: Seq<PriceBar>,
    sweep: Sweep,
    filter: LpplFilterConfig,
    fits: Seq<Option<LpplParams>>,
    k: int,
)
    requires
        k >= 0,
    ensures
        fit_details(bars, sweep, filter, fits, k).len() <= signature_count(
            sweep,
            filter,
            fits,
            k,
        ),
    decreases k,
{
    if k > 0 {
        lemma_details_bound(bars, sweep, filter, fits, k - 1);
    }
}

/// Law: a predicted critical date lies at least the configured number of days after the
/// day of the analysis.
pub proof fn law_predictions_lie_ahead(
    bars: Seq<PriceBar>,
    sweep: Sweep,
    filter: LpplFilterConfig,
    fits: Seq<Option<LpplParams>>,
    k: int,
)
    requires
        sweep.current_idx + filter.min_tc_offset_days < 0x20_0000_0000_0000,
    ensures
        predicted_date(bars, sweep, filter, fits, k) matches Some(date) ==> date.epoch_day
            >= bars[sweep.current_idx as int].date.epoch_day + filter.min_tc_offset_days,
{
    let one = crate::binary64::one_in_units();
    let current = sweep.current_idx as int;
    let offset = filter.min_tc_offset_days as int;
    if let Some(p) = fits[k] {
        let start = sweep.start_of(k);
        if signature(p, start, current, filter) {
            order::lemma_integer_exact(current);
            order::lemma_integer_exact(offset);
            order::lemma_integer_exact(current + offset);
            let now = Real::of_integer(current);
            let bound = now.plus(Real::of_integer(offset));
            order::lemma_plus_value(now, Real::of_integer(offset));
            assert(current * one + offset * one == (current + offset) * one) by (nonlinear_arith);
            order::lemma_rounded_value(Real::of_integer(current + offset));
            let target = critical_index(p, start);
            assert(bound.value() == (current + offset) * one);
            let distance = target.minus(now);
            order::lemma_signed(!now.negative(), now.field());
            if target.finite() {
                order::lemma_plus_value(target, now.negated());
                order::lemma_rounded_order(offset * one, target.value() - now.value());
                order::lemma_rounded_value(Real::of_integer(offset));
                order::lemma_nearest_integer_bound(distance, offset);
            } else {
                assert(current * one >= 0 && offset * one >= 0) by (nonlinear_arith)
                    requires
                        current >= 0,
                        offset >= 0,
                ;
                assert(distance == target);
                assert((current + offset) * one >= offset * one) by (nonlinear_arith)
                    requires
                        current >= 0,
                        one >= 0,
                ;
                order::lemma_nearest_integer_bound(distance, offset);
            }
        }
    }
}

/// The critical time of a fit of a window of `n` bars lies where the search of
/// [`crate::search`] looks for it: with the published settings, 5 to 250 days behind the
/// last bar.
pub open spec fn searched(p: LpplParams, n: int) -> bool {
    let (low, high) = lppl::critical_range(
        Real::of_integer(n),
        lppl::LpplFitConfig::standard(),
    );
    low.at_most(p.tc) && p.tc.at_most(high)
}

/// The fits of all windows come from the search.
pub open spec fn all_searched(sweep: Sweep, fits: Seq<Option<LpplParams>>) -> bool {
    forall|k: int|
        0 <= k < sweep.count() ==> (#[trigger] fits[k] matches Some(p) ==> searched(
            p,
            sweep.current_idx - sweep.start_of(k) + 1,
        ))
}

proof fn lemma_searched_days(p: LpplParams, start: int, current: int)
    requires
        0 <= start <= current,
        current + 252 < crate::rounding::SIGNIFICAND_END,
        searched(p, current - start + 1),
    ensures
        5 <= days_ahead(p, start, current) <= 250,
{
    let one = crate::binary64::one_in_units() as int;
    let n = current - start + 1;
    order::lemma_integer_exact(n);
    order::lemma_integer_exact(5);
    order::lemma_integer_exact(250);
    order::lemma_integer_exact(start);
    order::lemma_integer_exact(current);
    order::lemma_integer_exact(1);
    order::lemma_one();
    assert(n * one + 5 * one == (n + 5) * one) by (nonlinear_arith);
    assert(n * one + 250 * one == (n + 250) * one) by (nonlinear_arith);
    let whole = Real::of_integer(n);
    order::lemma_plus_between(whole, Real::of_integer(5), n + 5, n + 5);
    order::lemma_plus_between(whole, Real::of_integer(250), n + 250, n + 250);
    order::lemma_between_is_finite(p.tc, n + 5, n + 250);
    assert(start * one + (n + 5) * one == (current + 6) * one) by (nonlinear_arith)
        requires
            n == current - start + 1,
    ;
    assert(start * one + (n + 250) * one == (current + 251) * one) by (nonlinear_arith)
        requires
            n == current - start + 1,
    ;
    let placed = Real::of_integer(start).plus(p.tc);
    order::lemma_plus_between(Real::of_integer(start), p.tc, current + 6, current + 251);
    let unit = Real { bits: ONE_BITS };
    order::lemma_signed(true, unit.field());
    assert((current + 6) * one - one == (current + 5) * one) by (nonlinear_arith);
    assert((current + 251) * one - one == (current + 250) * one) by (nonlinear_arith);
    order::lemma_plus_between(placed, unit.negated(), current + 5, current + 250);
    let now = Real::of_integer(current);
    order::lemma_signed(!now.negative(), now.field());
    assert((current + 5) * one - current * one == 5 * one) by (nonlinear_arith);
    assert((current + 250) * one - current * one == 250 * one) by (nonlinear_arith);
    order::lemma_plus_between(placed.minus(unit), now.negated(), 5, 250);
    let distance = placed.minus(unit).minus(now);
    vstd::arithmetic::power2::lemma_pow2_pos(1074);
    order::lemma_nearest_integer_bound(distance, 5);
    order::lemma_nearest_integer_limit(distance, 250);
}

proof fn lemma_searched_details(
    bars: Seq<PriceBar>,
    sweep: Sweep,
    filter: LpplFilterConfig,
    fits: Seq<Option<LpplParams>>,
    k: int,
)
    requires
        sweep.wf(),
        sweep.fault(bars.len()) is None,
        0 <= k <= sweep.count(),
        all_searched(sweep, fits),
        sweep.current_idx + 252 < crate::rounding::SIGNIFICAND_END,
        sweep.current_idx + filter.min_tc_offset_days < crate::rounding::SIGNIFICAND_END,
        bars[sweep.current_idx as int].date.valid(),
        dates::in_calendar(bars[sweep.current_idx as int].date.epoch_day + 250),
    ensures
        ({
            let today = bars[sweep.current_idx as int].date.epoch_day;
            let details = fit_details(bars, sweep, filter, fits, k);
            &&& details.len() == signature_count(sweep, filter, fits, k)
            &&& forall|j: int|
                0 <= j < details.len() ==> {
                    &&& today + 5 <= (#[trigger] details[j]).1.epoch_day <= today + 250
                    &&& today + filter.min_tc_offset_days <= details[j].1.epoch_day
                }
        }),
    decreases k,
{
    if k > 0 {
        lemma_searched_details(bars, sweep, filter, fits, k - 1);
        law_windows_inside(sweep, bars.len(), k - 1);
        law_predictions_lie_ahead(bars, sweep, filter, fits, k - 1);
        if let Some(p) = fits[k - 1] {
            lemma_searched_days(p, sweep.start_of(k - 1), sweep.current_idx as int);
        }
    }
}

/// Law: with fits that come from the search, every bubble signature points to a critical
/// date, and every such date lies 5 to 250 days, and at least the configured number of
/// days, after the day of the analysis.
pub proof fn law_predictions_lie_where_searched(
    r: BubbleAnalysisResult,
    bars: Seq<PriceBar>,
    sweep: Sweep,
    filter: LpplFilterConfig,
    fits: Seq<Option<LpplParams>>,
)
    requires
        sweep.wf(),
        sweep.fault(bars.len()) is None,
        is_analysis(r, bars, sweep, filter, fits),
        all_searched(sweep, fits),
        sweep.current_idx + 252 < crate::rounding::SIGNIFICAND_END,
        sweep.current_idx + filter.min_tc_offset_days < crate::rounding::SIGNIFICAND_END,
        r.analysis_date.valid(),
        dates::in_calendar(r.analysis_date.epoch_day + 250),
    ensures
        r.predicted_critical_dates@.len() == r.valid_fits,
        r.valid_fit_details@.len() == r.valid_fits,
        forall|j: int|
            0 <= j < r.predicted_critical_dates@.len() ==> {
                let days = (#[trigger] r.predicted_critical_dates@[j]).epoch_day
                    - r.analysis_date.epoch_day;
                5 <= days <= 250 && filter.min_tc_offset_days <= days
            },
{
    let total = sweep.count();
    lemma_searched_details(bars, sweep, filter, fits, total);
    let details = r.valid_fit_details@;
    let listed = critical_dates(details);
    let sorted = r.predicted_critical_dates@;
    listed.to_multiset_ensures();
    sorted.to_multiset_ensures();
    assert forall|j: int| 0 <= j < sorted.len() implies {
        let days = (#[trigger] sorted[j]).epoch_day - r.analysis_date.epoch_day;
        5 <= days <= 250 && filter.min_tc_offset_days <= days
    } by {
        assert(sorted.contains(sorted[j]));
        assert(sorted.to_multiset().count(sorted[j]) > 0);
        assert(listed.contains(sorted[j]));
        let i = choose|i: int| 0 <= i < listed.len() && listed[i] == sorted[j];
        assert(listed[i] == details[i].1);
    }
}

/// Law: the fit of a window that a search with the published settings finds has its
/// critical time where [`searched`] says.
pub proof fn law_fits_are_searched(search: crate::search::LpplSearch, p: LpplParams, n: nat)
    requires
        search.wf(),
        search.cfg == lppl::LpplFitConfig::standard(),
        search.times@ == lppl::window_times(n),
        search.intervals().holds(p),
    ensures
        searched(p, n as int),
{
}

/// The filter lets through whatever the stricter one lets through.
pub open spec fn no_stricter(loose: LpplFilterConfig, strict: LpplFilterConfig) -> bool {
    &&& loose.m_min.at_most(strict.m_min) && strict.m_max.at_most(loose.m_max)
    &&& loose.omega_min.at_most(strict.omega_min) && strict.omega_max.at_most(loose.omega_max)
    &&& loose.require_b_negative ==> strict.require_b_negative
    &&& loose.min_tc_offset_days <= strict.min_tc_offset_days
}

proof fn lemma_signature_loosens(
    p: LpplParams,
    start: int,
    current: usize,
    strict: LpplFilterConfig,
    loose: LpplFilterConfig,
)
    requires
        no_stricter(loose, strict),
        signature(p, start, current as int, strict),
    ensures
        signature(p, start, current as int, loose),
{
    let less = loose.min_tc_offset_days as int;
    let more = strict.min_tc_offset_days as int;
    order::lemma_integer_order(less, more);
    order::lemma_integer_order(current as int, current as int);
    let now = Real::of_integer(current as int);
    order::lemma_plus_order(now, now, Real::of_integer(less), Real::of_integer(more));
}

proof fn lemma_details_loosen(
    bars: Seq<PriceBar>,
    sweep: Sweep,
    strict: LpplFilterConfig,
    loose: LpplFilterConfig,
    fits: Seq<Option<LpplParams>>,
    k: int,
)
    requires
        no_stricter(loose, strict),
    ensures
        signature_count(sweep, strict, fits, k) <= signature_count(sweep, loose, fits, k),
        forall|d: (Date, Date)|
            fit_details(bars, sweep, strict, fits, k).contains(d) ==> #[trigger] fit_details(
                bars,
                sweep,
                loose,
                fits,
                k,
            ).contains(d),
    decreases k,
{
    if k > 0 {
        lemma_details_loosen(bars, sweep, strict, loose, fits, k - 1);
        let start = sweep.start_of(k - 1);
        if let Some(p) = fits[k - 1] {
            if signature(p, start, sweep.current_idx as int, strict) {
                lemma_signature_loosens(p, start, sweep.current_idx, strict, loose);
            }
        }
        let a0 = fit_details(bars, sweep, strict, fits, k - 1);
        let b0 = fit_details(bars, sweep, loose, fits, k - 1);
        let a = fit_details(bars, sweep, strict, fits, k);
        let b = fit_details(bars, sweep, loose, fits, k);
        assert forall|d: (Date, Date)| a.contains(d) implies #[trigger] b.contains(d) by {
            let i = choose|i: int| 0 <= i < a.len() && a[i] == d;
            if i < a0.len() {
                assert(a0[i] == d);
                assert(a0.contains(d));
                assert(b0.contains(d));
                let j = choose|j: int| 0 <= j < b0.len() && b0[j] == d;
                assert(b[j] == d);
            } else {
                assert(b[b0.len() as int] == d);
            }
        }
    }
}

/// Law: a filter that is no stricter tests the same windows and never counts fewer fits,
/// has no lower confidence, and keeps every detail.
pub proof fn law_looser_filters_keep(
    r1: BubbleAnalysisResult,
    r2: BubbleAnalysisResult,
    bars: Seq<PriceBar>,
    sweep: Sweep,
    strict: LpplFilterConfig,
    loose: LpplFilterConfig,
    fits: Seq<Option<LpplParams>>,
)
    requires
        no_stricter(loose, strict),
        is_analysis(r1, bars, sweep, strict, fits),
        is_analysis(r2, bars, sweep, loose, fits),
    ensures
        r1.total_windows_tested == r2.total_windows_tested,
        r1.valid_fits <= r2.valid_fits,
        r1.bubble_confidence_index.at_most(r2.bubble_confidence_index),
        forall|d: (Date, Date)|
            #[trigger] r1.valid_fit_details@.contains(d) ==> r2.valid_fit_details@.contains(d),
{
    let total = sweep.count();
    lemma_details_loosen(bars, sweep, strict, loose, fits, total);
    crate::binary64::lemma_zero();
    if total > 0 {
        let v1 = r1.valid_fits as int;
        let v2 = r2.valid_fits as int;
        let whole = Real::of_integer(total);
        lemma_signature_count_bound(sweep, strict, fits, total);
        lemma_signature_count_bound(sweep, loose, fits, total);
        order::lemma_integer_order(v1, v2);
        order::lemma_integer_share(v1, total);
        order::lemma_integer_share(v2, total);
        order::lemma_integer_order(1, total);
        order::lemma_integer_exact(1);
        vstd::arithmetic::power2::lemma_pow2_pos(1074);
        assert(1 * crate::binary64::one_in_units() == crate::binary64::one_in_units());
        assert(whole.field() != 0);
        order::lemma_over_order(Real::of_integer(v1), Real::of_integer(v2), whole);
        lemma_hundred();
        order::lemma_times_order(
            Real::of_integer(v1).over(whole),
            Real::of_integer(v2).over(whole),
            Real { bits: HUNDRED },
        );
    }
}

/// Law: what goes into a sweep fixes everything that comes out.
pub proof fn law_analysis_is_reproducible(
    r1: BubbleAnalysisResult,
    r2: BubbleAnalysisResult,
    bars: Seq<PriceBar>,
    sweep: Sweep,
    filter: LpplFilterConfig,
    fits: Seq<Option<LpplParams>>,
)
    requires
        is_analysis(r1, bars, sweep, filter, fits),
        is_analysis(r2, bars, sweep, filter, fits),
    ensures
        r1.analysis_date == r2.analysis_date,
        r1.current_price == r2.current_price,
        r1.total_windows_tested == r2.total_windows_tested,
        r1.valid_fits == r2.valid_fits,
        r1.bubble_confidence_index == r2.bubble_confidence_index,
        r1.risk_level@ == r2.risk_level@,
        r1.predicted_critical_dates@ == r2.predicted_critical_dates@,
        r1.median_predicted_date == r2.median_predicted_date,
        r1.valid_fit_details@ == r2.valid_fit_details@,
{
    let leq = |a: Date, b: Date| a.epoch_day <= b.epoch_day;
    lemma_sorted_unique(r1.predicted_critical_dates@, r2.predicted_critical_dates@, leq);
}

/// Law: a sweep never looks ahead: bars behind the day of the analysis do not matter.
pub proof fn law_analysis_looks_back(
    r: BubbleAnalysisResult,
    a: Seq<PriceBar>,
    b: Seq<PriceBar>,
    sweep: Sweep,
    filter: LpplFilterConfig,
    fits: Seq<Option<LpplParams>>,
)
    requires
        sweep.wf(),
        sweep.fault(a.len()) is None,
        sweep.current_idx < b.len(),
        forall|j: int| 0 <= j <= sweep.current_idx ==> a[j] == b[j],
        is_analysis(r, a, sweep, filter, fits),
    ensures
        sweep.fault(b.len()) is None,
        is_analysis(r, b, sweep, filter, fits),
{
    lemma_details_look_back(a, b, sweep, filter, fits, sweep.count());
}

proof fn lemma_details_look_back(
    a: Seq<PriceBar>,
    b: Seq<PriceBar>,
    sweep: Sweep,
    filter: LpplFilterConfig,
    fits: Seq<Option<LpplParams>>,
    k: int,
)
    requires
        sweep.wf(),
        sweep.fault(a.len()) is None,
        k <= sweep.count(),
        sweep.current_idx < b.len(),
        forall|j: int| 0 <= j <= sweep.current_idx ==> a[j] == b[j],
    ensures
        fit_details(a, sweep, filter, fits, k) == fit_details(b, sweep, filter, fits, k),
    decreases k,
{
    if k > 0 {
        lemma_details_look_back(a, b, sweep, filter, fits, k - 1);
        law_windows_inside(sweep, a.len(), k - 1);
    }
}

/// Seeds to search with: the given ones, or 42 where none is given.
pub open spec fn seeds_or_default(seeds: Seq<u64>) -> Seq<u64> {
    if seeds.len() == 0 {
        seq![42u64]
    } else {
        seeds
    }
}

/// Seeds to search with: the given ones, or 42 where none is given.
pub fn effective_seeds(seeds: &Vec<u64>) -> (r: Vec<u64>)
    ensures
        r@ == seeds_or_default(seeds@),
{
    let mut r: Vec<u64> = Vec::new();
    if seeds.len() == 0 {
        r.push(42);
        return r;
    }
    let mut i: usize = 0;
    while i < seeds.len()
        invariant
            i <= seeds@.len(),
            r@ == seeds@.take(i as int),
        decreases seeds@.len() - i,
    {
        r.push(seeds[i]);
        i = i + 1;
    }
    assert(seeds@.take(i as int) =~= seeds@);
    r
}

/// Sweeps of one bar with several seeds, taken together.
#[derive(Clone, Debug)]
pub struct EnsembleAnalysis {
    /// The first sweep, with the mean confidence and the critical dates of all sweeps.
    pub combined: BubbleAnalysisResult,
    pub mean_confidence: Real,
    pub std_confidence: Real,
    pub per_seed: Vec<BubbleAnalysisResult>,
}

/// The confidences of the sweeps, in order.
pub open spec fn confidences_of(results: Seq<BubbleAnalysisResult>) -> Seq<Real> {
    Seq::new(results.len(), |k: int| results[k].bubble_confidence_index)
}

/// Dates in ascending order, none twice.
pub open spec fn dates_climb(s: Seq<Date>) -> bool {
    forall|i: int, j: int| 0 <= i < j < s.len() ==> s[i].epoch_day < s[j].epoch_day
}

/// Some sweep points to the date.
pub open spec fn predicted_by_any(results: Seq<BubbleAnalysisResult>, date: Date) -> bool {
    exists|k: int|
        0 <= k < results.len() && (#[trigger] results[k]).predicted_critical_dates@.contains(date)
}

/// `e` takes the sweeps with the fits of each seed together.
pub open spec fn is_ensemble(
    e: EnsembleAnalysis,
    bars: Seq<PriceBar>,
    sweep: Sweep,
    filter: LpplFilterConfig,
    fits: Seq<Vec<Option<LpplParams>>>,
) -> bool {
    let n = fits.len() as int;
    let confidences = confidences_of(e.per_seed@);
    &&& e.per_seed@.len() == n
    &&& forall|k: int|
        0 <= k < n ==> is_analysis(#[trigger] e.per_seed@[k], bars, sweep, filter, fits[k]@)
    &&& e.mean_confidence == stats::mean_of(confidences, 0, n)
    &&& e.std_confidence == stats::variance_of(confidences, 0, n).root()
    &&& e.combined.analysis_date == e.per_seed@[0].analysis_date
    &&& e.combined.current_price == e.per_seed@[0].current_price
    &&& e.combined.total_windows_tested == e.per_seed@[0].total_windows_tested
    &&& e.combined.valid_fits == e.per_seed@[0].valid_fits
    &&& e.combined.valid_fit_details@ == e.per_seed@[0].valid_fit_details@
    &&& e.combined.bubble_confidence_index == e.mean_confidence
    &&& e.combined.risk_level@ == risk_text(e.mean_confidence)
    &&& dates_climb(e.combined.predicted_critical_dates@)
    &&& forall|date: Date| #[trigger]
        e.combined.predicted_critical_dates@.contains(date) <==> predicted_by_any(
            e.per_seed@,
            date,
        )
    &&& e.combined.median_predicted_date == middle_date(e.combined.predicted_critical_dates@)
}

/// Adds a date to a climbing list, unless it is in it.
fn insert_new_date(climbing: &mut Vec<Date>, date: Date)
    requires
        dates_climb(old(climbing)@),
    ensures
        dates_climb(final(climbing)@),
        forall|d: Date| #[trigger]
            final(climbing)@.contains(d) <==> old(climbing)@.contains(d) || d == date,
{
    let mut at: usize = climbing.len();
    while at > 0 && climbing[at - 1].epoch_day > date.epoch_day
        invariant
            at <= climbing@.len(),
            forall|i: int|
                at <= i < climbing@.len() ==> (#[trigger] climbing@[i]).epoch_day
                    > date.epoch_day,
        decreases at,
    {
        at = at - 1;
    }
    let ghost before = climbing@;
    if at > 0 && climbing[at - 1].epoch_day == date.epoch_day {
        assert(before[at - 1] == date);
        return;
    }
    climbing.insert(at, date);
    proof {
        let after = climbing@;
        assert(after =~= before.insert(at as int, date));
        assert forall|i: int, j: int| 0 <= i < j < after.len() implies after[i].epoch_day
            < after[j].epoch_day by {
            let a = if i < at { i } else { i - 1 };
            let b = if j < at { j } else { j - 1 };
            if i != at {
                assert(after[i] == before[a]);
            }
            if j != at {
                assert(after[j] == before[b]);
            }
            if j == at && i < at - 1 {
                assert(before[i].epoch_day < before[at - 1].epoch_day);
            }
        }
        assert forall|d: Date| #[trigger] after.contains(d) <==> before.contains(d) || d
            == date by {
            if after.contains(d) {
                let i = choose|i: int| 0 <= i < after.len() && after[i] == d;
                if i != at {
                    let a = if i < at { i } else { i - 1 };
                    assert(before[a] == d);
                }
            }
            if before.contains(d) {
                let a = choose|a: int| 0 <= a < before.len() && before[a] == d;
                let i = if a < at { a } else { a + 1 };
                assert(after[i] == d);
            }
            if d == date {
                assert(after[at as int] == d);
            }
        }
    }
}

/// The critical dates of all sweeps, in ascending order, none twice.
fn union_of_dates(results: &Vec<BubbleAnalysisResult>) -> (r: Vec<Date>)
    ensures
        dates_climb(r@),
        forall|date: Date| #[trigger]
            r@.contains(date) <==> predicted_by_any(results@, date),
{
    let mut r: Vec<Date> = Vec::new();
    let mut k: usize = 0;
    while k < results.len()
        invariant
            k <= results@.len(),
            dates_climb(r@),
            forall|date: Date| #[trigger]
                r@.contains(date) <==> predicted_by_any(results@.take(k as int), date),
        decreases results@.len() - k,
    {
        let dates = &results[k].predicted_critical_dates;
        let ghost before = r@;
        let mut i: usize = 0;
        while i < dates.len()
            invariant
                i <= dates@.len(),
                dates_climb(r@),
                forall|date: Date| #[trigger]
                    r@.contains(date) <==> before.contains(date) || dates@.take(
                        i as int,
                    ).contains(date),
            decreases dates@.len() - i,
        {
            let date = dates[i];
            insert_new_date(&mut r, date);
            proof {
                let shorter = dates@.take(i as int);
                let longer = dates@.take(i as int + 1);
                assert(longer =~= shorter.push(date));
                assert forall|d: Date| #[trigger] r@.contains(d) <==> before.contains(d)
                    || longer.contains(d) by {
                    if longer.contains(d) {
                        let j = choose|j: int| 0 <= j < longer.len() && longer[j] == d;
                        if j < shorter.len() {
                            assert(shorter[j] == d);
                        }
                    }
                    if shorter.contains(d) {
                        let j = choose|j: int| 0 <= j < shorter.len() && shorter[j] == d;
                        assert(longer[j] == d);
                    }
                    if d == date {
                        assert(longer[i as int] == d);
                    }
                }
            }
            i = i + 1;
        }
        proof {
            let shorter = results@.take(k as int);
            let longer = results@.take(k as int + 1);
            assert(dates@.take(i as int) =~= dates@);
            assert forall|d: Date| #[trigger] r@.contains(d) <==> predicted_by_any(longer, d) by {
                if predicted_by_any(longer, d) {
                    let j = choose|j: int|
                        0 <= j < longer.len() && (
                        #[trigger] longer[j]).predicted_critical_dates@.contains(d);
                    if j < k {
                        assert(shorter[j].predicted_critical_dates@.contains(d));
                    }
                }
                if predicted_by_any(shorter, d) {
                    let j = choose|j: int|
                        0 <= j < shorter.len() && (
                        #[trigger] shorter[j]).predicted_critical_dates@.contains(d);
                    assert(longer[j].predicted_critical_dates@.contains(d));
                }
                if dates@.contains(d) {
                    assert(longer[k as int].predicted_critical_dates@.contains(d));
                }
            }
        }
        k = k + 1;
    }
    assert(results@.take(k as int) =~= results@);
    r
}

fn copy_details(details: &Vec<(Date, Date)>) -> (r: Vec<(Date, Date)>)
    ensures
        r@ == details@,
{
    let mut r: Vec<(Date, Date)> = Vec::new();
    let mut i: usize = 0;
    while i < details.len()
        invariant
            i <= details@.len(),
            r@ == details@.take(i as int),
        decreases details@.len() - i,
    {
        r.push(details[i]);
        i = i + 1;
    }
    assert(details@.take(i as int) =~= details@);
    r
}

/// The bubble confidence at one bar over an ensemble of seeds. `fits` holds, for each seed
/// of [`effective_seeds`], the fits of the sweep's windows.
pub fn compute_bubble_confidence_ensemble(
    bars: &Vec<PriceBar>,
    current_idx: usize,
    lookback_min: usize,
    lookback_max: usize,
    step_days: usize,
    filter: &LpplFilterConfig,
    fits: &Vec<Vec<Option<LpplParams>>>,
) -> (r: Result<EnsembleAnalysis, AnalysisError>)
    requires
        fits@.len() > 0,
        ({
            let sweep = Sweep { current_idx, lookback_min, lookback_max, step_days };
            sweep.fault(bars@.len()) is None ==> sweep.wf() && forall|k: int|
                0 <= k < fits@.len() ==> (#[trigger] fits@[k])@.len() == sweep.count()
        }),
    ensures
        ({
            let sweep = Sweep { current_idx, lookback_min, lookback_max, step_days };
            &&& r is Ok <==> sweep.fault(bars@.len()) is None
            &&& r matches Err(e) ==> sweep.fault(bars@.len()) == Some(e)
            &&& r matches Ok(e) ==> is_ensemble(e, bars@, sweep, *filter, fits@)
        }),
{
    let ghost sweep = Sweep { current_idx, lookback_min, lookback_max, step_days };
    let mut results: Vec<BubbleAnalysisResult> = Vec::new();
    let mut confidences: Vec<Real> = Vec::new();
    let n: usize = fits.len();
    let mut k: usize = 0;
    while k < n
        invariant
            k <= n,
            n == fits@.len(),
            sweep == (Sweep { current_idx, lookback_min, lookback_max, step_days }),
            sweep.fault(bars@.len()) is None ==> sweep.wf() && forall|j: int|
                0 <= j < fits@.len() ==> (#[trigger] fits@[j])@.len() == sweep.count(),
            k > 0 ==> sweep.fault(bars@.len()) is None,
            results@.len() == k,
            confidences@ == confidences_of(results@),
            forall|j: int|
                0 <= j < k ==> is_analysis(
                    #[trigger] results@[j],
                    bars@,
                    sweep,
                    *filter,
                    fits@[j]@,
                ),
        decreases n - k,
    {
        match compute_bubble_confidence(
            bars,
            current_idx,
            lookback_min,
            lookback_max,
            step_days,
            filter,
            &fits[k],
        ) {
            Ok(result) => {
                confidences.push(result.bubble_confidence_index);
                results.push(result);
                assert(confidences@ =~= confidences_of(results@));
            },
            Err(e) => {
                return Err(e);
            },
        }
        k = k + 1;
    }
    let mean = mean_between(&confidences, 0, n);
    let deviation = variance_between(&confidences, 0, n).sqrt();
    let dates = union_of_dates(&results);
    let median: Option<Date> = if dates.len() > 0 {
        Some(dates[dates.len() / 2])
    } else {
        None
    };
    let combined = BubbleAnalysisResult {
        analysis_date: results[0].analysis_date,
        current_price: results[0].current_price,
        total_windows_tested: results[0].total_windows_tested,
        valid_fits: results[0].valid_fits,
        bubble_confidence_index: mean,
        risk_level: risk_level_of(mean),
        predicted_critical_dates: dates,
        median_predicted_date: median,
        valid_fit_details: copy_details(&results[0].valid_fit_details),
    };
    Ok(
        EnsembleAnalysis {
            combined,
            mean_confidence: mean,
            std_confidence: deviation,
            per_seed: results,
        },
    )
}

/// The sum of percentages stays between 0 and 100 times their number.
proof fn lemma_percentage_sum(values: Seq<Real>, k: int)
    requires
        0 <= k <= values.len(),
        k <= 0x4000_0000_0000,
        forall|i: int|
            0 <= i < values.len() ==> (Real { bits: ZERO }).at_most(#[trigger] values[i])
                && values[i].at_most(Real { bits: HUNDRED }),
    ensures
        stats::sum_of(values, 0, k).finite(),
        0 <= stats::sum_of(values, 0, k).value() <= (100 * k)
            * crate::binary64::one_in_units(),
    decreases k,
{
    let one = crate::binary64::one_in_units();
    crate::binary64::lemma_zero();
    lemma_hundred();
    vstd::arithmetic::power2::lemma_pow2_pos(1074);
    if k == 0 {
        assert((100 * k) * one == 0) by (nonlinear_arith)
            requires
                k == 0,
        ;
    } else {
        lemma_percentage_sum(values, k - 1);
        let before = stats::sum_of(values, 0, k - 1);
        let x = values[k - 1];
        assert(x.finite()) by {
            if x.infinite() {
                crate::binary64::lemma_field_order(
                    HUNDRED as nat,
                    crate::rounding::INFINITY_FIELD as nat,
                );
            }
        }
        order::lemma_plus_value(before, x);
        order::lemma_integer_exact(100 * k);
        order::lemma_rounded_value(Real::of_integer(100 * k));
        order::lemma_rounded_value(Real { bits: ZERO });
        assert((100 * (k - 1)) * one + 100 * one == (100 * k) * one) by (nonlinear_arith);
        order::lemma_rounded_order(before.value() + x.value(), (100 * k) * one);
        order::lemma_rounded_order(0, before.value() + x.value());
        let sum = before.plus(x);
        if sum.infinite() {
            let exact = Real::of_integer(100 * k);
            crate::binary64::lemma_field_order(
                exact.field(),
                crate::rounding::INFINITY_FIELD as nat,
            );
            crate::binary64::lemma_field_order(0, crate::rounding::INFINITY_FIELD as nat);
        }
    }
}

/// The mean of percentages is a percentage.
proof fn lemma_percentage_mean(values: Seq<Real>)
    requires
        0 < values.len() <= 0x4000_0000_0000,
        forall|i: int|
            0 <= i < values.len() ==> (Real { bits: ZERO }).at_most(#[trigger] values[i])
                && values[i].at_most(Real { bits: HUNDRED }),
    ensures
        (Real { bits: ZERO }).at_most(stats::mean_of(values, 0, values.len() as int)),
        stats::mean_of(values, 0, values.len() as int).at_most(Real { bits: HUNDRED }),
{
    let one = crate::binary64::one_in_units();
    let n = values.len() as int;
    vstd::arithmetic::power2::lemma_pow2_pos(1074);
    crate::binary64::lemma_zero();
    lemma_hundred();
    lemma_percentage_sum(values, n);
    order::lemma_integer_exact(n);
    let sum = stats::sum_of(values, 0, n);
    let count = Real::of_integer(n);
    assert(n * one > 0) by (nonlinear_arith)
        requires
            n > 0,
            one > 0,
    ;
    assert(count.field() != 0);
    let top = sum.magnitude() * one;
    let bound = 100 * one;
    let mc = count.magnitude();
    let ms = sum.magnitude();
    assert(top * 1 <= bound * mc) by (nonlinear_arith)
        requires
            top == ms * one,
            bound == 100 * one,
            mc == n * one,
            ms <= (100 * n) * one,
    ;
    order::lemma_round_order(top, mc, bound, 1);
    order::lemma_round_identity(HUNDRED as nat, 1);
    assert((Real { bits: HUNDRED }).magnitude() * 1 == bound);
    let field = crate::rounding::round_ratio(top, mc);
    order::lemma_signed(sum.negative() != count.negative(), field);
    order::lemma_magnitude_order(field, HUNDRED as nat);
    if sum.negative() {
        assert(ms == 0);
        assert(top == 0) by (nonlinear_arith)
            requires
                top == ms * one,
                ms == 0,
        ;
        crate::binary64::lemma_round_ratio_zero(mc);
    }
}

/// Law: the mean confidence of an ensemble is a percentage, its dates climb without
/// repetition, and its median is one of them.
pub proof fn law_ensemble_is_coherent(
    e: EnsembleAnalysis,
    bars: Seq<PriceBar>,
    sweep: Sweep,
    filter: LpplFilterConfig,
    fits: Seq<Vec<Option<LpplParams>>>,
)
    requires
        sweep.wf(),
        sweep.fault(bars.len()) is None,
        0 < fits.len() <= 0x4000_0000_0000,
        is_ensemble(e, bars, sweep, filter, fits),
    ensures
        (Real { bits: ZERO }).at_most(e.mean_confidence),
        e.mean_confidence.at_most(Real { bits: HUNDRED }),
        dates_climb(e.combined.predicted_critical_dates@),
        e.combined.median_predicted_date matches Some(d)
            ==> e.combined.predicted_critical_dates@.contains(d),
{
    let confidences = confidences_of(e.per_seed@);
    assert forall|i: int| 0 <= i < confidences.len() implies (Real { bits: ZERO }).at_most(
        #[trigger] confidences[i],
    ) && confidences[i].at_most(Real { bits: HUNDRED }) by {
        law_analysis_is_coherent(e.per_seed@[i], bars, sweep, filter, fits[i]@);
    }
    lemma_percentage_mean(confidences);
}

/// Law: every risk level that a confidence can have is one of the four that have a
/// description.
pub proof fn law_risk_levels_are_described(confidence: Real)
    ensures
        description_of(risk_text(confidence)) != "Unknown risk level."@,
{
    reveal_strlit("LOW RISK");
    reveal_strlit("MODERATE RISK");
    reveal_strlit("HIGH RISK");
    reveal_strlit("CRITICAL BUBBLE REGIME");
    reveal_strlit("Unknown risk level.");
    reveal_strlit(
        "Normal organic trend or basic noise. No systematic herding signatures detected.",
    );
    reveal_strlit("Localized acceleration detected. Keep an eye on parabolic velocity changes.");
    reveal_strlit(
        "Significant critical mass forming. The trend shows super-exponential characteristics.",
    );
    reveal_strlit("Extreme herd synchronization. Acceleration pattern is structurally unstable.");
    let unknown = "Unknown risk level."@;
    assert(description_of(risk_text(confidence)).len() != unknown.len());
}

/// Law: what goes into an ensemble fixes its confidence, its spread and its first sweep's
/// figures.
pub proof fn law_ensemble_is_reproducible(
    e1: EnsembleAnalysis,
    e2: EnsembleAnalysis,
    bars: Seq<PriceBar>,
    sweep: Sweep,
    filter: LpplFilterConfig,
    fits: Seq<Vec<Option<LpplParams>>>,
)
    requires
        fits.len() > 0,
        is_ensemble(e1, bars, sweep, filter, fits),
        is_ensemble(e2, bars, sweep, filter, fits),
    ensures
        e1.mean_confidence == e2.mean_confidence,
        e1.std_confidence == e2.std_confidence,
        e1.combined.analysis_date == e2.combined.analysis_date,
        e1.combined.current_price == e2.combined.current_price,
        e1.combined.total_windows_tested == e2.combined.total_windows_tested,
        e1.combined.valid_fits == e2.combined.valid_fits,
        e1.combined.valid_fit_details@ == e2.combined.valid_fit_details@,
        e1.combined.risk_level@ == e2.combined.risk_level@,
{
    let a = confidences_of(e1.per_seed@);
    let b = confidences_of(e2.per_seed@);
    assert forall|k: int| 0 <= k < fits.len() implies a[k] == b[k] by {
        assert(is_analysis(e1.per_seed@[k], bars, sweep, filter, fits[k]@));
        assert(is_analysis(e2.per_seed@[k], bars, sweep, filter, fits[k]@));
    }
    assert(a =~= b);
    assert(is_analysis(e1.per_seed@[0], bars, sweep, filter, fits[0]@));
    assert(is_analysis(e2.per_seed@[0], bars, sweep, filter, fits[0]@));
}

} // verus!
