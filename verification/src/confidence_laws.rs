//! What the bubble confidence and the critical dates mean.

use crate::binary64;
use crate::binary64::{Real, ONE_BITS};
use crate::confidence;
use crate::confidence::{
    BubbleAnalysisResult, EnsembleAnalysis, JlsFailure, LpplFilterConfig, Sweep,
};
use crate::constants::{FIFTEEN, FORTY_FIVE, HUNDRED, MILLIONTH, SEVENTY_FIVE, ZERO};
use crate::counting;
use crate::data::PriceBar;
use crate::dates;
use crate::dates::Date;
use crate::lppl::LpplParams;
use crate::order;
use crate::rounding::SIGNIFICAND_END;
use crate::stats;
use vstd::prelude::*;

verus! {

/// At least half of the dates are not later than the one in the middle, more than half of
/// them even, and at least half are not earlier.
pub open spec fn halves(dates: Seq<Date>, middle: Date) -> bool {
    let n = dates.len() as int;
    &&& dates.contains(middle)
    &&& 2 * counting::those(n, |i: int| dates[i].epoch_day <= middle.epoch_day).len() > n
    &&& 2 * counting::those(n, |i: int| dates[i].epoch_day >= middle.epoch_day).len() >= n
}

proof fn lemma_halves(dates: Seq<Date>)
    requires
        dates.len() > 0,
        confidence::dates_ascend(dates),
    ensures
        confidence::middle_date(dates) matches Some(m) && halves(dates, m),
{
    let n = dates.len() as int;
    let m = confidence::middle_date(dates)->0;
    let mid = n / 2;
    assert(dates[mid] == m);
    counting::lemma_stretch(n, |i: int| dates[i].epoch_day <= m.epoch_day, 0, mid + 1);
    counting::lemma_stretch(n, |i: int| dates[i].epoch_day >= m.epoch_day, mid, n);
}

/// Law: the median of a sweep splits its critical dates in half: at least half of them are
/// not later, and at least half are not earlier; of an even number, it is the later of the
/// two in the middle. There is one as soon as there is a date.
pub proof fn law_median_halves_the_dates(
    r: BubbleAnalysisResult,
    bars: Seq<PriceBar>,
    sweep: Sweep,
    filter: LpplFilterConfig,
    fits: Seq<Option<LpplParams>>,
)
    requires
        confidence::is_analysis(r, bars, sweep, filter, fits),
    ensures
        r.predicted_critical_dates@.len() == 0 ==> r.median_predicted_date is None,
        r.predicted_critical_dates@.len() > 0 ==> (r.median_predicted_date matches Some(m)
            && halves(r.predicted_critical_dates@, m)),
{
    if r.predicted_critical_dates@.len() > 0 {
        lemma_halves(r.predicted_critical_dates@);
    }
}

/// Law: the median of an ensemble splits its critical dates in half, as that of a sweep
/// does.
pub proof fn law_ensemble_median_halves_the_dates(
    e: EnsembleAnalysis,
    bars: Seq<PriceBar>,
    sweep: Sweep,
    filter: LpplFilterConfig,
    fits: Seq<Vec<Option<LpplParams>>>,
)
    requires
        confidence::is_ensemble(e, bars, sweep, filter, fits),
    ensures
        ({
            let all = e.combined.predicted_critical_dates@;
            &&& all.len() == 0 ==> e.combined.median_predicted_date is None
            &&& all.len() > 0 ==> (e.combined.median_predicted_date matches Some(m) && halves(
                all,
                m,
            ))
        }),
{
    let all = e.combined.predicted_critical_dates@;
    if all.len() > 0 {
        assert forall|i: int, j: int| 0 <= i <= j < all.len() implies all[i].epoch_day
            <= all[j].epoch_day by {
            if i < j {
                assert(all[i].epoch_day < all[j].epoch_day);
            }
        }
        lemma_halves(all);
    }
}

/// The number lies between the bounds, all three being numbers.
pub open spec fn lies_between(x: Real, low: Real, high: Real) -> bool {
    &&& !x.nan() && !low.nan() && !high.nan()
    &&& low.value() <= x.value() <= high.value()
}

/// The oscillation is damped and the fit is sound in itself: 0 < tc, 0 < m < 1,
/// 1/2 < omega < 30, and |c| < |b| sqrt(1 + m^2) but for a millionth.
pub open spec fn sound_fit(p: LpplParams) -> bool {
    let one = binary64::one_in_units() as int;
    let stretch = (Real { bits: ONE_BITS }).plus(p.m.times(p.m)).root();
    let limit = p.b.absolute().times(stretch).plus(Real { bits: MILLIONTH });
    &&& !p.tc.nan() && !p.m.nan() && !p.omega.nan() && !p.c.nan() && !limit.nan()
    &&& 0 < p.tc.value()
    &&& 0 < p.m.value() < one
    &&& one < 2 * p.omega.value() < 60 * one
    &&& p.c.magnitude() < limit.value()
}

/// The fit of the window from bar `start` bears a bubble signature at bar `current`: its
/// exponent and its frequency lie between the bounds of the filter, its amplitude is
/// negative where the filter asks for that, it is sound in itself, and its critical time
/// lies more than the configured number of days ahead.
pub open spec fn bears_signature(
    p: LpplParams,
    start: int,
    current: int,
    filter: LpplFilterConfig,
) -> bool {
    let target = Real::of_integer(start).plus(p.tc).minus(Real { bits: ONE_BITS });
    let bound = Real::of_integer(current).plus(
        Real::of_integer(filter.min_tc_offset_days as int),
    );
    &&& lies_between(p.m, filter.m_min, filter.m_max)
    &&& lies_between(p.omega, filter.omega_min, filter.omega_max)
    &&& filter.require_b_negative ==> !p.b.nan() && p.b.value() < 0
    &&& sound_fit(p)
    &&& !target.nan() && !bound.nan() && bound.value() < target.value()
}

/// What makes a fit sound.
pub proof fn lemma_sound_fit(p: LpplParams)
    ensures
        p.structurally_valid() == sound_fit(p),
{
    order::lemma_one();
    binary64::lemma_zero();
    crate::lppl::lemma_half_and_thirty();
    if !p.c.nan() {
        order::lemma_signed(false, p.c.field());
    }
}

proof fn lemma_bears_signature(p: LpplParams, start: int, current: int, filter: LpplFilterConfig)
    ensures
        confidence::signature(p, start, current, filter) == bears_signature(
            p,
            start,
            current,
            filter,
        ),
{
    lemma_sound_fit(p);
    binary64::lemma_zero();
}

/// Law: the fits that count are those, no others and none left out, that keep all bounds of
/// the filter that was given and have their critical time far enough ahead; each window
/// counts once. Window `k` begins `k` steps after the longest look-back.
pub proof fn law_valid_fits_are_the_signatures(
    r: BubbleAnalysisResult,
    bars: Seq<PriceBar>,
    sweep: Sweep,
    filter: LpplFilterConfig,
    fits: Seq<Option<LpplParams>>,
)
    requires
        sweep.wf(),
        sweep.fault(bars.len()) is None,
        confidence::is_analysis(r, bars, sweep, filter, fits),
    ensures
        r.valid_fits == counting::those(
            r.total_windows_tested as int,
            |k: int|
                fits[k] matches Some(p) && bears_signature(
                    p,
                    sweep.current_idx - sweep.lookback_max + k * sweep.step_days,
                    sweep.current_idx as int,
                    filter,
                ),
        ).len(),
{
    confidence::law_analysis_is_coherent(r, bars, sweep, filter, fits);
    lemma_signature_set(sweep, filter, fits, sweep.count());
}

proof fn lemma_signature_set(
    sweep: Sweep,
    filter: LpplFilterConfig,
    fits: Seq<Option<LpplParams>>,
    n: int,
)
    requires
        n >= 0,
    ensures
        confidence::signature_count(sweep, filter, fits, n) == counting::those(
            n,
            |k: int|
                fits[k] matches Some(p) && bears_signature(
                    p,
                    sweep.current_idx - sweep.lookback_max + k * sweep.step_days,
                    sweep.current_idx as int,
                    filter,
                ),
        ).len(),
    decreases n,
{
    let bears = |k: int|
        fits[k] matches Some(p) && bears_signature(
            p,
            sweep.current_idx - sweep.lookback_max + k * sweep.step_days,
            sweep.current_idx as int,
            filter,
        );
    counting::lemma_those(n, bears);
    if n > 0 {
        lemma_signature_set(sweep, filter, fits, n - 1);
        if let Some(p) = fits[n - 1] {
            lemma_bears_signature(p, sweep.start_of(n - 1), sweep.current_idx as int, filter);
        }
    }
}

/// Law: a fit that counts has its critical time, counted in bars, truly more than the
/// configured number of days after the current bar; one that keeps all other bounds and has
/// it a day further ahead counts.
pub proof fn law_signatures_point_ahead(
    p: LpplParams,
    start: int,
    current: int,
    filter: LpplFilterConfig,
)
    requires
        0 <= start < SIGNIFICAND_END,
        0 <= current,
        current + filter.min_tc_offset_days + 2 < SIGNIFICAND_END,
        p.tc.finite(),
    ensures
        ({
            let one = binary64::one_in_units() as int;
            let ahead = start * one + p.tc.value() - one - current * one;
            let offset = filter.min_tc_offset_days;
            &&& confidence::signature(p, start, current, filter) ==> ahead > offset * one
            &&& ahead >= (offset + 1) * one && lies_between(p.m, filter.m_min, filter.m_max)
                && lies_between(p.omega, filter.omega_min, filter.omega_max) && (
            filter.require_b_negative ==> !p.b.nan() && p.b.value() < 0) && sound_fit(p)
                ==> confidence::signature(p, start, current, filter)
        }),
{
    let one = binary64::one_in_units() as int;
    let offset = filter.min_tc_offset_days as int;
    let n = current + offset;
    vstd::arithmetic::power2::lemma_pow2_pos(1074);
    lemma_bears_signature(p, start, current, filter);
    order::lemma_integer_exact(start);
    order::lemma_integer_exact(current);
    order::lemma_integer_exact(offset);
    order::lemma_integer_exact(n);
    order::lemma_integer_exact(n + 1);
    order::lemma_integer_exact(n + 2);
    order::lemma_one();
    let unit = Real { bits: ONE_BITS };
    let bound = Real::of_integer(current).plus(Real::of_integer(offset));
    assert(current * one + offset * one == n * one) by (nonlinear_arith)
        requires
            n == current + offset,
    ;
    assert((n + 1) * one == n * one + one) by (nonlinear_arith);
    assert((n + 2) * one == n * one + 2 * one) by (nonlinear_arith);
    assert((offset + 1) * one == offset * one + one) by (nonlinear_arith);
    order::lemma_plus_value(Real::of_integer(current), Real::of_integer(offset));
    order::lemma_rounded_value(Real::of_integer(n));
    order::lemma_rounded_value(Real::of_integer(n + 1));
    order::lemma_rounded_value(Real::of_integer(n + 2));
    assert(bound.value() == n * one);
    let sum = Real::of_integer(start).plus(p.tc);
    order::lemma_plus_value(Real::of_integer(start), p.tc);
    let exact = start * one + p.tc.value();
    order::lemma_signed(true, ONE_BITS as nat);
    let target = sum.minus(unit);
    if exact <= (n + 1) * one {
        order::lemma_rounded_order(exact, (n + 1) * one);
        if sum.finite() {
            order::lemma_plus_value(sum, unit.negated());
            order::lemma_rounded_order(sum.value() - one, n * one);
        } else {
            assert(target == sum);
            if !sum.negative() {
                binary64::lemma_field_order(
                    Real::of_integer(n + 1).field(),
                    crate::rounding::INFINITY_FIELD as nat,
                );
            }
            assert(n * one >= 0) by (nonlinear_arith)
                requires
                    n >= 0,
                    one >= 0,
            ;
        }
        assert(target.value() <= n * one);
    }
    if exact >= (n + 2) * one {
        order::lemma_rounded_order((n + 2) * one, exact);
        if sum.finite() {
            order::lemma_plus_value(sum, unit.negated());
            order::lemma_rounded_order((n + 1) * one, sum.value() - one);
        } else {
            assert(target == sum);
            assert((n + 2) * one >= 0) by (nonlinear_arith)
                requires
                    n >= 0,
                    one >= 0,
            ;
        }
        assert(target.value() > n * one);
    }
}

/// Law: a fit whose figures are numbers is named as failing a bound exactly where it breaks
/// that bound; so it carries a signature exactly where no bound but perhaps that of the
/// critical time is named, and its critical time lies far enough ahead.
pub proof fn law_failures_name_the_broken_bounds(
    p: LpplParams,
    t_current: Real,
    start: int,
    current: int,
    filter: LpplFilterConfig,
)
    requires
        !p.m.nan() && !p.omega.nan() && !p.b.nan() && !p.tc.nan(),
        !filter.m_min.nan() && !filter.m_max.nan(),
        !filter.omega_min.nan() && !filter.omega_max.nan(),
    ensures
        ({
            let named = confidence::jls_failures(p, t_current, filter);
            let bound = t_current.plus(Real { bits: ONE_BITS }).plus(
                Real::of_integer(filter.min_tc_offset_days as int),
            );
            &&& named.contains(JlsFailure::CriticalTimeTooNear) <==> !bound.nan()
                && p.tc.value() <= bound.value()
            &&& named.contains(JlsFailure::ExponentOutside) <==> !lies_between(
                p.m,
                filter.m_min,
                filter.m_max,
            )
            &&& named.contains(JlsFailure::FrequencyOutside) <==> !lies_between(
                p.omega,
                filter.omega_min,
                filter.omega_max,
            )
            &&& named.contains(JlsFailure::AmplitudeNotNegative) <==> filter.require_b_negative
                && p.b.value() >= 0
            &&& named.contains(JlsFailure::NotStructurallyValid) <==> !sound_fit(p)
            &&& named.no_duplicates()
            &&& confidence::signature(p, start, current, filter) ==> forall|f: JlsFailure|
                #[trigger] named.contains(f) ==> f == JlsFailure::CriticalTimeTooNear
        }),
{
    lemma_sound_fit(p);
    lemma_bears_signature(p, start, current, filter);
    binary64::lemma_zero();
    let bound = t_current.plus(Real { bits: ONE_BITS }).plus(
        Real::of_integer(filter.min_tc_offset_days as int),
    );
    let b1 = p.tc.at_most(bound);
    let b2 = p.m.below(filter.m_min) || filter.m_max.below(p.m);
    let b3 = p.omega.below(filter.omega_min) || filter.omega_max.below(p.omega);
    let b4 = filter.require_b_negative && (Real { bits: ZERO }).at_most(p.b);
    let b5 = !p.structurally_valid();
    let s0 = Seq::<JlsFailure>::empty();
    let s1 = lemma_listed(s0, b1, JlsFailure::CriticalTimeTooNear);
    let s2 = lemma_listed(s1, b2, JlsFailure::ExponentOutside);
    let s3 = lemma_listed(s2, b3, JlsFailure::FrequencyOutside);
    let s4 = lemma_listed(s3, b4, JlsFailure::AmplitudeNotNegative);
    let s5 = lemma_listed(s4, b5, JlsFailure::NotStructurallyValid);
    assert(confidence::jls_failures(p, t_current, filter) == s5);
}

/// A failure that is added where it occurs is in the list exactly then.
proof fn lemma_listed(s: Seq<JlsFailure>, occurs: bool, f: JlsFailure) -> (r: Seq<JlsFailure>)
    requires
        s.no_duplicates(),
        !s.contains(f),
    ensures
        r == if occurs {
            s.push(f)
        } else {
            s
        },
        r.no_duplicates(),
        forall|g: JlsFailure| #[trigger] r.contains(g) <==> s.contains(g) || (occurs && g == f),
{
    let r = if occurs {
        s.push(f)
    } else {
        s
    };
    if occurs {
        assert forall|g: JlsFailure| #[trigger] r.contains(g) <==> s.contains(g) || g == f by {
            if s.contains(g) {
                let i = choose|i: int| 0 <= i < s.len() && s[i] == g;
                assert(r[i] == g);
            }
            assert(r[s.len() as int] == f);
            if r.contains(g) {
                let i = choose|i: int| 0 <= i < r.len() && r[i] == g;
                if i < s.len() {
                    assert(s[i] == g);
                }
            }
        }
        assert forall|i: int, j: int|
            0 <= i < r.len() && 0 <= j < r.len() && i != j implies r[i] != r[j] by {
            if i < s.len() && j < s.len() {
                assert(s[i] != s[j]);
            } else if i < s.len() {
                assert(s.contains(s[i]));
            } else if j < s.len() {
                assert(s.contains(s[j]));
            }
        }
    }
    r
}

/// Window `k` bears a signature, and its critical time lies nearest to the day `date`, a day
/// of the calendar.
pub open spec fn points_to(
    bars: Seq<PriceBar>,
    sweep: Sweep,
    filter: LpplFilterConfig,
    fits: Seq<Option<LpplParams>>,
    k: int,
    date: Date,
) -> bool {
    let start = sweep.current_idx - sweep.lookback_max + k * sweep.step_days;
    let today = bars[sweep.current_idx as int].date;
    let one = binary64::one_in_units() as int;
    fits[k] matches Some(p) && {
        let distance = Real::of_integer(start).plus(p.tc).minus(Real { bits: ONE_BITS }).minus(
            Real::of_integer(sweep.current_idx as int),
        );
        let days = date.epoch_day - today.epoch_day;
        &&& bears_signature(p, start, sweep.current_idx as int, filter)
        &&& today.valid() && date.valid()
        &&& (2 * days - 1) * one <= 2 * distance.value() < (2 * days + 1) * one
    }
}

proof fn lemma_points_to(
    bars: Seq<PriceBar>,
    sweep: Sweep,
    filter: LpplFilterConfig,
    fits: Seq<Option<LpplParams>>,
    k: int,
    date: Date,
)
    requires
        sweep.current_idx < SIGNIFICAND_END,
    ensures
        points_to(bars, sweep, filter, fits, k, date) <==> confidence::predicted_date(
            bars,
            sweep,
            filter,
            fits,
            k,
        ) == Some(date),
{
    let start = sweep.start_of(k);
    let current = sweep.current_idx as int;
    let today = bars[current].date;
    let one = binary64::one_in_units() as int;
    vstd::arithmetic::power2::lemma_pow2_pos(1074);
    if let Some(p) = fits[k] {
        lemma_bears_signature(p, start, current, filter);
        if confidence::signature(p, start, current, filter) {
            let target = confidence::critical_index(p, start);
            let now = Real::of_integer(current);
            let distance = target.minus(now);
            let bound = now.plus(Real::of_integer(filter.min_tc_offset_days as int));
            order::lemma_integer_exact(current);
            order::lemma_integer_order(0, filter.min_tc_offset_days as int);
            order::lemma_integer_exact(0);
            order::lemma_plus_direction(now, Real::of_integer(filter.min_tc_offset_days as int));
            order::lemma_signed(!now.negative(), now.field());
            assert(target.value() >= now.value());
            assert(current * one >= 0) by (nonlinear_arith)
                requires
                    current >= 0,
                    one >= 0,
            ;
            assert(distance.value() >= 0 && !distance.nan()) by {
                if target.finite() {
                    order::lemma_plus_value(target, now.negated());
                    binary64::lemma_zero();
                    order::lemma_rounded_value(Real { bits: ZERO });
                    order::lemma_rounded_order(0, target.value() - now.value());
                } else {
                    assert(distance == target);
                }
            }
            lemma_nearest_positive(distance, date.epoch_day - today.epoch_day);
        }
    }
}

/// The nearest integer of a number that is not negative lies no more than a half away, and
/// a half is rounded up.
proof fn lemma_nearest_positive(x: Real, d: int)
    requires
        !x.nan(),
        x.value() >= 0,
        -0x1_0000_0000 <= d <= 0x1_0000_0000,
    ensures
        ({
            let one = binary64::one_in_units() as int;
            x.nearest_integer() == d <==> (2 * d - 1) * one <= 2 * x.value() < (2 * d + 1) * one
        }),
{
    let one = binary64::one_in_units() as int;
    vstd::arithmetic::power2::lemma_pow2_pos(1074);
    let m = x.magnitude() as int;
    let whole = (2 * m + one) / (2 * one);
    assert(2 * one * whole <= 2 * m + one < 2 * one * (whole + 1)) by (nonlinear_arith)
        requires
            one > 0,
            whole == (2 * m + one) / (2 * one),
    ;
    if whole == d {
        assert((2 * d - 1) * one <= 2 * m < (2 * d + 1) * one) by (nonlinear_arith)
            requires
                2 * one * whole <= 2 * m + one < 2 * one * (whole + 1),
                whole == d,
        ;
    }
    if (2 * d - 1) * one <= 2 * m < (2 * d + 1) * one {
        assert(whole == d) by (nonlinear_arith)
            requires
                2 * one * whole <= 2 * m + one < 2 * one * (whole + 1),
                (2 * d - 1) * one <= 2 * m < (2 * d + 1) * one,
                one > 0,
        ;
    }
    if x.negative() {
        assert(m == 0);
        assert(whole == 0) by (nonlinear_arith)
            requires
                2 * one * whole <= 2 * m + one < 2 * one * (whole + 1),
                m == 0,
                one > 0,
        ;
    }
    assert(whole >= 0) by (nonlinear_arith)
        requires
            2 * m + one < 2 * one * (whole + 1),
            m >= 0,
            one > 0,
    ;
}

/// Law: the critical dates are those that the windows with a signature point to, each as
/// often as windows point to it, in ascending order; there are no others.
pub proof fn law_dates_come_from_the_signatures(
    r: BubbleAnalysisResult,
    bars: Seq<PriceBar>,
    sweep: Sweep,
    filter: LpplFilterConfig,
    fits: Seq<Option<LpplParams>>,
    date: Date,
)
    requires
        sweep.wf(),
        sweep.fault(bars.len()) is None,
        sweep.current_idx < SIGNIFICAND_END,
        confidence::is_analysis(r, bars, sweep, filter, fits),
    ensures
        r.predicted_critical_dates@.to_multiset().count(date) == counting::those(
            r.total_windows_tested as int,
            |k: int| points_to(bars, sweep, filter, fits, k, date),
        ).len(),
        forall|i: int, j: int|
            0 <= i <= j < r.predicted_critical_dates@.len()
                ==> r.predicted_critical_dates@[i].epoch_day
                <= r.predicted_critical_dates@[j].epoch_day,
        r.analysis_date == bars[sweep.current_idx as int].date,
        r.current_price == bars[sweep.current_idx as int].adj_close,
{
    confidence::law_analysis_is_coherent(r, bars, sweep, filter, fits);
    lemma_date_count(bars, sweep, filter, fits, sweep.count(), date);
}

proof fn lemma_date_count(
    bars: Seq<PriceBar>,
    sweep: Sweep,
    filter: LpplFilterConfig,
    fits: Seq<Option<LpplParams>>,
    n: int,
    date: Date,
)
    requires
        n >= 0,
        sweep.current_idx < SIGNIFICAND_END,
    ensures
        confidence::critical_dates(
            confidence::fit_details(bars, sweep, filter, fits, n),
        ).to_multiset().count(date) == counting::those(
            n,
            |k: int| points_to(bars, sweep, filter, fits, k, date),
        ).len(),
    decreases n,
{
    broadcast use vstd::seq_lib::group_to_multiset_ensures;

    let p = |k: int| points_to(bars, sweep, filter, fits, k, date);
    counting::lemma_those(n, p);
    let now = confidence::fit_details(bars, sweep, filter, fits, n);
    if n == 0 {
        assert(confidence::critical_dates(now) =~= Seq::<Date>::empty());
    } else {
        lemma_date_count(bars, sweep, filter, fits, n - 1, date);
        lemma_points_to(bars, sweep, filter, fits, n - 1, date);
        let before = confidence::fit_details(bars, sweep, filter, fits, n - 1);
        match confidence::predicted_date(bars, sweep, filter, fits, n - 1) {
            Some(d) => {
                assert(confidence::critical_dates(now) =~= confidence::critical_dates(
                    before,
                ).push(d));
            },
            None => {},
        }
    }
}

/// Law: the details list, window by window, the first day of each window that points to a
/// date, and that date.
pub proof fn law_details_follow_the_windows(
    r: BubbleAnalysisResult,
    bars: Seq<PriceBar>,
    sweep: Sweep,
    filter: LpplFilterConfig,
    fits: Seq<Option<LpplParams>>,
    j: int,
)
    requires
        sweep.wf(),
        sweep.fault(bars.len()) is None,
        sweep.current_idx < SIGNIFICAND_END,
        confidence::is_analysis(r, bars, sweep, filter, fits),
        0 <= j < r.valid_fit_details@.len(),
    ensures
        ({
            let windows = counting::in_order(
                r.total_windows_tested as int,
                |k: int| exists|d: Date| #[trigger] points_to(bars, sweep, filter, fits, k, d),
            );
            let k = windows[j];
            &&& r.valid_fit_details@.len() == windows.len()
            &&& r.valid_fit_details@[j].0 == bars[sweep.current_idx - sweep.lookback_max + k
                * sweep.step_days].date
            &&& points_to(bars, sweep, filter, fits, k, r.valid_fit_details@[j].1)
        }),
{
    confidence::law_analysis_is_coherent(r, bars, sweep, filter, fits);
    lemma_details_in_order(bars, sweep, filter, fits, sweep.count());
}

proof fn lemma_details_in_order(
    bars: Seq<PriceBar>,
    sweep: Sweep,
    filter: LpplFilterConfig,
    fits: Seq<Option<LpplParams>>,
    n: int,
)
    requires
        n >= 0,
        sweep.current_idx < SIGNIFICAND_END,
    ensures
        ({
            let windows = counting::in_order(
                n,
                |k: int| exists|d: Date| #[trigger] points_to(bars, sweep, filter, fits, k, d),
            );
            let details = confidence::fit_details(bars, sweep, filter, fits, n);
            &&& details.len() == windows.len()
            &&& forall|j: int|
                0 <= j < details.len() ==> {
                    let k = windows[j];
                    &&& (#[trigger] details[j]).0 == bars[sweep.current_idx - sweep.lookback_max
                        + k * sweep.step_days].date
                    &&& points_to(bars, sweep, filter, fits, k, details[j].1)
                }
        }),
    decreases n,
{
    let p = |k: int| exists|d: Date| #[trigger] points_to(bars, sweep, filter, fits, k, d);
    counting::lemma_those(n, p);
    if n > 0 {
        lemma_details_in_order(bars, sweep, filter, fits, n - 1);
        match confidence::predicted_date(bars, sweep, filter, fits, n - 1) {
            Some(d) => {
                lemma_points_to(bars, sweep, filter, fits, n - 1, d);
                assert(points_to(bars, sweep, filter, fits, n - 1, d));
            },
            None => {
                assert forall|d: Date| !#[trigger] points_to(
                    bars,
                    sweep,
                    filter,
                    fits,
                    n - 1,
                    d,
                ) by {
                    lemma_points_to(bars, sweep, filter, fits, n - 1, d);
                }
            },
        }
    }
}

/// Law: the windows that are tested look back over exactly the spans from the longest down
/// to the shortest, in steps; the longest comes first.
pub proof fn law_windows_are_the_look_backs(sweep: Sweep, n: nat, span: int)
    requires
        sweep.wf(),
        sweep.fault(n) is None,
        sweep.lookback_min <= sweep.current_idx,
    ensures
        (exists|k: int|
            0 <= k < sweep.count() && #[trigger] sweep.start_of(k) == sweep.current_idx - span)
            <==> sweep.lookback_min <= span <= sweep.lookback_max && (sweep.lookback_max - span)
            % sweep.step_days as int == 0,
        forall|k: int| #[trigger]
            sweep.start_of(k) == sweep.current_idx - sweep.lookback_max + k * sweep.step_days,
{
    let d = sweep.step_days as int;
    let width = sweep.lookback_max - sweep.lookback_min;
    if sweep.lookback_min <= span <= sweep.lookback_max && (sweep.lookback_max - span) % d == 0 {
        let k = (sweep.lookback_max - span) / d;
        assert(k * d == sweep.lookback_max - span) by (nonlinear_arith)
            requires
                k == (sweep.lookback_max - span) / d,
                (sweep.lookback_max - span) % d == 0,
                d > 0,
        ;
        assert(0 <= k <= width / d) by (nonlinear_arith)
            requires
                k * d <= width,
                k * d >= 0,
                d > 0,
        ;
        assert(sweep.start_of(k) == sweep.current_idx - span);
    }
    if exists|k: int|
        0 <= k < sweep.count() && #[trigger] sweep.start_of(k) == sweep.current_idx - span {
        let k = choose|k: int|
            0 <= k < sweep.count() && #[trigger] sweep.start_of(k) == sweep.current_idx - span;
        assert(width >= 0);
        assert(k * d <= width) by (nonlinear_arith)
            requires
                0 <= k <= width / d,
                d > 0,
        ;
        assert(k * d >= 0) by (nonlinear_arith)
            requires
                k >= 0,
                d > 0,
        ;
        assert((k * d) % d == 0) by (nonlinear_arith)
            requires
                d > 0,
        ;
    }
}

/// Law: the confidence is the share of the windows that count, as a percentage: what the
/// number of windows makes of it is a hundred times the number of fits that count, but for
/// rounding. Without a window it is 0; it is 0 exactly where no fit counts.
pub proof fn law_confidence_is_the_share(
    r: BubbleAnalysisResult,
    bars: Seq<PriceBar>,
    sweep: Sweep,
    filter: LpplFilterConfig,
    fits: Seq<Option<LpplParams>>,
)
    requires
        sweep.wf(),
        sweep.fault(bars.len()) is None,
        confidence::is_analysis(r, bars, sweep, filter, fits),
        r.total_windows_tested < SIGNIFICAND_END,
    ensures
        r.total_windows_tested == 0 ==> r.bubble_confidence_index.value() == 0,
        r.total_windows_tested > 0 ==> r.bubble_confidence_index == Real::of_integer(
            r.valid_fits as int,
        ).over(Real::of_integer(r.total_windows_tested as int)).times(Real { bits: HUNDRED }),
        r.valid_fits == 0 ==> r.bubble_confidence_index.value() == 0,
        0 < r.valid_fits == r.total_windows_tested ==> r.bubble_confidence_index.value() == 100
            * binary64::one_in_units(),
{
    let one = binary64::one_in_units();
    binary64::lemma_zero();
    order::lemma_one();
    vstd::arithmetic::power2::lemma_pow2_pos(1074);
    confidence::law_analysis_is_coherent(r, bars, sweep, filter, fits);
    confidence::lemma_hundred();
    let hundred = Real { bits: HUNDRED };
    if r.total_windows_tested > 0 {
        let total = r.total_windows_tested as int;
        order::lemma_integer_exact(total);
        order::lemma_integer_exact(r.valid_fits as int);
        let d = Real::of_integer(total).magnitude();
        assert(total * one > 0) by (nonlinear_arith)
            requires
                total > 0,
                one > 0,
        ;
        if r.valid_fits == 0 {
            assert(0 * one == 0);
            binary64::lemma_round_ratio_zero(d);
            order::lemma_signed(false, 0);
            let share = Real::of_integer(0).over(Real::of_integer(total));
            assert(share.field() == 0);
            assert(share.magnitude() * hundred.magnitude() == 0) by (nonlinear_arith)
                requires
                    share.magnitude() == 0,
            ;
            binary64::lemma_round_ratio_zero(one);
        }
        if r.valid_fits == total {
            let whole = Real::of_integer(total);
            assert(whole.magnitude() * one == one * d) by (nonlinear_arith)
                requires
                    whole.magnitude() == d,
            ;
            order::lemma_round_identity(ONE_BITS as nat, d);
            let share = whole.over(whole);
            order::lemma_signed(false, ONE_BITS as nat);
            assert(share == (Real { bits: ONE_BITS }));
            order::lemma_times_commutes(share, hundred);
            order::lemma_round_identity(hundred.field(), one);
            order::lemma_signed(false, hundred.field());
        }
    }
}

/// The risk level of a confidence: low below 15 per cent, moderate below 45, high below 75
/// and critical from there on.
pub open spec fn levels_apart(confidence_index: Real, level: Seq<char>) -> bool {
    let one = binary64::one_in_units();
    let c = confidence_index.value();
    &&& c < 15 * one ==> level == "LOW RISK"@
    &&& 15 * one <= c < 45 * one ==> level == "MODERATE RISK"@
    &&& 45 * one <= c < 75 * one ==> level == "HIGH RISK"@
    &&& 75 * one <= c ==> level == "CRITICAL BUBBLE REGIME"@
}

/// Law: the risk level of a sweep is that of its confidence.
pub proof fn law_risk_follows_the_confidence(
    r: BubbleAnalysisResult,
    bars: Seq<PriceBar>,
    sweep: Sweep,
    filter: LpplFilterConfig,
    fits: Seq<Option<LpplParams>>,
)
    requires
        confidence::is_analysis(r, bars, sweep, filter, fits),
        !r.bubble_confidence_index.nan(),
    ensures
        levels_apart(r.bubble_confidence_index, r.risk_level@),
{
    lemma_risk_bounds();
}

/// Law: the risk level of an ensemble is that of its mean confidence.
pub proof fn law_ensemble_risk_follows_the_confidence(
    e: EnsembleAnalysis,
    bars: Seq<PriceBar>,
    sweep: Sweep,
    filter: LpplFilterConfig,
    fits: Seq<Vec<Option<LpplParams>>>,
)
    requires
        confidence::is_ensemble(e, bars, sweep, filter, fits),
        !e.mean_confidence.nan(),
    ensures
        levels_apart(e.mean_confidence, e.combined.risk_level@),
{
    lemma_risk_bounds();
}

/// The patterns of 15, 45 and 75.
pub proof fn lemma_risk_bounds()
    ensures
        (Real { bits: FIFTEEN }).value() == 15 * binary64::one_in_units(),
        (Real { bits: FORTY_FIVE }).value() == 45 * binary64::one_in_units(),
        (Real { bits: SEVENTY_FIVE }).value() == 75 * binary64::one_in_units(),
{
    crate::rounding::lemma_pow2_constants();
    vstd::arithmetic::power2::lemma2_to64();
    vstd::arithmetic::power2::lemma2_to64_rest();
    let one = binary64::one_in_units();
    assert(binary64::field_scale(FIFTEEN as nat) == 1025);
    assert(binary64::field_significand(FIFTEEN as nat) == 15 * 0x2_0000_0000_0000);
    assert(binary64::field_scale(FORTY_FIVE as nat) == 1027);
    assert(binary64::field_significand(FORTY_FIVE as nat) == 45 * 0x8000_0000_0000);
    assert(binary64::field_scale(SEVENTY_FIVE as nat) == 1028);
    assert(binary64::field_significand(SEVENTY_FIVE as nat) == 75 * 0x4000_0000_0000);
    vstd::arithmetic::power2::lemma_pow2_adds(49, 1025);
    vstd::arithmetic::power2::lemma_pow2_adds(47, 1027);
    vstd::arithmetic::power2::lemma_pow2_adds(46, 1028);
    lemma_factor(15, 0x2_0000_0000_0000, vstd::arithmetic::power2::pow2(1025));
    lemma_factor(45, 0x8000_0000_0000, vstd::arithmetic::power2::pow2(1027));
    lemma_factor(75, 0x4000_0000_0000, vstd::arithmetic::power2::pow2(1028));
}

proof fn lemma_factor(a: nat, b: nat, c: nat)
    ensures
        (a * b) * c == a * (b * c),
{
    assert((a * b) * c == a * (b * c)) by (nonlinear_arith);
}

/// Law: an ensemble lists the critical dates of all its sweeps, each once, in ascending
/// order; its confidence is the mean of theirs, added up from the first to the last and
/// divided by their number, and its spread is the root of their mean squared distance from
/// the mean.
pub proof fn law_ensemble_takes_the_sweeps_together(
    e: EnsembleAnalysis,
    bars: Seq<PriceBar>,
    sweep: Sweep,
    filter: LpplFilterConfig,
    fits: Seq<Vec<Option<LpplParams>>>,
    date: Date,
)
    requires
        confidence::is_ensemble(e, bars, sweep, filter, fits),
        fits.len() > 0,
    ensures
        e.per_seed@.len() == fits.len(),
        e.combined.predicted_critical_dates@.contains(date) <==> exists|k: int, j: int|
            0 <= k < fits.len() && 0 <= j < e.per_seed@[k].predicted_critical_dates@.len()
                && #[trigger] e.per_seed@[k].predicted_critical_dates@[j] == date,
        forall|i: int, j: int|
            0 <= i < j < e.combined.predicted_critical_dates@.len()
                ==> e.combined.predicted_critical_dates@[i].epoch_day
                < e.combined.predicted_critical_dates@[j].epoch_day,
        e.mean_confidence == e.per_seed@.fold_left(
            Real { bits: ZERO },
            |sum: Real, a: BubbleAnalysisResult| sum.plus(a.bubble_confidence_index),
        ).over(Real::of_integer(fits.len() as int)),
        e.std_confidence == e.per_seed@.fold_left(
            Real { bits: ZERO },
            |sum: Real, a: BubbleAnalysisResult|
                sum.plus(
                    a.bubble_confidence_index.minus(e.mean_confidence).times(
                        a.bubble_confidence_index.minus(e.mean_confidence),
                    ),
                ),
        ).over(Real::of_integer(fits.len() as int)).root(),
        e.combined.bubble_confidence_index == e.mean_confidence,
        e.combined.valid_fits == e.per_seed@[0].valid_fits,
        e.combined.total_windows_tested == e.per_seed@[0].total_windows_tested,
        e.combined.valid_fit_details@ == e.per_seed@[0].valid_fit_details@,
        e.combined.analysis_date == bars[sweep.current_idx as int].date,
        e.combined.current_price == bars[sweep.current_idx as int].adj_close,
{
    assert(confidence::is_analysis(e.per_seed@[0], bars, sweep, filter, fits[0]@));
    let all = e.combined.predicted_critical_dates@;
    if all.contains(date) {
        assert(confidence::predicted_by_any(e.per_seed@, date));
        let k = choose|k: int|
            0 <= k < e.per_seed@.len() && (
            #[trigger] e.per_seed@[k]).predicted_critical_dates@.contains(date);
        let dates = e.per_seed@[k].predicted_critical_dates@;
        let j = choose|j: int| 0 <= j < dates.len() && dates[j] == date;
        assert(e.per_seed@[k].predicted_critical_dates@[j] == date);
    }
    if exists|k: int, j: int|
        0 <= k < fits.len() && 0 <= j < e.per_seed@[k].predicted_critical_dates@.len()
            && #[trigger] e.per_seed@[k].predicted_critical_dates@[j] == date {
        let (k, j) = choose|k: int, j: int|
            0 <= k < fits.len() && 0 <= j < e.per_seed@[k].predicted_critical_dates@.len()
                && #[trigger] e.per_seed@[k].predicted_critical_dates@[j] == date;
        assert(e.per_seed@[k].predicted_critical_dates@.contains(date));
        assert(confidence::predicted_by_any(e.per_seed@, date));
    }
    lemma_confidence_fold(e.per_seed@, e.mean_confidence, fits.len() as int);
    assert(e.per_seed@.take(fits.len() as int) =~= e.per_seed@);
}

proof fn lemma_confidence_fold(results: Seq<BubbleAnalysisResult>, mean: Real, n: int)
    requires
        0 <= n <= results.len(),
    ensures
        stats::sum_of(confidence::confidences_of(results), 0, n) == results.take(n).fold_left(
            Real { bits: ZERO },
            |sum: Real, a: BubbleAnalysisResult| sum.plus(a.bubble_confidence_index),
        ),
        stats::squares_around(confidence::confidences_of(results), mean, 0, n) == results.take(
            n,
        ).fold_left(
            Real { bits: ZERO },
            |sum: Real, a: BubbleAnalysisResult|
                sum.plus(
                    a.bubble_confidence_index.minus(mean).times(
                        a.bubble_confidence_index.minus(mean),
                    ),
                ),
        ),
    decreases n,
{
    if n > 0 {
        lemma_confidence_fold(results, mean, n - 1);
        assert(results.take(n).drop_last() =~= results.take(n - 1));
    }
}

/// Law: a sweep speaks of the bar that it looks back from.
pub proof fn law_analysis_is_of_its_bar(
    r: BubbleAnalysisResult,
    bars: Seq<PriceBar>,
    sweep: Sweep,
    filter: LpplFilterConfig,
    fits: Seq<Option<LpplParams>>,
)
    requires
        confidence::is_analysis(r, bars, sweep, filter, fits),
    ensures
        r.analysis_date == bars[sweep.current_idx as int].date,
        r.current_price == bars[sweep.current_idx as int].adj_close,
        r.predicted_critical_dates@.len() == r.valid_fit_details@.len(),
        forall|i: int, j: int|
            0 <= i <= j < r.predicted_critical_dates@.len()
                ==> r.predicted_critical_dates@[i].epoch_day
                <= r.predicted_critical_dates@[j].epoch_day,
{
    let dates = confidence::critical_dates(r.valid_fit_details@);
    dates.to_multiset_ensures();
    r.predicted_critical_dates@.to_multiset_ensures();
}

/// Law: the description of a risk is that of the confidence behind it.
pub proof fn law_descriptions_follow_the_confidence(confidence_index: Real, level: Seq<char>)
    requires
        levels_apart(confidence_index, level),
    ensures
        ({
            let c = confidence_index.value();
            let one = binary64::one_in_units();
            let d = confidence::description_of(level);
            &&& c < 15 * one ==> d
                == "Normal organic trend or basic noise. No systematic herding signatures detected."@
            &&& 15 * one <= c < 45 * one ==> d
                == "Localized acceleration detected. Keep an eye on parabolic velocity changes."@
            &&& 45 * one <= c < 75 * one ==> d
                == "Significant critical mass forming. The trend shows super-exponential characteristics."@
            &&& 75 * one <= c ==> d
                == "Extreme herd synchronization. Acceleration pattern is structurally unstable."@
        }),
{
    reveal_strlit("LOW RISK");
    reveal_strlit("MODERATE RISK");
    reveal_strlit("HIGH RISK");
    reveal_strlit("CRITICAL BUBBLE REGIME");
    assert("LOW RISK"@.len() == 8 && "MODERATE RISK"@.len() == 13);
    assert("HIGH RISK"@.len() == 9 && "CRITICAL BUBBLE REGIME"@.len() == 22);
}

} // verus!
