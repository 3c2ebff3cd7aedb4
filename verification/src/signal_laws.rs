//! What the parts of a daily signal mean.

use crate::binary64;
use crate::binary64::{Real, ONE_BITS};
use crate::bubble_score;
use crate::config::BacktestConfig;
use crate::constants::{
    BILLIONTH, FIFTEEN_HUNDREDTHS, FOUR_TENTHS, MINUS_FOUR_TENTHS, MINUS_ONE, SIX_TENTHS,
    THREE_TENTHS, TRILLIONTH, ZERO,
};
use crate::counting;
use crate::data::PriceBar;
use crate::hlppl_signals;
use crate::hlppl_signals::HlpplSignalSeries;
use crate::hype;
use crate::order;
use crate::sentiment;
use crate::stats;
use crate::walk_laws;
use vstd::arithmetic::div_mod::*;
use vstd::prelude::*;

verus! {

/// Window `k` was fitted and covers bar `i`: windows begin every `stride` bars.
pub open spec fn covers(fits: Seq<Option<Vec<Real>>>, stride: int, k: int, i: int) -> bool {
    fits[k] matches Some(residuals) && k * stride <= i < k * stride + residuals@.len()
}

/// The stride of the windows, which is at least one bar.
pub open spec fn step(cfg: BacktestConfig) -> int {
    if cfg.window_stride > 1 {
        cfg.window_stride as int
    } else {
        1
    }
}

/// Law: the raw residual of a bar is the mean over all fitted windows that cover it: their
/// residuals for that bar, added up in the order of the windows, divided by the number of
/// those windows. Where no window covers the bar it is 0.
pub proof fn law_residual_is_the_mean_over_all_windows(
    s: HlpplSignalSeries,
    bars: Seq<PriceBar>,
    cfg: BacktestConfig,
    fits: Seq<Option<Vec<Real>>>,
    hype: Seq<Real>,
    i: int,
)
    requires
        hlppl_signals::is_paper_series(s, bars, cfg, fits, hype),
        0 <= i < bars.len(),
    ensures
        ({
            let n = fits.len() as int;
            let p = |k: int| covers(fits, step(cfg), k, i);
            let raw = s.raw_epsilon@[i];
            &&& s.raw_epsilon@.len() == bars.len()
            &&& counting::those(n, p).finite()
            &&& counting::those(n, p).len() == 0 ==> !raw.nan() && raw.value() == 0
            &&& counting::those(n, p).len() > 0 ==> raw == counting::in_order(n, p).fold_left(
                Real { bits: ZERO },
                |sum: Real, k: int| sum.plus(fits[k]->0@[i - k * step(cfg)]),
            ).over(Real::of_integer(counting::those(n, p).len() as int))
        }),
{
    let n = fits.len() as int;
    binary64::lemma_zero();
    lemma_residuals(cfg, fits, n, i);
    counting::lemma_those(n, |k: int| covers(fits, step(cfg), k, i));
}

proof fn lemma_residuals(cfg: BacktestConfig, fits: Seq<Option<Vec<Real>>>, n: int, i: int)
    requires
        0 <= n <= fits.len(),
    ensures
        ({
            let p = |k: int| covers(fits, step(cfg), k, i);
            &&& hlppl_signals::residual_count(cfg, fits, n, i) == counting::those(n, p).len()
            &&& hlppl_signals::residual_sum(cfg, fits, n, i) == counting::in_order(
                n,
                p,
            ).fold_left(
                Real { bits: ZERO },
                |sum: Real, k: int| sum.plus(fits[k]->0@[i - k * step(cfg)]),
            )
        }),
    decreases n,
{
    let p = |k: int| covers(fits, step(cfg), k, i);
    let f = |sum: Real, k: int| sum.plus(fits[k]->0@[i - k * step(cfg)]);
    let zero = Real { bits: ZERO };
    counting::lemma_those(n, p);
    if n > 0 {
        lemma_residuals(cfg, fits, n - 1, i);
        let earlier = counting::in_order(n - 1, p);
        assert(earlier.push(n - 1).drop_last() =~= earlier);
        assert(earlier.push(n - 1).fold_left(zero, f) == f(earlier.fold_left(zero, f), n - 1));
    }
}

/// Law: each window that covers a bar has a say in its raw residual. Where the same windows
/// cover the bar and none of their residuals for it is lowered, neither is the raw residual,
/// as long as the sums stay numbers; a window that does not cover it has no say at all.
#[verifier::spinoff_prover]
pub proof fn law_residual_moves_with_each_window(
    s: HlpplSignalSeries,
    t: HlpplSignalSeries,
    bars: Seq<PriceBar>,
    cfg: BacktestConfig,
    f: Seq<Option<Vec<Real>>>,
    g: Seq<Option<Vec<Real>>>,
    hype: Seq<Real>,
    i: int,
)
    requires
        hlppl_signals::is_paper_series(s, bars, cfg, f, hype),
        hlppl_signals::is_paper_series(t, bars, cfg, g, hype),
        0 <= i < bars.len(),
        f.len() == g.len() <= usize::MAX,
        forall|k: int| 0 <= k < f.len() ==> #[trigger] covers(f, step(cfg), k, i) == covers(
            g,
            step(cfg),
            k,
            i,
        ),
        forall|k: int|
            0 <= k < f.len() && #[trigger] covers(f, step(cfg), k, i) ==> {
                let (x, y) = (f[k]->0@[i - k * step(cfg)], g[k]->0@[i - k * step(cfg)]);
                x.finite() && y.finite() && x.value() <= y.value()
            },
        forall|k: int|
            0 <= k <= f.len() ==> #[trigger] hlppl_signals::residual_sum(cfg, f, k, i).finite()
                && hlppl_signals::residual_sum(cfg, g, k, i).finite(),
    ensures
        s.raw_epsilon@[i].at_most(t.raw_epsilon@[i]),
{
    let n = f.len() as int;
    binary64::lemma_zero();
    lemma_sums_ordered(cfg, f, g, n, i);
    let count = hlppl_signals::residual_count(cfg, f, n, i) as int;
    lemma_residuals(cfg, f, n, i);
    counting::lemma_those(n, |k: int| covers(f, step(cfg), k, i));
    if count > 0 {
        order::lemma_integer_order(1, count);
        order::lemma_integer_exact(1);
        vstd::arithmetic::power2::lemma_pow2_pos(1074);
        assert(1 * binary64::one_in_units() == binary64::one_in_units());
        assert(Real::of_integer(count).magnitude() > 0);
        assert(Real::of_integer(count).field() != 0);
        let sum = hlppl_signals::residual_sum(cfg, f, n, i);
        assert(sum.finite());
        assert(hlppl_signals::residual_sum(cfg, g, n, i).finite());
        assert(sum.at_most(hlppl_signals::residual_sum(cfg, g, n, i)));
        lemma_quotients_ordered(
            hlppl_signals::residual_sum(cfg, f, n, i),
            hlppl_signals::residual_sum(cfg, g, n, i),
            Real::of_integer(count),
        );
    }
}

proof fn lemma_sums_ordered(
    cfg: BacktestConfig,
    f: Seq<Option<Vec<Real>>>,
    g: Seq<Option<Vec<Real>>>,
    n: int,
    i: int,
)
    requires
        0 <= n <= f.len(),
        f.len() == g.len(),
        forall|k: int| 0 <= k < f.len() ==> #[trigger] covers(f, step(cfg), k, i) == covers(
            g,
            step(cfg),
            k,
            i,
        ),
        forall|k: int|
            0 <= k < f.len() && #[trigger] covers(f, step(cfg), k, i) ==> {
                let (x, y) = (f[k]->0@[i - k * step(cfg)], g[k]->0@[i - k * step(cfg)]);
                x.finite() && y.finite() && x.value() <= y.value()
            },
        forall|k: int|
            0 <= k <= f.len() ==> #[trigger] hlppl_signals::residual_sum(cfg, f, k, i).finite()
                && hlppl_signals::residual_sum(cfg, g, k, i).finite(),
    ensures
        hlppl_signals::residual_sum(cfg, f, n, i).at_most(
            hlppl_signals::residual_sum(cfg, g, n, i),
        ),
        hlppl_signals::residual_count(cfg, f, n, i) == hlppl_signals::residual_count(
            cfg,
            g,
            n,
            i,
        ),
    decreases n,
{
    if n > 0 {
        lemma_sums_ordered(cfg, f, g, n - 1, i);
        let k = n - 1;
        assert(hlppl_signals::residual_sum(cfg, f, k, i).finite());
        if covers(f, step(cfg), k, i) {
            order::lemma_plus_order(
                hlppl_signals::residual_sum(cfg, f, k, i),
                hlppl_signals::residual_sum(cfg, g, k, i),
                f[k]->0@[i - k * step(cfg)],
                g[k]->0@[i - k * step(cfg)],
            );
        } else {
            assert(!covers(g, step(cfg), k, i));
        }
    }
}

/// Dividing by a positive number keeps the order.
proof fn lemma_quotients_ordered(x: Real, y: Real, divisor: Real)
    requires
        x.finite(),
        y.finite(),
        divisor.finite(),
        !divisor.negative(),
        divisor.field() != 0,
        x.at_most(y),
    ensures
        x.over(divisor).at_most(y.over(divisor)),
{
    let one = binary64::one_in_units();
    let d = divisor.magnitude();
    binary64::lemma_zero();
    binary64::lemma_field_order(0, divisor.field());
    let (a, b) = (x.magnitude() * one, y.magnitude() * one);
    order::lemma_round_range(a, d);
    order::lemma_round_range(b, d);
    order::lemma_signed(x.negative(), crate::rounding::round_ratio(a, d));
    order::lemma_signed(y.negative(), crate::rounding::round_ratio(b, d));
    if !x.negative() && !y.negative() {
        order::lemma_over_order(x, y, divisor);
    } else if x.negative() && y.negative() {
        order::lemma_signed(false, x.field());
        order::lemma_signed(false, y.field());
        order::lemma_over_order(y.absolute(), x.absolute(), divisor);
        order::lemma_signed(false, crate::rounding::round_ratio(a, d));
        order::lemma_signed(false, crate::rounding::round_ratio(b, d));
    } else if y.negative() {
        assert(x.magnitude() == 0 && y.magnitude() == 0);
        assert(a == 0 && b == 0) by (nonlinear_arith)
            requires
                a == x.magnitude() * one,
                b == y.magnitude() * one,
                x.magnitude() == 0,
                y.magnitude() == 0,
        ;
        binary64::lemma_round_ratio_zero(d);
    }
}

/// Law: a window that is laid over the bars starts at a multiple of the stride and fits
/// into the bars, and at each such place there is one. Neighbouring windows have seeds that
/// lie 148 strides apart, modulo 2^64.
pub proof fn law_windows_are_laid_at_each_stride(cfg: BacktestConfig, n: int, start: int)
    requires
        n >= 0,
        cfg.lookback_days > 0,
    ensures
        (exists|k: int|
            0 <= k < hlppl_signals::window_count(cfg, n) && #[trigger] hlppl_signals::paper_start(
                cfg,
                k,
            ) == start) <==> start >= 0 && start % step(cfg) == 0 && start + cfg.lookback_days
            <= n,
        ({
            let w = cfg.lookback_days;
            let modulus = 0x1_0000_0000_0000_0000int;
            let here = hlppl_signals::window_seed(cfg.random_seed, start, start + w - 1);
            let next = hlppl_signals::window_seed(
                cfg.random_seed,
                start + step(cfg),
                start + step(cfg) + w - 1,
            );
            &&& 0 <= here < modulus
            &&& (next - here - 148 * step(cfg)) % modulus == 0
            &&& hlppl_signals::window_seed(cfg.random_seed, 0, 0) == cfg.random_seed
        }),
{
    let d = step(cfg);
    let count = hlppl_signals::window_count(cfg, n);
    let span = n - cfg.lookback_days;
    if start >= 0 && start % d == 0 && start <= span {
        let k = start / d;
        lemma_fundamental_div_mod(start, d);
        assert(k * d == start) by (nonlinear_arith)
            requires
                start == d * k + 0,
        ;
        lemma_div_is_ordered(start, span, d);
        assert(k >= 0) by (nonlinear_arith)
            requires
                k * d == start,
                start >= 0,
                d > 0,
        ;
        assert(hlppl_signals::paper_start(cfg, k) == start);
    }
    assert forall|k: int|
        0 <= k < count && #[trigger] hlppl_signals::paper_start(cfg, k) == start implies start >= 0
        && start % d == 0 && start <= span by {
        lemma_fundamental_div_mod(span, d);
        let q = span / d;
        assert(0 <= k * d <= span) by (nonlinear_arith)
            requires
                0 <= k <= q,
                d * q <= span,
                d > 0,
        ;
        lemma_mod_multiples_basic(k, d);
    }
    let modulus = 0x1_0000_0000_0000_0000int;
    let w = cfg.lookback_days;
    let a = cfg.random_seed + start * 131 + (start + w - 1) * 17;
    let b = cfg.random_seed + (start + d) * 131 + (start + d + w - 1) * 17;
    assert(b - a == 148 * d);
    lemma_fundamental_div_mod(a, modulus);
    lemma_fundamental_div_mod(b, modulus);
    let rest = b % modulus - a % modulus - 148 * d;
    assert(rest == modulus * (a / modulus - b / modulus)) by (nonlinear_arith)
        requires
            b == modulus * (b / modulus) + b % modulus,
            a == modulus * (a / modulus) + a % modulus,
            b - a == 148 * d,
            rest == b % modulus - a % modulus - 148 * d,
    ;
    lemma_mod_multiples_basic(a / modulus - b / modulus, modulus);
    assert((a / modulus - b / modulus) * modulus == modulus * (a / modulus - b / modulus))
        by (nonlinear_arith);
    lemma_small_mod(cfg.random_seed as nat, modulus as nat);
}

/// Entry `top` is the largest in magnitude from `start` to `i`.
pub open spec fn is_largest(raw: Seq<Real>, start: int, i: int, top: int) -> bool {
    &&& start <= top <= i
    &&& forall|j: int|
        start <= j <= i ==> (#[trigger] raw[j]).magnitude() <= raw[top].magnitude()
}

/// Law: the normalized residual of a bar is its raw residual divided by the largest
/// magnitude from the first bar with a signal up to that bar. It is 0 before that first
/// bar, and as long as the largest magnitude is at most 10^-12.
pub proof fn law_normalized_by_the_largest_so_far(
    s: HlpplSignalSeries,
    bars: Seq<PriceBar>,
    cfg: BacktestConfig,
    fits: Seq<Option<Vec<Real>>>,
    hype: Seq<Real>,
    i: int,
    top: int,
)
    requires
        hlppl_signals::is_paper_series(s, bars, cfg, fits, hype),
        bubble_score::all_finite(s.raw_epsilon@),
        cfg.lookback_days > 0,
        0 <= i < bars.len(),
        i >= cfg.lookback_days - 1 ==> is_largest(
            s.raw_epsilon@,
            cfg.lookback_days - 1,
            i,
            top,
        ),
    ensures
        s.signal_start == cfg.lookback_days - 1,
        i < cfg.lookback_days - 1 ==> s.eps_norm@[i].value() == 0,
        i >= cfg.lookback_days - 1 ==> {
            let raw = s.raw_epsilon@;
            if raw[top].magnitude() > (Real { bits: TRILLIONTH }).magnitude() {
                s.eps_norm@[i] == raw[i].over(raw[top].absolute())
            } else {
                s.eps_norm@[i].value() == 0
            }
        },
{
    let raw = s.raw_epsilon@;
    let first = cfg.lookback_days - 1;
    binary64::lemma_zero();
    if i >= first {
        lemma_share(raw, first, i, top);
    }
}

/// The largest residual so far is the magnitude of the entry that is the largest.
pub proof fn lemma_largest_is(raw: Seq<Real>, first: int, i: int, top: int)
    requires
        bubble_score::all_finite(raw),
        0 <= first <= i < raw.len(),
        is_largest(raw, first, i, top),
    ensures
        bubble_score::largest_residual(raw, first, i + 1) == raw[top].absolute(),
{
    bubble_score::lemma_largest_bounds(raw, first, i + 1);
    let at = lemma_largest_attained(raw, first, i + 1);
    order::lemma_signed(false, raw[at].field());
    assert(raw[at].magnitude() <= raw[top].magnitude());
    assert(raw[top].magnitude() <= raw[at].magnitude());
    order::lemma_magnitude_reflects(raw[at].field(), raw[top].field());
    order::lemma_magnitude_reflects(raw[top].field(), raw[at].field());
}

proof fn lemma_share(raw: Seq<Real>, first: int, i: int, top: int)
    requires
        bubble_score::all_finite(raw),
        0 <= first <= i < raw.len(),
        is_largest(raw, first, i, top),
    ensures
        ({
            let share = bubble_score::share_of_largest(
                raw[i],
                bubble_score::largest_residual(raw, first, i + 1),
            );
            if raw[top].magnitude() > (Real { bits: TRILLIONTH }).magnitude() {
                share == raw[i].over(raw[top].absolute())
            } else {
                share.value() == 0
            }
        }),
{
    binary64::lemma_zero();
    let largest = bubble_score::largest_residual(raw, first, i + 1);
    bubble_score::lemma_largest_bounds(raw, first, i + 1);
    lemma_largest_is(raw, first, i, top);
    order::lemma_signed(false, raw[top].field());
    if (Real { bits: TRILLIONTH }).below(largest) {
        binary64::lemma_field_order(0, TRILLIONTH as nat);
        order::lemma_over_unit(raw[i], largest);
        order::lemma_one();
        vstd::arithmetic::power2::lemma_pow2_pos(1074);
        assert((Real { bits: MINUS_ONE }).field() == ONE_BITS);
        assert((Real { bits: MINUS_ONE }).value() == -(binary64::one_in_units() as int));
        order::lemma_magnitude_order(raw[i].over(largest).field(), ONE_BITS as nat);
    }
}

proof fn lemma_largest_attained(raw: Seq<Real>, start: int, end: int) -> (at: int)
    requires
        bubble_score::all_finite(raw),
        0 <= start < end <= raw.len(),
    ensures
        start <= at < end,
        bubble_score::largest_residual(raw, start, end) == raw[at].absolute(),
    decreases end - start,
{
    binary64::lemma_zero();
    order::lemma_signed(false, raw[end - 1].field());
    let before = bubble_score::largest_residual(raw, start, end - 1);
    if before.below(raw[end - 1].absolute()) {
        end - 1
    } else if start < end - 1 {
        bubble_score::lemma_largest_bounds(raw, start, end - 1);
        lemma_largest_attained(raw, start, end - 1)
    } else {
        assert(before == (Real { bits: ZERO }));
        if raw[start].field() != 0 {
            binary64::lemma_field_order(0, raw[start].field());
        }
        start
    }
}

/// Law: the normalized residual of the last day of one fit is that day's residual divided by
/// the largest magnitude in the fit, 0 where that is at most 10^-12.
pub proof fn law_last_residual_by_the_largest(residuals: Seq<Real>, top: int)
    requires
        residuals.len() > 0,
        bubble_score::all_finite(residuals),
        is_largest(residuals, 0, residuals.len() - 1, top),
    ensures
        ({
            let largest = residuals[top].absolute();
            if largest.magnitude() > (Real { bits: TRILLIONTH }).magnitude() {
                bubble_score::last_share(residuals) == residuals.last().over(largest)
            } else {
                bubble_score::last_share(residuals).value() == 0
            }
        }),
{
    lemma_share(residuals, 0, residuals.len() - 1, top);
    order::lemma_signed(false, residuals[top].field());
}

/// Law: the score of a bar with a signal moves away from the curve: weighted hype and mood
/// are added to a normalized residual of 0 or more, and taken off a negative one. Bars
/// before the first signal score 0. The other parts of the signal are those given and
/// computed for the bar.
pub proof fn law_score_of_a_bar(
    s: HlpplSignalSeries,
    bars: Seq<PriceBar>,
    cfg: BacktestConfig,
    fits: Seq<Option<Vec<Real>>>,
    hype: Seq<Real>,
    i: int,
)
    requires
        hlppl_signals::is_paper_series(s, bars, cfg, fits, hype),
        0 <= i < bars.len(),
        hype.len() == bars.len(),
        !s.eps_norm@[i].nan(),
    ensures
        ({
            let e = s.eps_norm@[i];
            let h = cfg.alpha1_hype.times(s.hype@[i]);
            let m = cfg.alpha2_sentiment.times(s.sentiment@[i]);
            let point = hlppl_signals::series_point(s, i);
            &&& s.hype@[i] == hype[i]
            &&& i < cfg.lookback_days - 1 ==> s.bubble_score@[i].value() == 0
            &&& i >= cfg.lookback_days - 1 && e.value() >= 0 ==> s.bubble_score@[i] == e.plus(
                h,
            ).plus(m)
            &&& i >= cfg.lookback_days - 1 && e.value() < 0 ==> s.bubble_score@[i] == e.minus(
                h,
            ).minus(m)
            &&& point.bubble_score == s.bubble_score@[i] && point.eps_norm == e
            &&& point.hype_volume == s.hype@[i] && point.sentiment == s.sentiment@[i]
        }),
{
    binary64::lemma_zero();
}

/// `mood` is that of a return: 0.15 in its direction, and 0.3 times the return held between
/// -0.4 and 0.4.
pub open spec fn is_mood(mood: Real, change: Real) -> bool {
    let part = change.times(Real { bits: THREE_TENTHS });
    let low = Real { bits: MINUS_FOUR_TENTHS };
    let high = Real { bits: FOUR_TENTHS };
    let size = if part.value() < low.value() {
        low
    } else if part.value() > high.value() {
        high
    } else {
        part
    };
    let direction = Real { bits: FIFTEEN_HUNDREDTHS };
    &&& change.value() > 0 ==> mood == direction.plus(size)
    &&& change.value() < 0 ==> mood == direction.negated().plus(size)
    &&& change.value() == 0 ==> mood.value() == 0
}

/// Law: the mood of a day comes from its return.
pub proof fn law_mood_of_a_return(change: Real)
    requires
        change.finite(),
    ensures
        is_mood(sentiment::mood(change), change),
{
    sentiment::law_mood_follows_return(change);
    sentiment::lemma_direction(change);
    order::lemma_times_shrinks(change, Real { bits: THREE_TENTHS });
    binary64::lemma_zero();
    if change.field() != 0 {
        binary64::lemma_field_order(0, change.field());
    }
}

/// Law: the sentiment of a bar is the mood of the change of its close; the first bar has
/// none.
pub proof fn law_sentiment_of_a_bar(
    s: HlpplSignalSeries,
    bars: Seq<PriceBar>,
    cfg: BacktestConfig,
    fits: Seq<Option<Vec<Real>>>,
    hype: Seq<Real>,
    i: int,
)
    requires
        hlppl_signals::is_paper_series(s, bars, cfg, fits, hype),
        0 <= i < bars.len(),
        i > 0 ==> walk_laws::close_change(bars, i).finite(),
    ensures
        i == 0 ==> s.sentiment@[i].value() == 0,
        i > 0 ==> is_mood(s.sentiment@[i], walk_laws::close_change(bars, i)),
{
    binary64::lemma_zero();
    if i > 0 {
        law_mood_of_a_return(walk_laws::close_change(bars, i));
        walk_laws::lemma_close_change(bars, i);
    }
}

/// 0.6 times the distance of the last of `recent` from their mean, in standard deviations;
/// the variance is lifted by 10^-9.
pub open spec fn attention(recent: Seq<Real>) -> Real {
    let zero = Real { bits: ZERO };
    let n = Real::of_integer(recent.len() as int);
    let mean = recent.fold_left(zero, |sum: Real, v: Real| sum.plus(v)).over(n);
    let variance = recent.fold_left(
        zero,
        |sum: Real, v: Real| sum.plus(v.minus(mean).times(v.minus(mean))),
    ).over(n);
    recent.last().minus(mean).over(variance.plus(Real { bits: BILLIONTH }).root()).times(
        Real { bits: SIX_TENTHS },
    )
}

/// Law: the hype of a bar rests on the volumes of the last `window` bars up to it, at least
/// five of them, as far as there are any.
pub proof fn law_hype_is_recent_attention(volumes: Seq<Real>, window: int, i: int)
    requires
        window >= 0,
        0 <= i < volumes.len(),
    ensures
        ({
            let n = volumes.len() as int;
            let reach = if window >= 5 && n >= 5 {
                if window < n {
                    window
                } else {
                    n
                }
            } else {
                5
            };
            let start = if i + 1 >= reach {
                i + 1 - reach
            } else {
                0
            };
            hype::hype_argument(volumes, hype::effective_window(window, n), i) == attention(
                volumes.subrange(start, i + 1),
            )
        }),
{
    let w = hype::effective_window(window, volumes.len() as int);
    let start = hype::window_start(i, w);
    stats::law_mean_is_sum_by_count(volumes, start, i + 1);
    stats::law_variance_is_mean_square(volumes, start, i + 1);
    assert(volumes.subrange(start, i + 1).last() == volumes[i]);
}

/// Law: the hype of a single bar is the attention that the last `window` bars up to it give
/// it, one bar at least.
pub proof fn law_hype_at_a_bar(bars: Seq<PriceBar>, i: int, window: int)
    requires
        0 <= i < bars.len(),
        window >= 0,
    ensures
        ({
            let reach = if window > 1 {
                window
            } else {
                1
            };
            let start = if i + 1 >= reach {
                i + 1 - reach
            } else {
                0
            };
            let recent = Seq::new((i + 1 - start) as nat, |j: int| bars[start + j].volume);
            hlppl_signals::hype_argument_at(bars, i, window) == attention(recent)
        }),
{
    let start = hype::window_start(
        i,
        if window < 1 {
            1
        } else {
            window
        },
    );
    let recent = hlppl_signals::volumes_between(bars, start, i + 1);
    let n = i + 1 - start;
    law_hype_is_recent_attention(recent, window, n - 1);
    let from = hype::window_start(n - 1, hype::effective_window(window, n));
    assert(from == 0);
    assert(recent.subrange(0, n) =~= recent);
}

} // verus!
