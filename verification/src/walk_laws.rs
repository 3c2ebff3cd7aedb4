//! What the days, the curve and the figures of a backtest mean.

use crate::backtest;
use crate::backtest::{BacktestResult, BacktestRun, DailySignal, WalkInput};
use crate::backtest_laws;
use crate::binary64;
use crate::binary64::{Real, ONE_BITS};
use crate::config::{BacktestConfig, PositionBias};
use crate::constants::{
    BILLIONTH, FIFTH, HUNDRED, MILLIONTH, TEN_THOUSAND, TRADING_DAYS, TRILLIONTH, ZERO,
};
use crate::counting;
use crate::data::PriceBar;
use crate::hlppl_signals;
use crate::order;
use crate::stats;
use vstd::prelude::*;

verus! {

/// The side that a score asks for: long (1) above the long threshold, short (-1) below
/// minus the short threshold and not above the long one, else none (0); the other way
/// round where the signal is inverted.
pub open spec fn side(score: Real, cfg: BacktestConfig) -> int {
    let plain: int = if !score.nan() && !cfg.long_threshold.nan() && score.value()
        > cfg.long_threshold.value() {
        1
    } else if !score.nan() && !cfg.short_threshold.nan() && score.value()
        < -cfg.short_threshold.value() {
        -1
    } else {
        0
    };
    if cfg.invert_signal {
        -plain
    } else {
        plain
    }
}

/// What the side is worth: the full position on that side, as far as the bias admits it.
pub open spec fn wanted(score: Real, cfg: BacktestConfig) -> int {
    let full = side(score, cfg) * cfg.max_position.value();
    match cfg.position_bias {
        PositionBias::LongShort => full,
        PositionBias::LongOnly => if full > 0 {
            full
        } else {
            0
        },
        PositionBias::ShortOnly => if full < 0 {
            full
        } else {
            0
        },
    }
}

/// `share` is the confidence as a fraction, held between 0.2 and 1.
pub open spec fn is_scale(share: Real, confidence: Real) -> bool {
    let fraction = confidence.over(Real { bits: HUNDRED });
    let (low, high) = (Real { bits: FIFTH }, Real { bits: ONE_BITS });
    &&& fraction.value() < low.value() ==> share == low
    &&& fraction.value() > high.value() ==> share == high
    &&& low.value() <= fraction.value() <= high.value() ==> share == fraction
}

/// `position` is what a score and a confidence, if there is one, ask for: flat where the
/// confidence is above its threshold, a share of the full position where it is sized by the
/// confidence, and else the full position.
pub open spec fn is_target(
    position: Real,
    score: Real,
    confidence: Option<Real>,
    cfg: BacktestConfig,
) -> bool {
    let full = wanted(score, cfg);
    match confidence {
        None => !position.nan() && position.value() == full,
        Some(c) => if cfg.use_confidence_for_flat && !cfg.confidence_flat_threshold.nan()
            && c.value() > cfg.confidence_flat_threshold.value() {
            !position.nan() && position.value() == 0
        } else if cfg.use_confidence_for_sizing && (full > (Real { bits: BILLIONTH }).value()
            || -full > (Real { bits: BILLIONTH }).value()) {
            exists|held: Real, share: Real|
                !held.nan() && held.value() == full && is_scale(share, c) && position
                    == #[trigger] held.times(share)
        } else {
            !position.nan() && position.value() == full
        },
    }
}

proof fn lemma_base_is_wanted(score: Real, cfg: BacktestConfig)
    requires
        !cfg.max_position.nan(),
    ensures
        !backtest::base_position(score, cfg).nan(),
        backtest::base_position(score, cfg).value() == wanted(score, cfg),
{
    let max = cfg.max_position;
    binary64::lemma_zero();
    order::lemma_signed(true, 0);
    order::lemma_signed(!max.negative(), max.field());
    order::lemma_signed(max.negative(), max.field());
    let short = cfg.short_threshold;
    if !short.nan() {
        order::lemma_signed(!short.negative(), short.field());
    } else {
        lemma_negated_nan(short);
    }
    let v = max.value();
    assert(1 * v == v && -1 * v == -v && 0 * v == 0 && (-0) * v == 0) by (nonlinear_arith);
}

proof fn lemma_negated_nan(x: Real)
    requires
        x.nan(),
    ensures
        x.negated().nan(),
{
}

/// Law: a position is what the score and the confidence ask for. A score above the long
/// threshold asks for the full long position whatever the short threshold, one below minus
/// the short threshold and not above the long one for the full short position, any other
/// for none; inversion, bias and confidence come after that.
pub proof fn law_position_is_the_target(
    score: Real,
    confidence: Option<Real>,
    cfg: BacktestConfig,
)
    requires
        !cfg.max_position.nan(),
        confidence matches Some(c) ==> c.finite(),
    ensures
        is_target(backtest::target_position(score, confidence, cfg), score, confidence, cfg),
{
    lemma_base_is_wanted(score, cfg);
    binary64::lemma_zero();
    let base = backtest::base_position(score, cfg);
    order::lemma_signed(false, base.field());
    if let Some(c) = confidence {
        let fraction = c.over(Real { bits: HUNDRED });
        let n = c.magnitude() * binary64::one_in_units();
        let d = (Real { bits: HUNDRED }).magnitude();
        binary64::lemma_field_order(0, HUNDRED as nat);
        order::lemma_round_range(n, d);
        order::lemma_signed(c.negative(), crate::rounding::round_ratio(n, d));
        let share = backtest::confidence_scale(c);
        order::lemma_magnitude_order(FIFTH as nat, ONE_BITS as nat);
        assert(is_scale(share, c));
        binary64::lemma_field_order(0, BILLIONTH as nat);
        let p = backtest::target_position(score, confidence, cfg);
        if p == base.times(share) {
            assert(!base.nan() && base.value() == wanted(score, cfg) && is_scale(share, c) && p
                == base.times(share));
        }
    }
}

/// Law: a score above the long threshold asks for the same position whatever the short
/// threshold is, and one that is not above it asks for the same position whatever the long
/// threshold is, as long as it stays not above it.
pub proof fn law_thresholds_keep_to_their_sides(
    score: Real,
    confidence: Option<Real>,
    a: BacktestConfig,
    b: BacktestConfig,
)
    requires
        b == (BacktestConfig {
            long_threshold: b.long_threshold,
            short_threshold: b.short_threshold,
            ..a
        }),
    ensures
        a.long_threshold.below(score) && b.long_threshold.below(score)
            ==> backtest::target_position(score, confidence, a) == backtest::target_position(
            score,
            confidence,
            b,
        ),
        !a.long_threshold.below(score) && !b.long_threshold.below(score) && a.short_threshold
            == b.short_threshold ==> backtest::target_position(score, confidence, a)
            == backtest::target_position(score, confidence, b),
{
}

/// Law: the higher the score, the higher the position, as long as the signal is not
/// inverted and the short threshold lies below the long one.
pub proof fn law_position_grows_with_the_score(low: Real, high: Real, cfg: BacktestConfig)
    requires
        low.at_most(high),
        cfg.max_position.finite(),
        cfg.max_position.value() >= 0,
        !cfg.invert_signal,
        !cfg.long_threshold.nan(),
        !cfg.short_threshold.nan(),
        -cfg.short_threshold.value() <= cfg.long_threshold.value(),
    ensures
        backtest::base_position(low, cfg).at_most(backtest::base_position(high, cfg)),
{
    lemma_base_is_wanted(low, cfg);
    lemma_base_is_wanted(high, cfg);
    let v = cfg.max_position.value();
    assert(1 * v == v && -1 * v == -v && 0 * v == 0) by (nonlinear_arith);
}

/// The change of the adjusted close from the bar before to bar `i`, 0 where the close
/// before is not positive.
pub open spec fn close_change(bars: Seq<PriceBar>, i: int) -> Real {
    let before = bars[i - 1].adj_close;
    if !before.nan() && before.value() > 0 {
        bars[i].adj_close.over(before).minus(Real { bits: ONE_BITS })
    } else {
        Real { bits: ZERO }
    }
}

/// The return of an asset is the change of its close.
pub proof fn lemma_close_change(bars: Seq<PriceBar>, i: int)
    ensures
        hlppl_signals::asset_return(bars, i) == close_change(bars, i),
{
    binary64::lemma_zero();
}

/// Law: each day of a backtest records its bar and its signal, holds the position that the
/// signal and the confidence ask for, counts as a trade where that position differs from
/// the one before by more than a millionth, and returns what the position before earns on
/// the change of the close, less the cost where there is a trade. The equity is multiplied
/// by one plus that return.
#[verifier::spinoff_prover]
#[verifier::rlimit(40)]
pub proof fn law_days_of_a_backtest(
    r: BacktestResult,
    ticker: Seq<char>,
    input: WalkInput,
    growth: Real,
    k: int,
)
    requires
        backtest::is_backtest(r, ticker, input, growth),
        input.complete(),
        0 <= k < input.bars@.len() - input.cfg.lookback_days,
        !input.cfg.max_position.nan(),
        input.cfg.enable_bubble_analysis ==> (input.confidences@[k] matches Some(c)
            ==> c.finite()),
    ensures
        ({
            let i = input.cfg.lookback_days + k;
            let bar = input.bars@[i];
            let point = input.points@[k];
            let day = r.signals@[k];
            let confidence = if input.cfg.enable_bubble_analysis {
                input.confidences@[k]
            } else {
                None
            };
            let held = if k > 0 {
                r.signals@[k - 1].position
            } else {
                Real { bits: ZERO }
            };
            let earned = held.times(close_change(input.bars@, i));
            let cost = input.cfg.cost_bps.over(Real { bits: TEN_THOUSAND }).absolute();
            &&& r.signals@.len() == input.bars@.len() - input.cfg.lookback_days
            &&& day.date == bar.date && day.close == bar.adj_close && day.volume == bar.volume
            &&& day.bubble_score == point.bubble_score && day.eps_norm == point.eps_norm
            &&& day.hype_volume == point.hype_volume && day.sentiment == point.sentiment
            &&& confidence matches Some(c) ==> day.bubble_confidence == c
            &&& confidence is None ==> day.bubble_confidence.value() == 0
            &&& is_target(day.position, point.bubble_score, confidence, *input.cfg)
            &&& day.trade <==> !day.position.minus(held).nan() && day.position.minus(
                held,
            ).magnitude() > (Real { bits: MILLIONTH }).value()
            &&& i > 0 && !day.trade ==> day.daily_return == earned
            &&& i > 0 && day.trade ==> day.daily_return == earned.minus(cost)
            &&& i == 0 ==> day.daily_return.value() == 0
            &&& r.equity@.len() == r.signals@.len() + 1
            &&& r.equity@[0] == (Real { bits: ONE_BITS })
            &&& r.equity@[k + 1] == r.equity@[k].times(
                (Real { bits: ONE_BITS }).plus(day.daily_return),
            )
        }),
{
    let i = input.cfg.lookback_days + k;
    binary64::lemma_zero();
    lemma_close_change(input.bars@, i);
    assert(r.signals@[k] == input.signal(k));
    if k > 0 {
        assert(r.signals@[k - 1] == input.signal(k - 1));
    }
    law_position_is_the_target(input.points@[k].bubble_score, input.confidence(k), *input.cfg);
    let moved = input.position(k).minus(input.position(k - 1));
    if !moved.nan() {
        order::lemma_signed(false, moved.field());
    } else {
        lemma_absolute_nan(moved);
    }
    assert(input.strategy_series()[k] == input.strategy_return(k));
}

proof fn lemma_absolute_nan(x: Real)
    requires
        x.nan(),
    ensures
        x.absolute().nan(),
{
}

/// Law: the equity of holding the asset starts at 1 and follows the closes: it is multiplied
/// by one plus the change of the close on each day that has an earlier bar.
#[verifier::spinoff_prover]
#[verifier::rlimit(40)]
pub proof fn law_holding_follows_the_closes(
    r: BacktestResult,
    ticker: Seq<char>,
    input: WalkInput,
    growth: Real,
    i: int,
)
    requires
        backtest::is_backtest(r, ticker, input, growth),
        input.cfg.lookback_days < input.bars@.len(),
        input.cfg.lookback_days <= i < input.bars@.len(),
        0 < i,
    ensures
        ({
            let first = if input.cfg.lookback_days == 0 {
                1
            } else {
                input.cfg.lookback_days as int
            };
            let at = i - first;
            &&& r.bh_equity@.len() == input.bars@.len() - first + 1
            &&& r.bh_equity@[0] == (Real { bits: ONE_BITS })
            &&& r.bh_equity@[at + 1] == r.bh_equity@[at].times(
                (Real { bits: ONE_BITS }).plus(close_change(input.bars@, i)),
            )
        }),
{
    lemma_holding(input, i);
}

proof fn lemma_holding(input: WalkInput, i: int)
    requires
        input.cfg.lookback_days <= i < input.bars@.len(),
        0 < i,
    ensures
        ({
            let first = if input.cfg.lookback_days == 0 {
                1
            } else {
                input.cfg.lookback_days as int
            };
            let at = i - first;
            let curve = backtest::equity_curve(input.asset_measured());
            &&& curve.len() == input.bars@.len() - first + 1
            &&& curve[0] == (Real { bits: ONE_BITS })
            &&& curve[at + 1] == curve[at].times(
                (Real { bits: ONE_BITS }).plus(close_change(input.bars@, i)),
            )
        }),
{
    lemma_close_change(input.bars@, i);
    let at = i - input.cfg.lookback_days - input.first_return_day();
    assert(input.asset_measured()[at] == hlppl_signals::asset_return(input.bars@, i));
    backtest_laws::law_equity_recurrence(input.asset_measured(), at);
}

/// Law: the figures of a backtest are drawn from its days and curves: the first and the last
/// day, the number of days, the number of days with a trade, and what the curves have grown
/// by. A year's growth counts only for more than five returns.
#[verifier::spinoff_prover]
#[verifier::rlimit(40)]
pub proof fn law_figures_come_from_the_days(
    r: BacktestResult,
    ticker: Seq<char>,
    input: WalkInput,
    growth: Real,
)
    requires
        backtest::is_backtest(r, ticker, input, growth),
        input.complete(),
        input.cfg.lookback_days + 1 < input.bars@.len(),
    ensures
        ({
            let one = Real { bits: ONE_BITS };
            let n = r.signals@.len() as int;
            let measured = if input.cfg.lookback_days == 0 {
                n - 1
            } else {
                n
            };
            &&& r.ticker@ == ticker
            &&& n == input.bars@.len() - input.cfg.lookback_days
            &&& r.n_days == n
            &&& r.start_date == r.signals@[0].date
            &&& r.end_date == r.signals@[n - 1].date
            &&& r.end_date == input.bars@[input.bars@.len() - 1].date
            &&& r.num_trades == counting::those(n, |k: int| r.signals@[k].trade).len()
            &&& r.total_return == r.equity@[n].minus(one)
            &&& r.buy_hold_return == r.bh_equity@[r.bh_equity@.len() - 1].minus(one)
            &&& measured > 5 ==> r.annualized_return == growth.minus(one)
            &&& measured <= 5 ==> r.annualized_return == r.total_return
        }),
{
    let n = r.signals@.len() as int;
    assert(r.signals@[0] == input.signal(0));
    assert(r.signals@[n - 1] == input.signal(n - 1));
    lemma_trades_counted(r.signals@, n);
    assert(r.signals@.take(n) =~= r.signals@);
    lemma_changes(input);
}

proof fn lemma_changes(input: WalkInput)
    requires
        input.cfg.lookback_days + 1 < input.bars@.len(),
    ensures
        ({
            let one = Real { bits: ONE_BITS };
            let equity = backtest::equity_curve(input.strategy_series());
            let held = backtest::equity_curve(input.asset_measured());
            &&& equity.len() == input.days() + 1
            &&& backtest::total_change(input.asset_measured()) == held[held.len() - 1].minus(one)
            &&& input.strategy_measured().len() == input.days() - input.first_return_day()
        }),
{
}

proof fn lemma_trades_counted(signals: Seq<DailySignal>, n: int)
    requires
        0 <= n <= signals.len(),
    ensures
        backtest::trade_count(signals.take(n)) == counting::those(
            n,
            |k: int| signals[k].trade,
        ).len(),
    decreases n,
{
    let p = |k: int| signals[k].trade;
    counting::lemma_those(n, p);
    reveal(Seq::filter);
    if n > 0 {
        lemma_trades_counted(signals, n - 1);
        assert(signals.take(n).drop_last() =~= signals.take(n - 1));
    } else {
        assert(signals.take(0) =~= Seq::<DailySignal>::empty());
    }
}

/// Entry `i` is the highest up to entry `j`.
pub open spec fn is_peak(equity: Seq<Real>, i: int, j: int) -> bool {
    &&& 0 <= i <= j < equity.len()
    &&& forall|h: int| 0 <= h <= j ==> (#[trigger] equity[h]).value() <= equity[i].value()
}

/// Law: the largest drawdown is the worst fall from a peak, as a share of the peak: no fall
/// from the highest entry so far is larger, and some fall is as large, unless there is none.
#[verifier::spinoff_prover]
#[verifier::rlimit(40)]
pub proof fn law_drawdown_is_the_worst_fall(
    r: BacktestResult,
    ticker: Seq<char>,
    input: WalkInput,
    growth: Real,
)
    requires
        backtest::is_backtest(r, ticker, input, growth),
        backtest_laws::solvent(r.equity@),
    ensures
        forall|i: int, j: int| #[trigger]
            is_peak(r.equity@, i, j) ==> r.equity@[i].minus(r.equity@[j]).over(
                r.equity@[i],
            ).at_most(r.max_drawdown),
        r.max_drawdown.value() == 0 || exists|i: int, j: int| #[trigger]
            is_peak(r.equity@, i, j) && r.max_drawdown == r.equity@[i].minus(r.equity@[j]).over(
                r.equity@[i],
            ),
{
    let equity = r.equity@;
    let n = equity.len() as int;
    lemma_worst_fall(equity, n);
}

proof fn lemma_worst_fall(equity: Seq<Real>, n: int)
    requires
        backtest_laws::solvent(equity),
        0 <= n <= equity.len(),
    ensures
        !backtest::largest_drawdown(equity, n).nan(),
        forall|i: int, j: int| #[trigger]
            is_peak(equity, i, j) && j < n ==> equity[i].minus(equity[j]).over(
                equity[i],
            ).at_most(backtest::largest_drawdown(equity, n)),
        backtest::largest_drawdown(equity, n).value() == 0 || exists|i: int, j: int| #[trigger]
            is_peak(equity, i, j) && backtest::largest_drawdown(equity, n) == equity[i].minus(
                equity[j],
            ).over(equity[i]),
    decreases n,
{
    binary64::lemma_zero();
    if n > 0 {
        lemma_worst_fall(equity, n - 1);
        backtest_laws::law_drawdown_is_share(equity, n - 1);
        backtest_laws::law_drawdown_is_share(equity, n);
        let j = n - 1;
        let top = lemma_peak_exists(equity, n);
        let fall = backtest::drawdown(equity, j);
        assert(fall == equity[top].minus(equity[j]).over(equity[top]));
        backtest_laws::lemma_fall_defined(equity, n);
        assert(is_peak(equity, top, j));
        let worst = backtest::largest_drawdown(equity, n);
        assert forall|a: int, b: int| #[trigger]
            is_peak(equity, a, b) && b < n implies equity[a].minus(equity[b]).over(
            equity[a],
        ).at_most(worst) by {
            if b == j {
                assert(equity[a].value() >= equity[top].value());
                assert(equity[top].value() >= equity[a].value());
                lemma_same_number(equity[a], equity[top]);
            }
        }
    }
}

/// Positive numbers of the same value are the same.
proof fn lemma_same_number(x: Real, y: Real)
    requires
        x.finite(),
        y.finite(),
        x.value() == y.value(),
        x.value() > 0,
    ensures
        x == y,
{
    order::lemma_magnitude_reflects(x.field(), y.field());
    order::lemma_magnitude_reflects(y.field(), x.field());
}

proof fn lemma_peak_exists(equity: Seq<Real>, n: int) -> (top: int)
    requires
        backtest_laws::solvent(equity),
        0 < n <= equity.len(),
    ensures
        is_peak(equity, top, n - 1),
        backtest::running_peak(equity, n) == equity[top],
    decreases n,
{
    if n == 1 {
        assert(backtest::running_peak(equity, 0) == equity[0]);
        0
    } else {
        let before = lemma_peak_exists(equity, n - 1);
        if backtest::running_peak(equity, n - 1).below(equity[n - 1]) {
            n - 1
        } else {
            before
        }
    }
}

/// The returns of the days that have an earlier bar.
pub open spec fn measured_returns(signals: Seq<DailySignal>, cfg: BacktestConfig) -> Seq<Real> {
    let first: int = if cfg.lookback_days == 0 {
        1
    } else {
        0
    };
    Seq::new((signals.len() - first) as nat, |k: int| signals[first + k].daily_return)
}

/// The ratio of the mean of the returns to their standard deviation, scaled by the root of
/// 252 days; 0 for at most five returns or a negligible deviation. Both are added up from
/// the first return to the last.
pub open spec fn is_sharpe(ratio: Real, xs: Seq<Real>) -> bool {
    let zero = Real { bits: ZERO };
    let n = Real::of_integer(xs.len() as int);
    let mean = xs.fold_left(zero, |sum: Real, v: Real| sum.plus(v)).over(n);
    let deviation = xs.fold_left(
        zero,
        |sum: Real, v: Real| sum.plus(v.minus(mean).times(v.minus(mean))),
    ).over(n).root();
    if xs.len() > 5 && !deviation.nan() && deviation.value() > (Real { bits: TRILLIONTH }).value() {
        ratio == mean.over(deviation).times((Real { bits: TRADING_DAYS }).root())
    } else {
        ratio.value() == 0
    }
}

/// Law: the Sharpe ratios of a backtest are those of the strategy's daily returns and of the
/// changes of the close.
#[verifier::spinoff_prover]
#[verifier::rlimit(40)]
pub proof fn law_sharpe_is_mean_by_deviation(
    r: BacktestResult,
    ticker: Seq<char>,
    input: WalkInput,
    growth: Real,
)
    requires
        backtest::is_backtest(r, ticker, input, growth),
        input.complete(),
        input.cfg.lookback_days + 1 < input.bars@.len(),
    ensures
        is_sharpe(r.sharpe, measured_returns(r.signals@, *input.cfg)),
        ({
            let first = if input.cfg.lookback_days == 0 {
                1
            } else {
                input.cfg.lookback_days as int
            };
            is_sharpe(
                r.buy_hold_sharpe,
                Seq::new(
                    (input.bars@.len() - first) as nat,
                    |j: int| close_change(input.bars@, first + j),
                ),
            )
        }),
{
    let xs = measured_returns(r.signals@, *input.cfg);
    let first = input.first_return_day();
    assert forall|k: int| 0 <= k < xs.len() implies xs[k] == input.strategy_measured()[k] by {
        assert(r.signals@[first + k] == input.signal(first + k));
    }
    assert(xs =~= input.strategy_measured());
    lemma_sharpe(xs);
    let from = if input.cfg.lookback_days == 0 {
        1
    } else {
        input.cfg.lookback_days as int
    };
    let ys = Seq::new(
        (input.bars@.len() - from) as nat,
        |j: int| close_change(input.bars@, from + j),
    );
    assert forall|j: int| 0 <= j < ys.len() implies ys[j] == input.asset_measured()[j] by {
        lemma_close_change(input.bars@, from + j);
    }
    assert(ys =~= input.asset_measured());
    lemma_sharpe(ys);
}

/// Law: what is raised to a year is one plus the mean of the daily returns of a walk, added
/// up from the first to the last; there is none for at most five returns.
pub proof fn law_growth_is_one_plus_the_mean(
    run: BacktestRun,
    ticker: Seq<char>,
    input: WalkInput,
)
    requires
        backtest::is_walk(run, ticker, input),
        input.complete(),
        input.cfg.lookback_days + 1 < input.bars@.len(),
    ensures
        ({
            let xs = measured_returns(run.signals@, *input.cfg);
            &&& run.daily_changes@ == xs
            &&& xs.len() <= 5 ==> run.annual_base() is None
            &&& xs.len() > 5 ==> run.annual_base() == Some(
                (Real { bits: ONE_BITS }).plus(
                    xs.fold_left(Real { bits: ZERO }, |sum: Real, v: Real| sum.plus(v)).over(
                        Real::of_integer(xs.len() as int),
                    ),
                ),
            )
        }),
{
    let xs = measured_returns(run.signals@, *input.cfg);
    let first = input.first_return_day();
    assert forall|k: int| 0 <= k < xs.len() implies xs[k] == input.strategy_measured()[k] by {
        assert(run.signals@[first + k] == input.signal(first + k));
    }
    assert(xs =~= input.strategy_measured());
    let n = xs.len() as int;
    stats::law_mean_is_sum_by_count(xs, 0, n);
    assert(xs.subrange(0, n) =~= xs);
}

proof fn lemma_sharpe(xs: Seq<Real>)
    ensures
        is_sharpe(backtest::sharpe_ratio(xs), xs),
{
    let n = xs.len() as int;
    binary64::lemma_zero();
    stats::law_mean_is_sum_by_count(xs, 0, n);
    stats::law_variance_is_mean_square(xs, 0, n);
    assert(xs.subrange(0, n) =~= xs);
}

} // verus!
