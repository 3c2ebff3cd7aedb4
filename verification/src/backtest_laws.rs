//! What holds of every backtest.

use crate::backtest;
use crate::backtest::{BacktestRun, WalkInput};
use crate::binary64;
use crate::binary64::{Real, ONE_BITS};
use crate::config::{BacktestConfig, PositionBias};
use crate::constants::{BILLIONTH, FIFTH, HUNDRED, ZERO};
use crate::data::PriceBar;
use crate::fast_signals;
use crate::fast_signals::{FastReply, FastTask};
use crate::order;
use vstd::prelude::*;

verus! {

/// Law: a long-only strategy never asks for a short position, a short-only strategy never
/// for a long one.
pub proof fn law_bias_is_kept(score: Real, cfg: BacktestConfig)
    requires
        !cfg.max_position.nan(),
    ensures
        !backtest::base_position(score, cfg).nan(),
        cfg.position_bias == PositionBias::LongOnly ==> backtest::base_position(
            score,
            cfg,
        ).value() >= 0,
        cfg.position_bias == PositionBias::ShortOnly ==> backtest::base_position(
            score,
            cfg,
        ).value() <= 0,
{
    binary64::lemma_zero();
    order::lemma_signed(!cfg.max_position.negative(), cfg.max_position.field());
    order::lemma_signed(cfg.max_position.negative(), cfg.max_position.field());
    order::lemma_signed(true, 0);
}

/// Law: a score between the thresholds asks for a flat position, whatever the confidence.
pub proof fn law_flat_between_thresholds(
    score: Real,
    confidence: Option<Real>,
    cfg: BacktestConfig,
)
    requires
        !cfg.long_threshold.below(score),
        !score.below(cfg.short_threshold.negated()),
    ensures
        backtest::target_position(score, confidence, cfg).value() == 0,
        !backtest::target_position(score, confidence, cfg).nan(),
{
    binary64::lemma_zero();
    order::lemma_signed(true, 0);
    order::lemma_signed(false, 0);
    assert((Real { bits: ZERO }).negated() == Real::signed(true, 0));
    let base = backtest::base_position(score, cfg);
    assert(base.value() == 0 && base.field() == 0);
    order::lemma_magnitude_order(0, BILLIONTH as nat);
    assert(base.absolute() == (Real { bits: ZERO }));
}

/// Law: inverting the signal of a strategy that may go both ways turns its position round.
pub proof fn law_inversion_negates(score: Real, a: BacktestConfig, b: BacktestConfig)
    requires
        a.position_bias == PositionBias::LongShort,
        b.position_bias == PositionBias::LongShort,
        a.long_threshold == b.long_threshold,
        a.short_threshold == b.short_threshold,
        a.max_position == b.max_position,
        a.invert_signal != b.invert_signal,
    ensures
        backtest::base_position(score, b) == backtest::base_position(score, a).negated(),
{
}

/// Law: where the settings ask for it, a confidence above the threshold forces a flat
/// position.
pub proof fn law_confidence_forces_flat(score: Real, confidence: Real, cfg: BacktestConfig)
    requires
        cfg.use_confidence_for_flat,
        cfg.confidence_flat_threshold.below(confidence),
    ensures
        backtest::target_position(score, Some(confidence), cfg) == (Real { bits: ZERO }),
{
    binary64::lemma_zero();
    order::lemma_magnitude_order(0, BILLIONTH as nat);
    assert((Real { bits: ZERO }).absolute() == (Real { bits: ZERO }));
}

/// Law: the share of a position that a confidence leaves lies between 0.2 and 1.
pub proof fn law_scale_in_bounds(confidence: Real)
    requires
        confidence.finite(),
    ensures
        backtest::confidence_scale(confidence).finite(),
        !backtest::confidence_scale(confidence).negative(),
        FIFTH <= backtest::confidence_scale(confidence).field() <= ONE_BITS,
{
    let hundred = Real { bits: HUNDRED };
    let share = confidence.over(hundred);
    let n = confidence.magnitude() * binary64::one_in_units();
    binary64::lemma_field_order(0, HUNDRED as nat);
    order::lemma_round_range(n, hundred.magnitude());
    order::lemma_signed(
        confidence.negative() != hundred.negative(),
        crate::rounding::round_ratio(n, hundred.magnitude()),
    );
    binary64::lemma_zero();
    binary64::lemma_field_order(0, FIFTH as nat);
    binary64::lemma_field_order(FIFTH as nat, ONE_BITS as nat);
    let low = Real { bits: FIFTH };
    let high = Real { bits: ONE_BITS };
    if !share.below(low) && !high.below(share) {
        order::lemma_magnitude_reflects(FIFTH as nat, share.field());
        order::lemma_magnitude_reflects(share.field(), ONE_BITS as nat);
    }
}

/// Law: a look at the confidence never enlarges a position and never turns it round.
pub proof fn law_confidence_never_enlarges(
    position: Real,
    confidence: Real,
    cfg: BacktestConfig,
)
    requires
        position.finite(),
        confidence.finite(),
    ensures
        backtest::confident_position(position, confidence, cfg).finite(),
        backtest::confident_position(position, confidence, cfg).field() <= position.field(),
        position.value() >= 0 ==> backtest::confident_position(
            position,
            confidence,
            cfg,
        ).value() >= 0,
        position.value() <= 0 ==> backtest::confident_position(
            position,
            confidence,
            cfg,
        ).value() <= 0,
{
    binary64::lemma_zero();
    law_scale_in_bounds(confidence);
    let scale = backtest::confidence_scale(confidence);
    order::lemma_times_shrinks(position, scale);
    order::lemma_times_shrinks(Real { bits: ZERO }, scale);
    order::lemma_times_sign(position, scale);
    order::lemma_times_sign(Real { bits: ZERO }, scale);
}

/// Law: the equity starts at 1 and is multiplied by one plus the return of each day.
pub proof fn law_equity_recurrence(series: Seq<Real>, k: int)
    requires
        0 <= k < series.len(),
    ensures
        backtest::equity_curve(series)[0] == (Real { bits: ONE_BITS }),
        backtest::equity_curve(series)[k + 1] == backtest::equity_curve(series)[k].times(
            (Real { bits: ONE_BITS }).plus(series[k]),
        ),
        backtest::equity_curve(series).len() == series.len() + 1,
{
}

/// Law: a walk records one signal for each bar from the first signal day on, its equity has
/// one entry more, and so has the equity of holding the asset, which ends at the buy and
/// hold return.
pub proof fn law_walk_lengths(run: BacktestRun, ticker: Seq<char>, input: WalkInput)
    requires
        input.cfg.lookback_days + 30 <= input.bars@.len(),
        backtest::is_walk(run, ticker, input),
    ensures
        run.wf(),
        run.signals@.len() == input.bars@.len() - input.cfg.lookback_days,
        run.equity@.len() == run.signals@.len() + 1,
        input.cfg.lookback_days > 0 ==> run.bh_equity@.len() == run.equity@.len(),
        run.equity@[0] == (Real { bits: ONE_BITS }),
        run.num_trades <= run.signals@.len(),
        backtest::total_change(run.bh_changes@) == run.bh_equity@.last().minus(
            Real { bits: ONE_BITS },
        ),
{
    lemma_filter_len(run.signals@);
}

proof fn lemma_filter_len(signals: Seq<backtest::DailySignal>)
    ensures
        backtest::trade_count(signals) <= signals.len(),
    decreases signals.len(),
{
    reveal(Seq::filter);
    if signals.len() > 0 {
        lemma_filter_len(signals.drop_last());
    }
}

/// Law: on a day without a trade the strategy earns exactly what the position held before
/// makes of the asset's return; a trade costs the configured cost on top.
pub proof fn law_daily_return(input: WalkInput, k: int)
    requires
        0 <= k < input.days(),
        input.bar(k) > 0,
    ensures
        ({
            let earned = input.position(k - 1).times(
                crate::hlppl_signals::asset_return(input.bars@, input.bar(k)),
            );
            &&& !input.signal(k).trade ==> input.signal(k).daily_return == earned
            &&& input.signal(k).trade ==> input.signal(k).daily_return == earned.minus(
                input.cost(),
            )
            &&& k > 0 ==> input.position(k - 1) == input.signal(k - 1).position
            &&& k == 0 ==> input.position(k - 1) == (Real { bits: ZERO })
        }),
{
}

/// An equity that is a number and not negative throughout.
pub open spec fn solvent(equity: Seq<Real>) -> bool {
    &&& equity.len() > 0
    &&& equity[0].value() > 0
    &&& forall|i: int|
        0 <= i < equity.len() ==> (#[trigger] equity[i]).finite() && equity[i].value() >= 0
}

proof fn lemma_peak_bounds(equity: Seq<Real>, k: int)
    requires
        solvent(equity),
        0 <= k <= equity.len(),
    ensures
        backtest::running_peak(equity, k).finite(),
        backtest::running_peak(equity, k).value() > 0,
        k > 0 ==> equity[k - 1].at_most(backtest::running_peak(equity, k)),
    decreases k,
{
    if k > 0 {
        lemma_peak_bounds(equity, k - 1);
    }
}

/// Law: the largest drawdown is never negative, and never more than everything as long as
/// the equity is a number and not negative.
pub proof fn law_drawdown_is_share(equity: Seq<Real>, k: int)
    requires
        0 <= k <= equity.len(),
        solvent(equity),
    ensures
        (Real { bits: ZERO }).at_most(backtest::largest_drawdown(equity, k)),
        backtest::largest_drawdown(equity, k).at_most(Real { bits: ONE_BITS }),
    decreases k,
{
    binary64::lemma_zero();
    order::lemma_one();
    if k > 0 {
        law_drawdown_is_share(equity, k - 1);
        lemma_peak_bounds(equity, k);
        let peak = backtest::running_peak(equity, k);
        let e = equity[k - 1];
        let fall = peak.minus(e);
        order::lemma_signed(!e.negative(), e.field());
        order::lemma_plus_value(peak, e.negated());
        order::lemma_rounded_order(peak.value() - e.value(), peak.value());
        order::lemma_rounded_value(peak);
        order::lemma_rounded_order(0, peak.value() - e.value());
        order::lemma_rounded_value(Real { bits: ZERO });
        assert(0 <= fall.value() <= peak.value());
        if fall.infinite() {
            binary64::lemma_field_order(peak.field(), crate::rounding::INFINITY_FIELD as nat);
        }
        assert(peak.field() != 0);
        order::lemma_over_unit(fall, peak);
        let share = fall.over(peak);
        order::lemma_magnitude_order(share.field(), ONE_BITS as nat);
        if share.negative() {
            assert(fall.value() == 0);
        }
    }
}

/// The fall of the last entry from the peak so far is defined.
pub proof fn lemma_fall_defined(equity: Seq<Real>, k: int)
    requires
        0 < k <= equity.len(),
        solvent(equity),
    ensures
        !backtest::drawdown(equity, k - 1).nan(),
{
    binary64::lemma_zero();
    lemma_peak_bounds(equity, k);
    let peak = backtest::running_peak(equity, k);
    let e = equity[k - 1];
    order::lemma_signed(!e.negative(), e.field());
    order::lemma_plus_value(peak, e.negated());
    order::lemma_rounded_order(peak.value() - e.value(), peak.value());
    order::lemma_rounded_value(peak);
    order::lemma_rounded_order(0, peak.value() - e.value());
    order::lemma_rounded_value(Real { bits: ZERO });
    let fall = peak.minus(e);
    if fall.infinite() {
        binary64::lemma_field_order(peak.field(), crate::rounding::INFINITY_FIELD as nat);
    }
    order::lemma_over_unit(fall, peak);
}

/// Law: the largest drawdown never shrinks as the curve goes on.
pub proof fn law_drawdown_grows(equity: Seq<Real>, k: int)
    requires
        0 <= k < equity.len(),
        solvent(equity),
    ensures
        backtest::largest_drawdown(equity, k).at_most(
            backtest::largest_drawdown(equity, k + 1),
        ),
{
    law_drawdown_is_share(equity, k);
    law_drawdown_is_share(equity, k + 1);
}

/// Law: throughout a walk a long-only strategy holds no short position, and a short-only
/// strategy no long one, whatever the confidences.
pub proof fn law_walk_keeps_bias(input: WalkInput, k: int)
    requires
        k < input.days(),
        input.cfg.max_position.finite(),
        k >= 0 ==> (input.confidence(k) matches Some(c) ==> c.finite()),
    ensures
        input.cfg.position_bias == PositionBias::LongOnly ==> input.position(k).value() >= 0,
        input.cfg.position_bias == PositionBias::ShortOnly ==> input.position(k).value() <= 0,
{
    binary64::lemma_zero();
    if k >= 0 {
        let score = input.points@[k].bubble_score;
        law_bias_is_kept(score, *input.cfg);
        let base = backtest::base_position(score, *input.cfg);
        order::lemma_signed(!input.cfg.max_position.negative(), input.cfg.max_position.field());
        assert(base.finite());
        if let Some(c) = input.confidence(k) {
            law_confidence_never_enlarges(base, c, *input.cfg);
        }
    }
}

/// Law: without sizing by confidence a position is full on one side, or flat.
pub proof fn law_positions_are_whole(score: Real, confidence: Option<Real>, cfg: BacktestConfig)
    requires
        !cfg.use_confidence_for_sizing,
        !cfg.max_position.nan(),
    ensures
        ({
            let p = backtest::target_position(score, confidence, cfg);
            p == cfg.max_position || p == cfg.max_position.negated() || p.value() == 0
        }),
{
    binary64::lemma_zero();
    order::lemma_signed(true, 0);
    order::lemma_signed(!cfg.max_position.negative(), cfg.max_position.field());
    assert((Real { bits: ZERO }).negated() == Real::signed(true, 0));
}

/// Law: a walk is reproducible: what goes in fixes everything that comes out.
pub proof fn law_walk_is_reproducible(
    a: BacktestRun,
    b: BacktestRun,
    ticker: Seq<char>,
    input: WalkInput,
)
    requires
        backtest::is_walk(a, ticker, input),
        backtest::is_walk(b, ticker, input),
    ensures
        a.signals@ == b.signals@,
        a.equity@ == b.equity@,
        a.bh_equity@ == b.bh_equity@,
        a.daily_changes@ == b.daily_changes@,
        a.bh_changes@ == b.bh_changes@,
        a.num_trades == b.num_trades,
        a.start_date == b.start_date,
        a.end_date == b.end_date,
{
}

proof fn lemma_compounded_prefix(a: Seq<Real>, b: Seq<Real>, k: int)
    requires
        forall|j: int| 0 <= j < k ==> a[j] == b[j],
    ensures
        backtest::compounded(a, k) == backtest::compounded(b, k),
    decreases k,
{
    if k > 0 {
        lemma_compounded_prefix(a, b, k - 1);
    }
}

/// Law: a walk never looks ahead. What it records of the days up to `k`, and the equity
/// after them, that of holding the asset included, rest on the bars, signals and confidences
/// up to that day.
pub proof fn law_walk_looks_back(a: WalkInput, b: WalkInput, k: int)
    requires
        0 <= k < a.days(),
        k < b.days(),
        a.complete(),
        b.complete(),
        *a.cfg == *b.cfg,
        forall|j: int| 0 <= j <= a.bar(k) ==> a.bars@[j] == b.bars@[j],
        forall|j: int| 0 <= j <= k ==> a.points@[j] == b.points@[j],
        a.cfg.enable_bubble_analysis ==> forall|j: int|
            0 <= j <= k ==> a.confidences@[j] == b.confidences@[j],
    ensures
        forall|j: int| 0 <= j <= k ==> #[trigger] a.signals()[j] == b.signals()[j],
        forall|j: int|
            0 <= j <= k + 1 ==> #[trigger] backtest::equity_curve(a.strategy_series())[j]
                == backtest::equity_curve(b.strategy_series())[j],
        forall|j: int|
            0 <= j <= k + 1 - a.first_return_day() ==> #[trigger] backtest::equity_curve(
                a.asset_measured(),
            )[j] == backtest::equity_curve(b.asset_measured())[j],
{
    assert forall|j: int| -1 <= j <= k implies #[trigger] a.position(j) == b.position(j) by {}
    assert forall|j: int| 0 <= j <= k implies #[trigger] a.strategy_return(j)
        == b.strategy_return(j) by {
        assert(a.position(j) == b.position(j));
        assert(a.position(j - 1) == b.position(j - 1));
    }
    assert forall|j: int| 0 <= j <= k implies #[trigger] a.signals()[j] == b.signals()[j] by {
        assert(a.strategy_return(j) == b.strategy_return(j));
        assert(a.position(j) == b.position(j));
        assert(a.position(j - 1) == b.position(j - 1));
    }
    assert forall|j: int| 0 <= j <= k + 1 implies #[trigger] backtest::equity_curve(
        a.strategy_series(),
    )[j] == backtest::equity_curve(b.strategy_series())[j] by {
        lemma_compounded_prefix(a.strategy_series(), b.strategy_series(), j);
    }
    assert forall|j: int| 0 <= j <= k + 1 - a.first_return_day() implies #[trigger]
        backtest::equity_curve(a.asset_measured())[j] == backtest::equity_curve(
        b.asset_measured(),
    )[j] by {
        lemma_compounded_prefix(a.asset_measured(), b.asset_measured(), j);
    }
}

/// Law: a fast backtest of the first bars is the beginning of the backtest of all bars, in
/// its signals, its equity and the equity of holding the asset. `answer`, `squash` and
/// `confidence` stand for the fits, the hyperbolic tangent and the bubble confidences, each
/// made from the bars up to the day.
pub proof fn law_fast_backtest_is_prefix(
    a: BacktestRun,
    b: BacktestRun,
    ticker: Seq<char>,
    x: WalkInput,
    y: WalkInput,
    answer: spec_fn(FastTask, Seq<PriceBar>) -> FastReply,
    squash: spec_fn(Real) -> Real,
    confidence: spec_fn(Seq<PriceBar>) -> Option<Real>,
)
    requires
        backtest::is_walk(a, ticker, x),
        backtest::is_walk(b, ticker, y),
        x.complete(),
        y.complete(),
        *x.cfg == *y.cfg,
        x.cfg.refit_every > 0,
        x.days() > 0,
        x.bars@.len() <= y.bars@.len(),
        x.bars@ == y.bars@.take(x.bars@.len() as int),
        x.points@ == fast_signals::fast_days(x.bars@, *x.cfg, answer, squash),
        y.points@ == fast_signals::fast_days(y.bars@, *y.cfg, answer, squash),
        x.cfg.enable_bubble_analysis ==> forall|k: int|
            0 <= k < x.days() ==> #[trigger] x.confidences@[k] == confidence(
                x.bars@.take(x.bar(k) + 1),
            ),
        x.cfg.enable_bubble_analysis ==> forall|k: int|
            0 <= k < y.days() ==> #[trigger] y.confidences@[k] == confidence(
                y.bars@.take(y.bar(k) + 1),
            ),
    ensures
        a.signals@ == b.signals@.take(a.signals@.len() as int),
        a.equity@ == b.equity@.take(a.equity@.len() as int),
        a.bh_equity@ == b.bh_equity@.take(a.bh_equity@.len() as int),
{
    let n = x.bars@.len() as int;
    let k = x.days() - 1;
    assert(y.bars.len() <= usize::MAX);
    fast_signals::law_fast_days_look_back(y.bars@, n, *x.cfg, answer, squash);
    if x.cfg.enable_bubble_analysis {
        assert forall|j: int| 0 <= j <= k implies x.confidences@[j] == y.confidences@[j] by {
            assert(x.bars@.take(x.bar(j) + 1) =~= y.bars@.take(y.bar(j) + 1));
        }
    }
    law_walk_looks_back(x, y, k);
    assert forall|j: int| 0 <= j < a.signals@.len() implies a.signals@[j] == b.signals@[j] by {
        assert(x.signals()[j] == y.signals()[j]);
    }
    assert forall|j: int| 0 <= j < a.equity@.len() implies a.equity@[j] == b.equity@[j] by {
        assert(backtest::equity_curve(x.strategy_series())[j] == backtest::equity_curve(
            y.strategy_series(),
        )[j]);
    }
    assert forall|j: int| 0 <= j < a.bh_equity@.len() implies a.bh_equity@[j]
        == b.bh_equity@[j] by {
        assert(backtest::equity_curve(x.asset_measured())[j] == backtest::equity_curve(
            y.asset_measured(),
        )[j]);
    }
    assert(a.signals@ =~= b.signals@.take(a.signals@.len() as int));
    assert(a.equity@ =~= b.equity@.take(a.equity@.len() as int));
    assert(a.bh_equity@ =~= b.bh_equity@.take(a.bh_equity@.len() as int));
}

/// Law: a strategy that stays flat throughout neither trades nor loses nor earns: each of
/// its days returns 0.
pub proof fn law_flat_walk_earns_nothing(input: WalkInput, k: int)
    requires
        0 <= k < input.days(),
        input.bar(k) > 0,
        input.position(k) == (Real { bits: ZERO }),
        input.position(k - 1) == (Real { bits: ZERO }),
        crate::hlppl_signals::asset_return(input.bars@, input.bar(k)).finite(),
    ensures
        !input.trades(k),
        input.strategy_return(k).value() == 0,
        !input.strategy_return(k).nan(),
{
    let zero = Real { bits: ZERO };
    binary64::lemma_zero();
    order::lemma_signed(true, 0);
    assert(zero.negated() == Real::signed(true, 0));
    let difference = zero.minus(zero);
    assert(difference.value() == 0 && difference.field() == 0) by {
        order::lemma_signed(false, 0);
    }
    order::lemma_signed(false, 0);
    order::lemma_magnitude_order(0, crate::constants::MILLIONTH as nat);
    order::lemma_times_sign(
        zero,
        crate::hlppl_signals::asset_return(input.bars@, input.bar(k)),
    );
}

} // verus!
