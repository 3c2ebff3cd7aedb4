//! What the fast signal, a prediction and a live snapshot mean.

use crate::binary64;
use crate::binary64::{Real, ONE_BITS};
use crate::bubble_score;
use crate::confidence;
use crate::confidence::EnsembleAnalysis;
use crate::confidence_laws;
use crate::config::BacktestConfig;
use crate::constants::{HALF, HUNDREDTH, MINUS_HALF, MINUS_ONE, TRILLIONTH};
use crate::counting;
use crate::data::PriceBar;
use crate::dates::Date;
use crate::fast_signals;
use crate::fast_signals::{FastReply, FastSignals, FastTask};
use crate::hlppl_signals;
use crate::lppl::{LpplFit, LpplParams};
use crate::order;
use crate::prediction;
use crate::prediction::{FutureBubblePrediction, LiveNote, LiveSentimentSnapshot};
use crate::signal_laws;
use crate::walk_laws;
use vstd::arithmetic::div_mod::*;
use vstd::prelude::*;

verus! {

/// Law: a fit is asked for while there is no model, and else every `refit_every` days from
/// the first signal day on; it takes the last `lookback_days` bars up to the day. On all
/// other days the model is carried forward by the days since its fit, and the close is
/// taken as at least 0.01.
pub proof fn law_refits_come_at_intervals(
    signals: FastSignals,
    bars: Seq<PriceBar>,
    cfg: BacktestConfig,
    i: int,
)
    requires
        fast_signals::day_ok(cfg, bars.len(), i),
        i < usize::MAX,
    ensures
        signals.task_of(bars, cfg, i) is Refit <==> signals.model is None || exists|q: int|
            q >= 0 && i == cfg.lookback_days + #[trigger] (q * cfg.refit_every),
        signals.task_of(bars, cfg, i) matches FastTask::Refit(w) ==> {
            &&& w.end == i + 1
            &&& w.end - w.start == cfg.lookback_days
            &&& w.seed == cfg.random_seed
        },
        signals.task_of(bars, cfg, i) matches FastTask::Project { params, t, price } ==> {
            let m = signals.model->0;
            let close = bars[i].adj_close;
            let floor = Real { bits: HUNDREDTH };
            &&& params == m.params
            &&& t == m.t_end.plus(Real::of_integer(i - m.refit_i))
            &&& !close.nan() && close.value() >= floor.value() ==> price == close
            &&& close.nan() || close.value() < floor.value() ==> price == floor
        },
{
    let d = cfg.refit_every as int;
    let gap = i - cfg.lookback_days;
    lemma_fundamental_div_mod(gap, d);
    let q = gap / d;
    assert(q * d == d * q) by (nonlinear_arith);
    if gap % d == 0 {
        assert(q >= 0) by (nonlinear_arith)
            requires
                gap == d * q,
                gap >= 0,
                d > 0,
        ;
        assert(i == cfg.lookback_days + q * cfg.refit_every);
    }
    assert forall|k: int|
        k >= 0 && i == cfg.lookback_days + #[trigger] (k * cfg.refit_every) implies gap % d
        == 0 by {
        lemma_mod_multiples_basic(k, d);
    }
}

/// Law: a fit becomes the model of its day. It keeps the fit's parameters and last time, and
/// its running maximum is the largest magnitude of the fit's residuals, 10^-12 at least. The
/// day's normalized residual is the last one by the largest.
pub proof fn law_fits_become_the_model(
    signals: FastSignals,
    cfg: BacktestConfig,
    i: int,
    fit: LpplFit,
    top: int,
)
    requires
        0 <= i <= usize::MAX,
        fit.residuals@.len() > 0,
        fit.times@.len() > 0,
        bubble_score::all_finite(fit.residuals@),
        signal_laws::is_largest(fit.residuals@, 0, fit.residuals@.len() - 1, top),
    ensures
        ({
            let reply = FastReply::Fitted(Some(fit));
            let residuals = fit.residuals@;
            let largest = residuals[top].absolute();
            let floor = Real { bits: TRILLIONTH };
            &&& signals.after(cfg, i, reply).model matches Some(m) && {
                &&& m.params == fit.params && m.refit_i == i && m.t_end == fit.times@.last()
                &&& largest.value() >= floor.value() ==> m.running_max_abs == largest
                &&& largest.value() < floor.value() ==> m.running_max_abs == floor
            }
            &&& signals.epsilon(cfg, i, reply) matches Some(e) && {
                &&& largest.value() > floor.value() ==> e == residuals.last().over(largest)
                &&& largest.value() <= floor.value() ==> e.value() == 0
            }
        }),
{
    let residuals = fit.residuals@;
    let n = residuals.len() as int;
    binary64::lemma_zero();
    signal_laws::law_last_residual_by_the_largest(residuals, top);
    signal_laws::lemma_largest_is(residuals, 0, n - 1, top);
    order::lemma_signed(false, residuals[top].field());
}

/// Law: between fits the running maximum grows to the magnitude of the day's residual where
/// that is larger, and nothing else of the model changes; the normalized residual is the
/// day's residual by that maximum. A failed fit leaves the model as it is and gives no
/// residual.
pub proof fn law_projected_days_carry_the_model(
    signals: FastSignals,
    cfg: BacktestConfig,
    i: int,
    log_price: Real,
    predicted: Real,
)
    requires
        signals.model is Some,
        signals.model->0.running_max_abs.finite(),
        !signals.model->0.running_max_abs.negative(),
        log_price.minus(predicted).finite(),
    ensures
        ({
            let reply = FastReply::Projected { log_price, predicted };
            let before = signals.model->0;
            let after = signals.after(cfg, i, reply).model->0;
            let residual = log_price.minus(predicted);
            let largest = after.running_max_abs;
            let floor = Real { bits: TRILLIONTH };
            &&& signals.after(cfg, i, reply).model is Some
            &&& after.params == before.params && after.t_end == before.t_end && after.refit_i
                == before.refit_i
            &&& residual.magnitude() > before.running_max_abs.magnitude() ==> largest
                == residual.absolute()
            &&& residual.magnitude() <= before.running_max_abs.magnitude() ==> largest
                == before.running_max_abs
            &&& signals.epsilon(cfg, i, reply) matches Some(e) && {
                &&& largest.value() > floor.value() ==> e == residual.over(largest)
                &&& largest.value() <= floor.value() ==> e.value() == 0
            }
            &&& signals.after(cfg, i, FastReply::Fitted(None)) == signals
            &&& signals.epsilon(cfg, i, FastReply::Fitted(None)) is None
        }),
{
    let residual = log_price.minus(predicted);
    let before = signals.model->0.running_max_abs;
    let largest = before.larger(residual.absolute());
    binary64::lemma_zero();
    order::lemma_signed(false, residual.field());
    if (Real { bits: TRILLIONTH }).below(largest) {
        binary64::lemma_field_order(0, TRILLIONTH as nat);
        order::lemma_over_unit(residual, largest);
        order::lemma_one();
        vstd::arithmetic::power2::lemma_pow2_pos(1074);
        assert((Real { bits: MINUS_ONE }).field() == ONE_BITS);
        order::lemma_magnitude_order(residual.over(largest).field(), ONE_BITS as nat);
    }
}

/// Law: the fast signal of a day scores as that of a bar does: weighted hype and mood are
/// added to a normalized residual of 0 or more and taken off a negative one; a day without
/// a residual scores 0.
pub proof fn law_fast_score_of_a_day(
    bars: Seq<PriceBar>,
    cfg: BacktestConfig,
    i: int,
    epsilon: Option<Real>,
    hype: Real,
)
    requires
        0 < i < bars.len(),
        walk_laws::close_change(bars, i).finite(),
        epsilon matches Some(e) ==> !e.nan(),
    ensures
        ({
            let point = fast_signals::fast_point(bars, cfg, i, epsilon, hype);
            let h = cfg.alpha1_hype.times(hype);
            let m = cfg.alpha2_sentiment.times(point.sentiment);
            &&& signal_laws::is_mood(point.sentiment, walk_laws::close_change(bars, i))
            &&& point.hype_volume == hype
            &&& epsilon is None ==> point.eps_norm.value() == 0 && point.bubble_score.value()
                == 0
            &&& epsilon matches Some(e) ==> point.eps_norm == e && (e.value() >= 0
                ==> point.bubble_score == e.plus(h).plus(m)) && (e.value() < 0
                ==> point.bubble_score == e.minus(h).minus(m))
        }),
{
    binary64::lemma_zero();
    signal_laws::law_mood_of_a_return(walk_laws::close_change(bars, i));
    walk_laws::lemma_close_change(bars, i);
}

/// Law: the score of the last bar in fast mode rests on its last residual by the largest of
/// its window, on the hype that was given and on the mood of the last change; it is 0 where
/// the window could not be fitted.
pub proof fn law_live_fast_score(
    bars: Seq<PriceBar>,
    cfg: BacktestConfig,
    residuals: Option<Vec<Real>>,
    hype: Real,
    top: int,
)
    requires
        bars.len() > 1,
        walk_laws::close_change(bars, bars.len() - 1).finite(),
        residuals matches Some(r) ==> {
            &&& r@.len() > 0
            &&& bubble_score::all_finite(r@)
            &&& signal_laws::is_largest(r@, 0, r@.len() - 1, top)
            &&& r@[top].magnitude() > (Real { bits: TRILLIONTH }).magnitude()
        },
    ensures
        ({
            let score = prediction::fast_live_score(bars, cfg, residuals, hype);
            &&& residuals is None ==> score.value() == 0
            &&& residuals matches Some(r) ==> exists|mood: Real| #[trigger]
                signal_laws::is_mood(
                    mood,
                    walk_laws::close_change(bars, bars.len() - 1),
                ) && {
                    let e = r@.last().over(r@[top].absolute());
                    let h = cfg.alpha1_hype.times(hype);
                    let m = cfg.alpha2_sentiment.times(mood);
                    &&& e.value() >= 0 ==> score == e.plus(h).plus(m)
                    &&& e.value() < 0 ==> score == e.minus(h).minus(m)
                }
        }),
{
    binary64::lemma_zero();
    let i = bars.len() - 1;
    signal_laws::law_mood_of_a_return(walk_laws::close_change(bars, i));
    walk_laws::lemma_close_change(bars, i);
    if let Some(r) = residuals {
        signal_laws::law_last_residual_by_the_largest(r@, top);
        order::lemma_signed(false, r@[top].field());
        binary64::lemma_field_order(0, TRILLIONTH as nat);
        order::lemma_over_unit(r@.last(), r@[top].absolute());
        assert(signal_laws::is_mood(
            hlppl_signals::bar_mood(bars, i),
            walk_laws::close_change(bars, i),
        ));
    }
}

/// The days from one date to another, which a date's range keeps small.
pub open spec fn days_between(from: Date, to: Date) -> int {
    to.epoch_day - from.epoch_day
}

/// Law: a prediction is made at the last bar. Its probability is the number of critical
/// dates after that day and no more than the horizon away, divided by the number of all;
/// its median splits them in half, and is that many days away. Its risk is that of its
/// confidence.
pub proof fn law_prediction_weighs_the_dates(
    p: FutureBubblePrediction,
    ticker: Seq<char>,
    bars: Seq<PriceBar>,
    cfg: BacktestConfig,
    fits: Seq<Vec<Option<LpplParams>>>,
)
    requires
        0 < bars.len() <= usize::MAX,
        cfg.predict_horizon_days <= i64::MAX,
        prediction::sweep_at(cfg, bars.len() - 1).wf(),
        prediction::sweep_at(cfg, bars.len() - 1).fault(bars.len()) is None,
        0 < fits.len() <= 0x4000_0000_0000,
        prediction::predicts(p, ticker, bars, cfg, fits),
    ensures
        ({
            let dates = p.predicted_critical_dates@;
            let n = dates.len() as int;
            let near = counting::those(
                n,
                |k: int|
                    0 < days_between(bars.last().date, dates[k]) <= cfg.predict_horizon_days,
            );
            &&& p.ticker@ == ticker
            &&& p.analysis_date == bars.last().date
            &&& p.current_price == bars.last().adj_close
            &&& p.bubble_confidence_index == p.ensemble_mean_confidence
            &&& near.finite()
            &&& n == 0 ==> p.prob_tc_within_horizon.value() == 0
            &&& n > 0 ==> p.prob_tc_within_horizon == Real::of_integer(near.len() as int).over(
                Real::of_integer(n),
            )
            &&& n == 0 ==> p.median_predicted_date is None && p.median_days_to_tc is None
            &&& n > 0 ==> (p.median_predicted_date matches Some(m) && confidence_laws::halves(
                dates,
                m,
            ) && p.median_days_to_tc == Some(days_between(bars.last().date, m) as i64))
            &&& confidence_laws::levels_apart(p.bubble_confidence_index, p.risk_level@)
            &&& p.risk_description@ == confidence::description_of(p.risk_level@)
            &&& cfg.ensemble_seeds@.len() > 0 ==> p.ensemble_seeds_used@ == cfg.ensemble_seeds@
            &&& cfg.ensemble_seeds@.len() == 0 ==> p.ensemble_seeds_used@.len() == 1
                && p.ensemble_seeds_used@[0] == cfg.random_seed
        }),
{
    let sweep = prediction::sweep_at(cfg, bars.len() - 1);
    let e = choose|e: EnsembleAnalysis| #[trigger]
        confidence::is_ensemble(e, bars, sweep, cfg.filter(), fits) && prediction::is_prediction(
            p,
            ticker,
            cfg,
            e,
        );
    binary64::lemma_zero();
    lemma_ensemble_at(e, bars, cfg, fits);
    let dates = p.predicted_critical_dates@;
    let n = dates.len() as int;
    let horizon = cfg.predict_horizon_days as i64;
    lemma_near_counted(dates, bars.last().date, horizon, n);
    assert(dates.take(n) =~= dates);
    counting::lemma_those(
        n,
        |k: int| 0 < days_between(bars.last().date, dates[k]) <= cfg.predict_horizon_days,
    );
    counting::lemma_agree(
        n,
        |k: int| 0 < days_between(bars.last().date, dates[k]) <= horizon,
        |k: int| 0 < days_between(bars.last().date, dates[k]) <= cfg.predict_horizon_days,
    );
}

/// What an ensemble at the last bar says of its day, its median and its risk.
proof fn lemma_ensemble_at(
    e: EnsembleAnalysis,
    bars: Seq<PriceBar>,
    cfg: BacktestConfig,
    fits: Seq<Vec<Option<LpplParams>>>,
)
    requires
        0 < bars.len() <= usize::MAX,
        prediction::sweep_at(cfg, bars.len() - 1).wf(),
        prediction::sweep_at(cfg, bars.len() - 1).fault(bars.len()) is None,
        0 < fits.len() <= 0x4000_0000_0000,
        confidence::is_ensemble(
            e,
            bars,
            prediction::sweep_at(cfg, bars.len() - 1),
            cfg.filter(),
            fits,
        ),
    ensures
        e.combined.analysis_date == bars.last().date,
        e.combined.current_price == bars.last().adj_close,
        !e.mean_confidence.nan(),
        e.mean_confidence.finite(),
        confidence_laws::levels_apart(e.mean_confidence, e.combined.risk_level@),
        ({
            let all = e.combined.predicted_critical_dates@;
            &&& all.len() == 0 ==> e.combined.median_predicted_date is None
            &&& all.len() > 0 ==> (e.combined.median_predicted_date matches Some(m)
                && confidence_laws::halves(all, m))
        }),
{
    let sweep = prediction::sweep_at(cfg, bars.len() - 1);
    confidence::law_ensemble_is_coherent(e, bars, sweep, cfg.filter(), fits);
    confidence_laws::law_ensemble_risk_follows_the_confidence(e, bars, sweep, cfg.filter(), fits);
    confidence_laws::law_ensemble_median_halves_the_dates(e, bars, sweep, cfg.filter(), fits);
    assert(confidence::is_analysis(e.per_seed@[0], bars, sweep, cfg.filter(), fits[0]@));
    confidence::lemma_hundred();
    if e.mean_confidence.infinite() {
        binary64::lemma_field_order(
            crate::constants::HUNDRED as nat,
            crate::rounding::INFINITY_FIELD as nat,
        );
        binary64::lemma_field_order(0, crate::rounding::INFINITY_FIELD as nat);
        binary64::lemma_zero();
    }
}

proof fn lemma_near_counted(dates: Seq<Date>, from: Date, horizon: i64, n: int)
    requires
        0 <= n <= dates.len(),
    ensures
        prediction::near_dates(dates.take(n), from, horizon) == counting::those(
            n,
            |k: int| 0 < days_between(from, dates[k]) <= horizon,
        ).len(),
    decreases n,
{
    reveal(Seq::filter);
    counting::lemma_those(n, |k: int| 0 < days_between(from, dates[k]) <= horizon);
    if n > 0 {
        lemma_near_counted(dates, from, horizon, n - 1);
        assert(dates.take(n).drop_last() =~= dates.take(n - 1));
    } else {
        assert(dates.take(0) =~= Seq::<Date>::empty());
    }
}

/// Law: a snapshot is taken at the last bar. Its position is what its score and its
/// confidence ask for; above half a position it recommends to buy, below minus half a
/// position to sell, and else to hold. It remarks on a confidence above the configured
/// threshold, and on one above 45 per cent that is not. Its median is that of the critical
/// dates, and its risk that of its confidence.
pub proof fn law_snapshot_advises_by_its_position(
    s: LiveSentimentSnapshot,
    ticker: Seq<char>,
    bars: Seq<PriceBar>,
    cfg: BacktestConfig,
    score: Real,
    fits: Seq<Vec<Option<LpplParams>>>,
)
    requires
        0 < bars.len() <= usize::MAX,
        !cfg.max_position.nan(),
        prediction::sweep_at(cfg, bars.len() - 1).wf(),
        prediction::sweep_at(cfg, bars.len() - 1).fault(bars.len()) is None,
        0 < fits.len() <= 0x4000_0000_0000,
        prediction::snapshots(s, ticker, bars, cfg, score, fits),
    ensures
        ({
            let one = binary64::one_in_units() as int;
            let c = s.bubble_confidence;
            let high = !cfg.confidence_flat_threshold.nan() && c.value()
                > cfg.confidence_flat_threshold.value();
            let long = !s.position.nan() && 2 * s.position.value() > one;
            let short = !s.position.nan() && 2 * s.position.value() < -one;
            &&& s.ticker@ == ticker
            &&& s.date == bars.last().date
            &&& s.current_price == bars.last().adj_close
            &&& s.bubble_score == score
            &&& walk_laws::is_target(s.position, score, Some(c), cfg)
            &&& long ==> s.recommendation@ == "BUY / GO LONG (positive bubble score / momentum)"@
            &&& short ==> s.recommendation@
                == "SELL / GO SHORT (negative score / overextension or momentum down)"@
            &&& !long && !short ==> s.recommendation@ == "HOLD / FLAT"@
            &&& high ==> s.actionable_note == LiveNote::HighConfidence(c)
            &&& !high && c.value() > 45 * one ==> s.actionable_note == LiveNote::Elevated(c)
            &&& !high && c.value() <= 45 * one ==> s.actionable_note == LiveNote::Normal
            &&& confidence_laws::levels_apart(c, s.risk_level@)
            &&& s.median_predicted_peak matches Some(m) ==> s.median_days_to_tc == Some(
                days_between(bars.last().date, m) as i64,
            )
            &&& s.median_predicted_peak is None ==> s.median_days_to_tc is None
        }),
{
    let sweep = prediction::sweep_at(cfg, bars.len() - 1);
    let e = choose|e: EnsembleAnalysis| #[trigger]
        confidence::is_ensemble(e, bars, sweep, cfg.filter(), fits) && prediction::is_snapshot(
            s,
            ticker,
            cfg,
            score,
            e,
        );
    lemma_ensemble_at(e, bars, cfg, fits);
    walk_laws::law_position_is_the_target(score, Some(e.mean_confidence), cfg);
    crate::lppl::lemma_half_and_thirty();
    confidence_laws::lemma_risk_bounds();
    order::lemma_signed(true, HALF as nat);
    assert((Real { bits: MINUS_HALF }) == Real::signed(true, HALF as nat));
}

} // verus!
