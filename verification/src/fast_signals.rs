//! The fast signal: a fit is refreshed from time to time and carried forward in between.
//!
//! On each signal day [`FastSignals::task`] says what has to be computed, and
//! [`FastSignals::step`] takes the outcome and gives the signal of the day.

use crate::binary64::{Real, ONE_BITS};
use crate::bubble_score;
use crate::bubble_score::{
    compute_bubble_score, largest_magnitude, normalize_last_residual_running_style,
    normalize_share,
};
use crate::config::BacktestConfig;
use crate::constants::{HUNDREDTH, MINUS_ONE, TRILLIONTH, ZERO};
use crate::data::PriceBar;
use crate::hlppl_signals;
use crate::hlppl_signals::{sentiment_at, FitRequest, SignalPoint, HYPE_WINDOW};
use crate::lppl::{LpplFit, LpplParams};
use crate::order;
use vstd::prelude::*;

verus! {

/// A fitted curve that is carried forward.
#[derive(Clone, Copy, Debug, PartialEq, Eq, Structural)]
pub struct LiveModel {
    pub params: LpplParams,
    /// Largest residual magnitude since the start of the fit window.
    pub running_max_abs: Real,
    /// Last time of the fit window.
    pub t_end: Real,
    /// Bar of the refit.
    pub refit_i: usize,
}

/// What has to be computed for a day.
#[derive(Clone, Copy, Debug, PartialEq, Eq, Structural)]
pub enum FastTask {
    /// Fit this window.
    Refit(FitRequest),
    /// The log-price of a model at time `t`, and the logarithm of `price`.
    Project { params: LpplParams, t: Real, price: Real },
}

/// The outcome of a task.
#[derive(Clone, Debug)]
pub enum FastReply {
    /// The fit, if the window could be fitted.
    Fitted(Option<LpplFit>),
    Projected { log_price: Real, predicted: Real },
}

/// The fast signal between two days.
#[derive(Clone, Copy, Debug, PartialEq, Eq, Structural)]
pub struct FastSignals {
    pub model: Option<LiveModel>,
}

/// A window of `lookback_days` bars ends with bar `i`, and refits come at intervals.
pub open spec fn day_ok(cfg: BacktestConfig, n: nat, i: int) -> bool {
    cfg.refit_every > 0 && cfg.lookback_days <= i < n
}

impl FastSignals {
    /// Refits are due every `refit_every` bars from the first signal day on, and as long
    /// as no fit has succeeded.
    pub open spec fn refit_due(self, cfg: BacktestConfig, i: int) -> bool {
        (i - cfg.lookback_days) % cfg.refit_every as int == 0 || self.model is None
    }

    /// The carried model is not younger than the day.
    pub open spec fn wf(self, i: int) -> bool {
        self.model matches Some(m) ==> m.refit_i <= i
    }

    /// What has to be computed for bar `i`.
    pub open spec fn task_of(self, bars: Seq<PriceBar>, cfg: BacktestConfig, i: int) -> FastTask {
        if self.refit_due(cfg, i) {
            FastTask::Refit(
                FitRequest {
                    start: (i + 1 - cfg.lookback_days) as usize,
                    end: (i + 1) as usize,
                    seed: cfg.random_seed,
                },
            )
        } else {
            let m = self.model->0;
            FastTask::Project {
                params: m.params,
                t: m.t_end.plus(Real::of_integer(i - m.refit_i)),
                price: bars[i].adj_close.larger(Real { bits: HUNDREDTH }),
            }
        }
    }

    /// The reply has the kind that the day's task asks for.
    pub open spec fn fits_task(self, cfg: BacktestConfig, i: int, reply: FastReply) -> bool {
        reply is Fitted <==> self.refit_due(cfg, i)
    }

    /// The signal after bar `i`.
    pub open spec fn after(self, cfg: BacktestConfig, i: int, reply: FastReply) -> FastSignals {
        match reply {
            FastReply::Fitted(Some(fit)) => FastSignals {
                model: Some(fitted_model(cfg, i, fit)),
            },
            FastReply::Fitted(None) => self,
            FastReply::Projected { log_price, predicted } => {
                let m = self.model->0;
                FastSignals {
                    model: Some(
                        LiveModel {
                            running_max_abs: m.running_max_abs.larger(
                                log_price.minus(predicted).absolute(),
                            ),
                            ..m
                        },
                    ),
                }
            },
        }
    }

    /// The normalized residual of bar `i`; none on a day whose refit failed.
    pub open spec fn epsilon(self, cfg: BacktestConfig, i: int, reply: FastReply) -> Option<
        Real,
    > {
        match reply {
            FastReply::Fitted(Some(fit)) => Some(bubble_score::last_share(fit.residuals@)),
            FastReply::Fitted(None) => None,
            FastReply::Projected { log_price, predicted } => Some(
                bubble_score::share_of_largest(
                    log_price.minus(predicted),
                    self.after(cfg, i, reply).model->0.running_max_abs,
                ),
            ),
        }
    }

    /// No fit yet.
    pub fn new() -> (r: FastSignals)
        ensures
            r.model is None,
            forall|i: int| r.wf(i),
    {
        FastSignals { model: None }
    }

    /// What has to be computed for bar `i`.
    pub fn task(&self, bars: &Vec<PriceBar>, cfg: &BacktestConfig, i: usize) -> (r: FastTask)
        requires
            day_ok(*cfg, bars@.len(), i as int),
            self.wf(i as int),
        ensures
            r == self.task_of(bars@, *cfg, i as int),
    {
        let n: usize = bars.len();
        assert(i + 1 <= n);
        let due = (i - cfg.lookback_days) % cfg.refit_every == 0;
        match self.model {
            Some(m) if !due => {
                let price = bars[i].adj_close.max(Real { bits: HUNDREDTH });
                FastTask::Project {
                    params: m.params,
                    t: m.t_end.add(Real::from_usize(i - m.refit_i)),
                    price,
                }
            },
            _ => FastTask::Refit(
                FitRequest {
                    start: i + 1 - cfg.lookback_days,
                    end: i + 1,
                    seed: cfg.random_seed,
                },
            ),
        }
    }

    /// Takes the outcome of the task of bar `i`, and the hype of that bar, and gives its
    /// signal.
    pub fn step(
        &mut self,
        bars: &Vec<PriceBar>,
        cfg: &BacktestConfig,
        i: usize,
        reply: &FastReply,
        hype_volume: Real,
    ) -> (r: SignalPoint)
        requires
            day_ok(*cfg, bars@.len(), i as int),
            old(self).wf(i as int),
            old(self).fits_task(*cfg, i as int, *reply),
        ensures
            *final(self) == old(self).after(*cfg, i as int, *reply),
            final(self).wf(i + 1),
            r == fast_point(
                bars@,
                *cfg,
                i as int,
                old(self).epsilon(*cfg, i as int, *reply),
                hype_volume,
            ),
    {
        let sentiment = sentiment_at(bars, i, HYPE_WINDOW);
        let eps: Option<Real> = match reply {
            FastReply::Fitted(Some(fit)) => {
                let floor = Real { bits: TRILLIONTH };
                let t_end = if fit.times.len() > 0 {
                    fit.times[fit.times.len() - 1]
                } else {
                    Real::from_usize(cfg.lookback_days)
                };
                self.model = Some(
                    LiveModel {
                        params: fit.params,
                        running_max_abs: largest_magnitude(&fit.residuals).max(floor),
                        t_end,
                        refit_i: i,
                    },
                );
                Some(normalize_last_residual_running_style(&fit.residuals))
            },
            FastReply::Fitted(None) => None,
            FastReply::Projected { log_price, predicted } => match self.model {
                Some(m) => {
                    let residual = log_price.sub(*predicted);
                    let largest = m.running_max_abs.max(residual.abs());
                    self.model = Some(
                        LiveModel {
                            params: m.params,
                            running_max_abs: largest,
                            t_end: m.t_end,
                            refit_i: m.refit_i,
                        },
                    );
                    Some(normalize_share(residual, largest))
                },
                None => None,
            },
        };
        match eps {
            Some(eps_norm) => SignalPoint {
                bubble_score: compute_bubble_score(
                    eps_norm,
                    hype_volume,
                    sentiment,
                    cfg.alpha1_hype,
                    cfg.alpha2_sentiment,
                ),
                eps_norm,
                hype_volume,
                sentiment,
            },
            None => SignalPoint {
                bubble_score: Real { bits: ZERO },
                eps_norm: Real { bits: ZERO },
                hype_volume,
                sentiment,
            },
        }
    }
}

/// The model that a fit at bar `i` leaves behind.
pub open spec fn fitted_model(cfg: BacktestConfig, i: int, fit: LpplFit) -> LiveModel {
    LiveModel {
        params: fit.params,
        running_max_abs: bubble_score::largest_residual(
            fit.residuals@,
            0,
            fit.residuals@.len() as int,
        ).larger(Real { bits: TRILLIONTH }),
        t_end: if fit.times@.len() > 0 {
            fit.times@.last()
        } else {
            Real::of_integer(cfg.lookback_days as int)
        },
        refit_i: i as usize,
    }
}

/// The signal of bar `i`: without a residual, a score of 0.
pub open spec fn fast_point(
    bars: Seq<PriceBar>,
    cfg: BacktestConfig,
    i: int,
    epsilon: Option<Real>,
    hype_volume: Real,
) -> SignalPoint {
    let sentiment = hlppl_signals::bar_mood(bars, i);
    match epsilon {
        Some(eps_norm) => SignalPoint {
            bubble_score: bubble_score::score(
                eps_norm,
                hype_volume,
                sentiment,
                cfg.alpha1_hype,
                cfg.alpha2_sentiment,
            ),
            eps_norm,
            hype_volume,
            sentiment,
        },
        None => SignalPoint {
            bubble_score: Real { bits: ZERO },
            eps_norm: Real { bits: ZERO },
            hype_volume,
            sentiment,
        },
    }
}

/// Law: once a fit has succeeded there is always a model, and without one every day asks
/// for a refit.
pub proof fn law_model_stays(
    signals: FastSignals,
    cfg: BacktestConfig,
    i: int,
    reply: FastReply,
)
    requires
        signals.fits_task(cfg, i, reply),
    ensures
        signals.model is Some ==> signals.after(cfg, i, reply).model is Some,
        signals.model is None ==> signals.refit_due(cfg, i),
        reply matches FastReply::Fitted(Some(_)) ==> signals.after(cfg, i, reply).model is Some,
{
}

/// Law: the fast signal never looks ahead. What it asks for on a day, the hype it is handed
/// and what it makes of an answer rest on the bars up to that day, and a window to fit ends
/// with that day.
pub proof fn law_fast_signal_looks_back(
    signals: FastSignals,
    a: Seq<PriceBar>,
    b: Seq<PriceBar>,
    cfg: BacktestConfig,
    i: int,
    epsilon: Option<Real>,
    hype_volume: Real,
)
    requires
        day_ok(cfg, a.len(), i),
        day_ok(cfg, b.len(), i),
        i < usize::MAX,
        forall|j: int| 0 <= j <= i ==> a[j] == b[j],
    ensures
        signals.task_of(a, cfg, i) == signals.task_of(b, cfg, i),
        signals.task_of(a, cfg, i) matches FastTask::Refit(w) ==> w.end == i + 1,
        hlppl_signals::hype_argument_at(a, i, HYPE_WINDOW as int)
            == hlppl_signals::hype_argument_at(b, i, HYPE_WINDOW as int),
        fast_point(a, cfg, i, epsilon, hype_volume) == fast_point(
            b,
            cfg,
            i,
            epsilon,
            hype_volume,
        ),
{
    let start = crate::hype::window_start(i, HYPE_WINDOW as int);
    assert(hlppl_signals::volumes_between(a, start, i + 1) =~= hlppl_signals::volumes_between(
        b,
        start,
        i + 1,
    ));
}

/// The fast signal before signal day `k`, where `answer` gives the outcome of a task from
/// the bars up to the day that asks for it.
pub open spec fn fast_state(
    bars: Seq<PriceBar>,
    cfg: BacktestConfig,
    answer: spec_fn(FastTask, Seq<PriceBar>) -> FastReply,
    k: int,
) -> FastSignals
    decreases k,
{
    if k <= 0 {
        FastSignals { model: None }
    } else {
        let before = fast_state(bars, cfg, answer, k - 1);
        let i = cfg.lookback_days + k - 1;
        before.after(cfg, i, answer(before.task_of(bars, cfg, i), bars.take(i + 1)))
    }
}

/// The signal of signal day `k`, where `squash` makes a hype of its argument.
pub open spec fn fast_day(
    bars: Seq<PriceBar>,
    cfg: BacktestConfig,
    answer: spec_fn(FastTask, Seq<PriceBar>) -> FastReply,
    squash: spec_fn(Real) -> Real,
    k: int,
) -> SignalPoint {
    let state = fast_state(bars, cfg, answer, k);
    let i = cfg.lookback_days + k;
    fast_point(
        bars,
        cfg,
        i,
        state.epsilon(cfg, i, answer(state.task_of(bars, cfg, i), bars.take(i + 1))),
        squash(hlppl_signals::hype_argument_at(bars, i, HYPE_WINDOW as int)),
    )
}

/// The signals of all signal days.
pub open spec fn fast_days(
    bars: Seq<PriceBar>,
    cfg: BacktestConfig,
    answer: spec_fn(FastTask, Seq<PriceBar>) -> FastReply,
    squash: spec_fn(Real) -> Real,
) -> Seq<SignalPoint> {
    Seq::new(
        (bars.len() - cfg.lookback_days) as nat,
        |k: int| fast_day(bars, cfg, answer, squash, k),
    )
}

proof fn lemma_state_looks_back(
    a: Seq<PriceBar>,
    b: Seq<PriceBar>,
    cfg: BacktestConfig,
    answer: spec_fn(FastTask, Seq<PriceBar>) -> FastReply,
    k: int,
)
    requires
        cfg.refit_every > 0,
        0 <= k,
        cfg.lookback_days + k <= a.len(),
        cfg.lookback_days + k <= b.len(),
        a.len() <= usize::MAX,
        forall|j: int| 0 <= j < cfg.lookback_days + k ==> a[j] == b[j],
    ensures
        fast_state(a, cfg, answer, k) == fast_state(b, cfg, answer, k),
    decreases k,
{
    if k > 0 {
        lemma_state_looks_back(a, b, cfg, answer, k - 1);
        let i = cfg.lookback_days + k - 1;
        let before = fast_state(a, cfg, answer, k - 1);
        let zero = Real { bits: ZERO };
        law_fast_signal_looks_back(before, a, b, cfg, i, None, zero);
        assert(a.take(i + 1) =~= b.take(i + 1));
    }
}

/// Law: over a whole run the fast signals never look ahead: those of the first bars are the
/// first of those of all bars.
pub proof fn law_fast_days_look_back(
    bars: Seq<PriceBar>,
    n: int,
    cfg: BacktestConfig,
    answer: spec_fn(FastTask, Seq<PriceBar>) -> FastReply,
    squash: spec_fn(Real) -> Real,
)
    requires
        cfg.refit_every > 0,
        cfg.lookback_days <= n <= bars.len() <= usize::MAX,
    ensures
        fast_days(bars.take(n), cfg, answer, squash) == fast_days(bars, cfg, answer, squash).take(
            n - cfg.lookback_days,
        ),
{
    let first = bars.take(n);
    let days = n - cfg.lookback_days;
    let all = fast_days(bars, cfg, answer, squash);
    assert forall|k: int| 0 <= k < days implies #[trigger] fast_days(
        first,
        cfg,
        answer,
        squash,
    )[k] == all[k] by {
        let i = cfg.lookback_days + k;
        lemma_state_looks_back(first, bars, cfg, answer, k);
        let state = fast_state(bars, cfg, answer, k);
        let reply = answer(state.task_of(bars, cfg, i), bars.take(i + 1));
        assert(first.take(i + 1) =~= bars.take(i + 1));
        law_fast_signal_looks_back(
            state,
            first,
            bars,
            cfg,
            i,
            state.epsilon(cfg, i, reply),
            squash(hlppl_signals::hype_argument_at(bars, i, HYPE_WINDOW as int)),
        );
    }
    assert(fast_days(first, cfg, answer, squash) =~= all.take(days));
}

/// Law: a carried-forward residual that is a number is normalized to between -1 and 1, and
/// the running maximum stays a number that does not shrink.
pub proof fn law_projected_epsilon_bounded(
    signals: FastSignals,
    cfg: BacktestConfig,
    i: int,
    log_price: Real,
    predicted: Real,
)
    requires
        signals.model is Some,
        signals.model->0.running_max_abs.finite(),
        !signals.model->0.running_max_abs.negative(),
        log_price.minus(predicted).finite(),
    ensures
        ({
            let reply = FastReply::Projected { log_price, predicted };
            let eps = signals.epsilon(cfg, i, reply)->0;
            let largest = signals.after(cfg, i, reply).model->0.running_max_abs;
            &&& (Real { bits: MINUS_ONE }).at_most(eps)
            &&& eps.at_most(Real { bits: ONE_BITS })
            &&& largest.finite()
            &&& !largest.negative()
            &&& signals.model->0.running_max_abs.at_most(largest)
        }),
{
    let residual = log_price.minus(predicted);
    let before = signals.model->0.running_max_abs;
    order::lemma_signed(false, residual.field());
    let largest = before.larger(residual.absolute());
    order::lemma_one();
    crate::binary64::lemma_zero();
    vstd::arithmetic::power2::lemma_pow2_pos(1074);
    assert((Real { bits: MINUS_ONE }).field() == ONE_BITS);
    if (Real { bits: TRILLIONTH }).below(largest) {
        crate::binary64::lemma_field_order(0, TRILLIONTH as nat);
        assert(largest.field() != 0);
        order::lemma_over_unit(residual, largest);
    }
}

} // verus!
