//! The log-periodic power law: parameters, admissible fits, and the search for the best one.
//!
//! The linear part of the model is solved by the caller, at points that the search names.
//! [`Polish`] walks downhill from one such point, and [`assemble_fit`] turns the winner
//! into residuals. The search as a whole stands in [`crate::search`].

use crate::binary64;
use crate::binary64::{Real, ONE_BITS};
use crate::constants::{
    HALF, HUNDREDTH, HUNDRED_MILLIONTH, MILLIONTH, MINUS_HUNDREDTH, MINUS_ONE,
    MINUS_THREE_TENTHS, MINUS_TWO, MINUS_TWO_HUNDREDTHS, NINE_TENTHS, POSITIVE_INFINITY,
    TENTH, THIRTY, THREE_TENTHS, TRILLIONTH, TWENTY, TWO, TWO_HUNDREDTHS, ZERO,
};
use crate::data::PriceBar;
use crate::order;
use vstd::prelude::*;

verus! {

/// The seven parameters of ln p = a + b tau^m + c tau^m cos(omega ln tau + phi), where
/// tau is the time left to `tc`.
#[derive(Clone, Copy, Debug, PartialEq, Eq, Structural)]
pub struct LpplParams {
    /// Critical time, in the units of the time axis.
    pub tc: Real,
    /// Power law exponent.
    pub m: Real,
    /// Angular frequency of the oscillation in ln tau.
    pub omega: Real,
    pub a: Real,
    /// Power law amplitude, negative for an accelerating price.
    pub b: Real,
    /// Amplitude of the oscillation.
    pub c: Real,
    /// Phase of the oscillation.
    pub phi: Real,
}

/// Bounds and effort of the parameter search.
#[derive(Clone, Copy, Debug, PartialEq, Eq, Structural)]
pub struct LpplFitConfig {
    pub m_min: Real,
    pub m_max: Real,
    pub omega_min: Real,
    pub omega_max: Real,
    pub b_min: Real,
    pub b_max: Real,
    /// Least distance of the critical time from the last observation.
    pub tc_future_min: usize,
    /// Largest distance of the critical time from the last observation.
    pub tc_future_max: usize,
    pub num_random_starts: usize,
    pub num_polish_steps: usize,
    pub require_b_negative: bool,
    pub require_damping: bool,
}

impl LpplFitConfig {
    /// The search settings of the published model.
    pub open spec fn standard() -> LpplFitConfig {
        LpplFitConfig {
            m_min: Real { bits: TENTH },
            m_max: Real { bits: NINE_TENTHS },
            omega_min: Real { bits: TWO },
            omega_max: Real { bits: TWENTY },
            b_min: Real { bits: MINUS_ONE },
            b_max: Real { bits: MINUS_HUNDREDTH },
            tc_future_min: 5,
            tc_future_max: 250,
            num_random_starts: 1200,
            num_polish_steps: 32,
            require_b_negative: true,
            require_damping: true,
        }
    }

    /// Each search interval runs upwards.
    pub open spec fn ordered(self) -> bool {
        &&& self.m_min.at_most(self.m_max)
        &&& self.omega_min.at_most(self.omega_max)
    }
}

impl Default for LpplFitConfig {
    fn default() -> (r: Self)
        ensures
            r == LpplFitConfig::standard(),
    {
        LpplFitConfig {
            m_min: Real { bits: TENTH },
            m_max: Real { bits: NINE_TENTHS },
            omega_min: Real { bits: TWO },
            omega_max: Real { bits: TWENTY },
            b_min: Real { bits: MINUS_ONE },
            b_max: Real { bits: MINUS_HUNDREDTH },
            tc_future_min: 5,
            tc_future_max: 250,
            num_random_starts: 1200,
            num_polish_steps: 32,
            require_b_negative: true,
            require_damping: true,
        }
    }
}

impl LpplParams {
    /// The amplitude up to which an oscillation counts as damped.
    pub open spec fn damping_limit(self) -> Real {
        self.b.absolute().times(
            (Real { bits: ONE_BITS }).plus(self.m.times(self.m)).root(),
        ).plus(Real { bits: MILLIONTH })
    }

    /// Positive critical time, 0 < m < 1, 0.5 < omega < 30, and a damped oscillation.
    pub open spec fn structurally_valid(self) -> bool {
        &&& (Real { bits: ZERO }).below(self.tc)
        &&& (Real { bits: ZERO }).below(self.m)
        &&& self.m.below(Real { bits: ONE_BITS })
        &&& (Real { bits: HALF }).below(self.omega)
        &&& self.omega.below(Real { bits: THIRTY })
        &&& self.c.absolute().below(self.damping_limit())
    }

    pub fn is_valid(&self) -> (r: bool)
        ensures
            r == self.structurally_valid(),
    {
        let zero = Real { bits: ZERO };
        let one = Real { bits: ONE_BITS };
        let half = Real { bits: HALF };
        let limit = self.b.abs().mul(one.add(self.m.mul(self.m)).sqrt()).add(
            Real { bits: MILLIONTH },
        );
        zero.lt(self.tc) && zero.lt(self.m) && self.m.lt(one) && half.lt(self.omega)
            && self.omega.lt(Real { bits: THIRTY }) && self.c.abs().lt(limit)
    }

    /// No bound of the search is broken. An undefined parameter breaks no bound by itself,
    /// only the damping condition.
    pub open spec fn admissible(self, cfg: LpplFitConfig) -> bool {
        &&& !self.m.below(cfg.m_min) && !cfg.m_max.below(self.m)
        &&& !self.omega.below(cfg.omega_min) && !cfg.omega_max.below(self.omega)
        &&& cfg.require_b_negative ==> !(Real { bits: ZERO }).at_most(self.b)
        &&& !self.b.below(cfg.b_min) && !cfg.b_max.below(self.b)
        &&& cfg.require_damping ==> self.structurally_valid()
    }

    pub fn passes_fit_filters(&self, cfg: &LpplFitConfig) -> (r: bool)
        ensures
            r == self.admissible(*cfg),
    {
        let zero = Real { bits: ZERO };
        if self.m.lt(cfg.m_min) || cfg.m_max.lt(self.m) {
            return false;
        }
        if self.omega.lt(cfg.omega_min) || cfg.omega_max.lt(self.omega) {
            return false;
        }
        if cfg.require_b_negative && zero.le(self.b) {
            return false;
        }
        if self.b.lt(cfg.b_min) || cfg.b_max.lt(self.b) {
            return false;
        }
        if cfg.require_damping && !self.is_valid() {
            return false;
        }
        true
    }

    /// Time left to the critical time, kept positive.
    pub open spec fn time_left(self, t: Real) -> Real {
        self.tc.minus(t).larger(Real { bits: HUNDRED_MILLIONTH })
    }

    /// Time left to the critical time, kept positive.
    pub fn tau(&self, t: Real) -> (r: Real)
        ensures
            r == self.time_left(t),
    {
        self.tc.sub(t).max(Real { bits: HUNDRED_MILLIONTH })
    }

    /// The angle of the oscillation where the logarithm of the time left is `ln_tau`.
    pub fn angle(&self, ln_tau: Real) -> (r: Real)
        ensures
            r == self.omega.times(ln_tau).plus(self.phi),
    {
        self.omega.mul(ln_tau).add(self.phi)
    }

    /// The model's log-price from tau^m and the cosine of the angle.
    pub open spec fn log_price(self, tau_power: Real, cosine: Real) -> Real {
        self.a.plus(self.b.times(tau_power)).plus(self.c.times(tau_power).times(cosine))
    }

    /// The model's log-price from tau^m and the cosine of the angle.
    pub fn predict_log_price(&self, tau_power: Real, cosine: Real) -> (r: Real)
        ensures
            r == self.log_price(tau_power, cosine),
    {
        self.a.add(self.b.mul(tau_power)).add(self.c.mul(tau_power).mul(cosine))
    }
}

impl LpplParams {
    /// The model's log-price at time `t`, where `power`, `logarithm` and `cosine` are those
    /// functions.
    pub open spec fn curve(
        self,
        t: Real,
        power: spec_fn(Real, Real) -> Real,
        logarithm: spec_fn(Real) -> Real,
        cosine: spec_fn(Real) -> Real,
    ) -> Real {
        let tau = self.time_left(t);
        self.log_price(
            power(tau, self.m),
            cosine(self.omega.times(logarithm(tau)).plus(self.phi)),
        )
    }
}

/// Law: at and after the critical time the curve is constant. It is defined there, and
/// finite where the magnitudes of the linear parameters have a sum, as a number below 1 to
/// a positive power is at most 1, and so is a cosine.
pub proof fn law_curve_ends_flat(
    p: LpplParams,
    t1: Real,
    t2: Real,
    power: spec_fn(Real, Real) -> Real,
    logarithm: spec_fn(Real) -> Real,
    cosine: spec_fn(Real) -> Real,
)
    requires
        p.tc.finite(),
        t1.finite(),
        t2.finite(),
        p.tc.at_most(t1),
        p.tc.at_most(t2),
        p.a.finite(),
        p.b.finite(),
        p.c.finite(),
        power(Real { bits: HUNDRED_MILLIONTH }, p.m).field() <= ONE_BITS,
        cosine(
            p.omega.times(logarithm(Real { bits: HUNDRED_MILLIONTH })).plus(p.phi),
        ).field() <= ONE_BITS,
    ensures
        p.time_left(t1) == (Real { bits: HUNDRED_MILLIONTH }),
        p.curve(t1, power, logarithm, cosine) == p.curve(t2, power, logarithm, cosine),
        !p.curve(t1, power, logarithm, cosine).nan(),
        p.a.absolute().plus(p.b.absolute()).plus(p.c.absolute()).finite() ==> p.curve(
            t1,
            power,
            logarithm,
            cosine,
        ).finite(),
{
    lemma_time_left_after(p, t1);
    lemma_time_left_after(p, t2);
    let floor = Real { bits: HUNDRED_MILLIONTH };
    let u = power(floor, p.m);
    let v = cosine(p.omega.times(logarithm(floor)).plus(p.phi));
    order::lemma_times_shrinks(p.b, u);
    order::lemma_times_shrinks(p.c, u);
    order::lemma_times_shrinks(p.c.times(u), v);
    let x = p.b.times(u);
    let y = p.c.times(u).times(v);
    order::lemma_plus_value(p.a, x);
    order::lemma_plus_direction(p.a.plus(x), y);
    let (a, b, c) = (p.a.absolute(), p.b.absolute(), p.c.absolute());
    order::lemma_signed(false, p.a.field());
    order::lemma_signed(false, p.b.field());
    order::lemma_signed(false, p.c.field());
    order::lemma_magnitude_order(x.field(), b.field());
    order::lemma_magnitude_order(p.c.times(u).field(), c.field());
    order::lemma_magnitude_order(y.field(), c.field());
    order::lemma_sum_magnitude(p.a, x, a, b);
    if a.plus(b).finite() {
        order::lemma_sum_magnitude(p.a.plus(x), y, a.plus(b), c);
    }
}

/// The patterns of 1/2 and 30.
pub proof fn lemma_half_and_thirty()
    ensures
        2 * (Real { bits: HALF }).value() == binary64::one_in_units(),
        (Real { bits: THIRTY }).value() == 30 * binary64::one_in_units(),
{
    crate::rounding::lemma_pow2_constants();
    vstd::arithmetic::power2::lemma2_to64();
    vstd::arithmetic::power2::lemma2_to64_rest();
    let half = HALF as nat;
    let thirty = THIRTY as nat;
    assert(binary64::field_scale(half) == 1021);
    assert(binary64::field_significand(half) == 0x10_0000_0000_0000);
    assert(binary64::field_scale(thirty) == 1026);
    assert(binary64::field_significand(thirty) == 15 * 0x2_0000_0000_0000);
    vstd::arithmetic::power2::lemma_pow2_adds(52, 1021);
    vstd::arithmetic::power2::lemma_pow2_adds(1, 1073);
    vstd::arithmetic::power2::lemma_pow2_adds(49, 1026);
    vstd::arithmetic::power2::lemma_pow2_adds(1, 1074);
    let low = vstd::arithmetic::power2::pow2(49);
    let high = vstd::arithmetic::power2::pow2(1026);
    assert((15 * low) * high == 15 * (low * high)) by (nonlinear_arith);
}

proof fn lemma_time_left_after(p: LpplParams, t: Real)
    requires
        p.tc.finite(),
        t.finite(),
        p.tc.at_most(t),
    ensures
        p.time_left(t) == (Real { bits: HUNDRED_MILLIONTH }),
{
    order::lemma_signed(!t.negative(), t.field());
    order::lemma_plus_value(p.tc, t.negated());
    binary64::lemma_zero();
    order::lemma_rounded_value(Real { bits: ZERO });
    order::lemma_rounded_order(p.tc.value() + t.negated().value(), 0);
    binary64::lemma_field_order(0, HUNDRED_MILLIONTH as nat);
}

/// Why a window has no fit.
#[derive(Clone, Copy, Debug, PartialEq, Eq, Structural)]
pub enum FitError {
    TooFewPoints,
    WindowTooSmall,
    NoValidFit,
}

impl FitError {
    pub open spec fn text(self) -> Seq<char> {
        match self {
            FitError::TooFewPoints => "Need at least 30 points for LPPL fit"@,
            FitError::WindowTooSmall => "window too small"@,
            FitError::NoValidFit => "LPPL multi-start search failed to find valid fit"@,
        }
    }

    pub fn message(&self) -> (r: &'static str)
        ensures
            r@ == self.text(),
    {
        match self {
            FitError::TooFewPoints => "Need at least 30 points for LPPL fit",
            FitError::WindowTooSmall => "window too small",
            FitError::NoValidFit => "LPPL multi-start search failed to find valid fit",
        }
    }
}

/// A solved point of the search: its parameters and the sum of squared errors.
#[derive(Clone, Copy, Debug, PartialEq, Eq, Structural)]
pub struct Candidate {
    pub params: LpplParams,
    pub sse: Real,
}

/// Critical times that the search draws from, given the last observation.
pub open spec fn critical_range(t_max: Real, cfg: LpplFitConfig) -> (Real, Real) {
    (
        t_max.plus(Real::of_integer(cfg.tc_future_min as int)),
        t_max.plus(Real::of_integer(cfg.tc_future_max as int)),
    )
}

/// The interval of critical times, given the observation times. A window needs as many
/// times as prices, and at least 30.
pub fn search_range(n_prices: usize, times: &Vec<Real>, cfg: &LpplFitConfig) -> (r: Result<
    (Real, Real),
    FitError,
>)
    ensures
        r == if n_prices != times@.len() || n_prices < 30 {
            Err::<(Real, Real), FitError>(FitError::TooFewPoints)
        } else {
            Ok(critical_range(times@.last(), *cfg))
        },
{
    if n_prices != times.len() || n_prices < 30 {
        return Err(FitError::TooFewPoints);
    }
    let t_max = times[times.len() - 1];
    Ok(
        (
            t_max.add(Real::from_usize(cfg.tc_future_min)),
            t_max.add(Real::from_usize(cfg.tc_future_max)),
        ),
    )
}

/// A solved point that may stand as a fit: its critical time is not past, its error is
/// below infinity, and it breaks no bound.
pub open spec fn acceptable(c: Candidate, t_max: Real, cfg: LpplFitConfig) -> bool {
    &&& !c.params.tc.at_most(t_max)
    &&& c.sse.below(Real { bits: POSITIVE_INFINITY })
    &&& c.params.admissible(cfg)
}

/// `k` is the first acceptable candidate with the least error among the first `n`.
pub open spec fn first_best(
    trials: Seq<Candidate>,
    n: int,
    t_max: Real,
    cfg: LpplFitConfig,
    k: int,
) -> bool {
    &&& 0 <= k < n
    &&& acceptable(trials[k], t_max, cfg)
    &&& forall|j: int|
        0 <= j < n && acceptable(#[trigger] trials[j], t_max, cfg) ==> trials[k].sse.at_most(
            trials[j].sse,
        )
    &&& forall|j: int|
        0 <= j < k && acceptable(#[trigger] trials[j], t_max, cfg) ==> trials[k].sse.below(
            trials[j].sse,
        )
}

/// A point of the search space.
#[derive(Clone, Copy, Debug, PartialEq, Eq, Structural)]
pub struct SearchPoint {
    pub tc: Real,
    pub m: Real,
    pub omega: Real,
}

/// The six moves of one polishing round, as steps of tc, m and omega.
pub open spec fn polish_move(step: int) -> (Real, Real, Real) {
    let zero = Real { bits: ZERO };
    if step == 0 {
        (Real { bits: TWO }, zero, zero)
    } else if step == 1 {
        (Real { bits: MINUS_TWO }, zero, zero)
    } else if step == 2 {
        (zero, Real { bits: TWO_HUNDREDTHS }, zero)
    } else if step == 3 {
        (zero, Real { bits: MINUS_TWO_HUNDREDTHS }, zero)
    } else if step == 4 {
        (zero, zero, Real { bits: THREE_TENTHS })
    } else {
        (zero, zero, Real { bits: MINUS_THREE_TENTHS })
    }
}

fn move_of_step(step: usize) -> (r: (Real, Real, Real))
    ensures
        r == polish_move(step as int),
{
    let zero = Real { bits: ZERO };
    if step == 0 {
        (Real { bits: TWO }, zero, zero)
    } else if step == 1 {
        (Real { bits: MINUS_TWO }, zero, zero)
    } else if step == 2 {
        (zero, Real { bits: TWO_HUNDREDTHS }, zero)
    } else if step == 3 {
        (zero, Real { bits: MINUS_TWO_HUNDREDTHS }, zero)
    } else if step == 4 {
        (zero, zero, Real { bits: THREE_TENTHS })
    } else {
        (zero, zero, Real { bits: MINUS_THREE_TENTHS })
    }
}

/// A walk downhill from a candidate, one move at a time.
///
/// A round tries the six moves in turn, each from the best point so far. The walk ends
/// after a round without progress, or after the configured number of rounds.
#[derive(Clone, Copy, Debug, PartialEq, Eq, Structural)]
pub struct Polish {
    pub cfg: LpplFitConfig,
    pub t_max: Real,
    /// Best point so far.
    pub best: Candidate,
    /// Rounds that may still begin after this one, and this one.
    pub rounds_left: usize,
    /// Next move of this round.
    pub step: usize,
    /// Whether this round has made progress.
    pub improved: bool,
}

impl Polish {
    pub open spec fn wf(self) -> bool {
        &&& self.step < 6
        &&& self.cfg.ordered()
        &&& critical_range(self.t_max, self.cfg).0.at_most(critical_range(self.t_max, self.cfg).1)
    }

    pub open spec fn done(self) -> bool {
        self.rounds_left == 0
    }

    /// The point that the next move leads to, held to the search intervals.
    pub open spec fn offered(self) -> SearchPoint {
        let (dtc, dm, domega) = polish_move(self.step as int);
        let (tc_min, tc_max) = critical_range(self.t_max, self.cfg);
        SearchPoint {
            tc: self.best.params.tc.plus(dtc).clamped(tc_min, tc_max),
            m: self.best.params.m.plus(dm).clamped(self.cfg.m_min, self.cfg.m_max),
            omega: self.best.params.omega.plus(domega).clamped(
                self.cfg.omega_min,
                self.cfg.omega_max,
            ),
        }
    }

    /// The walk after its move, when the move is behind it.
    pub open spec fn moved_on(self) -> Polish {
        if self.step < 5 {
            Polish { step: (self.step + 1) as usize, ..self }
        } else if self.improved {
            Polish {
                step: 0,
                improved: false,
                rounds_left: (self.rounds_left - 1) as usize,
                ..self
            }
        } else {
            Polish { step: 0, rounds_left: 0, ..self }
        }
    }

    /// The walk at its next move that leads to a critical time still ahead.
    pub open spec fn settled(self) -> Polish
        decreases self.rounds_left, 6 - self.step,
    {
        if self.rounds_left == 0 || self.step > 5 || !self.offered().tc.at_most(self.t_max) {
            self
        } else {
            self.moved_on().settled()
        }
    }

    /// Whether a solved point beats the best so far.
    pub open spec fn beaten_by(self, c: Candidate) -> bool {
        c.sse.below(self.best.sse) && c.params.admissible(self.cfg)
    }

    /// The walk after its move was solved.
    pub open spec fn answered(self, c: Candidate) -> Polish {
        if self.beaten_by(c) {
            (Polish { best: c, improved: true, ..self }).moved_on()
        } else {
            self.moved_on()
        }
    }

    /// A walk from `best`. The search intervals must run upwards.
    pub fn start(best: Candidate, t_max: Real, cfg: &LpplFitConfig) -> (r: Polish)
        requires
            cfg.ordered(),
            critical_range(t_max, *cfg).0.at_most(critical_range(t_max, *cfg).1),
        ensures
            r.wf(),
            r == (Polish {
                cfg: *cfg,
                t_max,
                best,
                rounds_left: cfg.num_polish_steps,
                step: 0,
                improved: false,
            }),
    {
        Polish {
            cfg: *cfg,
            t_max,
            best,
            rounds_left: cfg.num_polish_steps,
            step: 0,
            improved: false,
        }
    }

    fn point(&self) -> (r: SearchPoint)
        requires
            self.wf(),
        ensures
            r == self.offered(),
    {
        let (dtc, dm, domega) = move_of_step(self.step);
        let tc_min = self.t_max.add(Real::from_usize(self.cfg.tc_future_min));
        let tc_max = self.t_max.add(Real::from_usize(self.cfg.tc_future_max));
        let cfg = self.cfg;
        SearchPoint {
            tc: self.best.params.tc.add(dtc).clamp(tc_min, tc_max),
            m: self.best.params.m.add(dm).clamp(cfg.m_min, cfg.m_max),
            omega: self.best.params.omega.add(domega).clamp(cfg.omega_min, cfg.omega_max),
        }
    }

    fn move_on(&mut self)
        requires
            old(self).wf(),
            old(self).rounds_left > 0,
        ensures
            final(self).wf(),
            *final(self) == old(self).moved_on(),
    {
        if self.step < 5 {
            self.step = self.step + 1;
        } else if self.improved {
            self.step = 0;
            self.improved = false;
            self.rounds_left = self.rounds_left - 1;
        } else {
            self.step = 0;
            self.rounds_left = 0;
        }
    }

    /// The next point to solve, or nothing when the walk has ended. Moves to a critical
    /// time that is not ahead are passed over.
    pub fn next_point(&mut self) -> (r: Option<SearchPoint>)
        requires
            old(self).wf(),
        ensures
            final(self).wf(),
            *final(self) == old(self).settled(),
            r == if final(self).done() {
                None::<SearchPoint>
            } else {
                Some(final(self).offered())
            },
    {
        while self.rounds_left > 0
            invariant
                self.wf(),
                self.settled() == old(self).settled(),
            decreases self.rounds_left, 6 - self.step,
        {
            let p = self.point();
            if !p.tc.le(self.t_max) {
                return Some(p);
            }
            self.move_on();
        }
        None
    }

    /// Takes the solution of the point that [`Polish::next_point`] named.
    pub fn answer(&mut self, c: Candidate)
        requires
            old(self).wf(),
            !old(self).done(),
        ensures
            final(self).wf(),
            *final(self) == old(self).answered(c),
    {
        if c.sse.lt(self.best.sse) && c.params.passes_fit_filters(&self.cfg) {
            self.best = c;
            self.improved = true;
        }
        self.move_on();
    }
}

/// Law: a move of the walk never makes the error worse, and a walk that starts from an
/// admissible point stays at admissible points.
pub proof fn law_polish_never_worsens(walk: Polish, c: Candidate)
    requires
        walk.wf(),
        !walk.done(),
        !walk.best.sse.nan(),
    ensures
        walk.answered(c).best.sse.at_most(walk.best.sse),
        walk.best.params.admissible(walk.cfg) ==> walk.answered(c).best.params.admissible(
            walk.cfg,
        ),
        walk.answered(c).best != walk.best ==> walk.answered(c).best == c
            && c.sse.below(walk.best.sse),
        walk.answered(c).cfg == walk.cfg,
        walk.answered(c).t_max == walk.t_max,
{
}

/// Law: passing over moves changes neither the best point nor the settings; the point that
/// is then offered has its critical time ahead, and lies in the search intervals wherever
/// it is defined.
pub proof fn law_polish_offers_inside(walk: Polish)
    requires
        walk.wf(),
    ensures
        walk.settled().best == walk.best,
        walk.settled().cfg == walk.cfg,
        walk.settled().t_max == walk.t_max,
        walk.settled().wf(),
        !walk.settled().done() ==> !walk.settled().offered().tc.at_most(walk.t_max),
        ({
            let p = walk.settled().offered();
            let (tc_min, tc_max) = critical_range(walk.t_max, walk.cfg);
            &&& p.tc.nan() || (tc_min.at_most(p.tc) && p.tc.at_most(tc_max))
            &&& p.m.nan() || (walk.cfg.m_min.at_most(p.m) && p.m.at_most(walk.cfg.m_max))
            &&& p.omega.nan() || (walk.cfg.omega_min.at_most(p.omega) && p.omega.at_most(
                walk.cfg.omega_max,
            ))
        }),
    decreases walk.rounds_left, 6 - walk.step,
{
    if walk.rounds_left > 0 && walk.offered().tc.at_most(walk.t_max) {
        law_polish_offers_inside(walk.moved_on());
    }
}

/// A finished fit of one window.
#[derive(Clone, Debug)]
pub struct LpplFit {
    pub params: LpplParams,
    pub sse: Real,
    /// Log-price minus model, day by day.
    pub residuals: Vec<Real>,
    pub times: Vec<Real>,
    pub n_points: usize,
}

/// Log-price minus model, day by day.
pub open spec fn residuals_of(log_prices: Seq<Real>, predicted: Seq<Real>) -> Seq<Real> {
    Seq::new(log_prices.len(), |i: int| log_prices[i].minus(predicted[i]))
}

/// The fit that a best candidate makes of a window. `predicted` holds the candidate's
/// log-prices at the observation times; without a candidate there is no fit.
pub fn assemble_fit(
    best: Option<Candidate>,
    log_prices: &Vec<Real>,
    predicted: &Vec<Real>,
    times: Vec<Real>,
) -> (r: Result<LpplFit, FitError>)
    requires
        best is Some ==> predicted@.len() == log_prices@.len(),
    ensures
        r is Ok <==> best is Some,
        r matches Err(e) ==> e == FitError::NoValidFit,
        r matches Ok(fit) ==> {
            &&& fit.params == best->0.params
            &&& fit.sse == best->0.sse
            &&& fit.residuals@ == residuals_of(log_prices@, predicted@)
            &&& fit.times@ == times@
            &&& fit.n_points == log_prices@.len()
        },
{
    let c = match best {
        Some(c) => c,
        None => {
            return Err(FitError::NoValidFit);
        },
    };
    let n: usize = log_prices.len();
    let mut residuals: Vec<Real> = Vec::new();
    let mut i: usize = 0;
    while i < n
        invariant
            i <= n,
            n == log_prices@.len(),
            n == predicted@.len(),
            residuals@ == residuals_of(log_prices@, predicted@).take(i as int),
        decreases n - i,
    {
        residuals.push(log_prices[i].sub(predicted[i]));
        i = i + 1;
    }
    Ok(LpplFit { params: c.params, sse: c.sse, residuals, times, n_points: n })
}

/// The parameters that a linear solution stands for: the cosine and sine coefficients
/// become an amplitude and a phase. `angle` is the angle of the point (`c1`, `c2`); the
/// phase is its opposite, as c1 cos x + c2 sin x = c cos(x - angle).
pub open spec fn solved_params(
    p: SearchPoint,
    a: Real,
    b: Real,
    c1: Real,
    c2: Real,
    angle: Real,
) -> LpplParams {
    let c = c1.times(c1).plus(c2.times(c2)).root();
    LpplParams {
        tc: p.tc,
        m: p.m,
        omega: p.omega,
        a,
        b,
        c,
        phi: if (Real { bits: TRILLIONTH }).below(c) {
            angle.negated()
        } else {
            Real { bits: ZERO }
        },
    }
}

/// The parameters that a linear solution stands for.
pub fn params_of_solution(
    p: SearchPoint,
    a: Real,
    b: Real,
    c1: Real,
    c2: Real,
    angle: Real,
) -> (r: LpplParams)
    ensures
        r == solved_params(p, a, b, c1, c2, angle),
{
    let c = c1.mul(c1).add(c2.mul(c2)).sqrt();
    let threshold = Real { bits: TRILLIONTH };
    let phi = if threshold.lt(c) {
        angle.neg()
    } else {
        Real { bits: ZERO }
    };
    LpplParams { tc: p.tc, m: p.m, omega: p.omega, a, b, c, phi }
}

/// A window of bars as a fit takes it.
#[derive(Clone, Debug)]
pub struct FitWindow {
    /// 1, 2, 3, ...: one for each bar.
    pub times: Vec<Real>,
    /// Adjusted closes, kept at 0.01 or more; their logarithms are fitted.
    pub prices: Vec<Real>,
}

/// The observation times of a window of `n` bars.
pub open spec fn window_times(n: nat) -> Seq<Real> {
    Seq::new(n, |i: int| Real::of_integer(i + 1))
}

/// The prices of the bars from `start` up to `end`.
pub open spec fn window_prices(bars: Seq<PriceBar>, start: int, end: int) -> Seq<Real> {
    Seq::new(
        (end - start) as nat,
        |i: int| bars[start + i].adj_close.larger(Real { bits: HUNDREDTH }),
    )
}

/// The window of the bars from `start_idx` up to (not including) `end_idx`.
pub fn fit_window(bars: &Vec<PriceBar>, start_idx: usize, end_idx: usize) -> (r: Result<
    FitWindow,
    FitError,
>)
    requires
        start_idx <= end_idx <= bars@.len(),
    ensures
        r is Ok <==> end_idx - start_idx >= 30,
        r matches Err(e) ==> e == FitError::WindowTooSmall,
        r matches Ok(w) ==> {
            &&& w.times@ == window_times((end_idx - start_idx) as nat)
            &&& w.prices@ == window_prices(bars@, start_idx as int, end_idx as int)
        },
{
    if end_idx - start_idx < 30 {
        return Err(FitError::WindowTooSmall);
    }
    let n: usize = end_idx - start_idx;
    let mut times: Vec<Real> = Vec::new();
    let mut prices: Vec<Real> = Vec::new();
    let floor = Real { bits: HUNDREDTH };
    let mut i: usize = 0;
    while i < n
        invariant
            i <= n,
            n == end_idx - start_idx,
            start_idx <= end_idx <= bars@.len(),
            floor == (Real { bits: HUNDREDTH }),
            times@ == window_times(n as nat).take(i as int),
            prices@ == window_prices(bars@, start_idx as int, end_idx as int).take(i as int),
        decreases n - i,
    {
        times.push(Real::from_usize(i + 1));
        prices.push(bars[start_idx + i].adj_close.max(floor));
        i = i + 1;
    }
    Ok(FitWindow { times, prices })
}

} // verus!
