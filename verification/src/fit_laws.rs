//! What the parts of a fit mean.

use crate::accuracy;
use crate::binary64;
use crate::binary64::Real;
use crate::confidence_laws;
use crate::constants::{
    HUNDREDTH, MINUS_THREE_TENTHS, MINUS_TWO, MINUS_TWO_HUNDREDTHS, POSITIVE_INFINITY,
    THREE_TENTHS, TRILLIONTH, TWO, TWO_HUNDREDTHS, ZERO,
};
use crate::data::PriceBar;
use crate::lppl;
use crate::lppl::{Candidate, LpplFitConfig, LpplParams, Polish, SearchPoint};
use crate::order;
use crate::rounding;
use crate::search;
use crate::search::{LpplSearch, SearchTask};
use vstd::arithmetic::power2::*;
use vstd::prelude::*;

verus! {

/// The square of a number, in squared units.
pub open spec fn square(x: Real) -> int {
    x.value() * x.value()
}

/// Law: the amplitude of a solution is not negative, and its square is that of the cosine
/// and the sine coefficient together, up to rounding: to within 2^-50 of it, and 2^-1021
/// where it all but vanishes. It is a number unless the coefficients are huge. The rest of
/// the solution is kept.
pub proof fn law_amplitude_of_the_coefficients(
    p: SearchPoint,
    a: Real,
    b: Real,
    c1: Real,
    c2: Real,
    angle: Real,
)
    requires
        c1.finite(),
        c2.finite(),
    ensures
        ({
            let r = lppl::solved_params(p, a, b, c1, c2, angle);
            let one = binary64::one_in_units();
            let both = square(c1) + square(c2);
            &&& !r.c.nan() && r.c.value() >= 0
            &&& c1.magnitude() <= pow2(400) * one && c2.magnitude() <= pow2(400) * one
                ==> r.c.finite()
            &&& r.c.finite() ==> accuracy::apart(square(r.c), both) * 0x4_0000_0000_0000 <= both
                + one * 0x20_0000_0000_0000
            &&& r.tc == p.tc && r.m == p.m && r.omega == p.omega && r.a == a && r.b == b
        }),
{
    lemma_amplitude(c1, c2);
    lemma_amplitude_finite(c1, c2);
}

/// Law: the amplitude depends on neither the signs of the coefficients nor their order.
pub proof fn law_amplitude_is_symmetric(
    p: SearchPoint,
    a: Real,
    b: Real,
    c1: Real,
    c2: Real,
    angle: Real,
    other: Real,
)
    requires
        c1.finite(),
        c2.finite(),
    ensures
        ({
            let c = lppl::solved_params(p, a, b, c1, c2, angle).c;
            &&& lppl::solved_params(p, a, b, c2, c1, other).c == c
            &&& lppl::solved_params(p, a, b, c1.negated(), c2, other).c == c
            &&& lppl::solved_params(p, a, b, c1, c2.negated(), other).c == c
        }),
{
    lemma_square_sign(c1);
    lemma_square_sign(c2);
    let (x, y) = (c1.times(c1), c2.times(c2));
    binary64::lemma_zero();
    if x.finite() && y.finite() {
        assert(x.plus(y) == y.plus(x));
    }
}

proof fn lemma_square_sign(x: Real)
    requires
        x.finite(),
    ensures
        x.negated().times(x.negated()) == x.times(x),
        !x.times(x).nan(),
        !x.times(x).negative(),
{
    order::lemma_signed(!x.negative(), x.field());
    let n = x.magnitude() * x.magnitude();
    order::lemma_round_range(n, binary64::one_in_units());
    order::lemma_signed(false, rounding::round_ratio(n, binary64::one_in_units()));
}

proof fn lemma_amplitude(c1: Real, c2: Real)
    requires
        c1.finite(),
        c2.finite(),
    ensures
        ({
            let c = c1.times(c1).plus(c2.times(c2)).root();
            let both = square(c1) + square(c2);
            &&& !c.nan() && c.value() >= 0
            &&& c.finite() ==> accuracy::apart(square(c), both) * 0x4_0000_0000_0000 <= both
                + binary64::one_in_units() * 0x20_0000_0000_0000
        }),
{
    let one = binary64::one_in_units();
    lemma_pow2_pos(1074);
    binary64::lemma_zero();
    let (x, y) = (c1.times(c1), c2.times(c2));
    lemma_square_sign(c1);
    lemma_square_sign(c2);
    let s = x.plus(y);
    let (ma, mb) = (c1.magnitude(), c2.magnitude());
    assert(square(c1) == ma * ma) by (nonlinear_arith)
        requires
            square(c1) == c1.value() * c1.value(),
            c1.value() == ma || c1.value() == -ma,
    ;
    assert(square(c2) == mb * mb) by (nonlinear_arith)
        requires
            square(c2) == c2.value() * c2.value(),
            c2.value() == mb || c2.value() == -mb,
    ;
    if x.infinite() || y.infinite() {
        assert(s.infinite() && !s.negative());
        binary64::lemma_field_order(0, rounding::INFINITY_FIELD as nat);
    } else {
        order::lemma_plus_direction(x, y);
        lemma_sum_sign(x, y);
        if s.finite() {
            accuracy::lemma_product_error(c1, c1);
            accuracy::lemma_product_error(c2, c2);
            accuracy::lemma_sum_error(x, y);
            let c = s.root();
            if s.field() == 0 {
                assert(c == s);
                assert(square(c) == 0) by (nonlinear_arith)
                    requires
                        square(c) == c.value() * c.value(),
                        c.value() == 0,
                ;
                assert(s.value() * one == 0) by (nonlinear_arith)
                    requires
                        s.value() == 0,
                ;
                lemma_chain(
                    square(c1),
                    square(c2),
                    x.value(),
                    y.value(),
                    s.value(),
                    0,
                    one as int,
                );
            } else {
                order::lemma_root_positive(s);
                let n = s.magnitude() * one;
                binary64::lemma_field_order(0, s.field());
                lemma_pow2_strictly_increases(200, 1074);
                assert(n >= one) by (nonlinear_arith)
                    requires
                        n == s.magnitude() * one,
                        s.magnitude() >= 1,
                ;
                accuracy::lemma_root_error(n);
                lemma_chain(
                    square(c1),
                    square(c2),
                    x.value(),
                    y.value(),
                    s.value(),
                    square(c),
                    one as int,
                );
            }
        } else {
            binary64::lemma_field_order(0, rounding::INFINITY_FIELD as nat);
        }
    }
}

proof fn lemma_sum_sign(x: Real, y: Real)
    requires
        x.finite(),
        y.finite(),
        !x.negative(),
        !y.negative(),
    ensures
        !x.plus(y).nan(),
        !x.plus(y).negative(),
{
    let n = x.magnitude() + y.magnitude();
    order::lemma_round_range(n, 1);
    order::lemma_signed(false, rounding::round_ratio(n, 1));
    order::lemma_signed(false, 0);
}

/// The errors of the squares, of their sum and of its root, taken together.
proof fn lemma_chain(a: int, b: int, x: int, y: int, s: int, z: int, one: int)
    requires
        a >= 0 && b >= 0 && x >= 0 && y >= 0 && s >= 0 && z >= 0 && one >= 0,
        accuracy::apart(x * one, a) * 0x20_0000_0000_0000 <= a + one
            * 0x10_0000_0000_0000,
        accuracy::apart(y * one, b) * 0x20_0000_0000_0000 <= b + one
            * 0x10_0000_0000_0000,
        accuracy::apart(s, x + y) * 0x20_0000_0000_0000 <= x + y,
        accuracy::apart(z, s * one) * 0x8_0000_0000_0000 <= s * one,
    ensures
        accuracy::apart(z, a + b) * 0x4_0000_0000_0000 <= a + b + one
            * 0x20_0000_0000_0000,
{
    let t = (x + y) * one;
    assert(t == x * one + y * one) by (nonlinear_arith)
        requires
            t == (x + y) * one,
    ;
    let g = accuracy::apart(s, x + y);
    let gap = accuracy::apart(s * one, t);
    assert(gap == g * one) by (nonlinear_arith)
        requires
            gap == (if s * one < t {
                t - s * one
            } else {
                s * one - t
            }),
            t == (x + y) * one,
            g == (if s < x + y {
                x + y - s
            } else {
                s - (x + y)
            }),
            one >= 0,
    ;
    assert(gap * 0x20_0000_0000_0000 <= t) by (nonlinear_arith)
        requires
            gap == g * one,
            g * 0x20_0000_0000_0000 <= x + y,
            t == (x + y) * one,
            one >= 0,
    ;
}

proof fn lemma_amplitude_finite(c1: Real, c2: Real)
    requires
        c1.finite(),
        c2.finite(),
    ensures
        ({
            let one = binary64::one_in_units();
            c1.magnitude() <= pow2(400) * one && c2.magnitude() <= pow2(400) * one
                ==> c1.times(c1).plus(c2.times(c2)).root().finite()
        }),
{
    let one = binary64::one_in_units();
    let bound = pow2(400) * one;
    if c1.magnitude() <= bound && c2.magnitude() <= bound {
        lemma_square_bounded(c1);
        lemma_square_bounded(c2);
        lemma_square_sign(c1);
        lemma_square_sign(c2);
        let (x, y) = (c1.times(c1), c2.times(c2));
        let s = x.plus(y);
        lemma_sum_sign(x, y);
        let n = x.magnitude() + y.magnitude();
        lemma_pow2_unfold(1875);
        order::lemma_scaled_exact(1, 1875);
        assert(1 * pow2(1875) == pow2(1875));
        assert(n * 1 <= pow2(1875) * 1);
        order::lemma_round_order(n, 1, pow2(1875), 1);
        order::lemma_signed(false, rounding::round_ratio(n, 1));
        order::lemma_signed(false, 0);
        assert(s.finite());
        if s.field() != 0 {
            order::lemma_root_positive(s);
        }
    }
}

proof fn lemma_square_bounded(x: Real)
    requires
        x.finite(),
        x.magnitude() <= pow2(400) * binary64::one_in_units(),
    ensures
        x.times(x).finite(),
        x.times(x).magnitude() <= pow2(1874),
{
    let one = binary64::one_in_units();
    lemma_pow2_pos(1074);
    let m = x.magnitude();
    let n = m * m;
    lemma_pow2_adds(400, 400);
    lemma_pow2_adds(800, 1074);
    let e = pow2(400);
    let limit = pow2(1874);
    assert(n * 1 <= limit * one) by (nonlinear_arith)
        requires
            n == m * m,
            m <= e * one,
            limit == (e * e) * one,
            m >= 0,
            one > 0,
    ;
    order::lemma_scaled_exact(1, 1874);
    assert(1 * pow2(1874) == pow2(1874));
    order::lemma_round_order(n, one, limit, 1);
    order::lemma_signed(false, rounding::round_ratio(n, one));
    order::lemma_magnitude_order(rounding::round_ratio(n, one), rounding::round_ratio(limit, 1));
}

/// Law: the phase of a solution turns the two coefficients into one wave. Where the
/// amplitude is above 10^-12, and `cosine` and `sine`, in parts of `whole`, obey the rule
/// for the cosine of a difference and take the angle to that of the point (c1, c2), the
/// amplitude times the cosine of an argument moved by the phase is the cosine coefficient
/// times the cosine and the sine coefficient times the sine of that argument. Below that
/// amplitude the phase is 0.
pub proof fn law_phase_makes_one_wave(
    p: SearchPoint,
    a: Real,
    b: Real,
    c1: Real,
    c2: Real,
    angle: Real,
    cosine: spec_fn(int) -> int,
    sine: spec_fn(int) -> int,
    whole: int,
    x: int,
)
    requires
        !angle.nan(),
        whole > 0,
        cosine(x - angle.value()) * whole == cosine(x) * cosine(angle.value()) + sine(x) * sine(
            angle.value(),
        ),
    ensures
        ({
            let r = lppl::solved_params(p, a, b, c1, c2, angle);
            let c = r.c.value();
            let least = (Real { bits: TRILLIONTH }).value();
            &&& !r.c.nan() && c > least && c * cosine(angle.value()) == c1.value() * whole && c
                * sine(angle.value()) == c2.value() * whole ==> c * cosine(x + r.phi.value())
                == c1.value() * cosine(x) + c2.value() * sine(x)
            &&& !r.c.nan() && c > least ==> !r.phi.nan() && r.phi.value() == -angle.value()
            &&& r.c.nan() || c <= least ==> !r.phi.nan() && r.phi.value() == 0
        }),
{
    let r = lppl::solved_params(p, a, b, c1, c2, angle);
    let c = r.c.value();
    let turn = angle.value();
    binary64::lemma_zero();
    order::lemma_signed(!angle.negative(), angle.field());
    if !r.c.nan() && c > (Real { bits: TRILLIONTH }).value() && c * cosine(turn) == c1.value()
        * whole && c * sine(turn) == c2.value() * whole {
        assert(x + r.phi.value() == x - turn);
        lemma_wave(
            c,
            c1.value(),
            c2.value(),
            cosine(turn),
            sine(turn),
            cosine(x),
            sine(x),
            cosine(x - turn),
            whole,
        );
    }
}

proof fn lemma_wave(
    c: int,
    v1: int,
    v2: int,
    ct: int,
    st: int,
    cx: int,
    sx: int,
    moved: int,
    whole: int,
)
    requires
        whole > 0,
        moved * whole == cx * ct + sx * st,
        c * ct == v1 * whole,
        c * st == v2 * whole,
    ensures
        c * moved == v1 * cx + v2 * sx,
{
    let sum = cx * ct + sx * st;
    assert(whole * (c * moved) == c * sum) by (nonlinear_arith)
        requires
            moved * whole == sum,
    ;
    assert(c * sum == cx * (c * ct) + sx * (c * st)) by (nonlinear_arith)
        requires
            sum == cx * ct + sx * st,
    ;
    let first = v1 * whole;
    let second = v2 * whole;
    assert(cx * first + sx * second == whole * (v1 * cx + v2 * sx)) by (nonlinear_arith)
        requires
            first == v1 * whole,
            second == v2 * whole,
    ;
    vstd::arithmetic::mul::lemma_mul_equality_converse(whole, c * moved, v1 * cx + v2 * sx);
}

/// Law: a fit is sound in itself exactly where its critical time is positive, its exponent
/// lies between 0 and 1, its frequency between 1/2 and 30, and its oscillation is damped.
pub proof fn law_valid_fits_are_sound(p: LpplParams)
    ensures
        p.structurally_valid() == confidence_laws::sound_fit(p),
{
    confidence_laws::lemma_sound_fit(p);
}

/// The number breaks neither bound.
pub open spec fn breaks_no_bound(x: Real, low: Real, high: Real) -> bool {
    &&& !x.nan() && !low.nan() ==> low.value() <= x.value()
    &&& !x.nan() && !high.nan() ==> x.value() <= high.value()
}

/// Law: a fit is admissible exactly where its exponent, its frequency and its amplitude
/// break no bound of the search that was asked for, the amplitude is not 0 or more where it
/// has to be negative, and the fit is sound where that is asked for.
pub proof fn law_admissible_fits_break_no_bound(p: LpplParams, cfg: LpplFitConfig)
    ensures
        p.admissible(cfg) <==> {
            &&& breaks_no_bound(p.m, cfg.m_min, cfg.m_max)
            &&& breaks_no_bound(p.omega, cfg.omega_min, cfg.omega_max)
            &&& breaks_no_bound(p.b, cfg.b_min, cfg.b_max)
            &&& cfg.require_b_negative ==> p.b.nan() || p.b.value() < 0
            &&& cfg.require_damping ==> confidence_laws::sound_fit(p)
        },
{
    binary64::lemma_zero();
    confidence_laws::lemma_sound_fit(p);
}

/// `y` is `x` moved by `by`, and held between `low` and `high`.
pub open spec fn is_moved(y: Real, x: Real, by: Real, low: Real, high: Real) -> bool {
    let free = x.plus(by);
    &&& free.value() < low.value() ==> y == low
    &&& free.value() > high.value() ==> y == high
    &&& low.value() <= free.value() <= high.value() ==> y == free
}

/// Law: the moves of a round change one coordinate each, up and then down: the critical time
/// by 2 days, the exponent by 0.02 and the frequency by 0.3, as far as the search intervals
/// reach. The other two coordinates stay those of the best point.
pub proof fn law_moves_change_one_coordinate(walk: Polish)
    requires
        walk.wf(),
        walk.best.params.tc.finite(),
        walk.best.params.m.finite(),
        walk.best.params.omega.finite(),
        walk.best.params.tc.field() != 0,
        walk.best.params.m.field() != 0,
        walk.best.params.omega.field() != 0,
        ({
            let best = walk.best.params;
            let (tc_min, tc_max) = lppl::critical_range(walk.t_max, walk.cfg);
            &&& tc_min.at_most(best.tc) && best.tc.at_most(tc_max)
            &&& walk.cfg.m_min.at_most(best.m) && best.m.at_most(walk.cfg.m_max)
            &&& walk.cfg.omega_min.at_most(best.omega) && best.omega.at_most(walk.cfg.omega_max)
        }),
    ensures
        ({
            let best = walk.best.params;
            let p = walk.offered();
            let (tc_min, tc_max) = lppl::critical_range(walk.t_max, walk.cfg);
            let (m_min, m_max) = (walk.cfg.m_min, walk.cfg.m_max);
            let (w_min, w_max) = (walk.cfg.omega_min, walk.cfg.omega_max);
            let days = Real { bits: TWO };
            let part = Real { bits: TWO_HUNDREDTHS };
            let turn = Real { bits: THREE_TENTHS };
            &&& walk.step == 0 ==> is_moved(p.tc, best.tc, days, tc_min, tc_max)
            &&& walk.step == 1 ==> is_moved(p.tc, best.tc, days.negated(), tc_min, tc_max)
            &&& walk.step == 2 ==> is_moved(p.m, best.m, part, m_min, m_max)
            &&& walk.step == 3 ==> is_moved(p.m, best.m, part.negated(), m_min, m_max)
            &&& walk.step == 4 ==> is_moved(p.omega, best.omega, turn, w_min, w_max)
            &&& walk.step == 5 ==> is_moved(p.omega, best.omega, turn.negated(), w_min, w_max)
            &&& walk.step >= 2 ==> p.tc == best.tc
            &&& walk.step < 2 || walk.step >= 4 ==> p.m == best.m
            &&& walk.step < 4 ==> p.omega == best.omega
        }),
{
    let best = walk.best.params;
    let (dtc, dm, domega) = lppl::polish_move(walk.step as int);
    lemma_move(best.tc, dtc);
    lemma_move(best.m, dm);
    lemma_move(best.omega, domega);
    assert((Real { bits: TWO }).negated() == (Real { bits: MINUS_TWO }));
    assert((Real { bits: TWO_HUNDREDTHS }).negated() == (Real { bits: MINUS_TWO_HUNDREDTHS }));
    assert((Real { bits: THREE_TENTHS }).negated() == (Real { bits: MINUS_THREE_TENTHS }));
}

proof fn lemma_move(x: Real, by: Real)
    requires
        x.finite(),
        by.finite(),
        x.field() != 0,
    ensures
        !x.plus(by).nan(),
        by == (Real { bits: ZERO }) ==> x.plus(by) == x,
{
    binary64::lemma_zero();
    order::lemma_plus_value(x, by);
    binary64::lemma_field_order(0, x.field());
    if by == (Real { bits: ZERO }) {
        order::lemma_round_identity(x.field(), 1);
        assert(x.magnitude() * 1 == x.magnitude());
        order::lemma_signed(x.negative(), x.field());
    }
}

/// Law: an answer is taken over exactly where it is admissible and its error is smaller.
/// The moves of a round follow each other; after the sixth a new round begins, one fewer
/// being left, where the round has made progress, and the walk ends where it has not.
pub proof fn law_rounds_go_on_while_they_help(walk: Polish, c: Candidate)
    requires
        walk.wf(),
        !walk.done(),
    ensures
        ({
            let next = walk.answered(c);
            let better = !c.sse.nan() && !walk.best.sse.nan() && c.sse.value()
                < walk.best.sse.value() && c.params.admissible(walk.cfg);
            &&& better ==> next.best == c
            &&& !better ==> next.best == walk.best
            &&& next.step == (walk.step + 1) % 6
            &&& walk.step != 5 ==> next.rounds_left == walk.rounds_left && (next.improved <==>
                walk.improved || better)
            &&& walk.step == 5 && (walk.improved || better) ==> next.rounds_left
                == walk.rounds_left - 1 && !next.improved
            &&& walk.step == 5 && !walk.improved && !better ==> next.done()
        }),
{
}

/// Law: for a window of `n` days, numbered from 1, the critical times lie between the
/// configured numbers of days after the last one.
pub proof fn law_critical_times_lie_after_the_window(n: int, cfg: LpplFitConfig)
    requires
        n > 0,
        n + cfg.tc_future_min < 0x20_0000_0000_0000,
        n + cfg.tc_future_max < 0x20_0000_0000_0000,
    ensures
        ({
            let (low, high) = lppl::critical_range(lppl::window_times(n as nat).last(), cfg);
            let one = binary64::one_in_units();
            &&& low.finite() && low.value() == (n + cfg.tc_future_min) * one
            &&& high.finite() && high.value() == (n + cfg.tc_future_max) * one
        }),
{
    let last = lppl::window_times(n as nat).last();
    assert(last == Real::of_integer(n));
    lemma_integer_sum(n, cfg.tc_future_min as int);
    lemma_integer_sum(n, cfg.tc_future_max as int);
}

proof fn lemma_integer_sum(i: int, j: int)
    requires
        0 < i,
        0 <= j,
        i + j < 0x20_0000_0000_0000,
    ensures
        Real::of_integer(i).plus(Real::of_integer(j)).finite(),
        Real::of_integer(i).plus(Real::of_integer(j)).value() == (i + j)
            * binary64::one_in_units(),
{
    let one = binary64::one_in_units();
    order::lemma_integer_exact(i);
    order::lemma_integer_exact(j);
    order::lemma_integer_exact(i + j);
    let sum = Real::of_integer(i + j);
    assert(i * one + j * one == (i + j) * one) by (nonlinear_arith);
    order::lemma_plus_value(Real::of_integer(i), Real::of_integer(j));
    order::lemma_rounded_value(sum);
    let s = Real::of_integer(i).plus(Real::of_integer(j));
    order::lemma_magnitude_reflects(s.field(), sum.field());
}

/// Law: a window holds each of its bars once, in order: day 1, 2, 3 and so on, each with the
/// adjusted close, or with 0.01 where that is lower or no number.
pub proof fn law_window_holds_its_closes(bars: Seq<PriceBar>, start: int, end: int, i: int)
    requires
        0 <= start <= start + i < end <= bars.len(),
        end - start < 0x20_0000_0000_0000,
        i >= 0,
    ensures
        ({
            let times = lppl::window_times((end - start) as nat);
            let prices = lppl::window_prices(bars, start, end);
            let close = bars[start + i].adj_close;
            let floor = Real { bits: HUNDREDTH };
            &&& times.len() == end - start && prices.len() == end - start
            &&& times[i].value() == (i + 1) * binary64::one_in_units()
            &&& !close.nan() && close.value() >= floor.value() ==> prices[i] == close
            &&& close.nan() || close.value() < floor.value() ==> prices[i] == floor
        }),
{
    order::lemma_integer_exact(i + 1);
}

/// Law: the residuals of a fit are what the model leaves of the log-prices, day by day.
pub proof fn law_residuals_are_what_is_left(log_prices: Seq<Real>, predicted: Seq<Real>, i: int)
    requires
        0 <= i < log_prices.len(),
        log_prices[i].finite(),
        predicted[i].finite(),
    ensures
        lppl::residuals_of(log_prices, predicted).len() == log_prices.len(),
        lppl::residuals_of(log_prices, predicted)[i].value() == order::rounded(
            log_prices[i].value() - predicted[i].value(),
        ).value(),
{
    order::lemma_signed(!predicted[i].negative(), predicted[i].field());
    order::lemma_plus_value(log_prices[i], predicted[i].negated());
}

/// A solved point may stand as a fit: its critical time is not past, its error is a number
/// and it breaks no bound of the search.
pub open spec fn may_stand(c: Candidate, t_max: Real, cfg: LpplFitConfig) -> bool {
    let p = c.params;
    &&& p.tc.nan() || t_max.nan() || p.tc.value() > t_max.value()
    &&& !c.sse.nan() && c.sse.value() < (Real { bits: POSITIVE_INFINITY }).value()
    &&& breaks_no_bound(p.m, cfg.m_min, cfg.m_max)
    &&& breaks_no_bound(p.omega, cfg.omega_min, cfg.omega_max)
    &&& breaks_no_bound(p.b, cfg.b_min, cfg.b_max)
    &&& cfg.require_b_negative ==> p.b.nan() || p.b.value() < 0
    &&& cfg.require_damping ==> confidence_laws::sound_fit(p)
}

/// Law: the best starting point of a search is one of those that were solved, may stand as a
/// fit, and has the least error of all that may; of several with that error it is the first.
/// There is none exactly where none may stand. What the search chooses in the end is no
/// worse.
pub proof fn law_best_start_has_the_least_error(search: LpplSearch)
    requires
        search.wf(),
    ensures
        ({
            let trials = search.trials@;
            let (t_max, cfg) = (search.t_max, search.cfg);
            &&& search.best is None <==> forall|j: int|
                0 <= j < trials.len() ==> !may_stand(#[trigger] trials[j], t_max, cfg)
            &&& search.best matches Some(best) ==> exists|k: int|
                {
                    &&& 0 <= k < trials.len() && #[trigger] trials[k] == best
                    &&& may_stand(best, t_max, cfg)
                    &&& forall|j: int|
                        0 <= j < trials.len() && may_stand(#[trigger] trials[j], t_max, cfg)
                            ==> best.sse.value() <= trials[j].sse.value()
                    &&& forall|j: int|
                        0 <= j < k && may_stand(#[trigger] trials[j], t_max, cfg)
                            ==> best.sse.value() < trials[j].sse.value()
                }
            &&& search.best matches Some(best) ==> (search.chosen() matches Some(c)
                && c.sse.value() <= best.sse.value())
        }),
{
    let trials = search.trials@;
    let (t_max, cfg) = (search.t_max, search.cfg);
    assert forall|c: Candidate| #[trigger] may_stand(c, t_max, cfg) == lppl::acceptable(
        c,
        t_max,
        cfg,
    ) by {
        law_admissible_fits_break_no_bound(c.params, cfg);
    }
    search::law_search_fails_only_without_candidates(search);
    if search.best is None {
        assert forall|j: int| 0 <= j < trials.len() implies !may_stand(
            #[trigger] trials[j],
            t_max,
            cfg,
        ) by {
            assert(!lppl::acceptable(trials[j], t_max, cfg));
        }
    } else {
        let best = search.best->0;
        let n = trials.len() as int;
        let k = choose|k: int|
            #[trigger] lppl::first_best(trials, n, t_max, cfg, k) && best == trials[k];
        assert(may_stand(trials[k], t_max, cfg));
        assert forall|j: int|
            0 <= j < n && may_stand(#[trigger] trials[j], t_max, cfg) implies best.sse.value()
            <= trials[j].sse.value() by {
            assert(lppl::acceptable(trials[j], t_max, cfg));
        }
        assert forall|j: int|
            0 <= j < k && may_stand(#[trigger] trials[j], t_max, cfg) implies best.sse.value()
            < trials[j].sse.value() by {
            assert(lppl::acceptable(trials[j], t_max, cfg));
        }
    }
}

/// Law: a search draws its starting points first, from the configured intervals and from the
/// critical times after its window; it then walks on from the best one, and gives up where
/// there is none.
pub proof fn law_search_draws_before_it_walks(search: LpplSearch)
    requires
        search.wf(),
    ensures
        search.starts_left > 0 ==> (search.task_now() matches SearchTask::Draw(area) && {
            &&& area.m_min == search.cfg.m_min && area.m_max == search.cfg.m_max
            &&& area.omega_min == search.cfg.omega_min && area.omega_max == search.cfg.omega_max
            &&& area.tc_min == search.times@.last().plus(
                Real::of_integer(search.cfg.tc_future_min as int),
            )
            &&& area.tc_max == search.times@.last().plus(
                Real::of_integer(search.cfg.tc_future_max as int),
            )
        }),
        search.starts_left == 0 && search.best is None <==> search.task_now() is GiveUp,
        search.starts_left == 0 && search.best is Some ==> search.task_now() is Solve
            || search.task_now() is Predict,
        search.task_now() matches SearchTask::Solve(p) ==> p.tc.nan() || search.t_max.nan()
            || p.tc.value() > search.t_max.value(),
        search.task_now() is Predict && search.walk is Some ==> search.task_now()
            == SearchTask::Predict(search.walk->0.best.params),
{
    match search.walk_now() {
        Some(_) => {
            let walk = match (search.walk, search.best) {
                (Some(walk), _) => walk,
                (None, best) => Polish {
                    cfg: search.cfg,
                    t_max: search.t_max,
                    best: best->0,
                    rounds_left: search.cfg.num_polish_steps,
                    step: 0,
                    improved: false,
                },
            };
            lppl::law_polish_offers_inside(walk);
        },
        None => {},
    }
}

} // verus!
