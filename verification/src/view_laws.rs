//! What charts show, and what keys and typed lists mean.

use crate::accuracy;
use crate::backtest::DailySignal;
use crate::binary64;
use crate::binary64::{Real, ONE_BITS};
use crate::charts;
use crate::constants::{
    FIVE, FIVE_HUNDREDTHS, HALF, HUNDRED, NEGATIVE_INFINITY, POSITIVE_INFINITY, TENTH,
};
use crate::counting;
use crate::desktop;
use crate::explorer;
use crate::explorer::ChartView;
use crate::form;
use crate::order;
use crate::rounding::INFINITY_FIELD;
use crate::text;
use crate::utils;
use crate::utils::Regime;
use vstd::prelude::*;

verus! {

/// Law: the extremes of values that are numbers are two of them, and all lie between.
pub proof fn law_extremes_bound_all_values(values: Seq<Real>)
    requires
        values.len() > 0,
        forall|i: int| 0 <= i < values.len() ==> (#[trigger] values[i]).finite(),
    ensures
        ({
            let (low, high) = charts::extremes(values);
            &&& values.contains(low) && values.contains(high)
            &&& forall|i: int|
                0 <= i < values.len() ==> low.value() <= (#[trigger] values[i]).value()
                    <= high.value()
        }),
{
    lemma_extremes(values, values.len() as int);
}

proof fn lemma_extremes(values: Seq<Real>, n: int)
    requires
        0 < n <= values.len(),
        forall|i: int| 0 <= i < values.len() ==> (#[trigger] values[i]).finite(),
    ensures
        ({
            let low = charts::least(values, Real { bits: POSITIVE_INFINITY }, n);
            let high = charts::greatest(values, Real { bits: NEGATIVE_INFINITY }, n);
            &&& low.finite() && high.finite()
            &&& values.contains(low) && values.contains(high)
            &&& forall|i: int|
                0 <= i < n ==> low.value() <= (#[trigger] values[i]).value() <= high.value()
        }),
    decreases n,
{
    let x = values[n - 1];
    if n > 1 {
        lemma_extremes(values, n - 1);
    } else {
        binary64::lemma_field_order(x.field(), INFINITY_FIELD as nat);
        assert((Real { bits: NEGATIVE_INFINITY }).field() == INFINITY_FIELD);
        assert((Real { bits: POSITIVE_INFINITY }).field() == INFINITY_FIELD);
        assert(charts::least(values, Real { bits: POSITIVE_INFINITY }, 0) == (Real {
            bits: POSITIVE_INFINITY,
        }));
        assert(charts::greatest(values, Real { bits: NEGATIVE_INFINITY }, 0) == (Real {
            bits: NEGATIVE_INFINITY,
        }));
    }
    assert(values.contains(x));
}

/// Law: a chart shows the entries that its view asks for, as far as there are any. It begins
/// where the view does, or at the last entry where the view lies behind it, and shows one
/// entry at least.
pub proof fn law_visible_entries_exist(start: int, len: int, n: int)
    requires
        0 <= start,
        0 <= len,
        0 < n,
    ensures
        ({
            let (first, shown) = charts::visible_part(start, len, n);
            &&& start < n ==> first == start
            &&& start >= n ==> first == n - 1
            &&& first + shown <= n
            &&& len == 0 ==> shown == 1
            &&& len > 0 ==> shown == counting::those(
                n,
                |i: int| first <= i < first + len,
            ).len()
        }),
{
    let (first, shown) = charts::visible_part(start, len, n);
    crate::engine_laws::law_shown_are_those_there_are(first, len, n);
}

/// Law: a view that lies inside the result and holds its cursor stays where it is; a move
/// inside the result moves it by as much as was asked for, and the opposite move undoes it.
pub proof fn law_views_move_as_asked(view: ChartView, n: int, delta: int)
    requires
        1 <= view.len <= n <= usize::MAX,
        view.start + view.len <= n,
        view.start <= view.cursor < view.start + view.len,
    ensures
        view.with_cursor_shown(n) == view,
        0 <= view.start + delta && view.start + delta + view.len <= n && view.start + delta
            <= view.cursor < view.start + delta + view.len ==> {
            let moved = view.panned(n, delta);
            &&& moved.start == view.start + delta
            &&& moved.len == view.len && moved.cursor == view.cursor
            &&& moved.panned(n, -delta) == view
        },
        0 <= view.cursor + delta < n ==> view.cursor_moved(n, delta).cursor == view.cursor
            + delta && view.cursor_moved(n, delta).len == view.len,
        view.cursor + delta < 0 ==> view.cursor_moved(n, delta).cursor == 0,
        view.cursor + delta >= n ==> view.cursor_moved(n, delta).cursor == n - 1,
        view.start <= view.cursor + delta < view.start + view.len
            ==> view.cursor_moved(n, delta).start == view.start,
{
}

/// Law: zooming makes a view a quarter longer or shorter, of 20 signals at least and of all
/// at most.
pub proof fn law_zoom_changes_by_a_quarter(view: ChartView, n: int, wider: bool)
    requires
        20 <= n <= usize::MAX,
        view.len < 0x30_0000,
    ensures
        ({
            let len = view.zoomed(n, wider).len as int;
            let asked = if wider {
                view.len + view.len as int / 4
            } else {
                view.len as int * 3 / 4
            };
            &&& 20 <= asked <= n ==> len == asked
            &&& asked < 20 ==> len == 20
            &&& asked > n ==> len == n
        }),
{
    lemma_single_small(view.len as nat);
    lemma_single_small(view.len as nat * 5);
    lemma_single_small(view.len as nat * 3);
}

proof fn lemma_single_small(x: nat)
    requires
        x < 0x100_0000,
    ensures
        explorer::single(x) == x,
{
    vstd::arithmetic::power2::lemma2_to64();
    assert(explorer::single_scale(x) == 0);
    assert(x / 1 == x && x % 1 == 0);
}

/// Law: a step moves a whole number in a field by the step of that field, as far as its
/// bounds reach, and it never leaves them.
pub proof fn law_nudges_step_within_bounds(field: int, s: Seq<char>, up: bool)
    ensures
        form::nudged_integer(field, s, up) is Some <==> form::integer_in(field, s) is Some && (
        field == form::WINDOW || field == form::REFIT || field == form::CAPITAL || field
            == form::SEED),
        form::nudged_integer(field, s, up) matches Some(v) ==> {
            let before = form::integer_in(field, s)->0;
            let (step, low, high): (int, int, int) = if field == form::WINDOW {
                (10, 60, 2000)
            } else if field == form::REFIT {
                (5, 1, 100)
            } else if field == form::CAPITAL {
                (1000, 1000, 1_000_000)
            } else {
                (1, 0, u64::MAX as int)
            };
            let by = if up {
                step
            } else {
                -step
            };
            &&& low <= v <= high
            &&& low <= before + by <= high ==> v - before == by
            &&& before + by < low ==> v == low
            &&& before + by > high ==> v == high
        },
{
}

/// The whole number that a piece of a list holds, if it holds one.
pub open spec fn number_in(piece: Seq<char>) -> Option<nat> {
    text::natural_of_text(text::trimmed_text(piece), u64::MAX as nat)
}

/// Law: the seeds in a list are the numbers among its pieces, each of them, in order.
pub proof fn law_seeds_are_the_numbers_listed(pieces: Seq<Seq<char>>, n: int, k: int)
    requires
        0 <= n <= pieces.len(),
    ensures
        ({
            let p = |i: int| number_in(pieces[i]) is Some;
            let seeds = form::seeds_among(pieces, n);
            &&& seeds.len() == counting::those(n, p).len()
            &&& counting::in_order(n, p).len() == seeds.len()
            &&& 0 <= k < seeds.len() ==> seeds[k] == number_in(
                pieces[counting::in_order(n, p)[k]],
            )->0 as u64
        }),
    decreases n,
{
    counting::lemma_those(n, |i: int| number_in(pieces[i]) is Some);
    if n > 0 {
        law_seeds_are_the_numbers_listed(pieces, n - 1, k);
    }
}

/// Law: the tickers in a list are its pieces that are not blank, each of them, trimmed and in
/// order.
pub proof fn law_tickers_are_the_pieces_listed(pieces: Seq<Seq<char>>, n: int, k: int)
    requires
        0 <= n <= pieces.len(),
    ensures
        ({
            let p = |i: int| text::trimmed_text(pieces[i]).len() > 0;
            let tickers = form::tickers_among(pieces, n);
            &&& tickers.len() == counting::those(n, p).len()
            &&& counting::in_order(n, p).len() == tickers.len()
            &&& 0 <= k < tickers.len() ==> tickers[k] == text::trimmed_text(
                pieces[counting::in_order(n, p)[k]],
            )
        }),
    decreases n,
{
    counting::lemma_those(n, |i: int| text::trimmed_text(pieces[i]).len() > 0);
    if n > 0 {
        law_tickers_are_the_pieces_listed(pieces, n - 1, k);
    }
}

/// Law: the pointer picks the nearest of the shown days: half a day off at most where it
/// points between the first and the last of them, and else the one at that end.
pub proof fn law_pointer_picks_the_nearest_day(first: int, shown: int, x: Real)
    requires
        x.finite(),
        0 < shown <= 0x4000_0000_0000_0000,
        0 <= first,
    ensures
        ({
            let day = desktop::pointed_day(first, shown, x) - first;
            let one = binary64::one_in_units() as int;
            &&& 0 <= day < shown
            &&& 0 <= x.value() <= (shown - 1) * one ==> 2 * accuracy::apart(x.value(), day * one)
                <= one
            &&& x.value() < 0 ==> day == 0
            &&& x.value() > (shown - 1) * one ==> day == shown - 1
        }),
{
    let one = binary64::one_in_units() as int;
    vstd::arithmetic::power2::lemma_pow2_pos(1074);
    let m = x.magnitude() as int;
    let whole = (2 * m + one) / (2 * one);
    vstd::arithmetic::div_mod::lemma_fundamental_div_mod(2 * m + one, 2 * one);
    let rest = (2 * m + one) % (2 * one);
    assert(2 * m + one == 2 * (whole * one) + rest) by (nonlinear_arith)
        requires
            2 * m + one == (2 * one) * whole + rest,
    ;
    assert(whole >= 0) by (nonlinear_arith)
        requires
            2 * m + one == 2 * (whole * one) + rest,
            m >= 0,
            one > 0,
            rest < 2 * one,
    ;
    let last = shown - 1;
    if m <= last * one {
        assert(whole <= last) by (nonlinear_arith)
            requires
                2 * m + one == 2 * (whole * one) + rest,
                m <= last * one,
                rest >= 0,
                one > 0,
        ;
    } else {
        assert(whole >= last) by (nonlinear_arith)
            requires
                2 * m + one == 2 * (whole * one) + rest,
                m > last * one,
                rest < 2 * one,
                one > 0,
        ;
    }
}

/// Law: the reading of a day parts its positions at half of the full one.
pub proof fn law_readings_part_at_half(position: Real)
    ensures
        ({
            let one = binary64::one_in_units() as int;
            let long = !position.nan() && 2 * position.value() > one;
            let short = !position.nan() && 2 * position.value() < -one;
            let reading = desktop::reading_text(position);
            &&& long ==> reading == "BUY / GO LONG (bullish from positive bubble score)"@
            &&& short ==> reading
                == "SELL / GO SHORT (bearish / bubble risk from negative score)"@
            &&& !long && !short ==> reading == "HOLD / NEUTRAL (flat, no strong signal)"@
        }),
{
    crate::lppl::lemma_half_and_thirty();
    order::lemma_signed(true, HALF as nat);
}

/// Law: the equity of holding is shown for the days that were asked for and that the curve
/// reaches.
pub proof fn law_held_points_follow_the_curve(
    curve: Seq<Real>,
    start: int,
    k: int,
    capital: Real,
    i: int,
)
    requires
        0 <= start,
        0 <= k,
    ensures
        ({
            let points = desktop::held_points(curve, start, k, capital);
            &&& 0 <= i < points.len() <==> 0 <= i < k && start + i + 1 < curve.len()
            &&& 0 <= i < points.len() ==> points[i].0 == Real::of_integer(i) && points[i].1
                == curve[start + i + 1].times(capital)
        }),
{
}

/// Law: a step moves a number in a field by 0.05 for a threshold and by 1 for a cost, up or
/// down, and holds it between 0 and 5, or 0 and 100. Other fields hold no such number.
pub proof fn law_nudges_of_numbers(field: int, up: bool, number: Real)
    requires
        number.finite(),
    ensures
        form::nudged_number(field, up, number) is Some <==> field == form::LONG || field
            == form::SHORT || field == form::COST,
        form::nudged_number(field, up, number) matches Some((r, decimals)) ==> {
            let (step, limit) = if field == form::COST {
                (Real { bits: ONE_BITS }, Real { bits: HUNDRED })
            } else {
                (Real { bits: FIVE_HUNDREDTHS }, Real { bits: FIVE })
            };
            let free = if up {
                number.plus(step)
            } else {
                number.minus(step)
            };
            &&& decimals == if field == form::COST {
                1u8
            } else {
                2u8
            }
            &&& free.value() < 0 ==> r.value() == 0
            &&& free.value() > limit.value() ==> r == limit
            &&& 0 < free.value() <= limit.value() ==> r == free
            &&& 0 <= r.value() <= limit.value()
        },
{
    if field == form::COST {
        lemma_stepped(number, up, ONE_BITS, HUNDRED);
    } else {
        lemma_stepped(number, up, FIVE_HUNDREDTHS, FIVE);
    }
}

proof fn lemma_stepped(number: Real, up: bool, step: u64, limit: u64)
    requires
        number.finite(),
        0 < step < INFINITY_FIELD,
        0 < limit < INFINITY_FIELD,
    ensures
        ({
            let r = form::stepped(number, up, step, limit);
            let free = if up {
                number.plus(Real { bits: step })
            } else {
                number.minus(Real { bits: step })
            };
            let end = Real { bits: limit };
            &&& !r.nan()
            &&& free.value() < 0 ==> r.value() == 0
            &&& free.value() > end.value() ==> r == end
            &&& 0 < free.value() <= end.value() ==> r == free
            &&& 0 <= r.value() <= end.value()
        }),
{
    let one = Real { bits: ONE_BITS };
    let by = Real { bits: step };
    let unit = binary64::one_in_units();
    order::lemma_one();
    binary64::lemma_zero();
    vstd::arithmetic::power2::lemma_pow2_pos(1074);
    binary64::lemma_field_order(0, limit as nat);
    order::lemma_signed(true, ONE_BITS as nat);
    order::lemma_signed(true, step as nat);
    order::lemma_round_identity(step as nat, unit);
    assert(unit * by.magnitude() == by.magnitude() * unit) by (nonlinear_arith);
    assert(one.times(by) == by);
    assert(one.negated().times(by) == by.negated());
    order::lemma_plus_value(number, by);
    order::lemma_plus_value(number, by.negated());
}

/// Law: letters ask for the same in either case. `h` and `l` move the view 20 signals back
/// and forth, `k` and `j` the cursor by one, `[` and `]` widen and narrow the view, and `-`
/// and `+` step a number down and up.
pub proof fn law_commands_come_in_pairs(c: char)
    ensures
        explorer::command_of(c) == Some(explorer::Command::Pan((-20) as i32)) <==> c == 'h' || c
            == 'H',
        explorer::command_of(c) == Some(explorer::Command::Pan(20)) <==> c == 'l' || c == 'L',
        explorer::command_of(c) == Some(explorer::Command::MoveCursor((-1) as i32)) <==> c == 'k'
            || c == 'K',
        explorer::command_of(c) == Some(explorer::Command::MoveCursor(1)) <==> c == 'j' || c
            == 'J',
        explorer::command_of(c) == Some(explorer::Command::Zoom { wider: true }) <==> c == '[',
        explorer::command_of(c) == Some(explorer::Command::Zoom { wider: false }) <==> c == ']',
        explorer::command_of(c) == Some(
            explorer::Command::Ask(explorer::Request::Nudge { up: true }),
        ) <==> c == '+' || c == '=',
        explorer::command_of(c) == Some(
            explorer::Command::Ask(explorer::Request::Nudge { up: false }),
        ) <==> c == '-' || c == '_',
        explorer::command_of(c) == Some(explorer::Command::Ask(explorer::Request::Fetch)) <==> c
            == 'f' || c == 'F',
        explorer::command_of(c) == Some(explorer::Command::Ask(explorer::Request::Run)) <==> c
            == 'r' || c == 'R',
        explorer::command_of(c) == Some(explorer::Command::Ask(explorer::Request::Export)) <==> c
            == 'e' || c == 'E',
        explorer::command_of(c) == Some(explorer::Command::Quit) <==> c == 'q' || c == 'Q',
        explorer::command_of(c) == Some(explorer::Command::Reset) <==> c == '0',
        explorer::command_of(c) == Some(explorer::Command::Help) <==> c == '?',
{
}

/// Law: toggling a series changes whether it is shown, and nothing else; toggling it again
/// undoes that.
pub proof fn law_toggles_undo_themselves(
    view: ChartView,
    signals: Option<usize>,
    series: explorer::ChartSeries,
)
    ensures
        ({
            let toggle = explorer::Command::Toggle(series);
            let once = explorer::commanded_view(view, signals, toggle);
            &&& explorer::commanded_view(once, signals, toggle) == view
            &&& once != view
            &&& once.start == view.start && once.len == view.len && once.cursor == view.cursor
            &&& once.show_price != view.show_price <==> series == explorer::ChartSeries::Price
            &&& once.show_score != view.show_score <==> series == explorer::ChartSeries::Score
            &&& once.show_equity != view.show_equity <==> series == explorer::ChartSeries::Equity
        }),
{
}

/// Law: the colours of a price follow its positions. A position is taken up where it differs
/// from the one taken up last by more than 0.1; each shown signal stands, with its number
/// and its close, among those of the regime that was taken up last.
pub proof fn law_colours_follow_the_positions(
    signals: Seq<DailySignal>,
    start: int,
    n: int,
    regime: Regime,
    k: int,
)
    requires
        n >= 0,
    ensures
        ({
            let p = |i: int| utils::colouring(signals, start, i + 1).1 == regime;
            let points = utils::regime_points(signals, start, n, regime);
            &&& points.len() == counting::those(n, p).len()
            &&& counting::in_order(n, p).len() == points.len()
            &&& 0 <= k < points.len() ==> {
                let i = counting::in_order(n, p)[k];
                points[k] == (Real::of_integer(i), signals[start + i].close)
            }
        }),
        n > 0 ==> {
            let (before, old_regime) = utils::colouring(signals, start, n - 1);
            let (after, new_regime) = utils::colouring(signals, start, n);
            let position = signals[start + n - 1].position;
            let moved = position.minus(before);
            let taken = !moved.nan() && moved.magnitude() > (Real { bits: TENTH }).magnitude();
            &&& taken ==> after == position && new_regime == utils::regime_of(position)
            &&& !taken ==> after == before && new_regime == old_regime
        },
        n == 0 ==> utils::colouring(signals, start, n).0.value() == 0 && utils::colouring(
            signals,
            start,
            n,
        ).1 == Regime::Flat,
    decreases n,
{
    binary64::lemma_zero();
    counting::lemma_those(n, |i: int| utils::colouring(signals, start, i + 1).1 == regime);
    if n > 0 {
        law_colours_follow_the_positions(signals, start, n - 1, regime, k);
        let before = utils::colouring(signals, start, n - 1).0;
        let moved = signals[start + n - 1].position.minus(before);
        if moved.nan() {
            assert(moved.absolute().nan());
        } else {
            order::lemma_signed(false, moved.field());
        }
    }
}

/// Law: a view moves no further than it has to. A cursor before it becomes the first signal
/// shown, one behind it the last; zooming keeps the middle of the view as long as there is
/// room and the cursor stays in it. A view that is fitted begins at the first signal, shows
/// up to the limit, and has its cursor in the middle of the signals.
pub proof fn law_views_move_no_further_than_needed(
    view: ChartView,
    n: int,
    wider: bool,
    limit: int,
)
    requires
        20 <= n <= usize::MAX,
        1 <= view.len <= n,
        view.start + view.len <= n,
        view.cursor < n,
        0 <= limit,
    ensures
        view.cursor < view.start && view.cursor + view.len <= n ==> view.with_cursor_shown(
            n,
        ).start == view.cursor,
        view.cursor >= view.start + view.len ==> {
            let shown = view.with_cursor_shown(n);
            shown.start + shown.len - 1 == view.cursor
        },
        ({
            let zoomed = view.zoomed(n, wider);
            let middle = view.start + view.len as int / 2;
            let first = middle - zoomed.len as int / 2;
            0 <= first && first + zoomed.len <= n && first <= view.cursor < first + zoomed.len
                ==> zoomed.start == first
        }),
        ({
            let fitted = view.fitted(n, limit);
            &&& fitted.start == 0
            &&& limit <= n ==> fitted.len == limit
            &&& limit > n ==> fitted.len == n
            &&& fitted.cursor == n / 2
            &&& fitted.show_price == view.show_price && fitted.show_score == view.show_score
                && fitted.show_equity == view.show_equity
        }),
{
}

} // verus!
