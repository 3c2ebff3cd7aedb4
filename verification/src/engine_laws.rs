//! What the positions, the capital and the advice of an engine mean.

use crate::backtest::{BacktestResult, DailySignal};
use crate::binary64;
use crate::binary64::{Real, ONE_BITS};
use crate::confidence::BubbleAnalysisResult;
use crate::confidence_laws;
use crate::config::BacktestConfig;
use crate::constants::{HALF, MINUS_HALF, TRILLIONTH};
use crate::counting;
use crate::engine;
use crate::engine::{CurrentSentiment, HlpplEngine, Trade};
use crate::order;
use crate::prediction::FutureBubblePrediction;
use crate::text;
use crate::utils;
use crate::utils::{Artifacts, Regime};
use vstd::prelude::*;

verus! {

/// On the day a position of half the full size or more is taken.
pub open spec fn enters(s: DailySignal) -> bool {
    s.trade && (s.position.nan() || 2 * s.position.magnitude() >= binary64::one_in_units())
}

/// The position taken on the day `entry` is held to the day `exit`: to the next day with a
/// trade, or to the last one where no trade comes.
pub open spec fn held_to(signals: Seq<DailySignal>, entry: int, exit: int) -> bool {
    &&& entry <= exit < signals.len()
    &&& forall|i: int| entry < i < exit ==> !(#[trigger] signals[i]).trade
    &&& exit < signals.len() - 1 ==> entry < exit && signals[exit].trade
}

/// Law: the trades of a result are those that begin on the days on which a position of some
/// size is taken, one for each, in order. A trade ends with the next change; it lasts from
/// its first to its last day, both counted. It returns what the equity has grown by
/// meanwhile, and earns that part of the capital.
#[verifier::spinoff_prover]
pub proof fn law_trades_begin_on_the_entry_days(
    trades: Seq<Trade>,
    result: BacktestResult,
    capital: Real,
    k: int,
)
    requires
        engine::are_legs(trades, result, capital),
        result.signals@.len() > 0,
        result.equity@.len() == result.signals@.len() + 1,
    ensures
        ({
            let signals = result.signals@;
            let equity = result.equity@;
            let n = signals.len() as int;
            let days = counting::in_order(n, |i: int| enters(signals[i]));
            &&& trades.len() == counting::those(n, |i: int| enters(signals[i])).len()
            &&& days.len() == trades.len()
            &&& 0 <= k < trades.len() ==> exists|exit: int| #[trigger]
                held_to(signals, days[k], exit) && {
                    let t = trades[k];
                    let s = signals[days[k]];
                    let (before, after) = (equity[days[k] + 1], equity[exit + 1]);
                    &&& t.entry_date == s.date
                    &&& t.exit_date == signals[exit].date
                    &&& t.bars_held == exit - days[k] + 1
                    &&& !s.position.nan() && s.position.value() > 0 ==> t.direction@ == "LONG"@
                    &&& s.position.nan() || s.position.value() <= 0 ==> t.direction@
                        == "SHORT"@
                    &&& !before.nan() && before.value() > (Real { bits: TRILLIONTH }).value()
                        ==> t.ret_pct == after.over(before).minus(Real { bits: ONE_BITS })
                    &&& before.nan() || before.value() <= (Real { bits: TRILLIONTH }).value()
                        ==> t.ret_pct.value() == 0
                    &&& t.pnl_usd == after.minus(before).times(capital)
                }
        }),
{
    let signals = result.signals@;
    let n = signals.len() as int;
    let days = counting::in_order(n, |i: int| enters(signals[i]));
    binary64::lemma_zero();
    lemma_entry_days(signals, n);
    counting::lemma_those(n, |i: int| enters(signals[i]));
    if 0 <= k < trades.len() {
        let entry = days[k];
        lemma_days_inside(signals, n, k);
        let exit = engine::exit_day(signals, entry + 1);
        lemma_exit(signals, entry + 1);
        assert(engine::is_leg(trades[k], signals, result.equity@, capital, entry));
        assert(held_to(signals, entry, exit));
    }
}

proof fn lemma_enters(s: DailySignal)
    ensures
        engine::is_entry(s) == enters(s),
{
    crate::lppl::lemma_half_and_thirty();
    if !s.position.nan() {
        order::lemma_signed(false, s.position.field());
    } else {
        assert(s.position.absolute().nan());
    }
}

proof fn lemma_entry_days(signals: Seq<DailySignal>, n: int)
    requires
        0 <= n <= signals.len(),
    ensures
        engine::entry_days(signals, n) == counting::in_order(n, |i: int| enters(signals[i])),
    decreases n,
{
    counting::lemma_those(n, |i: int| enters(signals[i]));
    if n > 0 {
        lemma_entry_days(signals, n - 1);
        lemma_enters(signals[n - 1]);
    }
}

proof fn lemma_days_inside(signals: Seq<DailySignal>, n: int, k: int)
    requires
        0 <= n <= signals.len(),
        0 <= k < counting::in_order(n, |i: int| enters(signals[i])).len(),
    ensures
        0 <= counting::in_order(n, |i: int| enters(signals[i]))[k] < n,
    decreases n,
{
    let p = |i: int| enters(signals[i]);
    counting::lemma_those(n, p);
    if n > 0 {
        let shorter = counting::in_order(n - 1, p);
        if k < shorter.len() {
            lemma_days_inside(signals, n - 1, k);
        }
    }
}

proof fn lemma_exit(signals: Seq<DailySignal>, j: int)
    requires
        0 < j <= signals.len(),
    ensures
        ({
            let exit = engine::exit_day(signals, j);
            &&& j - 1 <= exit < signals.len()
            &&& forall|i: int| j <= i < exit ==> !(#[trigger] signals[i]).trade
            &&& exit < signals.len() - 1 ==> j <= exit && signals[exit].trade
        }),
    decreases signals.len() - j,
{
    if j < signals.len() && !signals[j].trade {
        lemma_exit(signals, j + 1);
    }
}

/// Law: a position above half of the full one is long, one below minus half is short and any
/// other is flat, and all that speaks of a position says so.
pub proof fn law_sides_part_at_half(position: Real)
    ensures
        ({
            let one = binary64::one_in_units() as int;
            let long = !position.nan() && 2 * position.value() > one;
            let short = !position.nan() && 2 * position.value() < -one;
            &&& long ==> {
                &&& utils::regime_of(position) == Regime::Long
                &&& utils::side_text(position) == "LONG"@
                &&& utils::closing_remark(position) == "BUY / GO LONG (bullish)"@
                &&& engine::plain_recommendation(position) == "BUY / GO LONG"@
            }
            &&& short ==> {
                &&& utils::regime_of(position) == Regime::Short
                &&& utils::side_text(position) == "SHORT"@
                &&& utils::closing_remark(position) == "SELL / GO SHORT (bearish/risk)"@
                &&& engine::plain_recommendation(position) == "SELL / GO SHORT"@
            }
            &&& !long && !short ==> {
                &&& utils::regime_of(position) == Regime::Flat
                &&& utils::side_text(position) == "FLAT"@
                &&& utils::closing_remark(position) == "HOLD / NEUTRAL (flat)"@
                &&& engine::plain_recommendation(position) == "HOLD / FLAT"@
            }
        }),
{
    crate::lppl::lemma_half_and_thirty();
    order::lemma_signed(true, HALF as nat);
    assert((Real { bits: MINUS_HALF }) == Real::signed(true, HALF as nat));
}

/// Law: the capital grows with the equity. An equity of 1 leaves it as it was, one of more
/// does not lower a capital that is not negative, and one of less does not raise it.
/// Without a result the capital is the initial one.
pub proof fn law_capital_grows_with_the_equity(e: HlpplEngine)
    requires
        e.initial_capital.finite(),
        !e.initial_capital.negative(),
        e.result matches Some(r) ==> r.equity@.len() > 0 && r.equity@.last().finite()
            && !r.equity@.last().negative(),
    ensures
        e.result is None ==> e.capital_now() == e.initial_capital,
        e.result matches Some(r) ==> {
            let one = binary64::one_in_units();
            let last = r.equity@.last();
            &&& last.value() == one ==> e.capital_now() == e.initial_capital
            &&& last.value() >= one ==> e.initial_capital.at_most(e.capital_now())
            &&& last.value() <= one ==> e.capital_now().at_most(e.initial_capital)
        },
{
    if let Some(r) = e.result {
        let one = binary64::one_in_units();
        let x = e.initial_capital;
        let last = r.equity@.last();
        let unit = Real { bits: ONE_BITS };
        order::lemma_one();
        vstd::arithmetic::power2::lemma_pow2_pos(1074);
        order::lemma_times_commutes(last, x);
        order::lemma_times_commutes(unit, x);
        order::lemma_round_identity(x.field(), one);
        order::lemma_signed(false, x.field());
        assert(x.times(unit) == x);
        if last.value() >= one {
            order::lemma_times_order(unit, last, x);
        }
        if last.value() <= one {
            order::lemma_times_order(last, unit, x);
        }
        if last.value() == one {
            order::lemma_magnitude_reflects(last.field(), unit.field());
            order::lemma_magnitude_reflects(unit.field(), last.field());
        }
    }
}

/// Law: a prediction advises to stay flat where its confidence is above the configured
/// threshold, to be cautious where it is 45 per cent or more, and else to be neutral.
pub proof fn law_prediction_advises_by_its_confidence(
    p: FutureBubblePrediction,
    cfg: BacktestConfig,
)
    requires
        !p.bubble_confidence_index.nan(),
        confidence_laws::levels_apart(p.bubble_confidence_index, p.risk_level@),
    ensures
        ({
            let c = p.bubble_confidence_index.value();
            let one = binary64::one_in_units() as int;
            let high = !cfg.confidence_flat_threshold.nan() && c
                > cfg.confidence_flat_threshold.value();
            let advice = engine::prediction_recommendation(p, cfg);
            &&& high ==> advice == "HOLD / FLAT (high C1 bubble risk from prediction)"@
            &&& !high && c >= 45 * one ==> advice
                == "CAUTION / MONITOR (elevated future bubble probability)"@
            &&& !high && c < 45 * one ==> advice == "NEUTRAL (no strong future tc cluster)"@
        }),
{
    let level = p.risk_level@;
    let one = binary64::one_in_units() as int;
    let c = p.bubble_confidence_index.value();
    reveal_strlit("LOW RISK");
    reveal_strlit("MODERATE RISK");
    reveal_strlit("HIGH RISK");
    reveal_strlit("CRITICAL BUBBLE REGIME");
    reveal_strlit("CRITICAL");
    reveal_strlit("HIGH");
    if c < 45 * one {
        assert forall|i: int| 0 <= i < level.len() implies #[trigger] level[i] != 'H' && level[i]
            != 'C' by {}
        lemma_absent(level, "CRITICAL"@);
        lemma_absent(level, "HIGH"@);
    } else if c < 75 * one {
        assert("HIGH RISK"@.subrange(0, 4) =~= "HIGH"@);
        lemma_present(level, "HIGH"@);
    } else {
        assert("CRITICAL BUBBLE REGIME"@.subrange(0, 8) =~= "CRITICAL"@);
        lemma_present(level, "CRITICAL"@);
    }
}

proof fn lemma_absent(s: Seq<char>, part: Seq<char>)
    requires
        part.len() > 0,
        forall|i: int| 0 <= i < s.len() ==> #[trigger] s[i] != part[0],
    ensures
        !text::occurs_in(s, part),
{
    assert forall|i: int| !(#[trigger] text::stands_at(s, part, i)) by {
        if text::stands_at(s, part, i) {
            assert(s.subrange(i, i + part.len())[0] == s[i]);
        }
    }
}

proof fn lemma_present(s: Seq<char>, part: Seq<char>)
    requires
        part.len() <= s.len(),
        s.subrange(0, part.len() as int) == part,
    ensures
        text::occurs_in(s, part),
{
    assert(text::stands_at(s, part, 0));
}

/// Law: of the entries that a view of `len` from `start` asks for, as many are shown as
/// there are.
pub proof fn law_shown_are_those_there_are(start: int, len: int, n: int)
    requires
        0 <= start,
        0 <= len,
        0 <= n,
    ensures
        utils::shown_count(start, len, n) == counting::those(
            n,
            |i: int| start <= i < start + len,
        ).len(),
    decreases n,
{
    counting::lemma_those(n, |i: int| start <= i < start + len);
    if n > 0 {
        law_shown_are_those_there_are(start, len, n - 1);
    }
}

/// Law: what an engine sees is the snapshot at hand, else the prediction at hand, else the
/// analysis of the last bar together with the last signal; a confidence above the threshold
/// then stands against that signal where it may.
pub proof fn law_sentiment_prefers_the_snapshot(
    e: HlpplEngine,
    s: CurrentSentiment,
    a: BubbleAnalysisResult,
)
    requires
        e.is_sentiment(s, Some(a)),
        !a.bubble_confidence_index.nan(),
    ensures
        e.last_live_sentiment matches Some(live) ==> s.date == live.date && s.position
            == live.position && s.bubble_score == live.bubble_score && s.bubble_confidence
            == live.bubble_confidence && s.recommendation@ == live.recommendation@
            && s.risk_level@ == live.risk_level@ && s.median_predicted_peak
            == live.median_predicted_peak,
        e.last_live_sentiment is None ==> (e.last_future_prediction matches Some(p) ==> s.date
            == p.analysis_date && s.position.value() == 0 && s.bubble_confidence
            == p.bubble_confidence_index && s.risk_level@ == p.risk_level@
            && s.median_predicted_peak == p.median_predicted_date),
        e.last_live_sentiment is None && e.last_future_prediction is None ==> {
            let c = e.config;
            let high = c.use_confidence_for_flat && !c.confidence_flat_threshold.nan()
                && a.bubble_confidence_index.value() > c.confidence_flat_threshold.value();
            &&& s.date == a.analysis_date && s.risk_level@ == a.risk_level@
            &&& s.bubble_confidence == a.bubble_confidence_index
            &&& s.median_predicted_peak == a.median_predicted_date
            &&& high ==> s.recommendation@
                == "HOLD / FLAT (high bubble confidence - risk management override)"@
            &&& e.result is None ==> s.position.value() == 0 && s.bubble_score.value() == 0 && (
            !high ==> s.recommendation@ == "HOLD / FLAT"@)
            &&& e.result is Some && e.result->0.signals@.len() > 0 ==> {
                let last = e.result->0.signals@.last();
                &&& s.position == last.position && s.bubble_score == last.bubble_score
                &&& !high ==> s.recommendation@ == engine::plain_recommendation(last.position)
            }
        },
{
    binary64::lemma_zero();
}

/// Law: an export holds each signal day with its equity after that day, and the same equity
/// as a part of the capital.
pub proof fn law_export_holds_each_day(
    a: Artifacts,
    result: BacktestResult,
    outdir: Seq<char>,
    capital: Real,
    thousands: Seq<char>,
    i: int,
)
    requires
        utils::is_export(a, result, outdir, capital, thousands),
        result.equity@.len() == result.signals@.len() + 1,
        0 <= i < result.signals@.len(),
    ensures
        ({
            let s = result.signals@[i];
            let c = a.signals;
            &&& a.equity@.len() == result.signals@.len()
            &&& a.equity@[i] == result.equity@[i + 1]
            &&& a.dollar_equity@.len() == result.signals@.len()
            &&& a.dollar_equity@[i] == result.equity@[i + 1].times(capital)
            &&& a.dates@[i] == s.date && a.date_epoch@[i] == s.date.epoch_day
            &&& c.date_epoch@[i] == s.date.epoch_day && c.close@[i] == s.close
            &&& c.daily_return@[i] == s.daily_return && c.volume@[i] == s.volume
            &&& c.eps_norm@[i] == s.eps_norm && c.hype_volume@[i] == s.hype_volume
            &&& c.sentiment@[i] == s.sentiment && c.bubble_score@[i] == s.bubble_score
            &&& c.position@[i] == s.position
            &&& s.trade ==> c.trade@[i] == 1
            &&& !s.trade ==> c.trade@[i] == 0
        }),
{
    assert(utils::row_shows(a.signals, i, result.signals@[i]));
}

} // verus!
