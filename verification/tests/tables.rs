use hlpll_backtester::backtest::{BacktestResult, DailySignal};
use hlpll_backtester::binary64::Real;
use hlpll_backtester::charts::{equity_bounds, plot_bounds, price_bounds, score_bounds, visible};
use hlpll_backtester::data::bar_column_names;
use hlpll_backtester::dates::Date;
use hlpll_backtester::desktop::build_hold_series;
use hlpll_backtester::utils::{
    artifact_path, build_equity_series, build_regime_price_segments, build_score_series,
    capital_in_thousands, closing_recommendation, date_epochs, dollar_equity, exported_equity,
    export_backtest_artifacts, position_side, signal_column_names, signal_columns, signal_dates,
    summary_of,
};

fn num(x: f64) -> Real {
    Real { bits: x.to_bits() }
}

fn float(r: Real) -> f64 {
    f64::from_bits(r.bits)
}

fn nums(v: &[f64]) -> Vec<Real> {
    v.iter().map(|&x| num(x)).collect()
}

fn pairs(v: &[(Real, Real)]) -> Vec<(f64, f64)> {
    v.iter().map(|p| (float(p.0), float(p.1))).collect()
}

fn day(k: usize, position: f64) -> DailySignal {
    DailySignal {
        date: Date { epoch_day: 19000 + k as i32 },
        close: num(10.0 + k as f64),
        daily_return: num(0.01),
        volume: num(5.0),
        eps_norm: num(0.2),
        hype_volume: num(0.3),
        sentiment: num(0.4),
        bubble_score: num(0.1 * k as f64),
        position: num(position),
        trade: k % 2 == 1,
        bubble_confidence: num(9.0),
    }
}

fn days(positions: &[f64]) -> Vec<DailySignal> {
    positions.iter().enumerate().map(|(k, p)| day(k, *p)).collect()
}

fn result(positions: &[f64], equity: &[f64]) -> BacktestResult {
    BacktestResult {
        ticker: "AMTX".to_string(),
        start_date: Date { epoch_day: 19000 },
        end_date: Date { epoch_day: 19001 },
        n_days: positions.len(),
        signals: days(positions),
        equity: nums(equity),
        bh_equity: nums(equity),
        total_return: num(0.5),
        annualized_return: num(0.25),
        sharpe: num(1.5),
        max_drawdown: num(0.125),
        num_trades: 3,
        buy_hold_return: num(-0.5),
        buy_hold_sharpe: num(-1.0),
    }
}

#[test]
fn signals_become_columns() {
    let c = signal_columns(&days(&[0.0, 1.0, -1.0]));
    assert_eq!(c.date, vec!["2022-01-08", "2022-01-09", "2022-01-10"]);
    assert_eq!(c.date_epoch, vec![19000, 19001, 19002]);
    assert_eq!(c.close, nums(&[10.0, 11.0, 12.0]));
    assert_eq!(c.daily_return, nums(&[0.01; 3]));
    assert_eq!(c.volume, nums(&[5.0; 3]));
    assert_eq!(c.eps_norm, nums(&[0.2; 3]));
    assert_eq!(c.hype_volume, nums(&[0.3; 3]));
    assert_eq!(c.sentiment, nums(&[0.4; 3]));
    assert_eq!(c.bubble_score, nums(&[0.0, 0.1, 0.2]));
    assert_eq!(c.position, nums(&[0.0, 1.0, -1.0]));
    assert_eq!(c.trade, vec![0, 1, 0]);
}

#[test]
fn summaries_scale_shares_to_percent() {
    let s = summary_of(&result(&[0.0, 1.0], &[1.0, 1.0, 1.5]));
    assert_eq!(float(s.total_return), 50.0);
    assert_eq!(float(s.annualized_return), 25.0);
    assert_eq!(float(s.sharpe), 1.5);
    assert_eq!(float(s.max_drawdown), 12.5);
    assert_eq!(s.num_trades, 3);
    assert_eq!(float(s.buy_hold_return), -50.0);
    assert_eq!(float(s.buy_hold_sharpe), -1.0);
    assert_eq!(s.closing, Some((Date { epoch_day: 19001 }, "BUY / GO LONG (bullish)")));
    assert!(summary_of(&result(&[], &[1.0])).closing.is_none());
    assert_eq!(closing_recommendation(num(-0.6)), "SELL / GO SHORT (bearish/risk)");
    assert_eq!(closing_recommendation(num(0.5)), "HOLD / NEUTRAL (flat)");
    assert_eq!(position_side(num(0.6)), "LONG");
    assert_eq!(position_side(num(-0.6)), "SHORT");
    assert_eq!(position_side(num(0.0)), "FLAT");
}

#[test]
fn artifacts_are_named_and_scaled() {
    let r = result(&[0.0, 1.0], &[1.0, 1.25, 1.5]);
    assert_eq!(float(capital_in_thousands(num(25000.0))), 25.0);
    let a = export_backtest_artifacts(&r, "results", num(2000.0), "2");
    assert_eq!(a.signals_path, "results/AMTX_signals.csv");
    assert_eq!(a.equity_path, "results/AMTX_equity.csv");
    assert_eq!(a.dollar_path, "results/AMTX_equity_2k.csv");
    assert_eq!(a.plot_path, "results/AMTX_equity.png");
    assert_eq!(a.equity, nums(&[1.25, 1.5]));
    assert_eq!(a.dollar_equity, nums(&[2500.0, 3000.0]));
    assert_eq!(a.date_epoch, vec![19000, 19001]);
    assert_eq!(a.dates, signal_dates(&r.signals));
    assert_eq!(date_epochs(&a.dates), a.date_epoch);
    assert_eq!(a.signals.trade, vec![0, 1]);
    assert_eq!(artifact_path("a", "b", "c"), "a/b_c");
    let other = result(&[0.0, 1.0], &[1.0, 1.25]);
    assert_eq!(exported_equity(&other), nums(&[1.0, 1.25]));
    assert_eq!(dollar_equity(&nums(&[2.0]), num(3.0)), nums(&[6.0]));
}

#[test]
fn regimes_part_the_visible_days() {
    let s = days(&[0.0, 1.0, 1.05, 0.4, -1.0, -1.0, 0.0]);
    let (long, short, flat) = build_regime_price_segments(&s, 0, 100);
    assert_eq!(pairs(&long), vec![(1.0, 11.0), (2.0, 12.0)]);
    assert_eq!(pairs(&short), vec![(4.0, 14.0), (5.0, 15.0)]);
    assert_eq!(pairs(&flat), vec![(0.0, 10.0), (3.0, 13.0), (6.0, 16.0)]);
    let (long, short, flat) = build_regime_price_segments(&s, 2, 2);
    assert_eq!(pairs(&long), vec![(0.0, 12.0)]);
    assert!(short.is_empty());
    assert_eq!(pairs(&flat), vec![(1.0, 13.0)]);
    let drift = days(&[0.55, 0.5, 0.48, 0.3]);
    let (long, _, flat) = build_regime_price_segments(&drift, 0, 4);
    assert_eq!((long.len(), flat.len()), (3, 1));
}

#[test]
fn series_start_at_zero() {
    let r = result(&[0.0, 1.0, 1.0], &[1.0, 1.1, 1.2, 1.3]);
    assert_eq!(pairs(&build_score_series(&r.signals, 1, 9)), vec![(0.0, 0.1), (1.0, 0.2)]);
    assert_eq!(
        pairs(&build_equity_series(&r, 1, 2, num(100.0))),
        vec![(0.0, 1.2 * 100.0), (1.0, 1.3 * 100.0)]
    );
    assert_eq!(
        pairs(&build_hold_series(&r, 2, 5, num(100.0))),
        vec![(0.0, 1.3 * 100.0)]
    );
    for start in [3, 4, usize::MAX] {
        assert!(build_equity_series(&r, start, 5, num(100.0)).is_empty());
    }
    let short = result(&[0.0, 1.0, 1.0], &[1.0, 1.1]);
    assert_eq!(
        pairs(&build_equity_series(&short, 0, 3, num(100.0))),
        vec![(0.0, 1.1 * 100.0), (1.0, 100.0), (2.0, 100.0)]
    );
    assert_eq!(pairs(&build_hold_series(&short, 0, 3, num(100.0))).len(), 1);
}

#[test]
fn columns_have_names() {
    assert_eq!(
        signal_column_names(),
        vec![
            "date",
            "date_epoch",
            "close",
            "daily_return",
            "volume",
            "eps_norm",
            "hype_volume",
            "sentiment",
            "bubble_score",
            "position",
            "trade"
        ]
    );
    assert_eq!(
        bar_column_names(),
        vec!["date_epoch", "open", "high", "low", "close", "adj_close", "volume"]
    );
    let r = result(&[0.0, 1.0, 1.0], &[1.0, 1.1, 1.2, 1.3]);
    let a = export_backtest_artifacts(&r, "out", num(10000.0), "10");
    assert_eq!((a.date_column, a.equity_column, a.dollar_column), ("date_epoch", "equity", "equity_usd"));
}

#[test]
fn axes_leave_room() {
    let v = nums(&[2.0, 1.0, 4.0]);
    let (lo, hi) = plot_bounds(&v);
    assert_eq!((float(lo), float(hi)), (1.0 * 0.95, 4.0 * 1.05));
    let (lo, hi) = price_bounds(&v);
    assert_eq!((float(lo), float(hi)), (1.0 * 0.995, 4.0 * 1.005));
    let (lo, hi) = price_bounds(&nums(&[3.0, 3.0]));
    assert_eq!((float(lo), float(hi)), (2.0, 4.0));
    let (lo, hi) = price_bounds(&vec![]);
    assert_eq!((float(lo), float(hi)), (0.0 * 0.995, 1.0 * 1.005));
    let (lo, hi) = score_bounds(&vec![], num(0.5), num(0.6));
    assert_eq!((float(lo), float(hi)), (-0.6 - 0.5, 0.5 + 0.5));
    let (lo, hi) = score_bounds(&nums(&[0.1, -2.0]), num(0.5), num(0.6));
    assert_eq!((float(lo), float(hi)), (-2.0, 0.5 + 0.2));
    let (lo, hi) = equity_bounds(&vec![], num(100.0));
    assert_eq!((float(lo), float(hi)), (90.0, 110.0));
    let (lo, hi) = equity_bounds(&nums(&[100.0, 200.0]), num(100.0));
    assert_eq!((float(lo), float(hi)), (100.0 * 0.99, 200.0 * 1.01));
}

#[test]
fn visible_days_lie_inside() {
    assert_eq!(visible(0, 300, 120), (0, 120));
    assert_eq!(visible(100, 300, 120), (100, 20));
    assert_eq!(visible(500, 300, 120), (119, 1));
    assert_eq!(visible(0, 300, 0), (0, 1));
}
