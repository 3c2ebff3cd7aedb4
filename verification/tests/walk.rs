use hlpll_backtester::backtest::{
    apply_confidence, compute_max_drawdown, decide_position, position_for_score, run_backtest,
    sharpe_of, BacktestResult,
};
use hlpll_backtester::binary64::Real;
use hlpll_backtester::config::{BacktestConfig, PositionBias};
use hlpll_backtester::data::PriceBar;
use hlpll_backtester::dates::Date;
use hlpll_backtester::hlppl_signals::SignalPoint;

fn num(x: f64) -> Real {
    Real { bits: x.to_bits() }
}

fn float(r: Real) -> f64 {
    f64::from_bits(r.bits)
}

fn floats(v: &[Real]) -> Vec<f64> {
    v.iter().map(|r| float(*r)).collect()
}

fn bars(prices: &[f64]) -> Vec<PriceBar> {
    prices
        .iter()
        .enumerate()
        .map(|(i, p)| PriceBar {
            date: Date { epoch_day: 1000 + i as i32 },
            open: num(*p),
            high: num(*p),
            low: num(*p),
            close: num(*p + 7.0),
            adj_close: num(*p),
            volume: num(10.0 * i as f64),
        })
        .collect()
}

fn points(scores: &[f64]) -> Vec<SignalPoint> {
    scores
        .iter()
        .map(|s| SignalPoint {
            bubble_score: num(*s),
            eps_norm: num(s / 2.0),
            hype_volume: num(0.1),
            sentiment: num(0.2),
        })
        .collect()
}

fn prices(n: usize) -> Vec<f64> {
    (0..n).map(|i| 50.0 + 10.0 * ((i as f64) * 0.7).sin() + 0.1 * i as f64).collect()
}

fn scores(n: usize) -> Vec<f64> {
    (0..n).map(|i| 1.2 * ((i as f64) * 0.31).sin()).collect()
}

fn decided(score: f64, confidence: Option<f64>, cfg: &BacktestConfig) -> f64 {
    let max = float(cfg.max_position);
    let raw = if score > float(cfg.long_threshold) {
        max
    } else if score < -float(cfg.short_threshold) {
        -max
    } else {
        0.0
    };
    let mut target = if cfg.invert_signal { -raw } else { raw };
    target = match cfg.position_bias {
        PositionBias::LongOnly => target.max(0.0),
        PositionBias::ShortOnly => target.min(0.0),
        PositionBias::LongShort => target,
    };
    if let Some(c) = confidence {
        if cfg.use_confidence_for_flat && c > float(cfg.confidence_flat_threshold) {
            target = 0.0;
        }
        if cfg.use_confidence_for_sizing && target.abs() > 1e-9 {
            target *= (c / 100.0).clamp(0.2, 1.0);
        }
    }
    target
}

struct Expected {
    equity: Vec<f64>,
    hold: Vec<f64>,
    positions: Vec<f64>,
    changes: Vec<f64>,
    hold_changes: Vec<f64>,
    trades: usize,
}

fn expected_walk(
    p: &[f64],
    s: &[f64],
    confidences: &[Option<f64>],
    cfg: &BacktestConfig,
) -> Expected {
    let w = cfg.lookback_days;
    let mut r = Expected {
        equity: vec![1.0],
        hold: vec![1.0],
        positions: vec![],
        changes: vec![],
        hold_changes: vec![],
        trades: 0,
    };
    let mut position = 0.0f64;
    for i in w..p.len() {
        let c = if cfg.enable_bubble_analysis { confidences[i - w] } else { None };
        let target = decided(s[i - w], c, cfg);
        let trade = (target - position).abs() > 1e-6;
        if trade {
            r.trades += 1;
        }
        let mut change = 0.0;
        if i > 0 {
            let ret = if p[i - 1] > 0.0 { p[i] / p[i - 1] - 1.0 } else { 0.0 };
            change = position * ret;
            if trade {
                change -= (float(cfg.cost_bps) / 10000.0).abs();
            }
            r.hold_changes.push(ret);
            r.changes.push(change);
            r.hold.push(r.hold.last().unwrap() * (1.0 + ret));
        }
        r.equity.push(r.equity.last().unwrap() * (1.0 + change));
        r.positions.push(target);
        position = target;
    }
    r
}

fn sharpe(v: &[f64]) -> f64 {
    if v.len() <= 5 {
        return 0.0;
    }
    let n = v.len() as f64;
    let mut sum = 0.0;
    for x in v {
        sum += x;
    }
    let mean = sum / n;
    let mut squares = 0.0;
    for x in v {
        squares += (x - mean) * (x - mean);
    }
    let std = (squares / n).sqrt();
    if std > 1e-12 {
        mean / std * 252.0f64.sqrt()
    } else {
        0.0
    }
}

fn drawdown(v: &[f64]) -> f64 {
    let mut peak = v[0];
    let mut worst = 0.0;
    for &e in v {
        if e > peak {
            peak = e;
        }
        let d = (peak - e) / peak;
        if d > worst {
            worst = d;
        }
    }
    worst
}

fn run(p: &[f64], s: &[f64], c: &[Option<f64>], cfg: &BacktestConfig) -> BacktestResult {
    let conf: Vec<Option<Real>> = c.iter().map(|x| x.map(num)).collect();
    let run = run_backtest("CAR", &bars(p), cfg, &points(s), &conf).unwrap();
    let growth = match run.daily_growth() {
        Some(g) => num(float(g).powf(252.0)),
        None => num(0.0),
    };
    run.into_result(growth)
}

fn check(p: &[f64], s: &[f64], c: &[Option<f64>], cfg: &BacktestConfig) -> BacktestResult {
    let got = run(p, s, c, cfg);
    let want = expected_walk(p, s, c, cfg);
    assert_eq!(floats(&got.equity), want.equity);
    assert_eq!(floats(&got.bh_equity), want.hold);
    let positions: Vec<f64> = got.signals.iter().map(|d| float(d.position)).collect();
    assert_eq!(positions, want.positions);
    assert_eq!(got.num_trades, want.trades);
    assert_eq!(float(got.sharpe), sharpe(&want.changes));
    assert_eq!(float(got.buy_hold_sharpe), sharpe(&want.hold_changes));
    assert_eq!(float(got.max_drawdown), drawdown(&want.equity));
    assert_eq!(float(got.total_return), want.equity.last().unwrap() - 1.0);
    let mut held = 1.0;
    for r in &want.hold_changes {
        held *= 1.0 + r;
    }
    assert_eq!(float(got.buy_hold_return), held - 1.0);
    let mut sum = 0.0;
    for x in &want.changes {
        sum += x;
    }
    let annual = (1.0 + sum / want.changes.len() as f64).powf(252.0) - 1.0;
    assert_eq!(float(got.annualized_return), annual);
    assert_eq!(got.n_days, p.len() - cfg.lookback_days);
    got
}

fn short_config() -> BacktestConfig {
    let mut cfg = BacktestConfig::default();
    cfg.lookback_days = 10;
    cfg
}

#[test]
fn plain_walk() {
    let cfg = short_config();
    let got = check(&prices(60), &scores(50), &[], &cfg);
    assert_eq!(got.ticker, "CAR");
    assert_eq!(got.start_date.epoch_day, 1010);
    assert_eq!(got.end_date.epoch_day, 1059);
    assert!(got.num_trades > 3);
    let d = &got.signals[5];
    assert_eq!(d.date.epoch_day, 1015);
    assert_eq!(float(d.close), prices(60)[15]);
    assert_eq!(float(d.volume), 150.0);
    assert_eq!(float(d.bubble_score), scores(50)[5]);
    assert_eq!(float(d.eps_norm), scores(50)[5] / 2.0);
    assert_eq!((float(d.hype_volume), float(d.sentiment)), (0.1, 0.2));
    assert_eq!(float(d.bubble_confidence), 0.0);
}

#[test]
fn walk_under_every_bias_and_inversion() {
    for bias in [PositionBias::LongShort, PositionBias::LongOnly, PositionBias::ShortOnly] {
        for invert in [false, true] {
            let mut cfg = short_config();
            cfg.position_bias = bias;
            cfg.invert_signal = invert;
            cfg.max_position = num(0.8);
            cfg.cost_bps = num(-25.0);
            let got = check(&prices(70), &scores(60), &[], &cfg);
            for d in &got.signals {
                match bias {
                    PositionBias::LongOnly => assert!(float(d.position) >= 0.0),
                    PositionBias::ShortOnly => assert!(float(d.position) <= 0.0),
                    PositionBias::LongShort => {}
                }
            }
        }
    }
}

#[test]
fn walk_under_confidences() {
    let conf: Vec<Option<f64>> = (0..50)
        .map(|i| if i % 7 == 3 { None } else { Some((i * 13 % 101) as f64) })
        .collect();
    for (flat, sizing) in [(true, false), (false, true), (true, true), (false, false)] {
        let mut cfg = short_config();
        cfg.enable_bubble_analysis = true;
        cfg.use_confidence_for_flat = flat;
        cfg.use_confidence_for_sizing = sizing;
        let got = check(&prices(60), &scores(50), &conf, &cfg);
        for (d, c) in got.signals.iter().zip(conf.iter()) {
            assert_eq!(float(d.bubble_confidence), c.unwrap_or(0.0));
            if flat && c.unwrap_or(0.0) > 50.0 {
                assert_eq!(float(d.position), 0.0);
            }
        }
    }
}

#[test]
fn walk_over_worthless_prices() {
    let mut p = prices(60);
    p[20] = 0.0;
    p[21] = -4.0;
    check(&p, &scores(50), &[], &short_config());
}

#[test]
fn walk_without_look_back() {
    let mut cfg = short_config();
    cfg.lookback_days = 0;
    let got = run(&prices(40), &scores(40), &[], &cfg);
    let want = expected_walk(&prices(40), &scores(40), &[], &cfg);
    assert_eq!(floats(&got.equity), want.equity);
    assert_eq!(got.equity.len(), 41);
    assert_eq!(got.bh_equity.len(), 40);
    assert_eq!(float(got.equity[1]), 1.0);
}

#[test]
fn flat_walks_earn_nothing() {
    let got = check(&prices(60), &[0.1; 50], &[], &short_config());
    assert_eq!(got.num_trades, 0);
    assert!(floats(&got.equity).iter().all(|e| *e == 1.0));
    assert_eq!(float(got.sharpe), 0.0);
    assert_eq!(float(got.max_drawdown), 0.0);
}

#[test]
fn walks_need_thirty_days_behind_the_look_back() {
    let cfg = short_config();
    let e = run_backtest("AMTX", &bars(&prices(39)), &cfg, &vec![], &vec![]).unwrap_err();
    assert_eq!(e.message("AMTX"), "Not enough data for AMTX: 39 bars < required 40");
    check(&prices(40), &scores(30), &[], &cfg);
}

#[test]
fn drawdown_is_the_worst_fall_from_a_peak() {
    let curve: Vec<Real> = [1.0, 1.5, 0.75, 2.0, 1.9].iter().map(|&x| num(x)).collect();
    assert_eq!(float(compute_max_drawdown(&curve)), 0.5);
    assert_eq!(float(compute_max_drawdown(&vec![num(3.0)])), 0.0);
    let longer: Vec<Real> = [1.0, 1.5, 0.75, 2.0, 1.9, 0.5].iter().map(|&x| num(x)).collect();
    assert_eq!(float(compute_max_drawdown(&longer)), 0.75);
}

#[test]
fn sharpe_needs_six_days_and_spread() {
    let v = [0.01, -0.02, 0.03, 0.005, 0.0, 0.011];
    let r: Vec<Real> = v.iter().map(|&x| num(x)).collect();
    assert_eq!(float(sharpe_of(&r)), sharpe(&v));
    assert_eq!(float(sharpe_of(&r[..5].to_vec())), 0.0);
    assert_eq!(float(sharpe_of(&vec![num(0.5); 8])), 0.0);
}

#[test]
fn positions_follow_thresholds() {
    let mut cfg = BacktestConfig::default();
    assert_eq!(float(position_for_score(num(0.55), &cfg)), 0.0);
    assert_eq!(float(position_for_score(num(0.56), &cfg)), 1.0);
    assert_eq!(float(position_for_score(num(-0.56), &cfg)), -1.0);
    assert_eq!(float(position_for_score(num(f64::NAN), &cfg)), 0.0);
    cfg.invert_signal = true;
    assert_eq!(float(position_for_score(num(0.56), &cfg)), -1.0);
    cfg.position_bias = PositionBias::LongOnly;
    assert_eq!(float(position_for_score(num(0.56), &cfg)), 0.0);
    assert_eq!(float(position_for_score(num(-0.56), &cfg)), 1.0);
}

#[test]
fn confidence_flattens_and_scales() {
    let mut cfg = BacktestConfig::default();
    assert_eq!(float(apply_confidence(num(1.0), num(99.0), &cfg)), 1.0);
    cfg.use_confidence_for_sizing = true;
    assert_eq!(float(apply_confidence(num(1.0), num(5.0), &cfg)), 0.2);
    assert_eq!(float(apply_confidence(num(-1.0), num(60.0), &cfg)), -0.6);
    assert_eq!(float(apply_confidence(num(1.0), num(250.0), &cfg)), 1.0);
    cfg.use_confidence_for_flat = true;
    assert_eq!(float(apply_confidence(num(1.0), num(50.0), &cfg)), 0.5);
    assert_eq!(float(apply_confidence(num(1.0), num(50.1), &cfg)), 0.0);
    assert_eq!(float(decide_position(num(0.9), None, &cfg)), 1.0);
    assert_eq!(float(decide_position(num(0.9), Some(num(80.0)), &cfg)), 0.0);
}

#[test]
fn walks_do_not_look_ahead() {
    let cfg = short_config();
    let a = run(&prices(60), &scores(50), &[], &cfg);
    let (mut p, mut s) = (prices(60), scores(50));
    for i in 41..60 {
        p[i] = 3.0;
        s[i - 10] = -2.0;
    }
    let b = run(&p, &s, &[], &cfg);
    assert_eq!(a.signals[..31], b.signals[..31]);
    assert_eq!(a.equity[..32], b.equity[..32]);
    assert_ne!(a.signals[31], b.signals[31]);
}

#[test]
fn equal_inputs_walk_alike() {
    let cfg = short_config();
    let a = run(&prices(60), &scores(50), &[], &cfg);
    let b = run(&prices(60), &scores(50), &[], &cfg);
    assert_eq!(a.equity, b.equity);
    assert_eq!(a.signals, b.signals);
}
