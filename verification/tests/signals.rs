use hlpll_backtester::backtest::{run_backtest, BacktestRun};
use hlpll_backtester::binary64::Real;
use hlpll_backtester::config::{BacktestConfig, SignalMode};
use hlpll_backtester::data::PriceBar;
use hlpll_backtester::dates::Date;
use hlpll_backtester::fast_signals::{FastReply, FastSignals, FastTask};
use hlpll_backtester::hlppl_signals::{
    build_hype_series, build_paper_signal_series, build_sentiment_series, build_signal_series,
    hype_at, paper_windows, return_at, sentiment_at, series_points, FitRequest, SignalError,
    HYPE_WINDOW,
};
use hlpll_backtester::lppl::{LpplFit, LpplParams};

fn num(x: f64) -> Real {
    Real { bits: x.to_bits() }
}

fn float(r: Real) -> f64 {
    f64::from_bits(r.bits)
}

fn nums(v: &[f64]) -> Vec<Real> {
    v.iter().map(|&x| num(x)).collect()
}

fn floats(v: &[Real]) -> Vec<f64> {
    v.iter().map(|r| float(*r)).collect()
}

fn bars(prices: &[f64]) -> Vec<PriceBar> {
    prices
        .iter()
        .enumerate()
        .map(|(i, p)| PriceBar {
            date: Date { epoch_day: 1000 + i as i32 },
            open: num(*p),
            high: num(*p),
            low: num(*p),
            close: num(*p),
            adj_close: num(*p),
            volume: num(1000.0 + ((i * 7919) % 613) as f64),
        })
        .collect()
}

fn config(w: usize, stride: usize) -> BacktestConfig {
    let mut cfg = BacktestConfig::default();
    cfg.lookback_days = w;
    cfg.window_stride = stride;
    cfg
}

#[test]
fn windows_overlap_by_the_stride() {
    let cfg = config(4, 3);
    let got = paper_windows(&cfg, 12);
    let expected: Vec<FitRequest> = [0usize, 3, 6]
        .iter()
        .map(|&s| FitRequest {
            start: s,
            end: s + 4,
            seed: 42u64
                .wrapping_add((s as u64).wrapping_mul(131))
                .wrapping_add((s as u64 + 3).wrapping_mul(17)),
        })
        .collect();
    assert_eq!(got, expected);
    assert!(paper_windows(&cfg, 3).is_empty());
    assert_eq!(paper_windows(&config(4, 0), 6).len(), 3);
    let mut wrap = config(2, 1);
    wrap.random_seed = u64::MAX;
    assert_eq!(paper_windows(&wrap, 2)[0].seed, 16);
}

#[test]
fn changes_and_moods_of_bars() {
    let b = bars(&[10.0, 11.0, 0.0, 5.0]);
    assert_eq!(float(return_at(&b, 1)), 11.0 / 10.0 - 1.0);
    assert_eq!(float(return_at(&b, 2)), -1.0);
    assert_eq!(float(return_at(&b, 3)), 0.0);
    let mood = |r: f64| {
        let sign = if r == 0.0 { 0.0 } else { r.signum() };
        sign * 0.15 + (r * 0.3).clamp(-0.4, 0.4)
    };
    assert_eq!(mood(0.0), 0.0);
    let series = build_sentiment_series(&b);
    assert_eq!(
        floats(&series),
        vec![0.0, mood(11.0 / 10.0 - 1.0), mood(-1.0), mood(0.0)]
    );
    for i in 1..4 {
        assert_eq!(sentiment_at(&b, i, 60), series[i]);
    }
    assert_eq!(sentiment_at(&b, 0, 60), num(0.0));
    assert_eq!(build_sentiment_series(&vec![]), nums(&[0.0]));
    assert_eq!(build_sentiment_series(&bars(&[3.0])), nums(&[0.0]));
}

#[test]
fn hype_on_a_day_is_that_of_its_window() {
    let prices: Vec<f64> = (0..90).map(|i| 10.0 + i as f64).collect();
    let b = bars(&prices);
    assert_eq!(HYPE_WINDOW, 60);
    let series = build_hype_series(&b, HYPE_WINDOW);
    assert_eq!(series.len(), 90);
    for i in 0..90 {
        assert_eq!(hype_at(&b, i, HYPE_WINDOW), series[i]);
    }
}

#[test]
fn overlapping_residuals_are_averaged_and_normalized() {
    let cfg = config(3, 1);
    let b = bars(&[10.0, 10.5, 10.2, 11.0, 12.0]);
    let fits = vec![
        Some(nums(&[0.1, 0.2, 0.3])),
        Some(nums(&[0.4, -0.5, 0.6])),
        None,
    ];
    let hype = nums(&[0.0, 0.1, 0.2, -0.3, 0.4]);
    let s = build_paper_signal_series(&b, &cfg, &fits, hype.clone()).unwrap();
    let raw = vec![
        0.1,
        ((0.0 + 0.2) + 0.4) / 2.0,
        ((0.0 + 0.3) + -0.5) / 2.0,
        0.6,
        0.0,
    ];
    assert_eq!(floats(&s.raw_epsilon), raw);
    assert_eq!(s.signal_start, 2);
    assert_eq!(floats(&s.eps_norm), vec![0.0, 0.0, -1.0, 1.0, 0.0]);
    assert_eq!(s.hype, hype);
    assert_eq!(s.sentiment, build_sentiment_series(&b));
    let mood = floats(&s.sentiment);
    let expected = vec![
        0.0,
        0.0,
        -1.0 - 0.7 * 0.2 - 0.3 * mood[2],
        1.0 + 0.7 * -0.3 + 0.3 * mood[3],
        0.0 + 0.7 * 0.4 + 0.3 * mood[4],
    ];
    assert_eq!(floats(&s.bubble_score), expected);
    let days = series_points(&s, 3, 5);
    assert_eq!(days.len(), 2);
    assert_eq!(days[0].bubble_score, s.bubble_score[3]);
    assert_eq!(days[1].eps_norm, s.eps_norm[4]);
    assert_eq!(days[1].hype_volume, s.hype[4]);
    assert_eq!(days[0].sentiment, s.sentiment[3]);
}

#[test]
fn paper_shares_are_bounded_and_blind_to_the_future() {
    let cfg = config(3, 1);
    let b = bars(&[10.0, 10.5, 10.2, 11.0, 12.0]);
    let hype = nums(&[0.0; 5]);
    let mut fits = vec![
        Some(nums(&[0.1, 0.2, 0.3])),
        Some(nums(&[0.4, -0.5, 0.6])),
        Some(nums(&[0.0, 0.0, 9.0])),
    ];
    let x = build_paper_signal_series(&b, &cfg, &fits, hype.clone()).unwrap();
    fits[2] = Some(nums(&[0.0, 0.0, -70.0]));
    let y = build_paper_signal_series(&b, &cfg, &fits, hype).unwrap();
    assert_eq!(x.eps_norm[..4], y.eps_norm[..4]);
    for e in floats(&x.eps_norm) {
        assert!((-1.0..=1.0).contains(&e));
    }
}

#[test]
fn series_are_refused_without_bars_or_in_fast_mode() {
    let mut cfg = config(6, 1);
    let b = bars(&[1.0, 2.0]);
    let e = build_signal_series(&b, &cfg, &vec![], vec![]).unwrap_err();
    assert_eq!(e, SignalError::NotEnoughBars { need: 6, have: 2 });
    assert_eq!(e.message(), "Need at least 6 bars for LPPL window, have 2");
    cfg.signal_mode = SignalMode::Fast;
    let e = build_signal_series(&b, &cfg, &vec![], vec![]).unwrap_err();
    assert_eq!(e.message(), "Fast signal mode is filled incrementally in run_backtest");
}

fn fit(residuals: &[f64]) -> LpplFit {
    LpplFit {
        params: LpplParams {
            tc: num(50.0),
            m: num(0.5),
            omega: num(8.0),
            a: num(2.0),
            b: num(-0.5),
            c: num(0.1),
            phi: num(0.0),
        },
        sse: num(1.0),
        residuals: nums(residuals),
        times: nums(&[1.0, 2.0, 3.0]),
        n_points: 3,
    }
}

#[test]
fn fast_signals_refit_on_schedule_and_project_between() {
    let mut cfg = config(3, 1);
    cfg.signal_mode = SignalMode::Fast;
    cfg.refit_every = 4;
    let prices: Vec<f64> = (0..12).map(|i| 10.0 + (i % 3) as f64).collect();
    let b = bars(&prices);
    let mut state = FastSignals::new();
    let hype = num(0.25);

    assert_eq!(state.task(&b, &cfg, 3), FastTask::Refit(FitRequest { start: 1, end: 4, seed: 42 }));
    let p = state.step(&b, &cfg, 3, &FastReply::Fitted(None), hype);
    assert_eq!((float(p.bubble_score), float(p.eps_norm)), (0.0, 0.0));
    assert_eq!(p.hype_volume, hype);
    assert_eq!(p.sentiment, sentiment_at(&b, 3, 60));

    assert!(matches!(state.task(&b, &cfg, 4), FastTask::Refit(_)));
    let f = fit(&[0.2, -0.4, 0.1]);
    let params = f.params;
    let p = state.step(&b, &cfg, 4, &FastReply::Fitted(Some(f)), hype);
    assert_eq!(float(p.eps_norm), 0.25);
    let mood = float(p.sentiment);
    assert_eq!(float(p.bubble_score), 0.25 + 0.7 * 0.25 + 0.3 * mood);

    assert_eq!(
        state.task(&b, &cfg, 6),
        FastTask::Project { params, t: num(5.0), price: num(10.0) }
    );
    let reply = FastReply::Projected { log_price: num(2.5), predicted: num(3.5) };
    let p = state.step(&b, &cfg, 6, &reply, hype);
    assert_eq!(float(p.eps_norm), -1.0);
    assert_eq!(float(p.bubble_score), -1.0 - 0.7 * 0.25 - 0.3 * float(p.sentiment));
    let reply = FastReply::Projected { log_price: num(3.0), predicted: num(2.5) };
    let before = state.model.unwrap();
    let p = state.step(&b, &cfg, 6, &reply, hype);
    assert_eq!(float(p.eps_norm), 0.5);
    let after = state.model.unwrap();
    assert_eq!((before.params, before.t_end, before.refit_i), (after.params, after.t_end, 4));

    assert!(matches!(state.task(&b, &cfg, 7), FastTask::Refit(_)));
    state.step(&b, &cfg, 7, &FastReply::Fitted(None), hype);
    assert_eq!(state.model.unwrap().refit_i, 4);
}

#[test]
fn projected_prices_have_a_floor() {
    let mut cfg = config(1, 1);
    cfg.refit_every = 10;
    let b = bars(&[5.0, 5.0, -3.0]);
    let mut state = FastSignals::new();
    state.step(&b, &cfg, 1, &FastReply::Fitted(Some(fit(&[0.0]))), num(0.0));
    match state.task(&b, &cfg, 2) {
        FastTask::Project { price, t, .. } => {
            assert_eq!(float(price), 0.01);
            assert_eq!(float(t), 4.0);
        }
        other => panic!("{:?}", other),
    }
}

#[test]
fn fast_signals_do_not_look_ahead() {
    let mut cfg = config(3, 1);
    cfg.refit_every = 4;
    let prices: Vec<f64> = (0..12).map(|i| 10.0 + (i % 5) as f64).collect();
    let mut other = prices.clone();
    for p in other.iter_mut().skip(7) {
        *p = 1.0;
    }
    let (a, b) = (bars(&prices), bars(&other));
    let mut x = FastSignals::new();
    let mut y = FastSignals::new();
    for i in 3..7 {
        assert_eq!(x.task(&a, &cfg, i), y.task(&b, &cfg, i));
        assert_eq!(hype_at(&a, i, HYPE_WINDOW), hype_at(&b, i, HYPE_WINDOW));
        let reply = match x.task(&a, &cfg, i) {
            FastTask::Refit(w) => {
                assert_eq!(w.end, i + 1);
                FastReply::Fitted(Some(fit(&[0.1, -0.2, 0.05])))
            }
            FastTask::Project { .. } => {
                FastReply::Projected { log_price: num(2.0), predicted: num(1.9) }
            }
        };
        let p = x.step(&a, &cfg, i, &reply, num(0.1));
        let q = y.step(&b, &cfg, i, &reply, num(0.1));
        assert_eq!(p, q);
    }
    assert_eq!(x.model, y.model);
}

fn fast_run(b: &Vec<PriceBar>, cfg: &BacktestConfig) -> BacktestRun {
    let mut state = FastSignals::new();
    let points = (cfg.lookback_days..b.len())
        .map(|i| {
            let reply = match state.task(b, cfg, i) {
                FastTask::Refit(w) => {
                    let tail: Vec<f64> =
                        b[w.start..w.end].iter().map(|bar| float(bar.adj_close) - 11.5).collect();
                    FastReply::Fitted(Some(fit(&tail)))
                }
                FastTask::Project { t, price, .. } => FastReply::Projected {
                    log_price: num(float(price).ln()),
                    predicted: num(2.0 + 0.01 * float(t)),
                },
            };
            let hype = num(float(hype_at(b, i, HYPE_WINDOW)).tanh());
            state.step(b, cfg, i, &reply, hype)
        })
        .collect();
    run_backtest("CAR", b, cfg, &points, &vec![]).ok().unwrap()
}

#[test]
fn a_fast_run_of_fewer_bars_is_the_beginning_of_one_of_more() {
    let mut cfg = config(10, 1);
    cfg.signal_mode = SignalMode::Fast;
    cfg.refit_every = 4;
    let prices: Vec<f64> = (0..70).map(|i| 10.0 + ((i * 5) % 7) as f64 * 0.6).collect();
    let long = fast_run(&bars(&prices), &cfg);
    let short = fast_run(&bars(&prices[..45]), &cfg);
    assert_eq!(short.signals.len(), 35);
    for (s, l) in short.signals.iter().zip(long.signals.iter()) {
        assert_eq!((s.date, s.close, s.bubble_score), (l.date, l.close, l.bubble_score));
        assert_eq!((s.position, s.trade, s.hype_volume), (l.position, l.trade, l.hype_volume));
    }
    assert_eq!(short.equity[..], long.equity[..36]);
    let held = short.bh_equity.len();
    assert_eq!(short.bh_equity[..], long.bh_equity[..held]);
    assert!(short.num_trades <= long.num_trades);
}
