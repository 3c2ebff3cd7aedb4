use hlpll_backtester::backtest::DailySignal;
use hlpll_backtester::binary64::Real;
use hlpll_backtester::cli::{check_run, config_of, read_dates, RunFault, RunOptions};
use hlpll_backtester::config::{BacktestConfig, PositionBias, RunMode, SignalMode};
use hlpll_backtester::dates::Date;
use hlpll_backtester::desktop::{
    cursor_reading, first_config, view_labels, Controls, WindowView,
};
use hlpll_backtester::form::first_engine;

fn num(x: f64) -> Real {
    Real { bits: x.to_bits() }
}

fn float(r: Real) -> f64 {
    f64::from_bits(r.bits)
}

#[test]
fn first_controls() {
    let c = Controls::new();
    assert_eq!(c.ticker, "CAR");
    assert_eq!((c.window, c.refit_every), (180, 20));
    assert_eq!((float(c.long_thresh), float(c.short_thresh)), (0.65, 0.65));
    assert_eq!((float(c.cost_bps), float(c.initial_capital)), (8.0, 10000.0));
    assert!(c.enable_bubble_analysis && c.use_confidence_for_flat);
    assert_eq!(c.ensemble_seeds, "42");
    let (a, b) = c.dates().unwrap();
    assert_eq!((a.text(), b.text()), ("2022-01-01".to_string(), "2024-12-31".to_string()));
    let first = first_config();
    assert_eq!((first.lookback_days, first.refit_every), (180, 20));
    assert!(!first.enable_bubble_analysis);
}

#[test]
fn controls_become_a_config() {
    let mut c = Controls::new();
    c.position_bias = PositionBias::ShortOnly;
    c.invert_signal = true;
    c.random_seed = 9;
    c.ensemble_seeds = "1,2,x".to_string();
    c.run_mode = RunMode::HybridAnalysis;
    c.predict_horizon = 33;
    c.filter_m_max = num(0.8);
    let cfg = c.config();
    assert_eq!((cfg.lookback_days, cfg.refit_every), (180, 20));
    assert_eq!(cfg.position_bias, PositionBias::ShortOnly);
    assert!(cfg.invert_signal);
    assert_eq!(cfg.random_seed, 9);
    assert_eq!(cfg.ensemble_seeds, vec![1, 2]);
    assert_eq!(cfg.run_mode, RunMode::HybridAnalysis);
    assert_eq!(cfg.predict_horizon_days, 33);
    assert_eq!(float(cfg.filter_m_max), 0.8);
    assert!(!cfg.use_confidence_for_sizing);
    assert_eq!(float(cfg.max_position), 1.0);
    assert_eq!((cfg.window_stride, cfg.signal_mode), (5, SignalMode::Paper));
}

#[test]
fn bad_dates_are_named() {
    let mut c = Controls::new();
    c.start = "x".to_string();
    assert_eq!(c.dates().unwrap_err().message(), "Bad start date");
    c.start = "2022-01-01".to_string();
    c.end = "2022-02-30".to_string();
    assert_eq!(c.dates().unwrap_err().message(), "Bad end date");
}

#[test]
fn the_engine_follows_the_controls() {
    let mut e = first_engine();
    e.config.use_confidence_for_sizing = true;
    let mut c = Controls::new();
    c.ticker = "hous".to_string();
    c.start = "bad".to_string();
    c.end = "2023-06-30".to_string();
    c.window = 90;
    c.initial_capital = num(500.0);
    c.sync_engine(&mut e);
    assert_eq!(e.ticker, "HOUS");
    assert_eq!(e.start.text(), "2022-01-01");
    assert_eq!(e.end.text(), "2023-06-30");
    assert_eq!(e.config.lookback_days, 90);
    assert_eq!(float(e.initial_capital), 500.0);
    assert_eq!(e.config.ensemble_seeds, vec![42]);
    assert!(e.config.use_confidence_for_sizing);
}

#[test]
fn presets() {
    let mut c = Controls::new();
    c.preset_amtx();
    assert_eq!((c.ticker.as_str(), c.start.as_str()), ("AMTX", "2021-01-01"));
    c.window = 99;
    c.preset_car();
    assert_eq!((c.ticker.as_str(), c.start.as_str(), c.window), ("CAR", "2022-01-01", 180));
}

#[test]
fn the_window_view_follows_results_and_the_mouse() {
    let mut v = WindowView::new();
    assert_eq!((v.start, v.len, v.selected), (0, 400, 0));
    v.show_result(700);
    assert_eq!((v.start, v.len, v.selected), (0, 500, 350));
    v.show_result(10);
    assert_eq!((v.len, v.selected), (30, 5));
    v.fit(700);
    assert_eq!((v.start, v.len), (0, 600));
    v.point_at(100, 50, num(7.6));
    assert_eq!(v.selected, 108);
    v.point_at(100, 50, num(-3.0));
    assert_eq!(v.selected, 100);
    v.point_at(100, 50, num(1e12));
    assert_eq!(v.selected, 149);
    v.point_at(100, 50, num(f64::NAN));
    assert_eq!(v.selected, 100);
}

#[test]
fn inspected_days_are_read_out() {
    assert_eq!(cursor_reading(num(0.6)), "BUY / GO LONG (bullish from positive bubble score)");
    assert_eq!(
        cursor_reading(num(-0.6)),
        "SELL / GO SHORT (bearish / bubble risk from negative score)"
    );
    assert_eq!(cursor_reading(num(0.5)), "HOLD / NEUTRAL (flat, no strong signal)");
}

#[test]
fn days_are_labelled_by_date() {
    let s: Vec<DailySignal> = (0..2)
        .map(|k| DailySignal {
            date: Date { epoch_day: 19000 + k },
            close: num(1.0),
            daily_return: num(0.0),
            volume: num(0.0),
            eps_norm: num(0.0),
            hype_volume: num(0.0),
            sentiment: num(0.0),
            bubble_score: num(0.0),
            position: num(0.0),
            trade: false,
            bubble_confidence: num(0.0),
        })
        .collect();
    assert_eq!(view_labels(&s, 1, 2), vec!["2022-01-09", "1"]);
}

fn options() -> RunOptions {
    RunOptions {
        window: 250,
        window_stride: 5,
        signal_mode: "paper".to_string(),
        refit_every: 25,
        long_thresh: num(0.55),
        short_thresh: num(0.6),
        cost_bps: num(10.0),
        mode: "historical".to_string(),
        ensemble_seeds: "".to_string(),
        predict_horizon: 60,
        position_bias: "".to_string(),
        invert: false,
        enable_bubble_analysis: false,
        use_conf_flat: false,
        conf_flat_thresh: num(50.0),
        filter_m_min: num(0.1),
        filter_m_max: num(0.9),
        filter_omega_min: num(4.5),
        filter_omega_max: num(13.0),
    }
}

#[test]
fn options_become_a_config() {
    let c = config_of(&options());
    assert_eq!((c.lookback_days, c.window_stride, c.refit_every), (250, 5, 25));
    assert_eq!((float(c.long_threshold), float(c.short_threshold)), (0.55, 0.6));
    assert_eq!((float(c.cost_bps), float(c.max_position)), (10.0, 1.0));
    assert_eq!(c.signal_mode, SignalMode::Paper);
    assert_eq!(c.run_mode, RunMode::HistoricalBacktest);
    assert!(c.ensemble_seeds.is_empty());
    let mut o = options();
    o.signal_mode = "fast".to_string();
    o.mode = "prediction".to_string();
    o.ensemble_seeds = "42,43".to_string();
    o.invert = true;
    o.enable_bubble_analysis = true;
    o.use_conf_flat = true;
    o.conf_flat_thresh = num(70.0);
    o.filter_omega_max = num(15.0);
    let c = config_of(&o);
    assert_eq!(c.signal_mode, SignalMode::Fast);
    assert_eq!(c.run_mode, RunMode::FutureBubblePrediction);
    assert_eq!(c.ensemble_seeds, vec![42, 43]);
    assert!(c.invert_signal && c.enable_bubble_analysis && c.use_confidence_for_flat);
    assert_eq!(float(c.confidence_flat_threshold), 70.0);
    assert_eq!(float(c.filter_omega_max), 15.0);
}

#[test]
fn impossible_runs_are_named() {
    let mut c = BacktestConfig::default();
    assert_eq!(check_run(&c, 500), None);
    c.lookback_days = 0;
    assert_eq!(check_run(&c, 500), Some(RunFault::EmptyWindow));
    c = BacktestConfig::default();
    c.signal_mode = SignalMode::Fast;
    c.refit_every = 0;
    assert_eq!(check_run(&c, 500), Some(RunFault::NoRefit));
    c = BacktestConfig::default();
    c.enable_bubble_analysis = true;
    c.analysis_step_days = 0;
    assert_eq!(check_run(&c, 500), Some(RunFault::NoStep));
    c = BacktestConfig::default();
    c.lookback_days = usize::MAX;
    assert_eq!(check_run(&c, 500), Some(RunFault::TooLarge));
}

#[test]
fn only_what_a_run_needs_is_asked_of_it() {
    let mut c = BacktestConfig::default();
    c.analysis_step_days = 0;
    assert_eq!(check_run(&c, 500), None);
    c.enable_bubble_analysis = true;
    assert_eq!(check_run(&c, 200), None);
    assert_eq!(check_run(&c, 279), None);
    assert_eq!(check_run(&c, 280), Some(RunFault::NoStep));
    c.enable_bubble_analysis = false;
    for mode in [
        RunMode::FutureBubblePrediction,
        RunMode::LiveCurrentSentiment,
        RunMode::HybridAnalysis,
    ] {
        c.run_mode = mode;
        assert_eq!(check_run(&c, 500), Some(RunFault::NoStep));
        assert_eq!(check_run(&c, 260), None);
        assert_eq!(check_run(&c, 0), None);
    }
    c = BacktestConfig::default();
    c.lookback_days = 0;
    assert_eq!(check_run(&c, 29), None);
    c.run_mode = RunMode::FutureBubblePrediction;
    assert_eq!(check_run(&c, 500), None);
    c.run_mode = RunMode::LiveCurrentSentiment;
    assert_eq!(check_run(&c, 500), Some(RunFault::EmptyWindow));
    c.signal_mode = SignalMode::Fast;
    c.refit_every = 0;
    assert_eq!(check_run(&c, 500), None);
    c.run_mode = RunMode::HybridAnalysis;
    assert_eq!(check_run(&c, 500), Some(RunFault::NoRefit));
    c = BacktestConfig::default();
    c.window_stride = usize::MAX;
    assert_eq!(check_run(&c, 500), Some(RunFault::TooLarge));
    c.signal_mode = SignalMode::Fast;
    assert_eq!(check_run(&c, 500), None);
    c.analysis_step_days = usize::MAX;
    assert_eq!(check_run(&c, 500), None);
    c.enable_bubble_analysis = true;
    assert_eq!(check_run(&c, 500), Some(RunFault::TooLarge));
}

#[test]
fn date_ranges_are_read() {
    let (a, b) = read_dates("2018-01-01", "2024-12-31").unwrap();
    assert_eq!((a.text(), b.text()), ("2018-01-01".to_string(), "2024-12-31".to_string()));
    assert!(read_dates("2018-01-01", "x").is_none());
    assert!(read_dates("x", "2018-01-01").is_none());
}
