use hlpll_backtester::backtest::{
    run_backtest, BacktestError, BacktestResult, DailySignal, WalkSignals,
};
use hlpll_backtester::binary64::Real;
use hlpll_backtester::confidence::AnalysisError;
use hlpll_backtester::config::{BacktestConfig, RunMode, SignalMode};
use hlpll_backtester::data::PriceBar;
use hlpll_backtester::dates::Date;
use hlpll_backtester::engine::{
    recommend, trades_of, EngineError, FetchStatus, HlpplEngine, ModeInput, ModeNote, ModePlan,
};
use hlpll_backtester::hlppl_signals::SignalPoint;
use hlpll_backtester::lppl::LpplParams;
use hlpll_backtester::prediction::{LiveError, LiveNote, LiveReply, PredictionError};

fn num(x: f64) -> Real {
    Real { bits: x.to_bits() }
}

fn float(r: Real) -> f64 {
    f64::from_bits(r.bits)
}

fn bars(n: usize) -> Vec<PriceBar> {
    (0..n)
        .map(|i| PriceBar {
            date: Date { epoch_day: 19000 + i as i32 },
            open: num(1.0),
            high: num(1.0),
            low: num(1.0),
            close: num(1.0),
            adj_close: num(10.0 + i as f64),
            volume: num(1.0),
        })
        .collect()
}

fn day(k: usize, position: f64, trade: bool) -> DailySignal {
    DailySignal {
        date: Date { epoch_day: 100 + k as i32 },
        close: num(10.0),
        daily_return: num(0.0),
        volume: num(0.0),
        eps_norm: num(0.0),
        hype_volume: num(0.0),
        sentiment: num(0.0),
        bubble_score: num(0.75),
        position: num(position),
        trade,
        bubble_confidence: num(0.0),
    }
}

fn result(days: Vec<DailySignal>, equity: &[f64]) -> BacktestResult {
    BacktestResult {
        ticker: "CAR".to_string(),
        start_date: Date { epoch_day: 100 },
        end_date: Date { epoch_day: 100 },
        n_days: days.len(),
        signals: days,
        equity: equity.iter().map(|&x| num(x)).collect(),
        bh_equity: equity.iter().map(|&x| num(x)).collect(),
        total_return: num(0.0),
        annualized_return: num(0.0),
        sharpe: num(0.0),
        max_drawdown: num(0.0),
        num_trades: 0,
        buy_hold_return: num(0.0),
        buy_hold_sharpe: num(0.0),
    }
}

fn keep(e: &mut HlpplEngine, r: BacktestResult) {
    e.result = Some(r);
    e.recompute_trades();
}

fn engine(cfg: BacktestConfig) -> HlpplEngine {
    let start = Date::parse("2022-01-01").unwrap();
    let end = Date::parse("2022-12-31").unwrap();
    HlpplEngine::new("car", start, end, cfg, num(10000.0))
}

fn small() -> BacktestConfig {
    let mut cfg = BacktestConfig::default();
    cfg.lookback_days = 10;
    cfg.analysis_lookback_min = 60;
    cfg.analysis_lookback_max = 65;
    cfg
}

fn ahead(start: usize, current: usize, days: f64) -> Option<LpplParams> {
    Some(LpplParams {
        tc: num(current as f64 + days + 1.0 - start as f64),
        m: num(0.5),
        omega: num(8.0),
        a: num(1.0),
        b: num(-0.5),
        c: num(0.1),
        phi: num(0.0),
    })
}

#[test]
fn engines_start_empty_and_upper_case() {
    let e = engine(small());
    assert_eq!(e.ticker, "CAR");
    assert!(e.bars.is_none() && e.result.is_none() && e.trades.is_empty());
    assert!(e.last_future_prediction.is_none() && e.last_live_sentiment.is_none());
    assert_eq!(e.fetch_status, FetchStatus::NoData);
    assert_eq!(e.status_text(""), "No data loaded.");
    assert!(e.needs_fetch());
    assert!(e.needs_analysis());
    assert!(e.signals().is_none());
    assert_eq!(float(e.final_capital()), 10000.0);
    assert_eq!(float(e.total_pnl_usd()), 0.0);
    assert_eq!(float(e.pnl_percent()), 0.0);
}

#[test]
fn fetched_bars_replace_what_was_there() {
    let mut e = engine(small());
    keep(&mut e, result(vec![day(0, 1.0, true)], &[1.0, 1.5]));
    assert_eq!(e.trades.len(), 1);
    assert_eq!(e.fetch(Ok(bars(3))).unwrap(), 3);
    assert!(e.result.is_none() && e.trades.is_empty());
    assert_eq!(e.bars.as_ref().unwrap().len(), 3);
    assert_eq!(
        e.status_text("12.00"),
        "Yahoo OK ✓ 3 bars | 2022-01-08 → 2022-01-10 | last $12.00"
    );
    match e.fetch_status {
        FetchStatus::Loaded { last_close, .. } => assert_eq!(float(last_close), 12.0),
        other => panic!("{:?}", other),
    }
}

#[test]
fn failed_fetches_keep_the_bars_and_empty_ones_drop_them() {
    let mut e = engine(small());
    e.fetch(Ok(bars(3))).unwrap();
    let err = e.fetch(Err("HTTP 404".to_string())).unwrap_err();
    assert_eq!(err.message("CAR"), "Yahoo fetch failed for CAR: HTTP 404");
    assert_eq!(e.bars.as_ref().unwrap().len(), 3);
    assert_eq!(e.status_text(""), "Fetching CAR 2022-01-01 → 2022-12-31 ...");
    let err = e.fetch(Ok(vec![])).unwrap_err();
    assert!(matches!(err, EngineError::NoBarsFetched));
    assert_eq!(err.message("CAR"), "Yahoo returned zero bars.");
    assert!(e.bars.is_none());
    assert_eq!(e.status_text(""), "Yahoo returned zero bars.");
}

fn points(n: usize, score: f64) -> Vec<SignalPoint> {
    (0..n)
        .map(|_| SignalPoint {
            bubble_score: num(score),
            eps_norm: num(0.0),
            hype_volume: num(0.0),
            sentiment: num(0.0),
        })
        .collect()
}

fn walk(n: usize, score: f64) -> WalkSignals {
    WalkSignals { points: points(n, score), confidences: vec![], annual_growth: num(1.25) }
}

#[test]
fn runs_need_enough_bars() {
    let mut cfg = small();
    cfg.run_mode = RunMode::LiveCurrentSentiment;
    let mut e = engine(cfg);
    let fault = e.prepare_run().unwrap();
    assert_eq!(fault.message("CAR"), "No price data. Call fetch() first.");
    assert_eq!(e.config.run_mode, RunMode::HistoricalBacktest);
    e.fetch(Ok(bars(39))).unwrap();
    let fault = e.prepare_run().unwrap();
    assert_eq!(fault.message("CAR"), "Not enough bars (have 39, need at least 40)");
    assert!(matches!(
        e.run(&walk(0, 0.0)).unwrap_err(),
        EngineError::NotEnoughBars { have: 39, need: 40 }
    ));
    e.fetch(Ok(bars(40))).unwrap();
    assert!(e.prepare_run().is_none());
    e.config.run_mode = RunMode::HybridAnalysis;
    e.run(&walk(30, 0.9)).unwrap();
    assert_eq!(e.config.run_mode, RunMode::HistoricalBacktest);
    assert_eq!(e.signals().unwrap().len(), 30);
    assert_eq!(float(e.result.as_ref().unwrap().annualized_return), 0.25);
    assert_eq!(e.trades.len(), 1);
    assert_eq!(e.trades[0].direction, "LONG");
    let last = float(*e.result.as_ref().unwrap().equity.last().unwrap());
    assert_eq!(float(e.final_capital()), 10000.0 * last);
    assert_eq!(float(e.total_pnl_usd()), 10000.0 * last - 10000.0);
    assert_eq!(float(e.pnl_percent()), (10000.0 * last - 10000.0) / 10000.0 * 100.0);
}

#[test]
fn legs_run_from_trade_to_trade() {
    let r = result(
        vec![
            day(0, 0.0, false),
            day(1, 1.0, true),
            day(2, 1.0, false),
            day(3, -1.0, true),
            day(4, 0.0, true),
            day(5, 0.4, true),
            day(6, -1.0, true),
            day(7, -1.0, false),
        ],
        &[1.0, 1.0, 1.1, 1.2, 1.3, 1.0, 0.9, 0.8, 0.7],
    );
    let legs = trades_of(&r, num(1000.0));
    assert_eq!(legs.len(), 3);
    let leg = &legs[0];
    assert_eq!((leg.entry_date.epoch_day, leg.exit_date.epoch_day), (101, 103));
    assert_eq!((leg.direction.as_str(), leg.bars_held), ("LONG", 3));
    assert_eq!(float(leg.pnl_usd), (1.3 - 1.1) * 1000.0);
    assert_eq!(float(leg.ret_pct), 1.3 / 1.1 - 1.0);
    let leg = &legs[1];
    assert_eq!((leg.entry_date.epoch_day, leg.exit_date.epoch_day), (103, 104));
    assert_eq!((leg.direction.as_str(), leg.bars_held), ("SHORT", 2));
    let leg = &legs[2];
    assert_eq!((leg.entry_date.epoch_day, leg.exit_date.epoch_day), (106, 107));
    assert_eq!(float(leg.ret_pct), 0.7 / 0.8 - 1.0);
    let ruined = result(vec![day(0, 1.0, true)], &[1.0, 0.0]);
    assert_eq!(float(trades_of(&ruined, num(1.0))[0].ret_pct), 0.0);
    assert!(trades_of(&result(vec![], &[1.0]), num(1.0)).is_empty());
}

#[test]
fn plans_follow_the_mode() {
    let mut e = engine(small());
    assert!(matches!(e.plan().unwrap_err(), EngineError::NoPriceData));
    e.fetch(Ok(bars(39))).unwrap();
    assert!(matches!(e.plan().unwrap_err(), EngineError::NotEnoughBars { .. }));
    e.config.run_mode = RunMode::FutureBubblePrediction;
    assert_eq!(e.plan().unwrap(), ModePlan::Predict { backtest: false });
    e.config.run_mode = RunMode::HybridAnalysis;
    assert_eq!(e.plan().unwrap(), ModePlan::Predict { backtest: true });
    e.config.run_mode = RunMode::LiveCurrentSentiment;
    assert_eq!(e.plan().unwrap(), ModePlan::Live);
    e.config.run_mode = RunMode::HistoricalBacktest;
    e.fetch(Ok(bars(40))).unwrap();
    assert_eq!(e.plan().unwrap(), ModePlan::Backtest);
    let e2 = EngineError::Prediction(PredictionError::NoBars);
    assert_eq!(e2.message("CAR"), "No bars for prediction");
    let e3 = EngineError::Live(LiveError::TooFewBars);
    assert_eq!(e3.message("CAR"), "insufficient bars for live sentiment");
    let e4 = EngineError::Analysis(AnalysisError::LookbackTooShort);
    assert_eq!(e4.message("CAR"), "lookback_min must be at least 30 for stable LPPL");
}

fn fast(residual: f64) -> LiveReply {
    LiveReply::Fast { residuals: Some(vec![num(residual)]), hype: num(0.0) }
}

#[test]
fn modes_fill_their_results() {
    let mut e = engine(small());
    e.fetch(Ok(bars(300))).unwrap();
    e.run_with_mode(ModeInput::Backtest(walk(290, 0.9))).unwrap();
    assert_eq!(e.trades.len(), 1);
    assert_eq!(e.result.as_ref().unwrap().n_days, 290);
    assert!(e.last_future_prediction.is_none());

    e.config.run_mode = RunMode::FutureBubblePrediction;
    let fits = vec![vec![ahead(234, 299, 9.0), None]];
    e.run_with_mode(ModeInput::Predict { fits: fits.clone(), walk: None }).unwrap();
    let p = e.last_future_prediction.as_ref().unwrap();
    assert_eq!(float(p.bubble_confidence_index), 50.0);
    assert_eq!(p.ticker, "CAR");

    e.config.run_mode = RunMode::HybridAnalysis;
    e.fetch(Ok(bars(300))).unwrap();
    assert!(e.result.is_none());
    let input = ModeInput::Predict { fits: fits.clone(), walk: Some(walk(290, -0.9)) };
    e.run_with_mode(input).unwrap();
    assert!(e.last_future_prediction.is_some() && e.trades.len() == 1);
    assert_eq!(e.trades[0].direction, "SHORT");

    e.config.run_mode = RunMode::LiveCurrentSentiment;
    e.config.signal_mode = SignalMode::Fast;
    e.run_with_mode(ModeInput::Live { reply: fast(0.4), fits: fits.clone() }).unwrap();
    let s = e.last_live_sentiment.as_ref().unwrap();
    assert_eq!(float(s.position), 1.0);
    assert!(float(s.bubble_score) >= 1.0);

    e.config.analysis_lookback_min = 20;
    let err = e.get_live_sentiment(fast(0.4), &fits).unwrap_err();
    assert_eq!(err.message("CAR"), "lookback_min must be at least 30 for stable LPPL");
    let err = e.get_future_prediction(&fits, &None).unwrap_err();
    assert_eq!(err.message("CAR"), "lookback_min must be at least 30 for stable LPPL");
}

#[test]
fn a_hybrid_run_keeps_the_walk_of_its_own_bars() {
    let mut cfg = small();
    cfg.run_mode = RunMode::HybridAnalysis;
    let mut e = engine(cfg);
    e.fetch(Ok(bars(300))).unwrap();
    let fits = vec![vec![ahead(234, 299, 9.0), None]];
    let w = walk(290, 0.9);
    e.get_future_prediction(&fits, &Some(w.clone())).unwrap();
    let own = run_backtest("CAR", &bars(300), &e.config, &w.points, &w.confidences)
        .ok()
        .unwrap()
        .into_result(w.annual_growth);
    let kept = e.result.as_ref().unwrap();
    assert_eq!(kept.signals, own.signals);
    assert_eq!(kept.equity, own.equity);
    assert_eq!(kept.annualized_return, own.annualized_return);
    assert_eq!(kept.start_date.epoch_day, 19010);

    e.config.lookback_days = 271;
    let before = e.last_future_prediction.as_ref().unwrap().valid_fits;
    let err = e.get_future_prediction(&fits, &None).unwrap_err();
    assert!(matches!(
        err,
        EngineError::Prediction(PredictionError::Backtest(BacktestError::NotEnoughData {
            have: 300,
            need: 301,
        }))
    ));
    assert_eq!(err.message("CAR"), "Not enough data for CAR: 300 bars < required 301");
    assert_eq!(e.last_future_prediction.as_ref().unwrap().valid_fits, before);
    assert_eq!(e.result.as_ref().unwrap().n_days, 290);
}

#[test]
fn failed_modes_name_their_reason() {
    let mut e = engine(small());
    e.config.run_mode = RunMode::LiveCurrentSentiment;
    let input = ModeInput::Live { reply: fast(0.0), fits: vec![vec![]] };
    let err = e.run_with_mode(input).unwrap_err();
    assert!(matches!(err, EngineError::NoPriceData));
    e.fetch(Ok(bars(12))).unwrap();
    let input = ModeInput::Live { reply: fast(0.0), fits: vec![vec![]] };
    let err = e.run_with_mode(input).unwrap_err();
    assert!(matches!(err, EngineError::Live(LiveError::TooFewBars)));
    e.config.run_mode = RunMode::FutureBubblePrediction;
    let input = ModeInput::Predict { fits: vec![vec![]], walk: None };
    let err = e.run_with_mode(input).unwrap_err();
    assert!(matches!(
        err,
        EngineError::Prediction(PredictionError::Analysis(AnalysisError::InvalidRange))
    ));
}

#[test]
fn exports_need_a_result() {
    let mut e = engine(small());
    let err = e.export_artifacts("out", "10").unwrap_err();
    assert_eq!(err.message("CAR"), "No result to export. Run the simulation first.");
    keep(&mut e, result(vec![day(0, 1.0, true)], &[1.0, 1.5]));
    let a = e.export_artifacts("out", "10").unwrap();
    assert_eq!(a.signals_path, "out/CAR_signals.csv");
    assert_eq!(a.equity_path, "out/CAR_equity.csv");
    assert_eq!(a.dollar_path, "out/CAR_equity_10k.csv");
    assert_eq!(a.plot_path, "out/CAR_equity.png");
    assert_eq!(a.equity, vec![num(1.5)]);
    assert_eq!(a.dollar_equity, vec![num(15000.0)]);
    assert_eq!(a.date_epoch, vec![100]);
}

#[test]
fn analyses_look_at_the_last_bar() {
    let mut e = engine(small());
    assert!(matches!(e.run_bubble_analysis(&vec![]).unwrap_err(), EngineError::NoPriceData));
    e.bars = Some(vec![]);
    assert!(matches!(e.run_bubble_analysis(&vec![]).unwrap_err(), EngineError::NoBarsForAnalysis));
    e.fetch(Ok(bars(300))).unwrap();
    let a = e.run_bubble_analysis(&vec![ahead(234, 299, 9.0), ahead(239, 299, 5.0)]).unwrap();
    assert_eq!(float(a.bubble_confidence_index), 100.0);
    assert_eq!(a.analysis_date.epoch_day, 19299);
    e.fetch(Ok(bars(20))).unwrap();
    assert!(matches!(
        e.run_bubble_analysis(&vec![]).unwrap_err(),
        EngineError::Analysis(AnalysisError::InvalidRange)
    ));
    assert_eq!(
        EngineError::NoBarsForAnalysis.message("CAR"),
        "No bars loaded for bubble analysis"
    );
}

/// Five windows of the last of 300 bars, of which `k` carry a signature.
fn five(k: usize) -> Vec<Option<LpplParams>> {
    (0..5).map(|i| if i < k { ahead(219 + 5 * i, 299, 9.0) } else { None }).collect()
}

#[test]
fn sentiment_without_other_views_comes_from_the_analysis() {
    let mut cfg = small();
    cfg.analysis_lookback_max = 80;
    let mut e = engine(cfg);
    assert!(matches!(e.get_current_sentiment(&vec![]).unwrap_err(), EngineError::NoPriceData));
    e.fetch(Ok(bars(20))).unwrap();
    assert!(matches!(
        e.get_current_sentiment(&vec![]).unwrap_err(),
        EngineError::Analysis(AnalysisError::InvalidRange)
    ));
    e.fetch(Ok(bars(300))).unwrap();
    let s = e.get_current_sentiment(&five(3)).unwrap();
    assert_eq!(s.recommendation, "HOLD / FLAT");
    assert_eq!((float(s.bubble_score), float(s.position)), (0.0, 0.0));
    assert_eq!(float(s.bubble_confidence), 60.0);
    assert_eq!(s.risk_level, "HIGH RISK");
    assert_eq!(s.mode_note, ModeNote::Silent);
    assert_eq!(s.date.epoch_day, 19299);
    assert_eq!(s.median_predicted_peak.unwrap().epoch_day, 19308);
    keep(&mut e, result(vec![day(0, -1.0, true)], &[1.0, 1.5]));
    let s = e.get_current_sentiment(&five(3)).unwrap();
    assert_eq!(s.recommendation, "SELL / GO SHORT");
    assert_eq!((float(s.bubble_score), float(s.position)), (0.75, -1.0));
    e.config.use_confidence_for_flat = true;
    let s = e.get_current_sentiment(&five(3)).unwrap();
    assert_eq!(
        s.recommendation,
        "HOLD / FLAT (high bubble confidence - risk management override)"
    );
    assert_eq!(float(s.position), -1.0);
    e.config.run_mode = RunMode::HybridAnalysis;
    let s = e.get_current_sentiment(&five(2)).unwrap();
    assert_eq!(s.recommendation, "SELL / GO SHORT");
    assert_eq!(
        s.mode_note,
        ModeNote::Mode { mode: RunMode::HybridAnalysis, confidence: num(40.0) }
    );
}

fn predicted(confident: usize) -> HlpplEngine {
    let mut cfg = small();
    cfg.analysis_lookback_max = 75;
    cfg.run_mode = RunMode::FutureBubblePrediction;
    let mut e = engine(cfg);
    e.fetch(Ok(bars(300))).unwrap();
    let fits: Vec<Option<LpplParams>> = [224usize, 229, 234, 239]
        .iter()
        .enumerate()
        .map(|(k, s)| if k < confident { ahead(*s, 299, 9.0) } else { None })
        .collect();
    e.get_future_prediction(&vec![fits], &None).unwrap();
    e
}

fn mood_of_last(n: usize) -> f64 {
    let change = (9.0 + n as f64) / (8.0 + n as f64) - 1.0;
    0.15 + (change * 0.3).clamp(-0.4, 0.4)
}

#[test]
fn sentiment_prefers_the_prediction_and_then_the_live_view() {
    let s = predicted(0).get_current_sentiment(&vec![]).unwrap();
    assert_eq!(s.recommendation, "NEUTRAL (no strong future tc cluster)");
    assert_eq!(s.mode_note, ModeNote::Prediction { median: None, confidence: num(0.0) });
    let s = predicted(2).get_current_sentiment(&vec![]).unwrap();
    assert_eq!(s.recommendation, "CAUTION / MONITOR (elevated future bubble probability)");
    let mut e = predicted(3);
    assert!(!e.needs_analysis());
    let s = e.get_current_sentiment(&vec![]).unwrap();
    assert_eq!(s.recommendation, "HOLD / FLAT (high C1 bubble risk from prediction)");
    assert_eq!((float(s.bubble_confidence), float(s.position)), (75.0, 0.0));
    e.config.signal_mode = SignalMode::Fast;
    e.get_live_sentiment(fast(0.2), &vec![vec![None; 4]]).unwrap();
    let s = e.get_current_sentiment(&vec![]).unwrap();
    assert_eq!(s.recommendation, "BUY / GO LONG (positive bubble score / momentum)");
    assert_eq!(s.mode_note, ModeNote::Live(LiveNote::Normal));
    assert_eq!(float(s.bubble_score), 1.0 + 0.7 * 0.0 + 0.3 * mood_of_last(300));
}

#[test]
fn positions_are_recommended_beyond_one_half() {
    assert_eq!(recommend(num(0.51)), "BUY / GO LONG");
    assert_eq!(recommend(num(0.5)), "HOLD / FLAT");
    assert_eq!(recommend(num(-0.5)), "HOLD / FLAT");
    assert_eq!(recommend(num(-0.51)), "SELL / GO SHORT");
}
