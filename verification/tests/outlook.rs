use hlpll_backtester::backtest::{run_backtest, BacktestError, WalkSignals};
use hlpll_backtester::binary64::Real;
use hlpll_backtester::confidence::{AnalysisError, BubbleAnalysisResult, EnsembleAnalysis};
use hlpll_backtester::config::{BacktestConfig, PositionBias, RunMode, SignalMode};
use hlpll_backtester::data::PriceBar;
use hlpll_backtester::dates::Date;
use hlpll_backtester::hlppl_signals::{
    build_signal_series, paper_windows, sentiment_at, series_points, FitRequest,
    HlpplSignalSeries, SignalPoint,
};
use hlpll_backtester::lppl::LpplParams;
use hlpll_backtester::prediction::{
    analyse_bar, analysis_sweep, compute_live_sentiment, confidence_at, live_fit_request,
    live_score, live_score_fast, live_score_paper, prediction_of, run_future_bubble_prediction,
    snapshot_of, wants_backtest, LiveError, LiveNote, LiveReply, PredictionError,
};

fn num(x: f64) -> Real {
    Real { bits: x.to_bits() }
}

fn float(r: Real) -> f64 {
    f64::from_bits(r.bits)
}

fn bars(n: usize) -> Vec<PriceBar> {
    (0..n)
        .map(|i| PriceBar {
            date: Date { epoch_day: 1000 + i as i32 },
            open: num(1.0),
            high: num(1.0),
            low: num(1.0),
            close: num(1.0),
            adj_close: num(10.0 + i as f64),
            volume: num(1.0),
        })
        .collect()
}

fn ahead(start: usize, current: usize, days: f64) -> Option<LpplParams> {
    Some(LpplParams {
        tc: num(current as f64 + days + 1.0 - start as f64),
        m: num(0.5),
        omega: num(8.0),
        a: num(1.0),
        b: num(-0.5),
        c: num(0.1),
        phi: num(0.0),
    })
}

fn two_windows() -> BacktestConfig {
    let mut cfg = BacktestConfig::default();
    cfg.analysis_lookback_min = 60;
    cfg.analysis_lookback_max = 65;
    cfg
}

fn ensemble(confidence: f64, days: &[i32]) -> EnsembleAnalysis {
    let dates: Vec<Date> = days.iter().map(|d| Date { epoch_day: 2000 + d }).collect();
    let median = if dates.is_empty() { None } else { Some(dates[dates.len() / 2]) };
    EnsembleAnalysis {
        combined: BubbleAnalysisResult {
            analysis_date: Date { epoch_day: 2000 },
            current_price: num(12.5),
            total_windows_tested: 9,
            valid_fits: 4,
            bubble_confidence_index: num(confidence),
            risk_level: "HIGH RISK".to_string(),
            predicted_critical_dates: dates,
            median_predicted_date: median,
            valid_fit_details: vec![],
        },
        mean_confidence: num(confidence),
        std_confidence: num(2.0),
        per_seed: vec![],
    }
}

#[test]
fn predictions_report_the_ensemble() {
    let mut cfg = two_windows();
    cfg.ensemble_seeds = vec![1, 2];
    cfg.predict_horizon_days = 15;
    let b = bars(300);
    let fits = vec![
        vec![ahead(234, 299, 10.0), ahead(239, 299, 40.0)],
        vec![ahead(234, 299, 20.0), None],
    ];
    let (p, backtest) = run_future_bubble_prediction("CAR", &b, &cfg, &fits, &None).unwrap();
    assert!(backtest.is_none());
    assert_eq!(p.ticker, "CAR");
    assert_eq!(p.analysis_date.epoch_day, 1299);
    assert_eq!(float(p.current_price), 309.0);
    assert_eq!((p.total_windows_tested, p.valid_fits), (2, 2));
    assert_eq!(float(p.bubble_confidence_index), 75.0);
    assert_eq!(float(p.ensemble_mean_confidence), 75.0);
    assert_eq!(float(p.ensemble_std_confidence), 25.0);
    assert_eq!(p.risk_level, "CRITICAL BUBBLE REGIME");
    assert!(p.risk_description.starts_with("Extreme herd"));
    let days: Vec<i32> = p.predicted_critical_dates.iter().map(|d| d.epoch_day).collect();
    assert_eq!(days, vec![1309, 1319, 1339]);
    assert_eq!(p.median_predicted_date.unwrap().epoch_day, 1319);
    assert_eq!(p.median_days_to_tc, Some(20));
    assert_eq!(float(p.prob_tc_within_horizon), 1.0 / 3.0);
    assert_eq!(p.ensemble_seeds_used, vec![1, 2]);
    assert_eq!(p.sample_valid_fits.len(), 2);
}

#[test]
fn horizon_shares_count_days_ahead_only() {
    let mut cfg = BacktestConfig::default();
    cfg.predict_horizon_days = 30;
    let share = |days: &[i32]| {
        float(prediction_of("X", &cfg, ensemble(50.0, days)).prob_tc_within_horizon)
    };
    assert_eq!(share(&[]), 0.0);
    assert_eq!(share(&[-4, 0, 1, 30]), 0.5);
    assert_eq!(share(&[31, 90]), 0.0);
    assert_eq!(share(&[3, 4]), 1.0);
    assert_eq!(prediction_of("X", &cfg, ensemble(50.0, &[])).median_days_to_tc, None);
    assert_eq!(prediction_of("X", &cfg, ensemble(50.0, &[])).ensemble_seeds_used, vec![42]);
}

#[test]
fn predictions_need_bars_and_look_back() {
    let cfg = two_windows();
    let fits = vec![vec![]];
    let e = run_future_bubble_prediction("X", &vec![], &cfg, &fits, &None).unwrap_err();
    assert_eq!(e, PredictionError::NoBars);
    assert_eq!(e.message("X"), "No bars for prediction");
    let e = run_future_bubble_prediction("X", &bars(40), &cfg, &fits, &None).unwrap_err();
    assert_eq!(e, PredictionError::Analysis(AnalysisError::InvalidRange));
    assert_eq!(e.message("X"), "Invalid current_idx or lookback for bubble analysis");
}

#[test]
fn hybrid_predictions_come_with_the_walk_of_the_same_bars() {
    let mut cfg = two_windows();
    cfg.run_mode = RunMode::HybridAnalysis;
    cfg.lookback_days = 250;
    let b = bars(300);
    let fits = vec![vec![ahead(234, 299, 10.0), None]];
    let point = SignalPoint {
        bubble_score: num(0.9),
        eps_norm: num(0.5),
        hype_volume: num(0.0),
        sentiment: num(0.0),
    };
    let walk = WalkSignals {
        points: vec![point; 50],
        confidences: vec![],
        annual_growth: num(1.5),
    };
    let (p, backtest) =
        run_future_bubble_prediction("CAR", &b, &cfg, &fits, &Some(walk.clone())).unwrap();
    assert_eq!(float(p.bubble_confidence_index), 50.0);
    let own = run_backtest("CAR", &b, &cfg, &walk.points, &walk.confidences)
        .ok()
        .unwrap()
        .into_result(walk.annual_growth);
    let kept = backtest.unwrap();
    assert_eq!((kept.signals, kept.equity), (own.signals, own.equity));
    assert_eq!(float(kept.annualized_return), 0.5);
    cfg.lookback_days = 271;
    let e = run_future_bubble_prediction("CAR", &b, &cfg, &fits, &None).unwrap_err();
    assert_eq!(
        e,
        PredictionError::Backtest(BacktestError::NotEnoughData { have: 300, need: 301 })
    );
}

#[test]
fn only_hybrid_runs_want_a_backtest_with_the_prediction() {
    let mut cfg = BacktestConfig::default();
    for mode in [
        RunMode::HistoricalBacktest,
        RunMode::FutureBubblePrediction,
        RunMode::LiveCurrentSentiment,
        RunMode::HybridAnalysis,
    ] {
        cfg.run_mode = mode;
        assert_eq!(wants_backtest(&cfg), mode == RunMode::HybridAnalysis);
    }
}

#[test]
fn bars_are_analysed_over_their_sweep() {
    let cfg = two_windows();
    let b = bars(300);
    assert_eq!(analysis_sweep(&cfg, 299).window_starts(), vec![234, 239]);
    let fits = vec![vec![ahead(234, 299, 10.0), None]];
    assert_eq!(float(analyse_bar(&b, &cfg, 299, &fits).unwrap().mean_confidence), 50.0);
    assert_eq!(confidence_at(&b, &cfg, 299, &fits), Some(num(50.0)));
    assert_eq!(confidence_at(&b, &cfg, 60, &vec![vec![]]), None);
}

#[test]
fn snapshots_follow_position_and_confidence() {
    let mut cfg = BacktestConfig::default();
    let s = snapshot_of("CAR", &cfg, num(0.9), ensemble(40.0, &[7, 9]));
    assert_eq!(s.ticker, "CAR");
    assert_eq!(s.date.epoch_day, 2000);
    assert_eq!(float(s.current_price), 12.5);
    assert_eq!(float(s.bubble_score), 0.9);
    assert_eq!(float(s.bubble_confidence), 40.0);
    assert_eq!(s.risk_level, "HIGH RISK");
    assert_eq!(float(s.position), 1.0);
    assert_eq!(s.recommendation, "BUY / GO LONG (positive bubble score / momentum)");
    assert_eq!(s.actionable_note, LiveNote::Normal);
    assert_eq!(s.median_predicted_peak.unwrap().epoch_day, 2009);
    assert_eq!(s.median_days_to_tc, Some(9));

    let s = snapshot_of("CAR", &cfg, num(-0.9), ensemble(45.5, &[]));
    assert_eq!(
        s.recommendation,
        "SELL / GO SHORT (negative score / overextension or momentum down)"
    );
    assert_eq!(s.actionable_note, LiveNote::Elevated(num(45.5)));
    assert_eq!(s.median_days_to_tc, None);

    let s = snapshot_of("CAR", &cfg, num(-0.9), ensemble(50.5, &[]));
    assert_eq!(s.actionable_note, LiveNote::HighConfidence(num(50.5)));
    assert_eq!(float(s.position), -1.0);

    cfg.use_confidence_for_flat = true;
    let s = snapshot_of("CAR", &cfg, num(-0.9), ensemble(50.5, &[]));
    assert_eq!(s.recommendation, "HOLD / FLAT");
    assert_eq!(float(s.position), 0.0);

    cfg.use_confidence_for_sizing = true;
    let s = snapshot_of("CAR", &cfg, num(0.9), ensemble(40.0, &[]));
    assert_eq!(float(s.position), 0.4);
    assert_eq!(s.recommendation, "HOLD / FLAT");

    cfg.position_bias = PositionBias::LongOnly;
    let s = snapshot_of("CAR", &cfg, num(-0.9), ensemble(10.0, &[]));
    assert_eq!(float(s.position), 0.0);
}

#[test]
fn live_sentiment_needs_thirty_bars_and_look_back() {
    let mut cfg = two_windows();
    cfg.signal_mode = SignalMode::Fast;
    let reply = LiveReply::Fast { residuals: Some(vec![num(0.3)]), hype: num(0.0) };
    let e = compute_live_sentiment("X", &bars(29), &cfg, reply.clone(), &vec![]).unwrap_err();
    assert_eq!(e, LiveError::TooFewBars);
    assert_eq!(e.message(), "insufficient bars for live sentiment");
    let e = compute_live_sentiment("X", &bars(30), &cfg, reply.clone(), &vec![vec![]]).unwrap_err();
    assert_eq!(e, LiveError::Analysis(AnalysisError::InvalidRange));
    let fits = vec![vec![None, None]];
    let s = compute_live_sentiment("X", &bars(300), &cfg, reply, &fits).unwrap();
    assert_eq!(float(s.bubble_confidence), 0.0);
    assert_eq!(float(s.position), 1.0);
}

#[test]
fn live_scores_come_from_the_last_window() {
    let mut cfg = BacktestConfig::default();
    cfg.lookback_days = 50;
    assert_eq!(live_fit_request(&cfg, 300), FitRequest { start: 250, end: 300, seed: 42 });
    assert_eq!(live_fit_request(&cfg, 40), FitRequest { start: 1, end: 40, seed: 42 });
    assert_eq!(live_fit_request(&cfg, 1), FitRequest { start: 1, end: 1, seed: 42 });
    let b = bars(80);
    assert_eq!(live_score_fast(&b, &cfg, &None, num(0.4)), num(0.0));
    let residuals = Some(vec![num(0.4), num(-0.1)]);
    let mood = float(sentiment_at(&b, 79, 60));
    assert_eq!(
        float(live_score_fast(&b, &cfg, &residuals, num(0.4))),
        -0.25 - 0.7 * 0.4 - 0.3 * mood
    );
    assert_eq!(live_score_paper(&None), num(0.0));
    let series = HlpplSignalSeries {
        raw_epsilon: vec![],
        eps_norm: vec![],
        hype: vec![],
        sentiment: vec![],
        bubble_score: vec![num(0.1), num(0.8)],
        signal_start: 0,
    };
    assert_eq!(live_score_paper(&Some(series)), num(0.8));
}

#[test]
fn a_snapshot_is_the_last_day_of_the_backtest() {
    let n = 120;
    let b = bars(n);
    let mut cfg = two_windows();
    cfg.lookback_days = 30;
    cfg.enable_bubble_analysis = true;
    cfg.use_confidence_for_sizing = true;
    for last in [0.9, -0.9, 0.1] {
        let residuals: Vec<Option<Vec<Real>>> = paper_windows(&cfg, n)
            .iter()
            .map(|w| {
                let wave = (w.start..w.end).map(|i| {
                    num(if i + 1 == n { last } else { (i as f64 * 0.37).sin() })
                });
                Some(wave.collect())
            })
            .collect();
        let hype: Vec<Real> = (0..n).map(|i| num((i as f64 * 0.11).cos() * 0.2)).collect();
        let series = build_signal_series(&b, &cfg, &residuals, hype.clone()).ok().unwrap();
        let points = series_points(&series, 30, n);
        let fits_at = |i: usize| {
            let starts = if i >= 65 { analysis_sweep(&cfg, i).window_starts() } else { vec![] };
            let mut fits: Vec<Option<LpplParams>> =
                starts.iter().map(|s| ahead(*s, i, 12.0)).collect();
            if fits.len() > 1 {
                fits[1] = None;
            }
            vec![fits]
        };
        let confidences: Vec<Option<Real>> =
            (30..n).map(|i| confidence_at(&b, &cfg, i, &fits_at(i))).collect();
        let run = run_backtest("CAR", &b, &cfg, &points, &confidences).ok().unwrap();
        let day = run.signals.last().unwrap();
        let reply = LiveReply::Paper { fits: residuals, hype };
        assert_eq!(live_score(&b, &cfg, reply.clone()), day.bubble_score);
        let s = compute_live_sentiment("CAR", &b, &cfg, reply, &fits_at(n - 1)).unwrap();
        assert_eq!(s.date, day.date);
        assert_eq!(s.current_price, day.close);
        assert_eq!(s.bubble_score, day.bubble_score);
        assert_eq!(s.bubble_confidence, day.bubble_confidence);
        assert_eq!(s.position, day.position);
        assert_eq!(float(s.bubble_confidence), 50.0);
        assert!(float(s.bubble_score) != 0.0);
    }
}

#[test]
fn too_few_bars_for_a_paper_window_score_nothing() {
    let mut cfg = two_windows();
    cfg.lookback_days = 90;
    let reply = LiveReply::Paper { fits: vec![], hype: vec![] };
    assert_eq!(live_score(&bars(80), &cfg, reply.clone()), num(0.0));
    let s = compute_live_sentiment("X", &bars(80), &cfg, reply, &vec![vec![None, None]]).unwrap();
    assert_eq!((float(s.bubble_score), float(s.position)), (0.0, 0.0));
}
