use hlpll_backtester::binary64::Real;
use hlpll_backtester::config::{BacktestConfig, PositionBias, RunMode, SignalMode};
use hlpll_backtester::form::{
    apply_settings, field_label, first_engine, read_bias, read_mode, read_seeds,
    read_signal_mode, read_tickers, Form, FormError, FormNumbers, CAPITAL, COST, END, ENSEMBLE,
    HORIZON, LONG, MODE, NUM_FIELDS, REFIT, SEED, SHORT, START, TICKER, WINDOW,
};

fn num(x: f64) -> Real {
    Real { bits: x.to_bits() }
}

fn float(r: Real) -> f64 {
    f64::from_bits(r.bits)
}

fn parsed(text: &str) -> Option<Real> {
    text.trim().parse::<f64>().ok().map(num)
}

fn numbers(f: &Form) -> FormNumbers {
    FormNumbers {
        long: parsed(&f.fields[LONG]),
        short: parsed(&f.fields[SHORT]),
        cost: parsed(&f.fields[COST]),
        capital: parsed(&f.fields[CAPITAL]),
        m_min: parsed(&f.analysis.m_min),
        m_max: parsed(&f.analysis.m_max),
        omega_min: parsed(&f.analysis.omega_min),
        omega_max: parsed(&f.analysis.omega_max),
        flat_threshold: parsed(&f.analysis.flat_threshold),
    }
}

#[test]
fn first_form() {
    let f = Form::new();
    let expected = [
        "CAR", "2022-01-01", "2024-12-31", "250", "25", "0.55", "0.55", "8", "10000", "42",
        "historical", "42", "60",
    ];
    assert_eq!(f.fields, expected);
    assert_eq!(NUM_FIELDS, 13);
    assert_eq!(f.focused, 0);
    assert!(f.use_confidence_for_flat);
    let s = f.settings(&numbers(&f)).unwrap();
    assert_eq!(s.ticker, "CAR");
    assert_eq!((s.start.text(), s.end.text()), ("2022-01-01".to_string(), "2024-12-31".to_string()));
    assert_eq!(float(s.capital), 10000.0);
    let c = &s.config;
    assert_eq!((c.lookback_days, c.refit_every), (250, 25));
    assert_eq!((float(c.long_threshold), float(c.short_threshold)), (0.55, 0.55));
    assert_eq!((float(c.cost_bps), float(c.max_position)), (8.0, 1.0));
    assert!(c.enable_bubble_analysis && c.use_confidence_for_flat && c.filter_require_b_negative);
    assert_eq!(c.ensemble_seeds, vec![42]);
    assert_eq!(c.run_mode, RunMode::HistoricalBacktest);
    assert_eq!(c.predict_horizon_days, 60);
    let e = first_engine();
    assert_eq!(e.ticker, "CAR");
    assert!(e.config.ensemble_seeds.is_empty());
    assert!(e.config.enable_bubble_analysis);
    assert_eq!(float(e.config.cost_bps), 8.0);
}

#[test]
fn labels_name_the_fields() {
    let labels = [
        "Ticker",
        "Start (YYYY-MM-DD)",
        "End (YYYY-MM-DD)",
        "Window (trading days)",
        "Refit every N days",
        "Long thresh (score > )",
        "Short thresh (score < -)",
        "Cost (bps one-way)",
        "Initial Capital ($)",
        "RNG seed (LPPL fits)",
        "Run mode (hist/pred/live/hybrid)",
        "Ensemble seeds (csv)",
        "Predict horizon days",
        "Adv. (edit in sync or GUI)",
    ];
    for (i, l) in labels.iter().enumerate() {
        assert_eq!(field_label(i), *l);
    }
}

fn failure(field: usize, text: &str) -> &'static str {
    let mut f = Form::new();
    f.fields[field] = text.to_string();
    f.settings(&numbers(&f)).unwrap_err().message()
}

#[test]
fn each_bad_field_is_named() {
    assert_eq!(failure(TICKER, "  "), "Ticker cannot be empty");
    assert_eq!(failure(START, "2022-13-01"), "Invalid start date (use YYYY-MM-DD)");
    assert_eq!(failure(END, "soon"), "Invalid end date (use YYYY-MM-DD)");
    assert_eq!(failure(END, "2022-01-01"), "End date must be after start");
    assert_eq!(failure(WINDOW, "x"), "Window must be integer >= 60");
    assert_eq!(failure(WINDOW, "59"), "Window too small for stable LPPL (min 60)");
    assert_eq!(failure(REFIT, "-1"), "Refit must be positive integer");
    assert_eq!(failure(REFIT, "0"), "refit_every must be >= 1");
    assert_eq!(failure(LONG, "x"), "Long thresh must be number");
    assert_eq!(failure(SHORT, ""), "Short thresh must be number");
    assert_eq!(failure(SHORT, "-0.1"), "Thresholds should be >= 0");
    assert_eq!(failure(COST, "x"), "Cost must be number (bps)");
    assert_eq!(failure(CAPITAL, "x"), "Capital must be positive number");
    assert_eq!(failure(CAPITAL, "0"), "Initial capital must be > 0");
}

#[test]
fn earlier_faults_come_first() {
    let mut f = Form::new();
    f.fields[WINDOW] = "3".to_string();
    f.fields[CAPITAL] = "x".to_string();
    assert_eq!(f.settings(&numbers(&f)).unwrap_err(), FormError::WindowTooSmall);
}

#[test]
fn optional_fields_fall_back() {
    let mut f = Form::new();
    f.fields[TICKER] = " amtx ".to_string();
    f.fields[SEED] = "x".to_string();
    f.fields[HORIZON] = "x".to_string();
    f.fields[ENSEMBLE] = " 7, x,9".to_string();
    f.fields[MODE] = "hybrid".to_string();
    f.fields[CAPITAL] = "nan".to_string();
    f.analysis.enable = "no".to_string();
    f.analysis.lookback_min = "".to_string();
    f.analysis.lookback_max = "300".to_string();
    f.analysis.step = "-2".to_string();
    f.analysis.m_min = "x".to_string();
    f.analysis.omega_max = "11".to_string();
    f.use_confidence_for_flat = false;
    let s = f.settings(&numbers(&f)).unwrap();
    assert_eq!(s.ticker, "AMTX");
    assert!(s.capital.is_nan());
    let c = s.config;
    assert_eq!((c.random_seed, c.predict_horizon_days), (42, 60));
    assert_eq!(c.ensemble_seeds, vec![7, 9]);
    assert_eq!(c.run_mode, RunMode::HybridAnalysis);
    assert!(c.enable_bubble_analysis);
    assert!(!c.use_confidence_for_flat);
    assert_eq!((c.analysis_lookback_min, c.analysis_lookback_max, c.analysis_step_days), (60, 300, 5));
    assert_eq!((float(c.filter_m_min), float(c.filter_omega_max)), (0.1, 11.0));
    f.analysis.enable = " false ".to_string();
    assert!(!f.settings(&numbers(&f)).unwrap().config.enable_bubble_analysis);
}

#[test]
fn settings_move_into_the_engine() {
    let mut f = Form::new();
    f.fields[TICKER] = "hous".to_string();
    f.fields[WINDOW] = "+120".to_string();
    let mut e = first_engine();
    let s = f.settings(&numbers(&f)).unwrap();
    apply_settings(&mut e, s);
    assert_eq!(e.ticker, "HOUS");
    assert_eq!(e.config.lookback_days, 120);
    assert_eq!(e.start.text(), "2022-01-01");
    assert_eq!(float(e.initial_capital), 10000.0);
    assert!(e.bars.is_none());
}

fn nudged(field: usize, text: &str, up: bool) -> String {
    let mut f = Form::new();
    f.focused = field;
    f.fields[field] = text.to_string();
    f.nudge_integer(up);
    f.fields[field].clone()
}

#[test]
fn whole_numbers_are_nudged_within_limits() {
    assert_eq!(nudged(WINDOW, "250", true), "260");
    assert_eq!(nudged(WINDOW, " 250 ", false), "240");
    assert_eq!(nudged(WINDOW, "62", false), "60");
    assert_eq!(nudged(WINDOW, "1999", true), "2000");
    assert_eq!(nudged(WINDOW, "x", true), "x");
    assert_eq!(nudged(REFIT, "25", true), "30");
    assert_eq!(nudged(REFIT, "3", false), "1");
    assert_eq!(nudged(REFIT, "99", true), "100");
    assert_eq!(nudged(CAPITAL, "10000", true), "11000");
    assert_eq!(nudged(CAPITAL, "-5", false), "1000");
    assert_eq!(nudged(CAPITAL, "1000000", true), "1000000");
    assert_eq!(nudged(CAPITAL, "10000.5", true), "10000.5");
    assert_eq!(nudged(SEED, "42", true), "43");
    assert_eq!(nudged(SEED, " 42", false), "41");
    assert_eq!(nudged(SEED, "0", false), "0");
    assert_eq!(nudged(SEED, "18446744073709551615", true), "18446744073709551615");
    assert_eq!(nudged(SEED, "18446744073709551614", true), "18446744073709551615");
    assert_eq!(nudged(SEED, "-1", true), "-1");
    assert_eq!(nudged(TICKER, "7", true), "7");
}

#[test]
fn numbers_are_nudged_within_limits() {
    let mut f = Form::new();
    let mut next = |field: usize, x: f64, up: bool| {
        f.focused = field;
        f.nudge_number(up, num(x)).map(|(v, d)| (float(v), d))
    };
    assert_eq!(next(LONG, 0.55, true), Some((0.55 + 0.05, 2)));
    assert_eq!(next(SHORT, 0.02, false), Some((0.0, 2)));
    assert_eq!(next(SHORT, 4.99, true), Some((5.0, 2)));
    assert_eq!(next(COST, 8.0, true), Some((9.0, 1)));
    assert_eq!(next(COST, 0.5, false), Some((0.0, 1)));
    assert_eq!(next(COST, 250.0, false), Some((100.0, 1)));
    assert_eq!(next(WINDOW, 250.0, true), None);
    assert_eq!(next(TICKER, 1.0, true), None);
}

#[test]
fn typing_edits_the_focused_field() {
    let mut f = Form::new();
    f.focused = END;
    f.type_char('!');
    assert_eq!(f.fields[END], "2024-12-31!");
    f.erase_char();
    assert_eq!(f.fields[END], "2024-12-31");
    f.set_focused("".to_string());
    f.erase_char();
    assert_eq!(f.fields[END], "");
    assert_eq!(f.fields[START], "2022-01-01");
}

#[test]
fn words_choose_modes() {
    assert_eq!(read_mode("prediction"), RunMode::FutureBubblePrediction);
    assert_eq!(read_mode("live"), RunMode::LiveCurrentSentiment);
    assert_eq!(read_mode("hybrid"), RunMode::HybridAnalysis);
    assert_eq!(read_mode("Live"), RunMode::HistoricalBacktest);
    assert_eq!(read_mode("historical"), RunMode::HistoricalBacktest);
    assert_eq!(read_signal_mode("fast"), SignalMode::Fast);
    assert_eq!(read_signal_mode("paper"), SignalMode::Paper);
    assert_eq!(RunMode::HybridAnalysis.name(), "HybridAnalysis");
    assert_eq!(RunMode::HistoricalBacktest.name(), "HistoricalBacktest");
    assert_eq!(RunMode::FutureBubblePrediction.name(), "FutureBubblePrediction");
    assert_eq!(RunMode::LiveCurrentSentiment.name(), "LiveCurrentSentiment");
    assert_eq!(RunMode::default(), RunMode::HistoricalBacktest);
    assert_eq!(SignalMode::default(), SignalMode::Paper);
    assert_eq!(PositionBias::default(), PositionBias::LongShort);
    assert_eq!(read_bias("longonly"), PositionBias::LongOnly);
    assert_eq!(read_bias("shortonly"), PositionBias::ShortOnly);
    assert_eq!(read_bias("longshort"), PositionBias::LongShort);
}

#[test]
fn lists_are_split_and_trimmed() {
    assert_eq!(read_seeds("1, 2 ,x,,-3,18446744073709551615"), vec![1, 2, u64::MAX]);
    assert!(read_seeds("  ").is_empty());
    assert_eq!(read_tickers(" HOUS,AMTX ,, CAR,"), vec!["HOUS", "AMTX", "CAR"]);
    assert_eq!(read_tickers("\u{3000}HOUS\u{a0},\tA B\n, \r"), vec!["HOUS", "A B"]);
    assert!(read_tickers("").is_empty());
}

#[test]
fn white_space_is_what_std_trims() {
    for code in 0..=0x10FFFFu32 {
        if let Some(c) = char::from_u32(code) {
            if c == ',' {
                continue;
            }
            let text = format!("{}A{}", c, c);
            let expected = text.trim().to_string();
            if code < 0x3100 || expected != text {
                assert_eq!(read_tickers(&text), vec![expected], "{:x}", code);
            }
        }
    }
}

#[test]
fn default_run() {
    let c = BacktestConfig::default();
    assert_eq!((c.lookback_days, c.refit_every, c.window_stride), (250, 25, 5));
    assert_eq!((float(c.alpha1_hype), float(c.alpha2_sentiment)), (0.7, 0.3));
    assert_eq!(float(c.cost_bps), 12.0);
    assert_eq!(c.seeds(), vec![42]);
    assert_eq!(c.lppl_fit_config().num_random_starts, 1200);
    let mut c = c;
    c.lppl_random_starts = 7;
    c.ensemble_seeds = vec![3, 4];
    assert_eq!(c.seeds(), vec![3, 4]);
    assert_eq!(c.lppl_fit_config().num_random_starts, 7);
    c.filter_m_min = num(0.3);
    assert_eq!(float(c.lppl_filter_config().m_min), 0.3);
}
