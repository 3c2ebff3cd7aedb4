use hlpll_backtester::binary64::Real;
use hlpll_backtester::confidence::{
    compute_bubble_confidence, compute_bubble_confidence_ensemble, effective_seeds,
    is_strict_jls_valid, risk_level_of, AnalysisError, BubbleAnalysisResult, JlsFailure,
    LpplFilterConfig, Sweep,
};
use hlpll_backtester::data::PriceBar;
use hlpll_backtester::dates::Date;
use hlpll_backtester::lppl::LpplParams;

fn num(x: f64) -> Real {
    Real { bits: x.to_bits() }
}

fn float(r: Real) -> f64 {
    f64::from_bits(r.bits)
}

fn bars(n: usize) -> Vec<PriceBar> {
    (0..n)
        .map(|i| PriceBar {
            date: Date { epoch_day: 1000 + i as i32 },
            open: num(1.0),
            high: num(1.0),
            low: num(1.0),
            close: num(1.0),
            adj_close: num(10.0 + i as f64),
            volume: num(1.0),
        })
        .collect()
}

fn params(tc: f64) -> LpplParams {
    LpplParams {
        tc: num(tc),
        m: num(0.5),
        omega: num(8.0),
        a: num(1.0),
        b: num(-0.5),
        c: num(0.1),
        phi: num(0.0),
    }
}

/// Parameters of the window from `start` whose critical time lies `days` behind bar `current`.
fn ahead(start: usize, current: usize, days: f64) -> LpplParams {
    params(current as f64 + days + 1.0 - start as f64)
}

#[test]
fn windows_run_from_the_longest_to_the_shortest_look_back() {
    let s = Sweep { current_idx: 299, lookback_min: 60, lookback_max: 80, step_days: 5 };
    assert_eq!(s.window_starts(), vec![219, 224, 229, 234, 239]);
    let s = Sweep { current_idx: 299, lookback_min: 60, lookback_max: 83, step_days: 5 };
    assert_eq!(s.window_starts(), vec![216, 221, 226, 231, 236]);
    let s = Sweep { current_idx: 299, lookback_min: 90, lookback_max: 80, step_days: 5 };
    assert!(s.window_starts().is_empty());
    let s = Sweep { current_idx: 40, lookback_min: 60, lookback_max: 40, step_days: 5 };
    assert_eq!(s.window_starts(), vec![0]);
    let s = Sweep { current_idx: 20, lookback_min: 60, lookback_max: 20, step_days: 5 };
    assert!(s.window_starts().is_empty());
}

#[test]
fn a_sweep_needs_bars_and_look_back() {
    let f = LpplFilterConfig::default();
    let e = compute_bubble_confidence(&bars(100), 100, 60, 80, 5, &f, &vec![]).unwrap_err();
    assert_eq!(e, AnalysisError::InvalidRange);
    assert_eq!(e.message(), "Invalid current_idx or lookback for bubble analysis");
    let e = compute_bubble_confidence(&bars(100), 79, 60, 80, 5, &f, &vec![]).unwrap_err();
    assert_eq!(e, AnalysisError::InvalidRange);
    let e = compute_bubble_confidence(&vec![], 0, 60, 0, 5, &f, &vec![]).unwrap_err();
    assert_eq!(e, AnalysisError::InvalidRange);
    let e = compute_bubble_confidence(&bars(100), 99, 29, 80, 5, &f, &vec![]).unwrap_err();
    assert_eq!(e, AnalysisError::LookbackTooShort);
    assert_eq!(e.message(), "lookback_min must be at least 30 for stable LPPL");
}

#[test]
fn signatures_are_counted_and_dated() {
    let b = bars(300);
    let f = LpplFilterConfig::default();
    let starts = [219usize, 224, 229, 234, 239];
    let mut outside = ahead(234, 299, 10.0);
    outside.m = num(0.95);
    let fits = vec![
        Some(ahead(starts[0], 299, 20.0)),
        None,
        Some(ahead(starts[2], 299, 7.4)),
        Some(outside),
        Some(ahead(starts[4], 299, 3.0)),
    ];
    let a = compute_bubble_confidence(&b, 299, 60, 80, 5, &f, &fits).unwrap();
    assert_eq!(a.analysis_date.epoch_day, 1299);
    assert_eq!(float(a.current_price), 309.0);
    assert_eq!((a.total_windows_tested, a.valid_fits), (5, 2));
    assert_eq!(float(a.bubble_confidence_index), (2.0 / 5.0) * 100.0);
    assert_eq!(a.risk_level, "MODERATE RISK");
    let days: Vec<i32> = a.predicted_critical_dates.iter().map(|d| d.epoch_day).collect();
    assert_eq!(days, vec![1306, 1319]);
    assert_eq!(a.median_predicted_date.unwrap().epoch_day, 1319);
    let details: Vec<(i32, i32)> =
        a.valid_fit_details.iter().map(|d| (d.0.epoch_day, d.1.epoch_day)).collect();
    assert_eq!(details, vec![(1219, 1319), (1229, 1306)]);
    for d in &a.predicted_critical_dates {
        assert!(d.epoch_day >= 1299 + 3);
    }
}

#[test]
fn no_window_is_no_confidence() {
    let f = LpplFilterConfig::default();
    let a = compute_bubble_confidence(&bars(300), 299, 90, 80, 5, &f, &vec![]).unwrap();
    assert_eq!(a.total_windows_tested, 0);
    assert_eq!(float(a.bubble_confidence_index), 0.0);
    assert_eq!(a.risk_level, "LOW RISK");
    assert!(a.median_predicted_date.is_none());
}

#[test]
fn dates_beyond_the_calendar_count_without_a_date() {
    let f = LpplFilterConfig::default();
    let fits = vec![Some(params(1e15))];
    let a = compute_bubble_confidence(&bars(300), 299, 60, 60, 5, &f, &fits).unwrap();
    assert_eq!(a.valid_fits, 1);
    assert!(a.predicted_critical_dates.is_empty());
    assert!(a.valid_fit_details.is_empty());
}

fn filtered(change: &dyn Fn(&mut LpplParams), filter: &LpplFilterConfig) -> usize {
    let mut p = ahead(239, 299, 20.0);
    change(&mut p);
    let a = compute_bubble_confidence(&bars(300), 299, 60, 60, 5, filter, &vec![Some(p)]).unwrap();
    a.valid_fits
}

#[test]
fn each_filter_rejects() {
    let f = LpplFilterConfig::default();
    assert_eq!(filtered(&|_| {}, &f), 1);
    assert_eq!(filtered(&|p| p.m = num(0.1), &f), 1);
    assert_eq!(filtered(&|p| p.m = num(0.09), &f), 0);
    assert_eq!(filtered(&|p| p.omega = num(4.4), &f), 0);
    assert_eq!(filtered(&|p| p.omega = num(13.1), &f), 0);
    assert_eq!(filtered(&|p| p.b = num(0.5), &f), 0);
    assert_eq!(filtered(&|p| p.c = num(5.0), &f), 0);
    let mut loose = f;
    loose.require_b_negative = false;
    assert_eq!(filtered(&|p| p.b = num(0.5), &loose), 1);
    let mut far = f;
    far.min_tc_offset_days = 20;
    assert_eq!(filtered(&|_| {}, &far), 0);
    far.min_tc_offset_days = 19;
    assert_eq!(filtered(&|_| {}, &far), 1);
}

#[test]
fn risk_levels_share_out_the_percentages() {
    let table = [
        (0.0, "LOW RISK"),
        (14.999, "LOW RISK"),
        (15.0, "MODERATE RISK"),
        (44.9, "MODERATE RISK"),
        (45.0, "HIGH RISK"),
        (74.9, "HIGH RISK"),
        (75.0, "CRITICAL BUBBLE REGIME"),
        (100.0, "CRITICAL BUBBLE REGIME"),
        (f64::NAN, "CRITICAL BUBBLE REGIME"),
    ];
    for (c, level) in table {
        assert_eq!(risk_level_of(num(c)), level);
    }
}

fn described(level: &str) -> &'static str {
    BubbleAnalysisResult {
        analysis_date: Date { epoch_day: 0 },
        current_price: num(1.0),
        total_windows_tested: 0,
        valid_fits: 0,
        bubble_confidence_index: num(0.0),
        risk_level: level.to_string(),
        predicted_critical_dates: vec![],
        median_predicted_date: None,
        valid_fit_details: vec![],
    }
    .risk_description()
}

#[test]
fn risk_levels_are_described() {
    assert_eq!(
        described("LOW RISK"),
        "Normal organic trend or basic noise. No systematic herding signatures detected."
    );
    assert_eq!(
        described("MODERATE RISK"),
        "Localized acceleration detected. Keep an eye on parabolic velocity changes."
    );
    assert_eq!(
        described("HIGH RISK"),
        "Significant critical mass forming. The trend shows super-exponential characteristics."
    );
    assert_eq!(
        described("CRITICAL BUBBLE REGIME"),
        "Extreme herd synchronization. Acceleration pattern is structurally unstable."
    );
    assert_eq!(described("?"), "Unknown risk level.");
}

#[test]
fn strict_validity_names_every_reason() {
    let f = LpplFilterConfig::default();
    assert_eq!(is_strict_jls_valid(&params(70.0), num(60.0), &f), (true, vec![]));
    assert_eq!(
        is_strict_jls_valid(&params(64.0), num(60.0), &f),
        (false, vec![JlsFailure::CriticalTimeTooNear])
    );
    let bad = LpplParams {
        tc: num(-1.0),
        m: num(2.0),
        omega: num(1.0),
        a: num(0.0),
        b: num(1.0),
        c: num(9.0),
        phi: num(0.0),
    };
    assert_eq!(
        is_strict_jls_valid(&bad, num(60.0), &f),
        (
            false,
            vec![
                JlsFailure::CriticalTimeTooNear,
                JlsFailure::ExponentOutside,
                JlsFailure::FrequencyOutside,
                JlsFailure::AmplitudeNotNegative,
                JlsFailure::NotStructurallyValid,
            ]
        )
    );
}

#[test]
fn ensembles_average_and_merge() {
    let b = bars(300);
    let f = LpplFilterConfig::default();
    let fits = vec![
        vec![Some(ahead(234, 299, 20.0)), None],
        vec![Some(ahead(234, 299, 20.0)), Some(ahead(239, 299, 9.0))],
        vec![None, None],
    ];
    let e = compute_bubble_confidence_ensemble(&b, 299, 60, 65, 5, &f, &fits).unwrap();
    let c = [50.0f64, 100.0, 0.0];
    let mean = (c[0] + c[1] + c[2]) / 3.0;
    let var = ((c[0] - mean).powi(2) + (c[1] - mean).powi(2) + (c[2] - mean).powi(2)) / 3.0;
    assert_eq!(float(e.mean_confidence), mean);
    assert_eq!(float(e.std_confidence), var.sqrt());
    assert_eq!(float(e.combined.bubble_confidence_index), mean);
    assert_eq!(e.combined.risk_level, "HIGH RISK");
    assert_eq!((e.combined.valid_fits, e.combined.total_windows_tested), (1, 2));
    let days: Vec<i32> =
        e.combined.predicted_critical_dates.iter().map(|d| d.epoch_day).collect();
    assert_eq!(days, vec![1308, 1319]);
    assert_eq!(e.combined.median_predicted_date.unwrap().epoch_day, 1319);
    assert_eq!(e.per_seed.len(), 3);
    assert_eq!(e.combined.valid_fit_details.len(), 1);
}

#[test]
fn ensembles_fail_as_their_sweeps_do() {
    let f = LpplFilterConfig::default();
    let r = compute_bubble_confidence_ensemble(&bars(50), 60, 60, 80, 5, &f, &vec![vec![]]);
    assert_eq!(r.unwrap_err(), AnalysisError::InvalidRange);
}

#[test]
fn no_seeds_stand_for_one() {
    assert_eq!(effective_seeds(&vec![]), vec![42]);
    assert_eq!(effective_seeds(&vec![7, 8]), vec![7, 8]);
}

#[test]
fn default_filter() {
    let f = LpplFilterConfig::default();
    assert_eq!((float(f.m_min), float(f.m_max)), (0.1, 0.9));
    assert_eq!((float(f.omega_min), float(f.omega_max)), (4.5, 13.0));
    assert!(f.require_b_negative);
    assert_eq!(f.min_tc_offset_days, 3);
}

#[test]
fn looser_filters_keep_what_stricter_ones_keep() {
    let b = bars(300);
    let starts = [219usize, 224, 229, 234, 239];
    let fits: Vec<Option<LpplParams>> = starts
        .iter()
        .enumerate()
        .map(|(k, s)| {
            let mut p = ahead(*s, 299, 4.0 + 3.0 * k as f64);
            p.m = num(0.15 + 0.2 * k as f64);
            p.omega = num(5.0 + 2.0 * k as f64);
            Some(p)
        })
        .collect();
    let mut filter = LpplFilterConfig::default();
    filter.m_min = num(0.4);
    filter.m_max = num(0.6);
    filter.min_tc_offset_days = 9;
    let mut last = compute_bubble_confidence(&b, 299, 60, 80, 5, &filter, &fits).unwrap();
    assert_eq!(last.valid_fits, 1);
    for widening in 0..3 {
        match widening {
            0 => filter.m_min = num(0.1),
            1 => filter.min_tc_offset_days = 3,
            _ => filter.m_max = num(0.96),
        }
        let next = compute_bubble_confidence(&b, 299, 60, 80, 5, &filter, &fits).unwrap();
        assert!(next.valid_fits >= last.valid_fits);
        assert!(float(next.bubble_confidence_index) >= float(last.bubble_confidence_index));
        for d in &last.valid_fit_details {
            assert!(next.valid_fit_details.contains(d));
        }
        assert_eq!(next.predicted_critical_dates.len(), next.valid_fits);
        last = next;
    }
    assert_eq!(last.valid_fits, 5);
    let again = compute_bubble_confidence(&b, 299, 60, 80, 5, &filter, &fits).unwrap();
    assert_eq!(again.valid_fit_details, last.valid_fit_details);
    assert_eq!(again.bubble_confidence_index, last.bubble_confidence_index);
}

#[test]
fn predictions_lie_as_far_ahead_as_searches_look() {
    let b = bars(300);
    let f = LpplFilterConfig::default();
    for days in [5.0, 5.4, 120.5, 249.5, 250.0] {
        let fits = vec![Some(ahead(239, 299, days))];
        let a = compute_bubble_confidence(&b, 299, 60, 60, 5, &f, &fits).unwrap();
        assert_eq!((a.valid_fits, a.predicted_critical_dates.len()), (1, 1));
        let date = a.predicted_critical_dates[0].epoch_day - 1299;
        assert!((5..=250).contains(&date));
        assert_eq!(date, days.round() as i32);
    }
}

#[test]
fn an_analysis_does_not_see_later_bars() {
    let f = LpplFilterConfig::default();
    let fits = vec![Some(ahead(139, 199, 20.0))];
    let short = compute_bubble_confidence(&bars(200), 199, 60, 60, 5, &f, &fits).unwrap();
    let long = compute_bubble_confidence(&bars(300), 199, 60, 60, 5, &f, &fits).unwrap();
    assert_eq!(short.bubble_confidence_index, long.bubble_confidence_index);
    assert_eq!(short.valid_fit_details, long.valid_fit_details);
    assert_eq!(short.current_price, long.current_price);
}

#[test]
fn a_sweep_that_cannot_be_made_needs_no_step() {
    let f = LpplFilterConfig::default();
    let e = compute_bubble_confidence(&bars(50), 49, 60, 80, 0, &f, &vec![]).unwrap_err();
    assert_eq!(e, AnalysisError::InvalidRange);
}
