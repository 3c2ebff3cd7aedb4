use hlpll_backtester::binary64::Real;
use hlpll_backtester::data::PriceBar;
use hlpll_backtester::dates::Date;
use hlpll_backtester::lppl::{
    assemble_fit, fit_window, params_of_solution, search_range, Candidate, FitError, LpplFitConfig,
    LpplParams, Polish, SearchPoint,
};
use hlpll_backtester::search::{LpplSearch, SearchTask, FALLBACK_STARTS};

fn num(x: f64) -> Real {
    Real { bits: x.to_bits() }
}

fn float(r: Real) -> f64 {
    f64::from_bits(r.bits)
}

fn params(tc: f64, m: f64, omega: f64, b: f64, c: f64) -> LpplParams {
    LpplParams {
        tc: num(tc),
        m: num(m),
        omega: num(omega),
        a: num(1.0),
        b: num(b),
        c: num(c),
        phi: num(0.25),
    }
}

fn good() -> LpplParams {
    params(70.0, 0.5, 8.0, -0.5, 0.1)
}

fn times(n: usize) -> Vec<Real> {
    (1..=n).map(|i| num(i as f64)).collect()
}

#[test]
fn validity_needs_every_bound() {
    assert!(good().is_valid());
    assert!(!params(0.0, 0.5, 8.0, -0.5, 0.1).is_valid());
    assert!(!params(70.0, 0.0, 8.0, -0.5, 0.1).is_valid());
    assert!(!params(70.0, 1.0, 8.0, -0.5, 0.1).is_valid());
    assert!(!params(70.0, 0.5, 0.5, -0.5, 0.1).is_valid());
    assert!(!params(70.0, 0.5, 30.0, -0.5, 0.1).is_valid());
    assert!(!params(70.0, 0.5, 8.0, -0.5, 0.6).is_valid());
    assert!(!params(f64::NAN, 0.5, 8.0, -0.5, 0.1).is_valid());
}

#[test]
fn damping_has_a_little_slack() {
    let limit = 0.5f64 * (1.0f64 + 0.5 * 0.5).sqrt() + 1e-6;
    assert!(!params(70.0, 0.5, 8.0, -0.5, limit).is_valid());
    assert!(params(70.0, 0.5, 8.0, -0.5, limit - 1e-9).is_valid());
    assert!(params(70.0, 0.5, 8.0, 0.0, 0.0).is_valid());
}

#[test]
fn fit_filters_are_the_search_bounds() {
    let cfg = LpplFitConfig::default();
    assert!(good().passes_fit_filters(&cfg));
    assert!(!params(70.0, 0.05, 8.0, -0.5, 0.1).passes_fit_filters(&cfg));
    assert!(!params(70.0, 0.95, 8.0, -0.5, 0.1).passes_fit_filters(&cfg));
    assert!(!params(70.0, 0.5, 1.9, -0.5, 0.1).passes_fit_filters(&cfg));
    assert!(!params(70.0, 0.5, 20.5, -0.5, 0.1).passes_fit_filters(&cfg));
    assert!(!params(70.0, 0.5, 8.0, 0.5, 0.1).passes_fit_filters(&cfg));
    assert!(!params(70.0, 0.5, 8.0, -1.5, 0.1).passes_fit_filters(&cfg));
    assert!(!params(70.0, 0.5, 8.0, -0.001, 0.0).passes_fit_filters(&cfg));
    assert!(!params(70.0, 0.5, 8.0, -0.1, 0.9).passes_fit_filters(&cfg));
    let mut loose = cfg;
    loose.require_damping = false;
    assert!(params(70.0, 0.5, 8.0, -0.1, 0.9).passes_fit_filters(&loose));
    loose.require_b_negative = false;
    loose.b_max = num(1.0);
    assert!(params(70.0, 0.5, 8.0, 0.5, 0.9).passes_fit_filters(&loose));
}

#[test]
fn default_search_settings() {
    let cfg = LpplFitConfig::default();
    assert_eq!(float(cfg.m_min), 0.1);
    assert_eq!(float(cfg.m_max), 0.9);
    assert_eq!(float(cfg.omega_min), 2.0);
    assert_eq!(float(cfg.omega_max), 20.0);
    assert_eq!(float(cfg.b_min), -1.0);
    assert_eq!(float(cfg.b_max), -0.01);
    assert_eq!((cfg.tc_future_min, cfg.tc_future_max), (5, 250));
    assert_eq!((cfg.num_random_starts, cfg.num_polish_steps), (1200, 32));
    assert!(cfg.require_b_negative && cfg.require_damping);
}

#[test]
fn the_curve_is_the_power_law() {
    let p = params(100.0, 0.5, 8.0, -0.5, 0.1);
    for t in [1.0, 50.0, 99.5, 100.0, 140.0] {
        let tau = (100.0f64 - t).max(1e-8);
        assert_eq!(float(p.tau(num(t))), tau);
        let angle = 8.0 * tau.ln() + 0.25;
        assert_eq!(float(p.angle(num(tau.ln()))), angle);
        let power = tau.powf(0.5);
        let expected = 1.0 + -0.5 * power + 0.1 * power * angle.cos();
        assert_eq!(float(p.predict_log_price(num(power), num(angle.cos()))), expected);
    }
}

#[test]
fn linear_solutions_become_amplitude_and_phase() {
    let at = SearchPoint { tc: num(70.0), m: num(0.4), omega: num(7.0) };
    let p = params_of_solution(at, num(1.5), num(-0.2), num(0.3), num(0.4), num(0.927));
    assert_eq!(float(p.c), (0.3f64 * 0.3 + 0.4 * 0.4).sqrt());
    assert_eq!(float(p.phi), -0.927);
    assert_eq!((float(p.a), float(p.b)), (1.5, -0.2));
    assert_eq!((float(p.tc), float(p.m), float(p.omega)), (70.0, 0.4, 7.0));
    let flat = params_of_solution(at, num(1.5), num(-0.2), num(1e-13), num(0.0), num(3.0));
    assert_eq!(float(flat.phi), 0.0);
}

#[test]
fn the_phase_makes_one_wave_of_cosine_and_sine() {
    let (c1, c2) = (0.3f64, -0.4f64);
    let at = SearchPoint { tc: num(70.0), m: num(0.4), omega: num(7.0) };
    let p = params_of_solution(at, num(1.5), num(-0.2), num(c1), num(c2), num(c2.atan2(c1)));
    for i in 1..60 {
        let tau: f64 = 70.0 - i as f64;
        let angle = 7.0 * tau.ln();
        let two = c1 * angle.cos() + c2 * angle.sin();
        let one = float(p.c) * float(p.angle(num(tau.ln()))).cos();
        assert!((two - one).abs() < 1e-12, "{} {}", two, one);
    }
}

fn curve(p: &LpplParams, t: f64) -> f64 {
    let tau = float(p.tau(num(t)));
    let power = num(tau.powf(float(p.m)));
    let cosine = num(float(p.angle(num(tau.ln()))).cos());
    float(p.predict_log_price(power, cosine))
}

#[test]
fn the_curve_is_flat_from_the_critical_time_on() {
    let p = good();
    let end = curve(&p, 70.0);
    assert!(end.is_finite());
    for t in [70.0, 70.5, 71.0, 500.0, 1e300] {
        assert_eq!(curve(&p, t), end);
    }
    assert!(curve(&p, 69.0) != end);
}

#[test]
fn the_end_of_the_curve_is_finite_as_far_as_sums_are() {
    let mut p = good();
    p.a = num(f64::MAX / 2.0);
    p.b = num(-f64::MAX / 4.0);
    p.c = num(f64::MAX / 8.0);
    assert!(curve(&p, 80.0).is_finite());
    assert_eq!(curve(&p, 80.0), curve(&p, 70.0));
    p.a = num(-f64::MAX);
    p.b = num(-f64::MAX);
    assert!(!curve(&p, 80.0).is_nan());
}

fn bars(n: usize) -> Vec<PriceBar> {
    (0..n)
        .map(|i| PriceBar {
            date: Date { epoch_day: i as i32 },
            open: num(1.0),
            high: num(1.0),
            low: num(1.0),
            close: num(1.0),
            adj_close: num(if i == 3 { -5.0 } else { 10.0 + i as f64 }),
            volume: num(1.0),
        })
        .collect()
}

#[test]
fn windows_carry_times_and_floored_prices() {
    let w = fit_window(&bars(50), 2, 40).unwrap();
    assert_eq!(w.times, times(38));
    assert_eq!(w.prices.len(), 38);
    assert_eq!(float(w.prices[0]), 12.0);
    assert_eq!(float(w.prices[1]), 0.01);
    assert_eq!(float(w.prices[37]), 49.0);
    assert_eq!(fit_window(&bars(50), 2, 31).unwrap_err(), FitError::WindowTooSmall);
    assert_eq!(fit_window(&bars(50), 5, 5).unwrap_err().message(), "window too small");
}

#[test]
fn a_search_needs_thirty_points() {
    let cfg = LpplFitConfig::default();
    assert_eq!(search_range(29, &times(29), &cfg), Err(FitError::TooFewPoints));
    assert_eq!(search_range(31, &times(30), &cfg), Err(FitError::TooFewPoints));
    assert_eq!(search_range(30, &times(30), &cfg), Ok((num(35.0), num(280.0))));
    let r = LpplSearch::start(times(10), times(10), &cfg);
    assert_eq!(r.err().unwrap().message(), "Need at least 30 points for LPPL fit");
}

fn candidate(sse: f64) -> Candidate {
    Candidate { params: good(), sse: num(sse) }
}

#[test]
fn the_first_best_admissible_start_wins() {
    let mut cfg = LpplFitConfig::default();
    cfg.num_random_starts = 6;
    cfg.num_polish_steps = 0;
    let mut s = LpplSearch::start(times(30), times(30), &cfg).ok().unwrap();
    let inadmissible = Candidate { params: params(70.0, 0.5, 8.0, 0.5, 0.1), sse: num(0.1) };
    let mut twin = candidate(2.0);
    twin.params.a = num(99.0);
    let replies = vec![
        Some(candidate(5.0)),
        None,
        Some(inadmissible),
        Some(candidate(2.0)),
        Some(twin),
        Some(candidate(f64::NAN)),
    ];
    for reply in replies {
        match s.task() {
            SearchTask::Draw(b) => {
                assert_eq!((float(b.tc_min), float(b.tc_max)), (35.0, 280.0));
                assert_eq!((float(b.m_min), float(b.m_max)), (0.1, 0.9));
                assert_eq!((float(b.omega_min), float(b.omega_max)), (2.0, 20.0));
            }
            other => panic!("{:?}", other),
        }
        s.drawn(reply);
    }
    assert_eq!(s.task(), SearchTask::Predict(good()));
    let fit = s.finish(&times(30)).unwrap();
    assert_eq!(fit.sse, num(2.0));
    assert_eq!(fit.params, good());
    assert_eq!(fit.n_points, 30);
    assert_eq!(fit.residuals, vec![num(0.0); 30]);
}

#[test]
fn a_search_without_an_admissible_start_gives_up() {
    let mut cfg = LpplFitConfig::default();
    cfg.num_random_starts = 1;
    let mut s = LpplSearch::start(times(30), times(30), &cfg).ok().unwrap();
    assert!(!s.wants(&SearchPoint { tc: num(30.0), m: num(0.5), omega: num(8.0) }));
    assert!(s.wants(&SearchPoint { tc: num(30.5), m: num(0.5), omega: num(8.0) }));
    assert_eq!(FALLBACK_STARTS, 300);
    for _ in 0..301 {
        assert!(matches!(s.task(), SearchTask::Draw(_)));
        s.drawn(Some(candidate(f64::INFINITY)));
    }
    assert_eq!(s.task(), SearchTask::GiveUp);
    let e = s.finish(&vec![]).unwrap_err();
    assert_eq!(e.message(), "LPPL multi-start search failed to find valid fit");
}

#[test]
fn additional_starts_can_save_a_search() {
    for configured in [0usize, 2] {
        let mut cfg = LpplFitConfig::default();
        cfg.num_random_starts = configured;
        cfg.num_polish_steps = 0;
        let mut s = LpplSearch::start(times(30), times(30), &cfg).ok().unwrap();
        let mut draws = 0;
        while let SearchTask::Draw(_) = s.task() {
            draws += 1;
            s.drawn(if draws == configured + 7 { Some(candidate(3.0)) } else { None });
        }
        assert_eq!(draws, configured + 300);
        assert_eq!(s.task(), SearchTask::Predict(good()));
        assert_eq!(s.finish(&times(30)).unwrap().sse, num(3.0));
    }
}

#[test]
fn an_admissible_start_needs_no_additional_ones() {
    let mut cfg = LpplFitConfig::default();
    cfg.num_random_starts = 3;
    let mut s = LpplSearch::start(times(30), times(30), &cfg).ok().unwrap();
    for reply in [None, Some(candidate(3.0)), None] {
        assert!(matches!(s.task(), SearchTask::Draw(_)));
        s.drawn(reply);
    }
    assert!(matches!(s.task(), SearchTask::Solve(_)));
}

fn search_over(errors: &[f64], polish: usize) -> f64 {
    let mut cfg = LpplFitConfig::default();
    cfg.num_random_starts = errors.len();
    cfg.num_polish_steps = polish;
    let mut s = LpplSearch::start(times(30), times(30), &cfg).ok().unwrap();
    for e in errors {
        assert!(matches!(s.task(), SearchTask::Draw(_)));
        s.drawn(Some(candidate(*e)));
    }
    let mut solved = 0;
    while let SearchTask::Solve(at) = s.task() {
        solved += 1;
        let mut c = candidate(if solved % 4 == 0 { 2.5 } else { 50.0 });
        c.params.tc = at.tc;
        c.params.m = at.m;
        c.params.omega = at.omega;
        s.polished(c);
    }
    float(s.finish(&times(30)).unwrap().sse)
}

#[test]
fn more_starts_and_polishing_never_worsen_the_error() {
    let errors = [9.0, 7.0, 8.0, 3.0, 6.0, 4.0];
    let mut last = f64::INFINITY;
    for k in 1..=errors.len() {
        let plain = search_over(&errors[..k], 0);
        assert!(plain <= last);
        assert!(search_over(&errors[..k], 8) <= plain);
        assert_eq!(search_over(&errors[..k], 0), plain);
        last = plain;
    }
    assert_eq!((last, search_over(&errors, 8)), (3.0, 2.5));
}

#[test]
fn polishing_walks_the_six_moves_and_stops_without_progress() {
    let mut cfg = LpplFitConfig::default();
    cfg.num_polish_steps = 5;
    let mut walk = Polish::start(candidate(4.0), num(30.0), &cfg);
    let expected = [
        (72.0, 0.5, 8.0),
        (68.0, 0.5, 8.0),
        (70.0, 0.52, 8.0),
        (70.0, 0.48, 8.0),
        (70.0, 0.5, 8.3),
        (70.0, 0.5, 7.7),
    ];
    for (tc, m, omega) in expected {
        let p = walk.next_point().unwrap();
        assert_eq!((float(p.tc), float(p.m), float(p.omega)), (tc, m, omega));
        walk.answer(candidate(4.0));
    }
    assert_eq!(walk.next_point(), None);
    assert_eq!(walk.best, candidate(4.0));
}

#[test]
fn polishing_keeps_what_improves_and_goes_on() {
    let mut cfg = LpplFitConfig::default();
    cfg.num_polish_steps = 2;
    let mut walk = Polish::start(candidate(4.0), num(30.0), &cfg);
    let mut solved = 0;
    let mut last = 4.0;
    while let Some(p) = walk.next_point() {
        let mut c = candidate(if solved == 0 { 3.0 } else { 9.0 });
        c.params.tc = p.tc;
        walk.answer(c);
        solved += 1;
        assert!(float(walk.best.sse) <= last);
        last = float(walk.best.sse);
    }
    assert_eq!(solved, 12);
    assert_eq!(float(walk.best.sse), 3.0);
    assert_eq!(float(walk.best.params.tc), 72.0);
}

#[test]
fn polishing_is_held_to_the_intervals_and_skips_the_past() {
    let mut cfg = LpplFitConfig::default();
    cfg.tc_future_min = 0;
    cfg.tc_future_max = 1;
    let mut c = candidate(4.0);
    c.params.tc = num(31.0);
    c.params.m = num(0.9);
    c.params.omega = num(2.0);
    let mut walk = Polish::start(c, num(30.0), &cfg);
    let mut points = vec![];
    while let Some(p) = walk.next_point() {
        points.push((float(p.tc), float(p.m), float(p.omega)));
        walk.answer(candidate(100.0));
    }
    assert_eq!(points[0], (31.0, 0.9, 2.0));
    assert_eq!(points.len(), 5);
    for (tc, m, omega) in points {
        assert!(tc > 30.0 && tc <= 31.0);
        assert!((0.1..=0.9).contains(&m));
        assert!((2.0..=20.0).contains(&omega));
    }
}

#[test]
fn fits_hold_log_price_minus_model() {
    let prices: Vec<Real> = (0..30).map(|i| num(2.0 + i as f64)).collect();
    let predicted: Vec<Real> = (0..30).map(|i| num(1.5 + i as f64)).collect();
    let fit = assemble_fit(Some(candidate(1.0)), &prices, &predicted, times(30)).unwrap();
    assert_eq!(fit.residuals, vec![num(0.5); 30]);
    assert_eq!(fit.times, times(30));
    assert_eq!(
        assemble_fit(None, &prices, &predicted, times(30)).unwrap_err(),
        FitError::NoValidFit
    );
}

#[test]
fn a_search_polishes_its_best_start() {
    let mut cfg = LpplFitConfig::default();
    cfg.num_random_starts = 1;
    cfg.num_polish_steps = 4;
    let mut s = LpplSearch::start(times(30), times(30), &cfg).ok().unwrap();
    assert!(matches!(s.task(), SearchTask::Draw(_)));
    s.drawn(Some(candidate(5.0)));
    let mut solved = 0;
    loop {
        match s.task() {
            SearchTask::Solve(at) => {
                solved += 1;
                let mut c = candidate(if solved == 3 { 1.5 } else { 8.0 });
                c.params.tc = at.tc;
                c.params.m = at.m;
                c.params.omega = at.omega;
                s.polished(c);
            }
            SearchTask::Predict(p) => {
                assert_eq!((float(p.tc), float(p.m), float(p.omega)), (70.0, 0.52, 8.0));
                break;
            }
            other => panic!("{:?}", other),
        }
    }
    assert_eq!(solved, 12);
    let fit = s.finish(&times(30)).unwrap();
    assert_eq!(float(fit.sse), 1.5);
    assert!(float(fit.params.tc) >= 35.0 && float(fit.params.tc) <= 280.0);
}

#[test]
fn a_critical_time_stays_between_five_and_250_days_ahead() {
    let cfg = LpplFitConfig::default();
    for (first, way) in [(36.0, -1.0), (279.0, 1.0)] {
        let mut one = cfg;
        one.num_random_starts = 1;
        let mut s = LpplSearch::start(times(30), times(30), &one).ok().unwrap();
        s.task();
        let mut c = candidate(1000.0);
        c.params.tc = num(first);
        s.drawn(Some(c));
        while let SearchTask::Solve(at) = s.task() {
            let mut c = candidate(500.0 - way * float(at.tc));
            c.params.tc = at.tc;
            c.params.m = at.m;
            c.params.omega = at.omega;
            s.polished(c);
        }
        let tc = float(s.finish(&times(30)).unwrap().params.tc);
        assert_eq!(tc, if way < 0.0 { 35.0 } else { 280.0 });
    }
}
