use hlpll_backtester::binary64::Real;
use hlpll_backtester::bubble_score::{
    compute_bubble_score, normalize_last_residual, normalize_last_residual_running_style,
    normalize_running_max,
};
use hlpll_backtester::hype::compute_volume_hype;
use hlpll_backtester::sentiment::{compute_simple_sentiment, neutral_sentiment};

fn num(x: f64) -> Real {
    Real { bits: x.to_bits() }
}

fn nums(v: &[f64]) -> Vec<Real> {
    v.iter().map(|&x| num(x)).collect()
}

fn floats(v: &[Real]) -> Vec<f64> {
    v.iter().map(|r| f64::from_bits(r.bits)).collect()
}

fn score(e: f64, h: f64, s: f64) -> f64 {
    let r = compute_bubble_score(num(e), num(h), num(s), num(0.7), num(0.3));
    f64::from_bits(r.bits)
}

#[test]
fn a_price_above_its_curve_is_pushed_up() {
    assert_eq!(score(0.9, 0.3, 0.1), 0.9 + 0.7 * 0.3 + 0.3 * 0.1);
    assert_eq!(score(0.0, 0.5, -0.2), 0.0 + 0.7 * 0.5 + 0.3 * -0.2);
    assert!(score(0.4, 0.2, 0.1) >= 0.4);
}

#[test]
fn a_price_below_its_curve_is_pushed_down() {
    assert_eq!(score(-0.9, 0.3, 0.1), -0.9 - 0.7 * 0.3 - 0.3 * 0.1);
    assert_eq!(score(-0.2, -0.5, 0.4), -0.2 - 0.7 * -0.5 - 0.3 * 0.4);
    assert!(score(-0.4, 0.2, 0.1) <= -0.4);
}

#[test]
fn an_undefined_residual_gives_an_undefined_score() {
    assert!(score(f64::NAN, 0.3, 0.1).is_nan());
}

#[test]
fn residuals_are_shares_of_the_largest_so_far() {
    let raw = nums(&[9.0, 1.0, -2.0, 1.0, 4.0, -3.0, 0.0]);
    let out = floats(&normalize_running_max(&raw, 1));
    assert_eq!(out, vec![0.0, 1.0, -1.0, 0.5, 1.0, -0.75, 0.0]);
    for x in &out {
        assert!((-1.0..=1.0).contains(x));
    }
}

#[test]
fn negligible_residuals_are_zero() {
    let raw = nums(&[1e-13, -1e-12, 2e-12]);
    assert_eq!(floats(&normalize_running_max(&raw, 0)), vec![0.0, 0.0, 1.0]);
    assert!(normalize_running_max(&vec![], 0).is_empty());
    assert_eq!(floats(&normalize_running_max(&nums(&[1.0]), 5)), vec![0.0]);
}

#[test]
fn normalization_looks_only_back() {
    let a = nums(&[1.0, -2.0, 0.5, 7.0]);
    let b = nums(&[1.0, -2.0, 0.5, -100.0]);
    let x = normalize_running_max(&a, 0);
    let y = normalize_running_max(&b, 0);
    assert_eq!(x[..3], y[..3]);
}

#[test]
fn the_last_residual_is_a_share_of_its_window() {
    let window = nums(&[0.5, -2.0, 1.0]);
    assert_eq!(normalize_last_residual_running_style(&window), num(0.5));
    assert_eq!(normalize_last_residual(&window), num(0.5));
    assert_eq!(normalize_last_residual(&vec![]), num(0.0));
    assert_eq!(normalize_last_residual(&nums(&[1e-15])), num(0.0));
    let series = normalize_running_max(&window, 0);
    assert_eq!(series[2], normalize_last_residual(&window));
}

#[test]
fn moods_follow_the_formula() {
    let changes = [0.01, -0.02, 2.0, -5.0, 0.0, -0.0, 1.3, f64::INFINITY];
    let moods = compute_simple_sentiment(&nums(&changes));
    for (m, r) in moods.iter().zip(changes.iter()) {
        let sign = if *r == 0.0 { 0.0 } else { r.signum() };
        let expected = sign * 0.15 + (r * 0.3).clamp(-0.4, 0.4);
        assert_eq!(m.bits, expected.to_bits(), "{}", r);
        assert!(f64::from_bits(m.bits).abs() <= 0.55);
    }
    assert!(compute_simple_sentiment(&nums(&[f64::NAN]))[0].is_nan());
}

#[test]
fn gains_lift_the_mood_and_losses_lower_it() {
    let moods = floats(&compute_simple_sentiment(&nums(&[0.001, -0.001])));
    assert!(moods[0] > 0.0 && moods[1] < 0.0);
    assert_eq!(neutral_sentiment(3), nums(&[0.0, 0.0, 0.0]));
    assert_eq!(compute_simple_sentiment(&nums(&[0.0, -0.0])), nums(&[0.0, 0.0]));
}

#[test]
fn moods_grow_with_the_change_and_are_odd() {
    let changes: Vec<f64> = (-300..=300).map(|i| i as f64 * 0.01).collect();
    let moods = floats(&compute_simple_sentiment(&nums(&changes)));
    for i in 1..moods.len() {
        assert!(moods[i - 1] <= moods[i]);
    }
    let opposite: Vec<f64> = changes.iter().map(|r| -r).collect();
    let mirrored = floats(&compute_simple_sentiment(&nums(&opposite)));
    for i in 0..moods.len() {
        assert_eq!(mirrored[i], -moods[i]);
    }
}

#[test]
fn scores_are_odd_in_the_residual() {
    for e in [0.001, 0.3, 0.9, 1.0, 5.0] {
        for (h, s) in [(0.3, 0.1), (-0.4, 0.2), (0.0, -0.3)] {
            assert_eq!(score(-e, h, s), -score(e, h, s));
        }
    }
}

fn expected_hype(volumes: &[f64], window: usize) -> Vec<f64> {
    let n = volumes.len();
    let w = window.min(n).max(5);
    (0..n)
        .map(|i| {
            let slice = &volumes[(i + 1).saturating_sub(w)..=i];
            let mut sum = 0.0;
            for v in slice {
                sum += v;
            }
            let mean = sum / slice.len() as f64;
            let mut squares = 0.0;
            for v in slice {
                squares += (v - mean) * (v - mean);
            }
            let var = squares / slice.len() as f64;
            (volumes[i] - mean) / (var + 1e-9).sqrt() * 0.6
        })
        .collect()
}

#[test]
fn hype_arguments_are_scaled_z_scores() {
    let volumes: Vec<f64> = (0..80).map(|i| 1.0e6 + ((i * i * 37) % 1009) as f64 * 913.0).collect();
    for window in [3usize, 5, 20, 60, 200] {
        let got = floats(&compute_volume_hype(&nums(&volumes), window));
        assert_eq!(got, expected_hype(&volumes, window));
    }
    assert!(compute_volume_hype(&vec![], 60).is_empty());
    assert_eq!(floats(&compute_volume_hype(&nums(&[7.0]), 60)), vec![0.0]);
}

#[test]
fn a_volume_spike_is_positive_hype() {
    let mut volumes = vec![100.0; 30];
    volumes[29] = 1000.0;
    let got = floats(&compute_volume_hype(&nums(&volumes), 20));
    assert!(got[29] > 1.0);
    assert_eq!(got[28], 0.0);
}

#[test]
fn a_volume_leaves_its_window_after_as_many_bars() {
    let volumes = nums(&[100.0, 1.0, 1.0, 1.0, 1.0, 1.0]);
    let got = floats(&compute_volume_hype(&volumes, 5));
    assert_eq!(got[0], 0.0);
    for i in 1..5 {
        assert!(got[i] < 0.0);
    }
    assert_eq!(got[5], 0.0);
}

#[test]
fn hype_is_defined_for_finite_volumes() {
    let largest = f64::MAX.sqrt();
    for v in [vec![0.0; 6], vec![largest, 0.0, largest, 1e-300, largest, 0.0], vec![1e308, 0.0, 1.0]] {
        for h in floats(&compute_volume_hype(&nums(&v), 5)) {
            assert!(!h.is_nan());
        }
    }
    let over = floats(&compute_volume_hype(&nums(&[1.7e308, 1.7e308]), 5));
    assert!(over[1].is_nan());
}

#[test]
fn hype_looks_only_back() {
    let a = nums(&[5.0, 7.0, 6.0, 9.0, 2.0, 8.0, 4.0]);
    let mut b = a.clone();
    b[6] = num(400.0);
    let x = compute_volume_hype(&a, 5);
    let y = compute_volume_hype(&b, 5);
    assert_eq!(x[..6], y[..6]);
    assert_eq!(compute_volume_hype(&nums(&[1.0e6; 9]), 5), nums(&[0.0; 9]));
}
