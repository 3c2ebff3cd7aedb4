use hlpll_backtester::binary64::Real;

fn num(x: f64) -> Real {
    Real { bits: x.to_bits() }
}

fn same(r: Real, x: f64) -> bool {
    if x.is_nan() {
        r.is_nan()
    } else {
        r.bits == x.to_bits()
    }
}

/// Values that exercise signs, zeros, subnormals, rounding borders and infinities.
fn samples() -> Vec<f64> {
    let mut v = vec![
        0.0,
        -0.0,
        1.0,
        -1.0,
        0.1,
        -0.3,
        1.0 / 3.0,
        2.5,
        1e-300,
        -1e300,
        5e-324,
        2.2250738585072014e-308,
        f64::MAX,
        f64::MIN_POSITIVE,
        f64::EPSILON,
        9007199254740993.0,
        123456.789,
        f64::INFINITY,
        f64::NEG_INFINITY,
        f64::NAN,
    ];
    let mut state: u64 = 0x9E37_79B9_7F4A_7C15;
    for _ in 0..180 {
        state ^= state << 13;
        state ^= state >> 7;
        state ^= state << 17;
        v.push(f64::from_bits(state));
        let exponent = 1023 - 30 + (state % 60);
        v.push(f64::from_bits((exponent << 52) | (state >> 12)));
    }
    v
}

#[test]
fn sums_and_differences_match_hardware() {
    let v = samples();
    for &a in &v {
        for &b in &v {
            assert!(same(num(a).add(num(b)), a + b), "{:e} + {:e}", a, b);
            assert!(same(num(a).sub(num(b)), a - b), "{:e} - {:e}", a, b);
        }
    }
}

#[test]
fn products_and_quotients_match_hardware() {
    let v = samples();
    for &a in &v {
        for &b in &v {
            assert!(same(num(a).mul(num(b)), a * b), "{:e} * {:e}", a, b);
            assert!(same(num(a).div(num(b)), a / b), "{:e} / {:e}", a, b);
        }
    }
}

#[test]
fn roots_match_hardware() {
    for &a in &samples() {
        assert!(same(num(a).sqrt(), a.sqrt()), "sqrt {:e}", a);
        assert!(same(num(a.abs()).sqrt(), a.abs().sqrt()), "sqrt {:e}", a.abs());
    }
}

#[test]
fn comparisons_match_hardware() {
    let v = samples();
    for &a in &v {
        for &b in &v {
            assert_eq!(num(a).lt(num(b)), a < b);
            assert_eq!(num(a).le(num(b)), a <= b);
            if a != b {
                assert!(same(num(a).max(num(b)), a.max(b)));
                assert!(same(num(a).min(num(b)), a.min(b)));
            }
        }
    }
}

#[test]
fn signs_match_hardware() {
    for &a in &samples() {
        assert!(same(num(a).neg(), -a));
        assert!(same(num(a).abs(), a.abs()));
        assert!(same(num(a).signum(), a.signum()));
        assert_eq!(num(a).is_finite(), a.is_finite());
        assert_eq!(num(a).is_nan(), a.is_nan());
    }
}

#[test]
fn clamping_matches_hardware() {
    for &a in &samples() {
        assert!(same(num(a).clamp(num(-0.4), num(0.4)), a.clamp(-0.4, 0.4)));
    }
}

#[test]
fn integers_convert_like_hardware() {
    for n in [
        0u64,
        1,
        2,
        3,
        100,
        255,
        (1 << 53) - 1,
        1 << 53,
        (1 << 53) + 1,
        (1 << 53) + 3,
        (1 << 60) + 64,
        u64::MAX,
        u64::MAX - 1,
    ] {
        assert!(same(Real::from_u64(n), n as f64), "{}", n);
        assert!(same(Real::from_usize(n as usize), (n as usize) as f64), "{}", n);
    }
}

#[test]
fn rounding_to_integers_matches_hardware() {
    for &a in &samples() {
        assert_eq!(num(a).round_to_i64(), a.round() as i64, "{:e}", a);
    }
    for k in -40..40 {
        let x = k as f64 / 4.0;
        assert_eq!(num(x).round_to_i64(), x.round() as i64);
    }
}
