//! Correct rounding of exact non-negative quantities to a 53-bit significand.
//!
//! A quantity is a ratio `n / d` counted in units of 2^-1074, the smallest positive
//! binary64 number. The result is the *magnitude field* of the nearest binary64
//! number: the 63 low bits of its encoding, which order numbers by magnitude.

use vstd::arithmetic::div_mod::*;
use vstd::arithmetic::mul::*;
use vstd::arithmetic::power2::*;
use vstd::prelude::*;

verus! {

/// Weight of the exponent bits inside a magnitude field (2^52).
pub const EXPONENT_UNIT: u64 = 0x10_0000_0000_0000;

/// First value that no longer fits a 53-bit significand (2^53).
pub const SIGNIFICAND_END: u64 = 0x20_0000_0000_0000;

/// Magnitude field of infinity.
pub const INFINITY_FIELD: u64 = 0x7FF0_0000_0000_0000;

/// How often `q` is halved before it fits a 53-bit significand.
pub open spec fn ulp_scale(q: nat) -> nat
    decreases q,
{
    if q < SIGNIFICAND_END {
        0
    } else {
        1 + ulp_scale(q / 2)
    }
}

/// The integer nearest to `m + rest / whole`, the even one on a tie.
pub open spec fn nearest_even(m: nat, rest: nat, whole: nat) -> nat {
    if 2 * rest > whole || (2 * rest == whole && m % 2 == 1) {
        m + 1
    } else {
        m
    }
}

/// Magnitude field of the number nearest to `n / d`, ties to even, infinity on overflow.
pub open spec fn round_ratio(n: nat, d: nat) -> nat {
    let k = ulp_scale(n / d);
    let unit = d * pow2(k);
    let field = k * EXPONENT_UNIT as nat + nearest_even(n / unit, n % unit, unit);
    if field < INFINITY_FIELD {
        field
    } else {
        INFINITY_FIELD as nat
    }
}

/// `2^i` as a machine integer.
pub fn power_of_two(i: u32) -> (r: u128)
    requires
        i < 128,
    ensures
        r == pow2(i as nat),
        r >= 1,
{
    let mut r: u128 = 1;
    let mut j: u32 = 0;
    proof {
        lemma2_to64();
    }
    while j < i
        invariant
            j <= i < 128,
            r == pow2(j as nat),
            r >= 1,
        decreases i - j,
    {
        proof {
            lemma_pow2_unfold((j + 1) as nat);
            lemma_pow2_127();
            if j + 1 < 127 {
                lemma_pow2_strictly_increases((j + 1) as nat, 127);
            }
        }
        r = r * 2;
        j = j + 1;
    }
    r
}

/// 2^127 still leaves room to double inside 128 bits.
pub proof fn lemma_pow2_127()
    ensures
        pow2(127) == 0x8000_0000_0000_0000_0000_0000_0000_0000,
{
    lemma2_to64_rest();
    lemma_pow2_adds(63, 64);
    lemma2_to64();
}

/// The two constants as powers of two.
pub proof fn lemma_pow2_constants()
    ensures
        pow2(0) == 1,
        pow2(52) == EXPONENT_UNIT,
        pow2(53) == SIGNIFICAND_END,
{
    lemma2_to64();
    lemma2_to64_rest();
}

/// Number of binary digits of `m`.
pub fn bit_length(m: u128) -> (r: u32)
    requires
        0 < m < 0x8000_0000_0000_0000_0000_0000_0000_0000,
    ensures
        1 <= r <= 127,
        pow2((r - 1) as nat) <= m < pow2(r as nat),
{
    let mut r: u32 = 1;
    let mut top: u128 = 2;
    proof {
        lemma2_to64();
        lemma_pow2_127();
    }
    while m >= top
        invariant
            1 <= r <= 127,
            pow2((r - 1) as nat) <= m < 0x8000_0000_0000_0000_0000_0000_0000_0000,
            top == pow2(r as nat),
            pow2(127) == 0x8000_0000_0000_0000_0000_0000_0000_0000,
        decreases 127 - r,
    {
        proof {
            lemma_pow2_unfold((r + 1) as nat);
            if r >= 127 {
                assert(false);
            }
        }
        top = top * 2;
        r = r + 1;
    }
    r
}

/// `ulp_scale` is the only scale whose binade holds `q`.
pub proof fn lemma_ulp_scale_binade(q: nat, k: nat)
    requires
        q < SIGNIFICAND_END * pow2(k),
        k > 0 ==> q >= EXPONENT_UNIT * pow2(k),
    ensures
        ulp_scale(q) == k,
    decreases k,
{
    lemma_pow2_pos(k);
    if k == 0 {
        lemma2_to64();
    } else {
        lemma_pow2_unfold(k);
        let p = pow2((k - 1) as nat);
        lemma_pow2_pos((k - 1) as nat);
        assert(pow2(k) == 2 * p);
        assert(EXPONENT_UNIT * (2 * p) == SIGNIFICAND_END * p) by (nonlinear_arith);
        assert(SIGNIFICAND_END * (2 * p) == 2 * (SIGNIFICAND_END * p)) by (nonlinear_arith);
        assert(q >= SIGNIFICAND_END * p);
        assert(SIGNIFICAND_END * p >= SIGNIFICAND_END) by (nonlinear_arith)
            requires
                p >= 1,
        ;
        assert(q / 2 < SIGNIFICAND_END * p);
        if k - 1 > 0 {
            assert(EXPONENT_UNIT * (2 * p) == 2 * (EXPONENT_UNIT * p)) by (nonlinear_arith);
            assert(q / 2 >= EXPONENT_UNIT * p);
        }
        lemma_ulp_scale_binade(q / 2, (k - 1) as nat);
    }
}


/// `m` and `sticky` describe `n / d` down to units of 2^e: `m` whole units, and a
/// non-zero rest below one unit exactly when `sticky`.
pub open spec fn truncated(n: nat, d: nat, e: int, m: nat, sticky: bool) -> bool {
    let up = pow2(if e < 0 { (-e) as nat } else { 0 });
    let down = pow2(if e > 0 { e as nat } else { 0 });
    &&& m == (n * up) / (d * down)
    &&& sticky == ((n * up) % (d * down) != 0)
}

/// Moving the scale from `e` to `k` multiplies both sides of a comparison alike.
proof fn lemma_scale_shift(e: int, k: nat)
    requires
        e <= k,
    ensures
        pow2(k) * pow2(if e < 0 { (-e) as nat } else { 0 })
            == pow2(if e > 0 { e as nat } else { 0 }) * pow2((k - e) as nat),
{
    lemma_pow2_constants();
    if e < 0 {
        lemma_pow2_adds(k, (-e) as nat);
        assert(1 * pow2((k - e) as nat) == pow2((k - e) as nat));
    } else {
        if e == 0 {
            assert(pow2(e as nat) == 1);
        }
        lemma_pow2_adds(e as nat, (k - e) as nat);
        assert(pow2(k) * 1 == pow2(k));
    }
}

/// Bounds on `n` that a truncation gives.
proof fn lemma_truncated_bounds(n: nat, d: nat, e: int, m: nat, sticky: bool)
    requires
        d > 0,
        truncated(n, d, e, m, sticky),
    ensures
        ({
            let up = pow2(if e < 0 { (-e) as nat } else { 0 });
            let down = pow2(if e > 0 { e as nat } else { 0 });
            &&& up > 0
            &&& down > 0
            &&& d * down > 0
            &&& m * (d * down) <= n * up < (m + 1) * (d * down)
        }),
{
    let up = pow2(if e < 0 { (-e) as nat } else { 0 });
    let down = pow2(if e > 0 { e as nat } else { 0 });
    lemma_pow2_pos(if e < 0 { (-e) as nat } else { 0 });
    lemma_pow2_pos(if e > 0 { e as nat } else { 0 });
    assert(d * down > 0) by (nonlinear_arith)
        requires
            d > 0,
            down > 0,
    ;
    let w = d * down;
    lemma_fundamental_div_mod((n * up) as int, w as int);
    assert(m * w == w * m) by (nonlinear_arith);
    assert((m + 1) * w == w * m + w) by (nonlinear_arith);
}

/// The scale of the nearest number follows from the length of the truncation.
proof fn lemma_round_scale(n: nat, d: nat, e: int, m: nat, sticky: bool, len: nat, k: nat)
    requires
        d > 0,
        truncated(n, d, e, m, sticky),
        len >= 1,
        pow2((len - 1) as nat) <= m < pow2(len),
        k == (if len + e - 53 > 0 { len + e - 53 } else { 0 }),
    ensures
        ulp_scale(n / d) == k,
{
    let en = if e < 0 { (-e) as nat } else { 0 };
    let ep = if e > 0 { e as nat } else { 0 };
    let up = pow2(en);
    let down = pow2(ep);
    lemma_truncated_bounds(n, d, e, m, sticky);
    let w = d * down;
    let q = n / d;
    lemma_fundamental_div_mod(n as int, d as int);
    lemma_pow2_pos(len);
    lemma_pow2_pos(k);
    lemma_pow2_constants();
    // n * up < 2^len * w, so n < 2^(len + e) * d where len + e is not negative.
    assert((m + 1) * w <= pow2(len) * w) by (nonlinear_arith)
        requires
            m + 1 <= pow2(len),
    ;
    assert(SIGNIFICAND_END == pow2(53));
    assert(EXPONENT_UNIT == pow2(52));
    // upper bound: n < 2^(53 + k) * d
    lemma_pow2_adds(53, k);
    lemma_pow2_adds(len, ep);
    lemma_pow2_adds((53 + k) as nat, en);
    if len + ep < 53 + k + en {
        lemma_pow2_strictly_increases((len + ep) as nat, (53 + k + en) as nat);
    }
    assert(pow2(len) * w == (pow2(len) * down) * d) by (nonlinear_arith)
        requires
            w == d * down,
    ;
    assert((pow2(len) * down) * d <= (pow2((53 + k) as nat) * up) * d) by (nonlinear_arith)
        requires
            pow2(len) * down <= pow2((53 + k) as nat) * up,
    ;
    assert((pow2((53 + k) as nat) * up) * d == (pow2((53 + k) as nat) * d) * up) by (nonlinear_arith);
    assert(n < pow2((53 + k) as nat) * d) by (nonlinear_arith)
        requires
            n * up < (pow2((53 + k) as nat) * d) * up,
            up > 0,
    ;
    assert(q < pow2((53 + k) as nat)) by (nonlinear_arith)
        requires
            d > 0,
            d * q <= n,
            n < pow2((53 + k) as nat) * d,
    ;
    if k > 0 {
        // lower bound: 2^(52 + k) * d <= n
        lemma_pow2_adds(52, k);
        lemma_pow2_adds((len - 1) as nat, ep);
        lemma_pow2_adds((52 + k) as nat, en);
        assert(len - 1 + ep == 52 + k + en);
        assert(pow2((len - 1) as nat) * w <= m * w) by (nonlinear_arith)
            requires
                pow2((len - 1) as nat) <= m,
        ;
        assert(pow2((len - 1) as nat) * w == (pow2((len - 1) as nat) * down) * d)
            by (nonlinear_arith)
            requires
                w == d * down,
        ;
        assert((pow2((52 + k) as nat) * up) * d == (pow2((52 + k) as nat) * d) * up)
            by (nonlinear_arith);
        assert(pow2((52 + k) as nat) * d <= n) by (nonlinear_arith)
            requires
                (pow2((52 + k) as nat) * d) * up <= n * up,
                up > 0,
        ;
        assert(q >= pow2((52 + k) as nat)) by {
            lemma_div_is_ordered((pow2((52 + k) as nat) * d) as int, n as int, d as int);
            lemma_div_by_multiple(pow2((52 + k) as nat) as int, d as int);
        }
    }
    lemma_ulp_scale_binade(q, k);
}

/// Whole units and rest of `n / d` at scale `k`, read off a finer truncation.
proof fn lemma_round_digits(n: nat, d: nat, e: int, m: nat, sticky: bool, k: nat)
    requires
        d > 0,
        truncated(n, d, e, m, sticky),
        e < k,
    ensures
        ({
            let s = (k - e) as nat;
            let unit = d * pow2(k);
            let low = m % pow2(s);
            let half = pow2((s - 1) as nat);
            &&& unit > 0
            &&& n / unit == m / pow2(s)
            &&& 2 * (n % unit) > unit <==> (low > half || (low == half && sticky))
            &&& 2 * (n % unit) == unit <==> (low == half && !sticky)
        }),
{
    let en = if e < 0 { (-e) as nat } else { 0 };
    let ep = if e > 0 { e as nat } else { 0 };
    let up = pow2(en);
    let down = pow2(ep);
    let s = (k - e) as nat;
    let p = pow2(s);
    let half = pow2((s - 1) as nat);
    let unit = d * pow2(k);
    let w = d * down;
    let low = m % p;
    lemma_truncated_bounds(n, d, e, m, sticky);
    lemma_pow2_pos(s);
    lemma_pow2_pos(k);
    lemma_pow2_unfold(s);
    lemma_scale_shift(e, k);
    assert(unit > 0) by (nonlinear_arith)
        requires
            d > 0,
            pow2(k) > 0,
            unit == d * pow2(k),
    ;
    // unit * up == w * p
    assert(unit * up == w * p) by (nonlinear_arith)
        requires
            unit == d * pow2(k),
            w == d * down,
            pow2(k) * up == down * p,
    ;
    assert(w * p > 0) by (nonlinear_arith)
        requires
            w > 0,
            p > 0,
    ;
    let big = n * up;
    let rho = big % w;
    let r = n % unit;
    let h = m / p;
    lemma_fundamental_div_mod(big as int, w as int);
    lemma_fundamental_div_mod(m as int, p as int);
    lemma_fundamental_div_mod(n as int, unit as int);
    lemma_mod_bound(big as int, w as int);
    lemma_mod_bound(m as int, p as int);
    lemma_mod_bound(n as int, unit as int);
    // big == (w * p) * h + (w * low + rho)
    assert(big == (w * p) * h + (w * low + rho)) by (nonlinear_arith)
        requires
            big == w * m + rho,
            m == p * h + low,
    ;
    assert(w * low + rho < w * p) by (nonlinear_arith)
        requires
            low + 1 <= p,
            rho < w,
    ;
    // n == unit * h + (rest) follows from uniqueness of quotient.
    let qn = n / unit;
    assert(big == (w * p) * qn + r * up) by (nonlinear_arith)
        requires
            big == n * up,
            n == unit * qn + r,
            unit * up == w * p,
    ;
    assert(r * up < w * p) by (nonlinear_arith)
        requires
            r < unit,
            unit * up == w * p,
            up > 0,
    ;
    assert(qn == h && r * up == w * low + rho) by {
        lemma_fundamental_div_mod_converse(
            big as int,
            (w * p) as int,
            h as int,
            (w * low + rho) as int,
        );
        lemma_mul_nonnegative(r as int, up as int);
        lemma_fundamental_div_mod_converse(
            big as int,
            (w * p) as int,
            qn as int,
            (r * up) as int,
        );
    }
    // compare 2 * r with unit through 2 * (w * low + rho) with w * p == 2 * w * half
    assert(p == 2 * half);
    assert(2 * (r * up) == (2 * r) * up) by (nonlinear_arith);
    assert((2 * r) * up > unit * up <==> 2 * r > unit) by (nonlinear_arith)
        requires
            up > 0,
    ;
    assert((2 * r) * up == unit * up <==> 2 * r == unit) by (nonlinear_arith)
        requires
            up > 0,
    ;
    assert(w * p == 2 * (w * half)) by (nonlinear_arith)
        requires
            p == 2 * half,
    ;
    if low > half {
        assert(w * low >= w * half + w) by (nonlinear_arith)
            requires
                low >= half + 1,
        ;
    } else if low == half {
    } else {
        assert(w * low + w <= w * half) by (nonlinear_arith)
            requires
                low + 1 <= half,
        ;
    }
}

/// Magnitude field of the number nearest to `n / d`, given its truncation to units of 2^e.
pub fn round_truncated(
    m: u128,
    e: i32,
    sticky: bool,
    Ghost(n): Ghost<nat>,
    Ghost(d): Ghost<nat>,
) -> (field: u64)
    requires
        d > 0,
        m < 0x8000_0000_0000_0000_0000_0000_0000_0000,
        -4000 <= e <= 4000,
        truncated(n, d, e as int, m as nat, sticky),
        sticky ==> m >= SIGNIFICAND_END || e <= -1,
    ensures
        field == round_ratio(n, d),
        field <= INFINITY_FIELD,
{
    if m == 0 {
        proof {
            lemma_round_zero(n, d, e as int, sticky);
        }
        return 0;
    }
    let len = bit_length(m);
    let k: i32 = if len as i32 + e > 53 {
        len as i32 + e - 53
    } else {
        0
    };
    proof {
        lemma_round_scale(n, d, e as int, m as nat, sticky, len as nat, k as nat);
        lemma_pow2_constants();
        if m >= SIGNIFICAND_END && len <= 53 {
            if len < 53 {
                lemma_pow2_strictly_increases(len as nat, 53);
            }
            assert(false);
        }
    }
    if k <= e {
        // The truncation is exact and shorter than a significand.
        let lift = power_of_two((e - k) as u32);
        proof {
            lemma_round_exact(n, d, e as nat, m as nat, k as nat);
            lemma_pow2_adds(len as nat, (e - k) as nat);
            assert(m * lift < pow2(len as nat) * lift) by (nonlinear_arith)
                requires
                    m < pow2(len as nat),
                    lift >= 1,
            ;
            if len + (e - k) < 53 {
                lemma_pow2_strictly_increases((len + (e - k)) as nat, 53);
            }
        }
        return assemble_field(k as u32, (m * lift) as u64);
    }
    proof {
        lemma_round_digits(n, d, e as int, m as nat, sticky, k as nat);
    }
    let s: u32 = (k - e) as u32;
    if s >= 128 {
        // Less than half of the smallest unit: only possible at scale 0.
        proof {
            lemma_pow2_127();
            if s > 128 {
                lemma_pow2_strictly_increases(127, (s - 1) as nat);
            }
            lemma_pow2_strictly_increases(127, s as nat);
            lemma_basic_div(m as int, pow2(s as nat) as int);
            lemma_small_mod(m as nat, pow2(s as nat));
            if k > 0 {
                assert(s == len - 53);
                assert(false);
            }
        }
        return 0;
    }
    let p = power_of_two(s);
    let half = power_of_two(s - 1);
    let high = m / p;
    let low = m % p;
    proof {
        // high < 2^53
        lemma_pow2_adds((len as nat), 0);
        lemma_fundamental_div_mod(m as int, p as int);
        if len <= s {
            if len < s {
                lemma_pow2_strictly_increases(len as nat, s as nat);
            }
            lemma_basic_div(m as int, p as int);
        } else {
            lemma_pow2_adds((len - s) as nat, s as nat);
            assert(high < pow2((len - s) as nat)) by (nonlinear_arith)
                requires
                    p * high <= m,
                    m < pow2((len - s) as nat) * p,
                    p >= 1,
            ;
            if len - s < 53 {
                lemma_pow2_strictly_increases((len - s) as nat, 53);
            }
        }
    }
    let rounded: u64 = if low > half || (low == half && (sticky || high % 2 == 1)) {
        high as u64 + 1
    } else {
        high as u64
    };
    assemble_field(k as u32, rounded)
}

/// Puts a significand into the binade of scale `k`.
fn assemble_field(k: u32, significand: u64) -> (field: u64)
    requires
        significand <= SIGNIFICAND_END,
    ensures
        field <= INFINITY_FIELD,
        field == ({
            let f = k as nat * EXPONENT_UNIT as nat + significand as nat;
            if f < INFINITY_FIELD {
                f
            } else {
                INFINITY_FIELD as nat
            }
        }),
{
    if k >= 2047 {
        return INFINITY_FIELD;
    }
    let field: u64 = k as u64 * EXPONENT_UNIT + significand;
    if field < INFINITY_FIELD {
        field
    } else {
        INFINITY_FIELD
    }
}

/// Nothing but a rest below half a unit rounds to zero.
proof fn lemma_round_zero(n: nat, d: nat, e: int, sticky: bool)
    requires
        d > 0,
        truncated(n, d, e, 0, sticky),
        sticky ==> e <= -1,
    ensures
        round_ratio(n, d) == 0,
{
    lemma_truncated_bounds(n, d, e, 0, sticky);
    let en = if e < 0 { (-e) as nat } else { 0 };
    let ep = if e > 0 { e as nat } else { 0 };
    let up = pow2(en);
    let down = pow2(ep);
    lemma2_to64();
    if !sticky {
        lemma_fundamental_div_mod((n * up) as int, (d * down) as int);
        assert((d * down) * 0 == 0) by (nonlinear_arith);
        assert(n * up == 0);
        assert(n == 0) by (nonlinear_arith)
            requires
                n * up == 0,
                up > 0,
        ;
    } else {
        lemma_pow2_unfold(en);
        lemma_pow2_pos((en - 1) as nat);
        assert(2 * n <= n * up) by (nonlinear_arith)
            requires
                up >= 2,
        ;
        assert((0 + 1) * (d * down) == d) by (nonlinear_arith)
            requires
                down == 1,
        ;
        assert(2 * n < d);
    }
    lemma_basic_div(n as int, d as int);
    assert(ulp_scale(0) == 0);
    lemma_small_mod(n, d);
    assert(d * pow2(0) == d);
}

/// A short exact truncation is its own rounding.
proof fn lemma_round_exact(n: nat, d: nat, e: nat, m: nat, k: nat)
    requires
        d > 0,
        truncated(n, d, e as int, m, false),
        k <= e,
    ensures
        n / (d * pow2(k)) == m * pow2((e - k) as nat),
        n % (d * pow2(k)) == 0,
        d * pow2(k) > 0,
{
    lemma_truncated_bounds(n, d, e as int, m, false);
    lemma2_to64();
    lemma_pow2_pos(k);
    let down = pow2(e);
    let unit = d * pow2(k);
    let lift = pow2((e - k) as nat);
    lemma_pow2_adds(k, (e - k) as nat);
    assert(pow2(k) * lift == down);
    lemma_fundamental_div_mod((n * 1) as int, (d * down) as int);
    assert(n == unit * (m * lift)) by (nonlinear_arith)
        requires
            n == (d * down) * m,
            unit == d * pow2(k),
            pow2(k) * lift == down,
    ;
    assert(unit > 0) by (nonlinear_arith)
        requires
            d > 0,
            pow2(k) > 0,
            unit == d * pow2(k),
    ;
    assert(n == (m * lift) * unit) by (nonlinear_arith)
        requires
            n == unit * (m * lift),
    ;
    lemma_fundamental_div_mod_converse(n as int, unit as int, (m * lift) as int, 0);
}

/// `r` is the integer part of the square root of `n`.
pub open spec fn is_floor_root(n: nat, r: nat) -> bool {
    r * r <= n && n < (r + 1) * (r + 1)
}

/// Integer part of the square root.
pub open spec fn floor_root(n: nat) -> nat {
    choose|r: nat| is_floor_root(n, r)
}

/// Magnitude field of the number nearest to the square root of `n`, ties to even.
pub open spec fn round_root(n: nat) -> nat {
    let k = ulp_scale(floor_root(n));
    let m = floor_root(n) / pow2(k);
    let middle = (2 * m + 1) * pow2(k);
    let up = 4 * n > middle * middle || (4 * n == middle * middle && m % 2 == 1);
    k * EXPONENT_UNIT as nat + (if up { m + 1 } else { m })
}

/// Integer part of the square root of `w`.
pub fn integer_root(w: u128) -> (r: u64)
    ensures
        is_floor_root(w as nat, r as nat),
{
    let mut r: u64 = 0;
    let mut bit: u64 = 0x8000_0000_0000_0000;
    assert((0 + 2 * bit) * (0 + 2 * bit) == 0x1_0000_0000_0000_0000_0000_0000_0000_0000)
        by (nonlinear_arith)
        requires
            bit == 0x8000_0000_0000_0000,
    ;
    proof {
        lemma2_to64_rest();
        assert(bit == pow2(63));
    }
    while bit > 0
        invariant
            r + 2 * bit <= 0x1_0000_0000_0000_0000,
            r * r <= w,
            bit > 0 ==> w < (r + 2 * bit) * (r + 2 * bit),
            bit == 0 ==> w < (r + 1) * (r + 1),
            bit > 1 ==> bit % 2 == 0,
            is_bit(bit),
        decreases bit,
    {
        proof {
            lemma_half_bit(bit);
        }
        let c: u64 = r + bit;
        assert(c * c <= 0xFFFF_FFFF_FFFF_FFFF * 0xFFFF_FFFF_FFFF_FFFF) by (nonlinear_arith)
            requires
                0 <= c <= 0xFFFF_FFFF_FFFF_FFFF,
        ;
        assert(0 <= c * c) by (nonlinear_arith);
        let square: u128 = c as u128 * c as u128;
        if square <= w {
            r = c;
        }
        bit = bit / 2;
    }
    r
}

/// A single bit of a 64-bit word, or none.
spec fn is_bit(b: u64) -> bool {
    b == 0 || exists|i: nat| i < 64 && b == #[trigger] pow2(i)
}

proof fn lemma_half_bit(b: u64)
    requires
        is_bit(b),
        b > 0,
    ensures
        is_bit(b / 2),
        b > 1 ==> b % 2 == 0,
        b / 2 > 1 ==> (b / 2) % 2 == 0,
{
    let i = choose|i: nat| i < 64 && b == #[trigger] pow2(i);
    lemma2_to64();
    if i > 0 {
        lemma_pow2_unfold(i);
        assert(b / 2 == pow2((i - 1) as nat));
        if i > 1 {
            lemma_pow2_unfold((i - 1) as nat);
        }
    }
}

/// Magnitude field of the square root of `w * 4^j`, for `w` of at least 124 bits.
pub fn round_root_scaled(w: u128, j: u32, Ghost(n): Ghost<nat>) -> (field: u64)
    requires
        0x1000_0000_0000_0000_0000_0000_0000_0000 <= w
            < 0x8000_0000_0000_0000_0000_0000_0000_0000,
        1 <= j <= 1600,
        n == w * (pow2(j as nat) * pow2(j as nat)),
    ensures
        field == round_root(n),
        field < INFINITY_FIELD,
{
    let r = integer_root(w);
    proof {
        assert(r >= 0x4000_0000_0000_0000) by (nonlinear_arith)
            requires
                (r + 1) * (r + 1) > 0x1000_0000_0000_0000_0000_0000_0000_0000,
                r >= 0,
        ;
        assert(r * r < 0x1_0000_0000_0000_0000 * 0x1_0000_0000_0000_0000) by (nonlinear_arith)
            requires
                0 <= r <= 0xFFFF_FFFF_FFFF_FFFF,
        ;
    }
    let square: u128 = r as u128 * r as u128;
    let sticky = square != w;
    let len = bit_length(r as u128);
    proof {
        lemma2_to64_rest();
        lemma2_to64();
        if len < 63 {
            lemma_pow2_strictly_increases(len as nat, 63);
        }
        if len > 64 {
            if len > 65 {
                lemma_pow2_strictly_increases(64, (len - 1) as nat);
            }
        }
        assert(63 <= len <= 64);
    }
    let s: u32 = len - 53;
    let p = power_of_two(s);
    let half = power_of_two(s - 1);
    let high: u128 = r as u128 / p;
    let low: u128 = r as u128 % p;
    let k: u32 = len + j - 53;
    proof {
        lemma_root_scale(n, w as nat, r as nat, j as nat, len as nat, k as nat);
        lemma_root_digits(n, w as nat, r as nat, j as nat, s as nat);
        lemma_fundamental_div_mod(r as int, p as int);
        lemma_pow2_constants();
        lemma_pow2_adds(53, s as nat);
        assert(high < SIGNIFICAND_END) by (nonlinear_arith)
            requires
                p * high <= r,
                r < SIGNIFICAND_END * p,
                p >= 1,
        ;
    }
    let rounded: u64 = if low > half || (low == half && (sticky || high % 2 == 1)) {
        high as u64 + 1
    } else {
        high as u64
    };
    assemble_field(k, rounded)
}

/// The integer root of `w * 4^j` lies in the binade that the root of `w` shows.
proof fn lemma_root_scale(n: nat, w: nat, r: nat, j: nat, len: nat, k: nat)
    requires
        n == w * (pow2(j) * pow2(j)),
        is_floor_root(w, r),
        len >= 53,
        pow2((len - 1) as nat) <= r < pow2(len),
        k == len + j - 53,
        k > 0,
    ensures
        r * pow2(j) <= floor_root(n) < (r + 1) * pow2(j),
        floor_root(n) / pow2(j) == r,
        ulp_scale(floor_root(n)) == k,
        is_floor_root(n, floor_root(n)),
{
    let c = pow2(j);
    lemma_pow2_pos(j);
    lemma_floor_root_exists(n);
    let q = floor_root(n);
    assert((r * c) * (r * c) <= n) by (nonlinear_arith)
        requires
            n == w * (c * c),
            r * r <= w,
    ;
    assert(n < ((r + 1) * c) * ((r + 1) * c)) by (nonlinear_arith)
        requires
            n == w * (c * c),
            w < (r + 1) * (r + 1),
            c > 0,
    ;
    if q < r * c {
        assert((q + 1) * (q + 1) <= (r * c) * (r * c)) by (nonlinear_arith)
            requires
                q + 1 <= r * c,
                q >= 0,
        ;
    }
    if q >= (r + 1) * c {
        assert(q * q >= ((r + 1) * c) * ((r + 1) * c)) by (nonlinear_arith)
            requires
                q >= (r + 1) * c,
                (r + 1) * c >= 0,
        ;
    }
    assert((r + 1) * c == r * c + c) by (nonlinear_arith);
    lemma_fundamental_div_mod_converse(q as int, c as int, r as int, q - r * c);
    lemma_pow2_constants();
    lemma_pow2_adds((len - 1) as nat, j);
    lemma_pow2_adds(len, j);
    lemma_pow2_adds(52, k);
    lemma_pow2_adds(53, k);
    assert(pow2((len - 1) as nat) * c <= r * c) by (nonlinear_arith)
        requires
            pow2((len - 1) as nat) <= r,
    ;
    assert((r + 1) * c <= pow2(len) * c) by (nonlinear_arith)
        requires
            r + 1 <= pow2(len),
    ;
    lemma_ulp_scale_binade(q, k);
}

/// Every natural number has an integer square root.
pub proof fn lemma_floor_root_exists(n: nat)
    ensures
        is_floor_root(n, floor_root(n)),
    decreases n,
{
    if n == 0 {
        assert(0nat * 0nat == 0 && (0nat + 1) * (0nat + 1) == 1) by (nonlinear_arith);
        assert(is_floor_root(0, 0));
    } else {
        lemma_floor_root_exists((n - 1) as nat);
        let c = floor_root((n - 1) as nat);
        if n < (c + 1) * (c + 1) {
            assert(is_floor_root(n, c));
        } else {
            assert((c + 1) * (c + 1) < (c + 2) * (c + 2)) by (nonlinear_arith);
            assert(is_floor_root(n, c + 1));
        }
    }
}

/// Where the root of `w * 4^j` lies against the middle of its unit at scale `j + s`.
proof fn lemma_root_digits(n: nat, w: nat, r: nat, j: nat, s: nat)
    requires
        n == w * (pow2(j) * pow2(j)),
        is_floor_root(w, r),
        s >= 1,
        floor_root(n) / pow2(j) == r,
    ensures
        ({
            let m = floor_root(n) / pow2(j + s);
            let middle = (2 * m + 1) * pow2(j + s);
            let low = r % pow2(s);
            let half = pow2((s - 1) as nat);
            &&& m == r / pow2(s)
            &&& 4 * n > middle * middle <==> (low > half || (low == half && r * r != w))
            &&& 4 * n == middle * middle <==> (low == half && r * r == w)
        }),
{
    let c = pow2(j);
    let p = pow2(s);
    let half = pow2((s - 1) as nat);
    let q = floor_root(n);
    lemma_pow2_pos(j);
    lemma_pow2_pos(s);
    lemma_pow2_adds(j, s);
    lemma_pow2_unfold(s);
    lemma_div_denominator(q as int, c as int, p as int);
    let m = r / p;
    let low = r % p;
    lemma_fundamental_div_mod(r as int, p as int);
    lemma_mod_bound(r as int, p as int);
    let middle = (2 * m + 1) * pow2(j + s);
    // middle == 2 * g * c with g the halfway point on the scale of r
    let g = p * m + half;
    assert(middle == 2 * (g * c)) by (nonlinear_arith)
        requires
            middle == (2 * m + 1) * (c * p),
            p == 2 * half,
            g == p * m + half,
    ;
    assert(middle * middle == 4 * ((g * g) * (c * c))) by (nonlinear_arith)
        requires
            middle == 2 * (g * c),
    ;
    let cc = c * c;
    assert(cc > 0) by (nonlinear_arith)
        requires
            c > 0,
            cc == c * c,
    ;
    assert(w * cc > (g * g) * cc <==> w > g * g) by (nonlinear_arith)
        requires
            cc > 0,
    ;
    assert(w * cc == (g * g) * cc <==> w == g * g) by (nonlinear_arith)
        requires
            cc > 0,
    ;
    if low > half {
        assert(r * r > g * g) by (nonlinear_arith)
            requires
                r > g,
                g >= 0,
        ;
    } else if low == half {
        assert(r == g);
    } else {
        assert((r + 1) * (r + 1) <= g * g) by (nonlinear_arith)
            requires
                r + 1 <= g,
                r >= 0,
        ;
    }
}

} // verus!
