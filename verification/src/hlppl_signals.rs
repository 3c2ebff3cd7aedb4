//! The daily signal: residuals of fits, normalized, and combined with hype and sentiment.

use crate::binary64::{Real, ONE_BITS};
use crate::bubble_score;
use crate::bubble_score::{compute_bubble_score, normalize_running_max};
use crate::config::{BacktestConfig, SignalMode};
use crate::constants::{MINUS_ONE, ZERO};
use crate::data::PriceBar;
use crate::hype;
use crate::hype::compute_volume_hype;
use crate::order;
use crate::sentiment;
use crate::sentiment::compute_simple_sentiment;
use crate::text;
use crate::text::text_of_usize;
use vstd::prelude::*;
use vstd::string::*;

verus! {

/// Bars that the hype of a day looks back over.
pub const HYPE_WINDOW: usize = 60;

/// A fit to be made: the bars from `start` up to (not including) `end`, with a seed.
#[derive(Clone, Copy, Debug, PartialEq, Eq, Structural)]
pub struct FitRequest {
    pub start: usize,
    pub end: usize,
    pub seed: u64,
}

/// Bars between the ends of neighbouring windows; at least 1.
pub open spec fn stride_of(cfg: BacktestConfig) -> int {
    if cfg.window_stride == 0 {
        1
    } else {
        cfg.window_stride as int
    }
}

/// Number of overlapping windows over `n` bars.
pub open spec fn window_count(cfg: BacktestConfig, n: int) -> int {
    if n < cfg.lookback_days {
        0
    } else {
        (n - cfg.lookback_days) / stride_of(cfg) + 1
    }
}

/// First bar of window `k`.
pub open spec fn paper_start(cfg: BacktestConfig, k: int) -> int {
    k * stride_of(cfg)
}

/// The seed of the window from `start` to `last`, both inclusive: the run's seed, moved by
/// the place of the window, modulo 2^64.
pub open spec fn window_seed(seed: u64, start: int, last: int) -> int {
    (seed + start * 131 + last * 17) % 0x1_0000_0000_0000_0000
}

/// The window settings that a paper-style signal can be built from: windows hold at least
/// one bar, and the sweep over `n` bars stays inside the machine's range.
pub open spec fn windows_ok(cfg: BacktestConfig, n: nat) -> bool {
    cfg.lookback_days > 0 && (n >= cfg.lookback_days ==> n + stride_of(cfg) <= usize::MAX)
}

fn seed_of_window(seed: u64, start: usize, last: usize) -> (r: u64)
    ensures
        r == window_seed(seed, start as int, last as int),
{
    let moved: u128 = seed as u128 + start as u128 * 131 + last as u128 * 17;
    (moved % 0x1_0000_0000_0000_0000) as u64
}

/// The fits that a paper-style signal over `n` bars is built from.
pub fn paper_windows(cfg: &BacktestConfig, n: usize) -> (r: Vec<FitRequest>)
    requires
        windows_ok(*cfg, n as nat),
    ensures
        r@.len() == window_count(*cfg, n as int),
        forall|k: int|
            0 <= k < r@.len() ==> {
                let request = #[trigger] r@[k];
                &&& request.start == paper_start(*cfg, k)
                &&& request.end == request.start + cfg.lookback_days
                &&& request.end <= n
                &&& request.seed == window_seed(
                    cfg.random_seed,
                    request.start as int,
                    request.end - 1,
                )
            },
{
    let mut r: Vec<FitRequest> = Vec::new();
    let w: usize = cfg.lookback_days;
    let stride: usize = if cfg.window_stride == 0 {
        1
    } else {
        cfg.window_stride
    };
    if n < w {
        return r;
    }
    let mut start: usize = 0;
    assert(0 * stride_of(*cfg) == 0) by (nonlinear_arith);
    while start <= n - w
        invariant
            windows_ok(*cfg, n as nat),
            w == cfg.lookback_days,
            w <= n,
            stride == stride_of(*cfg),
            start == paper_start(*cfg, r@.len() as int),
            start <= n - w + stride,
            r@.len() > 0 ==> paper_start(*cfg, r@.len() - 1) <= n - w,
            forall|k: int|
                0 <= k < r@.len() ==> {
                    let request = #[trigger] r@[k];
                    &&& request.start == paper_start(*cfg, k)
                    &&& request.end == request.start + cfg.lookback_days
                    &&& request.end <= n
                    &&& request.seed == window_seed(
                        cfg.random_seed,
                        request.start as int,
                        request.end - 1,
                    )
                },
        decreases n - w + stride - start,
    {
        let end: usize = start + w;
        r.push(FitRequest { start, end, seed: seed_of_window(cfg.random_seed, start, end - 1) });
        proof {
            let len = r@.len() as int;
            let d = stride as int;
            assert(len * d == (len - 1) * d + d) by (nonlinear_arith);
        }
        start = start + stride;
    }
    proof {
        let len = r@.len() as int;
        let d = stride as int;
        let span = n - w;
        assert(span / d == len - 1) by (nonlinear_arith)
            requires
                (len - 1) * d <= span < len * d,
                d > 0,
        ;
    }
    r
}

/// The residual that the fit of window `k` gives to bar `i`, if it gives one.
pub open spec fn window_residual(
    cfg: BacktestConfig,
    fits: Seq<Option<Vec<Real>>>,
    k: int,
    i: int,
) -> Option<Real> {
    let at = i - paper_start(cfg, k);
    match fits[k] {
        Some(residuals) => if 0 <= at < residuals@.len() {
            Some(residuals@[at])
        } else {
            None
        },
        None => None,
    }
}

/// Sum of the residuals that the first `k` windows give to bar `i`, in the order of the
/// windows.
pub open spec fn residual_sum(
    cfg: BacktestConfig,
    fits: Seq<Option<Vec<Real>>>,
    k: int,
    i: int,
) -> Real
    decreases k,
{
    if k <= 0 {
        Real { bits: ZERO }
    } else {
        let before = residual_sum(cfg, fits, k - 1, i);
        match window_residual(cfg, fits, k - 1, i) {
            Some(residual) => before.plus(residual),
            None => before,
        }
    }
}

/// How many of the first `k` windows give bar `i` a residual.
pub open spec fn residual_count(
    cfg: BacktestConfig,
    fits: Seq<Option<Vec<Real>>>,
    k: int,
    i: int,
) -> nat
    decreases k,
{
    if k <= 0 {
        0
    } else {
        let before = residual_count(cfg, fits, k - 1, i);
        if window_residual(cfg, fits, k - 1, i) is Some {
            before + 1
        } else {
            before
        }
    }
}

/// Mean residual of bar `i` over all windows that cover it; 0 where none does.
pub open spec fn mean_residual(
    cfg: BacktestConfig,
    fits: Seq<Option<Vec<Real>>>,
    i: int,
) -> Real {
    let k = fits.len() as int;
    if residual_count(cfg, fits, k, i) > 0 {
        residual_sum(cfg, fits, k, i).over(
            Real::of_integer(residual_count(cfg, fits, k, i) as int),
        )
    } else {
        Real { bits: ZERO }
    }
}

/// The mean residual of each of `n` bars.
fn mean_residuals(
    cfg: &BacktestConfig,
    requests: &Vec<FitRequest>,
    fits: &Vec<Option<Vec<Real>>>,
    n: usize,
) -> (r: Vec<Real>)
    requires
        fits@.len() == requests@.len(),
        forall|k: int|
            0 <= k < requests@.len() ==> (#[trigger] requests@[k]).start == paper_start(*cfg, k)
                && requests@[k].start <= n,
    ensures
        r@ == Seq::new(n as nat, |i: int| mean_residual(*cfg, fits@, i)),
{
    let mut sums: Vec<Real> = Vec::new();
    let mut counts: Vec<usize> = Vec::new();
    let mut i: usize = 0;
    while i < n
        invariant
            i <= n,
            sums@.len() == i,
            counts@.len() == i,
            forall|j: int| 0 <= j < i ==> #[trigger] sums@[j] == (Real { bits: ZERO }),
            forall|j: int| 0 <= j < i ==> #[trigger] counts@[j] == 0,
        decreases n - i,
    {
        sums.push(Real { bits: ZERO });
        counts.push(0);
        i = i + 1;
    }
    let total: usize = fits.len();
    let mut k: usize = 0;
    while k < total
        invariant
            k <= total,
            total == fits@.len(),
            fits@.len() == requests@.len(),
            sums@.len() == n,
            counts@.len() == n,
            forall|j: int|
                0 <= j < requests@.len() ==> (#[trigger] requests@[j]).start == paper_start(
                    *cfg,
                    j,
                ) && requests@[j].start <= n,
            forall|j: int|
                0 <= j < n ==> #[trigger] sums@[j] == residual_sum(*cfg, fits@, k as int, j),
            forall|j: int|
                0 <= j < n ==> #[trigger] counts@[j] == residual_count(
                    *cfg,
                    fits@,
                    k as int,
                    j,
                ),
            forall|j: int| 0 <= j < n ==> #[trigger] counts@[j] <= k,
        decreases fits@.len() - k,
    {
        let start: usize = requests[k].start;
        match &fits[k] {
            Some(residuals) => {
                let room: usize = n - start;
                let len: usize = if residuals.len() < room {
                    residuals.len()
                } else {
                    room
                };
                let mut j: usize = 0;
                while j < len
                    invariant
                        j <= len,
                        k < total,
                        total == fits@.len(),
                        start == paper_start(*cfg, k as int),
                        start + len <= n,
                        len <= residuals@.len(),
                        len < residuals@.len() ==> start + len == n,
                        fits@[k as int] == Some(*residuals),
                        sums@.len() == n,
                        counts@.len() == n,
                        forall|b: int|
                            0 <= b < n ==> #[trigger] sums@[b] == residual_sum(
                                *cfg,
                                fits@,
                                if start <= b < start + j { k + 1 } else { k as int },
                                b,
                            ),
                        forall|b: int|
                            0 <= b < n ==> #[trigger] counts@[b] == residual_count(
                                *cfg,
                                fits@,
                                if start <= b < start + j { k + 1 } else { k as int },
                                b,
                            ),
                        forall|b: int|
                            0 <= b < n ==> #[trigger] counts@[b] <= if start <= b < start + j {
                                k + 1
                            } else {
                                k as int
                            },
                    decreases len - j,
                {
                    let at: usize = start + j;
                    let sum = sums[at].add(residuals[j]);
                    let count: usize = counts[at] + 1;
                    proof {
                        assert(window_residual(*cfg, fits@, k as int, at as int) == Some(
                            residuals@[j as int],
                        ));
                    }
                    sums.set(at, sum);
                    counts.set(at, count);
                    j = j + 1;
                }
                proof {
                    assert forall|b: int| 0 <= b < n implies #[trigger] sums@[b] == residual_sum(
                        *cfg,
                        fits@,
                        k + 1,
                        b,
                    ) by {
                        if !(start <= b < start + len) {
                            assert(window_residual(*cfg, fits@, k as int, b) is None);
                        }
                    }
                    assert forall|b: int| 0 <= b < n implies #[trigger] counts@[b]
                        == residual_count(*cfg, fits@, k + 1, b) by {
                        if !(start <= b < start + len) {
                            assert(window_residual(*cfg, fits@, k as int, b) is None);
                        }
                    }
                }
            },
            None => {},
        }
        k = k + 1;
    }
    let mut r: Vec<Real> = Vec::new();
    let mut i: usize = 0;
    while i < n
        invariant
            i <= n,
            sums@.len() == n,
            counts@.len() == n,
            forall|j: int|
                0 <= j < n ==> #[trigger] sums@[j] == residual_sum(
                    *cfg,
                    fits@,
                    fits@.len() as int,
                    j,
                ),
            forall|j: int|
                0 <= j < n ==> #[trigger] counts@[j] == residual_count(
                    *cfg,
                    fits@,
                    fits@.len() as int,
                    j,
                ),
            r@ == Seq::new(i as nat, |j: int| mean_residual(*cfg, fits@, j)),
        decreases n - i,
    {
        if counts[i] > 0 {
            r.push(sums[i].div(Real::from_usize(counts[i])));
        } else {
            r.push(Real { bits: ZERO });
        }
        i = i + 1;
    }
    r
}

/// Change of the adjusted close from bar `i - 1` to bar `i`; 0 where the earlier close is
/// not positive.
pub open spec fn asset_return(bars: Seq<PriceBar>, i: int) -> Real {
    if (Real { bits: ZERO }).below(bars[i - 1].adj_close) {
        bars[i].adj_close.over(bars[i - 1].adj_close).minus(Real { bits: ONE_BITS })
    } else {
        Real { bits: ZERO }
    }
}

/// Change of the adjusted close from bar `i - 1` to bar `i`.
pub fn return_at(bars: &Vec<PriceBar>, i: usize) -> (r: Real)
    requires
        0 < i < bars@.len(),
    ensures
        r == asset_return(bars@, i as int),
{
    let zero = Real { bits: ZERO };
    let before = bars[i - 1].adj_close;
    if zero.lt(before) {
        bars[i].adj_close.div(before).sub(Real { bits: ONE_BITS })
    } else {
        zero
    }
}

/// Mood of bar `i`; the first bar has none.
pub open spec fn bar_mood(bars: Seq<PriceBar>, i: int) -> Real {
    if i <= 0 {
        Real { bits: ZERO }
    } else {
        sentiment::mood(asset_return(bars, i))
    }
}

/// The mood of each bar, headed by the neutral one of the first bar even where there is
/// no bar at all.
pub fn build_sentiment_series(bars: &Vec<PriceBar>) -> (r: Vec<Real>)
    ensures
        r@ == Seq::new(
            if bars@.len() == 0 {
                1
            } else {
                bars@.len()
            },
            |i: int| bar_mood(bars@, i),
        ),
{
    let n: usize = bars.len();
    let mut changes: Vec<Real> = Vec::new();
    let mut i: usize = 1;
    while i < n
        invariant
            1 <= i,
            n == bars@.len(),
            i <= n || (n == 0 && i == 1),
            changes@.len() == i - 1,
            forall|j: int|
                0 <= j < i - 1 ==> #[trigger] changes@[j] == asset_return(bars@, j + 1),
        decreases n - i,
    {
        changes.push(return_at(bars, i));
        i = i + 1;
    }
    let moods = compute_simple_sentiment(&changes);
    let mut r: Vec<Real> = Vec::new();
    r.push(Real { bits: ZERO });
    let mut j: usize = 0;
    while j < moods.len()
        invariant
            j <= moods@.len(),
            moods@.len() == if n == 0 {
                0
            } else {
                n - 1
            },
            n == bars@.len(),
            r@.len() == j + 1,
            forall|b: int|
                0 <= b < moods@.len() ==> #[trigger] moods@[b] == sentiment::mood(
                    asset_return(bars@, b + 1),
                ),
            forall|b: int| 0 <= b <= j ==> #[trigger] r@[b] == bar_mood(bars@, b),
        decreases moods@.len() - j,
    {
        r.push(moods[j]);
        j = j + 1;
    }
    r
}

/// Volumes of the bars from `start` up to (not including) `end`.
pub open spec fn volumes_between(bars: Seq<PriceBar>, start: int, end: int) -> Seq<Real> {
    Seq::new((end - start) as nat, |i: int| bars[start + i].volume)
}

fn read_volumes(bars: &Vec<PriceBar>, start: usize, end: usize) -> (r: Vec<Real>)
    requires
        start <= end <= bars@.len(),
    ensures
        r@ == volumes_between(bars@, start as int, end as int),
{
    let mut r: Vec<Real> = Vec::new();
    let mut i: usize = start;
    while i < end
        invariant
            start <= i <= end <= bars@.len(),
            r@ == volumes_between(bars@, start as int, i as int),
        decreases end - i,
    {
        r.push(bars[i].volume);
        i = i + 1;
    }
    r
}

/// The arguments whose hyperbolic tangents are the hype of each bar.
pub fn build_hype_series(bars: &Vec<PriceBar>, window: usize) -> (r: Vec<Real>)
    ensures
        r@ == Seq::new(
            bars@.len(),
            |i: int|
                hype::hype_argument(
                    volumes_between(bars@, 0, bars@.len() as int),
                    hype::effective_window(window as int, bars@.len() as int),
                    i,
                ),
        ),
{
    let volumes = read_volumes(bars, 0, bars.len());
    compute_volume_hype(&volumes, window)
}

/// The argument whose hyperbolic tangent is the hype of bar `i`, from the last `window`
/// bars up to that one, and from that bar alone where the window is empty.
pub open spec fn hype_argument_at(bars: Seq<PriceBar>, i: int, window: int) -> Real {
    let start = hype::window_start(
        i,
        if window < 1 {
            1
        } else {
            window
        },
    );
    let n = i + 1 - start;
    hype::hype_argument(
        volumes_between(bars, start, i + 1),
        hype::effective_window(window, n),
        n - 1,
    )
}

/// The argument whose hyperbolic tangent is the hype of bar `i`.
pub fn hype_at(bars: &Vec<PriceBar>, i: usize, window: usize) -> (r: Real)
    requires
        i < bars@.len(),
    ensures
        r == hype_argument_at(bars@, i as int, window as int),
{
    let n: usize = bars.len();
    assert(i + 1 <= n);
    let start: usize = if window == 0 {
        i
    } else if i + 1 < window {
        0
    } else {
        i + 1 - window
    };
    let volumes = read_volumes(bars, start, i + 1);
    let arguments = compute_volume_hype(&volumes, window);
    arguments[arguments.len() - 1]
}

/// Mood of bar `i` as seen from it and up to `window` bars before it: that of its return,
/// 0 where there is no earlier bar to return from.
pub fn sentiment_at(bars: &Vec<PriceBar>, i: usize, window: usize) -> (r: Real)
    requires
        i < bars@.len(),
    ensures
        r == if window == 0 {
            Real { bits: ZERO }
        } else {
            bar_mood(bars@, i as int)
        },
{
    if i == 0 || window == 0 {
        return Real { bits: ZERO };
    }
    let mut changes: Vec<Real> = Vec::new();
    changes.push(return_at(bars, i));
    compute_simple_sentiment(&changes)[0]
}

/// The signal of each bar.
#[derive(Clone, Debug)]
pub struct HlpplSignalSeries {
    /// Mean residual over the windows that cover the bar.
    pub raw_epsilon: Vec<Real>,
    /// Residual as a share of the largest so far.
    pub eps_norm: Vec<Real>,
    pub hype: Vec<Real>,
    pub sentiment: Vec<Real>,
    pub bubble_score: Vec<Real>,
    /// First bar with a signal.
    pub signal_start: usize,
}

/// Why no signal can be built.
#[derive(Clone, Copy, Debug, PartialEq, Eq, Structural)]
pub enum SignalError {
    /// A window does not fit the bars.
    NotEnoughBars { need: usize, have: usize },
    /// Fast signals are built bar by bar.
    FastMode,
}

impl SignalError {
    pub open spec fn text(self) -> Seq<char> {
        match self {
            SignalError::NotEnoughBars { need, have } => "Need at least "@ + text::integer_text(
                need as int,
            ) + " bars for LPPL window, have "@ + text::integer_text(have as int),
            SignalError::FastMode => "Fast signal mode is filled incrementally in run_backtest"@,
        }
    }

    pub fn message(&self) -> (r: String)
        ensures
            r@ == self.text(),
    {
        match self {
            SignalError::NotEnoughBars { need, have } => {
                let mut r = "Need at least ".to_owned();
                r.append(text_of_usize(*need).as_str());
                r.append(" bars for LPPL window, have ");
                r.append(text_of_usize(*have).as_str());
                r
            },
            SignalError::FastMode => {
                "Fast signal mode is filled incrementally in run_backtest".to_owned()
            },
        }
    }
}

/// The score of bar `i`; 0 before the first signal.
pub open spec fn paper_score(
    bars: Seq<PriceBar>,
    cfg: BacktestConfig,
    raw: Seq<Real>,
    hype: Seq<Real>,
    i: int,
) -> Real {
    let first = cfg.lookback_days - 1;
    if i < first {
        Real { bits: ZERO }
    } else {
        bubble_score::score(
            paper_epsilon(cfg, raw, i),
            hype[i],
            bar_mood(bars, i),
            cfg.alpha1_hype,
            cfg.alpha2_sentiment,
        )
    }
}

/// The normalized residual of bar `i`; 0 before the first signal.
pub open spec fn paper_epsilon(cfg: BacktestConfig, raw: Seq<Real>, i: int) -> Real {
    let first = cfg.lookback_days - 1;
    if i < first {
        Real { bits: ZERO }
    } else {
        bubble_score::share_of_largest(raw[i], bubble_score::largest_residual(raw, first, i + 1))
    }
}

/// `s` is the signal of `bars` whose windows were fitted with the residuals `fits`.
pub open spec fn is_paper_series(
    s: HlpplSignalSeries,
    bars: Seq<PriceBar>,
    cfg: BacktestConfig,
    fits: Seq<Option<Vec<Real>>>,
    hype: Seq<Real>,
) -> bool {
    let n = bars.len();
    let raw = Seq::new(n, |i: int| mean_residual(cfg, fits, i));
    &&& s.raw_epsilon@ == raw
    &&& s.eps_norm@ == Seq::new(n, |i: int| paper_epsilon(cfg, raw, i))
    &&& s.hype@ == hype
    &&& s.sentiment@ == Seq::new(n, |i: int| bar_mood(bars, i))
    &&& s.bubble_score@ == Seq::new(n, |i: int| paper_score(bars, cfg, raw, hype, i))
    &&& s.signal_start == cfg.lookback_days - 1
}

/// Builds the paper-style signal. `fits` holds the residuals of the fits that
/// [`paper_windows`] asks for, `hype` the hype of each bar.
pub fn build_paper_signal_series(
    bars: &Vec<PriceBar>,
    cfg: &BacktestConfig,
    fits: &Vec<Option<Vec<Real>>>,
    hype: Vec<Real>,
) -> (r: Result<HlpplSignalSeries, SignalError>)
    requires
        windows_ok(*cfg, bars@.len()),
        bars@.len() >= cfg.lookback_days ==> fits@.len() == window_count(
            *cfg,
            bars@.len() as int,
        ) && hype@.len() == bars@.len(),
    ensures
        r is Ok <==> bars@.len() >= cfg.lookback_days,
        r matches Err(e) ==> e == (SignalError::NotEnoughBars {
            need: cfg.lookback_days,
            have: bars@.len() as usize,
        }),
        r matches Ok(s) ==> is_paper_series(s, bars@, *cfg, fits@, hype@),
{
    let n: usize = bars.len();
    let w: usize = cfg.lookback_days;
    if n < w {
        return Err(SignalError::NotEnoughBars { need: w, have: n });
    }
    let requests = paper_windows(cfg, n);
    assert forall|k: int| 0 <= k < requests@.len() implies (#[trigger] requests@[k]).start
        == paper_start(*cfg, k) && requests@[k].start <= n by {}
    let raw = mean_residuals(cfg, &requests, fits, n);
    let first: usize = w - 1;
    let eps_norm = normalize_running_max(&raw, first);
    let moods = build_sentiment_series(bars);
    let mut scores: Vec<Real> = Vec::new();
    let mut i: usize = 0;
    while i < n
        invariant
            i <= n,
            n == bars@.len(),
            n == hype@.len(),
            n == raw@.len(),
            n == eps_norm@.len(),
            first == cfg.lookback_days - 1,
            moods@ == Seq::new(n as nat, |j: int| bar_mood(bars@, j)),
            forall|j: int|
                0 <= j < n ==> #[trigger] eps_norm@[j] == paper_epsilon(*cfg, raw@, j),
            scores@ == Seq::new(i as nat, |j: int| paper_score(bars@, *cfg, raw@, hype@, j)),
        decreases n - i,
    {
        if i < first {
            scores.push(Real { bits: ZERO });
        } else {
            scores.push(
                compute_bubble_score(
                    eps_norm[i],
                    hype[i],
                    moods[i],
                    cfg.alpha1_hype,
                    cfg.alpha2_sentiment,
                ),
            );
        }
        i = i + 1;
    }
    assert(eps_norm@ =~= Seq::new(n as nat, |j: int| paper_epsilon(*cfg, raw@, j)));
    Ok(
        HlpplSignalSeries {
            raw_epsilon: raw,
            eps_norm,
            hype,
            sentiment: moods,
            bubble_score: scores,
            signal_start: first,
        },
    )
}

/// Builds the signal of a run in paper mode; a run in fast mode builds its signal bar by
/// bar.
pub fn build_signal_series(
    bars: &Vec<PriceBar>,
    cfg: &BacktestConfig,
    fits: &Vec<Option<Vec<Real>>>,
    hype: Vec<Real>,
) -> (r: Result<HlpplSignalSeries, SignalError>)
    requires
        cfg.signal_mode == SignalMode::Paper ==> windows_ok(*cfg, bars@.len()) && (
        bars@.len() >= cfg.lookback_days ==> fits@.len() == window_count(
            *cfg,
            bars@.len() as int,
        ) && hype@.len() == bars@.len()),
    ensures
        r is Ok <==> cfg.signal_mode == SignalMode::Paper && bars@.len() >= cfg.lookback_days,
        r matches Err(e) ==> e == if cfg.signal_mode == SignalMode::Fast {
            SignalError::FastMode
        } else {
            SignalError::NotEnoughBars {
                need: cfg.lookback_days,
                have: bars@.len() as usize,
            }
        },
        r matches Ok(s) ==> is_paper_series(s, bars@, *cfg, fits@, hype@),
{
    match cfg.signal_mode {
        SignalMode::Paper => build_paper_signal_series(bars, cfg, fits, hype),
        SignalMode::Fast => Err(SignalError::FastMode),
    }
}

/// What a signal says of one day.
#[derive(Clone, Copy, Debug, PartialEq, Eq, Structural)]
pub struct SignalPoint {
    pub bubble_score: Real,
    pub eps_norm: Real,
    pub hype_volume: Real,
    pub sentiment: Real,
}

/// Day `i` of a signal series.
pub open spec fn series_point(s: HlpplSignalSeries, i: int) -> SignalPoint {
    SignalPoint {
        bubble_score: s.bubble_score@[i],
        eps_norm: s.eps_norm@[i],
        hype_volume: s.hype@[i],
        sentiment: s.sentiment@[i],
    }
}

/// Every part of a series covers the same `n` bars.
pub open spec fn series_covers(s: HlpplSignalSeries, n: nat) -> bool {
    &&& s.bubble_score@.len() == n
    &&& s.eps_norm@.len() == n
    &&& s.hype@.len() == n
    &&& s.sentiment@.len() == n
}

/// The days of a series of `n` bars from `first` on.
pub fn series_points(s: &HlpplSignalSeries, first: usize, n: usize) -> (r: Vec<SignalPoint>)
    requires
        first <= n,
        series_covers(*s, n as nat),
    ensures
        r@ == Seq::new((n - first) as nat, |k: int| series_point(*s, first + k)),
{
    let mut r: Vec<SignalPoint> = Vec::new();
    let mut i: usize = first;
    while i < n
        invariant
            first <= i <= n,
            series_covers(*s, n as nat),
            r@ == Seq::new((i - first) as nat, |k: int| series_point(*s, first + k)),
        decreases n - i,
    {
        r.push(
            SignalPoint {
                bubble_score: s.bubble_score[i],
                eps_norm: s.eps_norm[i],
                hype_volume: s.hype[i],
                sentiment: s.sentiment[i],
            },
        );
        i = i + 1;
    }
    r
}

/// Law: every normalized residual of a paper-style signal lies between -1 and 1 as soon as
/// the mean residuals are numbers.
pub proof fn law_paper_epsilon_bounded(cfg: BacktestConfig, raw: Seq<Real>, i: int)
    requires
        cfg.lookback_days > 0,
        0 <= i < raw.len(),
        bubble_score::all_finite(raw),
    ensures
        (Real { bits: MINUS_ONE }).at_most(paper_epsilon(cfg, raw, i)),
        paper_epsilon(cfg, raw, i).at_most(Real { bits: ONE_BITS }),
{
    let first = cfg.lookback_days - 1;
    if i < first {
        crate::binary64::lemma_zero();
        order::lemma_one();
        vstd::arithmetic::power2::lemma_pow2_pos(1074);
        assert((Real { bits: MINUS_ONE }).field() == ONE_BITS);
    } else {
        bubble_score::law_share_in_unit_interval(raw, first, i);
    }
}

proof fn lemma_largest_is_causal(a: Seq<Real>, b: Seq<Real>, start: int, end: int)
    requires
        0 <= start,
        end <= a.len(),
        end <= b.len(),
        forall|j: int| 0 <= j < end ==> a[j] == b[j],
    ensures
        bubble_score::largest_residual(a, start, end) == bubble_score::largest_residual(
            b,
            start,
            end,
        ),
    decreases end - start,
{
    if start < end {
        lemma_largest_is_causal(a, b, start, end - 1);
    }
}

/// Law: the normalized residual of a day rests on the residuals up to that day alone.
pub proof fn law_paper_epsilon_is_causal(
    cfg: BacktestConfig,
    a: Seq<Real>,
    b: Seq<Real>,
    i: int,
)
    requires
        cfg.lookback_days > 0,
        0 <= i < a.len(),
        i < b.len(),
        forall|j: int| 0 <= j <= i ==> a[j] == b[j],
    ensures
        paper_epsilon(cfg, a, i) == paper_epsilon(cfg, b, i),
{
    lemma_largest_is_causal(a, b, cfg.lookback_days - 1, i + 1);
}

/// Law: the hype of a day taken by itself is its entry in the series of all days.
pub proof fn law_hype_of_a_day(bars: Seq<PriceBar>, i: int, window: int)
    requires
        0 <= i < bars.len(),
        window >= 5,
    ensures
        hype_argument_at(bars, i, window) == hype::hype_argument(
            volumes_between(bars, 0, bars.len() as int),
            hype::effective_window(window, bars.len() as int),
            i,
        ),
{
    let start = hype::window_start(i, window);
    let all = volumes_between(bars, 0, bars.len() as int);
    let part = volumes_between(bars, start, i + 1);
    let n = i + 1 - start;
    crate::stats::lemma_part(all, part, start);
    assert(part.len() == n);
    assert(part[n - 1] == all[i]);
    assert(hype::window_start(n - 1, hype::effective_window(window, n)) == 0);
    assert(hype::window_start(i, hype::effective_window(window, bars.len() as int)) == start);
}

} // verus!
