//! Pattern detection over one window: periodicity and step changes.

use vstd::prelude::*;
use vstd::arithmetic::div_mod::lemma_multiply_divide_le;

use crate::fixed::SCALE;
use crate::statistics::{
    samples_ok, seq_sum, spec_mean, spec_std_dev, window_ok, StatisticalAnalyzer, MAX_SAMPLE, MAX_WINDOW,
};

verus! {

/// Kinds of pattern the pattern detector reports.
#[derive(Debug, Clone, Copy, PartialEq, Eq, Structural)]
pub enum PatternType {
    Periodic,
    Transient,
    Trend,
    Oscillation,
    StepChange,
    Impulse,
    Harmonic,
    Burst,
    Recurring,
}

/// A pattern found in a window: where it starts, how long it is, a
/// confidence (parts per million) and, for periodic patterns, the period in
/// samples.
#[derive(Debug, Clone, Copy, PartialEq, Eq, Structural)]
pub struct Pattern {
    pub pattern_type: PatternType,
    pub start_index: usize,
    pub length: usize,
    pub confidence: u64,
    pub period: Option<usize>,
}

/// Shortest window examined for periodicity.
pub const PERIODICITY_MIN_LEN: usize = 32;

/// Shortest window examined for step changes.
pub const STEP_MIN_LEN: usize = 20;

/// Σ_{i < k} (d[i] − m)(d[i + lag] − m).
pub open spec fn lagged_products(d: Seq<i64>, m: int, lag: int, k: int) -> int
    decreases k,
{
    if k <= 0 {
        0
    } else {
        lagged_products(d, m, lag, k - 1) + (d[k - 1] - m) * (d[k - 1 + lag] - m)
    }
}

/// Autocovariance sum at a lag (not divided by the window length).
pub open spec fn autocov(d: Seq<i64>, m: int, lag: int) -> int {
    lagged_products(d, m, lag, d.len() - lag)
}

/// The normalized autocorrelation at `lag` is below 0.3.
pub open spec fn below_threshold(d: Seq<i64>, m: int, lag: int) -> bool {
    10 * autocov(d, m, lag) < 3 * autocov(d, m, 0)
}

/// The normalized autocorrelation at `lag` is above 0.3.
pub open spec fn above_threshold(d: Seq<i64>, m: int, lag: int) -> bool {
    10 * autocov(d, m, lag) > 3 * autocov(d, m, 0)
}

/// `lag` is a candidate period: the autocorrelation rises above 0.3 there
/// after having dipped below it at some smaller positive lag.
pub open spec fn is_period_candidate(d: Seq<i64>, m: int, lag: int) -> bool {
    &&& 1 <= lag < d.len() / 2
    &&& above_threshold(d, m, lag)
    &&& exists|l: int| 1 <= l < lag && below_threshold(d, m, l)
}

proof fn lemma_products_bounded(d: Seq<i64>, m: int, lag: int, k: int)
    requires
        window_ok(d),
        -MAX_SAMPLE <= m <= MAX_SAMPLE,
        0 <= lag,
        0 <= k <= d.len() - lag,
    ensures
        -k * 0x4_0000_0000_0000_0000_0000 <= lagged_products(d, m, lag, k) <= k * 0x4_0000_0000_0000_0000_0000,
    decreases k,
{
    if k > 0 {
        lemma_products_bounded(d, m, lag, k - 1);
        let a = d[k - 1] - m;
        let b = d[k - 1 + lag] - m;
        assert(-MAX_SAMPLE <= d[k - 1] <= MAX_SAMPLE);
        assert(-MAX_SAMPLE <= d[k - 1 + lag] <= MAX_SAMPLE);
        assert(-0x4_0000_0000_0000_0000_0000 <= a * b <= 0x4_0000_0000_0000_0000_0000) by (nonlinear_arith)
            requires
                -0x200_0000_0000 <= a <= 0x200_0000_0000,
                -0x200_0000_0000 <= b <= 0x200_0000_0000,
        ;
    }
}

fn autocov_at(data: &[i64], m: i64, lag: usize) -> (r: i128)
    requires
        window_ok(data@),
        -MAX_SAMPLE <= m <= MAX_SAMPLE,
        lag < data@.len(),
    ensures
        r == autocov(data@, m as int, lag as int),
        -MAX_WINDOW * 0x4_0000_0000_0000_0000_0000 <= r <= MAX_WINDOW * 0x4_0000_0000_0000_0000_0000,
{
    let n = data.len() - lag;
    let mut acc: i128 = 0;
    let mut k: usize = 0;
    while k < n
        invariant
            window_ok(data@),
            -MAX_SAMPLE <= m <= MAX_SAMPLE,
            n == data@.len() - lag,
            k <= n,
            acc == lagged_products(data@, m as int, lag as int, k as int),
        decreases n - k,
    {
        proof {
            lemma_products_bounded(data@, m as int, lag as int, k as int + 1);
            assert((k + 1) * 0x4_0000_0000_0000_0000_0000 <= MAX_WINDOW * 0x4_0000_0000_0000_0000_0000) by (nonlinear_arith)
                requires
                    k + 1 <= MAX_WINDOW,
            ;
            assert(-MAX_SAMPLE <= data@[k as int] <= MAX_SAMPLE);
            assert(-MAX_SAMPLE <= data@[k + lag] <= MAX_SAMPLE);
        }
        let a = data[k] as i128 - m as i128;
        let b = data[k + lag] as i128 - m as i128;
        proof {
            assert(-0x4_0000_0000_0000_0000_0000 <= a * b <= 0x4_0000_0000_0000_0000_0000) by (nonlinear_arith)
                requires
                    -0x200_0000_0000 <= a <= 0x200_0000_0000,
                    -0x200_0000_0000 <= b <= 0x200_0000_0000,
            ;
        }
        acc = acc + a * b;
        k = k + 1;
    }
    proof {
        lemma_products_bounded(data@, m as int, lag as int, n as int);
        assert(n * 0x4_0000_0000_0000_0000_0000 <= MAX_WINDOW * 0x4_0000_0000_0000_0000_0000) by (nonlinear_arith)
            requires
                n <= MAX_WINDOW,
        ;
    }
    acc
}

/// Periodicity by autocorrelation about the rounded mean: the first lag
/// where the normalized autocorrelation rises back above 0.3 after having
/// dipped below it. Nothing for a window shorter than
/// `PERIODICITY_MIN_LEN` or without spread.
pub fn detect_periodicity(data: &[i64]) -> (r: Option<Pattern>)
    requires
        samples_ok(data@),
    ensures
        ({
            let m = spec_mean(data@);
            let d = data@;
            &&& (d.len() < PERIODICITY_MIN_LEN || autocov(d, m, 0) == 0) ==> r is None
            &&& r is None && d.len() >= PERIODICITY_MIN_LEN && autocov(d, m, 0) > 0 ==> forall|l: int| !is_period_candidate(d, m, l)
            &&& r matches Some(p) ==> {
                &&& d.len() >= PERIODICITY_MIN_LEN
                &&& p.pattern_type == PatternType::Periodic
                &&& p.start_index == 0
                &&& p.length == d.len()
                &&& p.period matches Some(lag) && is_period_candidate(d, m, lag as int)
                    && (forall|l: int| 1 <= l < lag ==> !is_period_candidate(d, m, l))
                    && p.confidence == if autocov(d, m, lag as int) >= autocov(d, m, 0) {
                    SCALE as int
                } else {
                    autocov(d, m, lag as int) * SCALE as int / autocov(d, m, 0)
                }
            }
        }),
{
    let n = data.len();
    if n < PERIODICITY_MIN_LEN {
        return None;
    }
    let stats = StatisticalAnalyzer::new();
    let m = stats.mean(data);
    let var = autocov_at(data, m, 0);
    proof {
        assert(autocov(data@, m as int, 0) >= 0) by {
            lemma_squares_nonneg(data@, m as int, data@.len() as int);
        }
    }
    if var == 0 {
        return None;
    }
    let max_lag = n / 2;
    let mut in_trough = false;
    let mut lag: usize = 1;
    while lag < max_lag
        invariant
            window_ok(data@),
            -MAX_SAMPLE <= m <= MAX_SAMPLE,
            m == spec_mean(data@),
            n == data@.len(),
            max_lag == n / 2,
            n >= PERIODICITY_MIN_LEN,
            var == autocov(data@, m as int, 0),
            var > 0,
            var <= MAX_WINDOW * 0x4_0000_0000_0000_0000_0000,
            1 <= lag <= max_lag,
            in_trough == exists|l: int| 1 <= l < lag && below_threshold(data@, m as int, l),
            forall|l: int| 1 <= l < lag ==> !is_period_candidate(data@, m as int, l),
        decreases max_lag - lag,
    {
        let ac = autocov_at(data, m, lag);
        let ghost was = in_trough;
        if 10 * ac < 3 * var {
            in_trough = true;
        }
        proof {
            if 10 * ac < 3 * var {
                assert(below_threshold(data@, m as int, lag as int));
            } else {
                assert forall|l: int| 1 <= l < lag + 1 && below_threshold(data@, m as int, l) implies 1 <= l < lag by {}
            }
            assert(in_trough == exists|l: int| 1 <= l < lag + 1 && below_threshold(data@, m as int, l));
        }
        if in_trough && 10 * ac > 3 * var {
            let confidence: u64 = if ac >= var {
                SCALE
            } else {
                proof {
                    lemma_multiply_divide_le(ac as int * SCALE as int, var as int, SCALE as int);
                    assert(ac as int * SCALE as int <= var as int * SCALE as int) by (nonlinear_arith)
                        requires
                            ac <= var,
                    ;
                    assert(ac as int * SCALE as int >= 0) by (nonlinear_arith)
                        requires
                            ac >= 0,
                    ;
                    vstd::arithmetic::div_mod::lemma_div_pos_is_pos(ac as int * SCALE as int, var as int);
                }
                ((ac as u128 * SCALE as u128) / var as u128) as u64
            };
            proof {
                assert(above_threshold(data@, m as int, lag as int));
                let l2 = choose|l2: int| 1 <= l2 < lag + 1 && below_threshold(data@, m as int, l2);
                assert(l2 != lag);
                assert(is_period_candidate(data@, m as int, lag as int));
            }
            return Some(Pattern {
                pattern_type: PatternType::Periodic,
                start_index: 0,
                length: n,
                confidence,
                period: Some(lag),
            });
        }
        proof {
            assert forall|l: int| 1 <= l < lag + 1 implies !is_period_candidate(data@, m as int, l) by {
                if l == lag {
                    if is_period_candidate(data@, m as int, l) {
                        let l2 = choose|l2: int| 1 <= l2 < l && below_threshold(data@, m as int, l2);
                        assert(in_trough);
                    }
                }
            }
        }
        lag = lag + 1;
    }
    None
}

proof fn lemma_squares_nonneg(d: Seq<i64>, m: int, k: int)
    requires
        0 <= k <= d.len(),
    ensures
        lagged_products(d, m, 0, k) >= 0,
    decreases k,
{
    if k > 0 {
        lemma_squares_nonneg(d, m, k - 1);
        let a = d[k - 1] - m;
        assert(a * a >= 0) by (nonlinear_arith);
    }
}

/// Σ d[a..b].
pub open spec fn window_sum(d: Seq<i64>, a: int, b: int) -> int {
    seq_sum(d.subrange(a, b))
}

/// The mean of the `w` samples from `i` differs from the mean of the `w`
/// samples before `i` by more than two standard deviations.
pub open spec fn is_step(d: Seq<i64>, w: int, sd: int, i: int) -> bool {
    let diff = window_sum(d, i, i + w) - window_sum(d, i - w, i);
    (if diff >= 0 { diff } else { -diff }) > 2 * sd * w
}

/// The step change reported at `i`: confidence is the mean difference in
/// units of three standard deviations, capped at one.
pub open spec fn step_pattern(d: Seq<i64>, w: int, sd: int, i: int) -> Pattern {
    let diff = window_sum(d, i, i + w) - window_sum(d, i - w, i);
    let mag = if diff >= 0 { diff } else { -diff };
    let c = mag * SCALE as int / (3 * sd * w);
    Pattern {
        pattern_type: PatternType::StepChange,
        start_index: i as usize,
        length: 1,
        confidence: (if c < SCALE as int { c } else { SCALE as int }) as u64,
        period: None,
    }
}

/// The step changes found at positions `w .. end`: a step is reported when
/// none was reported within the last `w` positions.
pub open spec fn step_scan(d: Seq<i64>, w: int, sd: int, end: int) -> Seq<Pattern>
    decreases end - w,
{
    if end <= w {
        Seq::empty()
    } else {
        let prev = step_scan(d, w, sd, end - 1);
        let i = end - 1;
        if is_step(d, w, sd, i) && (prev.len() == 0 || i - prev.last().start_index > w) {
            prev.push(step_pattern(d, w, sd, i))
        } else {
            prev
        }
    }
}

/// Step changes by sliding-window mean comparison with a window of a tenth
/// of the samples; nothing for a window shorter than `STEP_MIN_LEN`, without
/// spread, or whose tenth is under five samples.
pub open spec fn spec_step_changes(d: Seq<i64>) -> Seq<Pattern> {
    let sd = spec_std_dev(d);
    let w = d.len() as int / 10;
    if d.len() < STEP_MIN_LEN || sd == 0 || w < 5 {
        Seq::empty()
    } else {
        step_scan(d, w, sd, d.len() - w)
    }
}

fn range_sum(data: &[i64], a: usize, b: usize) -> (r: i128)
    requires
        window_ok(data@),
        a <= b <= data@.len(),
    ensures
        r == window_sum(data@, a as int, b as int),
        -0x100_0000_0000 * (b - a) <= r <= 0x100_0000_0000 * (b - a),
{
    let mut acc: i128 = 0;
    let mut k: usize = a;
    while k < b
        invariant
            window_ok(data@),
            a <= k <= b <= data@.len(),
            acc == window_sum(data@, a as int, k as int),
            -0x100_0000_0000 * (k - a) <= acc <= 0x100_0000_0000 * (k - a),
        decreases b - k,
    {
        proof {
            assert(data@.subrange(a as int, k as int + 1).drop_last() =~= data@.subrange(a as int, k as int));
            assert(-MAX_SAMPLE <= data@[k as int] <= MAX_SAMPLE);
            assert(0x100_0000_0000 * (k + 1 - a) <= 0x100_0000_0000 * 0x100_0000) by (nonlinear_arith)
                requires
                    k + 1 - a <= 0x100_0000,
            ;
        }
        acc = acc + data[k] as i128;
        k = k + 1;
    }
    acc
}

/// Step changes in a window.
pub fn detect_step_changes(data: &[i64]) -> (r: Vec<Pattern>)
    requires
        samples_ok(data@),
    ensures
        r@ == spec_step_changes(data@),
{
    let n = data.len();
    let stats = StatisticalAnalyzer::new();
    let sd = stats.std_dev(data);
    let w = n / 10;
    if n < STEP_MIN_LEN || sd == 0 || w < 5 {
        return Vec::new();
    }
    let mut out: Vec<Pattern> = Vec::new();
    let mut i: usize = w;
    while i < n - w
        invariant
            window_ok(data@),
            n == data@.len(),
            w == n / 10,
            w >= 5,
            sd == spec_std_dev(data@),
            sd >= 1,
            w <= i <= n - w,
            out@ == step_scan(data@, w as int, sd as int, i as int),
        decreases n - w - i,
    {
        let right = range_sum(data, i, i + w);
        let left = range_sum(data, i - w, i);
        let diff = right - left;
        let mag: u128 = if diff >= 0 { diff as u128 } else { (-diff) as u128 };
        proof {
            assert(w <= MAX_WINDOW);
            assert(0x100_0000_0000 * w <= 0x100_0000_0000 * 0x100_0000) by (nonlinear_arith)
                requires
                    w <= 0x100_0000,
            ;
        }
        proof {
            assert(2 * (sd as u128) * (w as u128) <= 2 * 0x1_0000_0000_0000_0000 * 0x100_0000) by (nonlinear_arith)
                requires
                    sd <= 0xFFFF_FFFF_FFFF_FFFFu64,
                    w <= 0x100_0000,
            ;
            assert(mag * SCALE <= 0x1000_0000_0000_0000_0000_0000) by (nonlinear_arith)
                requires
                    mag <= 0x100_0000_0000_0000_0000u128,
            ;
        }
        let thresh: u128 = 2 * (sd as u128) * (w as u128);
        proof {
            assert(step_scan(data@, w as int, sd as int, i as int + 1) == if is_step(data@, w as int, sd as int, i as int)
                && (out@.len() == 0 || i - out@.last().start_index > w) {
                out@.push(step_pattern(data@, w as int, sd as int, i as int))
            } else {
                out@
            });
            if out@.len() > 0 {
                lemma_scan_indices(data@, w as int, sd as int, i as int);
            }
        }
        let last_ok = out.len() == 0 || i - out[out.len() - 1].start_index > w;
        if mag > thresh && last_ok {
            proof {
                assert(3 * (sd as u128) * (w as u128) >= 15) by (nonlinear_arith)
                    requires
                        sd >= 1,
                        w >= 5,
                ;
                assert(3 * (sd as u128) * (w as u128) <= 3 * 0x1_0000_0000_0000_0000 * 0x100_0000) by (nonlinear_arith)
                    requires
                        sd <= 0xFFFF_FFFF_FFFF_FFFFu64,
                        w <= 0x100_0000,
                ;
            }
            let den: u128 = 3 * (sd as u128) * (w as u128);
            let c = mag * (SCALE as u128) / den;
            let confidence: u64 = if c < SCALE as u128 { c as u64 } else { SCALE };
            out.push(Pattern {
                pattern_type: PatternType::StepChange,
                start_index: i,
                length: 1,
                confidence,
                period: None,
            });
        }
        i = i + 1;
    }
    out
}

proof fn lemma_scan_indices(d: Seq<i64>, w: int, sd: int, end: int)
    requires
        step_scan(d, w, sd, end).len() > 0,
        w >= 0,
        end <= d.len(),
    ensures
        step_scan(d, w, sd, end).last().start_index < end,
    decreases end - w,
{
    let prev = step_scan(d, w, sd, end - 1);
    if end > w {
        if prev.len() > 0 {
            lemma_scan_indices(d, w, sd, end - 1);
        }
    }
}

} // verus!
