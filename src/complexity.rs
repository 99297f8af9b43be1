//! Recurrence quantification of a window embedded in two dimensions.

use vstd::prelude::*;
use vstd::arithmetic::div_mod::lemma_multiply_divide_le;

use crate::fixed::SCALE;
use crate::statistics::{samples_ok, window_ok, MAX_SAMPLE, MAX_WINDOW};

verus! {

/// Shortest window the recurrence analysis looks at.
pub const RQA_MIN_LEN: usize = 50;

/// Number of leading embedded points whose pairwise distances set the
/// recurrence threshold.
pub const RQA_THRESHOLD_POINTS: usize = 50;

/// Recurrence rate, determinism and laminarity, each in parts per million.
#[derive(Debug, Clone, Copy, PartialEq, Eq, Structural)]
pub struct RecurrenceMeasures {
    pub recurrence_rate: u64,
    pub determinism: u64,
    pub laminarity: u64,
}

/// Squared distance between the embedded points `(d[i], d[i+1])` and
/// `(d[j], d[j+1])`.
pub open spec fn sq_dist(d: Seq<i64>, i: int, j: int) -> int {
    (d[i] - d[j]) * (d[i] - d[j]) + (d[i + 1] - d[j + 1]) * (d[i + 1] - d[j + 1])
}

/// Largest squared distance from point `i` to the points `i+1 .. k`.
pub open spec fn row_max(d: Seq<i64>, i: int, k: int) -> int
    decreases k - i,
{
    if k <= i + 1 {
        0
    } else {
        let m = row_max(d, i, k - 1);
        let x = sq_dist(d, i, k - 1);
        if x > m { x } else { m }
    }
}

/// Largest squared distance among the pairs of the first `m` points, over
/// rows `0 .. i`.
pub open spec fn pair_max(d: Seq<i64>, m: int, i: int) -> int
    decreases i,
{
    if i <= 0 {
        0
    } else {
        let a = pair_max(d, m, i - 1);
        let b = row_max(d, i - 1, m);
        if b > a { b } else { a }
    }
}

/// Points `i` and `j` recur: their distance is under a tenth of the
/// threshold distance (compared squared: 100·dist² < max²).
pub open spec fn recurs(d: Seq<i64>, th: int, i: int, j: int) -> bool {
    100 * sq_dist(d, i, j) < th
}

/// Recurrent points in row `i` among columns `0 .. k`.
pub open spec fn row_points(d: Seq<i64>, th: int, i: int, k: int) -> int
    decreases k,
{
    if k <= 0 {
        0
    } else {
        row_points(d, th, i, k - 1) + if recurs(d, th, i, k - 1) { 1int } else { 0int }
    }
}

/// Recurrent points in row `i` among columns `0 .. k` whose predecessor on
/// the diagonal also recurs.
pub open spec fn row_diagonal(d: Seq<i64>, th: int, i: int, k: int) -> int
    decreases k,
{
    if k <= 0 {
        0
    } else {
        row_diagonal(d, th, i, k - 1) + if i > 0 && k - 1 > 0 && recurs(d, th, i, k - 1)
            && recurs(d, th, i - 1, k - 2) {
            1int
        } else {
            0int
        }
    }
}

/// Scan of row `i` over columns `0 .. k`: the length of the run of
/// recurrent points that ends at column `k − 1`, and the points in runs of
/// at least two that ended before it.
pub open spec fn row_runs(d: Seq<i64>, th: int, i: int, k: int) -> (int, int)
    decreases k,
{
    if k <= 0 {
        (0, 0)
    } else {
        let (run, acc) = row_runs(d, th, i, k - 1);
        if recurs(d, th, i, k - 1) {
            (run + 1, acc)
        } else {
            (0, if run >= 2 { acc + run } else { acc })
        }
    }
}

/// Points of row `i` lying in runs of at least two recurrent points.
pub open spec fn row_laminar(d: Seq<i64>, th: int, i: int, nv: int) -> int {
    let (run, acc) = row_runs(d, th, i, nv);
    if run >= 2 { acc + run } else { acc }
}

/// Totals over rows `0 .. i`: recurrent points, points on diagonal lines
/// (rows contributing more than one), and laminar points.
pub open spec fn rqa_totals(d: Seq<i64>, th: int, nv: int, i: int) -> (int, int, int)
    decreases i,
{
    if i <= 0 {
        (0, 0, 0)
    } else {
        let (p, g, l) = rqa_totals(d, th, nv, i - 1);
        let rd = row_diagonal(d, th, i - 1, nv);
        (p + row_points(d, th, i - 1, nv), if rd > 1 { g + rd } else { g }, l + row_laminar(d, th, i - 1, nv))
    }
}

/// Recurrence quantification: zero measures for a window shorter than
/// `RQA_MIN_LEN`; otherwise, with `nv` embedded points and the threshold
/// set by the first `RQA_THRESHOLD_POINTS` of them, the recurrence rate
/// (points / nv²), the determinism (diagonal points / points) and the
/// laminarity (points in vertical lines of length two or more / points;
/// the recurrence matrix is symmetric, so vertical lines are counted along
/// rows).
pub open spec fn spec_rqa(d: Seq<i64>) -> RecurrenceMeasures {
    let n = d.len() as int;
    if n < RQA_MIN_LEN {
        RecurrenceMeasures { recurrence_rate: 0, determinism: 0, laminarity: 0 }
    } else {
        let nv = n - 1;
        let m = if nv < RQA_THRESHOLD_POINTS { nv } else { RQA_THRESHOLD_POINTS as int };
        let th = pair_max(d, m, m);
        let (p, g, l) = rqa_totals(d, th, nv, nv);
        RecurrenceMeasures {
            recurrence_rate: (p * SCALE as int / (nv * nv)) as u64,
            determinism: (if p > 0 { g * SCALE as int / p } else { 0 }) as u64,
            laminarity: (if p > 0 { l * SCALE as int / p } else { 0 }) as u64,
        }
    }
}

proof fn lemma_sq_dist_bounded(d: Seq<i64>, i: int, j: int)
    requires
        window_ok(d),
        0 <= i < d.len() - 1,
        0 <= j < d.len() - 1,
    ensures
        0 <= sq_dist(d, i, j) <= 0x8_0000_0000_0000_0000_0000,
{
    assert(-MAX_SAMPLE <= d[i] <= MAX_SAMPLE);
    assert(-MAX_SAMPLE <= d[j] <= MAX_SAMPLE);
    assert(-MAX_SAMPLE <= d[i + 1] <= MAX_SAMPLE);
    assert(-MAX_SAMPLE <= d[j + 1] <= MAX_SAMPLE);
    let a = d[i] - d[j];
    let b = d[i + 1] - d[j + 1];
    assert(0 <= a * a + b * b <= 0x8_0000_0000_0000_0000_0000) by (nonlinear_arith)
        requires
            -0x200_0000_0000 <= a <= 0x200_0000_0000,
            -0x200_0000_0000 <= b <= 0x200_0000_0000,
    ;
}

fn sq_dist_at(data: &[i64], i: usize, j: usize) -> (r: u128)
    requires
        window_ok(data@),
        i < data@.len() - 1,
        j < data@.len() - 1,
    ensures
        r == sq_dist(data@, i as int, j as int),
        r <= 0x8_0000_0000_0000_0000_0000,
{
    proof {
        lemma_sq_dist_bounded(data@, i as int, j as int);
        assert(-MAX_SAMPLE <= data@[i as int] <= MAX_SAMPLE);
        assert(-MAX_SAMPLE <= data@[j as int] <= MAX_SAMPLE);
        assert(-MAX_SAMPLE <= data@[i + 1] <= MAX_SAMPLE);
        assert(-MAX_SAMPLE <= data@[j + 1] <= MAX_SAMPLE);
    }
    let a = data[i] as i128 - data[j] as i128;
    let b = data[i + 1] as i128 - data[j + 1] as i128;
    proof {
        assert(0 <= a * a <= 0x4_0000_0000_0000_0000_0000 && 0 <= b * b <= 0x4_0000_0000_0000_0000_0000) by (nonlinear_arith)
            requires
                -0x200_0000_0000 <= a <= 0x200_0000_0000,
                -0x200_0000_0000 <= b <= 0x200_0000_0000,
        ;
    }
    (a * a + b * b) as u128
}

fn recurrence_threshold(data: &[i64], m: usize) -> (r: u128)
    requires
        window_ok(data@),
        m < data@.len(),
    ensures
        r == pair_max(data@, m as int, m as int),
        r <= 0x8_0000_0000_0000_0000_0000,
{
    let mut best: u128 = 0;
    let mut i: usize = 0;
    while i < m
        invariant
            window_ok(data@),
            m < data@.len(),
            i <= m,
            best == pair_max(data@, m as int, i as int),
            best <= 0x8_0000_0000_0000_0000_0000,
        decreases m - i,
    {
        let mut rm: u128 = 0;
        let mut k: usize = i + 1;
        while k < m
            invariant
                window_ok(data@),
                m < data@.len(),
                i < m,
                i + 1 <= k <= m,
                rm == row_max(data@, i as int, k as int),
                rm <= 0x8_0000_0000_0000_0000_0000,
            decreases m - k,
        {
            let x = sq_dist_at(data, i, k);
            if x > rm {
                rm = x;
            }
            k = k + 1;
        }
        if rm > best {
            best = rm;
        }
        i = i + 1;
    }
    best
}

fn row_stats(data: &[i64], th: u128, i: usize, nv: usize) -> (r: (u64, u64, u64))
    requires
        window_ok(data@),
        nv == data@.len() - 1,
        i < nv,
    ensures
        r.0 == row_points(data@, th as int, i as int, nv as int),
        r.1 == row_diagonal(data@, th as int, i as int, nv as int),
        r.2 == row_laminar(data@, th as int, i as int, nv as int),
        r.0 <= nv,
        r.1 <= r.0,
        r.2 <= r.0,
{
    let mut pts: u64 = 0;
    let mut dg: u64 = 0;
    let mut run: u64 = 0;
    let mut acc: u64 = 0;
    let mut prev_row_hit = false;
    let mut j: usize = 0;
    while j < nv
        invariant
            window_ok(data@),
            nv == data@.len() - 1,
            nv <= MAX_WINDOW,
            i < nv,
            j <= nv,
            pts == row_points(data@, th as int, i as int, j as int),
            dg == row_diagonal(data@, th as int, i as int, j as int),
            (run as int, acc as int) == row_runs(data@, th as int, i as int, j as int),
            pts <= j,
            dg <= pts,
            run + acc <= pts,
        decreases nv - j,
    {
        let hit = 100 * sq_dist_at(data, i, j) < th;
        if hit {
            pts = pts + 1;
            if i > 0 && j > 0 {
                if 100 * sq_dist_at(data, i - 1, j - 1) < th {
                    dg = dg + 1;
                }
            }
            run = run + 1;
        } else {
            if run >= 2 {
                acc = acc + run;
            }
            run = 0;
        }
        j = j + 1;
    }
    let lam = if run >= 2 { acc + run } else { acc };
    (pts, dg, lam)
}

fn rqa_measures(data: &[i64]) -> (r: RecurrenceMeasures)
    requires
        samples_ok(data@),
    ensures
        r == spec_rqa(data@),
{
    let n = data.len();
    if n < RQA_MIN_LEN {
        return RecurrenceMeasures { recurrence_rate: 0, determinism: 0, laminarity: 0 };
    }
    let nv = n - 1;
    let m = if nv < RQA_THRESHOLD_POINTS { nv } else { RQA_THRESHOLD_POINTS };
    let th = recurrence_threshold(data, m);
    let mut p: u64 = 0;
    let mut g: u64 = 0;
    let mut l: u64 = 0;
    let mut i: usize = 0;
    while i < nv
        invariant
            window_ok(data@),
            nv == data@.len() - 1,
            nv <= MAX_WINDOW,
            i <= nv,
            (p as int, g as int, l as int) == rqa_totals(data@, th as int, nv as int, i as int),
            p <= i * nv,
            g <= p,
            l <= p,
        decreases nv - i,
    {
        let (rp, rd, rl) = row_stats(data, th, i, nv);
        proof {
            assert((i + 1) * nv == i * nv + nv) by (nonlinear_arith);
            assert((i + 1) * nv <= 0x100_0000 * 0x100_0000) by (nonlinear_arith)
                requires
                    i + 1 <= 0x100_0000,
                    nv <= 0x100_0000,
            ;
        }
        p = p + rp;
        if rd > 1 {
            g = g + rd;
        }
        l = l + rl;
        i = i + 1;
    }
    proof {
        assert(nv * nv <= 0x100_0000 * 0x100_0000) by (nonlinear_arith)
            requires
                nv <= 0x100_0000,
        ;
    }
    let total = (nv as u128) * (nv as u128);
    proof {
        if p > 0 {
            assert(g as int * SCALE <= p * SCALE) by (nonlinear_arith)
                requires
                    g <= p,
            ;
            assert(l as int * SCALE <= p * SCALE) by (nonlinear_arith)
                requires
                    l <= p,
            ;
            lemma_multiply_divide_le(g as int * SCALE, p as int, SCALE as int);
            lemma_multiply_divide_le(l as int * SCALE, p as int, SCALE as int);
        }
        assert(total >= 1) by (nonlinear_arith)
            requires
                total == nv * nv,
                nv >= 1,
        ;
        assert(p as int * SCALE <= 0x100_0000 * 0x100_0000 * SCALE) by (nonlinear_arith)
            requires
                p <= nv * nv,
                nv <= 0x100_0000,
        ;
        assert(p as int * SCALE <= total * SCALE) by (nonlinear_arith)
            requires
                p <= nv * nv,
                total == nv * nv,
        ;
        lemma_multiply_divide_le(p as int * SCALE, total as int, SCALE as int);
        assert(g as int * SCALE <= 0x100_0000 * 0x100_0000 * SCALE) by (nonlinear_arith)
            requires
                g <= nv * nv,
                nv <= 0x100_0000,
        ;
        assert(l as int * SCALE <= 0x100_0000 * 0x100_0000 * SCALE) by (nonlinear_arith)
            requires
                l <= nv * nv,
                nv <= 0x100_0000,
        ;
    }
    let rr = (p as u128 * SCALE as u128 / total) as u64;
    let det = if p > 0 { (g as u128 * SCALE as u128 / p as u128) as u64 } else { 0 };
    let lam = if p > 0 { (l as u128 * SCALE as u128 / p as u128) as u64 } else { 0 };
    RecurrenceMeasures { recurrence_rate: rr, determinism: det, laminarity: lam }
}

/// Entry point of the complexity measures.
pub struct ComplexityAnalyzer;

impl ComplexityAnalyzer {
    pub fn new() -> (r: ComplexityAnalyzer) {
        ComplexityAnalyzer
    }

    /// Recurrence rate, determinism and laminarity of a window.
    pub fn recurrence_quantification(&self, data: &[i64]) -> (r: RecurrenceMeasures)
        requires
            samples_ok(data@),
        ensures
            r == spec_rqa(data@),
    {
        rqa_measures(data)
    }
}

} // verus!
