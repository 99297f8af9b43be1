//! Shared statistical primitives over windows of fixed-point samples.

use vstd::prelude::*;
use vstd::relations::{sorted_by, total_ordering};
use vstd::seq_lib::{lemma_sorted_unique, to_multiset_build, to_multiset_insert};
use vstd::arithmetic::div_mod::{
    lemma_div_by_multiple, lemma_fundamental_div_mod, lemma_mod_multiples_basic,
    lemma_div_is_ordered, lemma_div_pos_is_pos, lemma_multiply_divide_le,
};

verus! {

broadcast use vstd::seq_lib::group_to_multiset_ensures;

/// One percent in the units `percentile` takes: 100 % is `100 * PERCENT`.
pub const PERCENT: u64 = 1_000_000;

/// Largest sample magnitude the window statistics accept: 2^40 micro-units,
/// about ±1.1 million units. The lagged cross-correlation scales a sum of up
/// to `MAX_WINDOW` products of two deviations (each under twice this bound)
/// by `SCALE`, and that must stay within 128 bits. Larger readings are
/// expressed in a larger unit (kHz rather than Hz) before they are analysed.
pub const MAX_SAMPLE: i64 = 0x100_0000_0000;

/// Longest window the window statistics accept.
pub const MAX_WINDOW: usize = 0x100_0000;

/// The window's samples in ascending order.
pub open spec fn sorted_of(d: Seq<i64>) -> Seq<i64> {
    choose|s: Seq<i64>| sorted_ascending(s) && s.to_multiset() == d.to_multiset()
}

pub open spec fn ascending_leq() -> spec_fn(i64, i64) -> bool {
    |a: i64, b: i64| a <= b
}

proof fn lemma_sorted_of_unique(s: Seq<i64>, d: Seq<i64>)
    requires
        sorted_ascending(s),
        s.to_multiset() == d.to_multiset(),
    ensures
        sorted_of(d) == s,
{
    let t = sorted_of(d);
    assert(sorted_ascending(t) && t.to_multiset() == d.to_multiset());
    let leq = ascending_leq();
    assert(total_ordering(leq));
    assert(sorted_by(s, leq));
    assert(sorted_by(t, leq));
    lemma_sorted_unique(s, t, leq);
}

/// Insertion sort of a window.
pub fn sort_window(data: &[i64]) -> (r: Vec<i64>)
    ensures
        sorted_ascending(r@),
        r@.to_multiset() == data@.to_multiset(),
        r@ == sorted_of(data@),
{
    let mut out: Vec<i64> = Vec::new();
    let mut i: usize = 0;
    while i < data.len()
        invariant
            i <= data@.len(),
            sorted_ascending(out@),
            out@.to_multiset() == data@.subrange(0, i as int).to_multiset(),
        decreases data@.len() - i,
    {
        let x = data[i];
        let mut pos: usize = 0;
        while pos < out.len() && out[pos] <= x
            invariant
                pos <= out@.len(),
                forall|k: int| 0 <= k < pos ==> out@[k] <= x,
            decreases out@.len() - pos,
        {
            pos = pos + 1;
        }
        let ghost before = out@;
        proof {
            to_multiset_insert(before, pos as int, x);
            to_multiset_build(data@.subrange(0, i as int), x);
            assert(data@.subrange(0, i as int + 1) =~= data@.subrange(0, i as int).push(x));
        }
        out.insert(pos, x);
        proof {
            let now = out@;
            assert forall|a: int, b: int| 0 <= a <= b < now.len() implies now[a] <= now[b] by {
                if b < pos {
                } else if a < pos && b == pos {
                } else if a < pos {
                    assert(now[b] == before[b - 1]);
                } else if a == pos {
                    if b > pos {
                        assert(now[b] == before[b - 1]);
                        assert(pos < before.len());
                        assert(!(before[pos as int] <= x));
                    }
                } else {
                    assert(now[a] == before[a - 1]);
                    assert(now[b] == before[b - 1]);
                }
            }
        }
        i = i + 1;
    }
    proof {
        assert(data@.subrange(0, data@.len() as int) =~= data@);
        lemma_sorted_of_unique(out@, data@);
    }
    out
}

/// Statistical summaries over sample windows.
pub struct StatisticalAnalyzer;

/// Summary of one window. Values are in the window's micro-units, the
/// variance in squared micro-units. Skewness, kurtosis and the coefficient of
/// variation, which need floating point, are not part of it.
#[derive(Debug, Clone, Copy, PartialEq, Eq, Structural)]
pub struct StatisticalSummary {
    pub count: usize,
    pub mean: i64,
    pub median: i64,
    pub mode: Option<i64>,
    pub std_dev: u64,
    pub variance: u128,
    pub min: i64,
    pub max: i64,
    pub range: i64,
    pub q1: i64,
    pub q3: i64,
    pub iqr: i64,
}

/// The median of an ascending sequence; the mean of the two middle values,
/// rounded down, when the length is even.
pub open spec fn spec_median(s: Seq<i64>) -> int {
    let n = s.len() as int;
    if n % 2 == 0 {
        (s[n / 2 - 1] + s[n / 2]) / 2
    } else {
        s[n / 2] as int
    }
}

/// Bin of `x` among `nb` equal bins spanning `[lo, lo + span]`.
pub open spec fn bin_of(x: int, lo: int, span: int, nb: int) -> int {
    let b = (x - lo) * nb / span;
    if b < nb - 1 { b } else { nb - 1 }
}

/// How many samples of `s` fall in bin `b`.
pub open spec fn bin_count(s: Seq<i64>, lo: int, span: int, nb: int, b: int) -> nat
    decreases s.len(),
{
    if s.len() == 0 {
        0
    } else {
        bin_count(s.drop_last(), lo, span, nb, b) + if bin_of(s.last() as int, lo, span, nb) == b {
            1nat
        } else {
            0nat
        }
    }
}

/// The fullest of bins `0 .. k` (the last of equally full ones).
pub open spec fn fullest_bin(s: Seq<i64>, lo: int, span: int, nb: int, k: int) -> int
    decreases k,
{
    if k <= 1 {
        0
    } else {
        let prev = fullest_bin(s, lo, span, nb, k - 1);
        if bin_count(s, lo, span, nb, k - 1) >= bin_count(s, lo, span, nb, prev) {
            k - 1
        } else {
            prev
        }
    }
}

/// Binned mode of an ascending sequence with ⌊√n⌋ bins: the centre of the
/// fullest bin, rounded down; the single value when there is no spread;
/// nothing with fewer than three bins.
pub open spec fn spec_mode(s: Seq<i64>) -> Option<int> {
    let nb = spec_isqrt(s.len() as int);
    let lo = s[0] as int;
    let span = s[s.len() - 1] - lo;
    if nb < 3 {
        None
    } else if span == 0 {
        Some(lo)
    } else {
        let b = fullest_bin(s, lo, span, nb, nb);
        Some(lo + (2 * b + 1) * span / (2 * nb))
    }
}

/// The window is non-empty, not too long, and every sample is within the
/// accepted magnitude.
/// Every sample is within the accepted magnitude and the window is not too
/// long; it may be empty.
pub open spec fn samples_ok(data: Seq<i64>) -> bool {
    &&& data.len() <= MAX_WINDOW
    &&& forall|i: int| 0 <= i < data.len() ==> -MAX_SAMPLE <= #[trigger] data[i] <= MAX_SAMPLE
}

pub open spec fn window_ok(data: Seq<i64>) -> bool {
    &&& 0 < data.len() <= MAX_WINDOW
    &&& forall|i: int| 0 <= i < data.len() ==> -MAX_SAMPLE <= #[trigger] data[i] <= MAX_SAMPLE
}

pub open spec fn sorted_ascending(s: Seq<i64>) -> bool {
    forall|i: int, j: int| 0 <= i <= j < s.len() ==> s[i] <= s[j]
}

pub open spec fn seq_sum(s: Seq<i64>) -> int
    decreases s.len(),
{
    if s.len() == 0 {
        0
    } else {
        seq_sum(s.drop_last()) + s.last() as int
    }
}

/// The mean rounded down to a whole micro-unit.
pub open spec fn spec_mean(s: Seq<i64>) -> int {
    seq_sum(s) / s.len() as int
}

/// Σ (x − m)².
pub open spec fn squared_deviation(s: Seq<i64>, m: int) -> int
    decreases s.len(),
{
    if s.len() == 0 {
        0
    } else {
        squared_deviation(s.drop_last(), m) + (s.last() - m) * (s.last() - m)
    }
}

/// Sample variance about the rounded mean, rounded down; zero for fewer
/// than two samples.
pub open spec fn spec_variance(s: Seq<i64>) -> int {
    if s.len() < 2 {
        0
    } else {
        squared_deviation(s, spec_mean(s)) / (s.len() - 1)
    }
}

/// Population standard deviation: the integer square root of the mean
/// squared deviation about the rounded mean.
pub open spec fn spec_pop_std_dev(s: Seq<i64>) -> int {
    spec_isqrt(squared_deviation(s, spec_mean(s)) / s.len() as int)
}

/// `r` is the integer square root of `v`.
pub open spec fn is_isqrt(v: int, r: int) -> bool {
    r >= 0 && r * r <= v < (r + 1) * (r + 1)
}

pub open spec fn spec_isqrt(v: int) -> int {
    choose|r: int| is_isqrt(v, r)
}

/// Sample standard deviation: the integer square root of the variance.
pub open spec fn spec_std_dev(s: Seq<i64>) -> int {
    spec_isqrt(spec_variance(s))
}

pub(crate) proof fn lemma_isqrt_unique(v: int, r1: int, r2: int)
    requires
        is_isqrt(v, r1),
        is_isqrt(v, r2),
    ensures
        r1 == r2,
{
    if r1 < r2 {
        assert((r1 + 1) * (r1 + 1) <= r2 * r2) by (nonlinear_arith)
            requires
                r1 + 1 <= r2,
                r1 >= 0,
        ;
    } else if r2 < r1 {
        assert((r2 + 1) * (r2 + 1) <= r1 * r1) by (nonlinear_arith)
            requires
                r2 + 1 <= r1,
                r2 >= 0,
        ;
    }
}

/// Integer square root.
pub fn isqrt(v: u128) -> (r: u64)
    ensures
        is_isqrt(v as int, r as int),
        r as int == spec_isqrt(v as int),
{
    let mut lo: u128 = 0;
    let mut hi: u128 = 0x1_0000_0000_0000_0000;
    assert(hi * hi > u128::MAX);
    while hi - lo > 1
        invariant
            lo < hi <= 0x1_0000_0000_0000_0000,
            lo * lo <= v,
            v < hi * hi,
        decreases hi - lo,
    {
        let mid = lo + (hi - lo) / 2;
        assert(mid * mid <= u128::MAX) by (nonlinear_arith)
            requires
                mid < 0x1_0000_0000_0000_0000u128,
        ;
        if mid * mid <= v {
            lo = mid;
        } else {
            hi = mid;
        }
    }
    proof {
        assert(is_isqrt(v as int, lo as int));
        lemma_isqrt_unique(v as int, lo as int, spec_isqrt(v as int));
    }
    lo as u64
}

pub(crate) proof fn lemma_sum_bounds(s: Seq<i64>)
    requires
        forall|i: int| 0 <= i < s.len() ==> -MAX_SAMPLE <= #[trigger] s[i] <= MAX_SAMPLE,
    ensures
        -MAX_SAMPLE * s.len() <= seq_sum(s) <= MAX_SAMPLE * s.len(),
    decreases s.len(),
{
    if s.len() > 0 {
        let t = s.drop_last();
        assert forall|i: int| 0 <= i < t.len() implies -MAX_SAMPLE <= #[trigger] t[i] <= MAX_SAMPLE by {
            assert(t[i] == s[i]);
        }
        lemma_sum_bounds(t);
        assert(s.last() == s[s.len() - 1]);
    }
}

/// Floor division of a signed numerator by a positive denominator.
pub(crate) fn floor_div(num: i128, den: u128) -> (r: i128)
    requires
        0 < den <= 0x4000_0000_0000_0000_0000_0000_0000_0000,
        -0x4000_0000_0000_0000_0000_0000_0000_0000 <= num <= 0x4000_0000_0000_0000_0000_0000_0000_0000,
    ensures
        r == num as int / den as int,
{
    if num >= 0 {
        ((num as u128) / (den as u128)) as i128
    } else {
        let pos = (-num) as u128;
        let q = (pos + den as u128 - 1) / (den as u128);
        proof {
            let d = den as int;
            let n = num as int;
            lemma_fundamental_div_mod(n, d);
            lemma_fundamental_div_mod(-n + d - 1, d);
            let q1 = (-n + d - 1) / d;
            let q2 = n / d;
            // -n + d - 1 = d*q1 + r1 with 0 <= r1 < d, and n = d*q2 + r2 with 0 <= r2 < d
            assert(q1 == -q2) by (nonlinear_arith)
                requires
                    -n + d - 1 == d * q1 + (-n + d - 1) % d,
                    n == d * q2 + n % d,
                    0 <= (-n + d - 1) % d < d,
                    0 <= n % d < d,
                    d > 0,
            ;
        }
        -(q as i128)
    }
}

/// Linear-interpolation percentile of an ascending sequence; `p` is in
/// units of `PERCENT`.
pub open spec fn spec_percentile(s: Seq<i64>, p: int) -> int {
    let d = 100 * PERCENT as int;
    let num = p * (s.len() - 1);
    let f = num / d;
    let rem = num % d;
    if rem == 0 {
        s[f] as int
    } else {
        s[f] + (s[f + 1] - s[f]) * rem / d
    }
}

proof fn lemma_percentile_rank(n: int, p: int)
    requires
        n > 0,
        0 <= p <= 100 * PERCENT,
    ensures
        0 <= (p * (n - 1)) / (100 * PERCENT as int) < n,
        (p * (n - 1)) % (100 * PERCENT as int) != 0 ==> (p * (n - 1)) / (100 * PERCENT as int) + 1 < n,
{
    let d = 100 * PERCENT as int;
    let num = p * (n - 1);
    assert(0 <= num <= d * (n - 1)) by (nonlinear_arith)
        requires
            num == p * (n - 1),
            0 <= p <= d,
            n >= 1,
    ;
    lemma_fundamental_div_mod(num, d);
    lemma_div_pos_is_pos(num, d);
    lemma_div_is_ordered(num, d * (n - 1), d);
    assert(d * (n - 1) == (n - 1) * d) by (nonlinear_arith);
    lemma_div_by_multiple(n - 1, d);
    if num % d != 0 && num / d == n - 1 {
        assert(num == d * (n - 1) + num % d);
        assert(false);
    }
}

proof fn lemma_percentile_within(s: Seq<i64>, p: int)
    requires
        s.len() > 0,
        sorted_ascending(s),
        0 <= p <= 100 * PERCENT,
    ensures
        s[0] <= spec_percentile(s, p) <= s[s.len() - 1],
{
    let d = 100 * PERCENT as int;
    let num = p * (s.len() - 1);
    lemma_percentile_rank(s.len() as int, p);
    let f = num / d;
    let rem = num % d;
    if rem != 0 {
        lemma_fundamental_div_mod(num, d);
        let span = s[f + 1] - s[f];
        assert(s[f] <= s[f + 1]);
        assert(0 <= span * rem <= span * d) by (nonlinear_arith)
            requires
                span >= 0,
                0 <= rem < d,
        ;
        assert(span * d == d * span) by (nonlinear_arith);
        lemma_multiply_divide_le(span * rem, d, span);
        lemma_div_pos_is_pos(span * rem, d);
        assert(s[0] <= s[f]);
        assert(s[f + 1] <= s[s.len() - 1]);
    }
}

/// The extremes of a percentile: on any non-empty ascending sequence the
/// 0th percentile is the first (smallest) element and the 100th the last
/// (largest).
pub proof fn lemma_percentile_extremes(s: Seq<i64>)
    requires
        s.len() > 0,
        sorted_ascending(s),
    ensures
        spec_percentile(s, 0) == s[0],
        spec_percentile(s, 100 * PERCENT as int) == s[s.len() - 1],
{
    let d = 100 * PERCENT as int;
    let n = s.len() as int;
    assert(0 * (n - 1) == 0);
    assert(d * (n - 1) == (n - 1) * d) by (nonlinear_arith);
    lemma_div_by_multiple(n - 1, d);
    lemma_mod_multiples_basic(n - 1, d);
}

impl StatisticalAnalyzer {
    pub fn new() -> (r: StatisticalAnalyzer) {
        StatisticalAnalyzer
    }

    /// The mean, rounded down; zero for an empty window.
    pub fn mean(&self, data: &[i64]) -> (r: i64)
        requires
            samples_ok(data@),
        ensures
            data@.len() > 0 ==> r == spec_mean(data@),
            data@.len() == 0 ==> r == 0,
            -MAX_SAMPLE <= r <= MAX_SAMPLE,
    {
        if data.len() == 0 {
            return 0;
        }
        let mut sum: i128 = 0;
        let mut i: usize = 0;
        while i < data.len()
            invariant
                window_ok(data@),
                i <= data@.len(),
                sum == seq_sum(data@.subrange(0, i as int)),
            decreases data@.len() - i,
        {
            proof {
                let t = data@.subrange(0, i as int + 1);
                assert(t.drop_last() =~= data@.subrange(0, i as int));
                assert forall|j: int| 0 <= j < t.len() implies -MAX_SAMPLE <= #[trigger] t[j] <= MAX_SAMPLE by {
                    assert(t[j] == data@[j]);
                }
                lemma_sum_bounds(t);
                assert(MAX_SAMPLE * t.len() <= MAX_SAMPLE * MAX_WINDOW) by (nonlinear_arith)
                    requires
                        t.len() <= MAX_WINDOW,
                ;
            }
            sum = sum + data[i] as i128;
            i = i + 1;
        }
        assert(data@.subrange(0, data@.len() as int) =~= data@);
        proof {
            lemma_sum_bounds(data@);
            let n = data@.len() as int;
            assert(MAX_SAMPLE * n <= MAX_SAMPLE * MAX_WINDOW) by (nonlinear_arith)
                requires
                    n <= MAX_WINDOW,
            ;
            lemma_div_is_ordered(seq_sum(data@), MAX_SAMPLE * n, n);
            lemma_div_is_ordered(-MAX_SAMPLE * n, seq_sum(data@), n);
            lemma_div_by_multiple(MAX_SAMPLE as int, n);
            assert(-MAX_SAMPLE * n == (-MAX_SAMPLE) * n) by (nonlinear_arith);
            vstd::arithmetic::div_mod::lemma_div_multiples_vanish(-MAX_SAMPLE as int, n);
        }
        floor_div(sum, data.len() as u128) as i64
    }

    /// Σ (x − m)² over the window.
    fn sum_sq_dev(&self, data: &[i64], m: i64) -> (r: u128)
        requires
            window_ok(data@),
            -MAX_SAMPLE <= m <= MAX_SAMPLE,
        ensures
            r == squared_deviation(data@, m as int),
            r <= data@.len() * 0x4_0000_0000_0000_0000_0000,
    {
        let mut acc: u128 = 0;
        let mut i: usize = 0;
        while i < data.len()
            invariant
                window_ok(data@),
                -MAX_SAMPLE <= m <= MAX_SAMPLE,
                i <= data@.len(),
                acc == squared_deviation(data@.subrange(0, i as int), m as int),
                acc <= i * 0x4_0000_0000_0000_0000_0000,
            decreases data@.len() - i,
        {
            proof {
                let t = data@.subrange(0, i as int + 1);
                assert(t.drop_last() =~= data@.subrange(0, i as int));
            }
            let x = data[i];
            let d: i128 = x as i128 - m as i128;
            proof {
                assert(-MAX_SAMPLE <= data@[i as int] <= MAX_SAMPLE);
                assert(0 <= d * d <= 0x4_0000_0000_0000_0000_0000) by (nonlinear_arith)
                    requires
                        -0x200_0000_0000 <= d <= 0x200_0000_0000,
                ;
                assert(i * 0x4_0000_0000_0000_0000_0000 + 0x4_0000_0000_0000_0000_0000
                    <= MAX_WINDOW * 0x4_0000_0000_0000_0000_0000) by (nonlinear_arith)
                    requires
                        i < MAX_WINDOW,
                ;
            }
            let sq: u128 = (d * d) as u128;
            acc = acc + sq;
            i = i + 1;
        }
        assert(data@.subrange(0, data@.len() as int) =~= data@);
        acc
    }

    /// Sample variance (n − 1 denominator) about the rounded mean, in
    /// squared micro-units; zero for fewer than two samples.
    pub fn variance(&self, data: &[i64]) -> (r: u128)
        requires
            samples_ok(data@),
        ensures
            r == spec_variance(data@),
    {
        if data.len() < 2 {
            return 0;
        }
        let m = self.mean(data);
        let acc = self.sum_sq_dev(data, m);
        acc / (data.len() as u128 - 1)
    }

    /// Population standard deviation (n denominator) about the rounded
    /// mean: the integer square root of the mean squared deviation.
    pub fn population_std_dev(&self, data: &[i64]) -> (r: u64)
        requires
            samples_ok(data@),
        ensures
            data@.len() > 0 ==> r == spec_pop_std_dev(data@),
            data@.len() == 0 ==> r == 0,
            r <= 0x200_0000_0000,
    {
        if data.len() == 0 {
            return 0;
        }
        let m = self.mean(data);
        let acc = self.sum_sq_dev(data, m);
        let n = data.len() as u128;
        proof {
            lemma_multiply_divide_le(acc as int, n as int, 0x4_0000_0000_0000_0000_0000);
            assert(n * 0x4_0000_0000_0000_0000_0000 == 0x4_0000_0000_0000_0000_0000 * n) by (nonlinear_arith);
        }
        let r = isqrt(acc / n);
        proof {
            if r > 0x200_0000_0000 {
                assert(r * r > 0x4_0000_0000_0000_0000_0000) by (nonlinear_arith)
                    requires
                        r > 0x200_0000_0000u64,
                ;
            }
        }
        r
    }

    /// Sample standard deviation: the integer square root of `variance`.
    pub fn std_dev(&self, data: &[i64]) -> (r: u64)
        requires
            samples_ok(data@),
        ensures
            r == spec_std_dev(data@),
    {
        let v = self.variance(data);
        isqrt(v)
    }

    /// The `p`-th percentile of an ascending sequence by linear
    /// interpolation between the two nearest ranks; `p` is in units of
    /// `PERCENT`, from 0 to 100 %. The interpolated part is rounded down.
    /// Zero for an empty sequence.
    pub fn percentile(&self, sorted: &[i64], p: u64) -> (r: i64)
        requires
            sorted_ascending(sorted@),
            p <= 100 * PERCENT,
        ensures
            sorted@.len() > 0 ==> r == spec_percentile(sorted@, p as int),
            sorted@.len() == 0 ==> r == 0,
    {
        if sorted.len() == 0 {
            return 0;
        }
        let d: u128 = 100 * PERCENT as u128;
        let n = sorted.len();
        proof {
            assert((n - 1) as int <= u64::MAX);
            assert((p as int) * ((n - 1) as int) <= 100 * PERCENT * 0xFFFF_FFFF_FFFF_FFFF) by (nonlinear_arith)
                requires
                    p <= 100 * PERCENT,
                    (n - 1) as int <= 0xFFFF_FFFF_FFFF_FFFF,
                    n >= 1,
            ;
        }
        let num: u128 = (p as u128) * ((n - 1) as u128);
        let f = num / d;
        let rem = num % d;
        proof {
            lemma_percentile_rank(sorted@.len() as int, p as int);
        }
        if rem == 0 {
            sorted[f as usize]
        } else {
            let lo = sorted[f as usize];
            let hi = sorted[f as usize + 1];
            proof {
                assert(sorted@[f as int] <= sorted@[f as int + 1]);
            }
            let span: u128 = (hi as i128 - lo as i128) as u128;
            proof {
                assert(span * rem <= 0x1_0000_0000_0000_0000 * d) by (nonlinear_arith)
                    requires
                        span <= 0x1_0000_0000_0000_0000u128,
                        rem < d,
                ;
            }
            let step = span * rem / d;
            proof {
                assert(span * rem <= d * span) by (nonlinear_arith)
                    requires
                        rem < d,
                ;
                lemma_multiply_divide_le(span * rem, d as int, span as int);
            }
            (lo as i128 + step as i128) as i64
        }
    }

    /// The binned mode of an ascending window; nothing for an empty one.
    pub fn mode(&self, sorted: &[i64]) -> (r: Option<i64>)
        requires
            samples_ok(sorted@),
            sorted_ascending(sorted@),
        ensures
            sorted@.len() > 0 ==> (r matches Some(v) ==> spec_mode(sorted@) == Some(v as int)),
            sorted@.len() > 0 && r is None ==> spec_mode(sorted@) is None,
            sorted@.len() == 0 ==> r is None,
    {
        if sorted.len() == 0 {
            return None;
        }
        let n = sorted.len();
        let nb64 = isqrt(n as u128);
        proof {
            assert(nb64 <= n) by (nonlinear_arith)
                requires
                    nb64 * nb64 <= n,
                    n >= 1,
            ;
        }
        let nb = nb64 as usize;
        if nb < 3 {
            return None;
        }
        let lo = sorted[0];
        let hi = sorted[n - 1];
        proof {
            assert(-MAX_SAMPLE <= sorted@[0] <= MAX_SAMPLE);
            assert(-MAX_SAMPLE <= sorted@[n - 1] <= MAX_SAMPLE);
            assert(sorted@[0] <= sorted@[n - 1]);
        }
        let span: i64 = hi - lo;
        if span == 0 {
            return Some(lo);
        }
        let ghost sq = sorted@;
        let mut counts: Vec<usize> = vec![0usize; nb];
        let mut i: usize = 0;
        while i < n
            invariant
                window_ok(sq),
                sorted_ascending(sq),
                sq == sorted@,
                n == sq.len(),
                3 <= nb <= n,
                lo == sq[0],
                span == sq[n - 1] - sq[0],
                span > 0,
                i <= n,
                counts@.len() == nb,
                forall|b: int| 0 <= b < nb ==> #[trigger] counts@[b] == bin_count(sq.subrange(0, i as int), lo as int, span as int, nb as int, b),
                forall|b: int| 0 <= b < nb ==> #[trigger] counts@[b] <= i,
            decreases n - i,
        {
            let x = sorted[i];
            proof {
                assert(sq[0] <= sq[i as int] <= sq[n - 1]);
                assert(0 <= (x - lo) * nb <= span * nb) by (nonlinear_arith)
                    requires
                        0 <= x - lo <= span,
                        nb >= 0,
                ;
                assert((x - lo) * nb <= 0x200_0000_0000 * 0x100_0000) by (nonlinear_arith)
                    requires
                        0 <= x - lo <= 0x200_0000_0000,
                        0 <= nb <= 0x100_0000,
                ;
                vstd::arithmetic::div_mod::lemma_div_pos_is_pos((x - lo) * nb, span as int);
                lemma_multiply_divide_le((x - lo) * nb, span as int, nb as int);
            }
            let raw = ((x - lo) as u128 * nb as u128 / span as u128) as usize;
            let b = if raw < nb - 1 { raw } else { nb - 1 };
            proof {
                let pre = sq.subrange(0, i as int);
                let next = sq.subrange(0, i as int + 1);
                assert(next.drop_last() =~= pre);
                assert(next.last() == x);
                assert(b as int == bin_of(x as int, lo as int, span as int, nb as int));
            }
            let c = counts[b];
            counts.set(b, c + 1);
            proof {
                assert forall|k: int| 0 <= k < nb implies #[trigger] counts@[k] == bin_count(sq.subrange(0, i as int + 1), lo as int, span as int, nb as int, k) by {
                    assert(sq.subrange(0, i as int + 1).drop_last() =~= sq.subrange(0, i as int));
                }
            }
            i = i + 1;
        }
        assert(sq.subrange(0, n as int) =~= sq);
        let mut best: usize = 0;
        let mut k: usize = 1;
        while k < nb
            invariant
                counts@.len() == nb,
                3 <= nb,
                1 <= k <= nb,
                forall|b: int| 0 <= b < nb ==> #[trigger] counts@[b] == bin_count(sq, lo as int, span as int, nb as int, b),
                best as int == fullest_bin(sq, lo as int, span as int, nb as int, k as int),
                best < k,
            decreases nb - k,
        {
            if counts[k] >= counts[best] {
                best = k;
            }
            k = k + 1;
        }
        proof {
            assert((2 * best + 1) * span <= (2 * nb) * span) by (nonlinear_arith)
                requires
                    best < nb,
                    span > 0,
            ;
            assert((2 * nb) * span <= 2 * 0x100_0000 * 0x200_0000_0000) by (nonlinear_arith)
                requires
                    nb <= 0x100_0000,
                    0 < span <= 0x200_0000_0000,
            ;
            assert((2 * best + 1) * span >= 0) by (nonlinear_arith)
                requires
                    span > 0,
            ;
            vstd::arithmetic::div_mod::lemma_multiply_divide_le((2 * best + 1) * span, 2 * nb as int, span as int);
            vstd::arithmetic::div_mod::lemma_div_pos_is_pos((2 * best + 1) * span, 2 * nb as int);
        }
        let off = ((2 * best as u128 + 1) * span as u128) / (2 * nb as u128);
        Some(lo + off as i64)
    }

    /// Count, mean, median, mode, spread and quartiles of a window; every
    /// field zero (and no mode) for an empty one.
    pub fn summarize(&self, data: &[i64]) -> (r: StatisticalSummary)
        requires
            samples_ok(data@),
        ensures
            data@.len() == 0 ==> r == (StatisticalSummary {
                count: 0,
                mean: 0,
                median: 0,
                mode: None,
                std_dev: 0,
                variance: 0,
                min: 0,
                max: 0,
                range: 0,
                q1: 0,
                q3: 0,
                iqr: 0,
            }),
            data@.len() > 0 ==> {
                let s = sorted_of(data@);
                &&& r.count == data@.len()
                &&& r.mean == spec_mean(data@)
                &&& r.median == spec_median(s)
                &&& (r.mode matches Some(v) ==> spec_mode(s) == Some(v as int))
                &&& (r.mode is None ==> spec_mode(s) is None)
                &&& r.variance == spec_variance(data@)
                &&& r.std_dev == spec_std_dev(data@)
                &&& r.min == s[0]
                &&& r.max == s[s.len() - 1]
                &&& r.range == r.max - r.min
                &&& r.q1 == spec_percentile(s, 25 * PERCENT as int)
                &&& r.q3 == spec_percentile(s, 75 * PERCENT as int)
                &&& r.iqr == r.q3 - r.q1
            },
    {
        if data.len() == 0 {
            return StatisticalSummary {
                count: 0,
                mean: 0,
                median: 0,
                mode: None,
                std_dev: 0,
                variance: 0,
                min: 0,
                max: 0,
                range: 0,
                q1: 0,
                q3: 0,
                iqr: 0,
            };
        }
        let sorted = sort_window(data);
        let n = sorted.len();
        proof {
            assert(sorted@.to_multiset().len() == data@.to_multiset().len());
            assert forall|i: int| 0 <= i < sorted@.len() implies -MAX_SAMPLE <= #[trigger] sorted@[i] <= MAX_SAMPLE by {
                assert(sorted@.to_multiset().contains(sorted@[i]));
                assert(data@.to_multiset().contains(sorted@[i]));
                let j = choose|j: int| 0 <= j < data@.len() && data@[j] == sorted@[i];
            }
        }
        let mean = self.mean(data);
        let variance = self.variance(data);
        let std_dev = isqrt(variance);
        let min = sorted[0];
        let max = sorted[n - 1];
        let mid = n / 2;
        let median: i64 = if n % 2 == 0 {
            floor_div(sorted[mid - 1] as i128 + sorted[mid] as i128, 2) as i64
        } else {
            sorted[mid]
        };
        let q1 = self.percentile(sorted.as_slice(), 25 * PERCENT);
        let q3 = self.percentile(sorted.as_slice(), 75 * PERCENT);
        proof {
            assert(sorted@[0] <= q1 <= sorted@[n - 1]) by {
                lemma_percentile_within(sorted@, 25 * PERCENT as int);
            }
            assert(sorted@[0] <= q3 <= sorted@[n - 1]) by {
                lemma_percentile_within(sorted@, 75 * PERCENT as int);
            }
        }
        let mode = self.mode(sorted.as_slice());
        StatisticalSummary {
            count: n,
            mean,
            median,
            mode,
            std_dev,
            variance,
            min,
            max,
            range: max - min,
            q1,
            q3,
            iqr: q3 - q1,
        }
    }
}

} // verus!
