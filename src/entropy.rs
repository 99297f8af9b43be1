//! The histogram behind the entropy family, and the entropies that need no
//! logarithm.

use vstd::prelude::*;
use vstd::arithmetic::div_mod::{lemma_div_pos_is_pos, lemma_multiply_divide_le};

use crate::fixed::SCALE;
use crate::statistics::{samples_ok, window_ok, MAX_SAMPLE, MAX_WINDOW};

verus! {

/// Number of histogram bins.
pub const HISTOGRAM_BINS: usize = 256;

pub open spec fn seq_min(s: Seq<i64>) -> int
    decreases s.len(),
{
    if s.len() <= 1 {
        if s.len() == 0 { 0 } else { s[0] as int }
    } else {
        let m = seq_min(s.drop_last());
        if (s.last() as int) < m { s.last() as int } else { m }
    }
}

pub open spec fn seq_max(s: Seq<i64>) -> int
    decreases s.len(),
{
    if s.len() <= 1 {
        if s.len() == 0 { 0 } else { s[0] as int }
    } else {
        let m = seq_max(s.drop_last());
        if (s.last() as int) > m { s.last() as int } else { m }
    }
}

/// Bin of `x` among 256 equal bins over `[lo, lo + span]`; everything falls
/// in the first bin when there is no spread.
pub open spec fn hist_bin(x: int, lo: int, span: int) -> int {
    if span == 0 {
        0
    } else {
        (x - lo) * (HISTOGRAM_BINS - 1) / span
    }
}

pub open spec fn hist_count(s: Seq<i64>, lo: int, span: int, b: int) -> nat
    decreases s.len(),
{
    if s.len() == 0 {
        0
    } else {
        hist_count(s.drop_last(), lo, span, b) + if hist_bin(s.last() as int, lo, span) == b {
            1nat
        } else {
            0nat
        }
    }
}

/// The 256-bin histogram of a window over its own range.
pub open spec fn spec_histogram(s: Seq<i64>) -> Seq<nat> {
    let lo = seq_min(s);
    let span = seq_max(s) - lo;
    Seq::new(HISTOGRAM_BINS as nat, |b: int| hist_count(s, lo, span, b))
}

pub open spec fn sum_of_squares(c: Seq<nat>) -> int
    decreases c.len(),
{
    if c.len() == 0 {
        0
    } else {
        sum_of_squares(c.drop_last()) + c.last() * c.last()
    }
}

/// Tsallis entropy with q = 2 over the histogram, in parts per million:
/// 1 − Σ p², rounded up to a whole part per million of Σ p².
pub open spec fn spec_tsallis(s: Seq<i64>) -> int {
    let n = s.len() as int;
    SCALE as int - sum_of_squares(spec_histogram(s)) * SCALE as int / (n * n)
}

pub(crate) proof fn lemma_min_max_bounds(s: Seq<i64>)
    requires
        s.len() > 0,
    ensures
        forall|i: int| 0 <= i < s.len() ==> seq_min(s) <= #[trigger] s[i] <= seq_max(s),
        exists|i: int| 0 <= i < s.len() && s[i] == seq_min(s),
        exists|i: int| 0 <= i < s.len() && s[i] == seq_max(s),
    decreases s.len(),
{
    if s.len() > 1 {
        let t = s.drop_last();
        lemma_min_max_bounds(t);
        assert forall|i: int| 0 <= i < s.len() implies seq_min(s) <= #[trigger] s[i] <= seq_max(s) by {
            if i < t.len() {
                assert(t[i] == s[i]);
            }
        }
        let a = choose|i: int| 0 <= i < t.len() && t[i] == seq_min(t);
        let b = choose|i: int| 0 <= i < t.len() && t[i] == seq_max(t);
        assert(s[a] == t[a]);
        assert(s[b] == t[b]);
        let last = s.len() - 1;
        if (s.last() as int) < seq_min(t) {
            assert(s[last] == seq_min(s));
        } else {
            assert(s[a] == seq_min(s));
        }
        if (s.last() as int) > seq_max(t) {
            assert(s[last] == seq_max(s));
        } else {
            assert(s[b] == seq_max(s));
        }
    } else {
        assert(s[0] == seq_min(s));
        assert(s[0] == seq_max(s));
    }
}

/// The histogram of a window.
pub fn histogram(data: &[i64]) -> (r: Vec<u64>)
    requires
        samples_ok(data@),
    ensures
        r@.len() == HISTOGRAM_BINS,
        forall|b: int| 0 <= b < HISTOGRAM_BINS ==> #[trigger] r@[b] == spec_histogram(data@)[b],
{
    let n = data.len();
    if n == 0 {
        let empty = vec![0u64; HISTOGRAM_BINS];
        proof {
            assert forall|b: int| 0 <= b < HISTOGRAM_BINS implies #[trigger] empty@[b] == spec_histogram(data@)[b] by {
                assert(hist_count(data@, seq_min(data@), seq_max(data@) - seq_min(data@), b) == 0);
            }
        }
        return empty;
    }
    let mut lo: i64 = data[0];
    let mut hi: i64 = data[0];
    let mut i: usize = 1;
    while i < n
        invariant
            n == data@.len(),
            1 <= i <= n,
            lo == seq_min(data@.subrange(0, i as int)),
            hi == seq_max(data@.subrange(0, i as int)),
        decreases n - i,
    {
        proof {
            assert(data@.subrange(0, i as int + 1).drop_last() =~= data@.subrange(0, i as int));
            if i == 1 {
                assert(data@.subrange(0, 1)[0] == data@[0]);
            }
        }
        if data[i] < lo {
            lo = data[i];
        }
        if data[i] > hi {
            hi = data[i];
        }
        i = i + 1;
    }
    proof {
        assert(data@.subrange(0, n as int) =~= data@);
        if n == 1 {
            assert(data@.subrange(0, 1)[0] == data@[0]);
        }
        lemma_min_max_bounds(data@);
        let a = choose|i: int| 0 <= i < data@.len() && data@[i] == seq_min(data@);
        let b = choose|i: int| 0 <= i < data@.len() && data@[i] == seq_max(data@);
        assert(-MAX_SAMPLE <= data@[a] <= MAX_SAMPLE);
        assert(-MAX_SAMPLE <= data@[b] <= MAX_SAMPLE);
    }
    let span: i64 = hi - lo;
    let ghost d = data@;
    let mut counts: Vec<u64> = vec![0u64; HISTOGRAM_BINS];
    let mut k: usize = 0;
    while k < n
        invariant
            window_ok(d),
            d == data@,
            n == d.len(),
            lo == seq_min(d),
            span == seq_max(d) - seq_min(d),
            forall|j: int| 0 <= j < d.len() ==> lo <= #[trigger] d[j] <= lo + span,
            0 <= span <= 0x200_0000_0000,
            k <= n,
            counts@.len() == HISTOGRAM_BINS,
            forall|b: int| 0 <= b < HISTOGRAM_BINS ==> #[trigger] counts@[b] == hist_count(d.subrange(0, k as int), lo as int, span as int, b),
            forall|b: int| 0 <= b < HISTOGRAM_BINS ==> #[trigger] counts@[b] <= k,
        decreases n - k,
    {
        let x = data[k];
        let bin: usize = if span == 0 {
            0
        } else {
            proof {
                assert(lo <= d[k as int] <= lo + span);
                assert(0 <= (x - lo) * 255 <= span * 255) by (nonlinear_arith)
                    requires
                        0 <= x - lo <= span,
                ;
                lemma_multiply_divide_le((x - lo) * 255, span as int, 255);
                lemma_div_pos_is_pos((x - lo) * 255, span as int);
            }
            ((x - lo) as u64 * 255 / span as u64) as usize
        };
        proof {
            let next = d.subrange(0, k as int + 1);
            assert(next.drop_last() =~= d.subrange(0, k as int));
            assert(next.last() == x);
            assert(bin as int == hist_bin(x as int, lo as int, span as int));
            assert(n <= MAX_WINDOW);
        }
        let c = counts[bin];
        counts.set(bin, c + 1);
        proof {
            assert forall|b: int| 0 <= b < HISTOGRAM_BINS implies #[trigger] counts@[b] == hist_count(d.subrange(0, k as int + 1), lo as int, span as int, b) by {
                assert(d.subrange(0, k as int + 1).drop_last() =~= d.subrange(0, k as int));
            }
        }
        k = k + 1;
    }
    assert(d.subrange(0, n as int) =~= d);
    counts
}

/// Tsallis entropy (q = 2) of a window, in parts per million; zero for an
/// empty window.
pub fn tsallis_entropy(data: &[i64]) -> (r: i64)
    requires
        samples_ok(data@),
    ensures
        data@.len() > 0 ==> r == spec_tsallis(data@),
        data@.len() == 0 ==> r == 0,
{
    if data.len() == 0 {
        return 0;
    }
    let counts = histogram(data);
    let n = data.len() as u128;
    let ghost h = spec_histogram(data@);
    let mut acc: u128 = 0;
    let mut b: usize = 0;
    while b < HISTOGRAM_BINS
        invariant
            window_ok(data@),
            n == data@.len(),
            h == spec_histogram(data@),
            counts@.len() == HISTOGRAM_BINS,
            forall|j: int| 0 <= j < HISTOGRAM_BINS ==> #[trigger] counts@[j] == h[j],
            b <= HISTOGRAM_BINS,
            acc == sum_of_squares(h.subrange(0, b as int)),
            acc <= b * n * n,
        decreases HISTOGRAM_BINS - b,
    {
        proof {
            assert(h.subrange(0, b as int + 1).drop_last() =~= h.subrange(0, b as int));
            lemma_count_le_len(data@, seq_min(data@), seq_max(data@) - seq_min(data@), b as int);
            let c = counts@[b as int] as int;
            assert(c * c <= n * n) by (nonlinear_arith)
                requires
                    0 <= c <= n,
            ;
            assert(b * n * n + n * n == (b + 1) * n * n) by (nonlinear_arith);
            assert((b + 1) * n * n <= 256 * 0x100_0000 * 0x100_0000) by (nonlinear_arith)
                requires
                    b + 1 <= 256,
                    n <= 0x100_0000,
            ;
        }
        let c = counts[b] as u128;
        acc = acc + c * c;
        b = b + 1;
    }
    assert(h.subrange(0, HISTOGRAM_BINS as int) =~= h);
    proof {
        assert(n * n >= 1) by (nonlinear_arith)
            requires
                n >= 1,
        ;
        assert(acc * SCALE <= 256 * n * n * SCALE) by (nonlinear_arith)
            requires
                acc <= 256 * n * n,
        ;
        assert(256 * n * n * SCALE == n * n * (256 * SCALE)) by (nonlinear_arith);
        lemma_multiply_divide_le(acc * SCALE, n * n, 256 * SCALE as int);
        assert(n * n <= 0x100_0000 * 0x100_0000) by (nonlinear_arith)
            requires
                n <= 0x100_0000,
        ;
        assert(acc * SCALE <= 256 * 0x100_0000 * 0x100_0000 * SCALE) by (nonlinear_arith)
            requires
                acc <= 256 * n * n,
                n <= 0x100_0000,
        ;
    }
    let q = acc * (SCALE as u128) / (n * n);
    SCALE as i64 - q as i64
}

proof fn lemma_count_le_len(s: Seq<i64>, lo: int, span: int, b: int)
    ensures
        hist_count(s, lo, span, b) <= s.len(),
    decreases s.len(),
{
    if s.len() > 0 {
        lemma_count_le_len(s.drop_last(), lo, span, b);
    }
}

proof fn lemma_constant_counts(s: Seq<i64>, lo: int, b: int)
    ensures
        hist_count(s, lo, 0, b) == if b == 0 { s.len() } else { 0 },
    decreases s.len(),
{
    if s.len() > 0 {
        lemma_constant_counts(s.drop_last(), lo, b);
    }
}

proof fn lemma_single_square(c: Seq<nat>, n: nat, k: int)
    requires
        1 <= k <= c.len(),
        c[0] == n,
        forall|j: int| 1 <= j < c.len() ==> c[j] == 0,
    ensures
        sum_of_squares(c.subrange(0, k)) == n * n,
    decreases k,
{
    let t = c.subrange(0, k);
    if k == 1 {
        assert(t.drop_last() =~= Seq::<nat>::empty());
        assert(t.last() == n);
        assert(sum_of_squares(t) == sum_of_squares(t.drop_last()) + t.last() * t.last());
    } else {
        assert(t.drop_last() =~= c.subrange(0, k - 1));
        lemma_single_square(c, n, k - 1);
        assert(t.last() == c[k - 1]);
        assert(c[k - 1] == 0);
        assert(sum_of_squares(t) == sum_of_squares(t.drop_last()) + t.last() * t.last());
    }
}

/// A window without spread has no Tsallis entropy: every sample falls in
/// one bin, so Σ p² is one and the entropy is zero.
pub proof fn lemma_constant_window_tsallis_zero(d: Seq<i64>)
    requires
        window_ok(d),
        forall|i: int| 0 <= i < d.len() ==> #[trigger] d[i] == d[0],
    ensures
        spec_tsallis(d) == 0,
        spec_histogram(d)[0] == d.len(),
        forall|b: int| 1 <= b < HISTOGRAM_BINS ==> spec_histogram(d)[b] == 0,
{
    lemma_min_max_bounds(d);
    let a = choose|i: int| 0 <= i < d.len() && d[i] == seq_min(d);
    let c = choose|i: int| 0 <= i < d.len() && d[i] == seq_max(d);
    assert(seq_max(d) - seq_min(d) == 0);
    let h = spec_histogram(d);
    assert forall|b: int| 0 <= b < HISTOGRAM_BINS implies #[trigger] h[b] == if b == 0 { d.len() } else { 0 } by {
        lemma_constant_counts(d, seq_min(d), b);
    }
    lemma_single_square(h, d.len(), HISTOGRAM_BINS as int);
    assert(h.subrange(0, HISTOGRAM_BINS as int) =~= h);
    let n = d.len() as int;
    assert(n * n > 0) by (nonlinear_arith)
        requires
            n >= 1,
    ;
    vstd::arithmetic::div_mod::lemma_div_by_multiple(SCALE as int, n * n);
    assert(n * n * SCALE == SCALE * (n * n)) by (nonlinear_arith);
}

} // verus!
