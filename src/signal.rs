//! Time-domain features of a waveform window.

use vstd::prelude::*;
use vstd::arithmetic::div_mod::{lemma_div_pos_is_pos, lemma_multiply_divide_le};

use crate::entropy::{seq_max, seq_min};
use crate::fixed::SCALE;
use crate::statistics::{
    isqrt, samples_ok, spec_isqrt, spec_mean, spec_std_dev, window_ok, StatisticalAnalyzer, MAX_SAMPLE,
    MAX_WINDOW,
};

verus! {

/// Time-domain features of a window, in its micro-units; the crest factor
/// is in parts per million.
#[derive(Debug, Clone, Copy, PartialEq, Eq, Structural)]
pub struct TimeDomainFeatures {
    pub mean: i64,
    pub std_dev: u64,
    pub rms: u64,
    pub peak_to_peak: i64,
    pub crest_factor: u64,
    pub zero_crossings: usize,
}

pub open spec fn sum_of_squared_samples(s: Seq<i64>) -> int
    decreases s.len(),
{
    if s.len() == 0 {
        0
    } else {
        sum_of_squared_samples(s.drop_last()) + s.last() * s.last()
    }
}

/// Number of consecutive pairs among the first `k` samples that lie on
/// opposite sides of `m`.
pub open spec fn crossings(s: Seq<i64>, m: int, k: int) -> int
    decreases k,
{
    if k <= 1 {
        0
    } else {
        crossings(s, m, k - 1) + if (s[k - 2] - m) * (s[k - 1] - m) < 0 { 1int } else { 0int }
    }
}

/// Root mean square, rounded down to a whole micro-unit.
pub open spec fn spec_rms(s: Seq<i64>) -> int {
    spec_isqrt(sum_of_squared_samples(s) / s.len() as int)
}

pub open spec fn spec_time_domain(s: Seq<i64>) -> TimeDomainFeatures {
    let lo = seq_min(s);
    let hi = seq_max(s);
    let peak = if -lo > hi { -lo } else { hi };
    let rms = spec_rms(s);
    TimeDomainFeatures {
        mean: spec_mean(s) as i64,
        std_dev: spec_std_dev(s) as u64,
        rms: rms as u64,
        peak_to_peak: (hi - lo) as i64,
        crest_factor: (if rms > 0 { peak * SCALE as int / rms } else { 0 }) as u64,
        zero_crossings: crossings(s, spec_mean(s), s.len() as int) as usize,
    }
}

/// Mean, standard deviation, RMS, peak-to-peak, crest factor (largest
/// magnitude over RMS) and zero crossings about the mean.
pub fn time_domain_features(data: &[i64]) -> (r: TimeDomainFeatures)
    requires
        samples_ok(data@),
    ensures
        data@.len() > 0 ==> r == spec_time_domain(data@),
        data@.len() == 0 ==> r == (TimeDomainFeatures {
            mean: 0,
            std_dev: 0,
            rms: 0,
            peak_to_peak: 0,
            crest_factor: 0,
            zero_crossings: 0,
        }),
{
    if data.len() == 0 {
        return TimeDomainFeatures { mean: 0, std_dev: 0, rms: 0, peak_to_peak: 0, crest_factor: 0, zero_crossings: 0 };
    }
    let stats = StatisticalAnalyzer::new();
    let mean = stats.mean(data);
    let std_dev = stats.std_dev(data);
    let n = data.len();
    let mut sq: u128 = 0;
    let mut lo: i64 = data[0];
    let mut hi: i64 = data[0];
    let mut zc: usize = 0;
    let mut i: usize = 0;
    while i < n
        invariant
            window_ok(data@),
            n == data@.len(),
            -MAX_SAMPLE <= mean <= MAX_SAMPLE,
            i <= n,
            sq == sum_of_squared_samples(data@.subrange(0, i as int)),
            sq <= i * 0x1_0000_0000_0000_0000_0000,
            i >= 1 ==> lo == seq_min(data@.subrange(0, i as int)),
            i >= 1 ==> hi == seq_max(data@.subrange(0, i as int)),
            i == 0 ==> lo == data@[0] && hi == data@[0],
            zc == crossings(data@, mean as int, i as int),
            zc <= i,
        decreases n - i,
    {
        let x = data[i];
        proof {
            let t = data@.subrange(0, i as int + 1);
            assert(t.drop_last() =~= data@.subrange(0, i as int));
            assert(-MAX_SAMPLE <= data@[i as int] <= MAX_SAMPLE);
            assert(0 <= x * x <= 0x1_0000_0000_0000_0000_0000) by (nonlinear_arith)
                requires
                    -0x100_0000_0000 <= x <= 0x100_0000_0000,
            ;
            assert(i * 0x1_0000_0000_0000_0000_0000 + 0x1_0000_0000_0000_0000_0000 <= MAX_WINDOW * 0x1_0000_0000_0000_0000_0000) by (nonlinear_arith)
                requires
                    i < MAX_WINDOW,
            ;
            if i == 0 {
                assert(t[0] == data@[0]);
            }
        }
        sq = sq + (x as i128 * x as i128) as u128;
        if i > 0 {
            if x < lo {
                lo = x;
            }
            if x > hi {
                hi = x;
            }
            let a = data[i - 1] as i128 - mean as i128;
            let b = x as i128 - mean as i128;
            proof {
                assert(-MAX_SAMPLE <= data@[i - 1] <= MAX_SAMPLE);
                assert(-0x4_0000_0000_0000_0000_0000 <= a * b <= 0x4_0000_0000_0000_0000_0000) by (nonlinear_arith)
                    requires
                        -0x200_0000_0000 <= a <= 0x200_0000_0000,
                        -0x200_0000_0000 <= b <= 0x200_0000_0000,
                ;
            }
            if a * b < 0 {
                zc = zc + 1;
            }
        }
        i = i + 1;
    }
    proof {
        assert(data@.subrange(0, n as int) =~= data@);
        lemma_multiply_divide_le(sq as int, n as int, 0x1_0000_0000_0000_0000_0000);
        assert(n * 0x1_0000_0000_0000_0000_0000 == 0x1_0000_0000_0000_0000_0000 * n) by (nonlinear_arith);
    }
    let rms = isqrt(sq / n as u128);
    proof {
        assert(-MAX_SAMPLE <= data@[0] <= MAX_SAMPLE);
        crate::entropy::lemma_min_max_bounds(data@);
        let a = choose|k: int| 0 <= k < data@.len() && data@[k] == seq_min(data@);
        let b = choose|k: int| 0 <= k < data@.len() && data@[k] == seq_max(data@);
        assert(-MAX_SAMPLE <= data@[a] <= MAX_SAMPLE);
        assert(-MAX_SAMPLE <= data@[b] <= MAX_SAMPLE);
        if rms > 0x100_0000_0000 {
            assert(rms * rms > 0x1_0000_0000_0000_0000_0000) by (nonlinear_arith)
                requires
                    rms > 0x100_0000_0000u64,
            ;
        }
    }
    let peak: i64 = if -lo > hi { -lo } else { hi };
    let crest: u64 = if rms > 0 {
        proof {
            assert(0 <= peak * SCALE <= 0x100_0000_0000 * SCALE) by (nonlinear_arith)
                requires
                    0 <= peak <= 0x100_0000_0000,
            ;
            lemma_div_pos_is_pos(peak * SCALE as int, rms as int);
            vstd::arithmetic::div_mod::lemma_div_is_ordered_by_denominator(peak * SCALE as int, 1, rms as int);
        }
        (peak as u128 * SCALE as u128 / rms as u128) as u64
    } else {
        0
    };
    TimeDomainFeatures {
        mean,
        std_dev,
        rms,
        peak_to_peak: hi - lo,
        crest_factor: crest,
        zero_crossings: zc,
    }
}

} // verus!
