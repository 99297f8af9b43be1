//! Cross-sensor correlation over short rolling buffers kept per sensor.

use vstd::prelude::*;
use vstd::arithmetic::div_mod::lemma_multiply_divide_le;

use crate::detection::SensorContribution;
use crate::fixed::SCALE;
use crate::statistics::{
    floor_div, spec_mean, spec_pop_std_dev, window_ok, StatisticalAnalyzer, MAX_SAMPLE, MAX_WINDOW,
};
use crate::sensors::{correlation_weight, spec_correlation_weight, SensorType};

verus! {

/// A reading's anomaly score must exceed this (parts per million) to count
/// toward a correlation.
pub const QUICK_SCORE_FLOOR: u64 = 300_000;

/// Distinct sensors needed before a correlation is reported.
pub const MIN_CORRELATED_SENSORS: u64 = 2;

/// One buffered reading: when it was taken (milliseconds), the mean of its
/// window (micro-units), the sensor's type and its quick anomaly score
/// (parts per million).
#[derive(Debug, Clone, Copy, PartialEq, Eq, Structural)]
pub struct BufferedReading {
    pub timestamp_ms: i64,
    pub value: i64,
    pub sensor_type: SensorType,
    pub anomaly_score: u64,
}

/// The time-ordered readings kept for one sensor identity.
#[derive(Debug, Clone)]
pub struct SensorBuffer {
    pub sensor_id: String,
    pub entries: Vec<BufferedReading>,
}

/// A burst of anomalous readings from several sensors.
#[derive(Debug, Clone)]
pub struct CorrelationEvent {
    pub timestamp_ms: i64,
    pub sensors: Vec<SensorContribution>,
    /// Parts per million.
    pub confidence: u64,
    pub lag_ms: i64,
}

/// A buffered entry's score lies in `[0, 1]` and its value within the
/// accepted sample magnitude.
pub open spec fn entry_ok(e: BufferedReading) -> bool {
    e.anomaly_score <= SCALE && -MAX_SAMPLE <= e.value <= MAX_SAMPLE
}

/// The entries no older than `cutoff`, in their order.
pub open spec fn keep_recent(es: Seq<BufferedReading>, cutoff: int) -> Seq<BufferedReading>
    decreases es.len(),
{
    if es.len() == 0 {
        es
    } else if es.last().timestamp_ms >= cutoff {
        keep_recent(es.drop_last(), cutoff).push(es.last())
    } else {
        keep_recent(es.drop_last(), cutoff)
    }
}

/// An entry counts toward a correlation when it lies in the window and its
/// score exceeds the floor.
pub open spec fn qualifies(e: BufferedReading, window_start: int) -> bool {
    e.timestamp_ms >= window_start && e.anomaly_score > QUICK_SCORE_FLOOR
}

/// The qualifying entries of one buffer, in order, tagged with its sensor.
pub open spec fn buffer_hits(id: String, es: Seq<BufferedReading>, window_start: int) -> Seq<(String, BufferedReading)>
    decreases es.len(),
{
    if es.len() == 0 {
        Seq::empty()
    } else if qualifies(es.last(), window_start) {
        buffer_hits(id, es.drop_last(), window_start).push((id, es.last()))
    } else {
        buffer_hits(id, es.drop_last(), window_start)
    }
}

/// The qualifying entries of all buffers, buffer by buffer.
pub open spec fn all_hits(bufs: Seq<SensorBuffer>, window_start: int) -> Seq<(String, BufferedReading)>
    decreases bufs.len(),
{
    if bufs.len() == 0 {
        Seq::empty()
    } else {
        all_hits(bufs.drop_last(), window_start) + buffer_hits(bufs.last().sensor_id, bufs.last().entries@, window_start)
    }
}

/// How many buffers hold at least one qualifying entry; since buffers have
/// distinct identities this is the number of distinct sensors involved.
pub open spec fn active_sensors(bufs: Seq<SensorBuffer>, window_start: int) -> int
    decreases bufs.len(),
{
    if bufs.len() == 0 {
        0
    } else {
        active_sensors(bufs.drop_last(), window_start) + if buffer_hits(
            bufs.last().sensor_id,
            bufs.last().entries@,
            window_start,
        ).len() > 0 {
            1int
        } else {
            0int
        }
    }
}

pub open spec fn score_total(hs: Seq<(String, BufferedReading)>) -> int
    decreases hs.len(),
{
    if hs.len() == 0 {
        0
    } else {
        score_total(hs.drop_last()) + hs.last().1.anomaly_score as int
    }
}

pub open spec fn earliest(hs: Seq<(String, BufferedReading)>) -> int
    decreases hs.len(),
{
    if hs.len() <= 1 {
        if hs.len() == 0 { 0 } else { hs[0].1.timestamp_ms as int }
    } else {
        let m = earliest(hs.drop_last());
        let t = hs.last().1.timestamp_ms as int;
        if t < m { t } else { m }
    }
}

pub open spec fn latest(hs: Seq<(String, BufferedReading)>) -> int
    decreases hs.len(),
{
    if hs.len() <= 1 {
        if hs.len() == 0 { 0 } else { hs[0].1.timestamp_ms as int }
    } else {
        let m = latest(hs.drop_last());
        let t = hs.last().1.timestamp_ms as int;
        if t > m { t } else { m }
    }
}

/// The contribution a qualifying entry yields.
pub open spec fn hit_contribution(h: (String, BufferedReading)) -> SensorContribution {
    SensorContribution {
        sensor_id: h.0,
        sensor_type: h.1.sensor_type,
        weight: spec_correlation_weight(h.1.sensor_type),
        reading_value: h.1.value,
        anomaly_score: h.1.anomaly_score,
    }
}

/// 0.6 × mean score of the hits + 0.4 × (distinct sensors / 5, capped at 1).
pub open spec fn spec_correlation_confidence(hs: Seq<(String, BufferedReading)>, active: int) -> int {
    let avg = if hs.len() > 0 { score_total(hs) / hs.len() as int } else { 0 };
    let diversity = if active * SCALE as int / 5 < SCALE as int {
        active * SCALE as int / 5
    } else {
        SCALE as int
    };
    (6 * avg + 4 * diversity) / 10
}

proof fn lemma_hits_bounded(hs: Seq<(String, BufferedReading)>)
    requires
        forall|i: int| 0 <= i < hs.len() ==> hs[i].1.anomaly_score <= SCALE,
    ensures
        0 <= score_total(hs) <= hs.len() * SCALE,
    decreases hs.len(),
{
    if hs.len() > 0 {
        lemma_hits_bounded(hs.drop_last());
    }
}

proof fn lemma_active_le_hits(bufs: Seq<SensorBuffer>, start: int)
    ensures
        0 <= active_sensors(bufs, start) <= all_hits(bufs, start).len(),
        active_sensors(bufs, start) <= bufs.len(),
    decreases bufs.len(),
{
    if bufs.len() > 0 {
        lemma_active_le_hits(bufs.drop_last(), start);
    }
}

proof fn lemma_keep_recent_props(es: Seq<BufferedReading>, cutoff: int)
    requires
        forall|m: int| 0 <= m < es.len() ==> entry_ok(#[trigger] es[m]),
    ensures
        forall|k: int| 0 <= k < keep_recent(es, cutoff).len() ==> {
            &&& #[trigger] keep_recent(es, cutoff)[k].timestamp_ms >= cutoff
            &&& entry_ok(keep_recent(es, cutoff)[k])
        },
    decreases es.len(),
{
    if es.len() > 0 {
        lemma_keep_recent_props(es.drop_last(), cutoff);
    }
}

proof fn lemma_buffer_hits_from(id: String, es: Seq<BufferedReading>, start: int, i: int)
    requires
        0 <= i < buffer_hits(id, es, start).len(),
    ensures
        exists|m: int| 0 <= m < es.len() && buffer_hits(id, es, start)[i].1 == es[m],
    decreases es.len(),
{
    let init = buffer_hits(id, es.drop_last(), start);
    if i < init.len() {
        lemma_buffer_hits_from(id, es.drop_last(), start, i);
        let m = choose|m: int| 0 <= m < es.drop_last().len() && init[i].1 == es.drop_last()[m];
        assert(es[m] == es.drop_last()[m]);
    } else {
        assert(buffer_hits(id, es, start)[i].1 == es[es.len() - 1]);
    }
}

proof fn lemma_all_hits_from(bufs: Seq<SensorBuffer>, start: int, i: int)
    requires
        0 <= i < all_hits(bufs, start).len(),
    ensures
        exists|b: int, m: int| 0 <= b < bufs.len() && 0 <= m < bufs[b].entries@.len()
            && all_hits(bufs, start)[i].1 == bufs[b].entries@[m],
    decreases bufs.len(),
{
    let init = all_hits(bufs.drop_last(), start);
    let last = buffer_hits(bufs.last().sensor_id, bufs.last().entries@, start);
    assert(all_hits(bufs, start) == init + last);
    if i < init.len() {
        lemma_all_hits_from(bufs.drop_last(), start, i);
        let (b, m) = choose|b: int, m: int| 0 <= b < bufs.drop_last().len() && 0 <= m < bufs.drop_last()[b].entries@.len()
            && init[i].1 == bufs.drop_last()[b].entries@[m];
        assert(bufs[b] == bufs.drop_last()[b]);
    } else {
        lemma_buffer_hits_from(bufs.last().sensor_id, bufs.last().entries@, start, i - init.len());
        let m = choose|m: int| 0 <= m < bufs.last().entries@.len() && last[i - init.len()].1 == bufs.last().entries@[m];
        assert(all_hits(bufs, start)[i] == last[i - init.len()]);
        assert(bufs.last() == bufs[bufs.len() - 1]);
    }
}

/// The entries of `es`, followed by `extra` when given, that are no older
/// than `cutoff`.
fn prune(es: &[BufferedReading], extra: Option<BufferedReading>, cutoff: i128) -> (r: Vec<BufferedReading>)
    ensures
        r@ == keep_recent(
            match extra {
                Some(e) => es@.push(e),
                None => es@,
            },
            cutoff as int,
        ),
{
    let mut out: Vec<BufferedReading> = Vec::new();
    let mut i: usize = 0;
    while i < es.len()
        invariant
            i <= es@.len(),
            out@ == keep_recent(es@.subrange(0, i as int), cutoff as int),
        decreases es@.len() - i,
    {
        proof {
            assert(es@.subrange(0, i as int + 1).drop_last() =~= es@.subrange(0, i as int));
        }
        if es[i].timestamp_ms as i128 >= cutoff {
            out.push(es[i]);
        }
        i = i + 1;
    }
    assert(es@.subrange(0, es@.len() as int) =~= es@);
    match extra {
        Some(e) => {
            assert(es@.push(e).drop_last() =~= es@);
            if e.timestamp_ms as i128 >= cutoff {
                out.push(e);
            }
        },
        None => {},
    }
    out
}

/// Buffers shorter than this are not cross-correlated.
pub const MIN_XCORR_LEN: usize = 10;

/// Assumed spacing of buffered readings, in milliseconds, when lags are
/// converted to and from time.
pub const LAG_STEP_MS: u64 = 100;

/// The values of a buffer, in order.
pub open spec fn entry_values(es: Seq<BufferedReading>) -> Seq<i64> {
    es.map_values(|e: BufferedReading| e.value)
}

/// The values buffered for `id`, if it has a buffer.
pub open spec fn values_of(bufs: Seq<SensorBuffer>, id: Seq<char>) -> Option<Seq<i64>> {
    if exists|j: int| 0 <= j < bufs.len() && bufs[j].sensor_id@ == id {
        Some(entry_values(bufs[choose|j: int| 0 <= j < bufs.len() && bufs[j].sensor_id@ == id].entries@))
    } else {
        None
    }
}

/// Σ_{i < k} (v1[o1 + i] − m1)(v2[o2 + i] − m2).
pub open spec fn shifted_products(v1: Seq<i64>, v2: Seq<i64>, m1: int, m2: int, o1: int, o2: int, k: int) -> int
    decreases k,
{
    if k <= 0 {
        0
    } else {
        shifted_products(v1, v2, m1, m2, o1, o2, k - 1) + (v1[o1 + k - 1] - m1) * (v2[o2 + k - 1] - m2)
    }
}

pub open spec fn clamp_unit(x: int) -> int {
    if x > SCALE as int {
        SCALE as int
    } else if x < -(SCALE as int) {
        -(SCALE as int)
    } else {
        x
    }
}

pub open spec fn abs_int(x: int) -> int {
    if x < 0 { -x } else { x }
}

/// Pearson correlation (parts per million) of `cnt` aligned samples of the
/// two series starting at `o1` and `o2`, using each series' own rounded
/// mean and population standard deviation. The integer standard deviations
/// can push the quotient slightly past ±1; it is clamped.
pub open spec fn pearson_ppm(v1: Seq<i64>, v2: Seq<i64>, o1: int, o2: int, cnt: int) -> int {
    let num = shifted_products(v1, v2, spec_mean(v1), spec_mean(v2), o1, o2, cnt) * SCALE as int;
    clamp_unit(num / (cnt * spec_pop_std_dev(v1) * spec_pop_std_dev(v2)))
}

/// The strongest correlation over lags `0 .. lags`, each lag tried with the
/// second series leading (positive lag) and then the first (negative); a
/// later candidate replaces the best only when strictly stronger.
pub open spec fn best_lag_scan(v1: Seq<i64>, v2: Seq<i64>, n: int, lags: int) -> (int, int)
    decreases lags,
{
    if lags <= 0 {
        (0, 0)
    } else {
        let (bc, bl) = best_lag_scan(v1, v2, n, lags - 1);
        let l = lags - 1;
        let p = pearson_ppm(v1, v2, l, 0, n - l);
        let (c1, l1) = if abs_int(p) > abs_int(bc) { (p, LAG_STEP_MS * l) } else { (bc, bl) };
        let q = pearson_ppm(v1, v2, 0, l, n - l);
        if abs_int(q) > abs_int(c1) { (q, -(LAG_STEP_MS * l)) } else { (c1, l1) }
    }
}

/// Lagged cross-correlation of two series: nothing when either is shorter
/// than `MIN_XCORR_LEN`, longer than `MAX_WINDOW` or without spread;
/// otherwise the strongest correlation and its lag in milliseconds.
pub open spec fn spec_cross_correlate(v1: Seq<i64>, v2: Seq<i64>, max_lag_ms: int) -> Option<(int, int)> {
    if v1.len() < MIN_XCORR_LEN || v2.len() < MIN_XCORR_LEN || v1.len() > MAX_WINDOW
        || v2.len() > MAX_WINDOW || spec_pop_std_dev(v1) == 0 || spec_pop_std_dev(v2) == 0 {
        None
    } else {
        let n = if v1.len() < v2.len() { v1.len() as int } else { v2.len() as int };
        let by_time = max_lag_ms / (LAG_STEP_MS as int);
        let lags = if by_time < n / 2 { by_time } else { n / 2 };
        Some(best_lag_scan(v1, v2, n, lags))
    }
}

proof fn lemma_shifted_bounded(v1: Seq<i64>, v2: Seq<i64>, m1: int, m2: int, o1: int, o2: int, k: int)
    requires
        window_ok(v1),
        window_ok(v2),
        -MAX_SAMPLE <= m1 <= MAX_SAMPLE,
        -MAX_SAMPLE <= m2 <= MAX_SAMPLE,
        0 <= o1,
        0 <= o2,
        0 <= k,
        o1 + k <= v1.len(),
        o2 + k <= v2.len(),
    ensures
        -k * 0x4_0000_0000_0000_0000_0000 <= shifted_products(v1, v2, m1, m2, o1, o2, k) <= k * 0x4_0000_0000_0000_0000_0000,
    decreases k,
{
    if k > 0 {
        lemma_shifted_bounded(v1, v2, m1, m2, o1, o2, k - 1);
        let a = v1[o1 + k - 1] - m1;
        let b = v2[o2 + k - 1] - m2;
        assert(-MAX_SAMPLE <= v1[o1 + k - 1] <= MAX_SAMPLE);
        assert(-MAX_SAMPLE <= v2[o2 + k - 1] <= MAX_SAMPLE);
        assert(-0x4_0000_0000_0000_0000_0000 <= a * b <= 0x4_0000_0000_0000_0000_0000) by (nonlinear_arith)
            requires
                -0x200_0000_0000 <= a <= 0x200_0000_0000,
                -0x200_0000_0000 <= b <= 0x200_0000_0000,
        ;
    }
}

fn pearson_at(
    v1: &Vec<i64>,
    v2: &Vec<i64>,
    m1: i64,
    m2: i64,
    sd1: u64,
    sd2: u64,
    o1: usize,
    o2: usize,
    cnt: usize,
) -> (r: i64)
    requires
        window_ok(v1@),
        window_ok(v2@),
        m1 == spec_mean(v1@),
        m2 == spec_mean(v2@),
        -MAX_SAMPLE <= m1 <= MAX_SAMPLE,
        -MAX_SAMPLE <= m2 <= MAX_SAMPLE,
        sd1 == spec_pop_std_dev(v1@),
        sd2 == spec_pop_std_dev(v2@),
        1 <= sd1 <= 0x200_0000_0000,
        1 <= sd2 <= 0x200_0000_0000,
        1 <= cnt,
        o1 + cnt <= v1@.len(),
        o2 + cnt <= v2@.len(),
    ensures
        r == pearson_ppm(v1@, v2@, o1 as int, o2 as int, cnt as int),
{
    let mut acc: i128 = 0;
    let mut k: usize = 0;
    while k < cnt
        invariant
            window_ok(v1@),
            window_ok(v2@),
            -MAX_SAMPLE <= m1 <= MAX_SAMPLE,
            -MAX_SAMPLE <= m2 <= MAX_SAMPLE,
            k <= cnt,
            o1 + cnt <= v1@.len(),
            o2 + cnt <= v2@.len(),
            acc == shifted_products(v1@, v2@, m1 as int, m2 as int, o1 as int, o2 as int, k as int),
        decreases cnt - k,
    {
        proof {
            lemma_shifted_bounded(v1@, v2@, m1 as int, m2 as int, o1 as int, o2 as int, k as int + 1);
            assert((k + 1) * 0x4_0000_0000_0000_0000_0000 <= MAX_WINDOW * 0x4_0000_0000_0000_0000_0000) by (nonlinear_arith)
                requires
                    k + 1 <= MAX_WINDOW,
            ;
            assert(-MAX_SAMPLE <= v1@[o1 + k] <= MAX_SAMPLE);
            assert(-MAX_SAMPLE <= v2@[o2 + k] <= MAX_SAMPLE);
        }
        let a = v1[o1 + k] as i128 - m1 as i128;
        let b = v2[o2 + k] as i128 - m2 as i128;
        proof {
            assert(-0x4_0000_0000_0000_0000_0000 <= a * b <= 0x4_0000_0000_0000_0000_0000) by (nonlinear_arith)
                requires
                    -0x200_0000_0000 <= a <= 0x200_0000_0000,
                    -0x200_0000_0000 <= b <= 0x200_0000_0000,
            ;
        }
        acc = acc + a * b;
        k = k + 1;
    }
    proof {
        lemma_shifted_bounded(v1@, v2@, m1 as int, m2 as int, o1 as int, o2 as int, cnt as int);
        assert(cnt * 0x4_0000_0000_0000_0000_0000 <= MAX_WINDOW * 0x4_0000_0000_0000_0000_0000) by (nonlinear_arith)
            requires
                cnt <= MAX_WINDOW,
        ;
        assert(-0x400_0000_0000_0000_0000_0000_0000 <= acc <= 0x400_0000_0000_0000_0000_0000_0000);
        assert(-0x4000_0000_0000_0000_0000_0000_0000_0000 <= acc * SCALE <= 0x4000_0000_0000_0000_0000_0000_0000_0000) by (nonlinear_arith)
            requires
                -0x400_0000_0000_0000_0000_0000_0000 <= acc <= 0x400_0000_0000_0000_0000_0000_0000,
        ;
        assert(cnt * sd1 <= 0x100_0000 * 0x200_0000_0000) by (nonlinear_arith)
            requires
                1 <= cnt <= 0x100_0000,
                1 <= sd1 <= 0x200_0000_0000,
        ;
        assert(1 <= cnt * sd1 * sd2 <= 0x100_0000 * 0x200_0000_0000 * 0x200_0000_0000) by (nonlinear_arith)
            requires
                1 <= cnt <= 0x100_0000,
                1 <= sd1 <= 0x200_0000_0000,
                1 <= sd2 <= 0x200_0000_0000,
        ;
    }
    let den: u128 = (cnt as u128) * (sd1 as u128) * (sd2 as u128);
    let q = floor_div(acc * (SCALE as i128), den);
    if q > SCALE as i128 {
        SCALE as i64
    } else if q < -(SCALE as i128) {
        -(SCALE as i64)
    } else {
        q as i64
    }
}

fn abs_of(x: i64) -> (r: i64)
    requires
        x > i64::MIN,
    ensures
        r == abs_int(x as int),
{
    if x < 0 { -x } else { x }
}

/// Largest lag, in milliseconds, tried for the correlation matrix.
pub const MATRIX_MAX_LAG_MS: u64 = 2000;

/// The correlation of the buffers at `i` and `j`, as `cross_correlate`
/// computes it for the matrix.
pub open spec fn pair_correlation(bufs: Seq<SensorBuffer>, i: int, j: int) -> Option<(int, int)> {
    spec_cross_correlate(
        entry_values(bufs[i].entries@),
        entry_values(bufs[j].entries@),
        MATRIX_MAX_LAG_MS as int,
    )
}

/// Matrix entries for buffer `i` against buffers `i + 1 .. j`.
pub open spec fn row_entries(bufs: Seq<SensorBuffer>, i: int, j: int) -> Seq<(String, String, i64)>
    decreases j - i,
{
    if j <= i + 1 {
        Seq::empty()
    } else {
        let prev = row_entries(bufs, i, j - 1);
        match pair_correlation(bufs, i, j - 1) {
            Some((c, _)) => prev.push((bufs[i].sensor_id, bufs[j - 1].sensor_id, c as i64)),
            None => prev,
        }
    }
}

/// Matrix entries of the rows `0 .. i`.
pub open spec fn matrix_upto(bufs: Seq<SensorBuffer>, i: int) -> Seq<(String, String, i64)>
    decreases i,
{
    if i <= 0 {
        Seq::empty()
    } else {
        matrix_upto(bufs, i - 1) + row_entries(bufs, i - 1, bufs.len() as int)
    }
}

/// Maintains one rolling buffer per sensor identity and reports bursts of
/// anomalous readings across sensors.
pub struct SensorCorrelator {
    buffers: Vec<SensorBuffer>,
    buffer_duration_ms: i64,
    min_correlation: u64,
    correlation_window_ms: i64,
}

impl SensorCorrelator {
    pub closed spec fn spec_buffers(&self) -> Seq<SensorBuffer> {
        self.buffers@
    }

    pub closed spec fn spec_buffer_duration(&self) -> int {
        self.buffer_duration_ms as int
    }

    pub closed spec fn spec_window(&self) -> int {
        self.correlation_window_ms as int
    }

    pub closed spec fn spec_min_correlation(&self) -> int {
        self.min_correlation as int
    }

    /// Buffers carry distinct identities and the durations are not negative.
    pub open spec fn wf(&self) -> bool {
        &&& forall|i: int, j: int|
            0 <= i < j < self.spec_buffers().len() ==> self.spec_buffers()[i].sensor_id@
                != self.spec_buffers()[j].sensor_id@
        &&& forall|i: int, k: int|
            0 <= i < self.spec_buffers().len() && 0 <= k < self.spec_buffers()[i].entries@.len()
                ==> entry_ok(#[trigger] self.spec_buffers()[i].entries@[k])
        &&& self.spec_buffer_duration() >= 0
        &&& self.spec_window() >= 0
    }

    /// Every buffered entry is at least as recent as `cutoff`.
    pub open spec fn all_recent(&self, cutoff: int) -> bool {
        forall|i: int, k: int|
            0 <= i < self.spec_buffers().len() && 0 <= k < self.spec_buffers()[i].entries@.len()
                ==> #[trigger] self.spec_buffers()[i].entries@[k].timestamp_ms >= cutoff
    }

    /// Default settings: a 10 s buffer, a 2 s correlation window and a 0.5
    /// confidence threshold.
    pub fn new() -> (r: SensorCorrelator)
        ensures
            r.wf(),
            r.spec_buffers().len() == 0,
            r.spec_buffer_duration() == 10_000,
            r.spec_window() == 2_000,
            r.spec_min_correlation() == 500_000,
    {
        SensorCorrelator {
            buffers: Vec::new(),
            buffer_duration_ms: 10_000,
            min_correlation: 500_000,
            correlation_window_ms: 2_000,
        }
    }

    /// Custom settings.
    pub fn with_settings(buffer_duration_ms: u32, correlation_window_ms: u32, min_correlation: u64) -> (r: SensorCorrelator)
        ensures
            r.wf(),
            r.spec_buffers().len() == 0,
            r.spec_buffer_duration() == buffer_duration_ms,
            r.spec_window() == correlation_window_ms,
            r.spec_min_correlation() == min_correlation,
    {
        SensorCorrelator {
            buffers: Vec::new(),
            buffer_duration_ms: buffer_duration_ms as i64,
            min_correlation,
            correlation_window_ms: correlation_window_ms as i64,
        }
    }

    /// Number of sensor identities with a buffer.
    pub fn sensor_count(&self) -> (r: usize)
        ensures
            r == self.spec_buffers().len(),
    {
        self.buffers.len()
    }

    /// Records a reading of `sensor_id` taken at `timestamp_ms`, then evicts
    /// from every buffer the entries older than `now_ms` minus the buffer
    /// duration.
    pub fn add_reading(
        &mut self,
        sensor_id: String,
        sensor_type: SensorType,
        timestamp_ms: i64,
        value: i64,
        anomaly_score: u64,
        now_ms: i64,
    )
        requires
            old(self).wf(),
            anomaly_score <= SCALE,
            -MAX_SAMPLE <= value <= MAX_SAMPLE,
        ensures
            final(self).wf(),
            final(self).all_recent(now_ms - old(self).spec_buffer_duration()),
            final(self).spec_buffer_duration() == old(self).spec_buffer_duration(),
            final(self).spec_window() == old(self).spec_window(),
            final(self).spec_min_correlation() == old(self).spec_min_correlation(),
            ({
                let before = old(self).spec_buffers();
                let after = final(self).spec_buffers();
                let entry = BufferedReading { timestamp_ms, value, sensor_type, anomaly_score };
                let cutoff = now_ms - old(self).spec_buffer_duration();
                let known = exists|j: int| 0 <= j < before.len() && before[j].sensor_id@ == sensor_id@;
                &&& after.len() == if known { before.len() } else { before.len() + 1 }
                &&& forall|j: int| 0 <= j < before.len() ==> {
                    &&& (#[trigger] after[j]).sensor_id == before[j].sensor_id
                    &&& after[j].entries@ == keep_recent(
                        if before[j].sensor_id@ == sensor_id@ {
                            before[j].entries@.push(entry)
                        } else {
                            before[j].entries@
                        },
                        cutoff,
                    )
                }
                &&& !known ==> after.last().sensor_id == sensor_id && after.last().entries@
                    == keep_recent(seq![entry], cutoff)
            }),
    {
        let entry = BufferedReading { timestamp_ms, value, sensor_type, anomaly_score };
        let cutoff: i128 = now_ms as i128 - self.buffer_duration_ms as i128;
        let ghost before = self.buffers@;
        let mut rebuilt: Vec<SensorBuffer> = Vec::new();
        let mut known = false;
        let mut j: usize = 0;
        while j < self.buffers.len()
            invariant
                self.wf(),
                self.buffers@ == before,
                anomaly_score <= SCALE,
                -MAX_SAMPLE <= value <= MAX_SAMPLE,
                j <= before.len(),
                rebuilt@.len() == j,
                known == exists|i: int| 0 <= i < j && before[i].sensor_id@ == sensor_id@,
                forall|i: int| 0 <= i < j ==> {
                    &&& (#[trigger] rebuilt@[i]).sensor_id == before[i].sensor_id
                    &&& rebuilt@[i].entries@ == keep_recent(
                        if before[i].sensor_id@ == sensor_id@ {
                            before[i].entries@.push(entry)
                        } else {
                            before[i].entries@
                        },
                        cutoff as int,
                    )
                },
            decreases before.len() - j,
        {
            let b = &self.buffers[j];
            let same = b.sensor_id == sensor_id;
            let extra = if same { Some(entry) } else { None };
            let entries = prune(b.entries.as_slice(), extra, cutoff);
            rebuilt.push(SensorBuffer { sensor_id: b.sensor_id.clone(), entries });
            if same {
                known = true;
            }
            j = j + 1;
        }
        if !known {
            let empty: Vec<BufferedReading> = Vec::new();
            let entries = prune(empty.as_slice(), Some(entry), cutoff);
            assert(empty@.push(entry) =~= seq![entry]);
            rebuilt.push(SensorBuffer { sensor_id, entries });
        }
        proof {
            let after = rebuilt@;
            assert(entry_ok(entry));
            assert forall|i: int, k: int|
                0 <= i < after.len() && 0 <= k < after[i].entries@.len() implies {
                    &&& #[trigger] after[i].entries@[k].timestamp_ms >= cutoff
                    &&& entry_ok(after[i].entries@[k])
                } by {
                let src = if i < before.len() {
                    if before[i].sensor_id@ == sensor_id@ {
                        before[i].entries@.push(entry)
                    } else {
                        before[i].entries@
                    }
                } else {
                    seq![entry]
                };
                assert(after[i].entries@ == keep_recent(src, cutoff as int));
                assert forall|m: int| 0 <= m < src.len() implies entry_ok(#[trigger] src[m]) by {
                    if i < before.len() && m < before[i].entries@.len() {
                        assert(src[m] == before[i].entries@[m]);
                        assert(entry_ok(self.spec_buffers()[i].entries@[m]));
                    }
                }
                lemma_keep_recent_props(src, cutoff as int);
                assert(after[i].entries@[k] == keep_recent(src, cutoff as int)[k]);
                assert(keep_recent(src, cutoff as int)[k].timestamp_ms >= cutoff);
            }
            assert forall|i: int, k: int|
                0 <= i < after.len() && 0 <= k < after[i].entries@.len() implies
                    entry_ok(#[trigger] after[i].entries@[k]) by {
                assert(after[i].entries@[k].timestamp_ms >= cutoff);
            }
            assert forall|i: int, k: int| 0 <= i < k < after.len() implies after[i].sensor_id@
                != after[k].sensor_id@ by {
                if k < before.len() {
                    assert(before[i].sensor_id@ != before[k].sensor_id@);
                }
            }
        }
        self.buffers = rebuilt;
    }

    /// Looks for a burst of anomalous readings across sensors within the
    /// correlation window that ends at `now_ms`.
    pub fn check_correlation(&self, now_ms: i64) -> (r: Option<CorrelationEvent>)
        requires
            self.wf(),
        ensures
            ({
                let start = now_ms - self.spec_window();
                let hs = all_hits(self.spec_buffers(), start);
                let active = active_sensors(self.spec_buffers(), start);
                let c = spec_correlation_confidence(hs, active);
                &&& active < MIN_CORRELATED_SENSORS ==> r is None
                &&& r is Some <==> (active >= MIN_CORRELATED_SENSORS && c > self.spec_min_correlation())
                &&& r matches Some(ev) ==> {
                    &&& ev.confidence == c
                    &&& ev.confidence > self.spec_min_correlation()
                    &&& ev.confidence <= SCALE
                    &&& ev.timestamp_ms == now_ms
                    &&& ev.sensors@ == hs.map_values(|h: (String, BufferedReading)| hit_contribution(h))
                    &&& ev.lag_ms == if latest(hs) - earliest(hs) <= i64::MAX {
                        latest(hs) - earliest(hs)
                    } else {
                        i64::MAX as int
                    }
                }
            }),
    {
        let start: i128 = now_ms as i128 - self.correlation_window_ms as i128;
        let ghost bufs = self.buffers@;
        let mut hits: Vec<(String, BufferedReading)> = Vec::new();
        let mut active: u64 = 0;
        let mut b: usize = 0;
        while b < self.buffers.len()
            invariant
                self.wf(),
                bufs == self.buffers@,
                b <= bufs.len(),
                hits@ == all_hits(bufs.subrange(0, b as int), start as int),
                active == active_sensors(bufs.subrange(0, b as int), start as int),
                active <= b,
            decreases bufs.len() - b,
        {
            let buf = &self.buffers[b];
            let ghost id = buf.sensor_id;
            let ghost es = buf.entries@;
            let before_len = hits.len();
            let ghost base = hits@;
            let mut k: usize = 0;
            while k < buf.entries.len()
                invariant
                    buf == &self.buffers@[b as int],
                    es == buf.entries@,
                    id == buf.sensor_id,
                    k <= es.len(),
                    before_len == base.len(),
                    hits@ == base + buffer_hits(id, es.subrange(0, k as int), start as int),
                decreases es.len() - k,
            {
                let e = buf.entries[k];
                proof {
                    assert(es.subrange(0, k as int + 1).drop_last() =~= es.subrange(0, k as int));
                }
                if e.timestamp_ms as i128 >= start && e.anomaly_score > QUICK_SCORE_FLOOR {
                    hits.push((buf.sensor_id.clone(), e));
                    proof {
                        assert(hits@ =~= base + buffer_hits(id, es.subrange(0, k as int + 1), start as int));
                    }
                }
                k = k + 1;
            }
            proof {
                assert(es.subrange(0, es.len() as int) =~= es);
                assert(bufs.subrange(0, b as int + 1).drop_last() =~= bufs.subrange(0, b as int));
            }
            if hits.len() > before_len {
                active = active + 1;
            }
            b = b + 1;
        }
        proof {
            assert(bufs.subrange(0, bufs.len() as int) =~= bufs);
            lemma_active_le_hits(bufs, start as int);
        }
        if active < MIN_CORRELATED_SENSORS {
            return None;
        }
        let ghost hs = hits@;
        proof {
            assert forall|i: int| 0 <= i < hs.len() implies hs[i].1.anomaly_score <= SCALE by {
                lemma_all_hits_from(bufs, start as int, i);
                let (b, m) = choose|b: int, m: int| 0 <= b < bufs.len() && 0 <= m < bufs[b].entries@.len()
                    && all_hits(bufs, start as int)[i].1 == bufs[b].entries@[m];
                assert(entry_ok(self.spec_buffers()[b].entries@[m]));
            }
            lemma_hits_bounded(hs);
        }
        let mut total: u128 = 0;
        let mut lo: i64 = hits[0].1.timestamp_ms;
        let mut hi: i64 = hits[0].1.timestamp_ms;
        let mut sensors: Vec<SensorContribution> = Vec::new();
        let mut i: usize = 0;
        while i < hits.len()
            invariant
                hs == hits@,
                hs.len() >= 1,
                i <= hs.len(),
                forall|m: int| 0 <= m < hs.len() ==> hs[m].1.anomaly_score <= SCALE,
                total == score_total(hs.subrange(0, i as int)),
                total <= i * SCALE,
                i >= 1 ==> lo == earliest(hs.subrange(0, i as int)),
                i >= 1 ==> hi == latest(hs.subrange(0, i as int)),
                i == 0 ==> lo == hs[0].1.timestamp_ms && hi == hs[0].1.timestamp_ms,
                sensors@ == hs.subrange(0, i as int).map_values(|h: (String, BufferedReading)| hit_contribution(h)),
            decreases hs.len() - i,
        {
            let h = &hits[i];
            proof {
                let next = hs.subrange(0, i as int + 1);
                assert(next.drop_last() =~= hs.subrange(0, i as int));
                lemma_hits_bounded(hs.subrange(0, i as int));
            }
            total = total + h.1.anomaly_score as u128;
            if i > 0 {
                if h.1.timestamp_ms < lo {
                    lo = h.1.timestamp_ms;
                }
                if h.1.timestamp_ms > hi {
                    hi = h.1.timestamp_ms;
                }
            }
            let weight = correlation_weight(h.1.sensor_type);
            sensors.push(SensorContribution {
                sensor_id: h.0.clone(),
                sensor_type: h.1.sensor_type,
                weight,
                reading_value: h.1.value,
                anomaly_score: h.1.anomaly_score,
            });
            proof {
                assert(sensors@ =~= hs.subrange(0, i as int + 1).map_values(
                    |h: (String, BufferedReading)| hit_contribution(h),
                ));
            }
            i = i + 1;
        }
        proof {
            assert(hs.subrange(0, hs.len() as int) =~= hs);
        }
        let n = hits.len() as u128;
        proof {
            lemma_multiply_divide_le(total as int, n as int, SCALE as int);
        }
        let avg = total / n;
        let scaled = (active as u128) * (SCALE as u128) / 5;
        let diversity = if scaled < SCALE as u128 { scaled } else { SCALE as u128 };
        let conf = ((6 * avg + 4 * diversity) / 10) as u64;
        proof {
            lemma_multiply_divide_le(6 * avg + 4 * diversity, 10, SCALE as int);
        }
        if conf > self.min_correlation {
            let span: i128 = hi as i128 - lo as i128;
            let lag_ms: i64 = if span <= i64::MAX as i128 { span as i64 } else { i64::MAX };
            Some(CorrelationEvent { timestamp_ms: now_ms, sensors, confidence: conf, lag_ms })
        } else {
            None
        }
    }

    fn find_buffer(&self, id: &String) -> (r: Option<usize>)
        ensures
            r matches Some(j) ==> j < self.spec_buffers().len() && self.spec_buffers()[j as int].sensor_id@ == id@,
            r is None ==> forall|j: int| 0 <= j < self.spec_buffers().len() ==> self.spec_buffers()[j].sensor_id@ != id@,
    {
        let mut j: usize = 0;
        while j < self.buffers.len()
            invariant
                j <= self.buffers@.len(),
                forall|i: int| 0 <= i < j ==> self.buffers@[i].sensor_id@ != id@,
            decreases self.buffers@.len() - j,
        {
            if self.buffers[j].sensor_id == *id {
                return Some(j);
            }
            j = j + 1;
        }
        None
    }

    fn values_at(&self, j: usize) -> (r: Vec<i64>)
        requires
            self.wf(),
            j < self.spec_buffers().len(),
        ensures
            r@ == entry_values(self.spec_buffers()[j as int].entries@),
            forall|i: int| 0 <= i < r@.len() ==> -MAX_SAMPLE <= #[trigger] r@[i] <= MAX_SAMPLE,
    {
        let es = &self.buffers[j].entries;
        let mut out: Vec<i64> = Vec::new();
        let mut k: usize = 0;
        while k < es.len()
            invariant
                self.wf(),
                j < self.spec_buffers().len(),
                es == &self.spec_buffers()[j as int].entries,
                k <= es@.len(),
                out@ == entry_values(es@.subrange(0, k as int)),
            decreases es@.len() - k,
        {
            out.push(es[k].value);
            proof {
                assert(out@ =~= entry_values(es@.subrange(0, k as int + 1)));
            }
            k = k + 1;
        }
        proof {
            assert(es@.subrange(0, es@.len() as int) =~= es@);
            assert forall|i: int| 0 <= i < out@.len() implies -MAX_SAMPLE <= #[trigger] out@[i] <= MAX_SAMPLE by {
                assert(entry_ok(self.spec_buffers()[j as int].entries@[i]));
            }
        }
        out
    }

    /// Lagged Pearson cross-correlation of two sensors' buffered values.
    /// Lags run over whole steps of `LAG_STEP_MS` up to `max_lag_ms` and at
    /// most half the shorter buffer; the result is the strongest
    /// correlation (parts per million) and its lag in milliseconds, positive
    /// when the second sensor leads.
    pub fn cross_correlate(&self, sensor1: &String, sensor2: &String, max_lag_ms: u64) -> (r: Option<(i64, i64)>)
        requires
            self.wf(),
        ensures
            ({
                let a = values_of(self.spec_buffers(), sensor1@);
                let b = values_of(self.spec_buffers(), sensor2@);
                if a is None || b is None {
                    r is None
                } else {
                    match spec_cross_correlate(a->Some_0, b->Some_0, max_lag_ms as int) {
                        None => r is None,
                        Some((c, l)) => r == Some((c as i64, l as i64)),
                    }
                }
            }),
    {
        let j1 = match self.find_buffer(sensor1) {
            Some(j) => j,
            None => return None,
        };
        let j2 = match self.find_buffer(sensor2) {
            Some(j) => j,
            None => return None,
        };
        proof {
            let bufs = self.spec_buffers();
            let c1 = choose|j: int| 0 <= j < bufs.len() && bufs[j].sensor_id@ == sensor1@;
            let c2 = choose|j: int| 0 <= j < bufs.len() && bufs[j].sensor_id@ == sensor2@;
            if c1 != j1 {
                if c1 < j1 {
                    assert(bufs[c1].sensor_id@ != bufs[j1 as int].sensor_id@);
                } else {
                    assert(bufs[j1 as int].sensor_id@ != bufs[c1].sensor_id@);
                }
            }
            if c2 != j2 {
                if c2 < j2 {
                    assert(bufs[c2].sensor_id@ != bufs[j2 as int].sensor_id@);
                } else {
                    assert(bufs[j2 as int].sensor_id@ != bufs[c2].sensor_id@);
                }
            }
        }
        let v1 = self.values_at(j1);
        let v2 = self.values_at(j2);
        let ghost s1 = v1@;
        let ghost s2 = v2@;
        if v1.len() < MIN_XCORR_LEN || v2.len() < MIN_XCORR_LEN || v1.len() > MAX_WINDOW || v2.len() > MAX_WINDOW {
            return None;
        }
        let stats = StatisticalAnalyzer::new();
        let sd1 = stats.population_std_dev(v1.as_slice());
        let sd2 = stats.population_std_dev(v2.as_slice());
        if sd1 == 0 || sd2 == 0 {
            return None;
        }
        let m1 = stats.mean(v1.as_slice());
        let m2 = stats.mean(v2.as_slice());
        let n = if v1.len() < v2.len() { v1.len() } else { v2.len() };
        let by_time = max_lag_ms / LAG_STEP_MS;
        let lags: usize = if by_time < (n / 2) as u64 { by_time as usize } else { n / 2 };
        let mut best_corr: i64 = 0;
        let mut best_lag: i64 = 0;
        let mut lag: usize = 0;
        while lag < lags
            invariant
                window_ok(s1),
                window_ok(s2),
                s1 == v1@,
                s2 == v2@,
                m1 == spec_mean(s1),
                m2 == spec_mean(s2),
                -MAX_SAMPLE <= m1 <= MAX_SAMPLE,
                -MAX_SAMPLE <= m2 <= MAX_SAMPLE,
                sd1 == spec_pop_std_dev(s1),
                sd2 == spec_pop_std_dev(s2),
                1 <= sd1 <= 0x200_0000_0000,
                1 <= sd2 <= 0x200_0000_0000,
                n == if s1.len() < s2.len() { s1.len() as int } else { s2.len() as int },
                lags <= n / 2,
                lag <= lags,
                (best_corr as int, best_lag as int) == best_lag_scan(s1, s2, n as int, lag as int),
                -(SCALE as int) <= best_corr <= SCALE,
                -(LAG_STEP_MS * lag) <= best_lag <= LAG_STEP_MS * lag,
            decreases lags - lag,
        {
            let p = pearson_at(&v1, &v2, m1, m2, sd1, sd2, lag, 0, n - lag);
            let lag_ms = (lag as i64) * (LAG_STEP_MS as i64);
            if abs_of(p) > abs_of(best_corr) {
                best_corr = p;
                best_lag = lag_ms;
            }
            let q = pearson_at(&v1, &v2, m1, m2, sd1, sd2, 0, lag, n - lag);
            if abs_of(q) > abs_of(best_corr) {
                best_corr = q;
                best_lag = -lag_ms;
            }
            lag = lag + 1;
        }
        Some((best_corr, best_lag))
    }

    proof fn lemma_values_of_buffer(&self, i: int)
        requires
            self.wf(),
            0 <= i < self.spec_buffers().len(),
        ensures
            values_of(self.spec_buffers(), self.spec_buffers()[i].sensor_id@)
                == Some(entry_values(self.spec_buffers()[i].entries@)),
    {
        let bufs = self.spec_buffers();
        let id = bufs[i].sensor_id@;
        assert(exists|j: int| 0 <= j < bufs.len() && bufs[j].sensor_id@ == id);
        let j = choose|j: int| 0 <= j < bufs.len() && bufs[j].sensor_id@ == id;
        if j < i {
            assert(bufs[j].sensor_id@ != bufs[i].sensor_id@);
        } else if i < j {
            assert(bufs[i].sensor_id@ != bufs[j].sensor_id@);
        }
    }

    /// The strongest correlation of every pair of buffered sensors, in buffer
    /// order, for the pairs that can be correlated.
    pub fn get_correlation_matrix(&self) -> (r: Vec<(String, String, i64)>)
        requires
            self.wf(),
        ensures
            r@ == matrix_upto(self.spec_buffers(), self.spec_buffers().len() as int),
    {
        let ghost bufs = self.spec_buffers();
        let n = self.buffers.len();
        let mut out: Vec<(String, String, i64)> = Vec::new();
        let mut i: usize = 0;
        while i < n
            invariant
                self.wf(),
                bufs == self.spec_buffers(),
                n == bufs.len(),
                i <= n,
                out@ == matrix_upto(bufs, i as int),
            decreases n - i,
        {
            let mut j: usize = i + 1;
            while j < n
                invariant
                    self.wf(),
                    bufs == self.spec_buffers(),
                    n == bufs.len(),
                    i < n,
                    i + 1 <= j <= n,
                    out@ == matrix_upto(bufs, i as int) + row_entries(bufs, i as int, j as int),
                decreases n - j,
            {
                proof {
                    self.lemma_values_of_buffer(i as int);
                    self.lemma_values_of_buffer(j as int);
                }
                let corr = self.cross_correlate(&self.buffers[i].sensor_id, &self.buffers[j].sensor_id, MATRIX_MAX_LAG_MS);
                let ghost before = out@;
                match corr {
                    Some((c, _)) => {
                        out.push((self.buffers[i].sensor_id.clone(), self.buffers[j].sensor_id.clone(), c));
                    },
                    None => {},
                }
                proof {
                    assert(out@ =~= matrix_upto(bufs, i as int) + row_entries(bufs, i as int, j as int + 1));
                }
                j = j + 1;
            }
            proof {
                assert(out@ =~= matrix_upto(bufs, i as int + 1));
            }
            i = i + 1;
        }
        out
    }
}

} // verus!
