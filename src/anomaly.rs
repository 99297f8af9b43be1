//! Anomaly records and the ensemble's merge policy, plus the CUSUM
//! change-point detector.

use vstd::prelude::*;
use vstd::arithmetic::div_mod::{
    lemma_div_is_ordered, lemma_div_is_ordered_by_denominator, lemma_div_pos_is_pos,
};

use crate::fixed::SCALE;
use crate::statistics::{
    samples_ok, seq_sum, spec_mean, spec_std_dev, StatisticalAnalyzer, MAX_SAMPLE, MAX_WINDOW,
};
use vstd::slice::slice_subrange;

verus! {

/// The kind of irregularity an anomaly marks.
#[derive(Debug, Clone, Copy, PartialEq, Eq, Structural)]
pub enum AnomalyType {
    PointAnomaly,
    ContextualAnomaly,
    CollectiveAnomaly,
    ChangePoint,
    Spike,
    Drop,
    Drift,
    Oscillation,
}

/// One flagged sample: its position in the window, its value (micro-units),
/// the detector's score (micro-units, not bounded by one), its kind and a
/// confidence (parts per million).
#[derive(Debug, Clone, Copy, PartialEq, Eq, Structural)]
pub struct Anomaly {
    pub index: usize,
    pub value: i64,
    pub score: u64,
    pub anomaly_type: AnomalyType,
    pub confidence: u64,
}

/// The order of a merged list: higher score first, lower index first among
/// equal scores.
pub open spec fn ranks_before(a: Anomaly, b: Anomaly) -> bool {
    a.score > b.score || (a.score == b.score && a.index < b.index)
}

/// `xs[k]` is the anomaly kept for its index: no anomaly at that index
/// scores higher, and every earlier one at that index scores lower.
pub open spec fn is_kept(xs: Seq<Anomaly>, k: int) -> bool {
    &&& 0 <= k < xs.len()
    &&& forall|j: int|
        0 <= j < xs.len() && (#[trigger] xs[j]).index == xs[k].index ==> xs[j].score <= xs[k].score
            && (j < k ==> xs[j].score < xs[k].score)
}

/// `x` is one of the anomalies kept from `xs`.
pub open spec fn is_kept_value(xs: Seq<Anomaly>, x: Anomaly) -> bool {
    exists|k: int| is_kept(xs, k) && x == #[trigger] xs[k]
}

/// `r` is the merge of `xs`: exactly the kept anomalies, one per index,
/// ranked by score.
pub open spec fn is_merge_of(r: Seq<Anomaly>, xs: Seq<Anomaly>) -> bool {
    &&& forall|i: int, j: int| 0 <= i < j < r.len() ==> ranks_before(r[i], r[j])
    &&& forall|i: int| 0 <= i < r.len() ==> is_kept_value(xs, #[trigger] r[i])
    &&& forall|k: int| is_kept(xs, k) ==> r.contains(#[trigger] xs[k])
}

/// The deduplicated list over a prefix `xs[..n]`: one entry per index, each
/// the kept one.
spec fn dedup_inv(out: Seq<Anomaly>, xs: Seq<Anomaly>, n: int) -> bool {
    let p = xs.subrange(0, n);
    &&& forall|i: int, j: int| 0 <= i < j < out.len() ==> out[i].index != out[j].index
    &&& forall|i: int| #![trigger out[i]] 0 <= i < out.len() ==> exists|k: int| is_kept(p, k) && out[i] == #[trigger] p[k]
    &&& forall|k: int| #![trigger p[k]] 0 <= k < n ==> exists|i: int| 0 <= i < out.len() && (#[trigger] out[i]).index == p[k].index
}

proof fn lemma_kept_unique(p: Seq<Anomaly>, k1: int, k2: int)
    requires
        is_kept(p, k1),
        is_kept(p, k2),
        p[k1].index == p[k2].index,
    ensures
        k1 == k2,
{
    if k1 < k2 {
        assert(p[k2].score <= p[k1].score);
    } else if k2 < k1 {
        assert(p[k1].score <= p[k2].score);
    }
}

proof fn lemma_dedup_replace(xs: Seq<Anomaly>, n: int, old_out: Seq<Anomaly>, j: int)
    requires
        0 <= n < xs.len(),
        dedup_inv(old_out, xs, n),
        0 <= j < old_out.len(),
        old_out[j].index == xs[n].index,
        xs[n].score > old_out[j].score,
    ensures
        dedup_inv(old_out.update(j, xs[n]), xs, n + 1),
{
    let p = xs.subrange(0, n);
    let q = xs.subrange(0, n + 1);
    let a = xs[n];
    let out = old_out.update(j, a);
    assert forall|k: int| 0 <= k < n implies #[trigger] q[k] == p[k] by {}
    assert(q[n] == a);
    let k0 = choose|k: int| is_kept(p, k) && old_out[j] == #[trigger] p[k];
    assert(is_kept(q, n)) by {
        assert forall|m: int| 0 <= m < q.len() && (#[trigger] q[m]).index == q[n].index
            implies q[m].score <= q[n].score && (m < n ==> q[m].score < q[n].score) by {
            if m < n {
                assert(p[m].index == p[k0].index);
            }
        }
    }
    assert forall|i: int| #![trigger out[i]] 0 <= i < out.len() implies exists|k: int| is_kept(q, k) && out[i] == #[trigger] q[k] by {
        if i == j {
            assert(out[i] == q[n]);
        } else {
            let k = choose|k: int| is_kept(p, k) && old_out[i] == #[trigger] p[k];
            assert(old_out[i].index != old_out[j].index);
            assert(is_kept(q, k)) by {
                assert forall|m: int| 0 <= m < q.len() && (#[trigger] q[m]).index == q[k].index
                    implies q[m].score <= q[k].score && (m < k ==> q[m].score < q[k].score) by {
                    if m != n {
                        assert(q[m] == p[m]);
                    }
                }
            }
            assert(out[i] == q[k]);
        }
    }
    assert forall|k: int| #![trigger q[k]] 0 <= k < n + 1 implies exists|i: int| 0 <= i < out.len() && (#[trigger] out[i]).index == q[k].index by {
        if k == n {
            assert(out[j].index == q[k].index);
        } else {
            let i = choose|i: int| 0 <= i < old_out.len() && (#[trigger] old_out[i]).index == p[k].index;
            assert(out[i].index == q[k].index);
        }
    }
}

proof fn lemma_dedup_skip(xs: Seq<Anomaly>, n: int, out: Seq<Anomaly>, j: int)
    requires
        0 <= n < xs.len(),
        dedup_inv(out, xs, n),
        0 <= j < out.len(),
        out[j].index == xs[n].index,
        xs[n].score <= out[j].score,
    ensures
        dedup_inv(out, xs, n + 1),
{
    let p = xs.subrange(0, n);
    let q = xs.subrange(0, n + 1);
    assert forall|k: int| 0 <= k < n implies #[trigger] q[k] == p[k] by {}
    assert(q[n] == xs[n]);
    let k0 = choose|k: int| is_kept(p, k) && out[j] == #[trigger] p[k];
    assert forall|i: int| #![trigger out[i]] 0 <= i < out.len() implies exists|k: int| is_kept(q, k) && out[i] == #[trigger] q[k] by {
        let k = choose|k: int| is_kept(p, k) && out[i] == #[trigger] p[k];
        assert(is_kept(q, k)) by {
            assert forall|m: int| 0 <= m < q.len() && (#[trigger] q[m]).index == q[k].index
                implies q[m].score <= q[k].score && (m < k ==> q[m].score < q[k].score) by {
                if m == n {
                    if i != j {
                        assert(out[i].index != out[j].index);
                    }
                    lemma_kept_unique(p, k, k0);
                } else {
                    assert(q[m] == p[m]);
                }
            }
        }
        assert(out[i] == q[k]);
    }
    assert forall|k: int| #![trigger q[k]] 0 <= k < n + 1 implies exists|i: int| 0 <= i < out.len() && (#[trigger] out[i]).index == q[k].index by {
        if k == n {
            assert(out[j].index == q[k].index);
        } else {
            let i = choose|i: int| 0 <= i < out.len() && (#[trigger] out[i]).index == p[k].index;
        }
    }
}

proof fn lemma_dedup_push(xs: Seq<Anomaly>, n: int, old_out: Seq<Anomaly>)
    requires
        0 <= n < xs.len(),
        dedup_inv(old_out, xs, n),
        forall|i: int| 0 <= i < old_out.len() ==> old_out[i].index != xs[n].index,
    ensures
        dedup_inv(old_out.push(xs[n]), xs, n + 1),
{
    let p = xs.subrange(0, n);
    let q = xs.subrange(0, n + 1);
    let a = xs[n];
    let out = old_out.push(a);
    assert forall|k: int| 0 <= k < n implies #[trigger] q[k] == p[k] by {}
    assert(q[n] == a);
    assert(is_kept(q, n)) by {
        assert forall|m: int| 0 <= m < q.len() && (#[trigger] q[m]).index == q[n].index
            implies q[m].score <= q[n].score && (m < n ==> q[m].score < q[n].score) by {
            if m < n {
                let i = choose|i: int| 0 <= i < old_out.len() && (#[trigger] old_out[i]).index == p[m].index;
            }
        }
    }
    assert forall|i: int| #![trigger out[i]] 0 <= i < out.len() implies exists|k: int| is_kept(q, k) && out[i] == #[trigger] q[k] by {
        if i == old_out.len() {
            assert(out[i] == q[n]);
        } else {
            let k = choose|k: int| is_kept(p, k) && old_out[i] == #[trigger] p[k];
            assert(is_kept(q, k)) by {
                assert forall|m: int| 0 <= m < q.len() && (#[trigger] q[m]).index == q[k].index
                    implies q[m].score <= q[k].score && (m < k ==> q[m].score < q[k].score) by {
                    if m != n {
                        assert(q[m] == p[m]);
                    }
                }
            }
            assert(out[i] == q[k]);
        }
    }
    assert forall|k: int| #![trigger q[k]] 0 <= k < n + 1 implies exists|i: int| 0 <= i < out.len() && (#[trigger] out[i]).index == q[k].index by {
        if k == n {
            assert(out[old_out.len() as int].index == q[k].index);
        } else {
            let i = choose|i: int| 0 <= i < old_out.len() && (#[trigger] old_out[i]).index == p[k].index;
            assert(out[i].index == q[k].index);
        }
    }
}

fn dedup_by_index(xs: &[Anomaly]) -> (out: Vec<Anomaly>)
    ensures
        forall|i: int, j: int| 0 <= i < j < out@.len() ==> out@[i].index != out@[j].index,
        forall|i: int| 0 <= i < out@.len() ==> is_kept_value(xs@, #[trigger] out@[i]),
        forall|k: int| is_kept(xs@, k) ==> out@.contains(#[trigger] xs@[k]),
{
    let mut out: Vec<Anomaly> = Vec::new();
    let mut n: usize = 0;
    while n < xs.len()
        invariant
            n <= xs@.len(),
            dedup_inv(out@, xs@, n as int),
        decreases xs@.len() - n,
    {
        let a = xs[n];
        let ghost old_out = out@;
        let mut j: usize = 0;
        while j < out.len() && out[j].index != a.index
            invariant
                out@ == old_out,
                j <= out@.len(),
                forall|i: int| 0 <= i < j ==> out@[i].index != a.index,
            decreases out@.len() - j,
        {
            j = j + 1;
        }
        if j < out.len() {
            if a.score > out[j].score {
                proof {
                    lemma_dedup_replace(xs@, n as int, old_out, j as int);
                }
                out.set(j, a);
            } else {
                proof {
                    lemma_dedup_skip(xs@, n as int, old_out, j as int);
                }
            }
        } else {
            proof {
                lemma_dedup_push(xs@, n as int, old_out);
            }
            out.push(a);
        }
        n = n + 1;
    }
    proof {
        let p2 = xs@.subrange(0, xs@.len() as int);
        assert(p2 =~= xs@);
        assert(dedup_inv(out@, xs@, xs@.len() as int));
        assert forall|i: int| 0 <= i < out@.len() implies is_kept_value(xs@, #[trigger] out@[i]) by {
            let x = out@[i];
            assert(exists|k: int| is_kept(p2, k) && out@[i] == #[trigger] p2[k]);
            let k = choose|k: int| is_kept(p2, k) && out@[i] == #[trigger] p2[k];
            assert(is_kept(xs@, k));
            assert(out@[i] == xs@[k]);
        }
        assert forall|k: int| is_kept(xs@, k) implies out@.contains(#[trigger] xs@[k]) by {
            assert(p2[k] == xs@[k]);
            let i = choose|i: int| 0 <= i < out@.len() && (#[trigger] out@[i]).index == p2[k].index;
            let k2 = choose|k2: int| is_kept(p2, k2) && out@[i] == #[trigger] p2[k2];
            assert(is_kept(xs@, k2));
            lemma_kept_unique(xs@, k, k2);
        }
    }
    out
}

/// Merges the results of several detectors: one anomaly per index, the
/// highest-scoring one (the first of equals), ranked by descending score
/// and then ascending index.
pub fn merge_anomalies(anomalies: &[Anomaly]) -> (r: Vec<Anomaly>)
    ensures
        is_merge_of(r@, anomalies@),
{
    let deduped = dedup_by_index(anomalies);
    let mut sorted: Vec<Anomaly> = Vec::new();
    let mut i: usize = 0;
    while i < deduped.len()
        invariant
            i <= deduped@.len(),
            forall|a: int, b: int| 0 <= a < b < sorted@.len() ==> ranks_before(sorted@[a], sorted@[b]),
            forall|a: int| #![trigger sorted@[a]] 0 <= a < sorted@.len() ==> exists|k: int| 0 <= k < i && sorted@[a] == #[trigger] deduped@[k],
            forall|k: int| 0 <= k < i ==> sorted@.contains(#[trigger] deduped@[k]),
            forall|a: int, b: int| 0 <= a < b < deduped@.len() ==> deduped@[a].index != deduped@[b].index,
        decreases deduped@.len() - i,
    {
        let x = deduped[i];
        let ghost before = sorted@;
        let mut pos: usize = 0;
        while pos < sorted.len() && (sorted[pos].score > x.score || (sorted[pos].score == x.score && sorted[pos].index < x.index))
            invariant
                sorted@ == before,
                pos <= before.len(),
                forall|a: int| 0 <= a < pos ==> ranks_before(before[a], x),
            decreases before.len() - pos,
        {
            pos = pos + 1;
        }
        proof {
            assert forall|a: int| 0 <= a < before.len() implies before[a].index != x.index by {
                let k = choose|k: int| 0 <= k < i && before[a] == #[trigger] deduped@[k];
                assert(deduped@[k].index != deduped@[i as int].index);
            }
            if pos < before.len() {
                assert(!ranks_before(before[pos as int], x));
                assert forall|a: int| pos <= a < before.len() implies ranks_before(x, before[a]) by {
                    if a > pos {
                        assert(ranks_before(before[pos as int], before[a]));
                    }
                    assert(before[a].index != x.index);
                }
            }
        }
        sorted.insert(pos, x);
        proof {
            let now = sorted@;
            assert(now == before.insert(pos as int, x));
            assert forall|a: int, b: int| 0 <= a < b < now.len() implies ranks_before(now[a], now[b]) by {
                if b < pos {
                } else if a < pos && b == pos {
                } else if a < pos {
                    assert(now[b] == before[b - 1]);
                } else if a == pos {
                    assert(now[b] == before[b - 1]);
                } else {
                    assert(now[a] == before[a - 1]);
                    assert(now[b] == before[b - 1]);
                }
            }
            assert forall|a: int| #![trigger now[a]] 0 <= a < now.len() implies exists|k: int| 0 <= k < i + 1 && now[a] == #[trigger] deduped@[k] by {
                if a < pos {
                    assert(now[a] == before[a]);
                } else if a == pos {
                    assert(now[a] == deduped@[i as int]);
                } else {
                    assert(now[a] == before[a - 1]);
                }
            }
            assert forall|k: int| 0 <= k < i + 1 implies now.contains(#[trigger] deduped@[k]) by {
                if k == i {
                    assert(now[pos as int] == deduped@[k]);
                } else {
                    assert(before.contains(deduped@[k]));
                    let a = choose|a: int| 0 <= a < before.len() && before[a] == deduped@[k];
                    if a < pos {
                        assert(now[a] == before[a]);
                    } else {
                        assert(now[a + 1] == before[a]);
                    }
                }
            }
        }
        i = i + 1;
    }
    proof {
        assert(i == deduped@.len());
        assert forall|a: int| 0 <= a < sorted@.len() implies is_kept_value(anomalies@, #[trigger] sorted@[a]) by {
            let x = sorted@[a];
            assert(exists|k: int| 0 <= k < i && sorted@[a] == #[trigger] deduped@[k]);
            let k = choose|k: int| 0 <= k < i && sorted@[a] == #[trigger] deduped@[k];
            let k2 = choose|k2: int| is_kept(anomalies@, k2) && deduped@[k] == #[trigger] anomalies@[k2];
        }
        assert forall|k: int| is_kept(anomalies@, k) implies sorted@.contains(#[trigger] anomalies@[k]) by {
            assert(deduped@.contains(anomalies@[k]));
            let j = choose|j: int| 0 <= j < deduped@.len() && deduped@[j] == anomalies@[k];
            assert(sorted@.contains(deduped@[j]));
        }
    }
    sorted
}

proof fn lemma_kept_exists(xs: Seq<Anomaly>, k: int)
    requires
        0 <= k < xs.len(),
    ensures
        exists|k2: int| is_kept(xs, k2) && #[trigger] xs[k2].index == xs[k].index && xs[k2].score >= xs[k].score,
    decreases xs.len(),
{
    let n = xs.len() - 1;
    let ys = xs.drop_last();
    let last = xs[n];
    if exists|j: int| 0 <= j < n && #[trigger] ys[j].index == xs[k].index {
        let j = if k < n { k } else { choose|j: int| 0 <= j < n && #[trigger] ys[j].index == xs[k].index };
        assert(ys[j] == xs[j]);
        lemma_kept_exists(ys, j);
        let k2 = choose|k2: int| is_kept(ys, k2) && #[trigger] ys[k2].index == ys[j].index && ys[k2].score >= ys[j].score;
        assert(ys[k2] == xs[k2]);
        if last.index == xs[k].index && last.score > ys[k2].score {
            assert(is_kept(xs, n)) by {
                assert forall|m: int| 0 <= m < xs.len() && (#[trigger] xs[m]).index == xs[n].index
                    implies xs[m].score <= xs[n].score && (m < n ==> xs[m].score < xs[n].score) by {
                    if m < n {
                        assert(ys[m] == xs[m]);
                    }
                }
            }
            if k < n {
                assert(xs[k] == ys[k]);
            }
        } else {
            assert(is_kept(xs, k2)) by {
                assert forall|m: int| 0 <= m < xs.len() && (#[trigger] xs[m]).index == xs[k2].index
                    implies xs[m].score <= xs[k2].score && (m < k2 ==> xs[m].score < xs[k2].score) by {
                    if m < n {
                        assert(ys[m] == xs[m]);
                    }
                }
            }
            if k == n {
                assert(last.score <= ys[k2].score);
            }
        }
    } else {
        if k < n {
            assert(ys[k].index == xs[k].index);
        }
        if last.index == xs[k].index {
            assert(is_kept(xs, n)) by {
                assert forall|m: int| 0 <= m < xs.len() && (#[trigger] xs[m]).index == xs[n].index
                    implies xs[m].score <= xs[n].score && (m < n ==> xs[m].score < xs[n].score) by {
                    if m < n {
                        assert(ys[m] == xs[m]);
                    }
                }
            }
            assert(k == n);
        } else {
            assert(k == n);
        }
    }
}

/// Deduplication keeps the best anomaly of every index: in a merge of
/// `xs`, for the index of any anomaly of `xs` there is exactly one anomaly,
/// and its score is at least that anomaly's score (so it is the maximum
/// score at that index).
pub proof fn lemma_merge_one_per_index(r: Seq<Anomaly>, xs: Seq<Anomaly>, k: int)
    requires
        is_merge_of(r, xs),
        0 <= k < xs.len(),
    ensures
        exists|i: int| 0 <= i < r.len() && (#[trigger] r[i]).index == xs[k].index && r[i].score >= xs[k].score,
        forall|i: int, j: int| 0 <= i < r.len() && 0 <= j < r.len() && r[i].index == r[j].index ==> i == j,
{
    lemma_kept_exists(xs, k);
    let k2 = choose|k2: int| is_kept(xs, k2) && #[trigger] xs[k2].index == xs[k].index && xs[k2].score >= xs[k].score;
    assert(r.contains(xs[k2]));
    let i = choose|i: int| 0 <= i < r.len() && r[i] == xs[k2];
    assert(r[i].index == xs[k].index);
    assert forall|i: int, j: int| 0 <= i < r.len() && 0 <= j < r.len() && r[i].index == r[j].index implies i == j by {
        assert(is_kept_value(xs, r[i]));
        assert(is_kept_value(xs, r[j]));
        let ki = choose|k: int| is_kept(xs, k) && r[i] == #[trigger] xs[k];
        let kj = choose|k: int| is_kept(xs, k) && r[j] == #[trigger] xs[k];
        lemma_kept_unique(xs, ki, kj);
        if i < j {
            assert(ranks_before(r[i], r[j]));
        } else if j < i {
            assert(ranks_before(r[j], r[i]));
        }
    }
}

/// Shortest window any detector of the ensemble looks at (the statistical
/// one); below it no detector flags anything.
pub const STATISTICAL_MIN_LEN: usize = 10;

/// Shortest window the CUSUM detector looks at.
pub const CUSUM_MIN_LEN: usize = 20;

/// The change point flagged at sample `i` when an accumulator reached `c`
/// above the decision interval `h`: its score is `c / h` and its confidence
/// that ratio capped at one.
pub open spec fn change_point(i: int, x: i64, c: int, h: int) -> Anomaly {
    let score = c * SCALE as int / h;
    Anomaly {
        index: i as usize,
        value: x,
        score: score as u64,
        anomaly_type: AnomalyType::ChangePoint,
        confidence: (if score < SCALE as int { score } else { SCALE as int }) as u64,
    }
}

/// Length of the reference segment from which CUSUM takes its mean.
pub const CUSUM_REFERENCE_LEN: usize = 20;

/// Mean of the reference segment that starts at `r0`.
pub open spec fn reference_mean(d: Seq<i64>, r0: int) -> int {
    spec_mean(d.subrange(r0, r0 + CUSUM_REFERENCE_LEN))
}

/// Two-sided CUSUM from sample `i` on, with slack k = σ/2 and decision
/// interval h = 5σ for the window's standard deviation `sd`, the reference
/// segment starting at `r0` and the accumulators `pos` and `neg`. The
/// samples of a reference segment are not tested; after it, each sample
/// moves the accumulators about the reference mean, and a crossing of h is
/// flagged with score accumulator / h (so `SCALE` means the accumulator just
/// reached h). After a flag both accumulators restart from zero and a new
/// reference segment starts at the next sample, so a sustained shift is
/// flagged once and then becomes the new level.
pub open spec fn cusum_scan(d: Seq<i64>, sd: int, r0: int, i: int, pos: int, neg: int) -> Seq<Anomaly>
    decreases d.len() - i,
{
    if i >= d.len() {
        Seq::empty()
    } else if i < r0 + CUSUM_REFERENCE_LEN {
        cusum_scan(d, sd, r0, i + 1, 0, 0)
    } else {
        let m = reference_mean(d, r0);
        let k = sd / 2;
        let h = 5 * sd;
        let x = d[i] as int;
        let p1 = if pos + x - m - k > 0 { pos + x - m - k } else { 0 };
        let n1 = if neg - x + m - k > 0 { neg - x + m - k } else { 0 };
        if p1 > h || n1 > h {
            let up = if p1 > h { seq![change_point(i, d[i], p1, h)] } else { Seq::empty() };
            let down = if n1 > h { seq![change_point(i, d[i], n1, h)] } else { Seq::empty() };
            up + down + cusum_scan(d, sd, i + 1, i + 1, 0, 0)
        } else {
            cusum_scan(d, sd, r0, i + 1, p1, n1)
        }
    }
}

/// The change points CUSUM flags in a window; nothing for a window shorter
/// than `CUSUM_MIN_LEN` or without spread.
pub open spec fn spec_cusum(data: Seq<i64>) -> Seq<Anomaly> {
    let sd = spec_std_dev(data);
    if data.len() < CUSUM_MIN_LEN || sd == 0 {
        Seq::empty()
    } else {
        cusum_scan(data, sd, 0, 0, 0, 0)
    }
}

/// Every change point lies in the window and carries its sample.
pub open spec fn anomalies_in_window(xs: Seq<Anomaly>, d: Seq<i64>) -> bool {
    forall|i: int| 0 <= i < xs.len() ==> (#[trigger] xs[i]).index < d.len() && xs[i].value == d[xs[i].index as int]
}

proof fn lemma_scan_in_window(d: Seq<i64>, sd: int, r0: int, i: int, pos: int, neg: int)
    requires
        d.len() <= MAX_WINDOW,
        0 <= i,
    ensures
        anomalies_in_window(cusum_scan(d, sd, r0, i, pos, neg), d),
    decreases d.len() - i,
{
    if i < d.len() {
        if i < r0 + CUSUM_REFERENCE_LEN {
            lemma_scan_in_window(d, sd, r0, i + 1, 0, 0);
        } else {
            let m = reference_mean(d, r0);
            let k = sd / 2;
            let h = 5 * sd;
            let x = d[i] as int;
            let p1 = if pos + x - m - k > 0 { pos + x - m - k } else { 0 };
            let n1 = if neg - x + m - k > 0 { neg - x + m - k } else { 0 };
            if p1 > h || n1 > h {
                lemma_scan_in_window(d, sd, i + 1, i + 1, 0, 0);
            } else {
                lemma_scan_in_window(d, sd, r0, i + 1, p1, n1);
            }
        }
    }
}

proof fn lemma_constant_sum(s: Seq<i64>, v: i64)
    requires
        forall|i: int| 0 <= i < s.len() ==> #[trigger] s[i] == v,
    ensures
        seq_sum(s) == s.len() * v,
    decreases s.len(),
{
    if s.len() > 0 {
        let t = s.drop_last();
        assert forall|i: int| 0 <= i < t.len() implies #[trigger] t[i] == v by {
            assert(t[i] == s[i]);
        }
        lemma_constant_sum(t, v);
        assert(s.last() == s[s.len() - 1]);
        assert(t.len() * v + v == s.len() * v) by (nonlinear_arith)
            requires
                t.len() + 1 == s.len(),
        ;
    }
}

/// A constant reference segment has the constant as its mean.
proof fn lemma_constant_reference(d: Seq<i64>, r0: int, v: i64)
    requires
        0 <= r0,
        r0 + CUSUM_REFERENCE_LEN <= d.len(),
        forall|i: int| r0 <= i < r0 + CUSUM_REFERENCE_LEN ==> #[trigger] d[i] == v,
    ensures
        reference_mean(d, r0) == v,
{
    let s = d.subrange(r0, r0 + CUSUM_REFERENCE_LEN);
    assert forall|i: int| 0 <= i < s.len() implies #[trigger] s[i] == v by {
        assert(s[i] == d[r0 + i]);
    }
    lemma_constant_sum(s, v);
    let n = s.len() as int;
    assert(n * v == v * n) by (nonlinear_arith);
    vstd::arithmetic::div_mod::lemma_div_multiples_vanish(v as int, n);
}

/// After the last flag, a stretch at one constant level is quiet.
proof fn lemma_quiet_level(d: Seq<i64>, sd: int, r0: int, j: int, v: i64)
    requires
        sd >= 0,
        0 <= r0 <= j,
        forall|i: int| r0 <= i < d.len() ==> #[trigger] d[i] == v,
    ensures
        cusum_scan(d, sd, r0, j, 0, 0) == Seq::<Anomaly>::empty(),
    decreases d.len() - j,
{
    if j < d.len() {
        if j >= r0 + CUSUM_REFERENCE_LEN {
            lemma_constant_reference(d, r0, v);
            assert(d[j] == v);
        }
        lemma_quiet_level(d, sd, r0, j + 1, v);
    }
}

/// The flat stretch before the step changes nothing.
proof fn lemma_flat_prefix(d: Seq<i64>, sd: int, j: int, c: int, a: i64)
    requires
        sd >= 0,
        CUSUM_REFERENCE_LEN <= c <= d.len(),
        0 <= j <= c,
        forall|i: int| 0 <= i < c ==> #[trigger] d[i] == a,
    ensures
        cusum_scan(d, sd, 0, j, 0, 0) == cusum_scan(d, sd, 0, c, 0, 0),
    decreases c - j,
{
    if j < c {
        if j >= CUSUM_REFERENCE_LEN {
            lemma_constant_reference(d, 0, a);
            assert(d[j] == a);
        }
        lemma_flat_prefix(d, sd, j + 1, c, a);
    }
}

/// After the step, the upper accumulator grows by δ − k per sample until it
/// crosses h, which happens `h / (δ − k)` samples after the step.
proof fn lemma_rising(d: Seq<i64>, sd: int, j: int, c: int, a: i64, delta: int)
    requires
        sd >= 1,
        CUSUM_REFERENCE_LEN <= c < d.len() <= MAX_WINDOW,
        forall|i: int| 0 <= i < c ==> #[trigger] d[i] == a,
        forall|i: int| c <= i < d.len() ==> #[trigger] d[i] == a + delta,
        delta > sd / 2,
        c <= j <= c + (5 * sd) / (delta - sd / 2),
        c + (5 * sd) / (delta - sd / 2) < d.len(),
    ensures
        cusum_scan(d, sd, 0, j, (j - c) * (delta - sd / 2), 0).len() == 1,
        cusum_scan(d, sd, 0, j, (j - c) * (delta - sd / 2), 0)[0].index == c + (5 * sd) / (delta - sd / 2),
        cusum_scan(d, sd, 0, j, (j - c) * (delta - sd / 2), 0)[0].anomaly_type == AnomalyType::ChangePoint,
    decreases c + (5 * sd) / (delta - sd / 2) - j,
{
    let k = sd / 2;
    let h = 5 * sd;
    let q = delta - k;
    let last = c + h / q;
    lemma_constant_reference(d, 0, a);
    assert(d[j] == a + delta);
    let pos = (j - c) * q;
    assert(pos + (a + delta) - a - k == (j - c + 1) * q) by (nonlinear_arith)
        requires
            pos == (j - c) * q,
            q == delta - k,
    ;
    assert((j - c + 1) * q > 0) by (nonlinear_arith)
        requires
            j >= c,
            q > 0,
    ;
    vstd::arithmetic::div_mod::lemma_fundamental_div_mod(h, q);
    if j < last {
        assert((j - c + 1) * q <= h) by (nonlinear_arith)
            requires
                j - c + 1 <= h / q,
                h == q * (h / q) + h % q,
                h % q >= 0,
                q > 0,
        ;
        lemma_rising(d, sd, j + 1, c, a, delta);
        assert(j + 1 - c == j - c + 1);
    } else {
        assert((j - c + 1) * q > h) by (nonlinear_arith)
            requires
                j - c == h / q,
                h == q * (h / q) + h % q,
                h % q < q,
                q > 0,
        ;
        let v = d[j];
        assert forall|i: int| j + 1 <= i < d.len() implies #[trigger] d[i] == v by {}
        lemma_quiet_level(d, sd, j + 1, j + 1, v);
        let r = cusum_scan(d, sd, 0, j, pos, 0);
        assert(r == seq![change_point(j, d[j], (j - c + 1) * q, h)] + Seq::<Anomaly>::empty()
            + Seq::<Anomaly>::empty());
    }
}

/// A single upward step is flagged once. In a window at one constant level
/// up to index `c` (at least a full reference segment) and at that level
/// plus δ from there on, where σ is the window's standard deviation, δ
/// exceeds the slack σ/2 and the rest of the window is long enough for the
/// accumulator to pass h = 5σ, CUSUM reports exactly one change point, at
/// `c + ⌊h / (δ − σ/2)⌋`.
pub proof fn lemma_single_step_flagged_once(d: Seq<i64>, c: int, a: i64, delta: int)
    requires
        CUSUM_MIN_LEN <= d.len() <= MAX_WINDOW,
        CUSUM_REFERENCE_LEN <= c < d.len(),
        forall|i: int| 0 <= i < c ==> #[trigger] d[i] == a,
        forall|i: int| c <= i < d.len() ==> #[trigger] d[i] == a + delta,
        spec_std_dev(d) >= 1,
        delta > spec_std_dev(d) / 2,
        (d.len() - c) * (delta - spec_std_dev(d) / 2) > 5 * spec_std_dev(d),
    ensures
        spec_cusum(d).len() == 1,
        spec_cusum(d)[0].index == c + (5 * spec_std_dev(d)) / (delta - spec_std_dev(d) / 2),
        spec_cusum(d)[0].anomaly_type == AnomalyType::ChangePoint,
{
    let sd = spec_std_dev(d);
    let q = delta - sd / 2;
    let h = 5 * sd;
    vstd::arithmetic::div_mod::lemma_fundamental_div_mod(h, q);
    assert(h / q < d.len() - c) by (nonlinear_arith)
        requires
            (d.len() - c) * q > h,
            h == q * (h / q) + h % q,
            h % q >= 0,
            q > 0,
    ;
    lemma_flat_prefix(d, sd, 0, c, a);
    lemma_rising(d, sd, c, c, a, delta);
    assert((c - c) * q == 0);
}

/// Score of a change point: `c / h` in micro-units, for an accumulator `c`
/// that exceeds `h` by less than the largest deviation.
fn change_score(c: i128, h: i128) -> (r: u64)
    requires
        h >= 5,
        0 <= c <= h + 2 * MAX_SAMPLE,
        h <= 0x10_0000_0000_0000_0000,
    ensures
        r == c * SCALE as int / h as int,
{
    proof {
        let s = SCALE as int;
        let b = 2 * MAX_SAMPLE as int;
        let h = h as int;
        let c = c as int;
        assert(0 <= c * s <= h * s + b * s) by (nonlinear_arith)
            requires
                0 <= c <= h + b,
                s > 0,
        ;
        lemma_div_is_ordered(c * s, h * s + b * s, h);
        lemma_div_pos_is_pos(b * s, h);
        assert((h * s + b * s) / h == s + (b * s) / h) by {
            vstd::arithmetic::div_mod::lemma_hoist_over_denominator(b * s, s, h as nat);
            assert(s * h == h * s) by (nonlinear_arith);
        }
        lemma_div_is_ordered_by_denominator(b * s, 5, h);
        lemma_div_pos_is_pos(c * s, h);
    }
    ((c * (SCALE as i128)) / h) as u64
}

/// Cumulative-sum change-point detection over a window.
pub fn detect_cusum(data: &[i64]) -> (r: Vec<Anomaly>)
    requires
        samples_ok(data@),
    ensures
        r@ == spec_cusum(data@),
        anomalies_in_window(r@, data@),
{
    let n = data.len();
    if n < CUSUM_MIN_LEN {
        return Vec::new();
    }
    let stats = StatisticalAnalyzer::new();
    let sd = stats.std_dev(data);
    if sd == 0 {
        return Vec::new();
    }
    proof {
        lemma_scan_in_window(data@, sd as int, 0, 0, 0, 0);
    }
    let k: i128 = (sd / 2) as i128;
    let h: i128 = 5 * (sd as i128);
    let ghost d = data@;
    let mut out: Vec<Anomaly> = Vec::new();
    let mut r0: usize = 0;
    let mut m: i64 = 0;
    let mut pos: i128 = 0;
    let mut neg: i128 = 0;
    let mut i: usize = 0;
    while i < n
        invariant
            samples_ok(d),
            d == data@,
            n == d.len(),
            n >= CUSUM_MIN_LEN,
            sd >= 1,
            sd == spec_std_dev(d),
            k == sd / 2,
            h == 5 * sd,
            r0 <= i <= n,
            out@ + cusum_scan(d, sd as int, r0 as int, i as int, pos as int, neg as int) == spec_cusum(d),
            i <= r0 + CUSUM_REFERENCE_LEN ==> pos == 0 && neg == 0,
            i > r0 + CUSUM_REFERENCE_LEN ==> m == reference_mean(d, r0 as int) && -MAX_SAMPLE <= m <= MAX_SAMPLE,
            0 <= pos <= h,
            0 <= neg <= h,
        decreases n - i,
    {
        if i < r0 + CUSUM_REFERENCE_LEN {
            i = i + 1;
        } else {
            if i == r0 + CUSUM_REFERENCE_LEN {
                let reference = slice_subrange(data, r0, r0 + CUSUM_REFERENCE_LEN);
                proof {
                    assert forall|j: int| 0 <= j < reference@.len() implies -MAX_SAMPLE <= #[trigger] reference@[j] <= MAX_SAMPLE by {
                        assert(reference@[j] == d[r0 + j]);
                    }
                }
                m = stats.mean(reference);
            }
            let x = data[i] as i128;
            proof {
                assert(-MAX_SAMPLE <= d[i as int] <= MAX_SAMPLE);
            }
            let up = pos + x - m as i128 - k;
            let down = neg - x + m as i128 - k;
            let p1 = if up > 0 { up } else { 0 };
            let n1 = if down > 0 { down } else { 0 };
            let ghost before = out@;
            if p1 > h || n1 > h {
                if p1 > h {
                    let score = change_score(p1, h);
                    let confidence = if score < SCALE { score } else { SCALE };
                    out.push(Anomaly { index: i, value: data[i], score, anomaly_type: AnomalyType::ChangePoint, confidence });
                }
                if n1 > h {
                    let score = change_score(n1, h);
                    let confidence = if score < SCALE { score } else { SCALE };
                    out.push(Anomaly { index: i, value: data[i], score, anomaly_type: AnomalyType::ChangePoint, confidence });
                }
                proof {
                    let rest = cusum_scan(d, sd as int, i as int + 1, i as int + 1, 0, 0);
                    let up_s = if p1 > h { seq![change_point(i as int, d[i as int], p1 as int, h as int)] } else { Seq::<Anomaly>::empty() };
                    let down_s = if n1 > h { seq![change_point(i as int, d[i as int], n1 as int, h as int)] } else { Seq::<Anomaly>::empty() };
                    assert(out@ =~= before + up_s + down_s);
                    assert(before + (up_s + down_s + rest) =~= out@ + rest);
                }
                r0 = i + 1;
                pos = 0;
                neg = 0;
            } else {
                pos = p1;
                neg = n1;
            }
            i = i + 1;
        }
    }
    assert(out@ + Seq::<Anomaly>::empty() =~= out@);
    out
}

/// The ensemble's CUSUM detector, merged with what the other detectors
/// (statistical, isolation forest, local outlier factor) flagged on the same
/// window.
pub fn detect(data: &[i64], other_detectors: &[Anomaly]) -> (r: Vec<Anomaly>)
    requires
        samples_ok(data@),
        anomalies_in_window(other_detectors@, data@),
        data@.len() < STATISTICAL_MIN_LEN ==> other_detectors@.len() == 0,
    ensures
        is_merge_of(r@, other_detectors@ + spec_cusum(data@)),
        anomalies_in_window(r@, data@),
        data@.len() < STATISTICAL_MIN_LEN ==> r@.len() == 0,
{
    let mut all: Vec<Anomaly> = Vec::new();
    let mut i: usize = 0;
    while i < other_detectors.len()
        invariant
            i <= other_detectors@.len(),
            all@ == other_detectors@.subrange(0, i as int),
        decreases other_detectors@.len() - i,
    {
        all.push(other_detectors[i]);
        i = i + 1;
        assert(all@ =~= other_detectors@.subrange(0, i as int));
    }
    let mut cusum = detect_cusum(data);
    let ghost c = cusum@;
    all.append(&mut cusum);
    assert(all@ =~= other_detectors@ + c);
    let r = merge_anomalies(all.as_slice());
    proof {
        let xs = all@;
        assert(anomalies_in_window(xs, data@)) by {
            assert forall|i: int| 0 <= i < xs.len() implies (#[trigger] xs[i]).index < data@.len()
                && xs[i].value == data@[xs[i].index as int] by {
                if i < other_detectors@.len() {
                    assert(xs[i] == other_detectors@[i]);
                } else {
                    assert(xs[i] == c[i - other_detectors@.len()]);
                }
            }
        }
        assert forall|i: int| 0 <= i < r@.len() implies (#[trigger] r@[i]).index < data@.len()
            && r@[i].value == data@[r@[i].index as int] by {
            assert(is_kept_value(xs, r@[i]));
            let k = choose|k: int| is_kept(xs, k) && r@[i] == #[trigger] xs[k];
        }
        if data@.len() < STATISTICAL_MIN_LEN {
            assert(xs.len() == 0);
            if r@.len() > 0 {
                assert(is_kept_value(xs, r@[0]));
            }
        }
    }
    r
}

} // verus!
