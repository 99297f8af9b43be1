//! Evidence fusion: weighted average, sequential Bayesian update and
//! Dempster–Shafer combination over per-sensor anomaly scores.

use vstd::prelude::*;
use vstd::arithmetic::div_mod::{
    lemma_div_by_multiple, lemma_div_is_ordered, lemma_fundamental_div_mod,
    lemma_multiply_divide_le,
};
use vstd::arithmetic::mul::lemma_mul_inequality;

use crate::detection::{
    classify_from_sensors, scores_valid, spec_kind_from_sensors, DetectionType, ScoredReading,
    SensorContribution,
};
use crate::fixed::SCALE;
use crate::sensors::{reliability_table, spec_default_reliability, SensorType, DEFAULT_RELIABILITY};

verus! {

/// The three interchangeable fusion strategies.
#[derive(Debug, Clone, Copy, PartialEq, Eq, Structural)]
pub enum FusionMethod {
    Bayesian,
    DempsterShafer,
    WeightedAverage,
}

/// A Dempster–Shafer mass assignment over {anomaly, normal}, in parts per
/// million: `anomaly` is m({anomaly}), `normal` is m({normal}) and
/// `uncertainty` is m(Θ).
#[derive(Debug, Clone, Copy, PartialEq, Eq, Structural)]
pub struct BeliefMass {
    pub anomaly: u64,
    pub normal: u64,
    pub uncertainty: u64,
}

impl BeliefMass {
    /// The three masses add up to exactly one.
    pub open spec fn is_valid(&self) -> bool {
        self.anomaly + self.normal + self.uncertainty == SCALE
    }

    /// Complete ignorance: all mass on Θ.
    pub fn vacuous() -> (r: BeliefMass)
        ensures
            r == spec_vacuous(),
            r.is_valid(),
    {
        BeliefMass { anomaly: 0, normal: 0, uncertainty: SCALE }
    }

    /// The mass a sensor contributes: its anomaly score splits its weight
    /// between anomaly and normal, and what the weight leaves is uncertainty.
    pub fn from_evidence(score: u64, weight: u64) -> (r: BeliefMass)
        requires
            score <= SCALE,
            weight <= SCALE,
        ensures
            r == spec_mass_from(score, weight),
            r.is_valid(),
    {
        proof {
            lemma_mul_inequality(score as int, SCALE as int, weight as int);
            lemma_multiply_divide_le(score as int * weight as int, SCALE as int, weight as int);
            assert(SCALE as int * weight as int == weight as int * SCALE as int) by (nonlinear_arith);
        }
        let a = score * weight / SCALE;
        BeliefMass { anomaly: a, normal: weight - a, uncertainty: SCALE - weight }
    }
}

pub open spec fn spec_vacuous() -> BeliefMass {
    BeliefMass { anomaly: 0, normal: 0, uncertainty: SCALE }
}

pub open spec fn spec_mass_from(score: u64, weight: u64) -> BeliefMass {
    let a = (score as int * weight as int) / SCALE as int;
    BeliefMass {
        anomaly: a as u64,
        normal: (weight - a) as u64,
        uncertainty: (SCALE - weight) as u64,
    }
}

/// Conflict K between two masses, in units of SCALE².
pub open spec fn spec_conflict(m1: BeliefMass, m2: BeliefMass) -> int {
    m1.anomaly as int * m2.normal as int + m1.normal as int * m2.anomaly as int
}

/// Unnormalized joint support for anomaly, in units of SCALE².
pub open spec fn spec_joint_anomaly(m1: BeliefMass, m2: BeliefMass) -> int {
    m1.anomaly as int * m2.anomaly as int + m1.anomaly as int * m2.uncertainty as int
        + m1.uncertainty as int * m2.anomaly as int
}

/// Unnormalized joint support for normal, in units of SCALE².
pub open spec fn spec_joint_normal(m1: BeliefMass, m2: BeliefMass) -> int {
    m1.normal as int * m2.normal as int + m1.normal as int * m2.uncertainty as int
        + m1.uncertainty as int * m2.normal as int
}

/// Dempster's rule: the joint supports divided by `1 - K`. The rounding
/// remainder is assigned to uncertainty, so the result adds up to exactly
/// one. Total conflict (`K = 1`) leaves complete ignorance.
pub open spec fn spec_combine(m1: BeliefMass, m2: BeliefMass) -> BeliefMass {
    let d = SCALE as int * SCALE as int - spec_conflict(m1, m2);
    if d <= 0 {
        spec_vacuous()
    } else {
        let a = spec_joint_anomaly(m1, m2) * SCALE as int / d;
        let n = spec_joint_normal(m1, m2) * SCALE as int / d;
        BeliefMass { anomaly: a as u64, normal: n as u64, uncertainty: (SCALE - a - n) as u64 }
    }
}

proof fn lemma_floor_add(x: int, y: int, d: int)
    requires
        x >= 0,
        y >= 0,
        d > 0,
    ensures
        x / d + y / d <= (x + y) / d,
{
    lemma_fundamental_div_mod(x, d);
    lemma_fundamental_div_mod(y, d);
    let q = x / d + y / d;
    assert(q >= 0) by {
        vstd::arithmetic::div_mod::lemma_div_pos_is_pos(x, d);
        vstd::arithmetic::div_mod::lemma_div_pos_is_pos(y, d);
    }
    assert(q * d <= x + y) by (nonlinear_arith)
        requires
            x == d * (x / d) + x % d,
            y == d * (y / d) + y % d,
            x % d >= 0,
            y % d >= 0,
            q == x / d + y / d,
    ;
    lemma_div_is_ordered(q * d, x + y, d);
    lemma_div_by_multiple(q, d);
}

/// The two joint supports, the conflict and the ignorance product account
/// for the whole unit square.
proof fn lemma_joint_partition(m1: BeliefMass, m2: BeliefMass)
    requires
        m1.is_valid(),
        m2.is_valid(),
    ensures
        spec_joint_anomaly(m1, m2) + spec_joint_normal(m1, m2) + spec_conflict(m1, m2)
            + m1.uncertainty as int * m2.uncertainty as int == SCALE as int * SCALE as int,
        spec_joint_anomaly(m1, m2) >= 0,
        spec_joint_normal(m1, m2) >= 0,
        m1.uncertainty as int * m2.uncertainty as int >= 0,
{
    let (a1, n1, u1) = (m1.anomaly as int, m1.normal as int, m1.uncertainty as int);
    let (a2, n2, u2) = (m2.anomaly as int, m2.normal as int, m2.uncertainty as int);
    let s = SCALE as int;
    assert((a1 + n1 + u1) * (a2 + n2 + u2) == a1 * a2 + a1 * u2 + u1 * a2 + n1 * n2 + n1 * u2 + u1 * n2
        + a1 * n2 + n1 * a2 + u1 * u2) by (nonlinear_arith);
    assert(s * s == (a1 + n1 + u1) * (a2 + n2 + u2));
    assert(a1 * a2 >= 0 && a1 * u2 >= 0 && u1 * a2 >= 0 && n1 * n2 >= 0 && n1 * u2 >= 0
        && u1 * n2 >= 0 && u1 * u2 >= 0) by (nonlinear_arith)
        requires
            a1 >= 0,
            n1 >= 0,
            u1 >= 0,
            a2 >= 0,
            n2 >= 0,
            u2 >= 0,
    ;
}

/// Dempster's rule preserves a unit total: combining any two masses that
/// each add up to one yields masses that add up to exactly one.
pub proof fn lemma_combine_preserves_unit_mass(m1: BeliefMass, m2: BeliefMass)
    requires
        m1.is_valid(),
        m2.is_valid(),
    ensures
        spec_combine(m1, m2).is_valid(),
        spec_combine(m1, m2).anomaly as int + spec_combine(m1, m2).normal as int <= SCALE as int,
{
    let d = SCALE as int * SCALE as int - spec_conflict(m1, m2);
    if d > 0 {
        lemma_joint_partition(m1, m2);
        let ja = spec_joint_anomaly(m1, m2);
        let jn = spec_joint_normal(m1, m2);
        let s = SCALE as int;
        assert(ja * s >= 0 && jn * s >= 0) by (nonlinear_arith)
            requires
                ja >= 0,
                jn >= 0,
                s > 0,
        ;
        lemma_floor_add(ja * s, jn * s, d);
        assert(ja * s + jn * s <= d * s) by (nonlinear_arith)
            requires
                ja + jn <= d,
                s > 0,
        ;
        lemma_multiply_divide_le(ja * s + jn * s, d, s);
        vstd::arithmetic::div_mod::lemma_div_pos_is_pos(ja * s, d);
        vstd::arithmetic::div_mod::lemma_div_pos_is_pos(jn * s, d);
    }
}

/// Combines two masses by Dempster's rule.
pub fn combine_belief_masses(m1: &BeliefMass, m2: &BeliefMass) -> (r: BeliefMass)
    requires
        m1.is_valid(),
        m2.is_valid(),
    ensures
        r == spec_combine(*m1, *m2),
        r.is_valid(),
{
    proof {
        lemma_combine_preserves_unit_mass(*m1, *m2);
        lemma_joint_partition(*m1, *m2);
    }
    let (a1, n1, u1) = (m1.anomaly as u128, m1.normal as u128, m1.uncertainty as u128);
    let (a2, n2, u2) = (m2.anomaly as u128, m2.normal as u128, m2.uncertainty as u128);
    let s = SCALE as u128;
    let k = a1 * n2 + n1 * a2;
    if k >= s * s {
        return BeliefMass::vacuous();
    }
    let d = s * s - k;
    let ja = a1 * a2 + a1 * u2 + u1 * a2;
    let jn = n1 * n2 + n1 * u2 + u1 * n2;
    let a = ja * s / d;
    let n = jn * s / d;
    let a64 = a as u64;
    let n64 = n as u64;
    BeliefMass { anomaly: a64, normal: n64, uncertainty: SCALE - a64 - n64 }
}

/// The outcome of one fusion pass.
#[derive(Debug, Clone)]
pub struct FusionResult {
    /// Parts per million.
    pub confidence: u64,
    pub detection_type: DetectionType,
    pub sensors: Vec<SensorContribution>,
    /// The combined mass; present for Dempster–Shafer only.
    pub belief_mass: Option<BeliefMass>,
}

/// One step of the sequential Bayesian update: Bayes' rule with the sensor's
/// score as likelihood of anomaly, then a blend with the prior by the
/// sensor's reliability weight. All quantities are parts per million.
pub open spec fn spec_bayes_step(p: int, score: int, weight: int, prior: int) -> int {
    let s = SCALE as int;
    let evidence = score * p + (s - score) * (s - p);
    let post = if evidence > 0 { score * p * s / evidence } else { p };
    (post * weight + prior * (s - weight)) / s
}

proof fn lemma_bayes_step_bounded(p: int, score: int, weight: int, prior: int)
    requires
        0 <= p <= SCALE,
        0 <= score <= SCALE,
        0 <= weight <= SCALE,
        0 <= prior <= SCALE,
    ensures
        0 <= spec_bayes_step(p, score, weight, prior) <= SCALE,
{
    let s = SCALE as int;
    let evidence = score * p + (s - score) * (s - p);
    assert(score * p >= 0 && (s - score) * (s - p) >= 0) by (nonlinear_arith)
        requires
            0 <= p <= s,
            0 <= score <= s,
    ;
    let post = if evidence > 0 { score * p * s / evidence } else { p };
    if evidence > 0 {
        assert(score * p * s <= evidence * s) by (nonlinear_arith)
            requires
                score * p <= evidence,
                s > 0,
        ;
        assert(score * p * s >= 0) by (nonlinear_arith)
            requires
                score * p >= 0,
                s > 0,
        ;
        lemma_multiply_divide_le(score * p * s, evidence, s);
        vstd::arithmetic::div_mod::lemma_div_pos_is_pos(score * p * s, evidence);
    }
    assert(0 <= post <= s);
    assert(0 <= post * weight + prior * (s - weight) <= s * s) by (nonlinear_arith)
        requires
            0 <= post <= s,
            0 <= weight <= s,
            0 <= prior <= s,
    ;
    lemma_multiply_divide_le(post * weight + prior * (s - weight), s, s);
    vstd::arithmetic::div_mod::lemma_div_pos_is_pos(post * weight + prior * (s - weight), s);
}

/// A fusion engine holding the reliability weight of each sensor type.
pub struct FusionEngine {
    weights: Vec<(SensorType, u64)>,
    reading_buffer: Vec<(String, Vec<ScoredReading>)>,
}

/// Readings kept per sensor identity for temporal fusion.
pub const READING_BUFFER_SIZE: usize = 100;

/// The last `READING_BUFFER_SIZE` readings of a sequence.
pub open spec fn keep_last(s: Seq<ScoredReading>) -> Seq<ScoredReading> {
    if s.len() > READING_BUFFER_SIZE {
        s.subrange(s.len() - READING_BUFFER_SIZE, s.len() as int)
    } else {
        s
    }
}

impl FusionEngine {
    /// The reliability weight (parts per million) consulted for a sensor
    /// type: the table's entry, or `DEFAULT_RELIABILITY` where there is none.
    pub closed spec fn weight_of(&self, t: SensorType) -> u64 {
        if exists|i: int| 0 <= i < self.weights@.len() && self.weights@[i].0 == t {
            self.weights@[choose|i: int| 0 <= i < self.weights@.len() && self.weights@[i].0 == t].1
        } else {
            DEFAULT_RELIABILITY
        }
    }

    /// The table names each type at most once and every weight lies in
    /// `[0, 1]`.
    pub closed spec fn wf(&self) -> bool {
        &&& forall|i: int, j: int|
            0 <= i < j < self.weights@.len() ==> self.weights@[i].0 != self.weights@[j].0
        &&& forall|i: int| 0 <= i < self.weights@.len() ==> self.weights@[i].1 <= SCALE
        &&& forall|i: int, j: int|
            0 <= i < j < self.reading_buffer@.len() ==> self.reading_buffer@[i].0@ != self.reading_buffer@[j].0@
        &&& forall|i: int| 0 <= i < self.reading_buffer@.len() ==> (#[trigger] self.reading_buffer@[i]).1@.len() <= READING_BUFFER_SIZE
    }

    /// The readings buffered for a sensor identity.
    pub closed spec fn buffered(&self, id: Seq<char>) -> Seq<ScoredReading> {
        if exists|j: int| 0 <= j < self.reading_buffer@.len() && self.reading_buffer@[j].0@ == id {
            self.reading_buffer@[choose|j: int| 0 <= j < self.reading_buffer@.len() && self.reading_buffer@[j].0@ == id].1@
        } else {
            Seq::empty()
        }
    }

    proof fn lemma_buffer_entry(&self, j: int)
        requires
            self.wf(),
            0 <= j < self.reading_buffer@.len(),
        ensures
            self.buffered(self.reading_buffer@[j].0@) == self.reading_buffer@[j].1@,
    {
        let id = self.reading_buffer@[j].0@;
        let k = choose|k: int| 0 <= k < self.reading_buffer@.len() && self.reading_buffer@[k].0@ == id;
        assert(0 <= k < self.reading_buffer@.len() && self.reading_buffer@[k].0@ == id);
        if k < j {
            assert(self.reading_buffer@[k].0@ != self.reading_buffer@[j].0@);
        } else if j < k {
            assert(self.reading_buffer@[j].0@ != self.reading_buffer@[k].0@);
        }
    }

    /// The readings buffered for a sensor identity, oldest first.
    pub fn buffered_readings(&self, id: &String) -> (r: &[ScoredReading])
        requires
            self.wf(),
        ensures
            r@ == self.buffered(id@),
    {
        let mut j: usize = 0;
        while j < self.reading_buffer.len()
            invariant
                self.wf(),
                j <= self.reading_buffer@.len(),
                forall|i: int| 0 <= i < j ==> self.reading_buffer@[i].0@ != id@,
            decreases self.reading_buffer@.len() - j,
        {
            if self.reading_buffer[j].0 == *id {
                proof {
                    self.lemma_buffer_entry(j as int);
                }
                return self.reading_buffer[j].1.as_slice();
            }
            j = j + 1;
        }
        let none: &[ScoredReading] = &[];
        assert(none@ =~= Seq::<ScoredReading>::empty());
        none
    }

    /// Adds a reading to its sensor's buffer, which keeps the latest
    /// `READING_BUFFER_SIZE` readings; other buffers and the weights are
    /// unchanged.
    pub fn add_reading(&mut self, reading: ScoredReading)
        requires
            old(self).wf(),
        ensures
            final(self).wf(),
            final(self).buffered(reading.sensor_id@) == keep_last(old(self).buffered(reading.sensor_id@).push(reading)),
            forall|id: Seq<char>| id != reading.sensor_id@ ==> #[trigger] final(self).buffered(id) == old(self).buffered(id),
            forall|t: SensorType| #[trigger] final(self).weight_of(t) == old(self).weight_of(t),
    {
        let ghost before = self.reading_buffer@;
        let mut j: usize = 0;
        while j < self.reading_buffer.len() && self.reading_buffer[j].0 != reading.sensor_id
            invariant
                self.reading_buffer@ == before,
                j <= before.len(),
                forall|i: int| 0 <= i < j ==> before[i].0@ != reading.sensor_id@,
            decreases before.len() - j,
        {
            j = j + 1;
        }
        let ghost id = reading.sensor_id@;
        let ghost old_list = old(self).buffered(id);
        if j < self.reading_buffer.len() {
            proof {
                old(self).lemma_buffer_entry(j as int);
            }
            let (name, mut entries) = self.reading_buffer.remove(j);
            entries.push(reading);
            if entries.len() > READING_BUFFER_SIZE {
                entries.remove(0);
            }
            proof {
                let pushed = old_list.push(reading);
                assert(entries@ =~= keep_last(pushed));
            }
            self.reading_buffer.insert(j, (name, entries));
            proof {
                assert(self.reading_buffer@ =~= before.update(j as int, self.reading_buffer@[j as int]));
                self.lemma_buffer_entry(j as int);
                assert forall|other: Seq<char>| other != id implies #[trigger] self.buffered(other) == old(self).buffered(other) by {
                    if exists|k: int| 0 <= k < before.len() && before[k].0@ == other {
                        let k = choose|k: int| 0 <= k < before.len() && before[k].0@ == other;
                        assert(k != j);
                        old(self).lemma_buffer_entry(k);
                        self.lemma_buffer_entry(k);
                    } else {
                        if exists|k: int| 0 <= k < self.reading_buffer@.len() && self.reading_buffer@[k].0@ == other {
                            let k = choose|k: int| 0 <= k < self.reading_buffer@.len() && self.reading_buffer@[k].0@ == other;
                            assert(k != j);
                            assert(before[k] == self.reading_buffer@[k]);
                        }
                    }
                }
            }
        } else {
            let name = reading.sensor_id.clone();
            let mut entries: Vec<ScoredReading> = Vec::new();
            entries.push(reading);
            proof {
                assert(old_list =~= Seq::<ScoredReading>::empty());
                assert(entries@ =~= keep_last(old_list.push(reading)));
            }
            self.reading_buffer.push((name, entries));
            proof {
                let n = before.len() as int;
                self.lemma_buffer_entry(n);
                assert forall|other: Seq<char>| other != id implies #[trigger] self.buffered(other) == old(self).buffered(other) by {
                    if exists|k: int| 0 <= k < before.len() && before[k].0@ == other {
                        let k = choose|k: int| 0 <= k < before.len() && before[k].0@ == other;
                        old(self).lemma_buffer_entry(k);
                        assert(self.reading_buffer@[k] == before[k]);
                        self.lemma_buffer_entry(k);
                    } else {
                        if exists|k: int| 0 <= k < self.reading_buffer@.len() && self.reading_buffer@[k].0@ == other {
                            let k = choose|k: int| 0 <= k < self.reading_buffer@.len() && self.reading_buffer@[k].0@ == other;
                            assert(k < n);
                            assert(before[k] == self.reading_buffer@[k]);
                        }
                    }
                }
            }
        }
    }

    proof fn lemma_entry_weight(&self, i: int)
        requires
            self.wf(),
            0 <= i < self.weights@.len(),
        ensures
            self.weight_of(self.weights@[i].0) == self.weights@[i].1,
    {
        let t = self.weights@[i].0;
        let j = choose|j: int| 0 <= j < self.weights@.len() && self.weights@[j].0 == t;
        assert(0 <= j < self.weights@.len() && self.weights@[j].0 == t);
        if i < j {
            assert(self.weights@[i].0 != self.weights@[j].0);
        } else if j < i {
            assert(self.weights@[j].0 != self.weights@[i].0);
        }
    }

    /// Every weight the engine consults lies in `[0, 1]`.
    pub proof fn lemma_weight_bounded(&self, t: SensorType)
        requires
            self.wf(),
        ensures
            self.weight_of(t) <= SCALE,
    {
        if exists|i: int| 0 <= i < self.weights@.len() && self.weights@[i].0 == t {
            let j = choose|j: int| 0 <= j < self.weights@.len() && self.weights@[j].0 == t;
            assert(self.weights@[j].1 <= SCALE);
        }
    }

    /// An engine with the fixed reliability table.
    pub fn new() -> (r: FusionEngine)
        ensures
            r.wf(),
            forall|id: Seq<char>| #[trigger] r.buffered(id) == Seq::<ScoredReading>::empty(),
            forall|t: SensorType| #[trigger] r.weight_of(t) == match spec_default_reliability(t) {
                Some(w) => w,
                None => DEFAULT_RELIABILITY,
            },
    {
        let weights = reliability_table();
        let r = FusionEngine { weights, reading_buffer: Vec::new() };
        assert forall|i: int| 0 <= i < r.weights@.len() implies r.weights@[i].1 <= SCALE by {
            assert(spec_default_reliability(r.weights@[i].0) == Some(r.weights@[i].1));
        }
        assert forall|t: SensorType| #[trigger] r.weight_of(t) == match spec_default_reliability(t) {
            Some(w) => w,
            None => DEFAULT_RELIABILITY,
        } by {
            if exists|i: int| 0 <= i < r.weights@.len() && r.weights@[i].0 == t {
                let j = choose|j: int| 0 <= j < r.weights@.len() && r.weights@[j].0 == t;
                assert(spec_default_reliability(r.weights@[j].0) == Some(r.weights@[j].1));
            } else {
                if spec_default_reliability(t) is Some {
                    let i = choose|i: int| 0 <= i < r.weights@.len() && r.weights@[i].0 == t;
                    assert(false);
                }
            }
        }
        r
    }

    /// The reliability weight consulted for a sensor type.
    pub fn sensor_weight(&self, t: SensorType) -> (r: u64)
        requires
            self.wf(),
        ensures
            r == self.weight_of(t),
            r <= SCALE,
    {
        proof {
            self.lemma_weight_bounded(t);
        }
        let mut i: usize = 0;
        while i < self.weights.len()
            invariant
                self.wf(),
                i <= self.weights@.len(),
                forall|j: int| 0 <= j < i ==> self.weights@[j].0 != t,
            decreases self.weights@.len() - i,
        {
            if self.weights[i].0 == t {
                proof {
                    self.lemma_entry_weight(i as int);
                }
                return self.weights[i].1;
            }
            i = i + 1;
        }
        DEFAULT_RELIABILITY
    }

    /// Overrides the weight of one sensor type, clamped to `[0, 1]`.
    pub fn set_sensor_weight(&mut self, sensor_type: SensorType, weight: u64)
        requires
            old(self).wf(),
        ensures
            final(self).wf(),
            final(self).weight_of(sensor_type) == if weight <= SCALE { weight } else { SCALE },
            forall|t: SensorType| t != sensor_type ==> #[trigger] final(self).weight_of(t) == old(self).weight_of(t),
    {
        let w = if weight <= SCALE { weight } else { SCALE };
        let ghost before = self.weights@;
        let mut i: usize = 0;
        while i < self.weights.len()
            invariant
                self.wf(),
                old(self).wf(),
                i <= self.weights@.len(),
                self.weights@ == before,
                before == old(self).weights@,
                w == if weight <= SCALE { weight } else { SCALE },
                forall|j: int| 0 <= j < i ==> self.weights@[j].0 != sensor_type,
            decreases self.weights@.len() - i,
        {
            if self.weights[i].0 == sensor_type {
                self.weights.set(i, (sensor_type, w));
                proof {
                    assert(w <= SCALE);
                    assert(self.weights@ == before.update(i as int, (sensor_type, w)));
                    assert forall|j: int| 0 <= j < self.weights@.len() implies self.weights@[j].1 <= SCALE by {
                        if j != i {
                            assert(self.weights@[j] == before[j]);
                        } else {
                            assert(self.weights@[j] == (sensor_type, w));
                        }
                    }
                    assert forall|j: int, k: int|
                        0 <= j < k < self.weights@.len() implies self.weights@[j].0 != self.weights@[k].0 by {
                        assert(before[j].0 != before[k].0);
                    }
                    self.lemma_entry_weight(i as int);
                    assert forall|t: SensorType| t != sensor_type implies #[trigger] self.weight_of(t) == old(self).weight_of(t) by {
                        if exists|j: int| 0 <= j < before.len() && before[j].0 == t {
                            let j = choose|j: int| 0 <= j < before.len() && before[j].0 == t;
                            assert(self.weights@[j].0 == t);
                            old(self).lemma_entry_weight(j);
                            self.lemma_entry_weight(j);
                        } else {
                            if exists|j: int| 0 <= j < self.weights@.len() && self.weights@[j].0 == t {
                                let j = choose|j: int| 0 <= j < self.weights@.len() && self.weights@[j].0 == t;
                                assert(before[j].0 == t);
                            }
                        }
                    }
                }
                return;
            }
            i = i + 1;
        }
        self.weights.push((sensor_type, w));
        proof {
            let n = before.len() as int;
            assert(self.weights@ == before.push((sensor_type, w)));
            self.lemma_entry_weight(n);
            assert forall|t: SensorType| t != sensor_type implies #[trigger] self.weight_of(t) == old(self).weight_of(t) by {
                if exists|j: int| 0 <= j < before.len() && before[j].0 == t {
                    let j = choose|j: int| 0 <= j < before.len() && before[j].0 == t;
                    assert(self.weights@[j].0 == t);
                    old(self).lemma_entry_weight(j);
                    self.lemma_entry_weight(j);
                } else {
                    if exists|j: int| 0 <= j < self.weights@.len() && self.weights@[j].0 == t {
                        let j = choose|j: int| 0 <= j < self.weights@.len() && self.weights@[j].0 == t;
                        assert(j < n);
                        assert(before[j].0 == t);
                    }
                }
            }
        }
    }

    /// The current table of overridden and fixed weights; every type it does
    /// not name has the default weight.
    pub fn get_sensor_weights(&self) -> (r: &[(SensorType, u64)])
        requires
            self.wf(),
        ensures
            forall|i: int| 0 <= i < r@.len() ==> self.weight_of(r@[i].0) == #[trigger] r@[i].1,
            forall|t: SensorType|
                (forall|i: int| 0 <= i < r@.len() ==> r@[i].0 != t) ==> self.weight_of(t)
                    == DEFAULT_RELIABILITY,
    {
        proof {
            assert forall|i: int| 0 <= i < self.weights@.len() implies self.weight_of(self.weights@[i].0)
                == #[trigger] self.weights@[i].1 by {
                self.lemma_entry_weight(i);
            }
        }
        self.weights.as_slice()
    }

    /// The contribution record a reading yields under this engine.
    pub open spec fn contribution_of(&self, c: SensorContribution, r: ScoredReading) -> bool {
        &&& c.sensor_id@ == r.sensor_id@
        &&& c.sensor_type == r.sensor_type
        &&& c.weight == self.weight_of(r.sensor_type)
        &&& c.reading_value == r.reading_value
        &&& c.anomaly_score == r.anomaly_score
    }

    /// The contributions list mirrors the batch one for one.
    pub open spec fn contributions_of(&self, cs: Seq<SensorContribution>, rs: Seq<ScoredReading>) -> bool {
        &&& cs.len() == rs.len()
        &&& forall|i: int| 0 <= i < rs.len() ==> self.contribution_of(#[trigger] cs[i], rs[i])
    }

    fn contributions(&self, readings: &[ScoredReading]) -> (r: Vec<SensorContribution>)
        requires
            self.wf(),
        ensures
            self.contributions_of(r@, readings@),
    {
        let mut out: Vec<SensorContribution> = Vec::new();
        let mut i: usize = 0;
        while i < readings.len()
            invariant
                self.wf(),
                i <= readings@.len(),
                out@.len() == i,
                forall|j: int| 0 <= j < i ==> self.contribution_of(#[trigger] out@[j], readings@[j]),
            decreases readings@.len() - i,
        {
            let rd = &readings[i];
            let weight = self.sensor_weight(rd.sensor_type);
            out.push(SensorContribution {
                sensor_id: rd.sensor_id.clone(),
                sensor_type: rd.sensor_type,
                weight,
                reading_value: rd.reading_value,
                anomaly_score: rd.anomaly_score,
            });
            i = i + 1;
        }
        out
    }

    /// Σ score·weight over the batch, in units of SCALE².
    pub open spec fn weighted_score_sum(&self, rs: Seq<ScoredReading>) -> int
        decreases rs.len(),
    {
        if rs.len() == 0 {
            0
        } else {
            self.weighted_score_sum(rs.drop_last()) + rs.last().anomaly_score as int
                * self.weight_of(rs.last().sensor_type) as int
        }
    }

    /// Σ weight over the batch.
    pub open spec fn weight_sum(&self, rs: Seq<ScoredReading>) -> int
        decreases rs.len(),
    {
        if rs.len() == 0 {
            0
        } else {
            self.weight_sum(rs.drop_last()) + self.weight_of(rs.last().sensor_type) as int
        }
    }

    /// Σ(score·weight) / Σ(weight), or zero when the weights sum to zero.
    pub open spec fn spec_weighted_confidence(&self, rs: Seq<ScoredReading>) -> int {
        if self.weight_sum(rs) > 0 {
            self.weighted_score_sum(rs) / self.weight_sum(rs)
        } else {
            0
        }
    }

    proof fn lemma_weighted_sums_bounded(&self, rs: Seq<ScoredReading>)
        requires
            self.wf(),
            scores_valid(rs),
        ensures
            0 <= self.weighted_score_sum(rs) <= self.weight_sum(rs) * SCALE,
            0 <= self.weight_sum(rs) <= rs.len() * SCALE,
        decreases rs.len(),
    {
        if rs.len() > 0 {
            let init = rs.drop_last();
            assert(scores_valid(init)) by {
                assert forall|i: int| 0 <= i < init.len() implies init[i].anomaly_score <= SCALE by {
                    assert(init[i] == rs[i]);
                }
            }
            self.lemma_weighted_sums_bounded(init);
            self.lemma_weight_bounded(rs.last().sensor_type);
            let sc = rs.last().anomaly_score as int;
            let w = self.weight_of(rs.last().sensor_type) as int;
            assert(0 <= sc * w <= w * SCALE) by (nonlinear_arith)
                requires
                    0 <= sc <= SCALE,
                    0 <= w,
            ;
            assert(self.weight_sum(init) * SCALE + w * SCALE == (self.weight_sum(init) + w) * SCALE)
                by (nonlinear_arith);
        }
    }

    /// Reliability-weighted average of the anomaly scores.
    pub fn weighted_fusion(&self, readings: &[ScoredReading]) -> (r: FusionResult)
        requires
            self.wf(),
            scores_valid(readings@),
        ensures
            self.contributions_of(r.sensors@, readings@),
            r.detection_type == spec_kind_from_sensors(r.sensors@),
            r.confidence == self.spec_weighted_confidence(readings@),
            r.confidence <= SCALE,
            r.belief_mass is None,
    {
        let sensors = self.contributions(readings);
        let mut num: u128 = 0;
        let mut den: u128 = 0;
        let mut i: usize = 0;
        while i < readings.len()
            invariant
                self.wf(),
                scores_valid(readings@),
                i <= readings@.len(),
                num == self.weighted_score_sum(readings@.subrange(0, i as int)),
                den == self.weight_sum(readings@.subrange(0, i as int)),
            decreases readings@.len() - i,
        {
            proof {
                let pre = readings@.subrange(0, i as int);
                let next = readings@.subrange(0, i as int + 1);
                assert(next.drop_last() =~= pre);
                assert(scores_valid(pre)) by {
                    assert forall|j: int| 0 <= j < pre.len() implies pre[j].anomaly_score <= SCALE by {
                        assert(pre[j] == readings@[j]);
                    }
                }
                self.lemma_weighted_sums_bounded(pre);
                assert(i < usize::MAX);
                assert(self.weight_sum(pre) * SCALE <= i as int * SCALE * SCALE) by (nonlinear_arith)
                    requires
                        self.weight_sum(pre) <= i as int * SCALE,
                ;
                assert(i as int * SCALE * SCALE <= usize::MAX as int * SCALE * SCALE) by (nonlinear_arith)
                    requires
                        i < usize::MAX,
                ;
            }
            let w = self.sensor_weight(readings[i].sensor_type);
            let sc = readings[i].anomaly_score;
            proof {
                assert(sc as int * w as int <= SCALE * SCALE) by (nonlinear_arith)
                    requires
                        sc <= SCALE,
                        w <= SCALE,
                ;
            }
            num = num + (sc as u128) * (w as u128);
            den = den + w as u128;
            i = i + 1;
        }
        assert(readings@.subrange(0, readings@.len() as int) =~= readings@);
        proof {
            self.lemma_weighted_sums_bounded(readings@);
        }
        let confidence: u64 = if den > 0 {
            proof {
                lemma_multiply_divide_le(num as int, den as int, SCALE as int);
            }
            (num / den) as u64
        } else {
            0
        };
        let detection_type = classify_from_sensors(sensors.as_slice());
        FusionResult { confidence, detection_type, sensors, belief_mass: None }
    }

    /// The posterior after updating `prior` sequentially with every reading
    /// of the batch.
    pub open spec fn spec_bayes_posterior(&self, rs: Seq<ScoredReading>, prior: int) -> int
        decreases rs.len(),
    {
        if rs.len() == 0 {
            prior
        } else {
            spec_bayes_step(
                self.spec_bayes_posterior(rs.drop_last(), prior),
                rs.last().anomaly_score as int,
                self.weight_of(rs.last().sensor_type) as int,
                prior,
            )
        }
    }

    /// Bayesian confidence of a batch: zero for an empty batch, the posterior
    /// otherwise.
    pub open spec fn spec_bayes_confidence(&self, rs: Seq<ScoredReading>, prior: int) -> int {
        if rs.len() == 0 {
            0
        } else {
            self.spec_bayes_posterior(rs, prior)
        }
    }

    proof fn lemma_bayes_bounded(&self, rs: Seq<ScoredReading>, prior: int)
        requires
            self.wf(),
            scores_valid(rs),
            0 <= prior <= SCALE,
        ensures
            0 <= self.spec_bayes_posterior(rs, prior) <= SCALE,
        decreases rs.len(),
    {
        if rs.len() > 0 {
            let init = rs.drop_last();
            assert(scores_valid(init)) by {
                assert forall|i: int| 0 <= i < init.len() implies init[i].anomaly_score <= SCALE by {
                    assert(init[i] == rs[i]);
                }
            }
            self.lemma_bayes_bounded(init, prior);
            self.lemma_weight_bounded(rs.last().sensor_type);
            lemma_bayes_step_bounded(
                self.spec_bayes_posterior(init, prior),
                rs.last().anomaly_score as int,
                self.weight_of(rs.last().sensor_type) as int,
                prior,
            );
        }
    }

    /// Sequential Bayesian update of `prior_anomaly`, one reading at a time,
    /// each update pulled back toward the prior by the sensor's unreliability.
    pub fn bayesian_fusion(&self, readings: &[ScoredReading], prior_anomaly: u64) -> (r: FusionResult)
        requires
            self.wf(),
            scores_valid(readings@),
            prior_anomaly <= SCALE,
        ensures
            self.contributions_of(r.sensors@, readings@),
            r.detection_type == spec_kind_from_sensors(r.sensors@),
            r.confidence == self.spec_bayes_confidence(readings@, prior_anomaly as int),
            r.confidence <= SCALE,
            r.belief_mass is None,
    {
        let sensors = self.contributions(readings);
        if readings.len() == 0 {
            return FusionResult {
                confidence: 0,
                detection_type: DetectionType::Unknown,
                sensors,
                belief_mass: None,
            };
        }
        let s: u128 = SCALE as u128;
        let prior = prior_anomaly as u128;
        let mut posterior: u128 = prior;
        let mut i: usize = 0;
        while i < readings.len()
            invariant
                self.wf(),
                scores_valid(readings@),
                prior_anomaly <= SCALE,
                s == SCALE as u128,
                prior == prior_anomaly as u128,
                i <= readings@.len(),
                posterior == self.spec_bayes_posterior(readings@.subrange(0, i as int), prior as int),
                posterior <= SCALE,
            decreases readings@.len() - i,
        {
            proof {
                let pre = readings@.subrange(0, i as int);
                let next = readings@.subrange(0, i as int + 1);
                assert(next.drop_last() =~= pre);
                assert(scores_valid(next)) by {
                    assert forall|j: int| 0 <= j < next.len() implies next[j].anomaly_score <= SCALE by {
                        assert(next[j] == readings@[j]);
                    }
                }
                self.lemma_bayes_bounded(next, prior as int);
            }
            let w = self.sensor_weight(readings[i].sensor_type) as u128;
            let sc = readings[i].anomaly_score as u128;
            proof {
                assert(sc * posterior <= s * s && (s - sc) * (s - posterior) <= s * s
                    && sc * posterior * s <= s * s * s) by (nonlinear_arith)
                    requires
                        sc <= s,
                        posterior <= s,
                ;
                assert(posterior * w <= s * s && prior * (s - w) <= s * s) by (nonlinear_arith)
                    requires
                        posterior <= s,
                        w <= s,
                        prior <= s,
                ;
            }
            let evidence = sc * posterior + (s - sc) * (s - posterior);
            let post = if evidence > 0 {
                sc * posterior * s / evidence
            } else {
                posterior
            };
            proof {
                lemma_bayes_step_bounded(posterior as int, sc as int, w as int, prior as int);
                assert(post <= s) by {
                    if evidence > 0 {
                        assert(sc * posterior * s <= evidence * s) by (nonlinear_arith)
                            requires
                                sc * posterior <= evidence,
                        ;
                        lemma_multiply_divide_le((sc * posterior * s) as int, evidence as int, s as int);
                    }
                }
                assert(post * w <= s * s) by (nonlinear_arith)
                    requires
                        post <= s,
                        w <= s,
                ;
            }
            posterior = (post * w + prior * (s - w)) / s;
            i = i + 1;
        }
        assert(readings@.subrange(0, readings@.len() as int) =~= readings@);
        let detection_type = classify_from_sensors(sensors.as_slice());
        FusionResult { confidence: posterior as u64, detection_type, sensors, belief_mass: None }
    }

    /// The mass obtained by combining, from complete ignorance, the mass of
    /// every reading of the batch in order.
    pub open spec fn spec_ds_mass(&self, rs: Seq<ScoredReading>) -> BeliefMass
        decreases rs.len(),
    {
        if rs.len() == 0 {
            spec_vacuous()
        } else {
            spec_combine(
                self.spec_ds_mass(rs.drop_last()),
                spec_mass_from(rs.last().anomaly_score, self.weight_of(rs.last().sensor_type)),
            )
        }
    }

    proof fn lemma_ds_mass_valid(&self, rs: Seq<ScoredReading>)
        requires
            self.wf(),
            scores_valid(rs),
        ensures
            self.spec_ds_mass(rs).is_valid(),
        decreases rs.len(),
    {
        if rs.len() > 0 {
            let init = rs.drop_last();
            assert(scores_valid(init)) by {
                assert forall|i: int| 0 <= i < init.len() implies init[i].anomaly_score <= SCALE by {
                    assert(init[i] == rs[i]);
                }
            }
            self.lemma_ds_mass_valid(init);
            self.lemma_weight_bounded(rs.last().sensor_type);
            let m = spec_mass_from(rs.last().anomaly_score, self.weight_of(rs.last().sensor_type));
            let sc = rs.last().anomaly_score as int;
            let w = self.weight_of(rs.last().sensor_type) as int;
            assert(sc * w <= SCALE * w) by (nonlinear_arith)
                requires
                    0 <= sc <= SCALE,
                    0 <= w,
            ;
            assert(SCALE * w == w * SCALE) by (nonlinear_arith);
            lemma_multiply_divide_le(sc * w, SCALE as int, w);
            vstd::arithmetic::div_mod::lemma_div_pos_is_pos(sc * w, SCALE as int);
            assert(m.is_valid());
            lemma_combine_preserves_unit_mass(self.spec_ds_mass(init), m);
        }
    }

    /// Dempster–Shafer confidence of a batch: `anomaly / (anomaly + normal)`
    /// of the combined mass, zero when both are zero or the batch is empty.
    pub open spec fn spec_ds_confidence(&self, rs: Seq<ScoredReading>) -> int {
        let m = self.spec_ds_mass(rs);
        if rs.len() == 0 || m.anomaly + m.normal == 0 {
            0
        } else {
            m.anomaly as int * SCALE as int / (m.anomaly as int + m.normal as int)
        }
    }

    /// Dempster–Shafer combination of the masses every reading contributes.
    pub fn dempster_shafer_fusion(&self, readings: &[ScoredReading]) -> (r: FusionResult)
        requires
            self.wf(),
            scores_valid(readings@),
        ensures
            self.contributions_of(r.sensors@, readings@),
            r.detection_type == spec_kind_from_sensors(r.sensors@),
            r.confidence == self.spec_ds_confidence(readings@),
            r.confidence <= SCALE,
            readings@.len() == 0 ==> r.belief_mass is None,
            readings@.len() > 0 ==> r.belief_mass == Some(self.spec_ds_mass(readings@)),
            r.belief_mass matches Some(m) ==> m.is_valid(),
    {
        let sensors = self.contributions(readings);
        if readings.len() == 0 {
            return FusionResult {
                confidence: 0,
                detection_type: DetectionType::Unknown,
                sensors,
                belief_mass: None,
            };
        }
        let mut combined = BeliefMass::vacuous();
        let mut i: usize = 0;
        while i < readings.len()
            invariant
                self.wf(),
                scores_valid(readings@),
                i <= readings@.len(),
                combined == self.spec_ds_mass(readings@.subrange(0, i as int)),
                combined.is_valid(),
            decreases readings@.len() - i,
        {
            proof {
                let pre = readings@.subrange(0, i as int);
                let next = readings@.subrange(0, i as int + 1);
                assert(next.drop_last() =~= pre);
                assert(next.last() == readings@[i as int]);
            }
            let w = self.sensor_weight(readings[i].sensor_type);
            let mass = BeliefMass::from_evidence(readings[i].anomaly_score, w);
            combined = combine_belief_masses(&combined, &mass);
            i = i + 1;
        }
        assert(readings@.subrange(0, readings@.len() as int) =~= readings@);
        let total = combined.anomaly + combined.normal;
        let confidence: u64 = if total == 0 {
            0
        } else {
            proof {
                assert(combined.anomaly as int * SCALE as int <= total as int * SCALE as int) by (nonlinear_arith)
                    requires
                        combined.anomaly <= total,
                ;
                lemma_multiply_divide_le(combined.anomaly as int * SCALE as int, total as int, SCALE as int);
            }
            ((combined.anomaly as u128 * SCALE as u128) / total as u128) as u64
        };
        let detection_type = classify_from_sensors(sensors.as_slice());
        FusionResult { confidence, detection_type, sensors, belief_mass: Some(combined) }
    }

    /// The confidence the given strategy assigns to a batch.
    pub open spec fn spec_fused_confidence(
        &self,
        method: FusionMethod,
        rs: Seq<ScoredReading>,
        prior: int,
    ) -> int {
        match method {
            FusionMethod::Bayesian => self.spec_bayes_confidence(rs, prior),
            FusionMethod::DempsterShafer => self.spec_ds_confidence(rs),
            FusionMethod::WeightedAverage => self.spec_weighted_confidence(rs),
        }
    }

    /// Runs the chosen strategy; `prior_anomaly` is used by the Bayesian one.
    pub fn fuse(&self, method: FusionMethod, readings: &[ScoredReading], prior_anomaly: u64) -> (r: FusionResult)
        requires
            self.wf(),
            scores_valid(readings@),
            prior_anomaly <= SCALE,
        ensures
            self.contributions_of(r.sensors@, readings@),
            r.detection_type == spec_kind_from_sensors(r.sensors@),
            r.confidence == self.spec_fused_confidence(method, readings@, prior_anomaly as int),
            r.confidence <= SCALE,
    {
        match method {
            FusionMethod::Bayesian => self.bayesian_fusion(readings, prior_anomaly),
            FusionMethod::DempsterShafer => self.dempster_shafer_fusion(readings),
            FusionMethod::WeightedAverage => self.weighted_fusion(readings),
        }
    }

    /// Fusion confidence stays in `[0, 1]`: for every batch whose scores lie in
    /// `[0, 1]`, every prior in `[0, 1]` and every strategy, with all weights
    /// in `[0, 1]` (which the engine keeps), the fused confidence lies in
    /// `[0, 1]`.
    pub proof fn lemma_confidence_in_unit_range(
        &self,
        method: FusionMethod,
        rs: Seq<ScoredReading>,
        prior: int,
    )
        requires
            self.wf(),
            scores_valid(rs),
            0 <= prior <= SCALE,
        ensures
            0 <= self.spec_fused_confidence(method, rs, prior) <= SCALE,
    {
        match method {
            FusionMethod::Bayesian => {
                self.lemma_bayes_bounded(rs, prior);
            },
            FusionMethod::DempsterShafer => {
                self.lemma_ds_mass_valid(rs);
                let m = self.spec_ds_mass(rs);
                if rs.len() > 0 && m.anomaly + m.normal != 0 {
                    let t = m.anomaly as int + m.normal as int;
                    assert(m.anomaly as int * SCALE as int <= t * SCALE as int) by (nonlinear_arith)
                        requires
                            m.anomaly as int <= t,
                    ;
                    lemma_multiply_divide_le(m.anomaly as int * SCALE as int, t, SCALE as int);
                    vstd::arithmetic::div_mod::lemma_div_pos_is_pos(m.anomaly as int * SCALE as int, t);
                }
            },
            FusionMethod::WeightedAverage => {
                self.lemma_weighted_sums_bounded(rs);
                if self.weight_sum(rs) > 0 {
                    lemma_multiply_divide_le(self.weighted_score_sum(rs), self.weight_sum(rs), SCALE as int);
                    vstd::arithmetic::div_mod::lemma_div_pos_is_pos(self.weighted_score_sum(rs), self.weight_sum(rs));
                }
            },
        }
    }

    /// A single reliable reading is fused to its own score by the weighted
    /// average: with a positive weight, the confidence equals the reading's
    /// anomaly score (so a score above one half gives a confidence above one
    /// half).
    pub proof fn lemma_single_reading_weighted(&self, r: ScoredReading)
        requires
            self.wf(),
            r.anomaly_score <= SCALE,
            self.weight_of(r.sensor_type) > 0,
        ensures
            self.spec_weighted_confidence(seq![r]) == r.anomaly_score,
    {
        let rs = seq![r];
        assert(rs.drop_last() =~= Seq::<ScoredReading>::empty());
        assert(rs.last() == r);
        let w = self.weight_of(r.sensor_type) as int;
        assert(self.weighted_score_sum(Seq::<ScoredReading>::empty()) == 0);
        assert(self.weight_sum(Seq::<ScoredReading>::empty()) == 0);
        assert(self.weighted_score_sum(rs) == r.anomaly_score as int * w);
        assert(self.weight_sum(rs) == w);
        lemma_div_by_multiple(r.anomaly_score as int, w);
    }
}

} // verus!
