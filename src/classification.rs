//! Heuristic mapping of a detection onto five semantic categories.

use vstd::prelude::*;

use crate::detection::{Detection, DetectionType};
use crate::fixed::SCALE;
use crate::statistics::floor_div;

verus! {

/// The semantic categories a detection can be assigned to, in the order in
/// which ties are broken.
#[derive(Debug, Clone, Copy, PartialEq, Eq, Structural)]
pub enum Category {
    Natural,
    Electronic,
    Human,
    Biological,
    Unexplained,
}

/// A category with its description and typical signatures.
#[derive(Debug, Clone)]
pub struct ClassificationCategory {
    pub name: String,
    pub description: String,
    pub typical_signatures: Vec<String>,
}

/// The features the classifier reads from a detection. Fractions are in
/// parts per million.
#[derive(Debug, Clone, Copy, PartialEq, Eq, Structural)]
pub struct ClassificationFeatures {
    pub is_thermal: bool,
    pub is_emf: bool,
    pub is_acoustic: bool,
    pub is_seismic: bool,
    pub sensor_count: usize,
    pub correlation: i64,
    pub entropy_deviation: i64,
    pub confidence: i64,
    pub multi_sensor: bool,
}

/// Category scores (parts per million) in `Category` order.
#[derive(Debug, Clone, Copy, PartialEq, Eq, Structural)]
pub struct CategoryScores {
    pub natural: i64,
    pub electronic: i64,
    pub human: i64,
    pub biological: i64,
    pub unexplained: i64,
}

/// The outcome of classifying one detection.
#[derive(Debug, Clone)]
pub struct ClassificationResult {
    pub category: Category,
    /// The winning category's normalized score, parts per million.
    pub confidence: i64,
    pub all_scores: CategoryScores,
    pub features: ClassificationFeatures,
}

/// The magnitudes the classifier accepts for a detection's unbounded
/// entropy deviation.
pub const MAX_ENTROPY_DEVIATION: i64 = 0x4000_0000;

pub open spec fn flag(b: bool) -> int {
    if b { SCALE as int } else { 0 }
}

pub open spec fn cap(x: int) -> int {
    if x < SCALE as int { x } else { SCALE as int }
}

pub open spec fn spec_features(d: Detection) -> ClassificationFeatures {
    ClassificationFeatures {
        is_thermal: d.detection_type == DetectionType::ThermalAnomaly
            || d.detection_type == DetectionType::ColdSpot || d.detection_type == DetectionType::HotSpot,
        is_emf: d.detection_type == DetectionType::EMFSpike || d.detection_type
            == DetectionType::EMFFluctuation || d.detection_type == DetectionType::MagneticAnomaly,
        is_acoustic: d.detection_type == DetectionType::InfrasoundEvent || d.detection_type
            == DetectionType::UltrasonicEvent || d.detection_type == DetectionType::UnexplainedSound,
        is_seismic: d.detection_type == DetectionType::SeismicEvent || d.detection_type
            == DetectionType::Vibration || d.detection_type == DetectionType::Movement,
        sensor_count: d.sensors@.len() as usize,
        correlation: d.correlation_score as i64,
        entropy_deviation: d.entropy_deviation,
        confidence: d.confidence as i64,
        multi_sensor: d.sensors@.len() > 2,
    }
}

/// The five raw scores, each capped at one:
/// natural = 0.3·seismic + 0.3·(1 − correlation) + 0.4·(1 − entropy deviation);
/// electronic = 0.6·emf + 0.4·(0.5 if at most one sensor);
/// human = 0.7·(thermal + acoustic + seismic)/3;
/// biological = 0.3·acoustic + 0.3·seismic + 0.2·(1 − thermal);
/// unexplained = 1.2·(0.3·correlation + 0.3·entropy deviation + 0.2·multi-sensor + 0.2·confidence).
pub open spec fn spec_raw_scores(f: ClassificationFeatures) -> CategoryScores {
    let s = SCALE as int;
    CategoryScores {
        natural: cap((3 * flag(f.is_seismic) + 3 * (s - f.correlation) + 4 * (s - f.entropy_deviation)) / 10) as i64,
        electronic: cap((6 * flag(f.is_emf) + 4 * (if f.sensor_count <= 1 { s / 2 } else { 0 })) / 10) as i64,
        human: cap((flag(f.is_thermal) + flag(f.is_acoustic) + flag(f.is_seismic)) * 7 / 30) as i64,
        biological: cap((3 * flag(f.is_acoustic) + 3 * flag(f.is_seismic) + 2 * (s - flag(f.is_thermal))) / 10) as i64,
        unexplained: cap((3 * f.correlation + 3 * f.entropy_deviation + 2 * flag(f.multi_sensor) + 2 * f.confidence) * 12 / 100) as i64,
    }
}

pub open spec fn score_total(c: CategoryScores) -> int {
    c.natural + c.electronic + c.human + c.biological + c.unexplained
}

/// The score of one category.
pub open spec fn score_of(c: CategoryScores, cat: Category) -> int {
    match cat {
        Category::Natural => c.natural as int,
        Category::Electronic => c.electronic as int,
        Category::Human => c.human as int,
        Category::Biological => c.biological as int,
        Category::Unexplained => c.unexplained as int,
    }
}

/// The scores with `r` added to one category.
pub open spec fn with_added(c: CategoryScores, cat: Category, r: int) -> CategoryScores {
    match cat {
        Category::Natural => CategoryScores { natural: (c.natural + r) as i64, ..c },
        Category::Electronic => CategoryScores { electronic: (c.electronic + r) as i64, ..c },
        Category::Human => CategoryScores { human: (c.human + r) as i64, ..c },
        Category::Biological => CategoryScores { biological: (c.biological + r) as i64, ..c },
        Category::Unexplained => CategoryScores { unexplained: (c.unexplained + r) as i64, ..c },
    }
}

/// Each score divided by the total, rounded down.
pub open spec fn floor_scores(c: CategoryScores) -> CategoryScores {
    let t = score_total(c);
    CategoryScores {
        natural: (c.natural * SCALE as int / t) as i64,
        electronic: (c.electronic * SCALE as int / t) as i64,
        human: (c.human * SCALE as int / t) as i64,
        biological: (c.biological * SCALE as int / t) as i64,
        unexplained: (c.unexplained * SCALE as int / t) as i64,
    }
}

/// Scores normalized to sum to one when the total is positive: each is
/// divided by the total and rounded down, and the rounding remainder goes
/// to the best category. The raw scores otherwise.
pub open spec fn spec_normalized(c: CategoryScores) -> CategoryScores {
    let t = score_total(c);
    if t > 0 {
        let f = floor_scores(c);
        with_added(f, spec_best(c).0, SCALE as int - score_total(f))
    } else {
        c
    }
}

/// The first category, in `Category` order, with the highest score.
pub open spec fn spec_best(c: CategoryScores) -> (Category, i64) {
    let b1 = (Category::Natural, c.natural);
    let b2 = if c.electronic > b1.1 { (Category::Electronic, c.electronic) } else { b1 };
    let b3 = if c.human > b2.1 { (Category::Human, c.human) } else { b2 };
    let b4 = if c.biological > b3.1 { (Category::Biological, c.biological) } else { b3 };
    if c.unexplained > b4.1 { (Category::Unexplained, c.unexplained) } else { b4 }
}

fn flag_of(b: bool) -> (r: i128)
    ensures
        r == flag(b),
{
    if b { SCALE as i128 } else { 0 }
}

fn cap_of(x: i128) -> (r: i128)
    ensures
        r == cap(x as int),
{
    if x < SCALE as i128 { x } else { SCALE as i128 }
}

proof fn lemma_div_bounds(x: int, t: int, lo: int, hi: int)
    requires
        t >= 1,
        lo <= 0 <= hi,
        lo <= x <= hi,
    ensures
        lo <= x / t <= hi,
{
    vstd::arithmetic::div_mod::lemma_fundamental_div_mod(x, t);
    let q = x / t;
    let r = x % t;
    assert(lo <= q <= hi) by (nonlinear_arith)
        requires
            x == t * q + r,
            0 <= r < t,
            t >= 1,
            lo <= x <= hi,
            lo <= 0,
            0 <= hi,
    ;
}

/// The raw category scores of a feature set.
pub fn raw_scores(f: &ClassificationFeatures) -> (r: CategoryScores)
    requires
        -MAX_ENTROPY_DEVIATION <= f.entropy_deviation <= MAX_ENTROPY_DEVIATION,
        0 <= f.correlation <= SCALE,
        0 <= f.confidence <= SCALE,
    ensures
        r == spec_raw_scores(*f),
        -0x10_0000_0000 <= r.natural <= SCALE,
        0 <= r.electronic <= SCALE,
        0 <= r.human <= SCALE,
        0 <= r.biological <= SCALE,
        -0x10_0000_0000 <= r.unexplained <= SCALE,
        0 <= f.entropy_deviation <= SCALE ==> r.natural >= 0 && r.unexplained >= 0
            && score_total(r) > 0,
{
    let s: i128 = SCALE as i128;
    let corr = f.correlation as i128;
    let ed = f.entropy_deviation as i128;
    let conf = f.confidence as i128;
    let single: i128 = if f.sensor_count <= 1 { s / 2 } else { 0 };
    let natural = cap_of(floor_div(3 * flag_of(f.is_seismic) + 3 * (s - corr) + 4 * (s - ed), 10));
    let electronic = cap_of(floor_div(6 * flag_of(f.is_emf) + 4 * single, 10));
    let human = cap_of(floor_div((flag_of(f.is_thermal) + flag_of(f.is_acoustic) + flag_of(f.is_seismic)) * 7, 30));
    let biological = cap_of(floor_div(3 * flag_of(f.is_acoustic) + 3 * flag_of(f.is_seismic) + 2 * (s - flag_of(f.is_thermal)), 10));
    let unexplained = cap_of(floor_div((3 * corr + 3 * ed + 2 * flag_of(f.multi_sensor) + 2 * conf) * 12, 100));
    proof {
        let n1 = 3 * flag(f.is_seismic) + 3 * (s - corr) + 4 * (s - ed);
        let n5 = (3 * corr + 3 * ed + 2 * flag(f.multi_sensor) + 2 * conf) * 12;
        lemma_div_bounds(n1, 10, -0x10_0000_0000, 0x10_0000_0000);
        lemma_div_bounds(n5, 100, -0x10_0000_0000, 0x100_0000_0000);
    }
    CategoryScores {
        natural: natural as i64,
        electronic: electronic as i64,
        human: human as i64,
        biological: biological as i64,
        unexplained: unexplained as i64,
    }
}

proof fn lemma_floor_add_any(x: int, y: int, d: int)
    requires
        d > 0,
    ensures
        x / d + y / d <= (x + y) / d,
{
    vstd::arithmetic::div_mod::lemma_fundamental_div_mod(x, d);
    vstd::arithmetic::div_mod::lemma_fundamental_div_mod(y, d);
    vstd::arithmetic::div_mod::lemma_fundamental_div_mod(x + y, d);
    let (qx, qy, q) = (x / d, y / d, (x + y) / d);
    let (rx, ry, r) = (x % d, y % d, (x + y) % d);
    assert(qx + qy <= q) by (nonlinear_arith)
        requires
            x == d * qx + rx,
            y == d * qy + ry,
            x + y == d * q + r,
            0 <= rx < d,
            0 <= ry < d,
            0 <= r < d,
            d > 0,
    ;
}

proof fn lemma_best_is_max(c: CategoryScores)
    ensures
        spec_best(c).1 == score_of(c, spec_best(c).0),
        forall|cat: Category| #[trigger] score_of(c, cat) <= spec_best(c).1,
{
    assert forall|cat: Category| score_of(c, cat) <= spec_best(c).1 by {
        match cat {
            Category::Natural => {},
            Category::Electronic => {},
            Category::Human => {},
            Category::Biological => {},
            Category::Unexplained => {},
        }
    }
}

/// Bounds of the raw scores the classifier produces.
pub open spec fn raw_in_range(c: CategoryScores) -> bool {
    &&& -0x10_0000_0000 <= c.natural <= SCALE
    &&& 0 <= c.electronic <= SCALE
    &&& 0 <= c.human <= SCALE
    &&& 0 <= c.biological <= SCALE
    &&& -0x10_0000_0000 <= c.unexplained <= SCALE
}

proof fn lemma_floor_in_range(x: int, t: int)
    requires
        -0x10_0000_0000 <= x <= SCALE,
        t > 0,
    ensures
        -0x10_0000_0000 * SCALE <= x * SCALE / t <= SCALE * SCALE,
        x >= 0 ==> x * SCALE / t >= 0,
{
    assert(-0x10_0000_0000 * SCALE <= x * SCALE <= SCALE * SCALE) by (nonlinear_arith)
        requires
            -0x10_0000_0000 <= x <= SCALE,
    ;
    lemma_div_bounds(x * SCALE, t, -0x10_0000_0000 * SCALE, SCALE * SCALE);
    if x >= 0 {
        assert(x * SCALE >= 0) by (nonlinear_arith)
            requires
                x >= 0,
        ;
        lemma_div_bounds(x * SCALE, t, 0, SCALE * SCALE);
    }
}

proof fn lemma_floor_sum(c: CategoryScores)
    requires
        raw_in_range(c),
        score_total(c) > 0,
    ensures
        score_total(floor_scores(c)) <= SCALE,
        forall|cat: Category| #[trigger] score_of(floor_scores(c), cat) == score_of(c, cat) * SCALE / score_total(c),
{
    let t = score_total(c);
    lemma_floor_in_range(c.natural as int, t);
    lemma_floor_in_range(c.electronic as int, t);
    lemma_floor_in_range(c.human as int, t);
    lemma_floor_in_range(c.biological as int, t);
    lemma_floor_in_range(c.unexplained as int, t);
    let (x1, x2, x3, x4, x5) = (c.natural * SCALE, c.electronic * SCALE, c.human * SCALE,
        c.biological * SCALE, c.unexplained * SCALE);
    lemma_floor_add_any(x1, x2, t);
    lemma_floor_add_any(x1 + x2, x3, t);
    lemma_floor_add_any(x1 + x2 + x3, x4, t);
    lemma_floor_add_any(x1 + x2 + x3 + x4, x5, t);
    assert(x1 + x2 + x3 + x4 + x5 == SCALE * t) by (nonlinear_arith)
        requires
            x1 == c.natural * SCALE,
            x2 == c.electronic * SCALE,
            x3 == c.human * SCALE,
            x4 == c.biological * SCALE,
            x5 == c.unexplained * SCALE,
            t == c.natural + c.electronic + c.human + c.biological + c.unexplained,
    ;
    vstd::arithmetic::div_mod::lemma_div_by_multiple(SCALE as int, t);
    assert forall|cat: Category| #[trigger] score_of(floor_scores(c), cat) == score_of(c, cat) * SCALE / t by {
        match cat {
            Category::Natural => {},
            Category::Electronic => {},
            Category::Human => {},
            Category::Biological => {},
            Category::Unexplained => {},
        }
    }
}

/// Normalized scores sum to one, and the best raw category keeps the
/// highest normalized score; with non-negative raw scores every normalized
/// score is non-negative.
proof fn lemma_normalized_props(c: CategoryScores)
    requires
        raw_in_range(c),
        score_total(c) > 0,
    ensures
        score_total(spec_normalized(c)) == SCALE,
        forall|cat: Category| #[trigger] score_of(spec_normalized(c), cat) <= score_of(spec_normalized(c), spec_best(c).0),
        c.natural >= 0 && c.unexplained >= 0 ==> {
            &&& spec_normalized(c).natural >= 0
            &&& spec_normalized(c).electronic >= 0
            &&& spec_normalized(c).human >= 0
            &&& spec_normalized(c).biological >= 0
            &&& spec_normalized(c).unexplained >= 0
        },
{
    let t = score_total(c);
    let f = floor_scores(c);
    let w = spec_best(c).0;
    lemma_floor_sum(c);
    lemma_best_is_max(c);
    lemma_floor_in_range(c.natural as int, t);
    lemma_floor_in_range(c.electronic as int, t);
    lemma_floor_in_range(c.human as int, t);
    lemma_floor_in_range(c.biological as int, t);
    lemma_floor_in_range(c.unexplained as int, t);
    assert forall|cat: Category| #[trigger] score_of(f, cat) <= score_of(f, w) by {
        assert(score_of(c, cat) * SCALE <= score_of(c, w) * SCALE) by (nonlinear_arith)
            requires
                score_of(c, cat) <= score_of(c, w),
        ;
        vstd::arithmetic::div_mod::lemma_div_is_ordered(score_of(c, cat) * SCALE, score_of(c, w) * SCALE, t);
        assert(score_of(f, cat) == score_of(c, cat) * SCALE / t);
        assert(score_of(f, w) == score_of(c, w) * SCALE / t);
    }
    let n = spec_normalized(c);
    assert forall|cat: Category| #[trigger] score_of(n, cat) <= score_of(n, w) by {
        assert(score_of(f, cat) <= score_of(f, w));
        match cat {
            Category::Natural => {},
            Category::Electronic => {},
            Category::Human => {},
            Category::Biological => {},
            Category::Unexplained => {},
        }
    }
    match w {
        Category::Natural => {},
        Category::Electronic => {},
        Category::Human => {},
        Category::Biological => {},
        Category::Unexplained => {},
    }
}

/// Scores normalized to sum to one.
pub fn normalize(c: &CategoryScores) -> (r: CategoryScores)
    requires
        raw_in_range(*c),
    ensures
        r == spec_normalized(*c),
        score_total(*c) > 0 ==> score_total(r) == SCALE,
        score_total(*c) > 0 ==> forall|cat: Category| #[trigger] score_of(r, cat) <= score_of(r, spec_best(*c).0),
        score_total(*c) > 0 && c.natural >= 0 && c.unexplained >= 0 ==> {
            &&& r.natural >= 0
            &&& r.electronic >= 0
            &&& r.human >= 0
            &&& r.biological >= 0
            &&& r.unexplained >= 0
        },
{
    let t: i128 = c.natural as i128 + c.electronic as i128 + c.human as i128 + c.biological as i128
        + c.unexplained as i128;
    if t > 0 {
        let tu = t as u128;
        let s = SCALE as i128;
        proof {
            lemma_normalized_props(*c);
            lemma_floor_sum(*c);
            lemma_floor_in_range(c.natural as int, t as int);
            lemma_floor_in_range(c.electronic as int, t as int);
            lemma_floor_in_range(c.human as int, t as int);
            lemma_floor_in_range(c.biological as int, t as int);
            lemma_floor_in_range(c.unexplained as int, t as int);
            assert forall|x: int| -0x10_0000_0000 <= x <= SCALE implies
                -0x10_0000_0000 * SCALE <= #[trigger] (x * SCALE) <= SCALE * SCALE by {
                assert(-0x10_0000_0000 * SCALE <= x * SCALE <= SCALE * SCALE) by (nonlinear_arith)
                    requires
                        -0x10_0000_0000 <= x <= SCALE,
                ;
            }
        }
        let natural = floor_div(c.natural as i128 * s, tu);
        let electronic = floor_div(c.electronic as i128 * s, tu);
        let human = floor_div(c.human as i128 * s, tu);
        let biological = floor_div(c.biological as i128 * s, tu);
        let unexplained = floor_div(c.unexplained as i128 * s, tu);
        let rem = s - (natural + electronic + human + biological + unexplained);
        let (best, _) = best_category(c);
        let f = CategoryScores {
            natural: natural as i64,
            electronic: electronic as i64,
            human: human as i64,
            biological: biological as i64,
            unexplained: unexplained as i64,
        };
        proof {
            assert(f == floor_scores(*c));
        }
        match best {
            Category::Natural => CategoryScores { natural: (natural + rem) as i64, ..f },
            Category::Electronic => CategoryScores { electronic: (electronic + rem) as i64, ..f },
            Category::Human => CategoryScores { human: (human + rem) as i64, ..f },
            Category::Biological => CategoryScores { biological: (biological + rem) as i64, ..f },
            Category::Unexplained => CategoryScores { unexplained: (unexplained + rem) as i64, ..f },
        }
    } else {
        *c
    }
}

/// The first category with the highest score, and that score.
pub fn best_category(c: &CategoryScores) -> (r: (Category, i64))
    ensures
        r == spec_best(*c),
{
    let mut best = (Category::Natural, c.natural);
    if c.electronic > best.1 {
        best = (Category::Electronic, c.electronic);
    }
    if c.human > best.1 {
        best = (Category::Human, c.human);
    }
    if c.biological > best.1 {
        best = (Category::Biological, c.biological);
    }
    if c.unexplained > best.1 {
        best = (Category::Unexplained, c.unexplained);
    }
    best
}

/// The classifier's catalogue of categories.
pub struct AnomalyClassifier {
    categories: Vec<ClassificationCategory>,
}

impl AnomalyClassifier {
    pub closed spec fn spec_categories(&self) -> Seq<ClassificationCategory> {
        self.categories@
    }

    /// The five categories, in `Category` order.
    pub fn new() -> (r: AnomalyClassifier)
        ensures
            r.spec_categories().len() == 5,
            r.spec_categories()[0].name@ == "Natural"@,
            r.spec_categories()[1].name@ == "Electronic"@,
            r.spec_categories()[2].name@ == "Human"@,
            r.spec_categories()[3].name@ == "Biological"@,
            r.spec_categories()[4].name@ == "Unexplained"@,
            r.spec_categories()[0].description@ == "Natural environmental phenomena"@,
            r.spec_categories()[1].description@ == "Electronic interference or malfunction"@,
            r.spec_categories()[2].description@ == "Human-caused activity"@,
            r.spec_categories()[3].description@ == "Non-human biological activity"@,
            r.spec_categories()[4].description@ == "Anomaly with no clear natural explanation"@,
            r.spec_categories()[0].typical_signatures@.len() == 3,
            r.spec_categories()[0].typical_signatures@[0]@ == "gradual temperature change"@,
            r.spec_categories()[0].typical_signatures@[1]@ == "seismic microactivity"@,
            r.spec_categories()[0].typical_signatures@[2]@ == "atmospheric pressure variation"@,
            r.spec_categories()[1].typical_signatures@.len() == 3,
            r.spec_categories()[1].typical_signatures@[0]@ == "60Hz EMF"@,
            r.spec_categories()[1].typical_signatures@[1]@ == "radio frequency burst"@,
            r.spec_categories()[1].typical_signatures@[2]@ == "power line interference"@,
            r.spec_categories()[2].typical_signatures@.len() == 3,
            r.spec_categories()[2].typical_signatures@[0]@ == "footstep vibration"@,
            r.spec_categories()[2].typical_signatures@[1]@ == "voice frequency"@,
            r.spec_categories()[2].typical_signatures@[2]@ == "body heat signature"@,
            r.spec_categories()[3].typical_signatures@.len() == 3,
            r.spec_categories()[3].typical_signatures@[0]@ == "small animal movement"@,
            r.spec_categories()[3].typical_signatures@[1]@ == "insect ultrasonic"@,
            r.spec_categories()[3].typical_signatures@[2]@ == "rodent activity"@,
            r.spec_categories()[4].typical_signatures@.len() == 4,
            r.spec_categories()[4].typical_signatures@[0]@ == "sudden temperature drop"@,
            r.spec_categories()[4].typical_signatures@[1]@ == "correlated multi-sensor event"@,
            r.spec_categories()[4].typical_signatures@[2]@ == "entropy deviation"@,
            r.spec_categories()[4].typical_signatures@[3]@ == "non-periodic EMF"@,
    {
        broadcast use vstd::string::group_string_axioms;

        let categories = vec![
            ClassificationCategory {
                name: "Natural".to_string(),
                description: "Natural environmental phenomena".to_string(),
                typical_signatures: vec![
                    "gradual temperature change".to_string(),
                    "seismic microactivity".to_string(),
                    "atmospheric pressure variation".to_string(),
                ],
            },
            ClassificationCategory {
                name: "Electronic".to_string(),
                description: "Electronic interference or malfunction".to_string(),
                typical_signatures: vec![
                    "60Hz EMF".to_string(),
                    "radio frequency burst".to_string(),
                    "power line interference".to_string(),
                ],
            },
            ClassificationCategory {
                name: "Human".to_string(),
                description: "Human-caused activity".to_string(),
                typical_signatures: vec![
                    "footstep vibration".to_string(),
                    "voice frequency".to_string(),
                    "body heat signature".to_string(),
                ],
            },
            ClassificationCategory {
                name: "Biological".to_string(),
                description: "Non-human biological activity".to_string(),
                typical_signatures: vec![
                    "small animal movement".to_string(),
                    "insect ultrasonic".to_string(),
                    "rodent activity".to_string(),
                ],
            },
            ClassificationCategory {
                name: "Unexplained".to_string(),
                description: "Anomaly with no clear natural explanation".to_string(),
                typical_signatures: vec![
                    "sudden temperature drop".to_string(),
                    "correlated multi-sensor event".to_string(),
                    "entropy deviation".to_string(),
                    "non-periodic EMF".to_string(),
                ],
            },
        ];
        AnomalyClassifier { categories }
    }

    /// The catalogue, in `Category` order.
    pub fn categories(&self) -> (r: &[ClassificationCategory])
        ensures
            r@ == self.spec_categories(),
    {
        self.categories.as_slice()
    }

    /// The features of a detection.
    pub fn extract_features(&self, d: &Detection) -> (r: ClassificationFeatures)
        ensures
            r == spec_features(*d),
    {
        let t = d.detection_type;
        let n = d.sensors.len();
        ClassificationFeatures {
            is_thermal: t == DetectionType::ThermalAnomaly || t == DetectionType::ColdSpot
                || t == DetectionType::HotSpot,
            is_emf: t == DetectionType::EMFSpike || t == DetectionType::EMFFluctuation
                || t == DetectionType::MagneticAnomaly,
            is_acoustic: t == DetectionType::InfrasoundEvent || t == DetectionType::UltrasonicEvent
                || t == DetectionType::UnexplainedSound,
            is_seismic: t == DetectionType::SeismicEvent || t == DetectionType::Vibration
                || t == DetectionType::Movement,
            sensor_count: n,
            correlation: d.correlation_score as i64,
            entropy_deviation: d.entropy_deviation,
            confidence: d.confidence as i64,
            multi_sensor: n > 2,
        }
    }

    /// Scores every category, normalizes the scores to sum to one and
    /// reports the best category with its normalized score.
    pub fn classify(&self, d: &Detection) -> (r: ClassificationResult)
        requires
            d.correlation_score <= SCALE,
            d.confidence <= SCALE,
            -MAX_ENTROPY_DEVIATION <= d.entropy_deviation <= MAX_ENTROPY_DEVIATION,
        ensures
            r.features == spec_features(*d),
            r.all_scores == spec_normalized(spec_raw_scores(r.features)),
            r.category == spec_best(spec_raw_scores(r.features)).0,
            r.confidence == score_of(r.all_scores, r.category),
            score_total(spec_raw_scores(r.features)) > 0 ==> {
                &&& score_total(r.all_scores) == SCALE
                &&& forall|cat: Category| #[trigger] score_of(r.all_scores, cat) <= r.confidence
            },
            0 <= d.entropy_deviation <= SCALE ==> {
                &&& score_total(spec_raw_scores(r.features)) > 0
                &&& score_total(r.all_scores) == SCALE
                &&& r.all_scores.natural >= 0
                &&& r.all_scores.electronic >= 0
                &&& r.all_scores.human >= 0
                &&& r.all_scores.biological >= 0
                &&& r.all_scores.unexplained >= 0
            },
    {
        let features = self.extract_features(d);
        let raw = raw_scores(&features);
        let all_scores = normalize(&raw);
        let (category, _) = best_category(&raw);
        let confidence = match category {
            Category::Natural => all_scores.natural,
            Category::Electronic => all_scores.electronic,
            Category::Human => all_scores.human,
            Category::Biological => all_scores.biological,
            Category::Unexplained => all_scores.unexplained,
        };
        ClassificationResult { category, confidence, all_scores, features }
    }
}

/// The display name of a category.
pub fn category_name(c: Category) -> (r: &'static str)
    ensures
        c == Category::Natural ==> r@ == "Natural"@,
        c == Category::Electronic ==> r@ == "Electronic"@,
        c == Category::Human ==> r@ == "Human"@,
        c == Category::Biological ==> r@ == "Biological"@,
        c == Category::Unexplained ==> r@ == "Unexplained"@,
{
    match c {
        Category::Natural => "Natural",
        Category::Electronic => "Electronic",
        Category::Human => "Human",
        Category::Biological => "Biological",
        Category::Unexplained => "Unexplained",
    }
}

} // verus!
