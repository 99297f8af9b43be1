use glowbarn::detection::{DetectionType, ScoredReading};
use glowbarn::fixed::SCALE;
use glowbarn::fusion::{combine_belief_masses, BeliefMass, FusionEngine, FusionMethod};
use glowbarn::sensors::SensorType;

fn reading(id: &str, t: SensorType, score: u64) -> ScoredReading {
    ScoredReading { sensor_id: id.to_string(), sensor_type: t, reading_value: 1_500_000, anomaly_score: score }
}

fn batch() -> Vec<ScoredReading> {
    vec![
        reading("cam-1", SensorType::ThermalImager, 800_000),
        reading("geo-1", SensorType::Geophone, 400_000),
    ]
}

#[test]
fn weighted_average_is_exact() {
    let engine = FusionEngine::new();
    let r = engine.weighted_fusion(&batch());
    // (0.8*0.85 + 0.4*0.8) / (0.85 + 0.8)
    assert_eq!(r.confidence, 606_060);
    assert_eq!(r.detection_type, DetectionType::ThermalAnomaly);
    assert_eq!(r.sensors.len(), 2);
    assert_eq!(r.sensors[0].sensor_id, "cam-1");
    assert_eq!(r.sensors[0].weight, 850_000);
    assert_eq!(r.sensors[1].weight, 800_000);
    assert!(r.belief_mass.is_none());
}

#[test]
fn bayesian_update_is_exact() {
    let engine = FusionEngine::new();
    let r = engine.bayesian_fusion(&batch(), 100_000);
    assert_eq!(r.confidence, 182_462);
    assert_eq!(r.detection_type, DetectionType::ThermalAnomaly);
}

#[test]
fn dempster_shafer_is_exact() {
    let engine = FusionEngine::new();
    let r = engine.dempster_shafer_fusion(&batch());
    let m = r.belief_mass.unwrap();
    assert_eq!(m, BeliefMass { anomaly: 648_578, normal: 302_971, uncertainty: 48_451 });
    assert_eq!(m.anomaly + m.normal + m.uncertainty, SCALE);
    assert_eq!(r.confidence, 681_602);
}

#[test]
fn empty_batch_gives_zero_confidence_and_unknown_kind() {
    let engine = FusionEngine::new();
    for method in [FusionMethod::Bayesian, FusionMethod::DempsterShafer, FusionMethod::WeightedAverage] {
        let r = engine.fuse(method, &[], 300_000);
        assert_eq!(r.confidence, 0);
        assert_eq!(r.detection_type, DetectionType::Unknown);
        assert!(r.sensors.is_empty());
    }
}

#[test]
fn combined_masses_sum_to_one() {
    let m1 = BeliefMass { anomaly: 600_000, normal: 300_000, uncertainty: 100_000 };
    let m2 = BeliefMass { anomaly: 200_000, normal: 700_000, uncertainty: 100_000 };
    let m = combine_belief_masses(&m1, &m2);
    assert_eq!(m, BeliefMass { anomaly: 384_615, normal: 596_153, uncertainty: 19_232 });
    assert_eq!(m.anomaly + m.normal + m.uncertainty, SCALE);
}

#[test]
fn total_conflict_leaves_ignorance() {
    let m1 = BeliefMass { anomaly: SCALE, normal: 0, uncertainty: 0 };
    let m2 = BeliefMass { anomaly: 0, normal: SCALE, uncertainty: 0 };
    assert_eq!(combine_belief_masses(&m1, &m2), BeliefMass::vacuous());
}

#[test]
fn evidence_mass_splits_the_weight() {
    let m = BeliefMass::from_evidence(800_000, 850_000);
    assert_eq!(m, BeliefMass { anomaly: 680_000, normal: 170_000, uncertainty: 150_000 });
}

#[test]
fn confidence_stays_in_unit_range_for_extreme_inputs() {
    let mut engine = FusionEngine::new();
    engine.set_sensor_weight(SensorType::QRNG, 0);
    engine.set_sensor_weight(SensorType::LaserGrid, SCALE);
    let rs = vec![
        reading("a", SensorType::LaserGrid, SCALE),
        reading("b", SensorType::QRNG, 0),
        reading("c", SensorType::LaserGrid, SCALE),
        reading("d", SensorType::Barometer, SCALE),
    ];
    for prior in [0, 500_000, SCALE] {
        for method in [FusionMethod::Bayesian, FusionMethod::DempsterShafer, FusionMethod::WeightedAverage] {
            let r = engine.fuse(method, &rs, prior);
            assert!(r.confidence <= SCALE);
        }
    }
    assert_eq!(engine.fuse(FusionMethod::WeightedAverage, &rs, 0).confidence, SCALE);
}

#[test]
fn weights_default_override_and_clamp() {
    let mut engine = FusionEngine::new();
    assert_eq!(engine.sensor_weight(SensorType::LaserGrid), 950_000);
    assert_eq!(engine.sensor_weight(SensorType::GeigerCounter), 900_000);
    assert_eq!(engine.sensor_weight(SensorType::Barometer), 500_000);
    engine.set_sensor_weight(SensorType::Barometer, 2 * SCALE);
    assert_eq!(engine.sensor_weight(SensorType::Barometer), SCALE);
    engine.set_sensor_weight(SensorType::LaserGrid, 100_000);
    assert_eq!(engine.sensor_weight(SensorType::LaserGrid), 100_000);
    assert_eq!(engine.get_sensor_weights().len(), 13);
}

#[test]
fn dominant_sensor_decides_the_kind() {
    let engine = FusionEngine::new();
    let rs = vec![
        reading("g", SensorType::GeigerCounter, 300_000),
        reading("l", SensorType::LaserGrid, 900_000),
        reading("e", SensorType::EMFProbe, 900_000),
    ];
    // Equal top scores: the later reading wins.
    assert_eq!(engine.weighted_fusion(&rs).detection_type, DetectionType::EMFSpike);
}

#[test]
fn reading_buffer_keeps_the_latest_hundred() {
    let mut engine = FusionEngine::new();
    for i in 0..105u64 {
        engine.add_reading(ScoredReading {
            sensor_id: "a".to_string(),
            sensor_type: SensorType::Geophone,
            reading_value: i as i64,
            anomaly_score: 0,
        });
    }
    engine.add_reading(reading("b", SensorType::QRNG, 10));
    let a = engine.buffered_readings(&"a".to_string());
    assert_eq!(a.len(), 100);
    assert_eq!(a[0].reading_value, 5);
    assert_eq!(a[99].reading_value, 104);
    assert_eq!(engine.buffered_readings(&"b".to_string()).len(), 1);
    assert!(engine.buffered_readings(&"zz".to_string()).is_empty());
}
