use glowbarn::classification::{category_name, AnomalyClassifier, Category, CategoryScores};
use glowbarn::detection::{
    create_detection, severity_for, DetectionType, SensorContribution, Severity,
};
use glowbarn::sensors::SensorType;

fn contribution(id: &str) -> SensorContribution {
    SensorContribution {
        sensor_id: id.to_string(),
        sensor_type: SensorType::Geophone,
        weight: 800_000,
        reading_value: 0,
        anomaly_score: 600_000,
    }
}

#[test]
fn seismic_detection_scores_every_category() {
    let mut d = create_detection(
        "d-1".to_string(),
        1_000,
        DetectionType::SeismicEvent,
        800_000,
        vec![contribution("a"), contribution("b"), contribution("c")],
    );
    d.correlation_score = 500_000;
    d.entropy_deviation = 200_000;
    let c = AnomalyClassifier::new();
    let r = c.classify(&d);
    assert_eq!(
        r.all_scores,
        CategoryScores { natural: 352_029, electronic: 0, human: 106_674, biological: 228_588, unexplained: 312_709 }
    );
    assert_eq!(r.category, Category::Natural);
    assert_eq!(r.confidence, 352_029);
    assert_eq!(category_name(r.category), "Natural");
    assert!(r.features.is_seismic && r.features.multi_sensor);
    assert_eq!(c.categories().len(), 5);
}

#[test]
fn single_emf_sensor_looks_electronic() {
    let d = create_detection("d-2".to_string(), 0, DetectionType::EMFSpike, 0, vec![contribution("a")]);
    let r = AnomalyClassifier::new().classify(&d);
    // raw: natural 0.7, electronic 0.8, human 0, biological 0.2, unexplained 0
    assert_eq!(r.category, Category::Electronic);
    assert_eq!(r.confidence, 470_589);
}

#[test]
fn severity_bands() {
    assert_eq!(severity_for(950_000), Severity::Critical);
    assert_eq!(severity_for(900_000), Severity::Critical);
    assert_eq!(severity_for(700_000), Severity::High);
    assert_eq!(severity_for(400_000), Severity::Medium);
    assert_eq!(severity_for(399_999), Severity::Low);
    let d = create_detection("x".to_string(), 5, DetectionType::Unknown, 750_000, vec![]);
    assert_eq!(d.severity, Severity::High);
    assert_eq!(d.timestamp_ms, 5);
}

#[test]
fn normalized_scores_sum_to_one() {
    // Unknown kind, no sensors, zero scores: raw 0.7, 0.2, 0, 0.2, 0.
    let d = create_detection("u".to_string(), 0, DetectionType::Unknown, 0, vec![]);
    let r = AnomalyClassifier::new().classify(&d);
    let s = r.all_scores;
    assert_eq!(s.natural + s.electronic + s.human + s.biological + s.unexplained, 1_000_000);
    assert_eq!(s, CategoryScores { natural: 636_364, electronic: 181_818, human: 0, biological: 181_818, unexplained: 0 });
    assert_eq!(r.category, Category::Natural);
    assert_eq!(r.confidence, 636_364);
}
