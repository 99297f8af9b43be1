use glowbarn::classification::AnomalyClassifier;
use glowbarn::config::{parse_fusion_method, AnalysisConfig, ConfigError, DatabaseConfig, DetectionConfig};
use glowbarn::detection::Severity;
use glowbarn::fusion::FusionMethod;

#[test]
fn fusion_method_names_are_validated() {
    assert_eq!(parse_fusion_method("Bayesian"), Ok(FusionMethod::Bayesian));
    assert_eq!(parse_fusion_method("DempsterShafer"), Ok(FusionMethod::DempsterShafer));
    assert_eq!(parse_fusion_method("WeightedAverage"), Ok(FusionMethod::WeightedAverage));
    assert_eq!(parse_fusion_method("neural"), Err(ConfigError::UnknownFusionMethod));
    assert_eq!(parse_fusion_method(""), Err(ConfigError::UnknownFusionMethod));
}

#[test]
fn defaults() {
    let a = AnalysisConfig::default_config();
    assert_eq!(a.anomaly_threshold, 3_000_000);
    assert_eq!(a.pattern_min_length, 16);
    assert_eq!(a.entropy_window, 1000);
    let d = DetectionConfig::default_config();
    assert_eq!(d.min_confidence, 500_000);
    assert_eq!(d.fusion_method, FusionMethod::DempsterShafer);
    assert_eq!(d.correlation_window_ms, 2000);
    assert_eq!(d.min_correlated_sensors, 2);
    assert_eq!(d.alert_threshold, Severity::Medium);
    let db = DatabaseConfig::default_config();
    assert_eq!(db.path, "./data/glowbarn.db");
    assert_eq!(db.retention_days, 30);
    let names: Vec<String> = AnomalyClassifier::new().categories().iter().map(|c| c.name.clone()).collect();
    assert_eq!(names, vec!["Natural", "Electronic", "Human", "Biological", "Unexplained"]);
}
