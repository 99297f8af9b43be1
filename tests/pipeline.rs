use glowbarn::anomaly::detect;
use glowbarn::correlation::SensorCorrelator;
use glowbarn::detection::{create_detection, DetectionType, ScoredReading, Severity};
use glowbarn::engine::process_reading;
use glowbarn::entropy::tsallis_entropy;
use glowbarn::fusion::{FusionEngine, FusionMethod};
use glowbarn::sensors::SensorType;

struct Lcg(u64);

impl Lcg {
    fn uniform(&mut self) -> f64 {
        self.0 = self.0.wrapping_mul(6364136223846793005).wrapping_add(1442695040888963407);
        ((self.0 >> 11) as f64 + 0.5) / (1u64 << 53) as f64
    }

    fn gaussian(&mut self) -> f64 {
        let u1 = self.uniform();
        let u2 = self.uniform();
        (-2.0 * u1.ln()).sqrt() * (2.0 * std::f64::consts::PI * u2).cos()
    }
}

fn noise(seed: u64) -> Vec<f64> {
    let mut rng = Lcg(seed);
    (0..1000).map(|_| rng.gaussian()).collect()
}

fn micro(d: &[f64]) -> Vec<i64> {
    d.iter().map(|&x| (x * 1_000_000.0).round() as i64).collect()
}

fn quick_score(d: &[f64]) -> u64 {
    let m = d.iter().sum::<f64>() / d.len() as f64;
    let sd = (d.iter().map(|&x| (x - m).powi(2)).sum::<f64>() / d.len() as f64).sqrt();
    let z = d.iter().map(|&x| (x - m).abs()).fold(0.0, f64::max) / sd;
    let s = 1.0 / (1.0 + (-0.5 * (z - 2.0)).exp());
    (s * 1_000_000.0).round() as u64
}

#[test]
fn spike_in_noise_becomes_a_confident_detection() {
    let baseline = tsallis_entropy(&micro(&noise(7)));
    let run = |window: &[f64]| {
        let m = micro(window);
        let anomalies = detect(&m, &[]);
        let reading = ScoredReading {
            sensor_id: "emf-1".to_string(),
            sensor_type: SensorType::EMFProbe,
            reading_value: m.iter().sum::<i64>() / m.len() as i64,
            anomaly_score: quick_score(window),
        };
        let fused = FusionEngine::new().fuse(FusionMethod::WeightedAverage, &[reading], 0);
        let mut d = create_detection("d".to_string(), 0, fused.detection_type, fused.confidence, fused.sensors);
        d.entropy_deviation = (tsallis_entropy(&m) - baseline).abs();
        d.anomaly_count = anomalies.len();
        d
    };
    let mut spiked = noise(11);
    spiked[500] += 50.0;
    let with_spike = run(&spiked);
    let without = run(&noise(11));
    assert!(with_spike.sensors.iter().any(|s| s.sensor_id == "emf-1"));
    assert!(with_spike.confidence > 500_000);
    assert_eq!(with_spike.detection_type, DetectionType::EMFSpike);
    assert!(with_spike.entropy_deviation > without.entropy_deviation);
}

#[test]
fn correlated_readings_make_a_detection() {
    let mut c = SensorCorrelator::new();
    let first = process_reading(
        &mut c, "d-1".to_string(), "a".to_string(), SensorType::EMFProbe, 9_000, 5, 800_000, 10_000,
    );
    assert!(first.is_none());
    let second = process_reading(
        &mut c, "d-2".to_string(), "b".to_string(), SensorType::GeigerCounter, 9_400, 7, 900_000, 10_000,
    )
    .unwrap();
    assert_eq!(second.id, "d-2");
    assert_eq!(second.detection_type, DetectionType::CorrelatedAnomaly);
    assert_eq!(second.confidence, 670_000);
    assert_eq!(second.severity, Severity::Medium);
    assert_eq!(second.sensors.len(), 2);
}
