use glowbarn::anomaly::{detect, detect_cusum, merge_anomalies, Anomaly, AnomalyType};

fn anomaly(index: usize, score: u64, kind: AnomalyType) -> Anomaly {
    Anomaly { index, value: 0, score, anomaly_type: kind, confidence: 500_000 }
}

#[test]
fn duplicates_keep_the_highest_score() {
    let xs = vec![
        anomaly(7, 2_000_000, AnomalyType::Spike),
        anomaly(3, 1_000_000, AnomalyType::PointAnomaly),
        anomaly(7, 5_000_000, AnomalyType::ChangePoint),
    ];
    let r = merge_anomalies(&xs);
    let at7: Vec<&Anomaly> = r.iter().filter(|a| a.index == 7).collect();
    assert_eq!(at7.len(), 1);
    assert_eq!(at7[0].score, 5_000_000);
    assert_eq!(at7[0].anomaly_type, AnomalyType::ChangePoint);
    assert_eq!(r.len(), 2);
}

#[test]
fn merged_list_is_ranked_by_score_then_index() {
    let xs = vec![
        anomaly(4, 1_000_000, AnomalyType::Drop),
        anomaly(9, 3_000_000, AnomalyType::Spike),
        anomaly(2, 1_000_000, AnomalyType::Spike),
        anomaly(9, 3_000_000, AnomalyType::PointAnomaly),
    ];
    let r = merge_anomalies(&xs);
    let order: Vec<(usize, u64)> = r.iter().map(|a| (a.index, a.score)).collect();
    assert_eq!(order, vec![(9, 3_000_000), (2, 1_000_000), (4, 1_000_000)]);
    // Among equal scores at one index the first one stays.
    assert_eq!(r[0].anomaly_type, AnomalyType::Spike);
}

#[test]
fn merging_nothing_gives_nothing() {
    assert!(merge_anomalies(&[]).is_empty());
}

#[test]
fn cusum_ignores_short_or_flat_windows() {
    assert!(detect_cusum(&[1_000_000; 19]).is_empty());
    assert!(detect_cusum(&[5; 200]).is_empty());
    assert!(detect_cusum(&[]).is_empty());
}

#[test]
fn cusum_flags_a_step_once() {
    let mut data = vec![0i64; 50];
    data.extend(vec![10_000_000i64; 50]);
    let r = detect_cusum(&data);
    assert_eq!(r.len(), 1);
    assert_eq!(r[0].index, 53);
    assert_eq!(r[0].anomaly_type, AnomalyType::ChangePoint);
    assert_eq!(r[0].value, 10_000_000);
    assert_eq!(r[0].score, 1_191_980);
    assert_eq!(r[0].confidence, 1_000_000);
}

#[test]
fn cusum_flags_a_downward_step_once() {
    let mut data = vec![3_000_000i64; 30];
    data.extend(vec![-7_000_000i64; 30]);
    let r = detect_cusum(&data);
    assert_eq!(r.iter().map(|a| a.index).collect::<Vec<_>>(), vec![33]);
    assert_eq!(r[0].score, 1_186_610);
}

#[test]
fn lone_outlier_scores_on_the_window_spread() {
    let mut data = vec![0i64; 50];
    data.push(100_000_000);
    let r = detect_cusum(&data);
    assert_eq!(r.len(), 1);
    assert_eq!(r[0].index, 50);
    // 1.33 decision intervals: well below the statistical z-score of about 7.
    assert_eq!(r[0].score, 1_328_285);
    let spike = Anomaly { index: 50, value: 100_000_000, score: 7_071_067, anomaly_type: AnomalyType::Spike, confidence: 999_999 };
    let merged = detect(&data, &[spike]);
    assert_eq!(merged, vec![spike]);
}

struct Lcg(u64);

impl Lcg {
    fn gaussian(&mut self) -> f64 {
        let mut uniform = || {
            self.0 = self.0.wrapping_mul(6364136223846793005).wrapping_add(1442695040888963407);
            ((self.0 >> 11) as f64 + 0.5) / (1u64 << 53) as f64
        };
        let u1 = uniform();
        let u2 = uniform();
        (-2.0 * u1.ln()).sqrt() * (2.0 * std::f64::consts::PI * u2).cos()
    }
}

#[test]
fn cusum_flags_a_noisy_ten_sigma_step_once() {
    let mut rng = Lcg(7);
    let data: Vec<i64> = (0..100)
        .map(|i| (rng.gaussian() * 1e6).round() as i64 + if i >= 50 { 10_000_000 } else { 0 })
        .collect();
    let idx: Vec<usize> = detect_cusum(&data).iter().map(|a| a.index).collect();
    assert_eq!(idx.len(), 1);
    assert!((50..=60).contains(&idx[0]));
}

#[test]
fn ensemble_merges_cusum_with_other_detectors() {
    let mut data = vec![0i64; 50];
    data.extend(vec![10_000_000i64; 50]);
    let mut spike = anomaly(60, 9_000_000, AnomalyType::Spike);
    spike.value = 10_000_000;
    let others = vec![spike, anomaly(5, 100, AnomalyType::Drop)];
    let r = detect(&data, &others);
    let order: Vec<(usize, u64)> = r.iter().map(|a| (a.index, a.score)).collect();
    assert_eq!(order, vec![(60, 9_000_000), (53, 1_191_980), (5, 100)]);
}
