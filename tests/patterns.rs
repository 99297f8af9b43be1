use glowbarn::patterns::{detect_periodicity, detect_step_changes, PatternType};

fn sine(n: usize, period: f64) -> Vec<i64> {
    (0..n)
        .map(|i| (1_000_000.0 * (2.0 * std::f64::consts::PI * i as f64 / period).sin()).round() as i64)
        .collect()
}

#[test]
fn periodicity_finds_first_rise_after_a_dip() {
    let p = detect_periodicity(&sine(64, 8.0)).unwrap();
    assert_eq!(p.pattern_type, PatternType::Periodic);
    assert_eq!(p.period, Some(7));
    assert_eq!(p.confidence, 618_718);
    assert_eq!(p.start_index, 0);
    assert_eq!(p.length, 64);
}

#[test]
fn periodicity_needs_length_and_spread() {
    assert!(detect_periodicity(&sine(31, 8.0)).is_none());
    assert!(detect_periodicity(&[3; 100]).is_none());
}

#[test]
fn step_change_is_reported_once() {
    let mut data = vec![0i64; 80];
    data.extend(vec![10_000_000i64; 20]);
    let steps = detect_step_changes(&data);
    assert_eq!(steps.len(), 1);
    assert_eq!(steps[0].pattern_type, PatternType::StepChange);
    assert_eq!(steps[0].start_index, 79);
    assert_eq!(steps[0].confidence, 746_240);
}

#[test]
fn balanced_step_stays_under_two_sigma() {
    let mut data = vec![0i64; 50];
    data.extend(vec![10_000_000i64; 50]);
    assert!(detect_step_changes(&data).is_empty());
    assert!(detect_step_changes(&[1, 2, 3]).is_empty());
}

#[test]
fn empty_window_has_no_patterns() {
    assert!(detect_periodicity(&[]).is_none());
    assert!(detect_step_changes(&[]).is_empty());
}
