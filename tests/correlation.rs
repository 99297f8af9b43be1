use glowbarn::correlation::SensorCorrelator;
use glowbarn::sensors::SensorType;

#[test]
fn one_sensor_is_never_a_correlation() {
    let mut c = SensorCorrelator::new();
    c.add_reading("a".to_string(), SensorType::EMFProbe, 9_000, 5, 900_000, 10_000);
    c.add_reading("a".to_string(), SensorType::EMFProbe, 9_500, 5, 950_000, 10_000);
    assert!(c.check_correlation(10_000).is_none());
}

#[test]
fn two_anomalous_sensors_correlate() {
    let mut c = SensorCorrelator::new();
    c.add_reading("a".to_string(), SensorType::EMFProbe, 9_000, 5, 800_000, 10_000);
    c.add_reading("b".to_string(), SensorType::GeigerCounter, 9_400, 7, 900_000, 10_000);
    let ev = c.check_correlation(10_000).unwrap();
    assert_eq!(ev.confidence, 670_000);
    assert!(ev.confidence >= 500_000);
    assert_eq!(ev.lag_ms, 400);
    assert_eq!(ev.timestamp_ms, 10_000);
    assert_eq!(ev.sensors.len(), 2);
    assert_eq!(ev.sensors[0].sensor_id, "a");
    assert_eq!(ev.sensors[0].weight, 700_000);
    assert_eq!(ev.sensors[1].weight, 950_000);
}

#[test]
fn low_scores_and_stale_readings_do_not_count() {
    let mut c = SensorCorrelator::new();
    c.add_reading("a".to_string(), SensorType::EMFProbe, 9_000, 5, 250_000, 10_000);
    c.add_reading("b".to_string(), SensorType::Geophone, 7_000, 5, 900_000, 10_000);
    c.add_reading("c".to_string(), SensorType::Geophone, 9_900, 5, 900_000, 10_000);
    assert!(c.check_correlation(10_000).is_none());
}

#[test]
fn confidence_below_threshold_is_not_reported() {
    let mut c = SensorCorrelator::with_settings(10_000, 2_000, 700_000);
    c.add_reading("a".to_string(), SensorType::EMFProbe, 9_000, 5, 800_000, 10_000);
    c.add_reading("b".to_string(), SensorType::Geophone, 9_400, 7, 900_000, 10_000);
    assert!(c.check_correlation(10_000).is_none());
    c.add_reading("c".to_string(), SensorType::Geophone, 9_600, 7, 700_000, 10_000);
    assert_eq!(c.check_correlation(10_000).unwrap().confidence, 720_000);
}

#[test]
fn old_entries_are_evicted() {
    let mut c = SensorCorrelator::new();
    c.add_reading("a".to_string(), SensorType::EMFProbe, 1_000, 5, 800_000, 1_000);
    c.add_reading("b".to_string(), SensorType::EMFProbe, 1_200, 5, 800_000, 1_200);
    assert!(c.check_correlation(1_500).is_some());
    // Twenty seconds later the buffers hold nothing recent.
    c.add_reading("c".to_string(), SensorType::EMFProbe, 21_000, 5, 100_000, 21_000);
    assert_eq!(c.sensor_count(), 3);
    assert!(c.check_correlation(1_500).is_none());
}

fn fill(c: &mut SensorCorrelator, id: &str, spike_at: usize) {
    for i in 0..12usize {
        let value = if i == spike_at { 5_000_000 } else { 0 };
        c.add_reading(id.to_string(), SensorType::Geophone, (i as i64) * 100, value, 0, 1_100);
    }
}

#[test]
fn cross_correlation_finds_the_lag() {
    let mut c = SensorCorrelator::new();
    fill(&mut c, "a", 3);
    fill(&mut c, "b", 1);
    assert_eq!(c.cross_correlate(&"a".to_string(), &"b".to_string(), 2_000), Some((1_000_000, 200)));
    assert_eq!(c.cross_correlate(&"a".to_string(), &"a".to_string(), 2_000), Some((1_000_000, 0)));
    assert_eq!(c.cross_correlate(&"a".to_string(), &"zz".to_string(), 2_000), None);
}

#[test]
fn cross_correlation_needs_ten_readings() {
    let mut c = SensorCorrelator::new();
    c.add_reading("a".to_string(), SensorType::Geophone, 0, 1, 0, 0);
    c.add_reading("b".to_string(), SensorType::Geophone, 0, 2, 0, 0);
    assert_eq!(c.cross_correlate(&"a".to_string(), &"b".to_string(), 2_000), None);
}

#[test]
fn correlation_matrix_lists_correlated_pairs() {
    let mut c = SensorCorrelator::new();
    fill(&mut c, "a", 3);
    fill(&mut c, "b", 1);
    for i in 0..12i64 {
        c.add_reading("c".to_string(), SensorType::Geophone, i * 100, 0, 0, 1_100);
    }
    assert_eq!(c.get_correlation_matrix(), vec![("a".to_string(), "b".to_string(), 1_000_000)]);
}
