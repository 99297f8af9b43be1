use glowbarn::complexity::{ComplexityAnalyzer, RecurrenceMeasures};

fn recurrence_quantification(data: &[i64]) -> RecurrenceMeasures {
    ComplexityAnalyzer::new().recurrence_quantification(data)
}

#[test]
fn periodic_signal_is_deterministic() {
    let data: Vec<i64> = (0..60)
        .map(|i| (1_000_000.0 * (2.0 * std::f64::consts::PI * i as f64 / 10.0).sin()).round() as i64)
        .collect();
    assert_eq!(
        recurrence_quantification(&data),
        RecurrenceMeasures { recurrence_rate: 100_258, determinism: 968_481, laminarity: 0 }
    );
}

#[test]
fn plateaus_are_laminar() {
    let mut data = vec![0i64; 20];
    data.extend(vec![1_000_000i64; 20]);
    data.extend(vec![0i64; 20]);
    assert_eq!(
        recurrence_quantification(&data),
        RecurrenceMeasures { recurrence_rate: 519_103, determinism: 896_513, laminarity: 998_893 }
    );
}

#[test]
fn short_or_flat_windows_have_no_recurrence() {
    let zero = RecurrenceMeasures { recurrence_rate: 0, determinism: 0, laminarity: 0 };
    assert_eq!(recurrence_quantification(&[1, 2, 3]), zero);
    assert_eq!(recurrence_quantification(&[5; 60]), zero);
}

#[test]
fn empty_window_has_no_recurrence() {
    assert_eq!(
        recurrence_quantification(&[]),
        RecurrenceMeasures { recurrence_rate: 0, determinism: 0, laminarity: 0 }
    );
}
