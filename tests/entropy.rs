use glowbarn::entropy::{histogram, tsallis_entropy, HISTOGRAM_BINS};

#[test]
fn constant_window_has_zero_tsallis_entropy() {
    let data = [42_000_000i64; 50];
    assert_eq!(tsallis_entropy(&data), 0);
    let h = histogram(&data);
    assert_eq!(h.len(), HISTOGRAM_BINS);
    assert_eq!(h[0], 50);
    assert!(h[1..].iter().all(|&c| c == 0));
}

#[test]
fn histogram_spans_the_window_range() {
    let h = histogram(&[0, 1_000_000, 500_000]);
    assert_eq!(h[0], 1);
    assert_eq!(h[127], 1);
    assert_eq!(h[255], 1);
}

#[test]
fn tsallis_entropy_is_one_minus_sum_of_squared_probabilities() {
    assert_eq!(tsallis_entropy(&[0, 1_000_000]), 500_000);
    assert_eq!(tsallis_entropy(&[0, 0, 0, 1]), 375_000);
}

#[test]
fn empty_window_has_neutral_entropy() {
    assert_eq!(tsallis_entropy(&[]), 0);
    assert!(histogram(&[]).iter().all(|&c| c == 0));
}
