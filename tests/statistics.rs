use glowbarn::statistics::{isqrt, sort_window, StatisticalAnalyzer, StatisticalSummary, PERCENT};

#[test]
fn percentile_extremes_are_min_and_max() {
    let s = StatisticalAnalyzer::new();
    let xs = [10i64, 20, 30, 40, 50];
    assert_eq!(s.percentile(&xs, 0), 10);
    assert_eq!(s.percentile(&xs, 100 * PERCENT), 50);
    assert_eq!(s.percentile(&[-7], 0), -7);
    assert_eq!(s.percentile(&[-7], 100 * PERCENT), -7);
}

#[test]
fn percentile_interpolates_linearly() {
    let s = StatisticalAnalyzer::new();
    assert_eq!(s.percentile(&[10, 20, 30, 40, 50], 25 * PERCENT), 20);
    assert_eq!(s.percentile(&[10, 20, 30, 40], 50 * PERCENT), 25);
    assert_eq!(s.percentile(&[1, 2, 3, 4], 10 * PERCENT), 1);
}

#[test]
fn mean_rounds_down() {
    let s = StatisticalAnalyzer::new();
    assert_eq!(s.mean(&[1, 2]), 1);
    assert_eq!(s.mean(&[-1, -2]), -2);
    assert_eq!(s.mean(&[4, 4, 4]), 4);
}

#[test]
fn variance_and_std_dev() {
    let s = StatisticalAnalyzer::new();
    let xs = [2i64, 4, 4, 4, 5, 5, 7, 9];
    // mean 5, squared deviations sum to 32, over n - 1 = 7
    assert_eq!(s.variance(&xs), 4);
    assert_eq!(s.std_dev(&xs), 2);
    assert_eq!(s.variance(&[3]), 0);
}

#[test]
fn integer_square_root() {
    assert_eq!(isqrt(0), 0);
    assert_eq!(isqrt(15), 3);
    assert_eq!(isqrt(16), 4);
    assert_eq!(isqrt(u128::MAX), u64::MAX);
}

#[test]
fn summary_of_a_shuffled_window() {
    let s = StatisticalAnalyzer::new();
    let r = s.summarize(&[5, 1, 4, 2, 3, 9, 7, 8, 6, 10]);
    assert_eq!(
        r,
        StatisticalSummary {
            count: 10,
            mean: 5,
            median: 5,
            mode: Some(8),
            std_dev: 3,
            variance: 9,
            min: 1,
            max: 10,
            range: 9,
            q1: 3,
            q3: 7,
            iqr: 4,
        }
    );
}

#[test]
fn binned_mode_is_the_centre_of_the_fullest_bin() {
    let s = StatisticalAnalyzer::new();
    let r = s.summarize(&[10, 10, 10, 20, 30, 30, 40, 90, 100]);
    assert_eq!(r.mode, Some(25));
    assert_eq!(r.median, 30);
    assert_eq!(r.mean, 37);
    assert_eq!(r.variance, 1170);
    assert_eq!(r.std_dev, 34);
    assert_eq!((r.q1, r.q3, r.iqr), (10, 40, 30));
}

#[test]
fn small_and_empty_windows() {
    let s = StatisticalAnalyzer::new();
    let r = s.summarize(&[3, -3]);
    assert_eq!((r.median, r.mode, r.min, r.max, r.q1, r.q3), (0, None, -3, 3, -2, 1));
    let e = s.summarize(&[]);
    assert_eq!(e.count, 0);
    assert_eq!(e.mode, None);
    assert_eq!(s.mode(&[7; 9]), Some(7));
}

#[test]
fn sorting_keeps_duplicates() {
    assert_eq!(sort_window(&[3, 1, 3, -2, 0]), vec![-2, 0, 1, 3, 3]);
    assert!(sort_window(&[]).is_empty());
}

#[test]
fn empty_windows_give_neutral_results() {
    let s = StatisticalAnalyzer::new();
    assert_eq!(s.mean(&[]), 0);
    assert_eq!(s.variance(&[]), 0);
    assert_eq!(s.std_dev(&[]), 0);
    assert_eq!(s.population_std_dev(&[]), 0);
    assert_eq!(s.percentile(&[], 50 * PERCENT), 0);
    assert_eq!(s.mode(&[]), None);
}
