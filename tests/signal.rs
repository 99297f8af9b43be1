use glowbarn::signal::{time_domain_features, TimeDomainFeatures};

#[test]
fn time_domain_features_are_exact() {
    assert_eq!(
        time_domain_features(&[3, -4, 5, -6]),
        TimeDomainFeatures { mean: -1, std_dev: 5, rms: 4, peak_to_peak: 11, crest_factor: 1_500_000, zero_crossings: 3 }
    );
}

#[test]
fn silent_window_has_no_crest_factor() {
    let f = time_domain_features(&[0; 16]);
    assert_eq!(f.rms, 0);
    assert_eq!(f.crest_factor, 0);
    assert_eq!(f.zero_crossings, 0);
    assert_eq!(f.peak_to_peak, 0);
}

#[test]
fn empty_window_has_neutral_features() {
    assert_eq!(
        time_domain_features(&[]),
        TimeDomainFeatures { mean: 0, std_dev: 0, rms: 0, peak_to_peak: 0, crest_factor: 0, zero_crossings: 0 }
    );
}
