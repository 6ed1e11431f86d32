use pro_cache_backend::clock::GlobalClock;

#[test]
fn first_observation_baselines_without_drift() {
    let mut clock = GlobalClock::new(5);
    assert!(!clock.observe(100));
    assert_eq!(clock.last_observed, 100);
    assert_eq!(clock.last_drift, 5);
}

#[test]
fn backward_jump_is_drift_and_resets_tracking() {
    let mut clock = GlobalClock::new(5);
    assert!(!clock.observe(100));
    assert!(clock.observe(50));
    assert_eq!(clock.last_observed, 0);
    // After the reset the next request re-baselines instead of re-triggering.
    assert!(!clock.observe(60));
    assert_eq!(clock.last_observed, 60);
}

#[test]
fn equal_reading_is_not_drift() {
    let mut clock = GlobalClock::new(5);
    assert!(!clock.observe(100));
    assert!(!clock.observe(100));
    assert_eq!(clock.last_observed, 100);
}
