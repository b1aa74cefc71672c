use approx_count::morris::ApprxCounter;

#[test]
fn test_new_counter() {
    let counter = ApprxCounter::new();
    assert_eq!(counter.scale(), 0);
}

#[test]
fn test_increment() {
    let mut counter = ApprxCounter::new();
    let initial_count = counter.scale();
    counter.increment();

    assert!(counter.scale() >= initial_count);
}

#[test]
fn test_multiple_increments() {
    let mut counter = ApprxCounter::new();
    for _ in 0..100 {
        counter.increment();
    }
    assert!(counter.scale() > 0);
}

#[test]
fn first_increment_always_counts() {
    let mut counter = ApprxCounter::new();
    counter.increment();
    assert_eq!(counter.scale(), 1);
    assert_eq!(counter.estimate(), 1);
}

#[test]
fn fresh_counter_estimates_zero() {
    let counter = ApprxCounter::new();
    assert_eq!(counter.estimate(), 0);
}

#[test]
fn acceptance_rule_is_exact() {
    let mut counter = ApprxCounter::new();
    // Scale zero accepts any draw.
    counter.increment_with(u64::MAX);
    assert_eq!(counter.scale(), 1);
    assert_eq!(counter.estimate(), 1);
    // At scale 1 the threshold is 2^63: a draw just below it is accepted.
    counter.increment_with((1u64 << 63) - 1);
    assert_eq!(counter.scale(), 2);
    assert_eq!(counter.estimate(), 3);
    // At scale 2 the threshold is 2^62: a draw at the threshold is not.
    counter.increment_with(1u64 << 62);
    assert_eq!(counter.scale(), 2);
    assert_eq!(counter.estimate(), 3);
    counter.increment_with(0);
    assert_eq!(counter.scale(), 3);
    assert_eq!(counter.estimate(), 7);
}

#[test]
fn scale_and_estimate_never_decrease() {
    let mut counter = ApprxCounter::new();
    let mut last_scale = 0u32;
    let mut last_estimate = 0u64;
    for _ in 0..10000 {
        counter.increment();
        let s = counter.scale();
        let e = counter.estimate();
        assert!(s >= last_scale);
        assert!(e >= last_estimate);
        last_scale = s;
        last_estimate = e;
    }
}

#[test]
fn growth_law_tracks_event_count() {
    // Drive the acceptance rule with a fixed linear-congruential stream, so
    // the run is deterministic: after 100,000 events the scale is 16 and the
    // estimate 2^16 - 1, within a factor of two of the true count.
    let mut counter = ApprxCounter::new();
    let mut state: u64 = 42;
    for _ in 0..100000 {
        state = state
            .wrapping_mul(6364136223846793005)
            .wrapping_add(1442695040888963407);
        counter.increment_with(state);
    }
    assert_eq!(counter.scale(), 16);
    assert_eq!(counter.estimate(), 65535);
    assert!(counter.estimate() >= 100000 / 2);
    assert!(counter.estimate() <= 100000 * 2);
}

#[test]
fn scale_saturates_instead_of_overflowing() {
    let mut counter = ApprxCounter::new();
    // A draw of zero is below every threshold, so each event is accepted
    // until the scale saturates.
    for _ in 0..200 {
        counter.increment_with(0);
    }
    assert_eq!(counter.scale(), 64);
    assert_eq!(counter.estimate(), u64::MAX);
    counter.increment_with(0);
    assert_eq!(counter.scale(), 64);
}
