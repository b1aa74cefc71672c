use approx_count::hll::HyperLogLog;

#[test]
fn estimate_cardinality_test() {
    let mut obj = HyperLogLog::new(3);
    assert_eq!(obj.get_cardinality(), 0);

    obj.add_elem(0);
    obj.compute_cardinality();
    let ans = obj.get_cardinality();
    assert_eq!(ans, 7);

    for _ in 0..10 {
        obj.add_elem(10);
        obj.add_elem(122);
        obj.add_elem(200);
        obj.add_elem(911);
        obj.add_elem(999);
        obj.add_elem(1402);
        obj.add_elem(15445);
        obj.add_elem(15645);
        obj.add_elem(123456);
        obj.add_elem(312457);

        if obj.get_cardinality() == 20 {
            obj.compute_cardinality();
            let ans = obj.get_cardinality();
            assert_eq!(ans, 20);
        }
    }

    for _ in 0..10 {
        obj.add_elem(-1i64 as u64);
        obj.add_elem(-2i64 as u64);
        obj.add_elem(-3i64 as u64);
        obj.add_elem(-4i64 as u64);
        obj.add_elem(-5i64 as u64);
        obj.add_elem(-6i64 as u64);
        obj.add_elem(-7i64 as u64);
        obj.add_elem(-8i64 as u64);
        obj.add_elem(-9i64 as u64);
        obj.add_elem(-27i64 as u64);

        if obj.get_cardinality() == 41 {
            obj.compute_cardinality();
            let ans = obj.get_cardinality();
            assert_eq!(ans, 41);
        }
    }

    obj.compute_cardinality();
    let ans = obj.get_cardinality();
    assert_eq!(ans, 41);
}

#[test]
fn edge_test_1() {
    let mut obj = HyperLogLog::new(-2);
    obj.compute_cardinality();
    assert_eq!(obj.get_cardinality(), 0);
}

#[test]
fn edge_test_2() {
    let mut obj = HyperLogLog::new(0);
    obj.compute_cardinality();
    assert_eq!(obj.get_cardinality(), 0);

    obj.add_elem(1);
    obj.compute_cardinality();
    assert_eq!(obj.get_cardinality(), 1);

    obj.add_elem(-1i64 as u64);
    obj.compute_cardinality();
    assert_eq!(obj.get_cardinality(), 3);
}

#[test]
fn bucket_count_follows_precision() {
    assert_eq!(HyperLogLog::new(0).bucket_count(), 1);
    assert_eq!(HyperLogLog::new(3).bucket_count(), 8);
    assert_eq!(HyperLogLog::new(6).bucket_count(), 64);
    assert_eq!(HyperLogLog::new(-1).bucket_count(), 0);
    assert_eq!(HyperLogLog::new(7).bucket_count(), 0);
}

#[test]
fn fresh_estimator_reports_zero() {
    for p in [-3i16, 0, 1, 4, 6, 100] {
        let mut obj = HyperLogLog::new(p);
        assert_eq!(obj.get_cardinality(), 0);
        obj.compute_cardinality();
        assert_eq!(obj.get_cardinality(), 0);
    }
}

#[test]
fn compute_is_idempotent() {
    let mut obj = HyperLogLog::new(3);
    obj.add_elem(77);
    let first = obj.compute_cardinality();
    assert_eq!(obj.get_cardinality(), first);
    let second = obj.compute_cardinality();
    assert_eq!(second, first);
    assert_eq!(obj.get_cardinality(), first);
}

#[test]
fn repeats_leave_state_unchanged() {
    let mut once = HyperLogLog::new(4);
    once.add_elem(5);
    once.compute_cardinality();

    let mut many = HyperLogLog::new(4);
    for _ in 0..50 {
        many.add_elem(5);
    }
    many.compute_cardinality();

    assert_eq!(once.get_cardinality(), many.get_cardinality());
}

#[test]
fn estimate_never_decreases_as_elements_arrive() {
    let mut obj = HyperLogLog::new(4);
    let mut last = 0u64;
    for v in 0..200u64 {
        obj.add_elem(v.wrapping_mul(0x9e3779b97f4a7c15));
        obj.compute_cardinality();
        let now = obj.get_cardinality();
        assert!(now >= last);
        last = now;
    }
}

#[test]
fn large_stream_estimate_within_error_bound() {
    // 10,000 distinct values at precision 4: the classic relative standard
    // error is about 1.04 / sqrt(16) = 26%; allow a generous margin.
    let mut obj = HyperLogLog::new(4);
    for v in 0..10000u64 {
        obj.add_elem(v);
    }
    obj.compute_cardinality();
    let est = obj.get_cardinality();
    assert!(est >= 5000, "estimate {} far below truth", est);
    assert!(est <= 20000, "estimate {} far above truth", est);
}

#[test]
fn duplicate_heavy_stream_counts_distinct_values() {
    // 10 distinct values repeated 1,000 times each estimate like 10
    // distinct values, nowhere near 10,000.
    let mut obj = HyperLogLog::new(4);
    for _ in 0..1000 {
        for v in 0..10u64 {
            obj.add_elem(v);
        }
    }
    obj.compute_cardinality();
    let est = obj.get_cardinality();
    assert_eq!(est, 20);
    assert!(est < 100);
}

#[test]
fn single_element_scenario() {
    // One element in an eight-bucket estimator: a deterministic, non-zero
    // estimate fixed by the library's hash function.
    let mut obj = HyperLogLog::new(3);
    assert_eq!(obj.bucket_count(), 8);
    obj.add_elem(0);
    obj.compute_cardinality();
    assert!(obj.get_cardinality() > 0);
    assert_eq!(obj.get_cardinality(), 7);
}
