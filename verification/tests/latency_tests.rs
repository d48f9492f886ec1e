use lance_engines::latency::{percentile, LatencyStats, LatencySummary};

#[test]
fn test_latency_summary() {
    let mut stats = LatencyStats::default();
    stats.add_sample(10);
    stats.add_sample(20);
    stats.add_sample(30);

    let summary = stats.summary().expect("summary");
    assert_eq!(summary.count, 3);
    assert_eq!(summary.avg_us, 20);
    assert_eq!(summary.p50_us, 20);
    assert_eq!(summary.p90_us, 30);
    assert_eq!(summary.p99_us, 30);
    assert_eq!(summary.max_us, 30);
}

#[test]
fn test_percentile_rounding() {
    let mut stats = LatencyStats::default();
    for value in [5_u64, 10, 15, 20] {
        stats.add_sample(value);
    }
    let summary = stats.summary().expect("summary");
    assert_eq!(summary.p50_us, 15);
    assert_eq!(summary.p90_us, 20);
}

#[test]
fn empty_stats_have_no_summary() {
    let stats = LatencyStats::new();
    assert_eq!(stats.summary(), None);
}

#[test]
fn summary_sorts_samples_added_out_of_order() {
    let mut stats = LatencyStats::new();
    for value in [30_u64, 10, 20] {
        stats.add_sample(value);
    }
    let summary = stats.summary().expect("summary");
    assert_eq!(
        summary,
        LatencySummary { count: 3, avg_us: 20, p50_us: 20, p90_us: 30, p99_us: 30, max_us: 30 }
    );
}

#[test]
fn summary_does_not_depend_on_insertion_order() {
    let values = [7_u64, 3, 9, 3, 100, 0, 42, 8, 15, 1];
    let mut forward = LatencyStats::new();
    let mut backward = LatencyStats::new();
    for v in values.iter() {
        forward.add_sample(*v);
    }
    for v in values.iter().rev() {
        backward.add_sample(*v);
    }
    assert_eq!(forward.summary(), backward.summary());
}

#[test]
fn mean_rounds_halves_up() {
    let mut stats = LatencyStats::new();
    stats.add_sample(1);
    stats.add_sample(2);
    // mean 1.5 rounds to 2
    assert_eq!(stats.summary().unwrap().avg_us, 2);
    let mut stats = LatencyStats::new();
    for v in [1_u64, 1, 2] {
        stats.add_sample(v);
    }
    // mean 1.33 rounds to 1
    assert_eq!(stats.summary().unwrap().avg_us, 1);
}

#[test]
fn mean_of_largest_samples_does_not_overflow() {
    let mut stats = LatencyStats::new();
    stats.add_sample(u64::MAX);
    stats.add_sample(u64::MAX);
    stats.add_sample(u64::MAX - 1);
    let summary = stats.summary().unwrap();
    assert_eq!(summary.avg_us, u64::MAX);
    assert_eq!(summary.max_us, u64::MAX);
    assert_eq!(summary.p50_us, u64::MAX);
}

#[test]
fn single_sample_gives_every_statistic() {
    let mut stats = LatencyStats::new();
    stats.add_sample(123);
    let s = stats.summary().unwrap();
    assert_eq!(
        s,
        LatencySummary { count: 1, avg_us: 123, p50_us: 123, p90_us: 123, p99_us: 123, max_us: 123 }
    );
}

#[test]
fn percentiles_of_one_hundred_values() {
    let mut stats = LatencyStats::new();
    for v in 1..=100_u64 {
        stats.add_sample(v);
    }
    let s = stats.summary().unwrap();
    // indices round(99 * p): 50 -> 50 (49.5 rounds up), 90 -> 89 (89.1), 99 -> 98 (98.01)
    assert_eq!(s.p50_us, 51);
    assert_eq!(s.p90_us, 90);
    assert_eq!(s.p99_us, 99);
    assert_eq!(s.max_us, 100);
    assert_eq!(s.avg_us, 51);
    assert_eq!(s.count, 100);
}

#[test]
fn percentile_helper_matches_nearest_rank_rounding() {
    let sorted = vec![5_u64, 10, 15, 20];
    assert_eq!(percentile(&sorted, 50), 15);
    assert_eq!(percentile(&sorted, 90), 20);
    assert_eq!(percentile(&sorted, 0), 5);
    assert_eq!(percentile(&sorted, 1000), 20);
    assert_eq!(percentile(&Vec::new(), 50), 0);
}

#[test]
fn percentile_agrees_with_floating_point_rounding() {
    for len in 1..300_usize {
        let sorted: Vec<u64> = (0..len as u64).collect();
        for (per, p) in [(50_u32, 0.5_f64), (90, 0.9), (99, 0.99)] {
            let idx = ((len - 1) as f64 * p + 0.5).floor() as usize;
            assert_eq!(percentile(&sorted, per), sorted[idx.min(len - 1)], "len {len} p {p}");
        }
    }
}

#[test]
fn adding_a_sample_raises_count_and_maximum() {
    let mut stats = LatencyStats::new();
    stats.add_sample(40);
    stats.add_sample(10);
    let before = stats.summary().expect("samples");
    stats.add_sample(25);
    let after = stats.summary().expect("samples");
    assert_eq!(after.count, before.count + 1);
    assert_eq!(after.max_us, 40);
    stats.add_sample(90);
    assert_eq!(stats.summary().expect("samples").max_us, 90);
}
