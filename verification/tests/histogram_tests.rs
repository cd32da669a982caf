use wows_player_stats::histogram::{Histogram, RunningHistogram};

// One value unit is 1_000_000 ticks (VALUE_SCALE); one percentile point is
// 1_000 ticks (PCT_SCALE).

#[test]
fn bucket_size_is_hundredth_of_max() {
    // A histogram over [0, 100.0) has buckets 0.01 wide.
    let h = Histogram::new(100_000_000);
    assert_eq!(h.bucket_size(), 10_000);
}

#[test]
fn out_of_range_value_lands_in_last_bucket() {
    // Inserting 150.0 into a histogram over [0, 100.0) does not fail and
    // is counted in bucket 9999.
    let mut h = Histogram::new(100_000_000);
    h.increment(150_000_000);
    assert_eq!(h.bucket_count(9999), 1);
    assert_eq!(h.total(), 1);
}

#[test]
fn single_sample_round_trip_within_one_bucket() {
    // percentile(rank(v)) recovers v to within one bucket width.
    let max: u64 = 100_000_000;
    let v: u64 = 33_333_333;
    let mut h = Histogram::new(max);
    h.increment(v);
    let rank = h.get_percentile(v).unwrap();
    let recovered = h.percentile(rank).unwrap();
    assert!(recovered <= v);
    assert!(v - recovered <= max / 10_000 + 1);
    assert_eq!(recovered, 33_330_000);
}

#[test]
fn single_sample_ranks_at_top() {
    // The only sample ever inserted ranks as the highest data point.
    let mut h = Histogram::new(1_000_000);
    h.increment(400_000);
    let rank = h.get_percentile(400_000).unwrap();
    assert_eq!(rank, 99_951);
}

#[test]
fn empty_histogram_queries_fail() {
    let h = Histogram::new(1_000_000);
    assert!(h.percentile(50_000).is_err());
    assert!(h.get_percentile(5).is_err());
}

#[test]
fn snapshot_window_never_exceeds_ten() {
    // After target_refresh_interval * 12 samples the window still holds at
    // most ten snapshots.
    let mut rh = RunningHistogram::new(1_000_000);
    let target = rh.target_refresh_interval();
    assert_eq!(target, 1_000);
    for i in 0..(target * 12) {
        rh.increment(i % 1_000_000);
        assert!(rh.snapshot_count() <= 10);
    }
    assert_eq!(rh.snapshot_count(), 10);
}

#[test]
fn cold_running_histogram_answers_zero() {
    // A running histogram that has seen no sample answers rank 0, not an
    // error.
    let rh = RunningHistogram::new(1_000_000);
    assert_eq!(rh.percentile(123_456).unwrap(), 0);
}

#[test]
fn update_db_size_scales_refresh_interval() {
    let mut rh = RunningHistogram::new(1_000_000);
    rh.update_db_size(50_000);
    assert_eq!(rh.target_refresh_interval(), 5_000);
    // Small estimates are floored.
    rh.update_db_size(500);
    assert_eq!(rh.target_refresh_interval(), 1_000);
}

#[test]
fn warm_running_histogram_uses_oldest_snapshot() {
    let mut rh = RunningHistogram::new(1_000_000);
    for _ in 0..100 {
        rh.increment(250_000);
    }
    let p = rh.percentile(250_000).unwrap();
    assert!(p <= 100_000);
    assert!(p >= 99_000);
}
