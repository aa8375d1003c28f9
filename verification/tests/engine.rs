//! Retention, eviction and query behaviour of the store and series.

use gpu_telemetry::sample::Sample;
use gpu_telemetry::series::DeviceSeries;
use gpu_telemetry::store::TelemetryStore;

fn sample_at(t: u64) -> Sample {
    Sample::new(t, 50_000, 1_000_000, 2_000_000, 40_000, 150_000)
}

#[test]
fn filtered_returns_exact_subset_in_order() {
    let mut series = DeviceSeries::new(0, b"dev".to_vec());
    for t in [100u64, 200, 300, 400, 500] {
        assert!(series.push(sample_at(t), 1_000_000));
    }
    let got = series.filtered(300);
    let stamps: Vec<u64> = got.iter().map(|s| s.timestamp).collect();
    assert_eq!(stamps, vec![300, 400, 500]);
}

#[test]
fn filtered_on_empty_series_is_empty() {
    let series = DeviceSeries::new(0, b"dev".to_vec());
    assert!(series.filtered(0).is_empty());
}

#[test]
fn eviction_keeps_no_sample_older_than_horizon() {
    let mut series = DeviceSeries::new(0, b"dev".to_vec());
    let horizon = 1_000u64;
    for t in (0..5_000).step_by(100) {
        assert!(series.push(sample_at(t), horizon));
    }
    let now = 4_900u64;
    let all = series.filtered(0);
    assert!(!all.is_empty());
    for s in &all {
        assert!(s.timestamp >= now - horizon);
    }
    assert_eq!(all.first().unwrap().timestamp, now - horizon);
}

#[test]
fn out_of_order_push_is_rejected_no_op() {
    let mut series = DeviceSeries::new(0, b"dev".to_vec());
    assert!(series.push(sample_at(500), 1_000_000));
    assert!(!series.push(sample_at(400), 1_000_000));
    let stamps: Vec<u64> = series.filtered(0).iter().map(|s| s.timestamp).collect();
    assert_eq!(stamps, vec![500]);
}

#[test]
fn equal_timestamp_push_is_accepted() {
    let mut series = DeviceSeries::new(0, b"dev".to_vec());
    assert!(series.push(sample_at(500), 1_000_000));
    assert!(series.push(sample_at(500), 1_000_000));
    assert_eq!(series.filtered(0).len(), 2);
}

#[test]
fn latest_returns_newest_sample() {
    let mut series = DeviceSeries::new(0, b"dev".to_vec());
    assert!(series.latest().is_none());
    assert!(series.push(sample_at(100), 1_000_000));
    assert!(series.push(sample_at(250), 1_000_000));
    assert_eq!(series.latest().unwrap().timestamp, 250);
}

#[test]
fn query_out_of_range_index_is_empty() {
    let mut store = TelemetryStore::new();
    store.ingest(0, b"dev".to_vec(), sample_at(100), 1_000_000);
    assert!(store.query_at(5, 1_000_000, 100).is_empty());
}

#[test]
fn query_on_empty_store_is_empty() {
    let store = TelemetryStore::new();
    assert!(store.query_at(0, 1_000_000, 0).is_empty());
    assert!(store.query_at(0, 10_000, 987_654_321).is_empty());
    assert!(store.query(0, 60_000).is_empty());
}

#[test]
fn gap_fill_creates_placeholder_devices() {
    let mut store = TelemetryStore::new();
    store.ingest(3, b"RTX 3090".to_vec(), sample_at(100), 1_000_000);
    assert_eq!(store.device_count(), 4);
    assert_eq!(store.devices[0].display_name, b"GPU 0".to_vec());
    assert_eq!(store.devices[1].display_name, b"GPU 1".to_vec());
    assert_eq!(store.devices[2].display_name, b"GPU 2".to_vec());
    assert_eq!(store.devices[3].display_name, b"RTX 3090".to_vec());
    assert!(store.query_at(0, 1_000_000, 100).is_empty());
    assert_eq!(store.query_at(3, 1_000_000, 100).len(), 1);
}

#[test]
fn naming_is_last_write_wins_and_both_samples_stay() {
    let mut store = TelemetryStore::new();
    store.ingest(0, b"first name".to_vec(), sample_at(100), 1_000_000);
    store.ingest(0, b"second name".to_vec(), sample_at(200), 1_000_000);
    assert_eq!(store.devices[0].display_name, b"second name".to_vec());
    let stamps: Vec<u64> = store
        .query_at(0, 1_000_000, 200)
        .iter()
        .map(|s| s.timestamp)
        .collect();
    assert_eq!(stamps, vec![100, 200]);
}

#[test]
fn horizon_scenario_eight_samples_sixty_second_window() {
    let mut store = TelemetryStore::new();
    let horizon = 60_000u64;
    for k in 0..8u64 {
        let t = k * 10_000;
        store.ingest(0, b"dev".to_vec(), sample_at(t), horizon);
    }
    // now = 70_000, so now - horizon = 10_000: the t=0 sample is gone.
    let got = store.query_at(0, 60_000, 70_000);
    let stamps: Vec<u64> = got.iter().map(|s| s.timestamp).collect();
    assert_eq!(
        stamps,
        vec![10_000, 20_000, 30_000, 40_000, 50_000, 60_000, 70_000]
    );
}

#[test]
fn query_window_narrower_than_retention() {
    let mut store = TelemetryStore::new();
    for t in [0u64, 10_000, 20_000, 30_000] {
        store.ingest(0, b"dev".to_vec(), sample_at(t), 3_600_000);
    }
    let got = store.query_at(0, 15_000, 30_000);
    let stamps: Vec<u64> = got.iter().map(|s| s.timestamp).collect();
    assert_eq!(stamps, vec![20_000, 30_000]);
}

#[test]
fn ingest_reports_out_of_order_sample() {
    let mut store = TelemetryStore::new();
    assert!(store.ingest(0, b"dev".to_vec(), sample_at(500), 1_000_000));
    assert!(!store.ingest(0, b"newer".to_vec(), sample_at(400), 1_000_000));
    // The rejected sample changed no history, but the name still follows
    // the last observation.
    assert_eq!(store.query_at(0, 1_000_000, 500).len(), 1);
    assert_eq!(store.devices[0].display_name, b"newer".to_vec());
}

#[test]
fn latest_of_store() {
    let mut store = TelemetryStore::new();
    assert!(store.latest(0).is_none());
    store.ingest(0, b"dev".to_vec(), sample_at(100), 1_000_000);
    store.ingest(0, b"dev".to_vec(), sample_at(300), 1_000_000);
    assert_eq!(store.latest(0).unwrap().timestamp, 300);
    assert!(store.latest(1).is_none());
}

#[test]
fn sample_fields_are_kept_verbatim() {
    let s = Sample::new(7, -1_000, 2, 3, -40_500, 5);
    assert_eq!(s.timestamp, 7);
    assert_eq!(s.utilization, -1_000);
    assert_eq!(s.memory_used, 2);
    assert_eq!(s.memory_total, 3);
    assert_eq!(s.temperature, -40_500);
    assert_eq!(s.power_draw, 5);
}
