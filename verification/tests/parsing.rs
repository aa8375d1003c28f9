//! The probe-output adapter: field splitting, trimming, defaulting and
//! the whole-tick ingest path.

use gpu_telemetry::parse::{parse_line, parse_milli, parse_usize, split_lines, trim};
use gpu_telemetry::store::TelemetryStore;
use gpu_telemetry::tick::ingest_text;

#[test]
fn parses_a_typical_probe_line() {
    let line = b"0, NVIDIA GeForce RTX 3090, 85, 12000, 24576, 65, 250.50".to_vec();
    let rd = parse_line(&line, 9).unwrap();
    assert_eq!(rd.device_index, 0);
    assert_eq!(rd.name, b"NVIDIA GeForce RTX 3090".to_vec());
    assert_eq!(rd.utilization, 85_000);
    assert_eq!(rd.memory_used, 12_000_000);
    assert_eq!(rd.memory_total, 24_576_000);
    assert_eq!(rd.temperature, 65_000);
    assert_eq!(rd.power_draw, 250_500);
}

#[test]
fn short_line_is_dropped_whole() {
    let line = b"0, name, 85, 12000, 24576, 65".to_vec();
    assert!(parse_line(&line, 0).is_none());
    assert!(parse_line(&b"".to_vec(), 0).is_none());
}

#[test]
fn unparsable_index_falls_back_to_line_position() {
    let line = b"[N/A], dev, 1, 2, 3, 4, 5".to_vec();
    let rd = parse_line(&line, 3).unwrap();
    assert_eq!(rd.device_index, 3);
}

#[test]
fn unparsable_numeric_field_defaults_to_zero() {
    let line = b"1, dev, [N/A], 2, , 4, 5".to_vec();
    let rd = parse_line(&line, 0).unwrap();
    assert_eq!(rd.device_index, 1);
    assert_eq!(rd.utilization, 0);
    assert_eq!(rd.memory_used, 2_000);
    assert_eq!(rd.memory_total, 0);
    assert_eq!(rd.temperature, 4_000);
    assert_eq!(rd.power_draw, 5_000);
}

#[test]
fn milli_values_are_exact() {
    assert_eq!(parse_milli(&b"45.67".to_vec()), 45_670);
    assert_eq!(parse_milli(&b"-3.5".to_vec()), -3_500);
    assert_eq!(parse_milli(&b"0".to_vec()), 0);
    assert_eq!(parse_milli(&b"1.".to_vec()), 1_000);
    assert_eq!(parse_milli(&b".5".to_vec()), 500);
    assert_eq!(parse_milli(&b"12.3456".to_vec()), 12_345);
    assert_eq!(parse_milli(&b"100".to_vec()), 100_000);
}

#[test]
fn malformed_or_oversized_milli_is_zero() {
    assert_eq!(parse_milli(&b"".to_vec()), 0);
    assert_eq!(parse_milli(&b"abc".to_vec()), 0);
    assert_eq!(parse_milli(&b"1.2.3".to_vec()), 0);
    assert_eq!(parse_milli(&b"-".to_vec()), 0);
    assert_eq!(parse_milli(&b".".to_vec()), 0);
    assert_eq!(parse_milli(&b"99999999999999999999".to_vec()), 0);
}

#[test]
fn index_parsing_is_exact() {
    assert_eq!(parse_usize(&b"42".to_vec()), Some(42));
    assert_eq!(parse_usize(&b"0".to_vec()), Some(0));
    assert_eq!(parse_usize(&b"".to_vec()), None);
    assert_eq!(parse_usize(&b"4x".to_vec()), None);
    assert_eq!(parse_usize(&b"-1".to_vec()), None);
    assert_eq!(parse_usize(&b"99999999999999999999999".to_vec()), None);
}

#[test]
fn trim_strips_both_ends_only() {
    assert_eq!(trim(&b"  a b \t".to_vec()), b"a b".to_vec());
    assert_eq!(trim(&b"x".to_vec()), b"x".to_vec());
    assert_eq!(trim(&b"   ".to_vec()), b"".to_vec());
}

#[test]
fn lines_split_like_the_probe_emits_them() {
    let lines = split_lines(&b"a,b\r\nc,d\n".to_vec());
    assert_eq!(lines.len(), 2);
    assert_eq!(lines[0], b"a,b".to_vec());
    assert_eq!(lines[1], b"c,d".to_vec());
    assert!(split_lines(&b"".to_vec()).is_empty());
}

#[test]
fn whole_tick_ingests_every_good_line() {
    let text = b"0, Card A, 10, 100, 200, 30, 40\n\
                 1, Card B, 90.5, 150, 200, 85, 300\n\
                 garbage line\n"
        .to_vec();
    let mut store = TelemetryStore::new();
    ingest_text(&mut store, &text, 1_000, 3_600_000);
    assert_eq!(store.device_count(), 2);
    assert_eq!(store.devices[0].display_name, b"Card A".to_vec());
    assert_eq!(store.devices[1].display_name, b"Card B".to_vec());
    let latest = store.latest(1).unwrap();
    assert_eq!(latest.timestamp, 1_000);
    assert_eq!(latest.utilization, 90_500);
}

#[test]
fn tick_with_index_gap_grows_placeholders() {
    let text = b"2, Far Card, 1, 2, 3, 4, 5\n".to_vec();
    let mut store = TelemetryStore::new();
    ingest_text(&mut store, &text, 500, 3_600_000);
    assert_eq!(store.device_count(), 3);
    assert_eq!(store.devices[0].display_name, b"GPU 0".to_vec());
    assert_eq!(store.devices[1].display_name, b"GPU 1".to_vec());
    assert_eq!(store.devices[2].display_name, b"Far Card".to_vec());
}

#[test]
fn repeated_ticks_evict_against_the_horizon() {
    let mut store = TelemetryStore::new();
    for k in 0..10u64 {
        let text = b"0, dev, 5, 6, 7, 8, 9\n".to_vec();
        ingest_text(&mut store, &text, k * 1_000, 5_000);
    }
    // now = 9_000, horizon 5s: only samples at 4_000..9_000 remain.
    let stamps: Vec<u64> = store
        .query_at(0, 5_000, 9_000)
        .iter()
        .map(|s| s.timestamp)
        .collect();
    assert_eq!(stamps, vec![4_000, 5_000, 6_000, 7_000, 8_000, 9_000]);
}
