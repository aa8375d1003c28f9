//! The clock-backed conveniences, run against the real wall clock.

use gpu_telemetry::clock::current_instant;
use gpu_telemetry::store::TelemetryStore;
use gpu_telemetry::tick::ingest_text_now;

#[test]
fn clock_backed_tick_ingests_at_the_current_instant() {
    let mut store = TelemetryStore::new();
    ingest_text_now(&mut store, &b"0, dev, 1, 2, 3, 4, 5\n".to_vec());
    assert_eq!(store.device_count(), 1);
    let stamped = store.latest(0).unwrap().timestamp;
    assert!(stamped > 0);
    assert!(current_instant() >= stamped);
}

#[test]
fn default_store_is_empty() {
    let store = TelemetryStore::default();
    assert_eq!(store.device_count(), 0);
}

#[test]
fn default_ui_state_is_initial() {
    let ui = gpu_telemetry::control::UiState::default();
    assert_eq!(ui.frame_count, 0);
    assert_eq!(ui.window.index, 0);
}
