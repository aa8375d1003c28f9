//! Display policy, window selection, interface state and generated names.

use gpu_telemetry::control::{blink_on, glitch_on, InputEvent, UiState};
use gpu_telemetry::display::{
    clock_fields, gauge_percent, mem_percent_milli, temp_level, temp_points, uptime_millis,
    util_level, util_points, LoadLevel,
};
use gpu_telemetry::name::placeholder;
use gpu_telemetry::sample::Sample;
use gpu_telemetry::store::TelemetryStore;
use gpu_telemetry::window::{retention_horizon_millis, window_millis, WindowSelection, WINDOW_COUNT};

#[test]
fn placeholder_names_are_gpu_and_index() {
    assert_eq!(placeholder(0), b"GPU 0".to_vec());
    assert_eq!(placeholder(7), b"GPU 7".to_vec());
    assert_eq!(placeholder(42), b"GPU 42".to_vec());
    assert_eq!(placeholder(1200), b"GPU 1200".to_vec());
}

#[test]
fn windows_run_longest_to_shortest() {
    let expected: [u64; 9] = [
        3_600_000, 1_800_000, 900_000, 600_000, 300_000, 180_000, 60_000, 30_000, 10_000,
    ];
    for (i, want) in expected.iter().enumerate() {
        assert_eq!(window_millis(i), *want);
    }
}

#[test]
fn horizon_covers_every_selectable_window() {
    for i in 0..WINDOW_COUNT {
        assert!(window_millis(i) <= retention_horizon_millis());
    }
}

#[test]
fn window_cycling_clamps_at_both_ends() {
    let mut sel = WindowSelection::new();
    assert_eq!(sel.index, 0);
    sel.select_longer();
    assert_eq!(sel.index, 0);
    for _ in 0..20 {
        sel.select_shorter();
    }
    assert_eq!(sel.index, WINDOW_COUNT - 1);
    sel.select_shorter();
    assert_eq!(sel.index, WINDOW_COUNT - 1);
    sel.select_longer();
    assert_eq!(sel.index, WINDOW_COUNT - 2);
}

#[test]
fn ui_state_handles_events() {
    let mut ui = UiState::new();
    assert!(!ui.handle(InputEvent::Other));
    assert_eq!(ui.window.index, 0);
    assert!(!ui.handle(InputEvent::ShorterWindow));
    assert_eq!(ui.window.index, 1);
    assert!(!ui.handle(InputEvent::LongerWindow));
    assert_eq!(ui.window.index, 0);
    assert!(ui.handle(InputEvent::Quit));
    assert_eq!(ui.window.index, 0);
}

#[test]
fn frame_counter_ticks_and_wraps() {
    let mut ui = UiState::new();
    ui.tick();
    ui.tick();
    assert_eq!(ui.frame_count, 2);
    ui.frame_count = u64::MAX;
    ui.tick();
    assert_eq!(ui.frame_count, 0);
}

#[test]
fn decorations_follow_the_frame_counter() {
    assert!(glitch_on(0));
    assert!(glitch_on(11));
    assert!(!glitch_on(5));
    assert!(blink_on(9));
    assert!(!blink_on(10));
}

#[test]
fn utilization_bands() {
    assert_eq!(util_level(90_001), LoadLevel::High);
    assert_eq!(util_level(90_000), LoadLevel::Medium);
    assert_eq!(util_level(50_001), LoadLevel::Medium);
    assert_eq!(util_level(50_000), LoadLevel::Low);
    assert_eq!(util_level(-5), LoadLevel::Low);
}

#[test]
fn temperature_bands() {
    assert_eq!(temp_level(80_001), LoadLevel::High);
    assert_eq!(temp_level(80_000), LoadLevel::Medium);
    assert_eq!(temp_level(60_000), LoadLevel::Low);
}

#[test]
fn gauge_percent_clamps() {
    assert_eq!(gauge_percent(85_400), 85);
    assert_eq!(gauge_percent(-3_000), 0);
    assert_eq!(gauge_percent(250_000), 100);
}

#[test]
fn memory_percent_is_exact_and_guarded() {
    assert_eq!(mem_percent_milli(12_000_000, 24_576_000), 48_828);
    assert_eq!(mem_percent_milli(1, 2), 50_000);
    assert_eq!(mem_percent_milli(5, 0), 0);
    assert_eq!(mem_percent_milli(-1, 10), 0);
    assert_eq!(mem_percent_milli(300, 100), 100_000);
}

#[test]
fn sparkline_points_are_whole_units() {
    let samples = vec![
        Sample::new(1, 85_400, 0, 0, 61_900, 0),
        Sample::new(2, -2_000, 0, 0, 30_000, 0),
    ];
    assert_eq!(util_points(&samples), vec![85, 0]);
    assert_eq!(temp_points(&samples), vec![61, 30]);
}

#[test]
fn uptime_runs_from_the_oldest_sample_of_device_zero() {
    let mut store = TelemetryStore::new();
    assert_eq!(uptime_millis(&store, 1_000), 0);
    store.ingest(
        0,
        b"dev".to_vec(),
        Sample::new(400, 0, 0, 0, 0, 0),
        3_600_000,
    );
    assert_eq!(uptime_millis(&store, 1_000), 600);
    assert_eq!(uptime_millis(&store, 100), 0);
}

#[test]
fn clock_fields_split_a_duration() {
    let (h, m, s) = clock_fields(3_600_000 + 23 * 60_000 + 45_000);
    assert_eq!((h, m, s), (1, 23, 45));
    assert_eq!(clock_fields(0), (0, 0, 0));
}
