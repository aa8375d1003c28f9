//! Telemetry retention and time-windowed query engine for a terminal
//! accelerator dashboard.
//!
//! The library ingests periodic per-device samples, keeps a bounded rolling
//! history per device (bounded by a retention horizon), and serves
//! range-filtered views to a renderer. Measurements are held as fixed-point
//! integers in thousandths of a unit, and instants as milliseconds, so the
//! whole engine is plain integer logic.

pub mod clock;
pub mod control;
pub mod display;
pub mod name;
pub mod parse;
pub mod sample;
pub mod series;
pub mod store;
pub mod tick;
pub mod window;

pub use sample::Sample;
pub use series::DeviceSeries;
pub use store::TelemetryStore;
