//! astral-watch — per-pin 12V-2x6 power telemetry for ASUS ROG Astral GPUs on Linux.
//!
//! The card carries an ITE IT8915FN microcontroller on the GPU's i2c bus that reports
//! per-pin voltage and current for all six 12V pins of the 12V-2x6 (12VHPWR) connector.
//! This crate holds everything that is decided and computed from it: reading the chip (read-only),
//! decoding, alerts on overload / disconnect / imbalance — the connector-melt early-warning — and
//! their debounced lifecycle, the CSV, the metrics, the notifications, the dashboard, and the
//! opt-in power cap.
//!
//! Measurements are kept in the chip's own units (millivolts, milliamps). What is worked out from
//! them is 64-bit floating point, stated and computed in whole numbers by [`double`], so that
//! every comparison and every printed digit is pinned down.

pub mod alarm_laws;
pub mod alert;
pub mod alert_laws;
pub mod big;
pub mod bus_laws;
pub mod card_laws;
pub mod cards;
pub mod clock;
pub mod config;
pub mod config_laws;
pub mod dashboard;
pub mod dashboard_laws;
pub mod decode;
pub mod double;
pub mod double_laws;
pub mod exporter;
pub mod exporter_laws;
pub mod gauge_laws;
pub mod i2c;
pub mod lifecycle;
pub mod lifecycle_laws;
pub mod logger;
pub mod logger_laws;
pub mod metrics;
pub mod metrics_laws;
pub mod monitor;
pub mod monitor_laws;
pub mod notify;
pub mod notify_laws;
pub mod number;
pub mod numeral_laws;
pub mod panel_laws;
pub mod panels;
pub mod reading_laws;
pub mod recorder;
pub mod safety;
pub mod safety_laws;
pub mod smi;
pub mod text;
pub mod text_laws;
