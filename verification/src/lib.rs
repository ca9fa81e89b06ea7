//! Verified core of an OpenTelemetry exporter service: the model of its
//! configuration, the decisions of the log-file tailer, the readings of the
//! system exporter, and the control loop that drives the exporters.

pub mod attributes;
pub mod config;
pub mod text;
pub mod record;
pub mod exporter;
pub mod log_tail;
pub mod system;
pub mod otlp;
pub mod run;
