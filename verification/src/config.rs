//! The configuration of the service: its two OTLP endpoints with their
//! tokens, and the exporters to run.

use vstd::prelude::*;

verus! {

/// An exporter that tails the log files matching a glob pattern.
#[derive(Debug)]
pub struct LogExporterConfig {
    /// The glob pattern of the files to tail.
    pub filename: String,
}

/// The exporter of the machine's metrics; it takes no settings.
#[derive(Debug)]
pub struct SystemExporterConfig {}

/// An exporter to run, as the configuration names it by its `type`.
#[derive(Debug)]
pub enum Exporter {
    System(SystemExporterConfig),
    Log(LogExporterConfig),
}

/// The whole configuration.
#[derive(Debug)]
pub struct Config {
    pub metrics_endpoint: String,
    pub metrics_token: String,
    pub logs_endpoint: String,
    pub logs_token: String,
    pub exporters: Vec<Exporter>,
}

} // verus!
