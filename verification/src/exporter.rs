//! The interface that every exporter of the service offers to the control loop.

use vstd::prelude::*;

verus! {

/// Why an export failed, as a readable message.
#[derive(Debug)]
pub struct ExportError {
    pub message: String,
}

/// A source of telemetry that the control loop polls.
pub trait Exporter {
    /// Reads the source once and hands what it found to OpenTelemetry.
    fn export(&mut self) -> Result<(), ExportError>;
}

} // verus!
