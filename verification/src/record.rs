//! Log records that the service hands to its OpenTelemetry logger.

use vstd::prelude::*;

use crate::attributes::{pairs, Attribute};

verus! {

/// The severity of a log record.
#[derive(Debug, Clone, Copy, PartialEq, Eq, Structural)]
pub enum Severity {
    Info,
    Error,
}

/// A log record: its severity, its body and its attributes.
#[derive(Debug)]
pub struct LogEntry {
    pub severity: Severity,
    pub body: String,
    pub attributes: Vec<Attribute>,
}

impl View for LogEntry {
    type V = (Severity, Seq<char>, Seq<(Seq<char>, Seq<char>)>);

    open spec fn view(&self) -> (Severity, Seq<char>, Seq<(Seq<char>, Seq<char>)>) {
        (self.severity, self.body@, pairs(self.attributes@))
    }
}

/// A message of the service about itself, timestamped when it is emitted.
#[derive(Debug)]
pub struct LogLine {
    pub severity: Severity,
    pub message: String,
}

impl View for LogLine {
    type V = (Severity, Seq<char>);

    open spec fn view(&self) -> (Severity, Seq<char>) {
        (self.severity, self.message@)
    }
}

} // verus!
