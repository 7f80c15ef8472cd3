//! Port-level value types: how a source describes itself and what its probes and
//! collection cycles report.

use crate::signal::Layer;
use crate::text::concat;
use std::time::Duration;
use vstd::prelude::*;

verus! {

/// Criticality of a source. A Critical source (host, self) that fails persistently takes
/// the process down; an Optional one only ever degrades.
#[derive(Debug, Clone, Copy, PartialEq, Eq, Structural)]
pub enum Criticality {
    Critical,
    Optional,
}

/// Static metadata for a source. The name is the supervisor's registry key.
#[derive(Debug, Clone)]
pub struct SourceDescriptor {
    pub name: String,
    pub layer: Layer,
    pub criticality: Criticality,
    pub default_interval: Duration,
}

impl SourceDescriptor {
    pub fn new(name: String, layer: Layer, criticality: Criticality, default_interval: Duration) -> (d:
        SourceDescriptor)
        ensures
            d.name@ == name@,
            d.layer == layer,
            d.criticality == criticality,
            d.default_interval == default_interval,
    {
        SourceDescriptor { name, layer, criticality, default_interval }
    }
}

/// Result of the initial target availability probe.
#[derive(Debug, Clone)]
pub enum ProbeResult {
    /// Target present; collection enabled.
    Ready,
    /// Target absent or unresponsive (degrades, never fatal).
    Unavailable(String),
    /// Does not apply to this host.
    NotApplicable,
    /// Only a Critical source may report this; it aborts boot.
    Fatal(String),
}

/// Why one collection cycle produced nothing.
#[derive(Debug, Clone)]
pub enum CollectError {
    Unavailable(String),
    Failed(String),
}

impl CollectError {
    /// The error as the supervisor reports it.
    pub fn message(&self) -> (s: String)
        ensures
            s@ == match self {
                CollectError::Unavailable(m) => "target unavailable: "@ + m@,
                CollectError::Failed(m) => "collection failed: "@ + m@,
            },
    {
        match self {
            CollectError::Unavailable(m) => concat("target unavailable: ", m.as_str()),
            CollectError::Failed(m) => concat("collection failed: ", m.as_str()),
        }
    }
}

/// Why an export batch was not delivered.
#[derive(Debug, Clone)]
pub enum ExportError {
    Failed(String),
}

impl ExportError {
    /// The error as it is logged.
    pub fn message(&self) -> (s: String)
        ensures
            s@ == match self {
                ExportError::Failed(m) => "export failed: "@ + m@,
            },
    {
        match self {
            ExportError::Failed(m) => concat("export failed: ", m.as_str()),
        }
    }
}

} // verus!
