//! Error kinds for a telemetry refresh.
//!
//! Backend-initialization failures and a failed device-count query are fatal
//! to a refresh; metric- and device-scoped failures degrade single fields; an
//! unreachable container runtime only disables attribution.

use vstd::prelude::*;

verus! {

/// One refresh either succeeds, degrades a field, or fails with one of these.
#[derive(Debug, Clone, Copy, PartialEq, Eq, Structural)]
pub enum GMONError {
    /// The driver library could not be initialized from any candidate path.
    NvmlInitError,
    /// The device backend cannot be reached at all; fatal to the refresh.
    BackendUnavailable,
    /// A device index is out of range; scoped to that device.
    DeviceNotFound,
    /// A single metric query failed; scoped to that metric.
    QueryError,
    /// The container runtime is absent or unreachable; attribution is
    /// disabled for the refresh, nothing else fails.
    RuntimeUnavailable,
    /// A metric token could not be parsed into a value.
    MalformedValue,
}

impl GMONError {
    /// A short description, in place of a `Display` implementation.
    pub fn message(&self) -> (r: &'static str)
        ensures
            r@.len() > 0,
    {
        let r = match self {
            GMONError::NvmlInitError => "failed to initialize nvml",
            GMONError::BackendUnavailable => "device backend unavailable",
            GMONError::DeviceNotFound => "device index out of range",
            GMONError::QueryError => "metric query failed",
            GMONError::RuntimeUnavailable => "container runtime unavailable",
            GMONError::MalformedValue => "malformed metric token",
        };
        proof {
            reveal_strlit("failed to initialize nvml");
            reveal_strlit("device backend unavailable");
            reveal_strlit("device index out of range");
            reveal_strlit("metric query failed");
            reveal_strlit("container runtime unavailable");
            reveal_strlit("malformed metric token");
        }
        r
    }
}

} // verus!
