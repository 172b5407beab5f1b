//! Failures of a device backend, as its vendor integration reports them.

use vstd::prelude::*;

verus! {

/// What a vendor integration can report: initialization found no usable
/// driver library, or a single query against the driver failed.
#[derive(Debug, Clone, Copy, PartialEq, Eq, Structural)]
pub enum BackendError {
    /// No candidate driver library could be initialized.
    NvmlInitError,
    /// The driver returned an error for one call.
    NvmlWrapperError,
}

impl BackendError {
    /// A short description, in place of a `Display` implementation.
    pub fn message(&self) -> (r: &'static str)
        ensures
            r@.len() > 0,
    {
        let r = match self {
            BackendError::NvmlInitError => "failed to initialize the driver library",
            BackendError::NvmlWrapperError => "driver query failed",
        };
        proof {
            reveal_strlit("failed to initialize the driver library");
            reveal_strlit("driver query failed");
        }
        r
    }
}

} // verus!
