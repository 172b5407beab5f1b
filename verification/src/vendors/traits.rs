//! The capability surface the core requires from a vendor's device
//! integration. The core consumes these interfaces only; each vendor
//! supplies an implementation outside the core, and a failed call degrades
//! to an unavailable field or device rather than poisoning the refresh.

use vstd::prelude::*;

use crate::nv_gpu::ProcessInfo;
use crate::vendors::error::BackendError;
use crate::vendors::types::{MemoryInfo, PowerInfo, Value};

verus! {

/// One device handle. Every accessor may fail on its own: a metric that a
/// device or driver combination does not support must not take the other
/// metrics down with it.
pub trait GpuInfo {
    fn index(&self) -> Result<Value<u32>, BackendError>;

    fn name(&self) -> Result<Value<String>, BackendError>;

    fn utilization(&self) -> Result<Value<u32>, BackendError>;

    fn temperature(&self) -> Result<Value<u32>, BackendError>;

    fn power_info(&self) -> Result<PowerInfo, BackendError>;

    fn memory_info(&self) -> Result<MemoryInfo, BackendError>;

    /// The processes currently using this device. Implementations hand
    /// back well-formed usage records.
    fn processes(&self) -> (r: Result<Vec<ProcessInfo>, BackendError>)
        ensures
            r matches Ok(v) ==> forall|i: int| 0 <= i < v@.len() ==> (#[trigger] v@[i]).wf(),
    ;
}

/// A whole vendor backend: how many devices there are, and a handle for
/// each.
pub trait GpuProviderInfo {
    type Dev: GpuInfo;

    fn device_count(&self) -> Result<Value<u32>, BackendError>;

    fn device_at(&self, index: u32) -> Result<Self::Dev, BackendError>;

    fn driver_version(&self) -> Result<Value<String>, BackendError>;
}

} // verus!
