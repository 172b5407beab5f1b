//! The snapshot assembler: one immutable world view per refresh.
//!
//! Per-metric query results are folded into a device record with every
//! failed metric explicitly unavailable — a single failing accessor
//! degrades that field only, never the device or the refresh. Only the
//! device-count query is fatal. The assembled devices then feed process
//! attribution.

use vstd::prelude::*;

use crate::digits::{dec_digits, push_num};
use crate::docker::container::Container;
use crate::error::GMONError;
use crate::nv_gpu::{
    Clock, GPUInfo, MemUsage, PowerInfo, Processes, Temperature, Utilization, ValidValue, Value,
    GPU,
};
use crate::process::{
    ctrs_to_map, proc_matches, spec_index_keys, spec_proc_entries, ProcTable, ProcessData,
};
use crate::vendors::error::BackendError;
use crate::vendors::traits::{GpuInfo, GpuProviderInfo};
use crate::vendors::types;

verus! {

/// Every per-metric result of one device's queries, each free to fail on
/// its own.
pub struct DeviceReading {
    pub name: Result<types::Value<String>, BackendError>,
    pub utilization: Result<types::Value<u32>, BackendError>,
    pub temperature: Result<types::Value<u32>, BackendError>,
    pub power: Result<types::PowerInfo, BackendError>,
    pub memory: Result<types::MemoryInfo, BackendError>,
    pub processes: Result<Vec<crate::nv_gpu::ProcessInfo>, BackendError>,
}

/// A successful `u32` reading, or the unavailable state for a failed one.
fn metric_u32(v: Result<types::Value<u32>, BackendError>) -> (r: Value)
    ensures
        r.wf(),
        match v {
            Ok(x) => r.val == ValidValue::Int(x.val as i64) && r.unit == x.unit,
            Err(_) => r.val is Unavailable && r.unit is None,
        },
{
    match v {
        Ok(x) => Value { val: ValidValue::Int(x.val as i64), unit: x.unit },
        Err(_) => Value::unavailable(),
    }
}

/// A successful `u64` reading, or the unavailable state for a failed one
/// or one beyond the signed display range.
fn metric_u64(v: Result<types::Value<u64>, BackendError>) -> (r: Value)
    ensures
        r.wf(),
        match v {
            Ok(x) => if x.val <= i64::MAX as u64 {
                r.val == ValidValue::Int(x.val as i64) && r.unit == x.unit
            } else {
                r.val is Unavailable && r.unit is None
            },
            Err(_) => r.val is Unavailable && r.unit is None,
        },
{
    match v {
        Ok(x) => {
            if x.val <= i64::MAX as u64 {
                Value { val: ValidValue::Int(x.val as i64), unit: x.unit }
            } else {
                Value::unavailable()
            }
        },
        Err(_) => Value::unavailable(),
    }
}

/// Folds one device's query results into its record. Each failed metric
/// becomes the explicit unavailable state; every other field keeps its
/// queried value — one failing accessor never takes the rest of the
/// device's snapshot with it.
pub fn device_from_reading(index: u32, rd: DeviceReading) -> (g: GPU)
    requires
        rd.processes matches Ok(v) ==> forall|i: int|
            0 <= i < v@.len() ==> (#[trigger] v@[i]).wf(),
    ensures
        g.wf(),
        g.id@ == dec_digits(index as nat),
        match rd.name {
            Ok(v) => g.product_name == v.val,
            Err(_) => g.product_name@ == Seq::<char>::empty(),
        },
        match rd.utilization {
            Ok(v) => g.utilization.gpu.val == ValidValue::Int(v.val as i64)
                && g.utilization.gpu.unit == v.unit,
            Err(_) => g.utilization.gpu.val is Unavailable,
        },
        g.utilization.memory.val is Unavailable,
        g.utilization.encoder.val is Unavailable,
        g.utilization.decoder.val is Unavailable,
        match rd.temperature {
            Ok(v) => g.temperature.value.val == ValidValue::Int(v.val as i64)
                && g.temperature.value.unit == v.unit,
            Err(_) => g.temperature.value.val is Unavailable,
        },
        g.temperature.max_threshold.val is Unavailable,
        g.temperature.memory_temp.val is Unavailable,
        match rd.power {
            Ok(p) => {
                &&& g.power_readings.draw.val == ValidValue::Int(p.read.val as i64)
                &&& g.power_readings.draw.unit == p.read.unit
                &&& g.power_readings.limit.val == ValidValue::Int(p.limit.val as i64)
                &&& g.power_readings.limit.unit == p.limit.unit
                &&& g.power_readings.default_limit.val == ValidValue::Int(
                    p.limit_default.val as i64,
                )
                &&& g.power_readings.default_limit.unit == p.limit_default.unit
            },
            Err(_) => {
                &&& g.power_readings.draw.val is Unavailable
                &&& g.power_readings.limit.val is Unavailable
                &&& g.power_readings.default_limit.val is Unavailable
            },
        },
        match rd.memory {
            Ok(m) => {
                &&& (m.total.val <= i64::MAX as u64 ==> g.fb_memory_usage.total.val
                    == ValidValue::Int(m.total.val as i64))
                &&& (m.used.val <= i64::MAX as u64 ==> g.fb_memory_usage.used.val
                    == ValidValue::Int(m.used.val as i64))
            },
            Err(_) => {
                &&& g.fb_memory_usage.total.val is Unavailable
                &&& g.fb_memory_usage.used.val is Unavailable
            },
        },
        g.fb_memory_usage.free.val is Unavailable,
        match rd.processes {
            Ok(list) => g.processes.items matches Some(v) && v@ == list@,
            Err(_) => g.processes.items is None,
        },
{
    let mut id = String::new();
    push_num(&mut id, index as u64);
    let product_name = match rd.name {
        Ok(v) => v.val,
        Err(_) => String::new(),
    };
    let utilization = Utilization {
        gpu: metric_u32(rd.utilization),
        memory: Value::unavailable(),
        encoder: Value::unavailable(),
        decoder: Value::unavailable(),
    };
    let temperature = Temperature {
        value: metric_u32(rd.temperature),
        max_threshold: Value::unavailable(),
        slow_threshold: Value::unavailable(),
        max_gpu_threshold: Value::unavailable(),
        target_temperature: Value::unavailable(),
        memory_temp: Value::unavailable(),
        max_mem_threshold: Value::unavailable(),
    };
    let power_readings = match rd.power {
        Ok(p) => PowerInfo {
            state: String::new(),
            management: String::new(),
            draw: metric_u32(Ok(p.read)),
            limit: metric_u32(Ok(p.limit)),
            default_limit: metric_u32(Ok(p.limit_default)),
            enforced_limit: Value::unavailable(),
            min_limit: Value::unavailable(),
            max_limit: Value::unavailable(),
        },
        Err(e) => PowerInfo {
            state: String::new(),
            management: String::new(),
            draw: metric_u32(Err(e)),
            limit: Value::unavailable(),
            default_limit: Value::unavailable(),
            enforced_limit: Value::unavailable(),
            min_limit: Value::unavailable(),
            max_limit: Value::unavailable(),
        },
    };
    let fb_memory_usage = match rd.memory {
        Ok(m) => MemUsage {
            total: metric_u64(Ok(m.total)),
            used: metric_u64(Ok(m.used)),
            free: Value::unavailable(),
        },
        Err(e) => MemUsage {
            total: metric_u64(Err(e)),
            used: Value::unavailable(),
            free: Value::unavailable(),
        },
    };
    let bar1_memory_usage = MemUsage {
        total: Value::unavailable(),
        used: Value::unavailable(),
        free: Value::unavailable(),
    };
    let clocks = Clock { graphics: Value::unavailable(), sm: None, mem: None, video: None };
    let processes = match rd.processes {
        Ok(list) => Processes { items: Some(list) },
        Err(_) => Processes { items: None },
    };
    GPU {
        id,
        product_name,
        uuid: String::new(),
        fan_speed: String::new(),
        fb_memory_usage,
        bar1_memory_usage,
        compute_mode: String::new(),
        utilization,
        temperature,
        power_readings,
        clocks,
        processes,
    }
}

/// Reads every metric of one device handle.
fn read_device<D: GpuInfo>(dev: &D) -> (rd: DeviceReading)
    ensures
        rd.processes matches Ok(v) ==> forall|i: int|
            0 <= i < v@.len() ==> (#[trigger] v@[i]).wf(),
{
    DeviceReading {
        name: dev.name(),
        utilization: dev.utilization(),
        temperature: dev.temperature(),
        power: dev.power_info(),
        memory: dev.memory_info(),
        processes: dev.processes(),
    }
}

/// One whole refresh: device count, per-device records, then attribution.
///
/// A failed device-count query is the one fatal condition and aborts the
/// refresh with [`GMONError::BackendUnavailable`]. A device whose handle
/// cannot be obtained is skipped; a failed metric degrades to unavailable
/// inside its record. Whatever the backend answered, the attribution of
/// the assembled snapshot is exactly the resolver's, memoized per PID, and
/// without a container index no process is attributed to a container.
pub fn refresh<P: GpuProviderInfo>(
    provider: &P,
    table: &ProcTable,
    containers: Option<Vec<Container>>,
) -> (r: Result<ProcessData, GMONError>)
    ensures
        r matches Err(e) ==> e == GMONError::BackendUnavailable,
        r matches Ok(pd) ==> {
            &&& pd.gpu_info.wf()
            &&& pd.gpu_info.gpus@.len() <= 255
            &&& match containers {
                Some(cs) => pd.ctr_index() == Some(ctrs_to_map(cs@)),
                None => pd.ctr_index() is None,
            }
            &&& pd.gpu_procs@.len() == spec_proc_entries(pd.gpu_info.gpus@).len()
            &&& forall|i: int|
                0 <= i < pd.gpu_procs@.len() ==> proc_matches(
                    #[trigger] pd.gpu_procs@[i],
                    spec_proc_entries(pd.gpu_info.gpus@)[i],
                    table@,
                    spec_index_keys(pd.ctr_index()),
                )
            &&& forall|i: int, j: int|
                0 <= i < pd.gpu_procs@.len() && 0 <= j < pd.gpu_procs@.len()
                    && (#[trigger] pd.gpu_procs@[i]).pid == (#[trigger] pd.gpu_procs@[j]).pid
                    ==> pd.gpu_procs@[i].uid == pd.gpu_procs@[j].uid && pd.gpu_procs@[i].gid
                    == pd.gpu_procs@[j].gid && pd.gpu_procs@[i].ctr_pid
                    == pd.gpu_procs@[j].ctr_pid
            &&& containers is None ==> forall|i: int|
                0 <= i < pd.gpu_procs@.len() ==> (#[trigger] pd.gpu_procs@[i]).ctr_pid is None
        },
{
    let count = match provider.device_count() {
        Ok(c) => c.val,
        Err(_) => {
            return Err(GMONError::BackendUnavailable);
        },
    };
    // The record set indexes devices with a `u8`, which caps one snapshot.
    let n: u32 = if count > 255 {
        255
    } else {
        count
    };
    let mut gpus: Vec<GPU> = Vec::new();
    let mut i: u32 = 0;
    while i < n
        invariant
            i <= n <= 255,
            gpus@.len() <= i,
            forall|k: int| 0 <= k < gpus@.len() ==> (#[trigger] gpus@[k]).wf(),
        decreases n - i,
    {
        match provider.device_at(i) {
            Ok(dev) => {
                let rd = read_device(&dev);
                gpus.push(device_from_reading(i, rd));
            },
            Err(_) => {
            },
        }
        i = i + 1;
    }
    let driver_version = match provider.driver_version() {
        Ok(v) => v.val,
        Err(_) => String::new(),
    };
    let attached = gpus.len() as u8;
    let info = GPUInfo {
        timestamp: String::new(),
        driver_version,
        cuda_version: String::new(),
        attached_gpus: attached,
        gpus,
    };
    Ok(ProcessData::load(info, table, containers))
}

} // verus!
