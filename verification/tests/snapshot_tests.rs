use gmon::docker::container::{Container, State};
use gmon::error::GMONError;
use gmon::nv_gpu::{ProcessInfo, ValidValue, Value};
use gmon::process::{ProcEntry, ProcTable};
use gmon::snapshot::refresh;
use gmon::vendors::error::BackendError;
use gmon::vendors::traits::{GpuInfo, GpuProviderInfo};
use gmon::vendors::types::{MemoryInfo, PowerInfo as RawPowerInfo, Value as RawValue};

struct MockDev {
    index: u32,
    temp_fails: bool,
    pids: Vec<u32>,
}

impl GpuInfo for MockDev {
    fn index(&self) -> Result<RawValue<u32>, BackendError> {
        Ok(RawValue::from(self.index))
    }

    fn name(&self) -> Result<RawValue<String>, BackendError> {
        Ok(RawValue::from(format!("GPU{}", self.index)))
    }

    fn utilization(&self) -> Result<RawValue<u32>, BackendError> {
        Ok(RawValue::from(87).set_unit("%"))
    }

    fn temperature(&self) -> Result<RawValue<u32>, BackendError> {
        if self.temp_fails {
            Err(BackendError::NvmlWrapperError)
        } else {
            Ok(RawValue::from(45))
        }
    }

    fn power_info(&self) -> Result<RawPowerInfo, BackendError> {
        Ok(RawPowerInfo {
            read: RawValue::from(215).set_unit("W"),
            limit: RawValue::from(250).set_unit("W"),
            limit_default: RawValue::from(250).set_unit("W"),
        })
    }

    fn memory_info(&self) -> Result<MemoryInfo, BackendError> {
        Ok(MemoryInfo {
            total: RawValue::from(24576).set_unit("MiB"),
            used: RawValue::from(256).set_unit("MiB"),
        })
    }

    fn processes(&self) -> Result<Vec<ProcessInfo>, BackendError> {
        Ok(self
            .pids
            .iter()
            .map(|pid| ProcessInfo {
                gpu_instance_id: "N/A".to_string(),
                compute_instance_id: "N/A".to_string(),
                pid: *pid,
                p_type: "C".to_string(),
                name: "job".to_string(),
                used_memory: Value { val: ValidValue::Int(256), unit: Some("MiB".to_string()) },
            })
            .collect())
    }
}

struct MockProvider {
    count_fails: bool,
    devices: u32,
    temp_fails_on: Option<u32>,
}

impl GpuProviderInfo for MockProvider {
    type Dev = MockDev;

    fn device_count(&self) -> Result<RawValue<u32>, BackendError> {
        if self.count_fails {
            Err(BackendError::NvmlWrapperError)
        } else {
            Ok(RawValue::from(self.devices))
        }
    }

    fn device_at(&self, index: u32) -> Result<MockDev, BackendError> {
        Ok(MockDev {
            index,
            temp_fails: self.temp_fails_on == Some(index),
            pids: if index == 0 { vec![500] } else { vec![] },
        })
    }

    fn driver_version(&self) -> Result<RawValue<String>, BackendError> {
        Ok(RawValue::from("555.00".to_string()))
    }
}

fn sample_table() -> ProcTable {
    let mut t = ProcTable::new();
    t.insert(500, ProcEntry { uid: 0, gid: 0, parent: Some(450) });
    t.insert(450, ProcEntry { uid: 0, gid: 0, parent: Some(400) });
    t.insert(400, ProcEntry { uid: 0, gid: 0, parent: Some(1) });
    t.insert(1, ProcEntry { uid: 0, gid: 0, parent: None });
    t
}

fn web_container() -> Container {
    Container { id: "c1".to_string(), name: "web".to_string(), state: State { pid: 400 } }
}

#[test]
fn device_count_failure_aborts_with_backend_unavailable() {
    let p = MockProvider { count_fails: true, devices: 0, temp_fails_on: None };
    let t = sample_table();
    let r = refresh(&p, &t, None);
    assert_eq!(r.unwrap_err(), GMONError::BackendUnavailable);
}

#[test]
fn single_temperature_failure_degrades_that_field_only() {
    let p = MockProvider { count_fails: false, devices: 2, temp_fails_on: Some(0) };
    let t = sample_table();
    let pd = refresh(&p, &t, None).unwrap();
    assert_eq!(pd.gpu_info.gpus.len(), 2);
    let g0 = &pd.gpu_info.gpus[0];
    assert_eq!(g0.temperature.value.val, ValidValue::Unavailable);
    assert_eq!(g0.temperature.value.render(), "N/A");
    // every other field of the same device is still populated
    assert_eq!(g0.product_name, "GPU0");
    assert_eq!(g0.power_readings.draw.val, ValidValue::Int(215));
    assert_eq!(g0.fb_memory_usage.total.val, ValidValue::Int(24576));
    assert_eq!(g0.utilization.gpu.val, ValidValue::Int(87));
    assert!(g0.processes.items.is_some());
    // and the untouched device reports its temperature
    assert_eq!(pd.gpu_info.gpus[1].temperature.value.val, ValidValue::Int(45));
}

#[test]
fn end_to_end_container_match_wins_before_any_nonzero_uid() {
    let p = MockProvider { count_fails: false, devices: 2, temp_fails_on: None };
    let t = sample_table();
    let pd = refresh(&p, &t, Some(vec![web_container()])).unwrap();
    assert_eq!(pd.gpu_info.gpus.len(), 2);
    assert_eq!(pd.gpu_procs.len(), 1);
    let proc0 = &pd.gpu_procs[0];
    assert_eq!(proc0.pid, 500);
    assert_eq!(proc0.uid, 0);
    assert_eq!(proc0.gid, 0);
    assert_eq!(proc0.ctr_pid, Some(400));
    assert_eq!(proc0.container(&pd).unwrap().name, "web");
    assert_eq!(proc0.gpu_usage().used_memory.render(), "256MiB");
}

#[test]
fn driver_version_flows_into_the_snapshot() {
    let p = MockProvider { count_fails: false, devices: 1, temp_fails_on: None };
    let t = sample_table();
    let pd = refresh(&p, &t, None).unwrap();
    assert_eq!(pd.gpu_info.driver_version, "555.00");
    assert_eq!(pd.gpu_info.attached_gpus, 1);
}
