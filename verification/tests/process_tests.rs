use std::collections::HashMap;

use gmon::docker::container::{Container, State};
use gmon::nv_gpu::{
    Clock, GPUInfo, MemUsage, PowerInfo, ProcessInfo, Processes, Temperature, Utilization,
    ValidValue, Value, GPU,
};
use gmon::process::{get_process, ProcEntry, ProcTable, ProcessData};

fn unavailable_metric() -> Value {
    Value { val: ValidValue::Unavailable, unit: None }
}

fn bare_gpu(processes: Option<Vec<ProcessInfo>>) -> GPU {
    GPU {
        id: "0".to_string(),
        product_name: "Test GPU".to_string(),
        uuid: "GPU-0000".to_string(),
        fan_speed: "N/A".to_string(),
        fb_memory_usage: MemUsage {
            total: unavailable_metric(),
            used: unavailable_metric(),
            free: unavailable_metric(),
        },
        bar1_memory_usage: MemUsage {
            total: unavailable_metric(),
            used: unavailable_metric(),
            free: unavailable_metric(),
        },
        compute_mode: "Default".to_string(),
        utilization: Utilization {
            gpu: unavailable_metric(),
            memory: unavailable_metric(),
            encoder: unavailable_metric(),
            decoder: unavailable_metric(),
        },
        temperature: Temperature {
            value: unavailable_metric(),
            max_threshold: unavailable_metric(),
            slow_threshold: unavailable_metric(),
            max_gpu_threshold: unavailable_metric(),
            target_temperature: unavailable_metric(),
            memory_temp: unavailable_metric(),
            max_mem_threshold: unavailable_metric(),
        },
        power_readings: PowerInfo {
            state: "P0".to_string(),
            management: "Supported".to_string(),
            draw: unavailable_metric(),
            limit: unavailable_metric(),
            default_limit: unavailable_metric(),
            enforced_limit: unavailable_metric(),
            min_limit: unavailable_metric(),
            max_limit: unavailable_metric(),
        },
        clocks: Clock { graphics: unavailable_metric(), sm: None, mem: None, video: None },
        processes: Processes { items: processes },
    }
}

fn usage_record(pid: u32) -> ProcessInfo {
    ProcessInfo {
        gpu_instance_id: "N/A".to_string(),
        compute_instance_id: "N/A".to_string(),
        pid,
        p_type: "C".to_string(),
        name: "job".to_string(),
        used_memory: Value { val: ValidValue::Int(256), unit: Some("MiB".to_string()) },
    }
}

fn report(gpus: Vec<GPU>) -> GPUInfo {
    GPUInfo {
        timestamp: "".to_string(),
        driver_version: "555.00".to_string(),
        cuda_version: "12.4".to_string(),
        attached_gpus: gpus.len() as u8,
        gpus,
    }
}

#[test]
fn resolver_adopts_nonzero_uid_three_levels_up() {
    let mut t = ProcTable::new();
    t.insert(100, ProcEntry { uid: 0, gid: 0, parent: Some(101) });
    t.insert(101, ProcEntry { uid: 0, gid: 0, parent: Some(102) });
    t.insert(102, ProcEntry { uid: 0, gid: 0, parent: Some(103) });
    t.insert(103, ProcEntry { uid: 1000, gid: 1000, parent: None });
    let (uid, gid, ctr) = get_process(&t, 100, &None);
    assert_eq!((uid, gid), (1000, 1000));
    assert!(ctr.is_none());
}

#[test]
fn resolver_stops_at_first_container_match() {
    let mut t = ProcTable::new();
    t.insert(500, ProcEntry { uid: 0, gid: 0, parent: Some(450) });
    t.insert(450, ProcEntry { uid: 0, gid: 0, parent: Some(400) });
    t.insert(400, ProcEntry { uid: 0, gid: 0, parent: Some(1) });
    t.insert(1, ProcEntry { uid: 0, gid: 0, parent: None });
    let mut idx: HashMap<u32, Container> = HashMap::new();
    idx.insert(
        400,
        Container { id: "c1".to_string(), name: "web".to_string(), state: State { pid: 400 } },
    );
    let (uid, gid, ctr) = get_process(&t, 500, &Some(idx));
    assert_eq!((uid, gid, ctr), (0, 0, Some(400)));
}

#[test]
fn resolver_of_unknown_pid_yields_zeros() {
    let t = ProcTable::new();
    assert_eq!(get_process(&t, 4242, &None), (0, 0, None));
}

#[test]
fn resolver_survives_a_cycle_in_the_table() {
    let mut t = ProcTable::new();
    t.insert(7, ProcEntry { uid: 5, gid: 5, parent: Some(8) });
    t.insert(8, ProcEntry { uid: 0, gid: 0, parent: Some(7) });
    let (uid, gid, ctr) = get_process(&t, 7, &None);
    assert_eq!((uid, gid), (5, 5));
    assert!(ctr.is_none());
}

#[test]
fn load_without_index_attributes_no_container() {
    let mut t = ProcTable::new();
    t.insert(500, ProcEntry { uid: 0, gid: 0, parent: Some(400) });
    t.insert(400, ProcEntry { uid: 0, gid: 0, parent: None });
    let info = report(vec![bare_gpu(Some(vec![usage_record(500)]))]);
    let pd = ProcessData::load(info, &t, None);
    assert_eq!(pd.gpu_procs.len(), 1);
    assert!(pd.gpu_procs[0].ctr_pid.is_none());
}

#[test]
fn load_memoizes_attribution_per_pid() {
    let mut t = ProcTable::new();
    t.insert(500, ProcEntry { uid: 0, gid: 0, parent: Some(450) });
    t.insert(450, ProcEntry { uid: 1000, gid: 1001, parent: None });
    let info = report(vec![
        bare_gpu(Some(vec![usage_record(500)])),
        bare_gpu(Some(vec![usage_record(500)])),
    ]);
    let pd = ProcessData::load(info, &t, None);
    assert_eq!(pd.gpu_procs.len(), 2);
    assert_eq!(pd.gpu_procs[0].gpu_id, 0);
    assert_eq!(pd.gpu_procs[1].gpu_id, 1);
    let a = &pd.gpu_procs[0];
    let b = &pd.gpu_procs[1];
    assert_eq!((a.uid, a.gid, a.ctr_pid), (b.uid, b.gid, b.ctr_pid));
    assert_eq!((a.uid, a.gid), (1000, 1001));
}

#[test]
fn container_lookup_returns_the_matching_record() {
    let mut t = ProcTable::new();
    t.insert(500, ProcEntry { uid: 0, gid: 0, parent: Some(400) });
    t.insert(400, ProcEntry { uid: 0, gid: 0, parent: None });
    let ctrs = vec![Container {
        id: "c1".to_string(),
        name: "web".to_string(),
        state: State { pid: 400 },
    }];
    let info = report(vec![bare_gpu(Some(vec![usage_record(500)]))]);
    let pd = ProcessData::load(info, &t, Some(ctrs));
    let p = &pd.gpu_procs[0];
    assert_eq!(p.ctr_pid, Some(400));
    let c = p.container(&pd).unwrap();
    assert_eq!(c.name, "web");
    assert_eq!(p.gpu_usage().pid, 500);
}

#[test]
fn later_container_record_replaces_earlier_for_same_init_pid() {
    let mut t = ProcTable::new();
    t.insert(500, ProcEntry { uid: 0, gid: 0, parent: None });
    let ctrs = vec![
        Container { id: "old".to_string(), name: "old".to_string(), state: State { pid: 500 } },
        Container { id: "new".to_string(), name: "new".to_string(), state: State { pid: 500 } },
    ];
    let info = report(vec![bare_gpu(Some(vec![usage_record(500)]))]);
    let pd = ProcessData::load(info, &t, Some(ctrs));
    let c = pd.gpu_procs[0].container(&pd).unwrap();
    assert_eq!(c.id, "new");
}
