use all_smi::app_state::AppState;
use all_smi::device::types::{ChassisInfo, DeviceSection, GpuInfo, ProcessInfo};
use all_smi::reading::Reading;
use all_smi::view::data_collection::local_collector::{
    announce_groups, announce_readers, group_failure, inject_gpu_power, local_tabs, refresh_devices, set_status,
    top_processes, total_power_watts, update_notifications, update_state, CollectionConfig,
    CollectionError, DriverMessages, GpuCollection, LocalCollector, Notice, ReaderGroup,
    ReaderKind, Readings, RefreshPlan, MAX_DISPLAY_PROCESSES,
};

fn num(x: f64) -> Reading {
    Reading { bits: x.to_bits() }
}

fn gpu(uuid: &str, host: &str, power: Option<f64>) -> GpuInfo {
    GpuInfo {
        uuid: uuid.to_string(),
        name: "RBLN-CA25".to_string(),
        host_id: host.to_string(),
        instance: "h".to_string(),
        utilization: Some(num(0.0)),
        ane_utilization: Some(num(0.0)),
        temperature: Some(40),
        used_memory: 0,
        total_memory: 0,
        frequency: Some(0),
        power_consumption: power.map(num),
        gpu_core_count: None,
        temperature_threshold_slowdown: None,
        temperature_threshold_shutdown: None,
        temperature_threshold_max_operating: None,
        temperature_threshold_acoustic: None,
        performance_state: None,
        fan_speed_rpm: None,
        numa_node_id: None,
        gsp_firmware_mode: None,
        nvlink_remote_devices: 0,
        detail: Vec::new(),
    }
}

fn gpu_with_power(uuid: &str, power: Option<f64>) -> GpuInfo {
    gpu(uuid, "h", power)
}

/// Chassis power is the sum of the GPU power readings that exist. On an ATOM Max
/// card three of four dies carry no reading.
#[test]
fn inject_gpu_power_skips_unavailable_rows() {
    let gpus = vec![
        gpu_with_power("die-0", Some(300.0)),
        gpu_with_power("die-1", None),
        gpu_with_power("die-2", None),
    ];
    let chassis = inject_gpu_power(vec![ChassisInfo::default()], &gpus);
    assert_eq!(chassis[0].total_power_watts, Some(num(300.0)));

    // Nothing reported: stay unset instead of injecting a negative total.
    let silent = vec![gpu_with_power("die-1", None)];
    let chassis = inject_gpu_power(vec![ChassisInfo::default()], &silent);
    assert_eq!(chassis[0].total_power_watts, None);

    // A chassis that already measured its own power keeps it.
    let measured = ChassisInfo {
        total_power_watts: Some(num(1200.0)),
        ..ChassisInfo::default()
    };
    let chassis = inject_gpu_power(vec![measured], &gpus);
    assert_eq!(chassis[0].total_power_watts, Some(num(1200.0)));
}

#[test]
fn power_is_summed_over_the_devices_that_report_it() {
    let gpus = vec![
        gpu_with_power("a", Some(10.5)),
        gpu_with_power("b", None),
        gpu_with_power("c", Some(0.25)),
    ];
    assert_eq!(total_power_watts(&gpus), num(10.75));
    assert_eq!(total_power_watts(&[]), num(0.0));
}

fn process(pid: u32, cpu: f64) -> ProcessInfo {
    ProcessInfo { pid, cpu_percent: num(cpu) }
}

#[test]
fn the_busiest_processes_come_first() {
    let all = vec![process(1, 0.5), process(2, 90.0), process(3, 0.5), process(4, 12.0)];
    let pids: Vec<u32> = top_processes(&all).iter().map(|p| p.pid).collect();
    assert_eq!(pids, [2, 4, 1, 3]);
    let many: Vec<ProcessInfo> = (0..600).map(|i| process(i, f64::from(i))).collect();
    let kept = top_processes(&many);
    assert_eq!(kept.len(), MAX_DISPLAY_PROCESSES);
    assert_eq!(kept[0].pid, 599);
    assert_eq!(kept[499].pid, 100);
}

#[test]
fn every_fifth_cycle_refreshes_all_processes() {
    let mut collector = LocalCollector::new();
    assert_eq!(collector.strategy_type(), "local");
    assert!(!collector.is_ready());
    collector.mark_ready();
    assert!(collector.is_ready());
    assert!(RefreshPlan::first().reads_all());
    let readings = |processes: Vec<ProcessInfo>| Readings {
        gpu: GpuCollection::default(),
        cpu_info: Vec::new(),
        memory_info: Vec::new(),
        chassis_info: Vec::new(),
        storage_info: Vec::new(),
        processes,
    };
    let data = collector.finish(readings(vec![process(7, 1.0), process(8, 2.0)]), true);
    assert_eq!(data.process_info, vec![process(8, 2.0), process(7, 1.0)]);
    let mut full = Vec::new();
    for _ in 0..10 {
        let plan = collector.plan_refresh();
        full.push(plan.full);
        if plan.full {
            assert!(plan.pids.is_empty());
        } else {
            assert_eq!(plan.pids, [8, 7]);
            assert!(!plan.reads_all());
        }
        collector.finish(readings(vec![process(7, 1.0), process(8, 2.0)]), false);
    }
    assert_eq!(
        full,
        [false, false, false, false, true, false, false, false, false, true]
    );
    // The counter starts again after its last number.
    collector.refresh_cycle = u32::MAX;
    assert!(collector.plan_refresh().full);
    assert_eq!(collector.refresh_cycle, 0);
}

#[test]
fn the_first_iteration_needs_the_startup_screen() {
    let collector = LocalCollector::default();
    assert_eq!(collector.collect(&CollectionConfig { first_iteration: false }), Ok(()));
    assert_eq!(
        collector.collect(&CollectionConfig { first_iteration: true }),
        Err(CollectionError::Other(
            "First iteration requires app_state initialization".to_string()
        ))
    );
}

#[test]
fn a_collection_is_put_together_from_its_groups() {
    let mut found = GpuCollection::default();
    found.add_devices(vec![gpu_with_power("a", Some(5.0))]);
    found.add_devices(vec![gpu_with_power("b", Some(7.0))]);
    found.add_processes(vec![process(1, 1.0)], &vec![1]);
    found.add_processes(Vec::new(), &vec![2, 1]);
    found.add_vgpus(vec![DeviceSection { gpu_uuid: "a".to_string(), rows: 2 }]);
    found.add_partitions(vec![DeviceSection { gpu_uuid: "b".to_string(), rows: 3 }]);
    assert_eq!(found.gpu_pids, [1, 2]);
    assert_eq!(found.gpu_processes, [process(1, 1.0)]);
    let mut collector = LocalCollector::new();
    let data = collector.finish(
        Readings {
            gpu: found,
            cpu_info: Vec::new(),
            memory_info: Vec::new(),
            chassis_info: vec![ChassisInfo::default()],
            storage_info: Vec::new(),
            processes: Vec::new(),
        },
        true,
    );
    assert_eq!(data.gpu_info.len(), 2);
    assert_eq!(data.vgpu_info.len(), 1);
    assert_eq!(data.mig_info[0].rows, 3);
    assert_eq!(data.chassis_info[0].total_power_watts, Some(num(12.0)));
    assert!(data.connection_statuses.is_empty());
    assert_eq!(collector.refresh_cycle, 1);
}

#[test]
fn each_group_reports_on_its_own_line() {
    let mut lines = Vec::new();
    for kind in [ReaderKind::Cpu, ReaderKind::Gpu, ReaderKind::Memory] {
        announce_readers(&mut lines, kind);
    }
    announce_groups(&mut lines);
    assert_eq!(lines[3], "○ Collecting GPU information...");
    assert_eq!(lines[7], "○ Collecting storage information...");
    for group in [
        ReaderGroup::Storage,
        ReaderGroup::Gpu,
        ReaderGroup::Processes,
        ReaderGroup::Cpu,
        ReaderGroup::Memory,
    ] {
        set_status(&mut lines, group.index(), group.collected().to_string());
    }
    assert_eq!(
        lines,
        vec![
            "✓ Initializing CPU readers...",
            "✓ Initializing GPU readers...",
            "✓ Initializing memory readers...",
            "✓ GPU information collected",
            "✓ CPU information collected",
            "✓ Memory information collected",
            "✓ Process information collected",
            "✓ Storage information collected",
        ]
    );
    // A screen without the preamble is left alone.
    let mut short = vec!["x".to_string()];
    set_status(&mut short, 0, "y".to_string());
    assert_eq!(short, ["x"]);
}

#[test]
fn known_devices_are_brought_up_to_date() {
    let known = vec![gpu_with_power("a", Some(1.0)), gpu_with_power("b", Some(2.0))];
    let new = vec![
        gpu_with_power("b", Some(20.0)),
        gpu_with_power("c", Some(30.0)),
        gpu_with_power("b", Some(21.0)),
    ];
    assert_eq!(
        refresh_devices(known.clone(), new.clone()),
        vec![gpu_with_power("a", Some(1.0)), gpu_with_power("b", Some(21.0))]
    );
    assert_eq!(refresh_devices(Vec::new(), new.clone()), new);
    assert_eq!(refresh_devices(known.clone(), Vec::new()), known);
}

#[test]
fn tabs_name_every_host_once() {
    let gpus = vec![gpu("1", "node-b", None), gpu("2", "node-a", None), gpu("3", "node-b", None)];
    assert_eq!(local_tabs(&gpus, "me"), ["All", "node-a", "node-b"]);
    assert_eq!(local_tabs(&[], "me"), ["All", "me"]);
}

fn drivers(nvml: Option<&str>, tenstorrent: Option<&str>, tpu: Option<&str>) -> DriverMessages {
    DriverMessages {
        nvml: nvml.map(|s| s.to_string()),
        tenstorrent: tenstorrent.map(|s| s.to_string()),
        tpu: tpu.map(|s| s.to_string()),
    }
}

#[test]
fn driver_messages_are_told_once() {
    let mut state = AppState::default();
    let all = drivers(Some("no nvml"), Some("no tt"), Some("TPU Initializing..."));
    assert_eq!(
        update_notifications(&mut state, all.clone()),
        vec![
            Notice::Warning("no nvml".to_string()),
            Notice::Warning("no tt".to_string()),
            Notice::Status("TPU Initializing...".to_string()),
        ]
    );
    // The warnings were given; that it initializes is said as often as it does.
    assert_eq!(
        update_notifications(&mut state, all),
        vec![Notice::Status("TPU Initializing...".to_string())]
    );
    let failed = drivers(None, None, Some("TPU failed"));
    assert_eq!(
        update_notifications(&mut state, failed.clone()),
        vec![Notice::Error("TPU failed".to_string())]
    );
    assert!(update_notifications(&mut state, failed).is_empty());
    assert!(update_notifications(&mut state, drivers(None, None, Some("ready"))).is_empty());
}

#[test]
fn a_collection_enters_the_state() {
    let mut state = AppState::default();
    state.loading = true;
    state.current_tab = 1;
    let mut collector = LocalCollector::new();
    let mut found = GpuCollection::default();
    found.add_devices(vec![gpu("a", "node-a", Some(1.0))]);
    let data = collector.finish(
        Readings {
            gpu: found,
            cpu_info: Vec::new(),
            memory_info: Vec::new(),
            chassis_info: Vec::new(),
            storage_info: Vec::new(),
            processes: vec![process(3, 1.0)],
        },
        true,
    );
    let told = update_state(&mut state, data, drivers(None, None, None), "me");
    assert!(told.is_empty());
    assert_eq!(state.gpu_info.len(), 1);
    assert_eq!(state.tabs, ["All", "node-a"]);
    assert_eq!(state.process_info, [process(3, 1.0)]);
    assert!(!state.loading);
    assert_eq!(state.current_tab, 1);
}

#[test]
fn a_group_that_fails_is_named() {
    assert_eq!(group_failure("GPU", "panic"), "Warning: GPU collection task failed: panic");
}
