use all_smi::app_state::SortCriteria;
use all_smi::device::types::{
    AppleSiliconCpuInfo, ConnectionStatus, CpuInfo, GpuInfo, MemoryInfo,
};
use all_smi::probes::json::JsonProbeSample;
use all_smi::probes::lock::{LockHolder, LockSample};
use all_smi::probes::net::NetInterfaceSample;
use all_smi::probes::HostProbes;
use all_smi::reading::Reading;
use all_smi::table::Table;
use all_smi::text::display_width;
use all_smi::ui::cluster::charts::{plan_history, power_ceiling, render_history, HistoryPlan, MIN_ROWS};
use all_smi::ui::cluster::devices::{
    column_header, details_line, device_line, fmt_power, host_line, Columns, MAX_BAR, MIN_BAR,
};
use all_smi::ui::cluster::header::{header_rows, render_header, TitleInfo};
use all_smi::ui::cluster::line::{
    fit_keeping_index, fmt_duration, fmt_gib_pair, fmt_rate, fmt_watts, plural, Line, Writer,
};
use all_smi::ui::cluster::{render_all_tab, sort_devices, AllTabInputs};
use all_smi::ui::consolidated::history::{
    net_rx_key, net_tx_key, power_key, ConsolidatedState, SeriesHistory, HISTORY_LEN, MAX_SERIES,
    PIPE_BUSY_KEY, PIPE_QUEUE_KEY, TOTAL_POWER_KEY, TOTAL_UTIL_KEY,
};
use all_smi::ui::consolidated::model::{
    cpu_model_label, device_details, device_name, os_label, short_host_label, ConsolidatedModel,
    DeviceRow, MemoryKind, ModelSources,
};
use all_smi::ui::consolidated::pipeline::{
    parse_swap_running, EngineCache, EngineHealth, GpuJob, JobField, PipelineConfig,
    PipelineStatus, Probe, SwapModel, DEFAULT_HEALTH_URL,
};
use all_smi::ui::consolidated::pipeline_render::{endpoint_label, fmt_count};
use all_smi::ui::consolidated::pipeline_view::{host_for_url, LinkUse, Phase, PipelineView};
use all_smi::ui::consolidated::render::{
    can_render, render_consolidated_tab, tilde_home, ConsolidatedInputs,
};
use all_smi::ui::consolidated::row::{Row, Segment};
use all_smi::ui::theme::RULE;
use all_smi::common::span::Span;

const GIB: u64 = 1 << 30;

fn num(x: f64) -> Reading {
    Reading { bits: x.to_bits() }
}

fn val(r: Reading) -> f64 {
    f64::from_bits(r.bits)
}

fn gpu(host: &str, uuid: &str, name: &str, index: u32) -> GpuInfo {
    GpuInfo {
        uuid: uuid.to_string(),
        name: name.to_string(),
        host_id: host.to_string(),
        instance: host.to_string(),
        utilization: Some(num(0.0)),
        ane_utilization: None,
        temperature: Some(40),
        used_memory: 0,
        total_memory: 0,
        frequency: Some(1000),
        power_consumption: Some(num(0.0)),
        gpu_core_count: None,
        temperature_threshold_slowdown: None,
        temperature_threshold_shutdown: None,
        temperature_threshold_max_operating: None,
        temperature_threshold_acoustic: None,
        performance_state: None,
        fan_speed_rpm: None,
        numa_node_id: None,
        gsp_firmware_mode: None,
        nvlink_remote_devices: 0,
        detail: vec![("index".to_string(), index.to_string())],
    }
}

type Statuses = Vec<(String, ConnectionStatus)>;

fn model_of(
    gpus: &[GpuInfo],
    cpus: &[CpuInfo],
    tabs: &[String],
    statuses: &Statuses,
) -> ConsolidatedModel {
    ConsolidatedModel::build(&ModelSources {
        gpu_info: gpus,
        cpu_info: cpus,
        memory_info: &[],
        host_probes: &[],
        host_order: tabs,
        connection_status: statuses,
    })
}

fn mac_and_box() -> (Vec<GpuInfo>, Vec<String>, Statuses) {
    let mut mac = gpu("10.10.10.2:9090", "AppleSiliconGPU", "Apple M5 Ultra GPU", 0);
    mac.used_memory = 154 * GIB;
    mac.total_memory = 256 * GIB;
    mac.utilization = Some(num(4.0));
    mac.power_consumption = Some(num(12.0));
    mac.ane_utilization = Some(num(1500.0));
    mac.gpu_core_count = Some(80);
    mac.detail.push(("architecture".to_string(), "Apple Silicon".to_string()));
    let name = "NVIDIA RTX PRO 6000 Blackwell Workstation Edition";
    let mut rtx1 = gpu("10.10.10.1:9090", "GPU-b", name, 1);
    let mut rtx0 = gpu("10.10.10.1:9090", "GPU-a", name, 0);
    for (g, util) in [(&mut rtx0, 50.0), (&mut rtx1, 30.0)] {
        g.used_memory = 87 * GIB;
        g.total_memory = 96 * GIB;
        g.utilization = Some(num(util));
        g.power_consumption = Some(num(100.0));
        g.detail.push(("power_limit_max".to_string(), "600".to_string()));
    }
    let tabs = vec![
        "All".to_string(),
        "Consolidated".to_string(),
        "Users".to_string(),
        "10.10.10.2:9090".to_string(),
        "10.10.10.1:9090".to_string(),
    ];
    let statuses = [("10.10.10.2:9090", "ians-Mac-Studio.local"), ("10.10.10.1:9090", "vllm")]
        .iter()
        .map(|(id, name)| {
            (
                id.to_string(),
                ConnectionStatus {
                    is_connected: true,
                    actual_hostname: Some(name.to_string()),
                    last_error: None,
                },
            )
        })
        .collect();
    (vec![rtx1, mac, rtx0], tabs, statuses)
}

fn mac_down() -> (Vec<GpuInfo>, Vec<String>, Statuses) {
    let (gpus, tabs, mut statuses) = mac_and_box();
    statuses[0].1.is_connected = false;
    statuses[0].1.last_error = Some("Connection refused".to_string());
    let gpus = gpus.into_iter().filter(|g| g.host_id != "10.10.10.2:9090").collect();
    (gpus, tabs, statuses)
}

fn the_model() -> ConsolidatedModel {
    let (gpus, tabs, statuses) = mac_and_box();
    model_of(&gpus, &[], &tabs, &statuses)
}

fn screen(w: &Writer) -> String {
    w.out.iter().map(|line| format!("{}\r\n", line.plain())).collect()
}

/// Sparklines of the right size, all of them full.
fn drawn(plan: &HistoryPlan) -> Vec<Vec<Vec<String>>> {
    plan.columns
        .iter()
        .map(|column| {
            column
                .charts
                .iter()
                .map(|_| vec!["⣿".repeat(plan.cell_w); plan.chart_h])
                .collect()
        })
        .collect()
}

fn recorded(samples: usize) -> SeriesHistory {
    let (gpus, _, _) = mac_and_box();
    let mut state = ConsolidatedState::default();
    for _ in 0..samples {
        state.record_collection(&gpus, &[]);
    }
    state.history
}

// The history panel.

fn charts(cols: usize, rows: usize, samples: usize) -> String {
    let model = the_model();
    let mut w = Writer::new(cols, rows);
    if let Some(plan) = plan_history(&model, &recorded(samples), rows, cols) {
        render_history(&mut w, &plan, &drawn(&plan), 3);
    }
    screen(&w)
}

#[test]
fn one_column_per_device_when_they_fit() {
    let out = charts(160, 26, 10);
    assert!(out.contains("History"), "{out}");
    assert!(out.contains("Apple M5 Ultra · 80-core GPU"), "{out}");
    assert!(out.contains("NVIDIA RTX PRO 6000 Blackwell #1"), "{out}");
    assert!(out.contains("30% · peak 30%"), "{out}");
    assert!(out.contains("unified mem"), "{out}");
    assert!(out.contains("VRAM"), "{out}");
    assert!(out.contains("100 W · peak 100 W"), "{out}");
    assert_eq!(out.matches("\r\n").count(), 26, "{out}");
    for line in out.split("\r\n") {
        assert!(display_width(line) <= 160, "{line:?}");
    }
}

#[test]
fn falls_back_to_cluster_charts_when_short() {
    let out = charts(60, 10, 10);
    assert!(out.contains("all 3 accelerators"), "{out}");
    assert!(out.contains("total power"), "{out}");
    assert!(charts(160, MIN_ROWS - 1, 10).is_empty());
}

#[test]
fn power_ceiling_uses_the_limit_or_headroom() {
    assert_eq!(power_ceiling(Some(num(600.0)), &vec![num(100.0)]), num(600.0));
    assert_eq!(power_ceiling(None, &vec![num(10.0), num(12.0)]), num(18.0));
    assert_eq!(power_ceiling(None, &Vec::new()), num(1.0));
}

// The device table.

#[test]
fn columns_give_way_in_order() {
    let wide = Columns::for_width(200, 32);
    assert!(wide.clock && wide.kind);
    assert_eq!(wide.util_bar, MAX_BAR);
    let mid = Columns::for_width(120, 32);
    assert!(mid.clock && mid.kind, "{mid:?}");
    assert!(mid.util_bar >= MIN_BAR);
    let narrow = Columns::for_width(100, 32);
    assert!(!narrow.clock, "{narrow:?}");
    let tiny = Columns::for_width(80, 32);
    assert!(!tiny.clock && !tiny.kind);
    for cols in [60usize, 80, 100, 120, 160, 200] {
        let c = Columns::for_width(cols, 32);
        assert!(c.width() < cols, "{cols}: {c:?} is {}", c.width());
    }
}

#[test]
fn rows_align_with_the_header() {
    let model = the_model();
    let c = Columns::for_width(160, 32);
    let header = column_header(&c).plain();
    let row = device_line(&model.hosts[1].devices[0], &c, false).plain();
    assert_eq!(display_width(&header), c.width());
    assert_eq!(display_width(&row), c.width());
    assert!(row.contains("NVIDIA RTX PRO 6000 Blackwell #0"), "{row}");
    assert!(row.contains("50%"), "{row}");
    assert!(row.contains("87.0/96.0 GiB"), "{row}");
    assert!(row.contains("VRAM"), "{row}");
    assert!(row.contains("100/600 W"), "{row}");
    let mac = device_line(&model.hosts[0].devices[0], &c, false).plain();
    assert!(mac.contains("Apple M5 Ultra · 80-core GPU"), "{mac}");
    assert!(mac.contains("154/256 GiB"), "{mac}");
    assert!(mac.contains("unified"), "{mac}");
}

#[test]
fn down_host_line_names_the_error() {
    let (gpus, tabs, statuses) = mac_down();
    let model = model_of(&gpus, &[], &tabs, &statuses);
    let line = host_line(&model.hosts[0], 160).plain();
    assert!(line.contains("ians-Mac-Studio  unreachable: Connection refused"), "{line}");
}

#[test]
fn power_is_shown_against_its_limit() {
    assert_eq!(fmt_power(Some(num(100.0)), Some(num(600.0))), "100/600 W");
    assert_eq!(fmt_power(Some(num(12.0)), None), "12.0 W");
    let model = the_model();
    let mac = &model.hosts[0];
    let details = details_line(&mac.devices[0], mac).unwrap().plain();
    assert!(details.contains("ANE 1.5 W"), "{details}");
}

// The header.

fn header(cols: u16) -> String {
    let model = the_model();
    let title = TitleInfo { time: "2026-09-25 22:43:07", version: "0.26.3", runtime: None };
    let out = screen(&render_header(&model, &title, cols));
    assert_eq!(out.matches("\r\n").count(), header_rows(&model, cols) as usize);
    out
}

#[test]
fn overview_separates_unified_memory_from_vram() {
    let out = header(160);
    assert!(out.contains("2 of 2 hosts up"), "{out}");
    assert!(!out.contains("HOSTS"), "{out}");
    assert!(out.contains("UNIFIED MEMORY"), "{out}");
    assert!(out.contains("154 / 256 GiB"), "{out}");
    assert!(out.contains("VRAM"), "{out}");
    assert!(out.contains("174 / 192 GiB"), "{out}");
    assert!(out.contains("1 SoC · 2 dGPU"), "{out}");
    assert!(out.contains("28% avg"), "{out}");
    assert!(out.contains("212 W"), "{out}");
    assert!(out.contains("limit 1.20 kW"), "{out}");
    // No host RAM block without memory series for non-unified hosts.
    assert!(!out.contains("HOST RAM"), "{out}");
    assert!(!out.contains("GPU Cores"), "{out}");
}

#[test]
fn a_down_host_gets_a_block() {
    let (gpus, tabs, statuses) = mac_down();
    let model = model_of(&gpus, &[], &tabs, &statuses);
    let title = TitleInfo { time: "t", version: "v", runtime: None };
    let out = screen(&render_header(&model, &title, 160));
    assert!(out.contains("1 of 2 hosts up"), "{out}");
    assert!(out.contains("1 / 2 up"), "{out}");
    assert!(out.contains("down: ians-Mac-Studio"), "{out}");
    assert!(!out.contains("UNIFIED MEMORY"), "{out}");
}

#[test]
fn narrow_terminals_wrap_blocks_and_stay_in_bounds() {
    for cols in [60u16, 80, 100, 120, 160, 200] {
        let out = header(cols);
        for line in out.split("\r\n") {
            assert!(display_width(line) <= cols as usize, "{cols}: {line:?}");
        }
    }
    let wide = header(200);
    let narrow = header(80);
    assert!(narrow.matches("\r\n").count() > wide.matches("\r\n").count());
}

// Lines.

#[test]
fn line_formats() {
    assert_eq!(fmt_watts(num(0.02)), "0.02 W");
    assert_eq!(fmt_watts(num(92.4)), "92.4 W");
    assert_eq!(fmt_watts(num(188.6)), "189 W");
    assert_eq!(fmt_watts(num(1234.0)), "1.23 kW");
    assert_eq!(fmt_rate(None), "n/a");
    assert_eq!(fmt_rate(Some(num(999.0))), "999 B/s");
    assert_eq!(fmt_rate(Some(num(1.25e9))), "1.25 GB/s");
    assert_eq!(fmt_duration(59), "59s");
    assert_eq!(fmt_duration(3599), "59m 59s");
    assert_eq!(fmt_duration(3 * 3600 + 5 * 60), "3h 05m");
    assert_eq!(fmt_duration(2 * 86400 + 4 * 3600), "2d 04h");
    assert_eq!(fmt_gib_pair(154 << 30, 256 << 30), "154/256 GiB");
    let gib = (1u64 << 30) as f64;
    assert_eq!(fmt_gib_pair((88.1 * gib) as u64, (95.6 * gib) as u64), "88.1/95.6 GiB");
    assert_eq!(
        fit_keeping_index("NVIDIA RTX PRO 6000 Blackwell #1", 19),
        "NVIDIA RTX PRO 6 #1"
    );
    assert_eq!(fit_keeping_index("Apple M5 Ultra", 19), "Apple M5 Ultra");
}

#[test]
fn cells_and_bars_have_exact_widths() {
    let mut line = Line::default();
    line.cell("abc", 6, RULE).rcell("12", 5, RULE).bar(8, num(0.5), RULE).pad_to(25);
    assert_eq!(line.plain(), "abc     12 ━━━━────      ");
    assert_eq!(line.width(), 25);
}

#[test]
fn counts_take_their_plural() {
    assert_eq!(plural(1, "host"), "1 host");
    assert_eq!(plural(2, "host"), "2 hosts");
    assert_eq!(plural(0, "host"), "0 hosts");
}

// The All tab.

fn all_tab(cols: u16, rows: u16, details: bool, scroll: usize) -> String {
    let model = the_model();
    let series = recorded(20);
    let inputs = AllTabInputs {
        model: &model,
        series: &series,
        pipeline: &Vec::new(),
        show_details: details,
        sort: SortCriteria::Default,
        scroll,
        filtered_out: &Vec::new(),
        hide_filtered: false,
    };
    let tab = render_all_tab(&inputs, cols, rows);
    let mut writer = tab.writer;
    if let Some(plan) = tab.history {
        render_history(&mut writer, &plan, &drawn(&plan), 3);
    }
    screen(&writer)
}

#[test]
fn groups_devices_under_their_host_and_fills_the_rest_with_history() {
    let out = all_tab(160, 38, false, 0);
    let mac = out.find("● ians-Mac-Studio").unwrap();
    let apple = out.find("Apple M5 Ultra · 80-core GPU").unwrap();
    let vllm = out.find("● vllm").unwrap();
    let rtx = out.find("NVIDIA RTX PRO 6000 Blackwell #0").unwrap();
    assert!(mac < apple && apple < vllm && vllm < rtx, "{out}");
    assert!(out.contains("History"), "{out}");
    assert!(out.matches("\r\n").count() <= 38);
    // The history panel takes what the table leaves, give or take the
    // rounding of chart heights.
    assert!(out.matches("\r\n").count() >= 35, "{out}");
    for line in out.split("\r\n") {
        assert!(display_width(line) <= 160, "{line:?}");
    }
    assert!(!out.contains("slowdown"), "{out}");
}

#[test]
fn details_toggle_adds_a_line_per_device() {
    let out = all_tab(160, 38, true, 0);
    assert!(out.contains("ANE 1.5 W"), "{out}");
    assert!(!out.contains("unreachable"), "{out}");
}

#[test]
fn scrolling_skips_devices_from_the_top() {
    let out = all_tab(160, 38, false, 1);
    assert!(!out.contains("● ians-Mac-Studio"), "{out}");
    assert!(out.contains("● vllm"), "{out}");
}

#[test]
fn short_terminals_keep_the_budget() {
    for rows in [3u16, 6, 10, 20] {
        for cols in [60u16, 80, 100, 120] {
            let out = all_tab(cols, rows, true, 0);
            assert!(out.matches("\r\n").count() <= rows as usize, "{cols}x{rows}");
            for line in out.split("\r\n") {
                assert!(display_width(line) <= cols as usize, "{cols}: {line:?}");
            }
        }
    }
}

#[test]
fn devices_are_sorted_by_their_readings() {
    let model = the_model();
    let devices: Vec<&DeviceRow> = model.hosts.iter().flat_map(|h| h.devices.iter()).collect();
    let uuids = |sort: SortCriteria| -> Vec<String> {
        sort_devices(&devices, sort).iter().map(|d| d.uuid.clone()).collect()
    };
    assert_eq!(uuids(SortCriteria::Default), ["AppleSiliconGPU", "GPU-a", "GPU-b"]);
    assert_eq!(uuids(SortCriteria::Utilization), ["GPU-a", "GPU-b", "AppleSiliconGPU"]);
    assert_eq!(uuids(SortCriteria::GpuMemory), ["AppleSiliconGPU", "GPU-a", "GPU-b"]);
    assert_eq!(uuids(SortCriteria::Power), ["GPU-a", "GPU-b", "AppleSiliconGPU"]);
}

// The series.

fn job(text: &str) -> Option<GpuJob> {
    Some(GpuJob::Text(text.to_string()))
}

fn idle_health() -> EngineHealth {
    EngineHealth {
        ok: None,
        encoder: None,
        step_api: None,
        sessions: None,
        connections: None,
        gpu_job: None,
        gpu_job_s: None,
        queued_jobs: None,
        cache: None,
        uptime_s: None,
        version: None,
        numerics: None,
        restart_pending: None,
    }
}

#[test]
fn pipeline_polls_update_status_and_series() {
    let mut state = ConsolidatedState::default();
    state.pipeline = Some(PipelineStatus::new(PipelineConfig::icculis(None, None)));
    let busy = EngineHealth { gpu_job: job("prefill"), queued_jobs: Some(2), ..idle_health() };
    state.record_engine(Ok(busy.clone()));
    state.record_engine(Err("timeout".to_string()));
    state.record_swap(Ok(vec![SwapModel {
        model: "ds41".to_string(),
        state: "ready".to_string(),
        name: String::new(),
    }]));
    let p = state.pipeline.as_ref().unwrap();
    assert_eq!(p.engine, Probe::Failed("timeout".to_string()));
    assert!(matches!(&p.swap, Probe::Up(m) if m[0].model == "ds41"));
    assert_eq!(state.history.values(PIPE_BUSY_KEY), vec![num(1.0)]);
    assert_eq!(state.history.values(PIPE_QUEUE_KEY), vec![num(2.0)]);

    // Without a pipeline panel the polls are ignored.
    let mut plain = ConsolidatedState::default();
    plain.record_engine(Ok(busy));
    assert!(plain.history.is_empty());
}

#[test]
fn push_caps_each_series_at_history_len() {
    let mut h = SeriesHistory::default();
    for i in 0..(HISTORY_LEN + 10) {
        h.push("a".to_string(), num(i as f64));
    }
    let v = h.values("a");
    assert_eq!(v.len(), HISTORY_LEN);
    assert_eq!(v[0], num(10.0));
    assert_eq!(*v.last().unwrap(), num((HISTORY_LEN + 9) as f64));
}

#[test]
fn non_finite_samples_are_dropped() {
    let mut h = SeriesHistory::default();
    h.push("a".to_string(), num(f64::NAN));
    assert!(h.values("a").is_empty());
}

#[test]
fn series_count_is_capped() {
    let mut h = SeriesHistory::default();
    for i in 0..(MAX_SERIES + 5) {
        h.push(format!("k{i}"), num(1.0));
    }
    assert_eq!(h.len(), MAX_SERIES);
}

fn link(name: &str, rx: Option<f64>, tx: Option<f64>) -> NetInterfaceSample {
    NetInterfaceSample {
        interface: name.to_string(),
        rx_bytes: 0,
        tx_bytes: 0,
        rx_bytes_per_sec: rx.map(num),
        tx_bytes_per_sec: tx.map(num),
    }
}

#[test]
fn record_collection_skips_missing_readings_and_sums_power() {
    let mut state = ConsolidatedState::default();
    let mut idle = gpu("h1:9090", "gpu-a", "NVIDIA RTX", 0);
    idle.power_consumption = Some(num(90.0));
    idle.utilization = Some(num(10.0));
    let mut unavailable = gpu("h2:9090", "gpu-b", "Apple M5 Ultra GPU", 0);
    unavailable.power_consumption = None;
    unavailable.utilization = Some(num(30.0));
    let probes = vec![HostProbes {
        host_id: "h2:9090".to_string(),
        interfaces: vec![link("en0", Some(5.0), None)],
        ..HostProbes::default()
    }];
    state.record_collection(&[idle, unavailable], &probes);
    assert_eq!(state.history.values(&power_key("gpu-a")), vec![num(90.0)]);
    assert!(state.history.values(&power_key("gpu-b")).is_empty());
    assert_eq!(state.history.values(TOTAL_POWER_KEY), vec![num(90.0)]);
    assert_eq!(state.history.values(TOTAL_UTIL_KEY), vec![num(20.0)]);
    assert_eq!(state.history.values(&net_rx_key("h2:9090", "en0")), vec![num(5.0)]);
    assert!(state.history.values(&net_tx_key("h2:9090", "en0")).is_empty());
}

// The model.

#[test]
fn groups_devices_by_host_in_tab_order_and_labels_memory() {
    let model = the_model();
    assert_eq!(model.hosts.len(), 2);
    assert_eq!(model.hosts[0].label, "ians-Mac-Studio");
    assert_eq!(model.hosts[0].devices[0].name, "Apple M5 Ultra");
    assert_eq!(model.hosts[0].devices[0].label(), "Apple M5 Ultra · 80-core GPU");
    assert_eq!(model.hosts[0].devices[0].memory_kind, MemoryKind::Unified);
    assert_eq!(model.hosts[0].devices[0].ane_watts, Some(num(1.5)));
    assert_eq!(model.hosts[1].label, "vllm");
    let names: Vec<&str> = model.hosts[1].devices.iter().map(|d| d.name.as_str()).collect();
    assert_eq!(
        names,
        ["NVIDIA RTX PRO 6000 Blackwell #0", "NVIDIA RTX PRO 6000 Blackwell #1"]
    );
    assert_eq!(model.hosts[1].devices[0].memory_kind, MemoryKind::Dedicated);
    assert_eq!(model.hosts[1].devices[0].power_limit_watts, Some(num(600.0)));
    assert_eq!(model.hosts[1].devices[0].ane_watts, None);
}

#[test]
fn totals_split_unified_and_dedicated() {
    let t = the_model().totals;
    assert_eq!(t.devices, 3);
    assert_eq!((t.hosts_up, t.hosts_total), (2, 2));
    assert_eq!(t.unified_used, 154 * GIB);
    assert_eq!(t.dedicated_total, 192 * GIB);
    assert_eq!(t.memory_total(), 448 * GIB);
    assert!((val(t.power_watts()) - 212.0).abs() < 1e-9);
    assert!((val(t.unified_power_watts) - 12.0).abs() < 1e-9);
    assert!((val(t.avg_utilization.unwrap()) - 28.0).abs() < 1e-9);
}

#[test]
fn unreachable_host_keeps_a_row() {
    let (gpus, tabs, statuses) = mac_down();
    let model = model_of(&gpus, &[], &tabs, &statuses);
    let mac = &model.hosts[0];
    assert!(!mac.connected);
    assert!(mac.devices.is_empty());
    assert_eq!(mac.label, "ians-Mac-Studio");
    assert_eq!(mac.last_error.as_deref(), Some("Connection refused"));
    assert_eq!((model.totals.hosts_up, model.totals.hosts_total), (1, 2));
}

#[test]
fn missing_readings_stay_absent() {
    let mut g = gpu("h:1", "u", "NVIDIA X", 0);
    g.utilization = None;
    g.power_consumption = None;
    let model = model_of(&[g], &[], &[], &Vec::new());
    let d = &model.hosts[0].devices[0];
    assert_eq!(d.utilization, None);
    assert_eq!(d.power_watts, None);
    assert_eq!(model.totals.avg_utilization, None);
}

#[test]
fn apple_gpu_core_count_falls_back_to_the_cpu_series() {
    let (mut gpus, tabs, statuses) = mac_and_box();
    for g in &mut gpus {
        g.gpu_core_count = None;
    }
    let cpu = CpuInfo {
        host_id: "10.10.10.2:9090".to_string(),
        cpu_model: "Apple M5 Ultra".to_string(),
        total_cores: 36,
        utilization: num(0.0),
        power_consumption: Some(num(7.5)),
        apple_silicon_info: Some(AppleSiliconCpuInfo {
            s_core_count: 12,
            p_core_count: 24,
            e_core_count: 0,
            gpu_core_count: 80,
        }),
    };
    let model = model_of(&gpus, &[cpu], &tabs, &statuses);
    assert_eq!(model.hosts[0].devices[0].core_count, Some(80));
    assert_eq!(model.hosts[0].cpu_power_watts, Some(num(7.5)));
    assert_eq!(model.hosts[1].devices[0].core_count, None);
    assert!((val(model.totals.power_limit_watts) - 1200.0).abs() < 1e-9);
}

#[test]
fn names_and_labels() {
    let rtx = gpu("h", "u", "NVIDIA RTX PRO 6000 Blackwell Workstation Edition", 0);
    assert_eq!(device_name(&rtx), "NVIDIA RTX PRO 6000 Blackwell");
    let mac = gpu("h", "u", "Apple M5 Ultra GPU", 0);
    assert_eq!(device_name(&mac), "Apple M5 Ultra");
    assert_eq!(short_host_label("ians-Mac-Studio.local"), "ians-Mac-Studio");
    assert_eq!(short_host_label("vllm"), "vllm");
    assert_eq!(cpu_model_label("AMD EPYC 9275F 24-Core Processor"), "AMD EPYC 9275F");
    assert_eq!(cpu_model_label("Apple M5 Ultra"), "Apple M5 Ultra");
    assert_eq!(os_label("macos"), "macOS");
}

#[test]
fn unified_memory_is_counted_once_and_host_ram_separately() {
    let (gpus, tabs, statuses) = mac_and_box();
    let mem = |host: &str, used: u64, total: u64| MemoryInfo {
        host_id: host.to_string(),
        total_bytes: total * GIB,
        used_bytes: used * GIB,
    };
    let memory = [mem("10.10.10.2:9090", 154, 256), mem("10.10.10.1:9090", 262, 503)];
    let probes = [HostProbes {
        host_id: "10.10.10.2:9090".to_string(),
        os: Some("macos".to_string()),
        ..HostProbes::default()
    }];
    let model = ConsolidatedModel::build(&ModelSources {
        gpu_info: &gpus,
        cpu_info: &[],
        memory_info: &memory,
        host_probes: &probes,
        host_order: &tabs,
        connection_status: &statuses,
    });
    let t = &model.totals;
    assert_eq!((t.unified_used, t.unified_total), (154 * GIB, 256 * GIB));
    assert_eq!((t.host_ram_used, t.host_ram_total), (262 * GIB, 503 * GIB));
    assert_eq!(t.unified_devices, 1);
    assert_eq!(t.max_temperature, Some((40, None)));
    assert!(model.hosts[0].has_unified_memory());
    assert_eq!(model.hosts[0].os.as_deref(), Some("macOS"));
    assert_eq!(model.hosts[1].ram_total, 503 * GIB);
    assert_eq!(model.hosts[1].os, None);
}

#[test]
fn details_collect_thresholds_pstate_and_driver() {
    let mut g = gpu("h", "u", "NVIDIA X", 0);
    g.temperature_threshold_slowdown = Some(95);
    g.temperature_threshold_shutdown = Some(98);
    g.performance_state = Some(1);
    g.gsp_firmware_mode = Some(2);
    g.detail.push(("driver_version".to_string(), "595.45.04".to_string()));
    g.detail.push(("pcie_gen_max".to_string(), "5".to_string()));
    g.detail.push(("pcie_width_max".to_string(), "16".to_string()));
    assert_eq!(
        device_details(&g),
        [
            "slowdown 95°C",
            "shutdown 98°C",
            "P1",
            "driver 595.45.04",
            "GSP default",
            "PCIe 5.0 x16"
        ]
    );
}

#[test]
fn one_host_of_a_model_keeps_only_its_devices() {
    let model = the_model();
    let mac = model.only_host("10.10.10.2:9090");
    assert_eq!(mac.hosts.len(), 1);
    assert_eq!(mac.hosts[0].label, "ians-Mac-Studio");
    assert_eq!(model.host_label("10.10.10.1:9090"), "vllm");
    assert_eq!(model.host_label("elsewhere:1"), "elsewhere:1");
}

// The pipeline.

#[test]
fn gpu_job_labels() {
    let busy = EngineHealth {
        gpu_job: job("prefill s12"),
        gpu_job_s: Some(num(1.5)),
        ..idle_health()
    };
    assert_eq!(busy.gpu_job_label().as_deref(), Some("prefill s12"));
    let obj = EngineHealth {
        gpu_job: Some(GpuJob::Object {
            fields: vec![
                ("kind".to_string(), JobField::Text("step".to_string())),
                ("n".to_string(), JobField::Json("3".to_string())),
            ],
            json: "{\"kind\":\"step\",\"n\":3}".to_string(),
        }),
        ..idle_health()
    };
    assert_eq!(obj.gpu_job_label().as_deref(), Some("step"));
    let evil = EngineHealth { gpu_job: job("a\u{1b}[2Jb"), ..idle_health() };
    assert_eq!(evil.gpu_job_label().as_deref(), Some("a[2Jb"));
    assert_eq!(idle_health().gpu_job_label(), None);
    assert!(!idle_health().is_busy());
}

#[test]
fn what_an_endpoint_answers_is_explained() {
    let h = EngineHealth { sessions: Some(3), ..idle_health() };
    assert_eq!(EngineHealth::parse(Ok(h.clone())), Ok(h));
    assert_eq!(
        EngineHealth::parse(Err("expected value".to_string())),
        Err("bad /health JSON: expected value".to_string())
    );
    let model = |name: &str| SwapModel {
        model: name.to_string(),
        state: "ready".to_string(),
        name: "Icculis".to_string(),
    };
    let models = parse_swap_running(Ok(vec![model("ds41")])).unwrap();
    assert_eq!(models, vec![model("ds41")]);
    assert!(parse_swap_running(Ok(Vec::new())).unwrap().is_empty());
    let many = parse_swap_running(Ok(vec![model("evil\u{1b}[2J"); 40])).unwrap();
    assert_eq!(many.len(), 16);
    assert_eq!(many[0].model, "evil[2J");
    assert_eq!(
        parse_swap_running(Err("eof".to_string())),
        Err("bad /running JSON: eof".to_string())
    );
}

#[test]
fn the_prefix_cache_has_a_hit_ratio() {
    let cache = EngineCache {
        lookups: Some(406),
        hits: Some(301),
        resumed_tokens: Some(5_385_728),
        entries: Some(777),
        bytes: Some(29_383_016_290),
        budget: Some(68_719_476_736),
    };
    assert!((val(cache.hit_ratio().unwrap()) - 301.0 / 406.0).abs() < 1e-12);
    assert_eq!(EngineCache { lookups: Some(0), ..cache }.hit_ratio(), None);
    assert_eq!(EngineCache { hits: None, ..cache }.hit_ratio(), None);
}

#[test]
fn prefill_phase_is_timed_across_polls() {
    const SECOND: u64 = 1_000_000_000;
    let mut p = PipelineStatus::new(PipelineConfig::icculis(None, None));
    let t0 = 77 * SECOND;
    let prefill = EngineHealth {
        gpu_job: job("prefill_chunk"),
        gpu_job_s: Some(num(0.4)),
        ..idle_health()
    };
    assert!(prefill.is_prefill());
    p.engine = Probe::Up(prefill.clone());
    p.observe_phase(t0);
    p.observe_phase(t0 + 3 * SECOND);
    assert_eq!(p.prefill_elapsed, Some(Span { secs: 3, nanos: 0 }));
    let step = EngineHealth { gpu_job: job("step"), ..idle_health() };
    assert!(!step.is_prefill());
    p.engine = Probe::Up(step);
    p.observe_phase(t0 + 4 * SECOND);
    assert_eq!(p.prefill_since, None);
    assert_eq!(p.prefill_elapsed, None);
    assert_eq!(p.last_prefill, Some(Span { secs: 3, nanos: 0 }));
}

#[test]
fn swap_url_gets_running_path() {
    let c = PipelineConfig::icculis(None, Some("http://mac:8080/".to_string()));
    assert_eq!(c.swap_running_url(), "http://mac:8080/running");
    assert_eq!(c.health_url, DEFAULT_HEALTH_URL);
}

#[test]
fn counts_are_compact() {
    assert_eq!(fmt_count(999), "999");
    assert_eq!(fmt_count(5_385_728), "5.39M");
    assert_eq!(fmt_count(12_300), "12.3K");
}

#[test]
fn endpoints_go_by_the_host_they_are_on() {
    let model = the_model();
    assert_eq!(
        host_for_url(&model, "http://10.10.10.1:10051/health"),
        Some("10.10.10.1:9090".to_string())
    );
    assert_eq!(host_for_url(&model, "http://10.0.0.9/"), None);
    assert_eq!(host_for_url(&model, "no url"), None);
    assert_eq!(endpoint_label(&model, "http://10.10.10.1:10051/health"), "vllm :10051");
}

fn readings(pairs: &[(&str, f64)]) -> Table<Reading> {
    let mut table = Table::new();
    for (k, v) in pairs {
        table.insert(k.to_string(), num(*v));
    }
    table
}

fn json(name: &str, values: &[(&str, f64)], rates: &[(&str, f64)]) -> JsonProbeSample {
    JsonProbeSample {
        name: name.to_string(),
        up: true,
        values: readings(values),
        rates: readings(rates),
    }
}

fn pipeline_probes(steps_rate: f64, inflight: f64, box_tx: f64) -> Vec<HostProbes> {
    vec![
        HostProbes {
            host_id: "10.10.10.1:9090".to_string(),
            interfaces: vec![link("enp", Some(2_000.0), Some(box_tx))],
            ..HostProbes::default()
        },
        HostProbes {
            host_id: "10.10.10.2:9090".to_string(),
            json: vec![
                json("sup", &[("inflight", inflight)], &[]),
                json("og", &[("steps", 100.0)], &[("steps", steps_rate), ("rows", 90.0)]),
                json(
                    "omlx",
                    &[("total_completion_tokens", 200.0), ("avg_generation_tps", 71.4)],
                    &[],
                ),
            ],
            ..HostProbes::default()
        },
    ]
}

fn status(kind: Option<&str>) -> PipelineStatus {
    let mut p = PipelineStatus::new(PipelineConfig::icculis(None, None));
    p.engine = Probe::Up(match kind {
        Some(j) => EngineHealth {
            gpu_job: job(j),
            gpu_job_s: Some(num(0.5)),
            sessions: Some(1),
            ..idle_health()
        },
        None => EngineHealth { gpu_job: None, sessions: Some(0), ..idle_health() },
    });
    p
}

#[test]
fn prefill_on_the_box_while_the_mac_waits() {
    let model = the_model();
    let mut p = status(Some("prefill_chunk"));
    p.prefill_elapsed = Some(Span { secs: 8, nanos: 0 });
    let v = PipelineView::build(&model, &p, &pipeline_probes(0.0, 1.0, 1.1e9));
    assert_eq!(v.front_host, "vllm");
    assert_eq!(v.back_host, "ians-Mac-Studio");
    assert_eq!(v.front.words(), ("PREFILL", "8s · prefill_chunk 0.5s".to_string()));
    assert_eq!(v.back, Phase::Waiting("for the prefill state".to_string()));
    assert_eq!(v.link, LinkUse::PrefillState);
    assert_eq!(v.to_back, Some(num(1.1e9)));
    assert_eq!(v.to_front, Some(num(2_000.0)));
}

#[test]
fn decode_on_both_with_estimated_tokens_per_second() {
    let model = the_model();
    let v = PipelineView::build(&model, &status(None), &pipeline_probes(30.0, 1.0, 5e6));
    assert_eq!(v.back, Phase::Decode("≈60 tok/s · 30 steps/s".to_string()));
    assert_eq!(v.front, Phase::Decode("verify 90 rows/s".to_string()));
    assert_eq!(v.link, LinkUse::Steps);
    assert!(v.front.is_active() && v.back.is_active());

    // No step caught by the poll, but a session with a busy link.
    let mut p = PipelineStatus::new(PipelineConfig::icculis(None, None));
    p.engine = Probe::Up(EngineHealth { sessions: Some(1), ..idle_health() });
    let v = PipelineView::build(&model, &p, &pipeline_probes(0.0, 0.0, 5e6));
    assert_eq!(v.front, Phase::Decode("steps on the link".to_string()));
}

#[test]
fn idle_and_unprobed() {
    let model = the_model();
    let v = PipelineView::build(&model, &status(None), &pipeline_probes(0.0, 0.0, 300.0));
    assert_eq!(v.front, Phase::Idle(String::new()));
    assert_eq!(v.back, Phase::Idle("avg 71 tok/s".to_string()));
    assert_eq!(v.link, LinkUse::Idle);
    let bare = PipelineView::build(&model, &status(None), &[]);
    assert!(matches!(bare.back, Phase::Unknown(_)));
    assert!(!bare.back.is_active());

    // Probes configured, serving process gone.
    let mut stopped = pipeline_probes(0.0, 0.0, 300.0);
    for p in &mut stopped[1].json {
        p.up = false;
        p.values = Table::new();
    }
    let v = PipelineView::build(&model, &status(None), &stopped);
    assert_eq!(v.back, Phase::Idle("not serving".to_string()));

    // Not serving, but the Mac GPU is busy under someone else's lock.
    let (mut gpus, tabs, statuses) = mac_and_box();
    for g in &mut gpus {
        g.utilization = Some(num(85.0));
    }
    let model = model_of(&gpus, &[], &tabs, &statuses);
    stopped[1].locks = vec![LockSample {
        path: "/l".to_string(),
        holders: vec![LockHolder { pid: 7, command: "python".to_string() }],
        since_unix: None,
    }];
    let v = PipelineView::build(&model, &status(Some("step")), &stopped);
    assert_eq!(
        v.back,
        Phase::Busy("not serving · GPU 85% · lock: python (pid 7)".to_string())
    );
    assert_eq!(v.front, Phase::Decode("verify step".to_string()));
}

// The Consolidated tab.

fn shown(rows: &[Row]) -> String {
    rows.iter()
        .map(|row| {
            let text: String = row
                .segs
                .iter()
                .map(|seg| match seg {
                    Segment::Text(s, _) => s.clone(),
                    Segment::Spark { shown, .. } => "⣀".repeat(*shown),
                })
                .collect();
            format!("{text}\r\n")
        })
        .collect()
}

fn consolidated(cols: u16, rows: u16, probes: &[HostProbes], state: &ConsolidatedState) -> String {
    let (gpus, tabs, statuses) = mac_and_box();
    let inputs = ConsolidatedInputs {
        gpu_info: &gpus,
        cpu_info: &[],
        tabs: &tabs,
        connection_status: &statuses,
        host_probes: probes,
        state,
        now_unix: 1_000_750,
    };
    shown(&render_consolidated_tab(&inputs, cols, rows))
}

fn mac_probes() -> Vec<HostProbes> {
    vec![HostProbes {
        host_id: "10.10.10.2:9090".to_string(),
        interfaces: vec![link("en0", Some(1_250_000_000.0), Some(2_500.0))],
        locks: vec![LockSample {
            path: "/Users/ian/llm/locks/gpu.lock".to_string(),
            holders: vec![LockHolder { pid: 49097, command: "omlx-server".to_string() }],
            since_unix: Some(1_000_000),
        }],
        ..HostProbes::default()
    }]
}

#[test]
fn every_device_is_listed_with_labeled_memory_and_totals() {
    let out = consolidated(160, 40, &[], &ConsolidatedState::default());
    assert!(out.contains("3 accelerators on 2 hosts (2 up)"), "{out}");
    assert!(out.contains("ians-Mac-Studio"));
    assert!(out.contains("154.0/256.0 GiB unified"));
    assert!(out.contains("87.0/96.0 GiB VRAM"));
    assert!(out.contains("100/600 W"));
    assert!(out.contains("└ ANE 1.5 W"));
    assert!(out.contains("328.0/448.0 GiB 73%"), "{out}");
    assert!(out.contains("212 W"));
    assert!(out.contains(
        "unified 154.0/256.0 GiB, SoC GPU 12.0 W · VRAM 174.0/192.0 GiB, discrete GPUs 200 W"
    ));
}

#[test]
fn device_names_show_cores_and_keep_their_index() {
    let out = consolidated(160, 40, &[], &ConsolidatedState::default());
    assert!(out.contains("Apple M5 Ultra (80 cores)"), "{out}");
    assert!(out.contains("NVIDIA RTX PRO 6000 Blackw #0 "), "{out}");
    assert!(out.contains("NVIDIA RTX PRO 6000 Blackw #1 "), "{out}");
    // At 80 columns there is no room for the core count.
    let narrow = consolidated(80, 40, &[], &ConsolidatedState::default());
    assert!(narrow.contains("Apple M5 Ultra "), "{narrow}");
    assert!(!narrow.contains("cores)"), "{narrow}");
    assert!(narrow.contains("NVIDIA RTX PRO 6 #1 "), "{narrow}");
}

#[test]
fn lines_never_exceed_the_terminal_width() {
    let mut state = ConsolidatedState::default();
    let (gpus, _, _) = mac_and_box();
    for _ in 0..50 {
        state.record_collection(&gpus, &mac_probes());
    }
    for cols in [80u16, 100, 120, 160, 220] {
        let out = consolidated(cols, 60, &mac_probes(), &state);
        for line in out.split("\r\n") {
            assert!(display_width(line) <= cols as usize, "{cols} cols overflowed: {line:?}");
        }
    }
}

#[test]
fn row_budget_is_respected() {
    let out = consolidated(160, 5, &mac_probes(), &ConsolidatedState::default());
    assert_eq!(out.matches("\r\n").count(), 5);
}

#[test]
fn probes_render_link_rates_and_lock_holder() {
    let out = consolidated(160, 40, &mac_probes(), &ConsolidatedState::default());
    assert!(out.contains("LINK"));
    assert!(out.contains("en0"));
    assert!(out.contains("1.25 GB/s"));
    assert!(out.contains("2.5 KB/s"));
    assert!(out.contains("~/llm/locks/gpu.lock"));
    assert!(out.contains("held by omlx-server (pid 49097) for 12m 30s"), "{out}");
}

#[test]
fn down_host_renders_reason() {
    let (gpus, tabs, statuses) = mac_down();
    let state = ConsolidatedState::default();
    let inputs = ConsolidatedInputs {
        gpu_info: &gpus,
        cpu_info: &[],
        tabs: &tabs,
        connection_status: &statuses,
        host_probes: &[],
        state: &state,
        now_unix: 0,
    };
    let out = shown(&render_consolidated_tab(&inputs, 160, 40));
    assert!(out.contains("(1 up)"));
    assert!(out.contains("unreachable: Connection refused"), "{out}");
}

#[test]
fn the_pipeline_panel_shows_engine_swap_lock_and_link() {
    let mut engine = PipelineStatus::new(PipelineConfig::icculis(None, None));
    engine.engine = Probe::Up(EngineHealth {
        ok: Some(true),
        sessions: Some(2),
        connections: Some(1),
        gpu_job: job("prefill"),
        gpu_job_s: Some(num(1.25)),
        queued_jobs: Some(3),
        version: Some("d11dccf".to_string()),
        numerics: Some("og-s4.3".to_string()),
        uptime_s: Some(num(4227.0)),
        cache: Some(EngineCache {
            lookups: Some(406),
            hits: Some(301),
            resumed_tokens: None,
            entries: Some(777),
            bytes: None,
            budget: None,
        }),
        ..idle_health()
    });
    engine.swap = Probe::Up(vec![SwapModel {
        model: "ds41".to_string(),
        state: "ready".to_string(),
        name: "Icculis".to_string(),
    }]);
    let mut state = ConsolidatedState::default();
    state.pipeline = Some(engine);
    let out = consolidated(160, 60, &mac_probes(), &state);
    assert!(out.contains("── Icculis ─"), "{out}");
    assert!(out.contains("vllm :10051"), "{out}");
    assert!(out.contains("ok · d11dccf · og-s4.3 · up 1h 10m"), "{out}");
    assert!(out.contains("sessions 2 · connections 1 · gpu busy: prefill 1.2s · queue 3"));
    assert!(out.contains("prefix cache 301/406 hits (74.1%) · 777 entries"));
    assert!(out.contains("ians-Mac-Studio :8080"), "{out}");
    assert!(out.contains("ds41 ready  Icculis"));
    assert!(out.contains("held by omlx-server"));
    assert!(out.contains("1.25 GB/s"));

    if let Some(p) = state.pipeline.as_mut() {
        p.engine = Probe::Failed("connection failed".to_string());
        p.swap = Probe::Pending;
    }
    let out = consolidated(160, 60, &[], &state);
    assert!(out.contains("unreachable: connection failed"));
    assert!(out.contains("waiting for the first /running poll"));
}

#[test]
fn probe_rows_follow_host_order() {
    let mut both = vec![HostProbes {
        host_id: "10.10.10.1:9090".to_string(),
        interfaces: vec![link("enp161s0f0np0", None, None)],
        ..HostProbes::default()
    }];
    both.extend(mac_probes());
    let out = consolidated(160, 60, &both, &ConsolidatedState::default());
    let mac = out.find("en0 ").unwrap();
    let rtx = out.find("enp161s0f0np0").unwrap();
    assert!(mac < rtx, "{out}");
}

#[test]
fn render_formats() {
    assert_eq!(fmt_watts(num(0.02)), "0.02 W");
    assert_eq!(fmt_watts(num(92.4)), "92.4 W");
    assert_eq!(fmt_watts(num(188.6)), "189 W");
    assert_eq!(fmt_rate(None), "n/a");
    assert_eq!(fmt_rate(Some(num(999.0))), "999 B/s");
    assert_eq!(fmt_duration(59), "59s");
    assert_eq!(fmt_duration(3599), "59m 59s");
    assert_eq!(fmt_duration(3 * 3600 + 5 * 60), "3h 05m");
    assert_eq!(fmt_duration(2 * 86400 + 4 * 3600), "2d 04h");
    assert_eq!(tilde_home("/home/ian/x.lock"), "~/x.lock");
    assert_eq!(fit_keeping_index("RTX PRO 6000 Blackwell #1", 19), "RTX PRO 6000 Bla #1");
    assert_eq!(fit_keeping_index("M5 Ultra GPU", 19), "M5 Ultra GPU");
    assert_eq!(tilde_home("/var/lock/x"), "/var/lock/x");
}

#[test]
fn totals_shrink_to_the_hosts_that_answered() {
    let (gpus, tabs, statuses) = mac_down();
    let t = model_of(&gpus, &[], &tabs, &statuses).totals;
    assert_eq!((t.devices, t.unified_devices), (2, 0));
    assert_eq!(t.memory_total(), 192 * GIB);
    assert_eq!(t.power_watts(), num(200.0));
    assert_eq!(t.avg_utilization, Some(num(40.0)));
}

#[test]
fn a_gap_leaves_the_series_alone() {
    let mut state = ConsolidatedState::default();
    let mut device = gpu("h1:9090", "gpu-a", "NVIDIA RTX", 0);
    device.power_consumption = Some(num(90.0));
    device.utilization = Some(num(10.0));
    state.record_collection(&[device.clone()], &[]);
    device.power_consumption = None;
    device.utilization = None;
    state.record_collection(&[device], &[]);
    assert_eq!(state.history.values("util:gpu-a"), vec![num(10.0)]);
    assert_eq!(state.history.values("power:gpu-a"), vec![num(90.0)]);
}

#[test]
fn churning_devices_do_not_outgrow_the_history() {
    let mut state = ConsolidatedState::default();
    for i in 0..(2 * MAX_SERIES) {
        state.record_collection(&[gpu("h1:9090", &format!("gpu-{i}"), "NVIDIA RTX", 0)], &[]);
    }
    assert_eq!(state.history.len(), MAX_SERIES);
    assert_eq!(state.history.values(TOTAL_POWER_KEY).len(), HISTORY_LEN);
}

#[test]
fn endpoints_fail_independently() {
    let mut pipeline = PipelineStatus::new(PipelineConfig::icculis(None, None));
    pipeline.engine = Probe::Up(idle_health());
    pipeline.swap = Probe::Failed("timed out".to_string());
    let mut state = ConsolidatedState::default();
    state.pipeline = Some(pipeline);
    let out = consolidated(160, 60, &[], &state);
    assert!(out.contains("unreachable: timed out"), "{out}");
    assert!(out.contains("gpu idle"), "{out}");
}

#[test]
fn a_power_limit_is_read_from_the_details() {
    let limit = |text: &str| {
        let mut device = gpu("h1:9090", "gpu-a", "NVIDIA RTX", 0);
        device.detail.push(("power_limit_max".to_string(), text.to_string()));
        model_of(&[device], &[], &[], &Vec::new()).hosts[0].devices[0].power_limit_watts
    };
    assert_eq!(limit("300.5"), Some(num(300.5)));
    assert_eq!(limit("0"), None);
    assert_eq!(limit("-5"), None);
    assert_eq!(limit("600 W"), None);
}

#[test]
fn sums_that_do_not_fit_are_refused() {
    let (mut gpus, tabs, statuses) = mac_and_box();
    let state = ConsolidatedState::default();
    let fits = |gpus: &[GpuInfo], tabs: &[String]| {
        let sources = ModelSources {
            gpu_info: gpus,
            cpu_info: &[],
            memory_info: &[],
            host_probes: &[],
            host_order: tabs,
            connection_status: &statuses,
        };
        let inputs = ConsolidatedInputs {
            gpu_info: gpus,
            cpu_info: &[],
            tabs,
            connection_status: &statuses,
            host_probes: &[],
            state: &state,
            now_unix: 0,
        };
        (ConsolidatedModel::try_build(&sources).is_some(), can_render(&inputs))
    };
    assert_eq!(fits(&gpus, &tabs), (true, true));
    // One pool that fills its type: each sum fits, both together do not.
    gpus[0].total_memory = u64::MAX - 96 * GIB;
    assert_eq!(fits(&gpus, &tabs), (true, false));
    // A host that is listed twice counts twice.
    let twice = vec!["10.10.10.1:9090".to_string(), "10.10.10.1:9090".to_string()];
    assert_eq!(fits(&gpus, &twice), (false, false));
}
