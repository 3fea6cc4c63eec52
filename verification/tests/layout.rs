use all_smi::app_state::{AppState, ViewArgs};
use all_smi::device::types::{DeviceSection, GpuInfo, StorageInfo};
use all_smi::reading::Reading;
use all_smi::ui::cluster::remote_header_rows;
use all_smi::ui::layout::{
    gpu_render_line_count, max_gpu_lines_over, ColumnSpec, LayoutCalculator, StandardColumns,
};
use all_smi::ui::tabs::is_reserved_tab;
use all_smi::ui::theme::{
    bar_cells, color_enabled, has_level, mem_level, power_level, temp_level, util_level, Level, CRIT, TEXT,
};

fn num(x: f64) -> Reading {
    Reading { bits: x.to_bits() }
}

#[test]
fn test_calculate_progress_bar_layout() {
    let layout = LayoutCalculator::calculate_progress_bar_layout(40, 3, 5);

    assert_eq!(layout.bar_width, 8); // (40 - 10 padding - 4 separators) / 3 = 26 / 3 = 8
    assert_eq!(layout.left_padding, 5);
    assert_eq!(layout.right_padding, 5);
    assert_eq!(layout.separator_width, 2);
    assert_eq!(layout.total_bars, 3);
}

#[test]
fn test_calculate_table_columns() {
    let specs = vec![
        ColumnSpec::new("A", 10, num(1.0)),
        ColumnSpec::new("B", 15, num(2.0)),
        ColumnSpec::new("C", 5, num(0.5)),
    ];

    let widths = LayoutCalculator::calculate_table_columns(50, &specs);

    // Min total: 30, separators: 2, extra: 18
    // Weight distribution: A=18*1/3.5=5, B=18*2/3.5=10, C=18*0.5/3.5=2
    assert_eq!(widths[0], 15); // 10 + 5
    assert_eq!(widths[1], 25); // 15 + 10
    assert_eq!(widths[2], 7); // 5 + 2
}

#[test]
fn table_columns_share_what_single_precision_gives_them() {
    for columns in [StandardColumns::process_table(), StandardColumns::device_table()] {
        let weights: Vec<f32> =
            columns.iter().map(|c| f64::from_bits(c.weight.bits) as f32).collect();
        let total: f32 = weights.iter().sum();
        let least: usize =
            columns.iter().map(|c| c.min_width).sum::<usize>() + columns.len() - 1;
        for width in [0, least, least + 1, least + 7, 120, 211, 1_000_003, 1 << 40] {
            let widths = LayoutCalculator::calculate_table_columns(width, &columns);
            for (i, c) in columns.iter().enumerate() {
                let extra = if width <= least {
                    0
                } else {
                    ((width - least) as f32 * weights[i] / total) as usize
                };
                assert_eq!(widths[i], c.min_width + extra, "{} at {width}", c.name);
            }
        }
    }
    assert_eq!(StandardColumns::process_table().len(), 8);
    assert_eq!(StandardColumns::device_table()[3].name, "Memory");
}

#[test]
fn test_calculate_header_lines_local_vs_remote() {
    // Local mode: only the basic title line, no cluster/tab widgets.
    let local_state = AppState { is_local_mode: true, ..AppState::default() };
    let local_lines = LayoutCalculator::calculate_header_lines(&local_state, 120);

    // Remote mode: title, overview blocks and the tab strip, and the same
    // count the header renderer reports.
    let remote_state = AppState { is_local_mode: false, ..AppState::default() };
    let remote_lines = LayoutCalculator::calculate_header_lines(&remote_state, 120);

    assert!(
        local_lines < remote_lines,
        "local mode ({local_lines}) should use fewer header lines than remote mode ({remote_lines})"
    );
    assert_eq!(remote_lines, remote_header_rows(&remote_state, 120));
}

#[test]
fn narrow_local_header_reserves_its_intentional_second_metric_row() {
    let local_state = AppState { is_local_mode: true, ..AppState::default() };

    assert_eq!(LayoutCalculator::calculate_header_lines(&local_state, 39), 4);
    assert_eq!(LayoutCalculator::calculate_header_lines(&local_state, 40), 3);
}

#[test]
fn test_content_area_reserves_multirow_activity_panel() {
    let mut state = AppState::default();
    state.is_local_mode = true;
    state.gpu_info.push(make_minimal_gpu("localhost", "NVIDIA A100"));

    let header = LayoutCalculator::calculate_header_lines(&state, 120);

    // Short terminal -> fallback: CPU 5 rows, GPU 6 rows -> panel 6.
    let short = LayoutCalculator::calculate_content_area(&state, 120, 24, 5, 4);
    assert_eq!(short.y, header + 6, "fallback activity panel height");
    assert_eq!(short.available_rows, 24 - 9 - 1);

    // Tall terminal -> multirow: CPU 8 rows, GPU 7 rows -> panel 8.
    let tall = LayoutCalculator::calculate_content_area(&state, 120, 50, 8, 5);
    assert_eq!(tall.y, header + 8, "multirow activity panel height");
}

fn make_minimal_gpu(host_id: &str, name: &str) -> GpuInfo {
    GpuInfo {
        uuid: format!("{host_id}/{name}"),
        name: name.to_string(),
        host_id: host_id.to_string(),
        instance: host_id.to_string(),
        utilization: Some(num(0.0)),
        ane_utilization: Some(num(0.0)),
        temperature: Some(50),
        used_memory: 0,
        total_memory: 0,
        frequency: Some(0),
        power_consumption: Some(num(0.0)),
        gpu_core_count: None,
        temperature_threshold_slowdown: None,
        temperature_threshold_shutdown: None,
        temperature_threshold_max_operating: None,
        temperature_threshold_acoustic: None,
        performance_state: None,
        fan_speed_rpm: None,
        numa_node_id: None,
        gsp_firmware_mode: None,
        nvlink_remote_devices: 0,
        detail: Vec::new(),
    }
}

#[test]
fn max_gpu_lines_over_returns_two_for_empty_iterator() {
    // No GPUs visible (e.g. cluster still loading): layout math never
    // returns 0.
    let lines = max_gpu_lines_over(&[], &[], &[]);
    assert_eq!(lines, 2);
}

#[test]
fn max_gpu_lines_over_picks_largest_visible_gpu() {
    // A 2-line GPU and a 3-line NVIDIA GPU: the layout must size for the
    // 3-line worst case to avoid clipping the gauges.
    let plain = make_minimal_gpu("h1", "Apple M2 Pro");
    let mut nvidia = make_minimal_gpu("h2", "NVIDIA A100");
    nvidia.performance_state = Some(2);
    let gpus = [plain, nvidia];
    let lines = max_gpu_lines_over(&gpus, &[], &[]);
    assert_eq!(lines, 3);
}

#[test]
fn max_gpu_lines_for_tab_filters_by_host_id_in_per_host_tab() {
    // Tab "h2" is selected; only h2's GPU contributes to the max.
    let plain_h2 = make_minimal_gpu("h2", "Apple M2 Pro");
    let mut nvidia_h1 = make_minimal_gpu("h1", "NVIDIA A100");
    nvidia_h1.performance_state = Some(0);
    let state = AppState {
        tabs: vec!["All".into(), "h2".into()],
        current_tab: 1,
        gpu_info: vec![plain_h2, nvidia_h1],
        ..AppState::default()
    };
    let lines = LayoutCalculator::max_gpu_lines_for_tab(&state);
    assert_eq!(lines, 2, "h1's NVIDIA row must not affect h2's tab");
}

#[test]
fn max_gpu_lines_for_tab_uses_all_gpus_under_all_tab() {
    let plain_h2 = make_minimal_gpu("h2", "Apple M2 Pro");
    let mut nvidia_h1 = make_minimal_gpu("h1", "NVIDIA A100");
    nvidia_h1.performance_state = Some(0);
    let state = AppState {
        tabs: vec!["All".into(), "h2".into()],
        current_tab: 0,
        gpu_info: vec![plain_h2, nvidia_h1],
        ..AppState::default()
    };
    let lines = LayoutCalculator::max_gpu_lines_for_tab(&state);
    assert_eq!(lines, 3, "All tab must surface the worst-case GPU height");
}

#[test]
fn sections_beneath_a_device_take_their_rows() {
    let gpu = make_minimal_gpu("h", "NVIDIA A100");
    let section = |uuid: &str, rows: u16| DeviceSection { gpu_uuid: uuid.to_string(), rows };
    assert_eq!(gpu_render_line_count(&gpu, &[], &[]), 2);
    assert_eq!(gpu_render_line_count(&gpu, &[section("h/NVIDIA A100", 3)], &[]), 5);
    assert_eq!(
        gpu_render_line_count(&gpu, &[section("other", 3)], &[section("h/NVIDIA A100", 4)]),
        6
    );
}

#[test]
fn storage_takes_its_rows_from_the_devices() {
    let mut state = AppState::default();
    state.is_local_mode = true;
    state.storage_info = vec![
        StorageInfo { host_id: "h".to_string(), mount_point: "/".to_string() },
        StorageInfo { host_id: "h".to_string(), mount_point: "/data".to_string() },
    ];
    state.gpu_scroll_offset = 1;
    let area = LayoutCalculator::calculate_content_area(&state, 120, 40, 0, 0);
    assert_eq!(area.available_rows, 36);
    let args = ViewArgs { hosts: None, hostfile: None };
    let params = LayoutCalculator::calculate_gpu_display_params(&state, &args, &area);
    assert_eq!(params.storage_rows, 4);
    assert_eq!(params.start_index, 1);
    assert_eq!(params.max_items, params.display_rows / params.lines_per_gpu);
    // Remote, under the tab of all hosts: no storage is shown.
    let remote = ViewArgs { hosts: Some(Vec::new()), hostfile: None };
    let params = LayoutCalculator::calculate_gpu_display_params(&state, &remote, &area);
    assert_eq!(params.storage_rows, 0);
}

#[test]
fn reserved_tabs_are_no_hosts() {
    assert!(is_reserved_tab("All"));
    assert!(!is_reserved_tab("node-a"));
}

#[test]
fn thresholds() {
    assert_eq!(util_level(num(10.0)), Level::Normal);
    assert_eq!(util_level(num(70.0)), Level::Warn);
    assert_eq!(util_level(num(95.0)), Level::Crit);
    assert_eq!(mem_level(num(0.80)), Level::Normal);
    assert_eq!(mem_level(num(0.92)), Level::Warn);
    assert_eq!(mem_level(num(0.96)), Level::Crit);
    assert_eq!(power_level(num(0.5)), Level::Normal);
    assert_eq!(power_level(num(0.95)), Level::Crit);
    assert_eq!(temp_level(35, Some(95)), Level::Normal);
    assert_eq!(temp_level(80, Some(95)), Level::Warn);
    assert_eq!(temp_level(91, Some(95)), Level::Crit);
    assert_eq!(temp_level(84, None), Level::Normal);
    assert_eq!(temp_level(85, None), Level::Warn);
}

#[test]
fn a_temperature_has_a_level_where_its_margins_fit() {
    assert!(has_level(91, Some(95)));
    // Already critical: the wider margin is never looked at.
    assert!(has_level(u32::MAX - 10, Some(95)));
    assert_eq!(temp_level(u32::MAX - 10, Some(95)), Level::Crit);
    assert_eq!(temp_level(u32::MAX - 5, Some(0)), Level::Crit);
    assert!(!has_level(u32::MAX - 4, Some(95)));
    assert!(!has_level(u32::MAX - 10, Some(u32::MAX)));
    assert!(has_level(u32::MAX - 15, Some(u32::MAX)));
    assert_eq!(temp_level(u32::MAX - 15, Some(u32::MAX)), Level::Warn);
}

#[test]
fn value_color_is_plain_when_normal() {
    assert_eq!(Level::Normal.value_color(), TEXT);
    assert_eq!(Level::Crit.value_color(), CRIT);
}

#[test]
fn bar_cells_clamp_and_show_small_readings() {
    assert_eq!(bar_cells(10, num(0.0)), (0, 10));
    assert_eq!(bar_cells(10, num(0.01)), (1, 9));
    assert_eq!(bar_cells(10, num(0.55)), (6, 4));
    assert_eq!(bar_cells(10, num(2.0)), (10, 0));
    assert_eq!(bar_cells(10, num(f64::NAN)), (0, 10));
    assert_eq!(bar_cells(0, num(0.5)), (0, 0));
    let filled: Vec<usize> = (0..=40).map(|i| bar_cells(7, num(i as f64 / 40.0)).0).collect();
    assert!(filled.windows(2).all(|w| w[0] <= w[1]));
    assert_eq!((filled[0], filled[1], filled[40]), (0, 1, 7));
}

#[test]
fn color_is_on_unless_the_environment_says_otherwise() {
    assert!(color_enabled(None));
    assert!(color_enabled(Some(0)));
    assert!(!color_enabled(Some(1)));
}
