use all_smi::device::macos_native::energy::EnergyReadings;
use all_smi::device::macos_native::ioreport::{
    can_weigh, classify_cpu_channel, delta_step, energy_observations, enumeration_error,
    extract_voltage_state_tables, is_clock_node, is_idle_state, parse_raw_element_timestamp,
    parse_voltage_states_bytes, scale_mach_ticks, select_cpu_frequency_table,
    select_gpu_frequency_table, strip_die_prefix, usable_timebase, ChannelItem, CpuCluster,
    DeltaStep, GroupOutcome, IOReportMetrics, RawChannel,
};
use all_smi::reading::Reading;

fn num(x: f64) -> Reading {
    Reading { bits: x.to_bits() }
}

fn val(r: Reading) -> f64 {
    f64::from_bits(r.bits)
}

#[test]
fn raw_element_timestamp_is_read_at_offset_24() {
    // Provider id, channel id, channel type, timestamp, value, then the rest of
    // the 64 bytes.
    let mut element = Vec::with_capacity(64);
    element.extend_from_slice(&0x1000_0abcu64.to_le_bytes());
    element.extend_from_slice(&7u64.to_le_bytes());
    element.extend_from_slice(&0x0001_0002u64.to_le_bytes());
    element.extend_from_slice(&123_456_789_012u64.to_le_bytes());
    element.extend_from_slice(&4_969i64.to_le_bytes());
    element.resize(64, 0);

    assert_eq!(parse_raw_element_timestamp(&element), Some(123_456_789_012));
    assert_eq!(parse_raw_element_timestamp(&element[..32]), Some(123_456_789_012));
    assert_eq!(parse_raw_element_timestamp(&element[..31]), None);
    assert_eq!(parse_raw_element_timestamp(&[]), None);
}

#[test]
fn mach_ticks_scale_by_the_timebase() {
    // Apple Silicon's 125/3 timebase is a 24 MHz tick.
    assert_eq!(scale_mach_ticks(24_000_000, 125, 3), 1_000_000_000);
    assert_eq!(scale_mach_ticks(3, 125, 3), 125);
    // Intel's 1/1: ticks are already nanoseconds.
    assert_eq!(scale_mach_ticks(42, 1, 1), 42);
    // The intermediate product must not overflow.
    let ticks = u64::MAX / 125 * 3;
    assert_eq!(scale_mach_ticks(ticks, 125, 3), u64::MAX / 125 * 125);
    // An out-of-range result saturates instead of wrapping.
    assert_eq!(scale_mach_ticks(u64::MAX, 125, 3), u64::MAX);
    // A zero denom is read as 1 rather than dividing by zero.
    assert_eq!(scale_mach_ticks(42, 1, 0), 42);
}

#[test]
fn test_calc_freq_from_residencies() {
    let residencies = vec![
        ("IDLE".to_string(), 500),
        ("600".to_string(), 100),
        ("1200".to_string(), 200),
        ("2400".to_string(), 200),
    ];
    let (freq, residency) = IOReportMetrics::calc_freq_from_residencies(&residencies);
    // Active residency: 100 + 200 + 200 = 500 out of 1000 total = 50%
    assert!((val(residency) - 50.0).abs() < 0.1);
    // Weighted freq: (600*100 + 1200*200 + 2400*200) / 500 = 1560
    assert_eq!(freq, 1560);
}

#[test]
fn test_calculate_cluster_average() {
    let data = vec![(1000, num(50.0)), (2000, num(60.0)), (1500, num(40.0))];
    let result = IOReportMetrics::calculate_cluster_average(&data);
    assert!(result.is_some());
    let (avg_freq, avg_residency) = result.unwrap();
    assert_eq!(avg_freq, 1500);
    assert!((val(avg_residency) - 50.0).abs() < 0.1);
}

#[test]
fn test_calculate_cluster_average_empty() {
    let result = IOReportMetrics::calculate_cluster_average(&[]);
    assert!(result.is_none());
}

#[test]
fn test_calc_gpu_freq_with_table() {
    // OFF, IDLE, then active states.
    let residencies = vec![
        ("OFF".to_string(), 100),
        ("IDLE".to_string(), 400),
        ("state0".to_string(), 200),
        ("state1".to_string(), 200),
        ("state2".to_string(), 100),
    ];
    let freq_table = [396, 720, 1398];
    let (freq, residency) = IOReportMetrics::calc_freq_with_table(&residencies, &freq_table);
    // Active residency: 200 + 200 + 100 = 500 out of 1000 total = 50%
    assert!((val(residency) - 50.0).abs() < 0.1);
    // (79200 + 144000 + 139800) / 500 = 726
    assert_eq!(freq, 726);
}

#[test]
fn test_calc_gpu_freq_with_empty_table() {
    // No frequency, but the residency still counts.
    let residencies = vec![("OFF".to_string(), 100), ("state0".to_string(), 200)];
    let freq_table: [u32; 0] = [];
    let (freq, residency) = IOReportMetrics::calc_freq_with_table(&residencies, &freq_table);
    // Active residency: 200 out of 300 total = 66.67%
    assert!((val(residency) - 66.67).abs() < 0.1);
    assert_eq!(freq, 0);
}

#[test]
fn test_calc_freq_from_residencies_all_idle() {
    // Idle, and no state name to fall back on.
    let residencies = vec![("IDLE".to_string(), 500)];
    let (freq, residency) = IOReportMetrics::calc_freq_from_residencies(&residencies);
    assert_eq!(freq, 0);
    assert!((val(residency) - 0.0).abs() < 0.1);
}

#[test]
fn test_calc_freq_from_residencies_idle_with_known_states() {
    // All idle, but the states are listed: the lowest is the parked clock.
    let residencies = vec![
        ("IDLE".to_string(), 500),
        ("600".to_string(), 0),
        ("1200".to_string(), 0),
    ];
    let (freq, residency) = IOReportMetrics::calc_freq_from_residencies(&residencies);
    assert_eq!(freq, 600);
    assert!((val(residency) - 0.0).abs() < 0.1);
}

#[test]
fn test_calc_gpu_freq_with_table_idle() {
    // Present but idle: the lowest entry of the table.
    let residencies = vec![("OFF".to_string(), 200), ("IDLE".to_string(), 800)];
    let freq_table = [396, 720, 1398];
    let (freq, residency) = IOReportMetrics::calc_freq_with_table(&residencies, &freq_table);
    assert_eq!(freq, 396);
    assert!((val(residency) - 0.0).abs() < 0.1);
}

#[test]
fn test_calc_gpu_freq_with_table_empty_table_idle() {
    let residencies = vec![("OFF".to_string(), 200), ("IDLE".to_string(), 800)];
    let freq_table: [u32; 0] = [];
    let (freq, residency) = IOReportMetrics::calc_freq_with_table(&residencies, &freq_table);
    assert_eq!(freq, 0);
    assert!((val(residency) - 0.0).abs() < 0.1);
}

/// Apple M1 Ultra `voltage-states5-sram`: performance-cluster clocks, MHz.
const M1_ULTRA_P_TABLE: [u32; 15] = [
    600, 828, 1056, 1296, 1524, 1752, 1980, 2208, 2448, 2676, 2904, 3036, 3132, 3168, 3228,
];

/// Apple M1 Ultra `voltage-states1-sram`: efficiency-cluster clocks, MHz.
const M1_ULTRA_E_TABLE: [u32; 5] = [600, 972, 1332, 1704, 2064];

/// Apple M1 Ultra `voltage-states9-sram`: GPU clocks, MHz.
const M1_ULTRA_GPU_TABLE: [u32; 6] = [388, 486, 648, 777, 972, 1296];

/// Eight bytes per entry, little-endian hertz in the first four, voltage in the
/// last four.
fn encode_voltage_states(freqs_hz: &[u64]) -> Vec<u8> {
    let mut bytes = Vec::with_capacity(freqs_hz.len() * 8);
    for (i, hz) in freqs_hz.iter().enumerate() {
        bytes.extend_from_slice(&(*hz as u32).to_le_bytes());
        bytes.extend_from_slice(&(700 + i as u32).to_le_bytes());
    }
    bytes
}

fn residencies(pairs: &[(&str, i64)]) -> Vec<(String, i64)> {
    pairs.iter().map(|(n, r)| ((*n).to_string(), *r)).collect()
}

fn tables(entries: &[(&str, &[u32])]) -> Vec<(String, Vec<u32>)> {
    let mut out: Vec<(String, Vec<u32>)> =
        entries.iter().map(|(k, v)| ((*k).to_string(), v.to_vec())).collect();
    out.sort_by(|a, b| a.0.cmp(&b.0));
    out
}

/// The M1 Ultra table set, reduced to the keys that matter here.
fn m1_ultra_tables() -> Vec<(String, Vec<u32>)> {
    tables(&[
        ("voltage-states1-sram", &M1_ULTRA_E_TABLE),
        ("voltage-states5-sram", &M1_ULTRA_P_TABLE),
        ("voltage-states9-sram", &M1_ULTRA_GPU_TABLE),
        ("voltage-states9", &M1_ULTRA_GPU_TABLE),
        // Same length as the P table, different key: the documented key must
        // win over it.
        ("voltage-states13-sram", &M1_ULTRA_P_TABLE),
    ])
}

#[test]
fn test_parse_voltage_states_bytes_reads_frequency_table() {
    let hz: Vec<u64> = M1_ULTRA_P_TABLE.iter().map(|m| *m as u64 * 1_000_000).collect();
    let parsed = parse_voltage_states_bytes(&encode_voltage_states(&hz));
    assert_eq!(parsed, M1_ULTRA_P_TABLE.to_vec());
}

#[test]
fn test_parse_voltage_states_bytes_rejects_period_table() {
    // `voltage-states5` (no `-sram`) of an M1 Ultra holds clock periods.
    let periods: Vec<u64> = vec![
        109226, 79149, 62060, 50567, 43002, 37406, 33098, 29681, 26771, 24490, 22567, 21586,
        20924, 20686, 20302,
    ];
    let parsed = parse_voltage_states_bytes(&encode_voltage_states(&periods));
    assert!(parsed.is_empty(), "period table must not parse as frequencies, got {parsed:?}");
}

#[test]
fn test_parse_voltage_states_bytes_undoes_u32_wraparound() {
    // Clocks above 4.295 GHz overflow the 32-bit hertz field.
    let hz: Vec<u64> = vec![3_000_000_000, 4_100_000_000, 4_512_000_000, 4_608_000_000];
    let parsed = parse_voltage_states_bytes(&encode_voltage_states(&hz));
    assert_eq!(parsed, vec![3000, 4100, 4512, 4608]);
}

#[test]
fn test_parse_voltage_states_bytes_ignores_trailing_partial_entry() {
    let mut bytes = encode_voltage_states(&[600_000_000, 972_000_000]);
    bytes.extend_from_slice(&[0x11, 0x22]);
    assert_eq!(parse_voltage_states_bytes(&bytes), vec![600, 972]);
}

#[test]
fn test_strip_die_prefix() {
    assert_eq!(strip_die_prefix("DIE_0_ECPU_CPU0"), "ECPU_CPU0");
    assert_eq!(strip_die_prefix("DIE_1_PCPU1_CPU3"), "PCPU1_CPU3");
    assert_eq!(strip_die_prefix("DIE_12_PCPU_CPU0"), "PCPU_CPU0");
    // Nothing to strip, or a shape that is not a die prefix.
    assert_eq!(strip_die_prefix("ECPU0"), "ECPU0");
    assert_eq!(strip_die_prefix("DIE_ECPU"), "DIE_ECPU");
}

#[test]
fn test_classify_cpu_channel() {
    // Multi-die names as reported by an M1 Ultra.
    assert_eq!(classify_cpu_channel("DIE_0_ECPU_CPU0"), Some(CpuCluster::Efficiency));
    assert_eq!(classify_cpu_channel("DIE_1_ECPU_CPU1"), Some(CpuCluster::Efficiency));
    assert_eq!(classify_cpu_channel("DIE_0_PCPU_CPU0"), Some(CpuCluster::Performance));
    assert_eq!(classify_cpu_channel("DIE_1_PCPU1_CPU3"), Some(CpuCluster::Performance));

    // Single-die names.
    assert_eq!(classify_cpu_channel("ECPU"), Some(CpuCluster::Efficiency));
    assert_eq!(classify_cpu_channel("ECPU0"), Some(CpuCluster::Efficiency));
    assert_eq!(classify_cpu_channel("PCPU"), Some(CpuCluster::Performance));
    assert_eq!(classify_cpu_channel("PCPU1"), Some(CpuCluster::Performance));

    // M5 Pro/Max cluster naming, with and without a die prefix.
    assert_eq!(classify_cpu_channel("MCPU0"), Some(CpuCluster::Super));
    assert_eq!(classify_cpu_channel("MCPU05"), Some(CpuCluster::Super));
    assert_eq!(classify_cpu_channel("DIE_0_MCPU0"), Some(CpuCluster::Super));
    assert_eq!(classify_cpu_channel("MCPU1"), Some(CpuCluster::Performance));
    assert_eq!(classify_cpu_channel("DIE_1_MCPU15"), Some(CpuCluster::Performance));

    // Unknown channels are dropped rather than folded into a cluster.
    assert_eq!(classify_cpu_channel("GPUPH"), None);
    assert_eq!(classify_cpu_channel(""), None);
}

#[test]
fn test_select_cpu_frequency_table_prefers_documented_key() {
    let tables = m1_ultra_tables();

    let e = select_cpu_frequency_table(&tables, CpuCluster::Efficiency, 5).unwrap();
    assert_eq!(*e, M1_ULTRA_E_TABLE);

    // voltage-states13-sram has the same length as the P table, so the
    // documented key has to be consulted first for the choice to be stable.
    let p = select_cpu_frequency_table(&tables, CpuCluster::Performance, 15).unwrap();
    assert_eq!(*p, M1_ULTRA_P_TABLE);
}

#[test]
fn test_select_cpu_frequency_table_falls_back_on_length_mismatch() {
    // An efficiency table under an undocumented key: the active-state count is
    // the only usable discriminator.
    let tables = tables(&[
        ("voltage-states2-sram", &M1_ULTRA_E_TABLE),
        ("voltage-states5-sram", &M1_ULTRA_P_TABLE),
    ]);

    let e = select_cpu_frequency_table(&tables, CpuCluster::Efficiency, 5).unwrap();
    assert_eq!(*e, M1_ULTRA_E_TABLE);
}

#[test]
fn test_select_cpu_frequency_table_super_cluster_uses_length_match() {
    // No documented key exists for the Super cluster.
    let super_table: [u32; 4] = [800, 1600, 2800, 4000];
    let tables = tables(&[
        ("voltage-states1-sram", &M1_ULTRA_E_TABLE),
        ("voltage-states7-sram", &super_table),
    ]);

    let s = select_cpu_frequency_table(&tables, CpuCluster::Super, 4).unwrap();
    assert_eq!(*s, super_table);

    // Nothing of that length: report no table rather than a wrong one.
    assert!(select_cpu_frequency_table(&tables, CpuCluster::Super, 9).is_none());
}

#[test]
fn test_select_cpu_frequency_table_last_resort_uses_documented_key() {
    // Length disagrees with every table.
    let tables = tables(&[("voltage-states5-sram", &M1_ULTRA_P_TABLE)]);
    let p = select_cpu_frequency_table(&tables, CpuCluster::Performance, 99).unwrap();
    assert_eq!(*p, M1_ULTRA_P_TABLE);

    assert!(select_cpu_frequency_table(&[], CpuCluster::Performance, 15).is_none());
}

#[test]
fn test_select_gpu_frequency_table() {
    assert_eq!(select_gpu_frequency_table(&m1_ultra_tables()), M1_ULTRA_GPU_TABLE.to_vec());

    // No documented key: the table with the lowest maximum.
    let odd = tables(&[
        ("voltage-states1-sram", &M1_ULTRA_E_TABLE),
        ("voltage-states5-sram", &M1_ULTRA_P_TABLE),
        ("voltage-states22-sram", &M1_ULTRA_GPU_TABLE),
    ]);
    assert_eq!(select_gpu_frequency_table(&odd), M1_ULTRA_GPU_TABLE.to_vec());

    assert!(select_gpu_frequency_table(&[]).is_empty());
}

fn p_cluster_sample() -> Vec<(String, i64)> {
    residencies(&[
        ("IDLE", 2076468),
        ("V0P14", 0),
        ("V1P13", 0),
        ("V2P12", 1874),
        ("V3P11", 0),
        ("V4P10", 0),
        ("V5P9", 953),
        ("V6P8", 0),
        ("V7P7", 0),
        ("V8P6", 0),
        ("V9P5", 0),
        ("V10P4", 0),
        ("V11P3", 0),
        ("V12P2", 0),
        ("V13P1", 0),
        ("V14P0", 5363773),
    ])
}

#[test]
fn test_cpu_performance_states_are_not_numeric() {
    // CPU states are named `V<volt>P<perf>`, so no clock stands in the name.
    let res = p_cluster_sample();
    let (freq, residency) = IOReportMetrics::calc_freq_from_residencies(&res);
    assert_eq!(freq, 0, "state names carry no megahertz value");
    assert!((val(residency) - 72.10).abs() < 0.01);
}

#[test]
fn test_p_cluster_frequency_from_real_m1_ultra_sample() {
    let res = p_cluster_sample();
    let (freq, residency) = IOReportMetrics::calc_freq_with_table(&res, &M1_ULTRA_P_TABLE);

    // Residency-weighted over the three occupied states:
    // (1056*1874 + 1752*953 + 3228*5363773) / 5366600
    assert_eq!(freq, 3226);
    assert!((val(residency) - 72.10).abs() < 0.01);
    assert!(freq <= *M1_ULTRA_P_TABLE.last().unwrap());
}

#[test]
fn test_e_cluster_frequency_from_real_m1_ultra_sample() {
    let res = residencies(&[
        ("IDLE", 1999280),
        ("V0P4", 0),
        ("V1P3", 511855),
        ("V2P2", 576745),
        ("V3P1", 568251),
        ("V4P0", 3786908),
    ]);
    let (freq, residency) = IOReportMetrics::calc_freq_with_table(&res, &M1_ULTRA_E_TABLE);
    assert_eq!(freq, 1846);
    assert!((val(residency) - 73.14).abs() < 0.01);
    assert!(freq >= M1_ULTRA_E_TABLE[0] && freq <= *M1_ULTRA_E_TABLE.last().unwrap());
}

#[test]
fn test_idle_cpu_cluster_reports_parked_clock_not_zero() {
    let mut pairs = vec![("IDLE", 7478905)];
    for name in [
        "V0P14", "V1P13", "V2P12", "V3P11", "V4P10", "V5P9", "V6P8", "V7P7", "V8P6", "V9P5",
        "V10P4", "V11P3", "V12P2", "V13P1", "V14P0",
    ] {
        pairs.push((name, 0));
    }
    let (freq, residency) =
        IOReportMetrics::calc_freq_with_table(&residencies(&pairs), &M1_ULTRA_P_TABLE);
    assert_eq!(freq, 600);
    assert!((val(residency) - 0.0).abs() < 0.01);
}

#[test]
fn test_is_idle_state() {
    assert!(is_idle_state("IDLE"));
    assert!(is_idle_state("OFF"));
    assert!(is_idle_state("DOWN"));
    assert!(!is_idle_state("V0P14"));
    assert!(!is_idle_state("P1"));
}

#[test]
fn only_voltage_states_are_clock_tables() {
    let properties = vec![
        ("voltage-states9".to_string(), encode_voltage_states(&[388_000_000, 486_000_000])),
        ("voltage-states5".to_string(), encode_voltage_states(&[109_226, 79_149])),
        ("other".to_string(), encode_voltage_states(&[600_000_000, 972_000_000])),
        ("voltage-states1-sram".to_string(), encode_voltage_states(&[600_000_000, 972_000_000])),
    ];
    assert_eq!(
        extract_voltage_state_tables(&properties),
        vec![
            ("voltage-states1-sram".to_string(), vec![600, 972]),
            ("voltage-states9".to_string(), vec![388, 486]),
        ]
    );
    assert!(is_clock_node("pmgr"));
    assert!(!is_clock_node("cpus"));
}

#[test]
fn a_timebase_that_cannot_be_had_reads_as_one_to_one() {
    assert_eq!(usable_timebase(0, 125, 3), (125, 3));
    assert_eq!(usable_timebase(0, 125, 0), (1, 1));
    assert_eq!(usable_timebase(5, 125, 3), (1, 1));
}

#[test]
fn a_sample_too_soon_after_the_last_is_dropped() {
    assert_eq!(delta_step(None, 5), DeltaStep::First);
    assert_eq!(delta_step(Some(0), 49_999_999), DeltaStep::TooSoon);
    assert_eq!(delta_step(Some(0), 50_000_000), DeltaStep::Delta);
}

#[test]
fn energy_channels_are_observed_with_their_publication_time() {
    let mut element = vec![0u8; 64];
    element[24..32].copy_from_slice(&24_000_000u64.to_le_bytes());
    let channel = |group: &str, name: Option<&str>, raw: Option<Vec<u8>>| RawChannel {
        group: group.to_string(),
        channel: name.map(|n| n.to_string()),
        unit: "mJ".to_string(),
        value: 7,
        raw_element: raw,
    };
    let seen = energy_observations(
        &[
            channel("Energy Model", Some("CPU Energy"), Some(element)),
            channel("GPU Stats", Some("GPU Energy"), None),
            channel("Energy Model", Some("GPU Energy"), None),
        ],
        125,
        3,
    );
    assert_eq!(seen.len(), 2);
    assert_eq!(seen[0].channel, "CPU Energy");
    assert_eq!(seen[0].timestamp_ns, Some(1_000_000_000));
    assert_eq!(seen[0].value, 7);
    assert_eq!(seen[1].channel, "GPU Energy");
    assert_eq!(seen[1].timestamp_ns, None);
}

#[test]
fn missing_energy_channels_are_reported() {
    assert_eq!(enumeration_error(GroupOutcome::Found), None);
    assert!(enumeration_error(GroupOutcome::Missing).is_some());
    assert!(enumeration_error(GroupOutcome::Panicked).is_some());
}

#[test]
fn a_sample_fills_every_cluster() {
    let item = |group: &str, subgroup: &str, channel: &str, states: &[(&str, i64)]| ChannelItem {
        group: group.to_string(),
        subgroup: subgroup.to_string(),
        channel: channel.to_string(),
        residencies: residencies(states),
    };
    let perf = "CPU Core Performance States";
    let items = vec![
        item(
            "CPU Stats",
            perf,
            "ECPU0",
            &[("IDLE", 50), ("V0P4", 0), ("V1P3", 0), ("V2P2", 0), ("V3P1", 0), ("V4P0", 50)],
        ),
        item("CPU Stats", perf, "CPU Complex", &[("IDLE", 1), ("V0", 1)]),
        item(
            "GPU Stats",
            "GPU Performance States",
            "GPUPH",
            &[("OFF", 50), ("P1", 50), ("P2", 0), ("P3", 0), ("P4", 0), ("P5", 0), ("P6", 0)],
        ),
    ];
    let power = EnergyReadings {
        cpu: num(1.0),
        gpu: num(2.0),
        ane: num(0.5),
        dram: num(0.25),
    };
    let m = IOReportMetrics::from_sample(&items, &m1_ultra_tables(), power);
    assert_eq!(val(m.cpu_power), 1.0);
    assert_eq!(val(m.package_power), 3.5);
    assert_eq!(m.e_cluster_freq, 2064);
    assert_eq!(val(m.e_cluster_residency), 50.0);
    assert_eq!(m.p_cluster_freq, 0);
    assert_eq!(m.gpu_freq, 388);
    assert_eq!(val(m.gpu_residency), 50.0);
}

#[test]
fn only_what_is_weighed_has_to_fit() {
    let item = |channel: &str, states: &[(&str, i64)]| ChannelItem {
        group: "CPU Stats".to_string(),
        subgroup: "CPU Core Performance States".to_string(),
        channel: channel.to_string(),
        residencies: residencies(states),
    };
    // Two residencies whose sum does not fit.
    let large = [("IDLE", i64::MAX), ("V1P0", 1)];
    assert!(!can_weigh(&[item("PCPU0", &large)], &[]));
    // The same on a channel that belongs to no cluster.
    assert!(can_weigh(&[item("OTHER", &large)], &[]));
    // A named clock that cannot be weighted.
    assert!(!can_weigh(&[item("PCPU0", &[("2000", i64::MAX / 2)])], &[]));
    assert!(can_weigh(&[item("PCPU0", &[("2000", 5)])], &[]));
}
