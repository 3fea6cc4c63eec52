use all_smi::api::handlers::metrics_render::metrics_body;
use all_smi::api::metrics::probes::ProbeMetricExporter;
use all_smi::api::metrics::MetricBuilder;
use all_smi::probes::lock::{LockHolder, LockSample};
use all_smi::probes::net::NetInterfaceSample;
use all_smi::probes::HostProbes;
use all_smi::reading::Reading;

fn num(x: f64) -> Reading {
    Reading { bits: x.to_bits() }
}

fn sample_probes() -> HostProbes {
    HostProbes {
        host_id: "mac".to_string(),
        hostname: "mac".to_string(),
        instance: "mac".to_string(),
        interfaces: vec![NetInterfaceSample {
            interface: "en0".to_string(),
            rx_bytes: 1_000,
            tx_bytes: 2_000,
            rx_bytes_per_sec: Some(num(125.0)),
            tx_bytes_per_sec: None,
        }],
        locks: vec![
            LockSample {
                path: "/locks/gpu.lock".to_string(),
                holders: vec![LockHolder { pid: 42, command: "omlx-server".to_string() }],
                since_unix: Some(1_700_000_000),
            },
            LockSample {
                path: "/locks/free.lock".to_string(),
                holders: Vec::new(),
                since_unix: None,
            },
        ],
        json: Vec::new(),
        os: None,
    }
}

#[test]
fn empty_probe_set_exports_nothing() {
    assert!(ProbeMetricExporter::new(&[]).export_metrics().is_empty());
    let empty = HostProbes::default();
    assert!(ProbeMetricExporter::new(std::slice::from_ref(&empty)).export_metrics().is_empty());
}

#[test]
fn exports_counters_rates_and_lock_state() {
    let out = ProbeMetricExporter::new(&[sample_probes()]).export_metrics();
    assert!(out.contains(
        "all_smi_network_receive_bytes_total{instance=\"mac\", hostname=\"mac\", interface=\"en0\"} 1000\n"
    ));
    assert!(out.contains(
        "all_smi_network_receive_bytes_per_second{instance=\"mac\", hostname=\"mac\", interface=\"en0\"} 125.0\n"
    ));
    // No transmit rate on a first sample.
    assert!(!out.contains("all_smi_network_transmit_bytes_per_second{"));
    assert!(out.contains(
        "all_smi_lock_held{instance=\"mac\", hostname=\"mac\", path=\"/locks/gpu.lock\"} 1\n"
    ));
    assert!(out.contains(
        "all_smi_lock_held{instance=\"mac\", hostname=\"mac\", path=\"/locks/free.lock\"} 0\n"
    ));
    assert!(out.contains("pid=\"42\", command=\"omlx-server\"} 1\n"));
    assert!(out.contains(
        "all_smi_lock_held_since_seconds{instance=\"mac\", hostname=\"mac\", path=\"/locks/gpu.lock\"} 1700000000\n"
    ));
}

#[test]
fn a_metric_is_written_with_its_help_and_type() {
    let mut builder = MetricBuilder::new();
    builder.help("all_smi_x", "An x.");
    builder.type_("all_smi_x", "gauge");
    builder.metric(
        "all_smi_x",
        vec![("a".to_string(), "1".to_string()), ("b".to_string(), "two".to_string())],
        "3.5".to_string(),
    );
    assert_eq!(
        builder.build(),
        "# HELP all_smi_x An x.\n# TYPE all_smi_x gauge\nall_smi_x{a=\"1\", b=\"two\"} 3.5\n"
    );
}

#[test]
fn probes_follow_what_was_rendered() {
    let rendered = "all_smi_up 1\n".to_string();
    assert_eq!(metrics_body(rendered.clone(), &Vec::new()), rendered);
    assert_eq!(metrics_body(rendered.clone(), &vec![HostProbes::default()]), rendered);
    let probes = vec![sample_probes()];
    let body = metrics_body(rendered.clone(), &probes);
    assert!(body.starts_with("all_smi_up 1\n# HELP all_smi_network_receive_bytes_total"));
    assert_eq!(
        body,
        format!("{}{}", rendered, ProbeMetricExporter::new(&probes).export_metrics())
    );
}
