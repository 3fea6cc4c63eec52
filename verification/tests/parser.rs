use all_smi::api::metrics::probes::ProbeMetricExporter;
use all_smi::network::probe_parser::{is_probe_metric, ProbeParseState};
use all_smi::numeral::parse_reading;
use all_smi::probes::lock::{LockHolder, LockSample};
use all_smi::probes::net::NetInterfaceSample;
use all_smi::probes::HostProbes;
use all_smi::reading::Reading;

fn num(x: f64) -> Reading {
    Reading { bits: x.to_bits() }
}

/// Feeds the lines of a scrape to the parser: `all_smi_name{k="v", ..} value`.
fn scrape(text: &str, host: &str) -> Option<HostProbes> {
    let mut state = ProbeParseState::default();
    for line in text.lines() {
        if line.starts_with('#') {
            continue;
        }
        let rest = line.strip_prefix("all_smi_").unwrap();
        let open = rest.find('{').unwrap();
        let close = rest.rfind('}').unwrap();
        let labels: Vec<(String, String)> = rest[open + 1..close]
            .split(", ")
            .map(|pair| {
                let (k, v) = pair.split_once('=').unwrap();
                (k.to_string(), v.trim_matches('"').to_string())
            })
            .collect();
        let name = &rest[..open];
        if is_probe_metric(name) {
            let value = parse_reading(rest[close + 1..].trim()).unwrap();
            state.process(name, &labels, value);
        }
    }
    state.finish(host)
}

fn exported() -> HostProbes {
    HostProbes {
        host_id: "ignored".to_string(),
        hostname: "mac".to_string(),
        instance: "mac".to_string(),
        interfaces: vec![NetInterfaceSample {
            interface: "en0".to_string(),
            rx_bytes: 275_619_451_663,
            tx_bytes: 551_826_449_812,
            rx_bytes_per_sec: Some(num(1_250_000.5)),
            tx_bytes_per_sec: Some(num(0.0)),
        }],
        locks: vec![LockSample {
            path: "/Users/ian/llm/locks/gpu.lock".to_string(),
            holders: vec![LockHolder { pid: 49097, command: "omlx-server".to_string() }],
            since_unix: Some(1_790_370_904),
        }],
        json: Vec::new(),
        os: None,
    }
}

#[test]
fn probe_series_round_trip_through_the_exporter() {
    let text = ProbeMetricExporter::new(&[exported()]).export_metrics();
    let probes = scrape(&text, "10.10.10.2:9090").expect("probe series present");
    assert_eq!(probes.host_id, "10.10.10.2:9090");
    assert_eq!(probes.hostname, "mac");
    assert_eq!(probes.interfaces, exported().interfaces);
    assert_eq!(probes.locks, exported().locks);
}

#[test]
fn rates_and_lists_come_back_as_they_were() {
    let link = |name: &str, rate: f64| NetInterfaceSample {
        interface: name.to_string(),
        rx_bytes: 9_007_199_254_740_991,
        tx_bytes: 1,
        rx_bytes_per_sec: Some(num(rate)),
        tx_bytes_per_sec: None,
    };
    let lock = |path: &str| LockSample { path: path.to_string(), holders: Vec::new(), since_unix: None };
    let probes = HostProbes {
        interfaces: vec![link("a", 0.1), link("b", 1_234_567_890_123.7), link("c", 1e15)],
        locks: vec![lock("/a"), lock("/b")],
        ..exported()
    };
    let text = ProbeMetricExporter::new(&[probes.clone()]).export_metrics();
    let back = scrape(&text, "h:1").unwrap();
    assert_eq!(back, HostProbes { host_id: "h:1".to_string(), ..probes });
    let none = HostProbes { interfaces: Vec::new(), locks: Vec::new(), ..exported() };
    assert!(scrape(&ProbeMetricExporter::new(&[none]).export_metrics(), "h:1").is_none());
}

#[test]
fn free_lock_parses_without_holders() {
    let text = "all_smi_lock_held{instance=\"mac\", hostname=\"mac\", path=\"/l\"} 0\n";
    let probes = scrape(text, "h:9090").unwrap();
    assert_eq!(probes.locks.len(), 1);
    assert!(!probes.locks[0].is_held());
    assert_eq!(probes.locks[0].since_unix, None);
}

#[test]
fn scrape_without_probe_series_has_none() {
    let text = "all_smi_gpu_utilization{gpu=\"g\", instance=\"i\", gpu_uuid=\"u\", gpu_index=\"0\"} 5\n";
    assert!(scrape(text, "h:9090").is_none());
}

#[test]
fn interface_count_is_capped() {
    let mut text = String::new();
    for i in 0..200 {
        text.push_str(&format!(
            "all_smi_network_receive_bytes_total{{instance=\"i\", hostname=\"h\", interface=\"if{i}\"}} 1\n"
        ));
    }
    assert_eq!(scrape(&text, "h:9090").unwrap().interfaces.len(), 64);
}

#[test]
fn locks_and_holders_are_capped() {
    let mut text = String::new();
    for i in 0..100 {
        text.push_str(&format!(
            "all_smi_lock_held{{instance=\"i\", hostname=\"h\", path=\"/l{i}\"}} 1\n"
        ));
        text.push_str(&format!(
            "all_smi_lock_holder_info{{instance=\"i\", hostname=\"h\", path=\"/l0\", pid=\"{}\", command=\"c\"}} 1\n",
            200 - i
        ));
    }
    let probes = scrape(&text, "h:9090").unwrap();
    assert_eq!(probes.locks.len(), 64);
    let first = probes.locks.iter().find(|l| l.path == "/l0").unwrap();
    assert_eq!(first.holders.len(), 16);
    // They stand by pid, however they came.
    assert_eq!(first.holders[0].pid, 185);
    assert_eq!(first.holders[15].pid, 200);
}

#[test]
fn values_that_no_probe_can_have_are_dropped() {
    let label = |k: &str, v: &str| (k.to_string(), v.to_string());
    let labels = vec![label("instance", "i"), label("hostname", "h"), label("interface", "en0")];
    let mut state = ProbeParseState::default();
    for value in [f64::NAN, f64::INFINITY, -1.0] {
        state.process("network_receive_bytes_total", &labels, num(value));
    }
    assert_eq!(state.interfaces.len(), 0);
    state.process("network_receive_bytes_total", &labels, num(12.9));
    let probes = state.finish("x").unwrap();
    assert_eq!(probes.interfaces[0].rx_bytes, 12);
    assert_eq!(probes.hostname, "h");
}

#[test]
fn a_host_without_names_goes_by_its_address() {
    let text = "all_smi_network_transmit_bytes_per_second{interface=\"en0\"} 2.5\n";
    let probes = scrape(text, "10.0.0.1:9090").unwrap();
    assert_eq!(probes.hostname, "10.0.0.1:9090");
    assert_eq!(probes.instance, "10.0.0.1:9090");
    assert_eq!(probes.interfaces[0].tx_bytes_per_sec, Some(num(2.5)));
}

#[test]
fn probe_metrics_are_told_by_their_prefix() {
    assert!(is_probe_metric("network_receive_bytes_total"));
    assert!(is_probe_metric("lock_held"));
    assert!(!is_probe_metric("gpu_utilization"));
}
