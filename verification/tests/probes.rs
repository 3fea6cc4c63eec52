use all_smi::common::span::Span;
use all_smi::common::url_parts::UrlParts;
use all_smi::probes::json::{
    build_request, fetched, flatten, http_request, parse_response, JsonDocument, JsonMember,
    JsonProbeSpec, JsonProber, JsonScalar,
};
use all_smi::probes::lock::{
    lsof_answer, parse_etime, parse_lsof_fields, parse_ps, pid_list, read_lsof, read_ps,
    resolve_process_info,
    sanitize, LockHolder, LockObservation, LockWatcher,
};
use all_smi::probes::net::{rate, NetSampler};
use all_smi::probes::{HostProbes, ProbeReadings, ProbeSampler};
use all_smi::reading::Reading;
use all_smi::table::Table;

fn num(x: f64) -> Reading {
    Reading { bits: x.to_bits() }
}

fn val(r: Reading) -> f64 {
    f64::from_bits(r.bits)
}

fn holder(pid: u32, command: &str) -> LockHolder {
    LockHolder { pid, command: command.to_string() }
}

#[test]
fn parses_lsof_field_output() {
    let out = "p35491\ncpython3.12\nf3\nn/Users/ian/llm/locks/gpu.lock\np12\ncother\nf4\n";
    let holders = parse_lsof_fields(out);
    assert_eq!(
        holders,
        vec![
            LockHolder { pid: 12, command: "other".to_string() },
            LockHolder { pid: 35491, command: "python3.12".to_string() },
        ]
    );
}

#[test]
fn empty_lsof_output_means_free() {
    assert!(parse_lsof_fields("").is_empty());
}

#[test]
fn parses_ps_basename_rename_and_age() {
    let info = parse_ps(
        "35489 01:02:03 /Users/ian/llm/.venv/bin/python\n35491    21:47 omlx-server      \n  7 2-00:00:05 /Apps/My App/x\n",
    );
    assert_eq!(info[&35489], ("python".to_string(), Some(3723)));
    assert_eq!(info[&35491], ("omlx-server".to_string(), Some(1307)));
    assert_eq!(info[&7], ("x".to_string(), Some(172_805)));
}

#[test]
fn etime_formats() {
    assert_eq!(parse_etime("05"), Some(5));
    assert_eq!(parse_etime("1-00:00:00"), Some(86_400));
    assert_eq!(parse_etime("bogus"), None);
}

#[test]
fn sanitize_strips_escape_sequences() {
    assert_eq!(sanitize("evil\x1b[2Jname"), "evil[2Jname");
}

#[test]
fn lsof_that_fails_without_output_means_free() {
    assert_eq!(lsof_answer("p7\ncx\n", true), Some(vec![holder(7, "x")]));
    assert_eq!(lsof_answer("p7\ncx\n", false), None);
    assert_eq!(lsof_answer("", true), Some(Vec::new()));
    assert_eq!(lsof_answer(" \n", false), Some(Vec::new()));
    assert_eq!(read_lsof(b"p7\nc\xffx\n", true), Some(vec![holder(7, "\u{fffd}x")]));
    assert_eq!(read_lsof(b"p7\n", false), None);
}

#[test]
fn processes_get_their_own_names_and_the_oldest_age() {
    let holders = vec![holder(7, "ruby"), holder(9, "sh")];
    let info = parse_ps("7 10 /bin/server\n9 01:00 sh\n");
    let (named, oldest) = resolve_process_info(&holders, &info);
    assert_eq!(named, vec![holder(7, "server"), holder(9, "sh")]);
    assert_eq!(oldest, Some(60));
    assert_eq!(read_ps(&holders, b"7 10 /bin/server\n9 01:00 sh\n"), (named, oldest));
    assert_eq!(pid_list(&holders), "7,9");
}

#[test]
fn a_lock_is_dated_from_when_its_holders_were_first_seen() {
    let mut watcher = LockWatcher::new(vec!["/l".to_string()]);
    let seen = |pid: u32, age: Option<u64>| {
        vec![Some(LockObservation { holders: vec![holder(pid, "c")], oldest_elapsed: age })]
    };
    // Held before the watcher started: dated from the holder's age.
    let first = watcher.sample(&seen(5, Some(100)), 1_000);
    assert_eq!(first[0].since_unix, Some(900));
    // The same holder keeps its time.
    let again = watcher.sample(&seen(5, Some(200)), 1_100);
    assert_eq!(again[0].since_unix, Some(900));
    // Another one is dated from now.
    let other = watcher.sample(&seen(6, Some(500)), 1_200);
    assert_eq!(other[0].since_unix, Some(1_200));
    // A free lock has no time.
    let free = watcher.sample(
        &[Some(LockObservation { holders: Vec::new(), oldest_elapsed: None })],
        1_300,
    );
    assert!(!free[0].is_held());
    assert_eq!(free[0].since_unix, None);
    // A lock that could not be asked about is left out.
    assert!(watcher.sample(&[None], 1_400).is_empty());
}

#[test]
fn sampler_is_absent_when_nothing_requested() {
    assert!(ProbeSampler::new(Vec::new(), Vec::new(), Vec::new()).is_none());
    assert!(ProbeSampler::new(vec!["lo".to_string()], Vec::new(), Vec::new()).is_some());
}

#[test]
fn sample_reports_requested_interface_even_when_missing() {
    let mut sampler =
        ProbeSampler::new(vec!["definitely-not-an-iface0".to_string()], Vec::new(), Vec::new())
            .unwrap();
    let read = ProbeReadings {
        counters: vec![None],
        counted_at: 0,
        locks: Vec::new(),
        unix_now: 0,
        answers: Vec::new(),
    };
    let probes = sampler.sample("host-a", &read);
    assert_eq!(probes.hostname, "host-a");
    // A missing interface is skipped rather than reported as zero.
    assert!(probes.interfaces.is_empty());
    assert!(probes.locks.is_empty());
}

#[test]
fn rate_divides_delta_by_elapsed_time() {
    let r = rate(1_000, 4_000, Span { secs: 1, nanos: 500_000_000 }).unwrap();
    assert!((val(r) - 2_000.0).abs() < 1e-9);
}

#[test]
fn rate_is_absent_on_reset_or_zero_interval() {
    assert_eq!(rate(5_000, 10, Span { secs: 1, nanos: 0 }), None);
    assert_eq!(rate(1, 2, Span { secs: 0, nanos: 0 }), None);
}

#[test]
fn a_link_has_a_rate_on_the_second_pass() {
    let mut sampler = NetSampler::new(vec!["lo".to_string()]);
    let first = sampler.sample(&[Some((100, 200))], 1_000_000_000);
    assert_eq!(first[0].interface, "lo");
    assert!(first[0].rx_bytes_per_sec.is_none());
    let second = sampler.sample(&[Some((150, 200))], 3_000_000_000);
    assert_eq!(second[0].rx_bytes_per_sec, Some(num(25.0)));
    assert_eq!(second[0].tx_bytes_per_sec, Some(num(0.0)));
    assert!(second[0].rx_bytes >= first[0].rx_bytes);
    // Gone for one pass: the rate starts over.
    assert!(sampler.sample(&[None], 4_000_000_000).is_empty());
    let back = sampler.sample(&[Some((900, 900))], 5_000_000_000);
    assert!(back[0].rx_bytes_per_sec.is_none());
}

#[test]
fn spec_parsing() {
    let spec: JsonProbeSpec = "og=http://127.0.0.1:10001/og/stats".parse().unwrap();
    assert_eq!(spec.name, "og");
    assert_eq!(spec.url, "http://127.0.0.1:10001/og/stats");
    assert!("og".parse::<JsonProbeSpec>().is_err());
    assert!("bad name=http://h/x".parse::<JsonProbeSpec>().is_err());
    assert!("x=https://h/x".parse::<JsonProbeSpec>().is_err());
    // What was typed is named in the message.
    assert_eq!(
        JsonProbeSpec::parse("o\"g"),
        Err("expected NAME=URL, got \"o\\\"g\"".to_string())
    );
    assert_eq!(
        JsonProbeSpec::parse("bad name=http://h/x"),
        Err("probe name \"bad name\" must be 1-32 characters of [A-Za-z0-9_-]".to_string())
    );
}

#[test]
fn flatten_keeps_numbers_bools_and_one_nested_level() {
    let body = br#"{"steps": 102, "box_s": 0.77, "ok": true, "name": "x", "list": [1],
                "cache": {"hits": 3, "deep": {"x": 1}}, "bad key": 1}"#;
    let flat = fetched(200, body).unwrap().values;
    assert_eq!(flat.get("steps"), Some(&num(102.0)));
    assert_eq!(flat.get("box_s"), Some(&num(0.77)));
    assert_eq!(flat.get("ok"), Some(&num(1.0)));
    assert_eq!(flat.get("cache.hits"), Some(&num(3.0)));
    assert!(!flat.contains_key("name"));
    assert!(!flat.contains_key("list"));
    assert!(!flat.contains_key("cache.deep"));
    assert!(!flat.contains_key("bad key"));
    assert!(flatten(&JsonDocument { members: None }).is_empty());
}

#[test]
fn a_document_is_flattened_one_level_deep() {
    let document = JsonDocument {
        members: Some(vec![
            ("a".to_string(), JsonMember::Scalar(JsonScalar::Number(Some(num(1.5))))),
            ("b".to_string(), JsonMember::Scalar(JsonScalar::Bool(false))),
            ("c".to_string(), JsonMember::Scalar(JsonScalar::Other)),
            (
                "d".to_string(),
                JsonMember::Object(vec![("e".to_string(), JsonScalar::Bool(true))]),
            ),
        ]),
    };
    let flat = flatten(&document);
    assert_eq!(flat.len(), 3);
    assert_eq!(flat.get("a"), Some(&num(1.5)));
    assert_eq!(flat.get("b"), Some(&num(0.0)));
    assert_eq!(flat.get("d.e"), Some(&num(1.0)));
}

#[test]
fn an_answer_is_up_where_it_succeeds_with_an_object() {
    assert!(fetched(200, b"{}").unwrap().up);
    assert!(fetched(204, b"{}").unwrap().up);
    assert!(!fetched(500, br#"{"a": 1}"#).unwrap().up);
    assert!(fetched(200, b"not json").is_none());
    for body in ["[1, 2]", "7", "null", "\"up\""] {
        let answer = fetched(200, body.as_bytes()).unwrap();
        assert!(!answer.up, "{body}");
        assert!(answer.values.is_empty(), "{body}");
    }
}

#[test]
fn samples_an_endpoint_and_reports_rates() {
    let spec = JsonProbeSpec::parse("og=http://127.0.0.1:1/og/stats").unwrap();
    let mut prober = JsonProber::new(vec![spec]);
    let answer = |steps: u32, at: u64| {
        let body = format!(r#"{{"steps": {steps}, "inflight": 1}}"#);
        vec![Some((fetched(200, body.as_bytes()).unwrap(), at))]
    };
    let first = prober.sample(&answer(10, 1_000_000_000));
    assert!(first[0].up);
    assert_eq!(first[0].value("steps"), Some(num(10.0)));
    assert!(first[0].rates.is_empty());
    let second = prober.sample(&answer(40, 3_000_000_000));
    assert_eq!(second[0].rate("steps"), Some(num(15.0)));
    assert_eq!(second[0].rate("inflight"), Some(num(0.0)));
    // Nothing listening any more: reported down, no values.
    let third = prober.sample(&[None]);
    assert!(!third[0].up);
    assert!(third[0].values.is_empty());
    // An answer that is no object: reported down too.
    let listed = prober.sample(&[Some((fetched(200, b"[1, 2]").unwrap(), 4_000_000_000))]);
    assert_eq!(listed[0].name, "og");
    assert!(!listed[0].up);
    assert!(listed[0].values.is_empty() && listed[0].rates.is_empty());
    // A count that fell: the endpoint restarted, and has no rate.
    let fourth = prober.sample(&answer(90, 5_000_000_000));
    assert!(fourth[0].rates.is_empty());
    let fifth = prober.sample(&answer(5, 6_000_000_000));
    assert_eq!(fifth[0].rate("steps"), None);
    assert_eq!(fifth[0].rate("inflight"), Some(num(0.0)));
}

#[test]
fn sampled_fields_stand_in_the_order_of_their_names() {
    let spec = JsonProbeSpec::parse("og=http://127.0.0.1:1/og/stats").unwrap();
    let mut prober = JsonProber::new(vec![spec]);
    let names = |t: &Table<Reading>| -> Vec<String> {
        t.entries.iter().map(|(k, _)| k.clone()).collect()
    };
    for at in [1_000_000_000, 2_000_000_000] {
        let body = br#"{"steps": 10, "inflight": 1, "queue": {"b": 2, "a": 3}}"#;
        let samples = prober.sample(&[Some((fetched(200, body).unwrap(), at))]);
        assert_eq!(names(&samples[0].values), ["inflight", "queue.a", "queue.b", "steps"]);
        if at > 1_000_000_000 {
            assert_eq!(names(&samples[0].rates), ["inflight", "queue.a", "queue.b", "steps"]);
        }
    }
}

#[test]
fn a_request_is_written_for_its_endpoint() {
    let request = http_request("http://127.0.0.1:10001/og/stats?x=1").unwrap();
    assert_eq!(request.host, "127.0.0.1");
    assert_eq!(request.port, 10001);
    assert!(request.text.starts_with("GET /og/stats?x=1 HTTP/1.0\r\n"), "{}", request.text);
    assert!(request.text.ends_with("\r\n\r\n"));
    let plain = http_request("http://node/").unwrap();
    assert_eq!(plain.port, 80);
    assert!(http_request("::").is_err());
    assert!(build_request(Err("bad".to_string())).is_err());
    let parts = UrlParts {
        scheme: "http".to_string(),
        host: None,
        port: None,
        known_port: Some(80),
        path: "/".to_string(),
        query: None,
        text: "http:///".to_string(),
    };
    assert!(build_request(Ok(parts)).is_err());
}

#[test]
fn a_response_is_split_into_status_and_body() {
    let raw = b"HTTP/1.1 200 OK\r\nContent-Length: 2\r\n\r\n{}";
    assert_eq!(parse_response(raw), Ok((200, b"{}".to_vec())));
    assert!(parse_response(b"HTTP/1.1 200 OK\r\n").is_err());
    assert!(parse_response(b"nonsense\r\n\r\nx").is_err());
}

#[test]
fn probes_know_whether_they_hold_anything() {
    let mut probes = HostProbes::default();
    assert!(probes.is_empty());
    assert!(probes.json_probe("og").is_none());
    let spec = JsonProbeSpec { name: "og".to_string(), url: "http://h/".to_string() };
    probes.json = JsonProber::new(vec![spec]).sample(&[None]);
    assert!(!probes.is_empty());
    assert_eq!(probes.json_probe("og").unwrap().name, "og");
}
