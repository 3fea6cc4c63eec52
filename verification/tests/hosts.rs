use all_smi::common::http_hosts::{
    accept_url, host_identifier, http_candidate, normalize_http_hosts, parse_http_host_url,
};
use all_smi::common::url_parts::UrlParts;

fn strings(values: &[&str]) -> Vec<String> {
    values.iter().map(|value| (*value).to_string()).collect()
}

#[test]
fn host_identifier_drops_scheme_and_path() {
    assert_eq!(host_identifier("http://10.10.10.2:9090"), "10.10.10.2:9090");
    assert_eq!(host_identifier("HTTPS://node-a:9090/metrics"), "node-a:9090");
    assert_eq!(host_identifier("node-a:9090"), "node-a:9090");
    assert_eq!(host_identifier("[::1]:9090"), "[::1]:9090");
}

#[test]
fn accepts_whitespace_comma_and_mixed_lists_in_order() {
    assert_eq!(
        normalize_http_hosts(&strings(&["host-a:9090", "host-b:9090"])).unwrap(),
        strings(&["host-a:9090", "host-b:9090"])
    );
    assert_eq!(
        normalize_http_hosts(&strings(&["host-a:9090,host-b:9090"])).unwrap(),
        strings(&["host-a:9090", "host-b:9090"])
    );
    assert_eq!(
        normalize_http_hosts(&strings(&[
            " host-a:9090, https://host-b:9443 ",
            "http://[2001:db8::1]:9090"
        ]))
        .unwrap(),
        strings(&["host-a:9090", "https://host-b:9443", "http://[2001:db8::1]:9090"])
    );
}

#[test]
fn rejects_empty_elements() {
    for input in ["", ",host-a:9090", "host-a:9090,,host-b:9090", "host-a:9090,"] {
        let error = normalize_http_hosts(&strings(&[input])).unwrap_err().message();
        assert!(error.contains("empty entry"), "{error}");
    }
}

#[test]
fn rejects_invalid_port_and_names_the_value() {
    let error = normalize_http_hosts(&strings(&["host-a:9090,host-b:not-a-port"]))
        .unwrap_err()
        .message();
    assert!(error.contains("host-b:not-a-port"), "{error}");
    assert!(error.contains("invalid port"), "{error}");
}

#[test]
fn rejects_unsupported_scheme_missing_host_and_malformed_url() {
    let unsupported =
        normalize_http_hosts(&strings(&["ftp://host-a:9090"])).unwrap_err().message();
    assert!(unsupported.contains("ftp://host-a:9090"), "{unsupported}");
    assert!(unsupported.contains("unsupported scheme"), "{unsupported}");

    let missing = normalize_http_hosts(&strings(&["http://"])).unwrap_err().message();
    assert!(missing.contains("http://"), "{missing}");
    assert!(missing.contains("missing host"), "{missing}");

    let malformed =
        normalize_http_hosts(&strings(&["http://[2001:db8::1"])).unwrap_err().message();
    assert!(malformed.contains("http://[2001:db8::1"), "{malformed}");
    assert!(malformed.contains("malformed URL"), "{malformed}");

    let missing_slashes =
        normalize_http_hosts(&strings(&["https:/host-a:9090"])).unwrap_err().message();
    assert!(missing_slashes.contains("https:/host-a:9090"), "{missing_slashes}");
    assert!(missing_slashes.contains("must be followed by `://`"), "{missing_slashes}");
}

#[test]
fn preserves_https_and_accepts_unreachable_or_bracketed_ipv6_hosts() {
    let hosts = normalize_http_hosts(&strings(&[
        "https://does-not-exist.invalid:9443",
        "[2001:db8::2]:9090",
    ]))
    .unwrap();
    assert_eq!(
        hosts,
        strings(&["https://does-not-exist.invalid:9443", "[2001:db8::2]:9090"])
    );
    assert_eq!(parse_http_host_url(&hosts[0]).unwrap().scheme, "https");
}

#[test]
fn a_url_is_read_into_its_parts() {
    let parts = parse_http_host_url("Node-A:9090").unwrap();
    assert_eq!(
        parts,
        UrlParts {
            scheme: "http".to_string(),
            host: Some("node-a".to_string()),
            port: Some(9090),
            known_port: Some(9090),
            path: "/".to_string(),
            query: None,
            text: "http://node-a:9090/".to_string(),
        }
    );
    let secure = parse_http_host_url("https://node-a/x?y=1").unwrap();
    assert_eq!(secure.port, None);
    assert_eq!(secure.known_port, Some(443));
    assert_eq!(secure.path, "/x");
    assert_eq!(secure.query, Some("y=1".to_string()));
}

#[test]
fn candidates_get_a_scheme() {
    assert_eq!(http_candidate("node-a:9090").unwrap(), "http://node-a:9090");
    assert_eq!(http_candidate("https://node-a").unwrap(), "https://node-a");
    assert!(http_candidate("http:node-a").is_err());
}

#[test]
fn the_parser_decides_over_a_candidate() {
    let parts = UrlParts {
        scheme: "http".to_string(),
        host: Some("a".to_string()),
        port: None,
        known_port: Some(80),
        path: "/".to_string(),
        query: None,
        text: "http://a/".to_string(),
    };
    assert_eq!(accept_url("a", Ok(parts.clone())).unwrap(), parts);
    let unsupported = UrlParts { scheme: "ftp".to_string(), ..parts };
    assert!(accept_url("ftp://a", Ok(unsupported)).is_err());
    assert!(accept_url("a", Err("invalid port number".to_string())).is_err());
}

#[test]
fn a_host_is_the_same_under_either_scheme() {
    assert_eq!(host_identifier("http://node-a:1"), host_identifier("https://node-a:1"));
    assert_eq!(host_identifier("http://node-a:1"), host_identifier("node-a:1"));
    assert_eq!(host_identifier("HTTPS://node-a:1"), "node-a:1");
}

#[test]
fn normalizing_again_changes_nothing() {
    let list = strings(&[" a:1 ,http://b:2", "c"]);
    let once = normalize_http_hosts(&list).unwrap();
    assert_eq!(once, ["a:1", "http://b:2", "c"]);
    assert_eq!(normalize_http_hosts(&once).unwrap(), once);
}
