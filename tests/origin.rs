use probe_harness::target::{parse_origin, ConfigError};

#[test]
fn plain_origin_with_port() {
    let o = parse_origin("http://benchmark_server:8080").unwrap();
    assert!(!o.secure);
    assert_eq!(o.host, "benchmark_server");
    assert_eq!(o.port, Some(8080));
    assert_eq!(o.text(), "http://benchmark_server:8080");
}

#[test]
fn secure_origin_with_trailing_slash() {
    let o = parse_origin("https://example.org/").unwrap();
    assert!(o.secure);
    assert_eq!(o.host, "example.org");
    assert_eq!(o.port, None);
    assert_eq!(o.text(), "https://example.org");
}

#[test]
fn port_edges() {
    assert_eq!(parse_origin("http://h:1").unwrap().port, Some(1));
    assert_eq!(parse_origin("http://h:65535/").unwrap().port, Some(65535));
    assert_eq!(parse_origin("http://h:08080").unwrap().text(), "http://h:8080");
}

#[test]
fn invalid_origins_are_refused() {
    for s in [
        "",
        "ftp://host",
        "http://",
        "http:///",
        "http://:80",
        "http://host:",
        "http://host:0",
        "http://host:65536",
        "http://host:123456",
        "http://host:8a",
        "http://host/path",
        "http://ho st",
        "http://host//",
        "http://[]",
        "http://[::1",
        "http://[::g]",
        "http://[::1]x",
        "http://[::1]:0",
        "http://a[::1]",
    ] {
        assert_eq!(parse_origin(s).err(), Some(ConfigError::InvalidOrigin), "{}", s);
    }
}

#[test]
fn scheme_case_is_ignored() {
    let o = parse_origin("HTTP://host").unwrap();
    assert!(!o.secure);
    assert_eq!(o.text(), "http://host");
    let o = parse_origin("HtTpS://Host:443").unwrap();
    assert!(o.secure);
    assert_eq!(o.host, "Host");
    assert_eq!(o.text(), "https://Host:443");
}

#[test]
fn bracketed_ip_literal_hosts() {
    let o = parse_origin("http://[::1]:8080").unwrap();
    assert_eq!(o.host, "[::1]");
    assert_eq!(o.port, Some(8080));
    assert_eq!(o.text(), "http://[::1]:8080");
    let o = parse_origin("https://[2001:DB8::7]/").unwrap();
    assert_eq!(o.host, "[2001:DB8::7]");
    assert_eq!(o.port, None);
}
