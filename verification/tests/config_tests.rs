use watchdog::config::{listen_port, AddressChecks, Config, ConfigError, DeviceBreakpoints, Overrides};

fn checks() -> AddressChecks {
    AddressChecks { listen_addr_is_socket_addr: true, trusted_proxy_ips: Vec::new() }
}

#[test]
fn applies_defaults_and_normalizes_domains() {
    let mut config = Config::default();
    config.site.domains = vec!["Example.COM.".to_owned()];
    config.validate(&checks()).unwrap();

    assert_eq!(config.site.domains, ["example.com"]);
    assert_eq!(config.server.metrics_path, "/metrics");
    assert!(config.site.collect.sessions);
    assert!(config.site.collect.engagement);
    assert_eq!(config.limits.device_breakpoints.mobile, 768);
    assert_eq!(config.limits.max_dimension_values, 1_000);
}

#[test]
fn rejects_invalid_configuration() {
    let mut config = Config::default();
    assert!(matches!(config.validate(&checks()), Err(ConfigError::MissingDomains)));

    config.site.domains = vec!["example.com".to_owned()];
    config.limits.max_paths = 0;
    assert!(matches!(config.validate(&checks()), Err(ConfigError::InvalidMaxPaths)));

    config.limits.max_paths = 1;
    config.limits.max_dimension_values = 0;
    assert!(matches!(config.validate(&checks()), Err(ConfigError::InvalidMaxDimensionValues)));

    config.limits.max_dimension_values = 1;
    config.limits.device_breakpoints.mobile = 1024;
    config.limits.device_breakpoints.tablet = 768;
    assert!(matches!(config.validate(&checks()), Err(ConfigError::InvalidDeviceBreakpoints)));

    config.limits.device_breakpoints = DeviceBreakpoints::default();
    config.server.ingestion_path = "/metrics".to_owned();
    assert!(matches!(config.validate(&checks()), Err(ConfigError::DuplicateServerPath)));

    config.server.ingestion_path = "/web/beacon.js".to_owned();
    assert!(matches!(config.validate(&checks()), Err(ConfigError::ReservedServerPath { .. })));
}

#[test]
fn rejects_zero_rate_limits_bad_listen_addr_and_route_chars() {
    let mut config = Config::default();
    config.site.domains = vec!["example.com".to_owned()];

    config.limits.max_events_per_minute = 0;
    assert!(matches!(config.validate(&checks()), Err(ConfigError::InvalidMaxEventsPerMinute)));
    config.limits.max_events_per_minute = 1;

    config.limits.max_metrics_per_minute = 0;
    assert!(matches!(config.validate(&checks()), Err(ConfigError::InvalidMaxMetricsPerMinute)));
    config.limits.max_metrics_per_minute = 1;

    config.server.listen_addr = "not-an-addr".to_owned();
    let bad_addr = AddressChecks { listen_addr_is_socket_addr: false, trusted_proxy_ips: Vec::new() };
    assert!(matches!(config.validate(&bad_addr), Err(ConfigError::InvalidListenAddr(_))));
    config.server.listen_addr = "127.0.0.1:8080".to_owned();

    config.server.metrics_path = "/metrics/{id}".to_owned();
    assert!(matches!(config.validate(&checks()), Err(ConfigError::InvalidServerPathChars { .. })));
}

#[test]
fn command_line_overrides_take_precedence() {
    let mut config = Config::default();
    config.apply_overrides(Overrides {
        listen_addr: Some("127.0.0.1:9090".to_owned()),
        metrics_path: None,
        ingestion_path: Some("/api/v1/event".to_owned()),
    });
    assert_eq!(config.server.listen_addr, "127.0.0.1:9090");
    assert_eq!(config.server.metrics_path, "/metrics");
    assert_eq!(config.server.ingestion_path, "/api/v1/event");
}

#[test]
fn rejects_unparseable_trusted_proxy() {
    let mut config = Config::default();
    config.site.domains = vec!["example.com".to_owned()];
    config.security.trusted_proxies = vec!["10.0.0.0/8".to_owned(), "proxy.internal".to_owned()];
    let addresses = AddressChecks { listen_addr_is_socket_addr: true, trusted_proxy_ips: vec![None, None] };
    match config.validate(&addresses) {
        Err(ConfigError::InvalidTrustedProxy(value)) => assert_eq!(value, "proxy.internal"),
        _ => panic!("expected an invalid trusted proxy"),
    }
}

#[test]
fn rejects_bad_sampling_and_auth() {
    let mut config = Config::default();
    config.site.domains = vec!["example.com".to_owned()];
    config.site.sampling_bits = 1.5f64.to_bits();
    assert!(matches!(config.validate(&checks()), Err(ConfigError::InvalidSampling)));
    config.site.sampling_bits = 0.5f64.to_bits();
    config.security.metrics_auth.enabled = true;
    assert!(matches!(config.validate(&checks()), Err(ConfigError::InvalidMetricsAuth)));
}

#[test]
fn validates_endpoint_paths() {
    assert!(watchdog::config::validate_endpoint_path("metrics_path", "/metrics").is_ok());
    assert!(matches!(
        watchdog::config::validate_endpoint_path("metrics_path", "metrics"),
        Err(ConfigError::InvalidServerPath { field: "metrics_path" })
    ));
    assert!(matches!(
        watchdog::config::validate_reserved_endpoint_path("ingestion_path", "/health"),
        Err(ConfigError::ReservedServerPath { .. })
    ));
}

#[test]
fn finds_first_present_default_config_file() {
    assert_eq!(watchdog::config::default_config_path(&vec![false, true]), Some("/etc/watchdog/config.toml"));
    assert_eq!(watchdog::config::default_config_path(&vec![true, true]), Some("config.toml"));
    assert_eq!(watchdog::config::default_config_path(&vec![false, false]), None);
}

#[test]
fn accepts_port_only_listen_address() {
    let mut config = Config::default();
    config.site.domains = vec!["example.com".to_owned()];
    config.apply_overrides(Overrides {
        listen_addr: Some(":9090".to_owned()),
        metrics_path: None,
        ingestion_path: None,
    });
    let not_socket = AddressChecks { listen_addr_is_socket_addr: false, trusted_proxy_ips: Vec::new() };
    assert!(config.validate(&not_socket).is_ok());
    assert_eq!(config.server.listen_addr, ":9090");

    for bad in [":", ":65536", ":123456", ":90a0", "9090", "::9090"] {
        config.server.listen_addr = bad.to_owned();
        assert!(matches!(config.validate(&not_socket), Err(ConfigError::InvalidListenAddr(_))), "{bad}");
    }
}

#[test]
fn reads_ports_of_port_only_addresses() {
    assert_eq!(listen_port(":9090"), Some(9090));
    assert_eq!(listen_port(":0"), Some(0));
    assert_eq!(listen_port(":65535"), Some(65535));
    assert_eq!(listen_port(":065535"), None);
    assert_eq!(listen_port(":65536"), None);
    assert_eq!(listen_port("127.0.0.1:9090"), None);
    assert_eq!(listen_port(""), None);
}
