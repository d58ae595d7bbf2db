use watchdog::app::{
    acquisition_labels, admit_path, bounded_dimension, bounded_event_label, classify_browser, classify_device,
    classify_os, classify_screen, constant_time_equal, ingest, is_click_id_param, is_pageview_event,
    is_system_event, metrics_authorized, metrics_body_status, metrics_request, parse_trusted_proxies,
    query_string, rate_limiter, record_accepted, referrer_label, validate_asset_path, AppError, AppState, Status,
};
use watchdog::config::{AddressChecks, AuthConfig, Config, DeviceBreakpoints, ReferrerMode, SaltRotation};
use watchdog::event::{EngagementOrLegacyEvent, Event, PayloadField};
use watchdog::metrics::{Counter, Increment};
use watchdog::net::{ClientIp, ProxyNet};

fn checks() -> AddressChecks {
    AddressChecks { listen_addr_is_socket_addr: true, trusted_proxy_ips: Vec::new() }
}

fn state_with(mut config: Config) -> AppState {
    config.site.domains = vec!["example.com".to_owned()];
    config.validate(&checks()).unwrap();
    AppState::new(config, &Vec::new()).unwrap()
}

fn v4(a: u8, b: u8, c: u8, d: u8) -> ClientIp {
    ClientIp::V4(u32::from_be_bytes([a, b, c, d]))
}

fn page(path: &str) -> Event {
    Event {
        domain: "example.com".to_owned(),
        url: String::new(),
        payload: PayloadField::Path(path.to_owned()),
        referrer: String::new(),
        name: String::new(),
        engagement: EngagementOrLegacyEvent::Empty,
        width: 0,
        scroll_depth: 0,
        new_session: false,
    }
}

#[test]
fn classifies_devices() {
    let breakpoints = DeviceBreakpoints::default();

    assert_eq!(classify_device(0, "Mozilla/5.0 (iPhone)", breakpoints), "mobile");
    assert_eq!(classify_device(900, "", breakpoints), "tablet");
    assert_eq!(classify_device(1440, "", breakpoints), "desktop");
    assert_eq!(classify_device(0, "", breakpoints), "unknown");
    assert_eq!(classify_screen(390, breakpoints), "mobile");
    assert_eq!(classify_screen(1440, breakpoints), "wide");
    assert_eq!(classify_browser("Mozilla/5.0 Firefox/120.0"), "firefox");
    assert_eq!(classify_os("Mozilla/5.0 (X11; Linux x86_64)"), "linux");
}

#[test]
fn extracts_acquisition_labels() {
    let labels = acquisition_labels(
        "https://example.com/?utm_source=newsletter&utm_medium=email&gclid=abc",
        "https://news.ycombinator.com/item?id=1",
        "example.com",
    );

    assert_eq!(labels.utm_source, Some("newsletter".to_owned()));
    assert_eq!(labels.utm_medium, Some("email".to_owned()));
    assert_eq!(labels.click_id, Some("gclid".to_owned()));
    assert_eq!(labels.referrer_source, Some("ycombinator.com".to_owned()));

    let fragment_only = acquisition_labels("/docs#utm_source=fragment", "", "example.com");
    assert_eq!(fragment_only.utm_source, None);
}

#[test]
fn decodes_and_picks_first_acquisition_parameters() {
    let labels = acquisition_labels(
        "/landing?UTM_Source=Spring%20Sale&utm_source=later&utm_term=+&FBCLID=x&utm_campaign=%E2%9C%93",
        "",
        "example.com",
    );
    assert_eq!(labels.utm_source, Some("Spring Sale".to_owned()));
    assert_eq!(labels.utm_term, None);
    assert_eq!(labels.click_id, Some("fbclid".to_owned()));
    assert_eq!(labels.utm_campaign, Some("\u{2713}".to_owned()));
    assert_eq!(labels.referrer_source, Some("direct".to_owned()));
}

#[test]
fn bounded_dimension_uses_fallback_for_blank_values() {
    let mut state = state_with(Config::default());
    let mut out: Vec<Increment> = Vec::new();

    assert_eq!(bounded_dimension(&mut state, "utm_source", Some("  ".to_owned()), "none", &mut out), "none");
}

#[test]
fn validates_embedded_asset_paths() {
    assert!(validate_asset_path("beacon.js").is_ok());
    assert_eq!(validate_asset_path("../secret.js"), Err("invalid_path"));
    assert_eq!(validate_asset_path(".env"), Err("dotfile"));
    assert_eq!(validate_asset_path("config.js"), Err("sensitive_file"));
    assert_eq!(validate_asset_path("image.png"), Err("invalid_extension"));
}

#[test]
fn collapses_path_to_other_when_registry_full() {
    let mut config = Config::default();
    config.limits.max_paths = 1;
    let mut state = state_with(config);
    let mut out: Vec<Increment> = Vec::new();

    assert_eq!(admit_path(&mut state, "/first", &mut out), "/first");
    assert_eq!(admit_path(&mut state, "/second", &mut out), "other");
    assert_eq!(out.len(), 1);
    assert_eq!(out[0].counter, Counter::PathOverflow);
}

#[test]
fn compares_metrics_credentials_in_constant_time() {
    assert!(constant_time_equal(b"admin:secret", b"admin:secret"));
    assert!(!constant_time_equal(b"admin:secret", b"admin:wrong"));
    assert!(!constant_time_equal(b"admin:secret", b"admin:longer-secret"));
    assert!(!constant_time_equal(b"admin:secret", b"user:secret"));
}

#[test]
fn authorizes_metrics_with_basic_credentials() {
    let auth = AuthConfig { enabled: true, username: "admin".to_owned(), password: "secret".to_owned() };
    // base64("admin:secret")
    assert!(metrics_authorized(&auth, Some("Basic YWRtaW46c2VjcmV0")));
    // base64("admin:wrong")
    assert!(!metrics_authorized(&auth, Some("Basic YWRtaW46d3Jvbmc=")));
    assert!(!metrics_authorized(&auth, Some("Bearer YWRtaW46c2VjcmV0")));
    assert!(!metrics_authorized(&auth, Some("Basic !!!")));
    assert!(!metrics_authorized(&auth, None));
    let open = AuthConfig { enabled: false, username: String::new(), password: String::new() };
    assert!(metrics_authorized(&open, None));
}

#[test]
fn parses_trusted_proxies_as_networks_or_hosts() {
    let values = vec!["10.0.0.0/8".to_owned(), "127.0.0.1".to_owned()];
    let nets = parse_trusted_proxies(&values, &vec![None, Some(v4(127, 0, 0, 1))]).unwrap();
    assert_eq!(nets[0], ProxyNet { addr: v4(10, 0, 0, 0), prefix_len: 8 });
    assert_eq!(nets[1], ProxyNet { addr: v4(127, 0, 0, 1), prefix_len: 32 });
    match parse_trusted_proxies(&vec!["bogus".to_owned()], &vec![None]) {
        Err(AppError::TrustedProxy { value, reason }) => {
            assert_eq!(value, "bogus");
            assert_eq!(reason, "invalid IP address syntax");
        },
        _ => panic!("expected a trusted proxy error"),
    }
}

#[test]
fn resolves_client_address_through_trusted_proxies() {
    let mut config = Config::default();
    config.site.domains = vec!["example.com".to_owned()];
    config.security.trusted_proxies = vec!["10.0.0.0/8".to_owned()];
    let addresses = AddressChecks { listen_addr_is_socket_addr: true, trusted_proxy_ips: vec![None] };
    config.validate(&addresses).unwrap();
    let state = AppState::new(config, &vec![None]).unwrap();

    let proxy = v4(10, 0, 0, 1);
    let client = v4(203, 0, 113, 7);
    let forwarded = vec![Some(v4(198, 51, 100, 1)), Some(client), Some(v4(10, 0, 0, 2))];
    assert_eq!(state.client_ip(Some(&forwarded), None, proxy), client);
    assert_eq!(state.client_ip(None, Some(client), proxy), client);
    assert_eq!(state.client_ip(None, None, proxy), proxy);
    // An untrusted peer cannot name another client.
    assert_eq!(state.client_ip(Some(&forwarded), Some(client), v4(192, 0, 2, 9)), v4(192, 0, 2, 9));
}

#[test]
fn admits_referrers_until_full() {
    let mut config = Config::default();
    config.limits.max_sources = 1;
    let mut state = state_with(config);
    let mut out: Vec<Increment> = Vec::new();
    assert_eq!(
        referrer_label(&mut state, "https://news.ycombinator.com/", "example.com", &mut out),
        Some("ycombinator.com".to_owned())
    );
    assert_eq!(referrer_label(&mut state, "", "example.com", &mut out), Some("direct".to_owned()));
    assert_eq!(
        referrer_label(&mut state, "https://reddit.com/r/rust", "example.com", &mut out),
        Some("other".to_owned())
    );
    assert_eq!(out.len(), 1);
    assert_eq!(out[0].counter, Counter::ReferrerOverflow);

    let mut off = Config::default();
    off.site.collect.referrer = ReferrerMode::Off;
    let mut state = state_with(off);
    assert_eq!(referrer_label(&mut state, "https://reddit.com/", "example.com", &mut out), None);
}

#[test]
fn bounds_event_labels_by_allow_list_and_registry() {
    let mut config = Config::default();
    config.site.custom_events = vec![" signup ".to_owned()];
    let mut state = state_with(config);
    let mut out: Vec<Increment> = Vec::new();
    assert_eq!(bounded_event_label(&mut state, "signup", &mut out), Some("signup".to_owned()));
    assert_eq!(bounded_event_label(&mut state, "purchase", &mut out), None);
    assert_eq!(bounded_event_label(&mut state, "404", &mut out), Some("404".to_owned()));
    assert!(is_system_event("File Download"));
    assert!(!is_system_event("file download"));
    assert!(is_pageview_event(" PageView "));
    assert!(is_pageview_event(""));
    assert!(!is_pageview_event("signup"));
    assert!(is_click_id_param("li_fat_id"));
    assert!(!is_click_id_param("utm_source"));
}

#[test]
fn collapses_dimension_values_when_full() {
    let mut config = Config::default();
    config.limits.max_dimension_values = 1;
    let mut state = state_with(config);
    let mut out: Vec<Increment> = Vec::new();
    assert_eq!(bounded_dimension(&mut state, "utm_source", Some(" news ".to_owned()), "none", &mut out), "news");
    assert_eq!(bounded_dimension(&mut state, "utm_source", Some("ads".to_owned()), "none", &mut out), "other");
    assert_eq!(bounded_dimension(&mut state, "utm_medium", Some("unknown".to_owned()), "none", &mut out), "unknown");
    assert_eq!(out.last().unwrap().counter, Counter::DimensionOverflow);
    assert_eq!(out.last().unwrap().values, ["utm_source"]);
}

#[test]
fn reads_query_strings() {
    assert_eq!(query_string("https://example.com/a?x=1#f"), Some("x=1".to_owned()));
    assert_eq!(query_string("/a?b=2#c?d"), Some("b=2".to_owned()));
    assert_eq!(query_string("/a#b?c"), None);
    assert_eq!(query_string("https://example.com/a"), None);
}

#[test]
fn ingests_pageview_and_refuses_bad_requests() {
    let mut state = state_with(Config::default());
    let mut out: Vec<Increment> = Vec::new();
    let ip = v4(192, 0, 2, 1);

    let status = ingest(&mut state, &page("/docs/42"), ip, "192.0.2.1", "Mozilla/5.0", false, &mut out);
    assert_eq!(status, Status::NoContent);
    let pageview = out.iter().find(|i| i.counter == Counter::Pageviews).expect("pageview counted");
    assert_eq!(pageview.values[0], "/docs/:id");

    let before = out.len();
    let mut foreign = page("/");
    foreign.domain = "evil.example".to_owned();
    assert_eq!(ingest(&mut state, &foreign, ip, "192.0.2.1", "", false, &mut out), Status::BadRequest);
    assert_eq!(ingest(&mut state, &page("/"), ip, "192.0.2.1", "", true, &mut out), Status::NoContent);
    assert_eq!(out.len(), before);
}

#[test]
fn rate_limits_ingestion_per_address() {
    let mut config = Config::default();
    config.limits.max_events_per_minute = 1;
    let mut state = state_with(config);
    let mut out: Vec<Increment> = Vec::new();
    let ip = v4(192, 0, 2, 1);
    assert_eq!(ingest(&mut state, &page("/"), ip, "192.0.2.1", "", false, &mut out), Status::NoContent);
    let before = out.len();
    assert_eq!(ingest(&mut state, &page("/"), ip, "192.0.2.1", "", false, &mut out), Status::TooManyRequests);
    assert_eq!(out.len(), before);
    assert_eq!(ingest(&mut state, &page("/"), v4(192, 0, 2, 2), "192.0.2.2", "", false, &mut out), Status::NoContent);
}

#[test]
fn records_custom_events_and_properties() {
    let mut config = Config::default();
    config.site.collect.properties = true;
    let mut state = state_with(config);
    let mut out: Vec<Increment> = Vec::new();
    let mut event = page("/pricing");
    event.name = "purchase".to_owned();
    event.payload = PayloadField::Properties(vec![("plan".to_owned(), "pro".to_owned())]);
    event.url = "https://example.com/pricing".to_owned();
    event.engagement = EngagementOrLegacyEvent::Engagement(4.0_f64.to_bits());
    event.scroll_depth = 60;
    event.new_session = true;
    assert_eq!(ingest(&mut state, &event, v4(192, 0, 2, 1), "192.0.2.1", "", false, &mut out), Status::NoContent);
    let custom = out.iter().find(|i| i.counter == Counter::CustomEvents).expect("custom event");
    assert_eq!(custom.values, ["purchase"]);
    let property = out.iter().find(|i| i.counter == Counter::CustomProperties).expect("property");
    assert_eq!(property.values, ["purchase", "plan", "pro"]);
    assert!(out.iter().any(|i| i.counter == Counter::Sessions));
    assert!(out.iter().any(|i| i.counter == Counter::EngagementSeconds && i.amount_bits == 4.0_f64.to_bits()));
    let scroll = out.iter().find(|i| i.counter == Counter::ScrollDepth).expect("scroll depth");
    assert_eq!(scroll.values.last().unwrap(), "50");
    assert!(!out.iter().any(|i| i.counter == Counter::Pageviews));
}

#[test]
fn admits_metrics_requests() {
    let mut config = Config::default();
    config.limits.max_metrics_per_minute = 1;
    config.security.metrics_auth = AuthConfig { enabled: true, username: "admin".to_owned(), password: "secret".to_owned() };
    let mut state = state_with(config);
    let ip = v4(192, 0, 2, 1);
    assert_eq!(metrics_request(&mut state, ip, Some("Basic YWRtaW46c2VjcmV0")), Status::Success);
    assert_eq!(metrics_request(&mut state, ip, Some("Basic YWRtaW46c2VjcmV0")), Status::TooManyRequests);
    assert_eq!(metrics_request(&mut state, v4(192, 0, 2, 2), None), Status::Unauthorized);
    assert_eq!(metrics_body_status(Some(10)), Status::Success);
    assert_eq!(metrics_body_status(Some(10_485_761)), Status::InternalServerError);
    assert_eq!(metrics_body_status(None), Status::InternalServerError);
    assert!(rate_limiter(0).is_none());
    assert!(rate_limiter(5).is_some());
}

#[test]
fn build_info_falls_back_to_unknown() {
    let info = watchdog::BuildInfo::current("1.2.3", Some(""), None);
    assert_eq!(info.version, "1.2.3");
    assert_eq!(info.commit, "unknown");
    assert_eq!(info.build_date, "unknown");
    let info = watchdog::BuildInfo::current("1.2.3", Some("abc"), Some("2026-01-01"));
    assert_eq!(info.commit, "abc");
    assert_eq!(info.build_date, "2026-01-01");
}

#[test]
fn records_accepted_event_labels() {
    let mut config = Config::default();
    config.site.collect.device = true;
    config.site.collect.domain = true;
    config.site.salt_rotation = Some(SaltRotation::Daily);
    let mut state = state_with(config);
    let mut out: Vec<Increment> = Vec::new();
    let mut event = page("/blog/7");
    event.name = "signup".to_owned();
    event.width = 500;
    let accepted = record_accepted(&mut state, &event, "example.com", "192.0.2.1", "Mozilla/5.0", &mut out);
    assert_eq!(accepted.labels.path, "/blog/:id");
    assert_eq!(accepted.labels.domain.as_deref(), Some("example.com"));
    assert_eq!(accepted.labels.device.as_deref(), Some("mobile"));
    assert_eq!(accepted.event_label.as_deref(), Some("signup"));
    let custom = out.iter().find(|i| i.counter == Counter::CustomEvents).expect("custom event");
    assert_eq!(custom.values.last().unwrap(), "signup");
    assert_eq!(state.metrics().uniques().map(|u| u.count()), Some(1));
}

#[test]
fn builds_unique_estimator_only_with_a_salt_rotation() {
    let state = state_with(Config::default());
    assert!(state.metrics().uniques().is_none());
    let mut config = Config::default();
    config.site.salt_rotation = Some(SaltRotation::Hourly);
    let state = state_with(config);
    assert_eq!(state.metrics().uniques().map(|u| u.count()), Some(0));
}
