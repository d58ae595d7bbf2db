use watchdog::config::{AddressChecks, Config, SaltRotation};
use watchdog::metrics::{
    metric_label_names, sanitize_label, scroll_depth_bucket, series_key_string, unique_metric_name, Counter,
    DimensionLabels, Increment, Metrics, SeriesBudget, ONE_BITS, SERIES_BYTE_BUDGET,
};

fn checks() -> AddressChecks {
    AddressChecks { listen_addr_is_socket_addr: true, trusted_proxy_ips: Vec::new() }
}

fn find<'a>(out: &'a [Increment], counter: Counter) -> Option<&'a Increment> {
    out.iter().find(|i| i.counter == counter)
}

#[test]
fn sanitizes_label_values() {
    assert_eq!(sanitize_label("/docs/:id"), "/docs/:id");
    assert_eq!(sanitize_label("Outbound Link: Click"), "Outbound Link: Click");
    assert_eq!(sanitize_label("  newsletter  "), "newsletter");
    assert_eq!(sanitize_label(""), "other");
}

#[test]
fn sanitizing_twice_changes_nothing() {
    for raw in ["  a\u{7}b ", "x".repeat(201).as_str(), " ok ", "\t"] {
        let once = sanitize_label(raw);
        assert_eq!(sanitize_label(&once), once);
    }
    assert_eq!(sanitize_label("a\u{7f}b"), "other");
}

#[test]
fn records_metrics() {
    let mut config = Config::default();
    config.site.domains = vec!["example.com".to_owned()];
    config.site.collect.acquisition = true;
    config.site.collect.browser = true;
    config.site.collect.os = true;
    config.site.collect.screen = true;
    config.validate(&checks()).unwrap();
    let mut metrics = Metrics::new(&config);

    let labels = DimensionLabels {
        path: "/".to_owned(),
        device: Some("desktop".to_owned()),
        referrer: Some("direct".to_owned()),
        referrer_source: Some("direct".to_owned()),
        utm_source: Some("newsletter".to_owned()),
        browser: Some("firefox".to_owned()),
        os: Some("linux".to_owned()),
        screen: Some("desktop".to_owned()),
        ..DimensionLabels::default()
    };

    let mut out: Vec<Increment> = Vec::new();
    metrics.record_pageview(&labels, &mut out);
    metrics.record_event("signup", &labels, &mut out);
    metrics.record_custom_event("signup", &mut out);
    metrics.record_session(&labels, &mut out);
    metrics.record_engagement_seconds(&labels, 3.5_f64.to_bits(), &mut out);
    metrics.record_scroll_depth(&labels, 75, &mut out);
    metrics.record_custom_property("signup", "tier", "paid", &mut out);

    assert!(find(&out, Counter::Pageviews).is_some());
    assert!(find(&out, Counter::Events).is_some());
    assert!(find(&out, Counter::Sessions).is_some());
    assert!(find(&out, Counter::EngagementSeconds).is_some());
    assert!(find(&out, Counter::ScrollDepth).is_some());
    assert!(find(&out, Counter::CustomProperties).is_some());
    assert_eq!(find(&out, Counter::Events).unwrap().values[0], "signup");
    assert_eq!(find(&out, Counter::ScrollDepth).unwrap().values.last().unwrap(), "75");
    assert_eq!(find(&out, Counter::CustomProperties).unwrap().values, ["signup", "tier", "paid"]);
    assert_eq!(find(&out, Counter::EngagementSeconds).unwrap().amount_bits, 3.5_f64.to_bits());
    assert_eq!(Counter::Pageviews.name(), "web_pageviews_total");
    assert_eq!(Counter::CustomProperties.name(), "web_custom_properties_total");
}

#[test]
fn names_unique_metric_for_hourly_rotation() {
    let (name, _) = unique_metric_name(Some(SaltRotation::Hourly));
    assert_eq!(name, "web_hourly_unique_visitors");
    assert_ne!(name, "web_daily_unique_visitors");
    assert_eq!(unique_metric_name(None).0, "web_daily_unique_visitors");
}

#[test]
fn label_names_follow_collection_flags() {
    let mut config = Config::default();
    config.site.collect.acquisition = true;
    config.site.collect.domain = true;
    let names = metric_label_names(&config.site.collect);
    assert_eq!(
        names,
        [
            "path",
            "device",
            "referrer",
            "referrer_source",
            "utm_source",
            "utm_medium",
            "utm_campaign",
            "utm_content",
            "utm_term",
            "click_id",
            "domain"
        ]
    );
    let labels = DimensionLabels { path: "/a".to_owned(), ..DimensionLabels::default() };
    let values = watchdog::metrics::label_values(&config.site.collect, &labels);
    assert_eq!(values.len(), names.len());
    assert_eq!(values[1], "unknown");
    assert_eq!(values[2], "direct");
    assert_eq!(values[4], "none");
}

#[test]
fn buckets_scroll_depth() {
    assert_eq!(scroll_depth_bucket(0), "0");
    assert_eq!(scroll_depth_bucket(24), "0");
    assert_eq!(scroll_depth_bucket(25), "25");
    assert_eq!(scroll_depth_bucket(74), "50");
    assert_eq!(scroll_depth_bucket(89), "75");
    assert_eq!(scroll_depth_bucket(99), "90");
    assert_eq!(scroll_depth_bucket(100), "100");
}

#[test]
fn ignores_nonpositive_engagement_amounts() {
    let config = Config::default();
    let mut metrics = Metrics::new(&config);
    let labels = DimensionLabels { path: "/".to_owned(), ..DimensionLabels::default() };
    let mut out = Vec::new();
    metrics.record_engagement_seconds(&labels, 0.0_f64.to_bits(), &mut out);
    metrics.record_engagement_seconds(&labels, (-1.0_f64).to_bits(), &mut out);
    metrics.record_engagement_seconds(&labels, f64::NAN.to_bits(), &mut out);
    metrics.record_engagement_seconds(&labels, f64::INFINITY.to_bits(), &mut out);
    assert!(out.is_empty());
}

#[test]
fn series_budget_admits_known_series_and_collapses_when_full() {
    let mut budget = SeriesBudget::new();
    let names = vec!["path"];
    let (v, overflow) = budget.bounded_labels("m", &names, vec!["/a".to_owned()]);
    assert_eq!(v, ["/a"]);
    assert!(!overflow);
    let (v, overflow) = budget.bounded_labels("m", &names, vec!["/a".to_owned()]);
    assert_eq!(v, ["/a"]);
    assert!(!overflow);
    let huge = "x".repeat(SERIES_BYTE_BUDGET);
    let (v, overflow) = budget.bounded_labels("m", &names, vec![huge]);
    assert_eq!(v, ["other"]);
    assert!(overflow);
}

#[test]
fn refused_series_counts_an_overflow() {
    let config = Config::default();
    let mut metrics = Metrics::new(&config);
    let mut out = Vec::new();
    let huge = "x".repeat(200);
    for i in 0..30_000 {
        metrics.record_custom_property(&format!("{i}"), &huge, &huge, &mut out);
    }
    let overflow = find(&out, Counter::SeriesOverflow).expect("budget exhausted");
    assert!(overflow.values.is_empty());
    assert_eq!(overflow.amount_bits, ONE_BITS);
    assert_eq!(out.last().unwrap().values, ["other", "other", "other"]);
}

#[test]
fn series_keys_are_length_prefixed() {
    let key = series_key_string("m", &vec!["a:b".to_owned(), "".to_owned()]);
    assert_eq!(key, "1:m3:a:b0:");
}
