use watchdog::event::{EngagementOrLegacyEvent, Event, EventError, PayloadField};
use watchdog::limits::MAX_PROPERTY_VALUE_LEN;

fn event() -> Event {
    Event {
        domain: String::new(),
        url: String::new(),
        payload: PayloadField::Empty,
        referrer: String::new(),
        name: String::new(),
        engagement: EngagementOrLegacyEvent::Empty,
        width: 0,
        scroll_depth: 0,
        new_session: false,
    }
}

fn props(pairs: &[(&str, &str)]) -> PayloadField {
    PayloadField::Properties(pairs.iter().map(|(k, v)| (k.to_string(), v.to_string())).collect())
}

#[test]
fn validates_allowed_domain_and_limits() {
    let event = Event {
        domain: "Example.COM.".to_owned(),
        payload: PayloadField::Path("/docs".to_owned()),
        width: 1024,
        ..event()
    };

    event.validate(|domain| domain == "example.com").unwrap();
    assert_eq!(event.path(), "/docs");
}

#[test]
fn accepts_plausible_style_payload() {
    let event = Event {
        url: "https://example.com/docs?utm_source=newsletter".to_owned(),
        name: "engagement".to_owned(),
        payload: props(&[("amount", "42"), ("tier", "paid")]),
        engagement: EngagementOrLegacyEvent::Engagement(12.5_f64.to_bits()),
        scroll_depth: 75,
        new_session: true,
        ..event()
    };

    event.validate(|domain| domain == "example.com").unwrap();
    assert_eq!(event.normalize_domain(), "example.com");
    assert_eq!(event.path(), "/docs?utm_source=newsletter");
    assert_eq!(event.event_name(), "engagement");
    assert_eq!(event.engagement_seconds(), Some(12.5_f64.to_bits()));
    assert_eq!(event.scroll_depth(), 75);
    assert!(event.is_new_session());
    assert_eq!(event.properties().get("amount"), Some(&"42".to_owned()));
}

#[test]
fn collapses_overlong_property_labels() {
    let long_value = "x".repeat(MAX_PROPERTY_VALUE_LEN + 1);
    let event = Event {
        domain: "example.com".to_owned(),
        url: "https://example.com/".to_owned(),
        payload: props(&[("url", long_value.as_str())]),
        ..event()
    };

    event.validate(|domain| domain == "example.com").unwrap();
    assert_eq!(event.properties().get("url"), Some(&"other".to_owned()));
}

#[test]
fn ignores_null_property_values() {
    let event = Event {
        domain: "example.com".to_owned(),
        url: "https://example.com/".to_owned(),
        payload: props(&[("empty", ""), ("plan", "pro")]),
        ..event()
    };

    event.validate(|domain| domain == "example.com").unwrap();
    assert!(!event.properties().contains_key("empty"));
    assert_eq!(event.properties().get("plan"), Some(&"pro".to_owned()));
}

#[test]
fn treats_null_property_payload_as_missing_payload() {
    let event = Event {
        domain: "example.com".to_owned(),
        url: "https://example.com/docs?utm_source=newsletter".to_owned(),
        payload: PayloadField::Null,
        ..event()
    };

    event.validate(|domain| domain == "example.com").unwrap();
    assert_eq!(event.path(), "/docs?utm_source=newsletter");
    assert!(event.properties().is_empty());
}

#[test]
fn keeps_legacy_event_field_as_event_name() {
    let event = Event {
        domain: "example.com".to_owned(),
        payload: PayloadField::Path("/".to_owned()),
        engagement: EngagementOrLegacyEvent::LegacyEvent("signup".to_owned()),
        ..event()
    };

    assert_eq!(event.event_name(), "signup");
    assert_eq!(event.engagement_seconds(), None);
}

#[test]
fn rejects_unknown_domain() {
    let event = Event {
        domain: "evil.example".to_owned(),
        payload: PayloadField::Path("/".to_owned()),
        ..event()
    };

    assert_eq!(event.validate(|domain| domain == "example.com"), Err(EventError::DomainNotAllowed));
}

#[test]
fn rejects_nonpositive_engagement() {
    for seconds in [-5.0_f64, 0.0_f64] {
        let event = Event {
            domain: "example.com".to_owned(),
            payload: PayloadField::Path("/".to_owned()),
            engagement: EngagementOrLegacyEvent::Engagement(seconds.to_bits()),
            ..event()
        };
        assert_eq!(event.validate(|domain| domain == "example.com"), Err(EventError::InvalidEngagement));
    }
}

#[test]
fn accepts_plausible_wire_format() {
    let event = Event {
        domain: "example.com".to_owned(),
        name: "pageview".to_owned(),
        url: "https://example.com/docs".to_owned(),
        referrer: "https://news.example/".to_owned(),
        width: 1024,
        payload: props(&[("tier", "paid")]),
        ..event()
    };

    assert!(event.validate(|domain| domain == "example.com").is_ok());
    assert_eq!(event.path(), "/docs");
    assert_eq!(event.event_name(), "pageview");
    assert_eq!(event.properties().get("tier"), Some(&"paid".to_owned()));
}

#[test]
fn later_property_overwrites_earlier_and_keys_are_trimmed() {
    let event = Event {
        domain: "example.com".to_owned(),
        payload: props(&[(" plan ", "free"), ("plan", " pro "), ("", "x")]),
        ..event()
    };
    let p = event.properties();
    assert_eq!(p.len(), 1);
    assert_eq!(p.get("plan"), Some(&"pro".to_owned()));
    assert_eq!(p.entry(0), ("plan", "pro"));
}

#[test]
fn reports_each_bound_error() {
    let base = Event {
        domain: "example.com".to_owned(),
        payload: PayloadField::Path("/".to_owned()),
        ..event()
    };
    assert_eq!(Event { domain: String::new(), ..event() }.validate(|_| true), Err(EventError::MissingDomain));
    assert_eq!(Event { payload: PayloadField::Empty, ..base.clone_event() }.validate(|_| true), Err(EventError::MissingPath));
    assert_eq!(Event { width: 10_001, ..base.clone_event() }.validate(|_| true), Err(EventError::InvalidWidth));
    assert_eq!(Event { scroll_depth: 101, ..base.clone_event() }.validate(|_| true), Err(EventError::InvalidScrollDepth));
    assert_eq!(Event { name: "n".repeat(121), ..base.clone_event() }.validate(|_| true), Err(EventError::EventNameTooLong));
    assert_eq!(Event { referrer: "r".repeat(2049), ..base.clone_event() }.validate(|_| true), Err(EventError::ReferrerTooLong));
    assert_eq!(
        Event { engagement: EngagementOrLegacyEvent::Engagement(86_401.0_f64.to_bits()), ..base.clone_event() }
            .validate(|_| true),
        Err(EventError::InvalidEngagement)
    );
    assert!(base.validate(|_| true).is_ok());
}

#[test]
fn falls_back_to_url_host_for_domain() {
    let event = Event { url: "https://WWW.Example.com./docs".to_owned(), ..event() };
    assert_eq!(event.normalize_domain(), "www.example.com");
}

trait CloneEvent {
    fn clone_event(&self) -> Event;
}

impl CloneEvent for Event {
    fn clone_event(&self) -> Event {
        Event {
            domain: self.domain.clone(),
            url: self.url.clone(),
            payload: match &self.payload {
                PayloadField::Path(p) => PayloadField::Path(p.clone()),
                PayloadField::Properties(v) => PayloadField::Properties(v.clone()),
                PayloadField::Null => PayloadField::Null,
                PayloadField::Empty => PayloadField::Empty,
            },
            referrer: self.referrer.clone(),
            name: self.name.clone(),
            engagement: match &self.engagement {
                EngagementOrLegacyEvent::Engagement(b) => EngagementOrLegacyEvent::Engagement(*b),
                EngagementOrLegacyEvent::LegacyEvent(s) => EngagementOrLegacyEvent::LegacyEvent(s.clone()),
                EngagementOrLegacyEvent::Empty => EngagementOrLegacyEvent::Empty,
            },
            width: self.width,
            scroll_depth: self.scroll_depth,
            new_session: self.new_session,
        }
    }
}
