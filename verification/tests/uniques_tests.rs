use watchdog::config::SaltRotation;
use watchdog::uniques::{
    current_salt_key, generate_salt, hash_visitor, parent_dir, salt_key, tmp_path, DateParts, UniquesEstimator,
};

#[test]
fn estimates_unique_visitors() {
    let mut estimator = UniquesEstimator::new(SaltRotation::Daily);

    estimator.add("192.0.2.1", "ua-a");
    let first_estimate = estimator.estimate();
    estimator.add("192.0.2.1", "ua-a");
    assert_eq!(estimator.estimate(), first_estimate);

    estimator.add("192.0.2.2", "ua-b");

    assert!(estimator.estimate() > first_estimate);
}

#[test]
fn skips_empty_parent_for_bare_state_filename() {
    assert_eq!(parent_dir("hll.state"), None);
}

#[test]
fn keeps_nonempty_parent_directory() {
    assert_eq!(parent_dir("/var/lib/watchdog/hll.state"), Some("/var/lib/watchdog".to_owned()));
    assert_eq!(parent_dir(""), None);
    assert_eq!(tmp_path("/var/lib/watchdog/hll.state"), "/var/lib/watchdog/hll.state.tmp");
}

#[test]
fn generates_unique_salts_per_period() {
    assert_ne!(generate_salt("2026-09-18"), generate_salt("2026-09-18"));
    let salt = generate_salt("2026-09-18");
    assert_eq!(salt.len(), 64);
    assert!(salt.chars().all(|c| c.is_ascii_hexdigit() && !c.is_ascii_uppercase()));
}

#[test]
fn formats_salt_periods() {
    let now = DateParts { year: 2026, month: 9, day: 8, hour: 7 };
    assert_eq!(salt_key(&now, SaltRotation::Daily), "2026-09-08");
    assert_eq!(salt_key(&now, SaltRotation::Hourly), "2026-09-08T07");
    let early = DateParts { year: 33, month: 1, day: 1, hour: 0 };
    assert_eq!(salt_key(&early, SaltRotation::Daily), "0033-01-01");
    let bce = DateParts { year: -44, month: 3, day: 15, hour: 12 };
    assert_eq!(salt_key(&bce, SaltRotation::Hourly), "-044-03-15T12");
    let key = current_salt_key(SaltRotation::Daily);
    assert_eq!(key.len(), 10);
    assert_eq!(&key[4..5], "-");
}

#[test]
fn hashes_visitors_by_salt() {
    let a = hash_visitor("192.0.2.1", "ua", "salt-1");
    assert_eq!(a, hash_visitor("192.0.2.1", "ua", "salt-1"));
    assert_ne!(a, hash_visitor("192.0.2.1", "ua", "salt-2"));
    assert_ne!(a, hash_visitor("192.0.2.2", "ua", "salt-1"));
}

#[test]
fn rotation_to_new_period_resets_visitors() {
    let mut estimator = UniquesEstimator::new(SaltRotation::Daily);
    estimator.add("192.0.2.1", "ua-a");
    assert!(estimator.count() >= 1);
    let salt = estimator.current_salt();
    estimator.rotate_to("1999-01-01".to_owned());
    assert_eq!(estimator.count(), 0);
    assert_ne!(estimator.current_salt(), salt);
    assert_eq!(estimator.current_key(), "1999-01-01");
}
