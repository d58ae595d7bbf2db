use watchdog::registry::BoundedRegistry;

#[test]
fn enforces_cardinality_limit() {
    let mut registry = BoundedRegistry::new(1);

    assert!(registry.add("/a"));
    assert!(registry.add("/a"));
    assert!(!registry.add("/b"));
    assert_eq!(registry.count(), 1);
    assert!(registry.contains("/a"));
    assert!(!registry.contains("/b"));
}
