use watchdog::net::ClientIp;
use watchdog::ratelimit::{IpRateLimiter, MAX_TRACKED_IPS, MINUTE_NANOS};

fn v4(a: u8, b: u8, c: u8, d: u8) -> ClientIp {
    ClientIp::V4(u32::from_be_bytes([a, b, c, d]))
}

#[test]
fn enforces_per_ip_quota() {
    let mut limiter = IpRateLimiter::with_window(2, MINUTE_NANOS);
    let addr = v4(192, 0, 2, 1);

    assert!(limiter.check(addr));
    assert!(limiter.check(addr));
    assert!(!limiter.check(addr));
}

#[test]
fn quotas_are_independent_per_ip() {
    let mut limiter = IpRateLimiter::with_window(1, MINUTE_NANOS);
    let exhausted = v4(192, 0, 2, 1);
    let fresh = v4(192, 0, 2, 2);
    assert!(limiter.check(exhausted));
    assert!(!limiter.check(exhausted));
    assert!(limiter.check(fresh));
}

#[test]
fn window_expiry_restores_quota() {
    let mut limiter = IpRateLimiter::with_window(1, 20_000_000);
    let addr = v4(192, 0, 2, 1);

    assert!(limiter.check_at(addr, 0));
    assert!(!limiter.check_at(addr, 10_000_000));
    assert!(limiter.check_at(addr, 30_000_000));
}

#[test]
fn prunes_expired_entries_when_full() {
    let mut limiter = IpRateLimiter::with_window(10, MINUTE_NANOS);
    let bound = MAX_TRACKED_IPS as u32;
    for index in 0..bound {
        let octets = index.to_le_bytes();
        limiter.check_at(v4(10, octets[2], octets[1], octets[0]), 0);
    }
    assert_eq!(limiter.address_count(), MAX_TRACKED_IPS);

    let fresh = v4(192, 0, 2, 1);
    assert!(limiter.check_at(fresh, 61 * 1_000_000_000));
    assert!(limiter.address_count() < MAX_TRACKED_IPS);
}

#[test]
fn refuses_new_addresses_while_full_of_live_windows() {
    let mut limiter = IpRateLimiter::with_window(10, MINUTE_NANOS);
    for index in 0..(MAX_TRACKED_IPS as u32) {
        limiter.check_at(ClientIp::V6(index as u128), 0);
    }
    assert!(!limiter.check_at(v4(192, 0, 2, 1), 1));
    assert!(limiter.check_at(ClientIp::V6(5), 2));
}
