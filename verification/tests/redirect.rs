//! The redirect hint cache.

use iotdb_client::client::redirect::{
    endpoint_from_redirect, is_expired, record_redirects, RedirectCache, RedirectCacheStats,
};
use iotdb_client::protocol::{TEndPoint, TSStatus};
use iotdb_client::time::{Clock, Duration, Instant, MAX_DURATION_NANOS};
use iotdb_client::Endpoint;

fn ep(port: u16) -> Endpoint {
    Endpoint::new("10.0.0.1", port)
}

fn later(now: Instant, span: Duration) -> Instant {
    now.checked_add(span).expect("within range")
}

#[test]
fn ttl_predicate() {
    let ttl = Duration::from_secs(300);
    assert!(!is_expired(Duration::zero(), ttl));
    assert!(!is_expired(ttl, ttl)); // boundary: exactly ttl is still fresh
    assert!(is_expired(Duration { nanos: ttl.nanos + 1_000_000 }, ttl));
    // Zero TTL disables expiry.
    assert!(!is_expired(Duration::from_secs(1 << 20), Duration::zero()));
}

#[test]
fn put_get_roundtrip_and_clear() {
    let mut cache = RedirectCache::default();
    assert_eq!(cache.get("root.sg.d1"), None);
    cache.put("root.sg.d1", ep(6667));
    assert_eq!(cache.get("root.sg.d1"), Some(ep(6667)));
    // Refresh overwrites.
    cache.put("root.sg.d1", ep(6668));
    assert_eq!(cache.get("root.sg.d1"), Some(ep(6668)));
    assert_eq!(cache.stats().size, 1);
    cache.clear();
    assert_eq!(cache.stats().size, 0);
    assert_eq!(cache.get("root.sg.d1"), None);
}

#[test]
fn expired_entries_are_removed_on_get() {
    let mut cache = RedirectCache::new(Duration::from_secs(300), 16);
    cache.put("root.sg.d1", ep(6667));
    // Fresh "now": hit.
    let now = cache.now();
    assert_eq!(cache.get_at("root.sg.d1", now), Some(ep(6667)));
    // A "now" past the TTL: miss, and the entry is gone afterwards.
    let past = later(cache.now(), Duration::from_secs(301));
    assert_eq!(cache.get_at("root.sg.d1", past), None);
    assert_eq!(cache.stats().size, 0);
}

#[test]
fn hints_live_exactly_as_long_as_the_ttl() {
    let mut cache = RedirectCache::new(Duration::from_secs(300), 16);
    let put = Instant { nanos: 5_000 };
    cache.put_at("d", ep(1), put);
    let edge = later(put, Duration::from_secs(300));
    assert_eq!(cache.get_at("d", edge), Some(ep(1)));
    // A clock that seems to run backwards expires nothing.
    assert_eq!(cache.get_at("d", Instant { nanos: 0 }), Some(ep(1)));
    assert_eq!(cache.get_at("d", Instant { nanos: edge.nanos + 1 }), None);
    assert_eq!(cache.get_at("d", put), None);
}

#[test]
fn zero_ttl_never_expires() {
    let mut cache = RedirectCache::new(Duration::zero(), 16);
    cache.put("root.sg.d1", ep(6667));
    let far_future = later(cache.now(), Duration::from_secs(1 << 20));
    assert_eq!(cache.get_at("root.sg.d1", far_future), Some(ep(6667)));
}

#[test]
fn eviction_drops_oldest_when_full() {
    let mut cache = RedirectCache::new(Duration::from_secs(300), 2);
    cache.put("d1", ep(1));
    cache.put("d2", ep(2));
    cache.put("d3", ep(3)); // evicts d1 (oldest insertion)
    assert_eq!(cache.get("d1"), None);
    assert_eq!(cache.get("d2"), Some(ep(2)));
    assert_eq!(cache.get("d3"), Some(ep(3)));
    assert_eq!(cache.stats().size, 2);

    // Refreshing an existing key does not evict.
    cache.put("d2", ep(22));
    assert_eq!(cache.get("d2"), Some(ep(22)));
    assert_eq!(cache.get("d3"), Some(ep(3)));

    // A refreshed key counts as newer: next eviction takes d3.
    cache.put("d4", ep(4));
    assert_eq!(cache.get("d3"), None);
    assert_eq!(cache.get("d2"), Some(ep(22)));
    assert_eq!(cache.get("d4"), Some(ep(4)));
}

#[test]
fn zero_capacity_disables_cache() {
    let mut cache = RedirectCache::new(Duration::from_secs(300), 0);
    cache.put("d1", ep(1));
    assert_eq!(cache.get("d1"), None);
    assert_eq!(
        cache.stats(),
        RedirectCacheStats {
            size: 0,
            max_entries: 0,
            ttl: Duration::from_secs(300),
        }
    );
}

#[test]
fn hints_are_numbered() {
    let mut cache = RedirectCache::default();
    cache.put("d1", ep(1));
    cache.put("d2", ep(2));
    let now = cache.now();
    assert_eq!(cache.get_numbered_at("d1", now), Some((ep(1), 1)));
    assert_eq!(cache.get_numbered_at("d2", now), Some((ep(2), 2)));
    cache.resume_from(10);
    cache.resume_from(4); // never backwards
    cache.put("d1", ep(3));
    assert_eq!(cache.get_numbered_at("d1", now), Some((ep(3), 11)));
    assert_eq!(cache.last_seq(), 11);
}

fn status(code: i32) -> TSStatus {
    TSStatus::new(code)
}

fn tendpoint(ip: &str, port: i32) -> TEndPoint {
    TEndPoint::new(ip.to_string(), port)
}

#[test]
fn record_top_level_redirect_applies_to_all_devices() {
    let mut cache = RedirectCache::default();
    let mut s = status(400);
    s.redirect_node = Some(tendpoint("10.0.0.9", 6667));
    record_redirects(&mut cache, &["root.sg.d1", "root.sg.d2"], &s);
    assert_eq!(
        cache.get("root.sg.d1"),
        Some(Endpoint::new("10.0.0.9", 6667))
    );
    assert_eq!(
        cache.get("root.sg.d2"),
        Some(Endpoint::new("10.0.0.9", 6667))
    );
}

#[test]
fn record_sub_status_redirects_per_device() {
    let mut cache = RedirectCache::default();
    let mut ok = status(200);
    ok.redirect_node = Some(tendpoint("10.0.0.7", 6667));
    let plain = status(200);
    let mut s = status(302);
    s.sub_status = Some(vec![Box::new(ok), Box::new(plain)]);
    record_redirects(&mut cache, &["d1", "d2"], &s);
    assert_eq!(cache.get("d1"), Some(Endpoint::new("10.0.0.7", 6667)));
    assert_eq!(cache.get("d2"), None);
}

#[test]
fn record_ignores_absent_and_invalid_redirect_nodes() {
    let mut cache = RedirectCache::default();
    record_redirects(&mut cache, &["d1"], &status(200));
    let mut bad_port = status(400);
    bad_port.redirect_node = Some(tendpoint("10.0.0.9", 70000));
    record_redirects(&mut cache, &["d1"], &bad_port);
    let mut empty_ip = status(400);
    empty_ip.redirect_node = Some(tendpoint("", 6667));
    record_redirects(&mut cache, &["d1"], &empty_ip);
    assert_eq!(cache.stats().size, 0);
}

#[test]
fn unpaired_sub_statuses_leave_the_word_to_the_status() {
    let mut cache = RedirectCache::default();
    let mut s = status(400);
    s.redirect_node = Some(tendpoint("10.0.0.9", 6667));
    s.sub_status = Some(vec![Box::new(status(200))]);
    record_redirects(&mut cache, &["d1", "d2"], &s);
    assert_eq!(cache.stats().size, 2);
    // Paired, but without nodes below: the top-level node does not apply.
    cache.clear();
    s.sub_status = Some(vec![Box::new(status(200)), Box::new(status(200))]);
    record_redirects(&mut cache, &["d1", "d2"], &s);
    assert_eq!(cache.stats().size, 0);
}

#[test]
fn redirect_nodes_are_checked() {
    assert_eq!(endpoint_from_redirect(&tendpoint("h", 0)), None);
    assert_eq!(endpoint_from_redirect(&tendpoint("h", -1)), None);
    assert_eq!(endpoint_from_redirect(&tendpoint("h", 65536)), None);
    assert_eq!(
        endpoint_from_redirect(&tendpoint("h", 65535)),
        Some(Endpoint::new("h", 65535))
    );
}

#[test]
fn clocks_count_from_their_start() {
    let clock = Clock::start();
    let first = clock.now();
    // Well under a minute passes between two lines.
    assert!(first.nanos < Duration::from_secs(60).nanos);
    let mut second = clock.now();
    while second == first {
        second = clock.now();
    }
    assert!(second.nanos > first.nanos);
    assert!(second.nanos <= MAX_DURATION_NANOS);

    let cache = RedirectCache::default();
    assert!(cache.now().nanos < Duration::from_secs(60).nanos);
}
