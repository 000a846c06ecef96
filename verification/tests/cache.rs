use echoip::cache::Cache;
use echoip::geo::Coordinate;
use echoip::ip::{parse_ip, IpAddress};
use echoip::response::Response;

fn make_response(ip: IpAddress) -> Response {
    Response {
        ip,
        ip_decimal: 0,
        country: String::new(),
        country_iso: String::new(),
        country_eu: false,
        region_name: String::new(),
        region_code: String::new(),
        metro_code: 0,
        zip_code: String::new(),
        city: String::new(),
        latitude: Coordinate::zero(),
        longitude: Coordinate::zero(),
        time_zone: String::new(),
        asn: String::new(),
        asn_org: String::new(),
        hostname: String::new(),
        user_agent: None,
    }
}

fn ip(s: &str) -> IpAddress {
    parse_ip(s).unwrap()
}

#[test]
fn test_cache_capacity() {
    let tests = vec![
        (1usize, 0usize, 0usize, 0u64),
        (1, 2, 1, 0),
        (2, 2, 2, 0),
        (3, 2, 2, 1),
        (10, 5, 5, 5),
    ];

    for (add_count, capacity, expected_size, expected_evictions) in tests {
        let mut cache = Cache::new(capacity);
        let mut ips = Vec::new();
        for i in 0..add_count {
            let addr = ip(&format!("192.0.2.{i}"));
            ips.push(addr);
            cache.set(addr, make_response(addr));
        }

        let stats = cache.stats();
        let actual_size = if capacity == 0 { 0 } else { stats.size };
        assert_eq!(
            actual_size, expected_size,
            "size mismatch for add={add_count} cap={capacity}"
        );
        assert_eq!(
            stats.evictions, expected_evictions,
            "evictions mismatch for add={add_count} cap={capacity}"
        );

        if capacity > 0 && add_count > capacity && capacity == expected_size {
            let last = ips[add_count - 1];
            assert!(cache.get(last).is_some(), "last added should be in cache");
            let first = ips[0];
            assert!(cache.get(first).is_none(), "first added should be evicted");
        }
    }
}

#[test]
fn test_cache_duplicate() {
    let mut cache = Cache::new(10);
    let addr = ip("192.0.2.1");
    cache.set(addr, make_response(addr));
    cache.set(addr, make_response(addr));
    assert_eq!(cache.stats().size, 1);
}

#[test]
fn test_cache_resize() {
    let mut cache = Cache::new(10);
    for i in 1..=20u8 {
        let addr = ip(&format!("192.0.2.{i}"));
        cache.set(addr, make_response(addr));
    }
    assert_eq!(cache.stats().size, 10);
    assert_eq!(cache.stats().evictions, 10);

    cache.resize(5);
    assert_eq!(cache.stats().evictions, 0);

    let addr = ip("192.0.2.42");
    cache.set(addr, make_response(addr));
    assert_eq!(cache.stats().size, 5);
}

#[test]
fn test_lru_eviction_order() {
    let mut cache = Cache::new(3);
    let ip1 = ip("192.0.2.1");
    let ip2 = ip("192.0.2.2");
    let ip3 = ip("192.0.2.3");
    let ip4 = ip("192.0.2.4");

    cache.set(ip1, make_response(ip1));
    cache.set(ip2, make_response(ip2));
    cache.set(ip3, make_response(ip3));

    // Reading ip1 makes ip2 the least recently used entry.
    let _ = cache.get(ip1);

    // Adding ip4 drops ip2, not ip1.
    cache.set(ip4, make_response(ip4));

    assert!(cache.get(ip1).is_some(), "ip1 was accessed recently, should survive");
    assert!(cache.get(ip2).is_none(), "ip2 was LRU, should be evicted");
    assert!(cache.get(ip3).is_some(), "ip3 should survive");
    assert!(cache.get(ip4).is_some(), "ip4 was just added");
}

#[test]
fn get_after_set_returns_stored_response() {
    let mut cache = Cache::new(4);
    let addr = ip("2001:db8::1");
    let mut resp = make_response(addr);
    resp.city = "Bornyasherk".to_string();
    cache.set(addr, resp.clone());
    assert_eq!(cache.get(addr), Some(resp));
}

#[test]
fn disabled_cache_stores_nothing() {
    let mut cache = Cache::new(0);
    let addr = ip("127.0.0.1");
    cache.set(addr, make_response(addr));
    let stats = cache.stats();
    assert_eq!(stats.size, 0);
    assert_eq!(stats.capacity, 0);
    assert_eq!(stats.evictions, 0);
    assert!(cache.get(addr).is_none());
}

#[test]
fn resize_to_zero_keeps_one() {
    let mut cache = Cache::new(3);
    let a = ip("10.0.0.1");
    let b = ip("10.0.0.2");
    cache.set(a, make_response(a));
    cache.set(b, make_response(b));
    cache.resize(0);
    assert_eq!(cache.capacity(), 1);
    assert_eq!(cache.stats().size, 1);
    assert!(cache.get(a).is_none());
    assert!(cache.get(b).is_some());
    cache.check_consistent();
}

#[test]
fn resize_enables_disabled_cache() {
    let mut cache = Cache::new(0);
    cache.resize(2);
    let a = ip("10.0.0.1");
    cache.set(a, make_response(a));
    assert_eq!(cache.stats().size, 1);
    assert_eq!(cache.capacity(), 2);
}

#[test]
fn resize_keeps_most_recent() {
    let mut cache = Cache::new(3);
    let a = ip("10.0.0.1");
    let b = ip("10.0.0.2");
    let c = ip("10.0.0.3");
    cache.set(a, make_response(a));
    cache.set(b, make_response(b));
    cache.set(c, make_response(c));
    cache.resize(2);
    assert!(cache.get(a).is_none());
    assert!(cache.get(b).is_some());
    assert!(cache.get(c).is_some());
}

#[test]
fn clear_empties_but_keeps_capacity() {
    let mut cache = Cache::new(3);
    let a = ip("10.0.0.1");
    cache.set(a, make_response(a));
    cache.clear();
    assert_eq!(cache.stats().size, 0);
    assert_eq!(cache.capacity(), 3);
}

#[test]
fn ipv4_and_mapped_ipv6_are_distinct_keys() {
    let mut cache = Cache::new(3);
    let a = ip("1.2.3.4");
    let b = ip("::ffff:1.2.3.4");
    cache.set(a, make_response(a));
    assert!(cache.get(b).is_none());
}
