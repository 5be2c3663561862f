use leaf::{prefer_family, DnsCache, IpAddress, QueryType};

#[test]
fn cache_hits_until_expiry() {
    let mut c = DnsCache::new();
    assert!(c.get(&"a.example".to_owned(), QueryType::A, 0).is_none());
    c.put("a.example".to_owned(), QueryType::A, vec![IpAddress::V4(0x01010101)], 1_000);
    assert_eq!(
        c.get(&"a.example".to_owned(), QueryType::A, 500).cloned(),
        Some(vec![IpAddress::V4(0x01010101)])
    );
    // the entry is per query type
    assert!(c.get(&"a.example".to_owned(), QueryType::Aaaa, 500).is_none());
    // past the expiry the resolver must be asked again
    assert!(c.get(&"a.example".to_owned(), QueryType::A, 1_001).is_none());
}

#[test]
fn put_replaces_the_entry_for_the_key() {
    let mut c = DnsCache::new();
    c.put("a.example".to_owned(), QueryType::A, vec![IpAddress::V4(1)], 100);
    c.put("a.example".to_owned(), QueryType::A, vec![IpAddress::V4(2)], 200);
    assert_eq!(
        c.get(&"a.example".to_owned(), QueryType::A, 150).cloned(),
        Some(vec![IpAddress::V4(2)])
    );
    assert_eq!(c.entries.len(), 1);
}

#[test]
fn hosts_override_wins_over_the_cache() {
    let mut c = DnsCache::new();
    c.put("pin.example".to_owned(), QueryType::A, vec![IpAddress::V4(9)], 1_000);
    c.add_host_override("pin.example".to_owned(), vec![IpAddress::V4(0x7F000001)]);
    assert_eq!(
        c.get(&"pin.example".to_owned(), QueryType::A, 0).cloned(),
        Some(vec![IpAddress::V4(0x7F000001)])
    );
}

#[test]
fn expired_entries_are_evicted() {
    let mut c = DnsCache::new();
    c.put("a.example".to_owned(), QueryType::A, vec![IpAddress::V4(1)], 100);
    c.put("b.example".to_owned(), QueryType::A, vec![IpAddress::V4(2)], 900);
    c.evict_expired(500);
    assert_eq!(c.entries.len(), 1);
    assert_eq!(c.entries[0].host, "b.example");
}

#[test]
fn family_preference_orders_answers() {
    let mixed = vec![
        IpAddress::V6(1),
        IpAddress::V4(10),
        IpAddress::V6(2),
        IpAddress::V4(20),
    ];
    assert_eq!(
        prefer_family(&mixed, true),
        vec![IpAddress::V4(10), IpAddress::V4(20), IpAddress::V6(1), IpAddress::V6(2)]
    );
    assert_eq!(
        prefer_family(&mixed, false),
        vec![IpAddress::V6(1), IpAddress::V6(2), IpAddress::V4(10), IpAddress::V4(20)]
    );
}
