use cern_dns::cache::DnsCache;
use cern_dns::name::DnsName;
use cern_dns::types::{Record, RecordData, RecordType, ResponseCode};

fn n(s: &str) -> DnsName {
    DnsName::from_ascii(s).unwrap()
}

fn ipv4(a: u8, b: u8, c: u8, d: u8) -> u32 {
    u32::from_be_bytes([a, b, c, d])
}

fn make_record(name: &str, ip: u32) -> Record {
    Record::from_rdata(n(name), 300, RecordData::A(ip))
}

#[test]
fn test_insert_and_get() {
    let mut cache = DnsCache::new(1000, 30, 86400, 300);
    let name = n("example.com.");
    let records = vec![make_record("example.com.", ipv4(1, 2, 3, 4))];

    cache.insert(&name, RecordType::A, records.clone(), 300);

    let entry = cache.get(&name, RecordType::A).unwrap();
    assert_eq!(entry.records.len(), 1);
    assert_eq!(entry.response_code, ResponseCode::NoError);
    assert!(entry.remaining_ttl() > 0);
}

#[test]
fn test_miss() {
    let mut cache = DnsCache::new(1000, 30, 86400, 300);
    let name = n("nonexistent.com.");
    assert!(cache.get(&name, RecordType::A).is_none());
}

#[test]
fn test_negative_caching() {
    let mut cache = DnsCache::new(1000, 30, 86400, 300);
    let name = n("nxdomain.com.");

    cache.insert_negative(&name, RecordType::A, ResponseCode::NXDomain);

    let entry = cache.get(&name, RecordType::A).unwrap();
    assert_eq!(entry.response_code, ResponseCode::NXDomain);
    assert!(entry.records.is_empty());
}

#[test]
fn test_min_ttl() {
    let mut cache = DnsCache::new(1000, 60, 86400, 300);
    let name = n("example.com.");
    let records = vec![make_record("example.com.", ipv4(1, 2, 3, 4))];

    cache.insert(&name, RecordType::A, records, 5);

    let entry = cache.get(&name, RecordType::A).unwrap();
    assert!(entry.original_ttl >= 60);
}

#[test]
fn test_flush_all() {
    let mut cache = DnsCache::new(1000, 30, 86400, 300);
    let name = n("example.com.");
    let records = vec![make_record("example.com.", ipv4(1, 2, 3, 4))];
    cache.insert(&name, RecordType::A, records, 300);

    cache.flush_all();
    assert!(cache.get(&name, RecordType::A).is_none());
}

#[test]
fn test_flush_name() {
    let mut cache = DnsCache::new(1000, 30, 86400, 300);
    let name = n("example.com.");
    let other = n("other.com.");
    cache.insert(&name, RecordType::A, vec![make_record("example.com.", ipv4(1, 2, 3, 4))], 300);
    cache.insert(&other, RecordType::A, vec![make_record("other.com.", ipv4(5, 6, 7, 8))], 300);

    cache.flush_name(&name);

    assert!(cache.get(&name, RecordType::A).is_none());
    assert!(cache.get(&other, RecordType::A).is_some());
}

#[test]
fn test_stats() {
    let mut cache = DnsCache::new(1000, 30, 86400, 300);
    let name = n("example.com.");
    cache.insert(&name, RecordType::A, vec![make_record("example.com.", ipv4(1, 2, 3, 4))], 300);

    let _ = cache.get(&name, RecordType::A);
    let _ = cache.get(&n("miss.com."), RecordType::A);

    let stats = cache.stats();
    assert_eq!(stats.hits, 1);
    assert_eq!(stats.misses, 1);
    assert!(stats.size <= 1);
}

#[test]
fn test_cache_insert_and_get() {
    let mut cache = DnsCache::new(10000, 30, 86400, 300);
    let name = n("test.example.com.");
    let records = vec![make_record("test.example.com.", ipv4(10, 0, 0, 1))];

    cache.insert(&name, RecordType::A, records.clone(), 3600);

    let entry = cache.get(&name, RecordType::A).unwrap();
    assert_eq!(entry.records.len(), 1);
    assert!(entry.remaining_ttl() > 0);
    assert!(!entry.is_expired());
}

#[test]
fn test_cache_negative_entry() {
    let mut cache = DnsCache::new(10000, 30, 86400, 300);
    let name = n("nx.example.com.");

    cache.insert_negative(&name, RecordType::A, ResponseCode::NXDomain);

    let entry = cache.get(&name, RecordType::A).unwrap();
    assert_eq!(entry.response_code, ResponseCode::NXDomain);
    assert!(entry.records.is_empty());
}

#[test]
fn test_cache_flush_all() {
    let mut cache = DnsCache::new(10000, 30, 86400, 300);
    let name1 = n("a.example.com.");
    let name2 = n("b.example.com.");
    cache.insert(&name1, RecordType::A, vec![make_record("a.example.com.", ipv4(1, 1, 1, 1))], 300);
    cache.insert(&name2, RecordType::A, vec![make_record("b.example.com.", ipv4(2, 2, 2, 2))], 300);

    cache.flush_all();

    assert!(cache.get(&name1, RecordType::A).is_none());
    assert!(cache.get(&name2, RecordType::A).is_none());
}

#[test]
fn test_cache_flush_name() {
    let mut cache = DnsCache::new(10000, 30, 86400, 300);
    let name1 = n("a.example.com.");
    let name2 = n("b.example.com.");
    cache.insert(&name1, RecordType::A, vec![make_record("a.example.com.", ipv4(1, 1, 1, 1))], 300);
    cache.insert(&name2, RecordType::A, vec![make_record("b.example.com.", ipv4(2, 2, 2, 2))], 300);

    cache.flush_name(&name1);

    assert!(cache.get(&name1, RecordType::A).is_none());
    assert!(cache.get(&name2, RecordType::A).is_some());
}

#[test]
fn test_cache_ttl_clamping() {
    let mut cache = DnsCache::new(10000, 60, 3600, 300);
    let name = n("test.example.com.");
    cache.insert(&name, RecordType::A, vec![make_record("test.example.com.", ipv4(1, 2, 3, 4))], 5);

    let entry = cache.get(&name, RecordType::A).unwrap();
    assert!(entry.original_ttl >= 60, "TTL should be clamped to min");
}

#[test]
fn test_cache_stats() {
    let mut cache = DnsCache::new(10000, 30, 86400, 300);
    let name = n("test.example.com.");
    cache.insert(&name, RecordType::A, vec![make_record("test.example.com.", ipv4(1, 2, 3, 4))], 300);

    let _ = cache.get(&name, RecordType::A);
    let _ = cache.get(&n("miss.com."), RecordType::A);
    let _ = cache.get(&n("miss2.com."), RecordType::A);

    let stats = cache.stats();
    assert_eq!(stats.hits, 1);
    assert_eq!(stats.misses, 2);
}

#[test]
fn test_cache_different_types() {
    let mut cache = DnsCache::new(10000, 30, 86400, 300);
    let name = n("test.example.com.");
    cache.insert(&name, RecordType::A, vec![make_record("test.example.com.", ipv4(1, 2, 3, 4))], 300);

    assert!(cache.get(&name, RecordType::A).is_some());
    assert!(cache.get(&name, RecordType::AAAA).is_none());
}

#[test]
fn ttl_clamped_to_max_and_counts_down() {
    let mut cache = DnsCache::new(100, 30, 3600, 300);
    let name = n("long.example.com.");
    cache.insert_at(&name, RecordType::A, vec![make_record("long.example.com.", ipv4(9, 9, 9, 9))], 100000, 1000);
    let entry = cache.get_at(&name, RecordType::A, 1000).unwrap();
    assert_eq!(entry.original_ttl, 3600);
    assert_eq!(entry.remaining_ttl_at(1100), 3500);
    assert_eq!(entry.remaining_ttl_at(5000), 0);
    assert_eq!(cache.clamp_ttl(5), 30);
    assert_eq!(cache.clamp_ttl(100), 100);
    assert_eq!(cache.clamp_ttl(u32::MAX), 3600);
}

#[test]
fn expired_entry_is_a_miss() {
    let mut cache = DnsCache::new(100, 30, 3600, 300);
    let name = n("short.example.com.");
    cache.insert_at(&name, RecordType::A, vec![make_record("short.example.com.", ipv4(9, 9, 9, 9))], 60, 10);
    assert!(cache.get_at(&name, RecordType::A, 69).is_some());
    assert!(cache.get_at(&name, RecordType::A, 70).is_none());
    let stats = cache.stats();
    assert_eq!(stats.hits, 1);
    assert_eq!(stats.misses, 1);
}

#[test]
fn negative_ttl_uses_configured_value() {
    let mut cache = DnsCache::new(100, 30, 3600, 300);
    let name = n("gone.example.com.");
    cache.insert_negative_at(&name, RecordType::AAAA, ResponseCode::NXDomain, 0);
    let entry = cache.get_at(&name, RecordType::AAAA, 0).unwrap();
    assert_eq!(entry.original_ttl, 300);
    assert!(cache.get_at(&name, RecordType::AAAA, 300).is_none());
}

#[test]
fn names_match_without_case() {
    let mut cache = DnsCache::new(100, 30, 3600, 300);
    cache.insert(&n("Mixed.Example.COM."), RecordType::A, vec![make_record("mixed.example.com.", ipv4(1, 1, 1, 1))], 300);
    assert!(cache.get(&n("mixed.example.com."), RecordType::A).is_some());
}

#[test]
fn least_recently_used_entry_is_evicted() {
    let mut cache = DnsCache::new(2, 30, 3600, 300);
    let (a, b, c) = (n("a.example.com."), n("b.example.com."), n("c.example.com."));
    cache.insert_at(&a, RecordType::A, vec![make_record("a.example.com.", 1)], 300, 0);
    cache.insert_at(&b, RecordType::A, vec![make_record("b.example.com.", 2)], 300, 0);
    assert!(cache.get_at(&a, RecordType::A, 1).is_some());
    cache.insert_at(&c, RecordType::A, vec![make_record("c.example.com.", 3)], 300, 2);
    assert_eq!(cache.stats().size, 2);
    assert!(cache.get_at(&b, RecordType::A, 3).is_none());
    assert!(cache.get_at(&a, RecordType::A, 3).is_some());
    assert!(cache.get_at(&c, RecordType::A, 3).is_some());
}

#[test]
fn flush_name_removes_every_type() {
    let mut cache = DnsCache::new(1000, 30, 86400, 300);
    let name = n("example.com.");
    cache.insert(&name, RecordType::A, vec![make_record("example.com.", ipv4(1, 2, 3, 4))], 300);
    cache.insert_negative(&name, RecordType::DS, ResponseCode::NoError);
    cache.insert_negative(&name, RecordType::CAA, ResponseCode::NoError);
    cache.insert_negative(&n("b.example.com."), RecordType::DS, ResponseCode::NoError);
    cache.flush_name(&n("EXAMPLE.com."));
    assert!(cache.get(&name, RecordType::A).is_none());
    assert!(cache.get(&name, RecordType::DS).is_none());
    assert!(cache.get(&name, RecordType::CAA).is_none());
    assert!(cache.get(&n("b.example.com."), RecordType::DS).is_some());
}
