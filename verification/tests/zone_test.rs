use cern_dns::loader::{extract_origin, has_include, is_zone_file, parse_zone_str};
use cern_dns::lookup::resolve_query;
use cern_dns::name::DnsName;
use cern_dns::types::{Record, RecordData, RecordType, ResponseCode};
use cern_dns::zone::Zone;
use cern_dns::zone_store::ZoneStore;

fn n(s: &str) -> DnsName {
    DnsName::from_ascii(s).unwrap()
}

const LOADER_ZONE: &str = r#"
$ORIGIN example.com.
$TTL 3600

@   IN  SOA ns1.example.com. admin.example.com. (
            2024010101  ; serial
            3600        ; refresh
            900         ; retry
            604800      ; expire
            86400       ; minimum TTL
        )

    IN  NS  ns1.example.com.
    IN  NS  ns2.example.com.

    IN  A   192.0.2.1

ns1 IN  A   192.0.2.10
ns2 IN  A   192.0.2.11

www IN  A   192.0.2.100
    IN  A   192.0.2.101

mail    IN  A       192.0.2.50
@       IN  MX  10  mail.example.com.

ftp IN  CNAME   www.example.com.

*.wild  IN  A   192.0.2.200

info    IN  TXT "Example zone for testing"
"#;

const LOOKUP_ZONE: &str = r#"
$ORIGIN example.com.
$TTL 3600

@   IN  SOA ns1.example.com. admin.example.com. (
            2024010101 3600 900 604800 86400 )

    IN  NS  ns1.example.com.
    IN  NS  ns2.example.com.
    IN  A   192.0.2.1

ns1 IN  A   192.0.2.10
ns2 IN  A   192.0.2.11

www IN  A   192.0.2.100
    IN  A   192.0.2.101

mail    IN  A       192.0.2.50
@       IN  MX  10  mail.example.com.

ftp IN  CNAME   www.example.com.

alias IN CNAME ftp.example.com.

*.wild  IN  A   192.0.2.200

info    IN  TXT "Example zone for testing"
"#;

const STORE_ZONE: &str = r#"
$ORIGIN example.com.
$TTL 3600
@   IN  SOA ns1.example.com. admin.example.com. (
            2024010101 3600 900 604800 86400 )
    IN  NS  ns1.example.com.
    IN  A   192.0.2.1
ns1 IN  A   192.0.2.10
www IN  A   192.0.2.100
"#;

#[test]
fn test_parse_zone() {
    let zone = parse_zone_str(LOADER_ZONE, "example.com.zone").unwrap();
    assert!(zone.origin.same_name(&n("example.com.")));
    assert_eq!(zone.serial(), 2024010101);
    assert!(zone.record_count() > 5);
}

#[test]
fn test_lookup_after_load() {
    let zone = parse_zone_str(LOADER_ZONE, "example.com.zone").unwrap();

    let www = n("www.example.com.");
    let a_records = zone.lookup_exact(&www, RecordType::A);
    assert!(a_records.is_some());
    assert_eq!(a_records.unwrap().len(), 2);

    let ftp = n("ftp.example.com.");
    let cname_records = zone.lookup_exact(&ftp, RecordType::CNAME);
    assert!(cname_records.is_some());
}

#[test]
fn test_missing_soa() {
    let content = r#"
$ORIGIN example.com.
$TTL 3600
www IN A 192.0.2.1
"#;
    let result = parse_zone_str(content, "test.zone");
    assert!(result.is_err());
}

#[test]
fn test_wildcard_in_zone() {
    let zone = parse_zone_str(LOADER_ZONE, "example.com.zone").unwrap();
    let wild = n("*.wild.example.com.");
    assert!(zone.name_exists(&wild));
}

#[test]
fn origin_from_file_name() {
    let content = "@ IN SOA ns1 admin 7 3600 900 604800 86400\n";
    let zone = parse_zone_str(content, "/zones/test.org.zone").unwrap();
    assert!(zone.origin.same_name(&n("test.org.")));
    assert_eq!(zone.serial(), 7);
}

#[test]
fn origin_directive_read() {
    let o = extract_origin("; comment\n  $ORIGIN  cern.ch. ; zone\nwww IN A 1.2.3.4\n").unwrap();
    assert!(o.same_name(&n("cern.ch.")));
    assert!(extract_origin("www IN A 1.2.3.4\n").is_none());
    assert!(extract_origin("$ORIGIN ;;;\n").is_none());
}

#[test]
fn origin_directive_with_unicode_spaces() {
    let o = extract_origin("\u{3000}$ORIGIN\u{00A0}cern.ch.\u{2003}more\r\n").unwrap();
    assert!(o.same_name(&n("cern.ch.")));
    let o = extract_origin("$ORIGIN\texample.org.;\n").unwrap();
    assert!(o.same_name(&n("example.org.")));
}

fn load_test_zone() -> Zone {
    parse_zone_str(LOOKUP_ZONE, "example.com.zone").unwrap()
}

#[test]
fn test_exact_a_record() {
    let zone = load_test_zone();
    let qname = n("www.example.com.");
    let resp = resolve_query(&zone, &qname, RecordType::A);
    assert_eq!(resp.response_code, ResponseCode::NoError);
    assert_eq!(resp.answers.len(), 2);
}

#[test]
fn test_apex_a_record() {
    let zone = load_test_zone();
    let resp = resolve_query(&zone, &zone.origin, RecordType::A);
    assert_eq!(resp.response_code, ResponseCode::NoError);
    assert_eq!(resp.answers.len(), 1);
}

#[test]
fn test_cname_chase() {
    let zone = load_test_zone();
    let qname = n("ftp.example.com.");
    let resp = resolve_query(&zone, &qname, RecordType::A);
    assert_eq!(resp.response_code, ResponseCode::NoError);
    assert!(resp.answers.len() >= 2);
}

#[test]
fn test_cname_chain() {
    let zone = load_test_zone();
    let qname = n("alias.example.com.");
    let resp = resolve_query(&zone, &qname, RecordType::A);
    assert_eq!(resp.response_code, ResponseCode::NoError);
    assert!(resp.answers.len() >= 3);
}

#[test]
fn lookup_test_nxdomain() {
    let zone = load_test_zone();
    let qname = n("nonexistent.example.com.");
    let resp = resolve_query(&zone, &qname, RecordType::A);
    assert_eq!(resp.response_code, ResponseCode::NXDomain);
    assert!(resp.answers.is_empty());
    assert!(!resp.authority.is_empty());
}

#[test]
fn lookup_test_nodata() {
    let zone = load_test_zone();
    let qname = n("www.example.com.");
    let resp = resolve_query(&zone, &qname, RecordType::MX);
    assert_eq!(resp.response_code, ResponseCode::NoError);
    assert!(resp.answers.is_empty());
    assert!(!resp.authority.is_empty());
}

#[test]
fn lookup_test_wildcard() {
    let zone = load_test_zone();
    let qname = n("anything.wild.example.com.");
    let resp = resolve_query(&zone, &qname, RecordType::A);
    assert_eq!(resp.response_code, ResponseCode::NoError);
    assert_eq!(resp.answers.len(), 1);
    assert!(resp.answers[0].name.same_name(&qname));
}

#[test]
fn test_wildcard_nodata() {
    let zone = load_test_zone();
    let qname = n("anything.wild.example.com.");
    let resp = resolve_query(&zone, &qname, RecordType::MX);
    assert_eq!(resp.response_code, ResponseCode::NoError);
    assert!(resp.answers.is_empty());
}

#[test]
fn test_mx_with_additional() {
    let zone = load_test_zone();
    let resp = resolve_query(&zone, &zone.origin, RecordType::MX);
    assert_eq!(resp.response_code, ResponseCode::NoError);
    assert!(!resp.answers.is_empty());
    assert!(!resp.additional.is_empty());
}

#[test]
fn test_txt_record() {
    let zone = load_test_zone();
    let qname = n("info.example.com.");
    let resp = resolve_query(&zone, &qname, RecordType::TXT);
    assert_eq!(resp.response_code, ResponseCode::NoError);
    assert_eq!(resp.answers.len(), 1);
}

#[test]
fn delegation_gives_referral() {
    let content = r#"
$ORIGIN example.com.
@ IN SOA ns1.example.com. admin.example.com. 1 3600 900 604800 86400
  IN NS ns1.example.com.
sub IN NS ns.sub.example.com.
ns.sub IN A 192.0.2.53
"#;
    let zone = parse_zone_str(content, "example.com.zone").unwrap();
    let resp = resolve_query(&zone, &n("www.sub.example.com."), RecordType::A);
    assert_eq!(resp.response_code, ResponseCode::NoError);
    assert!(resp.answers.is_empty());
    assert_eq!(resp.authority.len(), 1);
    assert_eq!(resp.additional.len(), 1);
}

fn test_zone() -> Zone {
    let origin = n("example.com.");
    let soa = Record::from_rdata(
        origin.clone(),
        3600,
        RecordData::SOA {
            mname: n("ns1.example.com."),
            rname: n("admin.example.com."),
            serial: 2024010101,
            refresh: 3600,
            retry: 900,
            expire: 604800,
            minimum: 86400,
        },
    );
    let mut zone = Zone::new(origin.clone(), soa);
    zone.add_record(Record::from_rdata(origin.clone(), 3600, RecordData::NS(n("ns1.example.com."))));
    zone.add_record(Record::from_rdata(origin.clone(), 300, RecordData::A(0x01020304)));
    let www = n("www.example.com.");
    zone.add_record(Record::from_rdata(www.clone(), 300, RecordData::A(0x01020305)));
    zone.add_record(Record::from_rdata(n("*.wild.example.com."), 300, RecordData::A(0x010203c8)));
    zone.add_record(Record::from_rdata(n("alias.example.com."), 300, RecordData::CNAME(www)));
    zone
}

#[test]
fn test_exact_lookup() {
    let zone = test_zone();
    let www = n("www.example.com.");
    let result = zone.lookup_exact(&www, RecordType::A);
    assert!(result.is_some());
    assert_eq!(result.unwrap().len(), 1);
}

#[test]
fn test_name_exists() {
    let zone = test_zone();
    assert!(zone.name_exists(&n("www.example.com.")));
    assert!(!zone.name_exists(&n("nonexistent.example.com.")));
}

#[test]
fn zone_test_wildcard() {
    let zone = test_zone();
    let qname = n("foo.wild.example.com.");
    let result = zone.find_wildcard(&qname);
    assert!(result.is_some());
    let sets = result.unwrap();
    assert!(sets.iter().any(|s| s.rtype == RecordType::A));
}

#[test]
fn test_no_wildcard_exact() {
    let zone = test_zone();
    let qname = n("nonexistent.example.com.");
    let result = zone.find_wildcard(&qname);
    assert!(result.is_none());
}

#[test]
fn test_record_count() {
    let zone = test_zone();
    assert!(zone.record_count() > 0);
}

#[test]
fn test_serial() {
    let zone = test_zone();
    assert_eq!(zone.serial(), 2024010101);
}

#[test]
fn add_record_is_read_back() {
    let mut zone = test_zone();
    zone.add_record(Record::from_rdata(n("WWW.example.com."), 300, RecordData::A(0x01020306)));
    assert_eq!(zone.lookup_exact(&n("www.example.com."), RecordType::A).unwrap().len(), 2);
    assert_eq!(zone.record_count(), 7);
}

fn test_store() -> ZoneStore {
    let zone = parse_zone_str(STORE_ZONE, "example.com.zone").unwrap();
    ZoneStore::new(vec![zone])
}

#[test]
fn test_find_zone() {
    let store = test_store();
    assert!(store.find_zone(&n("www.example.com.")).is_some());
    assert!(store.find_zone(&n("www.other.com.")).is_none());
}

#[test]
fn test_is_authoritative() {
    let store = test_store();
    assert!(store.is_authoritative_for(&n("www.example.com.")));
    assert!(!store.is_authoritative_for(&n("www.other.com.")));
}

#[test]
fn test_lookup() {
    let store = test_store();
    let resp = store.lookup(&n("www.example.com."), RecordType::A).unwrap();
    assert_eq!(resp.response_code, ResponseCode::NoError);
    assert_eq!(resp.answers.len(), 1);
}

#[test]
fn test_zone_count() {
    let store = test_store();
    assert_eq!(store.zone_count(), 1);
}

#[test]
fn test_zone_names() {
    let store = test_store();
    let names = store.zone_names();
    assert_eq!(names.len(), 1);
    assert!(names[0].same_name(&n("example.com.")));
}

const RELOAD_ZONE_V1: &str = r#"
$ORIGIN example.com.
$TTL 3600
@   IN  SOA ns1.example.com. admin.example.com. (
            2024010101 3600 900 604800 86400 )
    IN  NS  ns1.example.com.
ns1 IN  A   192.0.2.10
www IN  A   192.0.2.100
"#;

const RELOAD_ZONE_V2: &str = r#"
$ORIGIN example.com.
$TTL 3600
@   IN  SOA ns1.example.com. admin.example.com. (
            2024010102 3600 900 604800 86400 )
    IN  NS  ns1.example.com.
ns1 IN  A   192.0.2.10
www IN  A   192.0.2.200
new IN  A   192.0.2.201
"#;

#[test]
fn test_zone_store_query_consistency() {
    let store = ZoneStore::new(vec![parse_zone_str(RELOAD_ZONE_V1, "example.com.zone").unwrap()]);
    for _ in 0..100 {
        let resp = store.lookup(&n("www.example.com."), RecordType::A).unwrap();
        assert_eq!(resp.response_code, ResponseCode::NoError);
        assert_eq!(resp.answers.len(), 1);
    }
}

#[test]
fn test_zone_store_multiple_zones() {
    let zone1 = parse_zone_str(RELOAD_ZONE_V1, "example.com.zone").unwrap();
    let zone2_content = r#"
$ORIGIN other.com.
$TTL 3600
@   IN  SOA ns1.other.com. admin.other.com. (
            2024010101 3600 900 604800 86400 )
    IN  NS  ns1.other.com.
www IN  A   10.0.0.1
"#;
    let zone2 = parse_zone_str(zone2_content, "other.com.zone").unwrap();
    let store = ZoneStore::new(vec![zone1, zone2]);
    assert_eq!(store.zone_count(), 2);
    assert!(store.is_authoritative_for(&n("www.example.com.")));
    assert!(store.is_authoritative_for(&n("www.other.com.")));
    assert!(!store.is_authoritative_for(&n("www.unknown.com.")));
}

#[test]
fn test_serial_number_tracking() {
    let v1 = parse_zone_str(RELOAD_ZONE_V1, "example.com.zone").unwrap();
    let v2 = parse_zone_str(RELOAD_ZONE_V2, "example.com.zone").unwrap();
    assert_eq!(v1.serial(), 2024010101);
    assert_eq!(v2.serial(), 2024010102);
    assert!(v2.serial() > v1.serial());
}

#[test]
fn swap_zone_is_read_back() {
    let mut store = ZoneStore::new(vec![parse_zone_str(RELOAD_ZONE_V1, "example.com.zone").unwrap()]);
    store.swap_zone(parse_zone_str(RELOAD_ZONE_V2, "example.com.zone").unwrap());
    assert_eq!(store.zone_count(), 1);
    assert_eq!(store.get_zone(&n("example.com.")).unwrap().serial(), 2024010102);
    let resp = store.lookup(&n("new.example.com."), RecordType::A).unwrap();
    assert_eq!(resp.answers.len(), 1);
}

#[test]
fn zone_file_extensions() {
    assert!(is_zone_file("zone"));
    assert!(is_zone_file("db"));
    assert!(!is_zone_file("txt"));
    assert!(!is_zone_file("ZONE"));
    assert!(!is_zone_file(""));
}

#[test]
fn include_directive_is_recognised() {
    assert!(has_include(b"$ORIGIN a.\n$INCLUDE /etc/zone\n"));
    assert!(!has_include(b"$ORIGIN a.\n@ IN SOA a. b. 1 2 3 4 5\n"));
    assert!(!has_include(b"$INCLUD"));
}
