use cern_dns::name::{is_subdomain, labels_below, minimized_qname, parent, DnsName};
use cern_dns::types::{
    is_error, is_nxdomain, is_servfail, min_ttl, rrset_for_type, Record, RecordData, RecordType, ResponseCode,
};
use cern_dns::upstream::apply_0x20_encoding;

fn n(s: &str) -> DnsName {
    DnsName::from_ascii(s).unwrap()
}

#[test]
fn test_is_subdomain() {
    let zone = n("example.com.");
    let sub = n("www.example.com.");
    let other = n("www.other.com.");
    let exact = n("example.com.");

    assert!(is_subdomain(&sub, &zone));
    assert!(is_subdomain(&exact, &zone));
    assert!(!is_subdomain(&other, &zone));
    assert!(!is_subdomain(&zone, &sub));
}

#[test]
fn test_labels_below() {
    let zone = n("example.com.");
    let exact = n("example.com.");
    let sub = n("www.example.com.");
    let deep = n("a.b.example.com.");

    assert_eq!(labels_below(&exact, &zone), 0);
    assert_eq!(labels_below(&sub, &zone), 1);
    assert_eq!(labels_below(&deep, &zone), 2);
}

#[test]
fn test_parent() {
    let name = n("www.example.com.");
    let p = parent(&name).unwrap();
    assert!(p.same_name(&n("example.com.")));

    let p2 = parent(&p).unwrap();
    assert!(p2.same_name(&n("com.")));
}

#[test]
fn test_minimize_from_root() {
    let qname = n("www.example.com.");
    let zone_cut = DnsName::root();
    let minimized = minimized_qname(&qname, &zone_cut);
    assert!(minimized.same_name(&n("com.")));
}

#[test]
fn test_minimize_from_tld() {
    let qname = n("www.example.com.");
    let zone_cut = n("com.");
    let minimized = minimized_qname(&qname, &zone_cut);
    assert!(minimized.same_name(&n("example.com.")));
}

#[test]
fn test_minimize_at_target() {
    let qname = n("www.example.com.");
    let zone_cut = n("example.com.");
    let minimized = minimized_qname(&qname, &zone_cut);
    assert!(minimized.same_name(&n("www.example.com.")));
}

#[test]
fn test_minimize_already_minimal() {
    let qname = n("com.");
    let zone_cut = DnsName::root();
    let minimized = minimized_qname(&qname, &zone_cut);
    assert!(minimized.same_name(&n("com.")));
}

#[test]
fn test_minimize_deep() {
    let qname = n("a.b.c.d.example.com.");
    let zone_cut = n("com.");
    let minimized = minimized_qname(&qname, &zone_cut);
    assert!(minimized.same_name(&n("example.com.")));
}

#[test]
fn test_0x20_encoding() {
    let name = n("example.com.");
    let mixed = apply_0x20_encoding(&name);
    let lower = |d: &DnsName| d.labels.iter().map(|l| l.to_ascii_lowercase()).collect::<Vec<_>>();
    assert_eq!(lower(&name), lower(&mixed));
    assert!(mixed.same_name(&name));
}

#[test]
fn names_compare_without_case() {
    let a = n("WWW.Example.COM.");
    let b = n("www.example.com.");
    assert!(a.same_name(&b));
    assert_eq!(a.compare(&b), 0);
    assert_eq!(n("a.example.com.").compare(&n("b.example.com.")), -1);
    assert_eq!(n("example.com.").compare(&n("a.example.com.")), -1);
    assert_eq!(n("z.example.com.").compare(&n("a.example.org.")), -1);
}

#[test]
fn wildcard_labels_not_counted() {
    assert_eq!(n("*.wild.example.com.").num_labels(), 3);
    assert_eq!(n("wild.example.com.").num_labels(), 3);
    assert_eq!(DnsName::root().num_labels(), 0);
    assert!(parent(&DnsName::root()).is_none());
}

#[test]
fn name_read_from_text() {
    let name = n("www.Example.com.");
    assert_eq!(name.labels, vec![b"www".to_vec(), b"Example".to_vec(), b"com".to_vec()]);
    assert!(n(".").is_root());
    assert!(DnsName::from_ascii("a b.").is_none());
}

#[test]
fn test_rrset_for_type() {
    let name = n("example.com.");
    let a_record = Record::from_rdata(name.clone(), 300, RecordData::A(u32::from_be_bytes([1, 2, 3, 4])));
    let aaaa_record = Record::update0(name.clone(), 300, RecordType::AAAA);
    let records = vec![a_record, aaaa_record];
    let a_set = rrset_for_type(&records, RecordType::A);
    assert_eq!(a_set.len(), 1);
    assert_eq!(rrset_for_type(&records, RecordType::AAAA).len(), 1);
    assert_eq!(rrset_for_type(&records, RecordType::MX).len(), 0);
}

#[test]
fn smallest_ttl_of_records() {
    let name = n("example.com.");
    let records = vec![
        Record::from_rdata(name.clone(), 300, RecordData::A(1)),
        Record::from_rdata(name.clone(), 60, RecordData::A(2)),
        Record::from_rdata(name.clone(), 900, RecordData::A(3)),
    ];
    assert_eq!(min_ttl(&records), 60);
    assert_eq!(min_ttl(&Vec::new()), 0);
}

#[test]
fn response_code_classes() {
    assert!(!is_error(ResponseCode::NoError));
    assert!(is_error(ResponseCode::Refused));
    assert!(is_nxdomain(ResponseCode::NXDomain));
    assert!(!is_nxdomain(ResponseCode::ServFail));
    assert!(is_servfail(ResponseCode::ServFail));
    assert!(!is_servfail(ResponseCode::NoError));
}

#[test]
fn type_and_response_codes() {
    assert_eq!(RecordType::from_code(28), RecordType::AAAA);
    assert_eq!(RecordType::AAAA.code(), 28);
    assert_eq!(RecordType::from_code(65000), RecordType::Unknown(65000));
    assert_eq!(RecordType::CAA.code(), 257);
    assert_eq!(ResponseCode::from_code(3), ResponseCode::NXDomain);
    assert_eq!(ResponseCode::Refused.code(), 5);
    assert_eq!(ResponseCode::from_code(16), ResponseCode::Other(16));
}
