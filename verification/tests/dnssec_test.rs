use cern_dns::keys::{generate_key, parse_algorithm, Algorithm, DnssecKeyPair, KeyError};
use cern_dns::name::DnsName;
use cern_dns::nsec::{find_covering_nsec, find_nodata_nsec, generate_nsec_chain};
use cern_dns::signer::{rrsig_from_signing, sign_zone, SignError};
use cern_dns::types::{Dnskey, Record, RecordData, RecordType, Rrsig};
use cern_dns::validator::{extract_dnskeys, extract_rrsigs, validate_rrset, ValidationResult};
use cern_dns::zone::RRset;

fn n(s: &str) -> DnsName {
    DnsName::from_ascii(s).unwrap()
}

fn ipv4(a: u8, b: u8, c: u8, d: u8) -> u32 {
    u32::from_be_bytes([a, b, c, d])
}

fn make_a_record(name: &str, ip: u32) -> Record {
    Record::from_rdata(n(name), 300, RecordData::A(ip))
}

fn a_rrset(name: &str, ip: u32) -> RRset {
    RRset { name: n(name), rtype: RecordType::A, records: vec![make_a_record(name, ip)] }
}

fn key(algorithm: Algorithm, ksk: bool, secs: u64) -> DnssecKeyPair {
    generate_key(algorithm, &n("example.com."), ksk, secs).unwrap()
}

fn build_zone_records() -> Vec<RRset> {
    vec![
        a_rrset("example.com.", ipv4(192, 0, 2, 1)),
        a_rrset("www.example.com.", ipv4(192, 0, 2, 100)),
        a_rrset("mail.example.com.", ipv4(192, 0, 2, 200)),
    ]
}

fn nsec_next(rec: &Record) -> &DnsName {
    match &rec.data {
        RecordData::NSEC { next, .. } => next,
        _ => panic!("expected an NSEC record"),
    }
}

#[test]
fn test_generate_ecdsa_zsk() {
    let key = key(Algorithm::ECDSAP256SHA256, false, 86400);
    assert!(!key.is_ksk);
    assert_eq!(key.algorithm, Algorithm::ECDSAP256SHA256);
    assert!(key.key_tag > 0);
}

#[test]
fn test_generate_ecdsa_ksk() {
    let key = key(Algorithm::ECDSAP256SHA256, true, 86400);
    assert!(key.is_ksk);
    assert!(key.dnskey.secure_entry_point);
}

#[test]
fn test_generate_ed25519() {
    let key = key(Algorithm::ED25519, false, 86400);
    assert_eq!(key.algorithm, Algorithm::ED25519);
}

#[test]
fn test_parse_algorithm() {
    assert_eq!(parse_algorithm("ECDSAP256SHA256").unwrap(), Algorithm::ECDSAP256SHA256);
    assert_eq!(parse_algorithm("ED25519").unwrap(), Algorithm::ED25519);
    assert_eq!(parse_algorithm("13").unwrap(), Algorithm::ECDSAP256SHA256);
    assert!(parse_algorithm("UNKNOWN").is_err());
}

#[test]
fn algorithm_names_ignore_case() {
    assert_eq!(parse_algorithm("ed25519").unwrap(), Algorithm::ED25519);
    assert_eq!(parse_algorithm("rsasha256").unwrap(), Algorithm::RSASHA256);
    assert_eq!(parse_algorithm("8").unwrap(), Algorithm::RSASHA256);
    assert_eq!(parse_algorithm("15").unwrap(), Algorithm::ED25519);
    match parse_algorithm("dsa") {
        Err(KeyError::UnsupportedAlgorithm(s)) => assert_eq!(s, "dsa"),
        _ => panic!("dsa is not supported"),
    }
    assert_eq!(Algorithm::ECDSAP256SHA256.number(), 13);
    assert_eq!(Algorithm::ED25519.number(), 15);
}

#[test]
fn rsa_keys_are_not_generated() {
    assert!(matches!(
        generate_key(Algorithm::RSASHA256, &n("example.com."), false, 86400),
        Err(KeyError::UnsupportedAlgorithm(_))
    ));
}

#[test]
fn generated_keys_carry_their_dnskey() {
    let zsk = key(Algorithm::ED25519, false, 86400);
    assert!(zsk.dnskey.zone_key);
    // The signer's DNSKEY data carries the SEP flag whatever the key's role.
    assert!(zsk.dnskey.secure_entry_point);
    assert_eq!(zsk.dnskey.algorithm, 15);
    assert!(!zsk.dnskey.public_key.is_empty());
}

fn make_records() -> Vec<RRset> {
    vec![
        a_rrset("a.example.com.", ipv4(1, 2, 3, 4)),
        a_rrset("b.example.com.", ipv4(1, 2, 3, 4)),
        a_rrset("d.example.com.", ipv4(1, 2, 3, 4)),
    ]
}

#[test]
fn test_generate_nsec_chain() {
    let origin = n("example.com.");
    let records = make_records();
    let nsec_records = generate_nsec_chain(&records, &origin, 300);

    assert_eq!(nsec_records.len(), 3);
    assert!(nsec_records[0].name.same_name(&n("a.example.com.")));
    assert!(nsec_next(&nsec_records[0]).same_name(&n("b.example.com.")));
    assert!(nsec_next(&nsec_records[2]).same_name(&origin));
}

#[test]
fn test_find_covering_nsec() {
    let origin = n("example.com.");
    let nsec_records = generate_nsec_chain(&make_records(), &origin, 300);
    let covering = find_covering_nsec(&nsec_records, &n("c.example.com."));
    assert!(covering.is_some());
    assert!(covering.unwrap().name.same_name(&n("b.example.com.")));
}

#[test]
fn test_find_nodata_nsec() {
    let origin = n("example.com.");
    let nsec_records = generate_nsec_chain(&make_records(), &origin, 300);
    let qname = n("a.example.com.");
    assert!(find_nodata_nsec(&nsec_records, &qname, RecordType::AAAA).is_some());
    assert!(find_nodata_nsec(&nsec_records, &qname, RecordType::A).is_none());
}

#[test]
fn nsec_chain_orders_and_merges_owner_names() {
    let origin = n("example.com.");
    let mut records = vec![a_rrset("z.example.com.", 1), a_rrset("B.example.com.", 2)];
    records.push(RRset {
        name: n("b.example.com."),
        rtype: RecordType::TXT,
        records: vec![Record::from_rdata(n("b.example.com."), 300, RecordData::TXT(vec![b"hi".to_vec()]))],
    });
    let chain = generate_nsec_chain(&records, &origin, 60);
    assert_eq!(chain.len(), 2);
    assert!(chain[0].name.same_name(&n("b.example.com.")));
    assert!(chain[1].name.same_name(&n("z.example.com.")));
    assert_eq!(chain[0].ttl, 60);
    match &chain[0].data {
        RecordData::NSEC { types, .. } => {
            assert!(types.contains(&RecordType::A));
            assert!(types.contains(&RecordType::TXT));
            assert!(types.contains(&RecordType::NSEC));
            assert!(types.contains(&RecordType::RRSIG));
        },
        _ => panic!("expected NSEC"),
    }
    assert!(generate_nsec_chain(&Vec::new(), &origin, 60).is_empty());
}

#[test]
fn test_sign_zone() {
    let zsk = key(Algorithm::ECDSAP256SHA256, false, 86400);
    let ksk = key(Algorithm::ECDSAP256SHA256, true, 86400);
    let records = vec![a_rrset("www.example.com.", ipv4(1, 2, 3, 4))];
    let rrsigs = sign_zone(&records, &n("example.com."), &zsk, &ksk).unwrap();
    assert_eq!(rrsigs.len(), 1);
    match &rrsigs[0].data {
        RecordData::RRSIG(sig) => {
            assert_eq!(sig.type_covered, RecordType::A);
            assert_eq!(sig.algorithm, Algorithm::ECDSAP256SHA256.number());
            assert_eq!(sig.key_tag, zsk.key_tag);
        },
        _ => panic!("expected RRSIG record"),
    }
}

#[test]
fn test_sign_and_verify() {
    let zsk = key(Algorithm::ECDSAP256SHA256, false, 86400);
    let ksk = key(Algorithm::ECDSAP256SHA256, true, 86400);
    let name = n("www.example.com.");
    let a_record = make_a_record("www.example.com.", ipv4(1, 2, 3, 4));
    let records = vec![RRset { name: name.clone(), rtype: RecordType::A, records: vec![a_record.clone()] }];
    let rrsigs = sign_zone(&records, &n("example.com."), &zsk, &ksk).unwrap();
    let rrsig_records = extract_rrsigs(&rrsigs);
    let result = validate_rrset(&name, RecordType::A, &vec![a_record], &rrsig_records, &vec![zsk.dnskey.clone()]);
    assert_eq!(result, ValidationResult::Secure);
}

#[test]
fn test_no_rrsig_is_insecure() {
    let name = n("example.com.");
    let record = make_a_record("example.com.", ipv4(1, 2, 3, 4));
    let result = validate_rrset(&name, RecordType::A, &vec![record], &Vec::new(), &Vec::new());
    assert_eq!(result, ValidationResult::Insecure);
}

#[test]
fn test_sign_and_verify_zone_ecdsa() {
    let zsk = key(Algorithm::ECDSAP256SHA256, false, 86400 * 30);
    let ksk = key(Algorithm::ECDSAP256SHA256, true, 86400 * 365);
    let records = build_zone_records();
    let rrsigs = sign_zone(&records, &n("example.com."), &zsk, &ksk).unwrap();
    assert_eq!(rrsigs.len(), 3, "expected 3 RRSIGs (one per A RRset)");
    for set in &records {
        let rrsig_records = extract_rrsigs(&rrsigs);
        let result = validate_rrset(&set.name, set.rtype, &set.records, &rrsig_records, &vec![zsk.dnskey.clone()]);
        assert_eq!(result, ValidationResult::Secure);
    }
}

#[test]
fn test_sign_and_verify_zone_ed25519() {
    let zsk = key(Algorithm::ED25519, false, 86400);
    let ksk = key(Algorithm::ED25519, true, 86400);
    let records = build_zone_records();
    let rrsigs = sign_zone(&records, &n("example.com."), &zsk, &ksk).unwrap();
    assert!(!rrsigs.is_empty());
    let name = n("www.example.com.");
    let rrset = &records[1].records;
    let rrsig_records = extract_rrsigs(&rrsigs);
    let result = validate_rrset(&name, RecordType::A, rrset, &rrsig_records, &vec![zsk.dnskey.clone()]);
    assert_eq!(result, ValidationResult::Secure);
}

#[test]
fn test_tampered_record_fails_validation() {
    let zsk = key(Algorithm::ECDSAP256SHA256, false, 86400);
    let ksk = key(Algorithm::ECDSAP256SHA256, true, 86400);
    let records = build_zone_records();
    let rrsigs = sign_zone(&records, &n("example.com."), &zsk, &ksk).unwrap();
    let name = n("www.example.com.");
    let tampered = vec![make_a_record("www.example.com.", ipv4(1, 2, 3, 4))];
    let rrsig_records = extract_rrsigs(&rrsigs);
    let result = validate_rrset(&name, RecordType::A, &tampered, &rrsig_records, &vec![zsk.dnskey.clone()]);
    assert!(matches!(result, ValidationResult::Bogus(_)), "tampered record should fail validation, got {:?}", result);
}

#[test]
fn test_nsec_chain_generation() {
    let origin = n("example.com.");
    let names = ["alpha.example.com.", "bravo.example.com.", "charlie.example.com."];
    let records: Vec<RRset> = names.iter().map(|s| a_rrset(s, ipv4(1, 2, 3, 4))).collect();
    let nsec_chain = generate_nsec_chain(&records, &origin, 300);
    assert_eq!(nsec_chain.len(), 3);
    for (i, name_str) in names.iter().enumerate() {
        assert!(nsec_chain[i].name.same_name(&n(name_str)));
    }
}

#[test]
fn dnskey_signed_with_ksk_and_extracted() {
    let zsk = key(Algorithm::ED25519, false, 86400);
    let ksk = key(Algorithm::ED25519, true, 86400);
    let origin = n("example.com.");
    let keys = RRset {
        name: origin.clone(),
        rtype: RecordType::DNSKEY,
        records: vec![
            Record::from_rdata(origin.clone(), 3600, RecordData::DNSKEY(zsk.dnskey.clone())),
            Record::from_rdata(origin.clone(), 3600, RecordData::DNSKEY(ksk.dnskey.clone())),
        ],
    };
    let rrsigs = sign_zone(&vec![keys], &origin, &zsk, &ksk).unwrap();
    assert_eq!(rrsigs.len(), 1);
    match &rrsigs[0].data {
        RecordData::RRSIG(sig) => assert_eq!(sig.key_tag, ksk.key_tag),
        _ => panic!("expected RRSIG"),
    }
    let mixed = vec![
        Record::from_rdata(origin.clone(), 3600, RecordData::DNSKEY(zsk.dnskey.clone())),
        make_a_record("example.com.", 1),
    ];
    assert_eq!(extract_dnskeys(&mixed).len(), 1);
    assert_eq!(extract_rrsigs(&mixed).len(), 0);
}

#[test]
fn key_and_sign_error_messages() {
    assert_eq!(KeyError::UnsupportedAlgorithm("DSA".to_string()).message(), "unsupported algorithm: DSA");
    assert_eq!(KeyError::Generation("rng".to_string()).message(), "key generation failed: rng");
    assert_eq!(SignError::NoZsk.message(), "no ZSK available for signing");
    assert_eq!(SignError::Signing("e".to_string()).message(), "signing failed: e");
}

#[test]
fn bogus_reason_names_the_rrset() {
    let zsk = key(Algorithm::ED25519, false, 86400);
    let ksk = key(Algorithm::ED25519, true, 86400);
    let records = build_zone_records();
    let rrsigs = sign_zone(&records, &n("example.com."), &zsk, &ksk).unwrap();
    let tampered = vec![make_a_record("www.example.com.", ipv4(1, 2, 3, 4))];
    let result = validate_rrset(&n("www.example.com."), RecordType::A, &tampered, &extract_rrsigs(&rrsigs), &vec![zsk.dnskey.clone()]);
    assert_eq!(result, ValidationResult::Bogus("no valid RRSIG found for (www.example.com., A)".to_string()));
}

#[test]
fn signing_step_keeps_a_signature_of_the_key() {
    let zsk = key(Algorithm::ECDSAP256SHA256, false, 86400);
    let name = n("www.example.com.");
    let records = vec![make_a_record("www.example.com.", ipv4(1, 2, 3, 4))];
    let sig = vec![1u8, 2, 3];
    let ok = rrsig_from_signing(Ok((sig.clone(), zsk.dnskey.clone())), &records, &name, RecordType::A, 13, zsk.key_tag,
        &n("example.com."), 100, 200, &zsk.dnskey).unwrap();
    assert!(ok.name.same_name(&name));
    assert_eq!(ok.ttl, 300);
    match &ok.data {
        RecordData::RRSIG(s) => {
            assert_eq!(s.type_covered, RecordType::A);
            assert_eq!(s.algorithm, 13);
            assert_eq!(s.num_labels, 3);
            assert_eq!(s.original_ttl, 300);
            assert_eq!(s.sig_inception, 100);
            assert_eq!(s.sig_expiration, 200);
            assert_eq!(s.key_tag, zsk.key_tag);
            assert!(s.signer_name.same_name(&n("example.com.")));
            assert_eq!(s.signature, sig);
        }
        _ => panic!("expected an RRSIG"),
    }
    let mut other = zsk.dnskey.clone();
    other.revoke = !other.revoke;
    assert!(matches!(
        rrsig_from_signing(Ok((sig.clone(), other)), &records, &name, RecordType::A, 13, zsk.key_tag, &n("example.com."), 100, 200, &zsk.dnskey),
        Err(SignError::Signing(_))
    ));
    assert!(matches!(
        rrsig_from_signing(Err("failed".to_string()), &records, &name, RecordType::A, 13, zsk.key_tag, &n("example.com."), 100, 200, &zsk.dnskey),
        Err(SignError::Signing(_))
    ));
}

#[test]
fn unsupported_algorithm_is_bogus() {
    let name = n("example.com.");
    let record = make_a_record("example.com.", ipv4(1, 2, 3, 4));
    let sig = Rrsig {
        type_covered: RecordType::A,
        algorithm: 16,
        num_labels: 2,
        original_ttl: 300,
        sig_expiration: u32::MAX,
        sig_inception: 0,
        key_tag: 1,
        signer_name: n("example.com."),
        signature: vec![0; 64],
    };
    let key = Dnskey { zone_key: true, secure_entry_point: false, revoke: false, algorithm: 16, public_key: vec![0; 32] };
    let result = validate_rrset(&name, RecordType::A, &vec![record], &vec![sig], &vec![key]);
    assert!(matches!(result, ValidationResult::Bogus(_)));
}

#[test]
fn every_rrset_of_a_signed_zone_validates() {
    let zsk = key(Algorithm::ED25519, false, 86400);
    let ksk = key(Algorithm::ED25519, true, 86400);
    let records = build_zone_records();
    let rrsigs = sign_zone(&records, &n("example.com."), &zsk, &ksk).unwrap();
    assert_eq!(rrsigs.len(), records.len());
    let sigs = extract_rrsigs(&rrsigs);
    for set in &records {
        let result = validate_rrset(&set.name, set.rtype, &set.records, &sigs, &vec![zsk.dnskey.clone()]);
        assert_eq!(result, ValidationResult::Secure);
    }
}
