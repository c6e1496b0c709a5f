use cern_dns::acl::{AclEngine, IpNetwork, NetGroup};
use cern_dns::loader::parse_zone_str;
use cern_dns::message::{parse_message, serialize_message, serialize_with_limit, MessageError, SerializeError, WireFormat};
use cern_dns::name::DnsName;
use cern_dns::rate_limit::RrlEngine;
use cern_dns::router::{formerr_id, response_bytes, truncate_bytes, RouteDecision, Router};
use cern_dns::types::{
    dnssec_ok, get_edns, max_udp_payload, DnsMessage, Edns, IpAddress, MessageType, Question, RecordData,
    RecordType, ResponseCode,
};
use cern_dns::wire::decode_message;
use cern_dns::zone_store::ZoneStore;

const ZONE_DATA: &str = r#"
$ORIGIN example.com.
$TTL 3600
@   IN  SOA ns1.example.com. admin.example.com. (
            2024010101 3600 900 604800 86400 )
    IN  NS  ns1.example.com.
    IN  A   192.0.2.1
ns1 IN  A   192.0.2.10
www IN  A   192.0.2.100
"#;

const CERN_ZONE: &str = r#"
$ORIGIN example.cern.ch.
$TTL 3600
@   IN  SOA ns1.example.cern.ch. admin.example.cern.ch. (
            2024010101 3600 900 604800 86400 )
    IN  NS  ns1.example.cern.ch.
    IN  NS  ns2.example.cern.ch.
    IN  A   192.168.1.1
    IN  AAAA    2001:db8::1
    IN  MX  10 mail.example.cern.ch.
ns1 IN  A   192.168.1.10
ns2 IN  A   192.168.1.11
www IN  A   192.168.1.100
    IN  AAAA    2001:db8::100
mail IN A   192.168.1.200
ftp IN  CNAME www.example.cern.ch.
*.wild IN A 192.168.1.250
sub IN  NS  ns.sub.example.cern.ch.
ns.sub IN A 192.168.1.50
"#;

fn n(s: &str) -> DnsName {
    DnsName::from_ascii(s).unwrap()
}

fn v4(a: u8, b: u8, c: u8, d: u8) -> IpAddress {
    IpAddress::V4(u32::from_be_bytes([a, b, c, d]))
}

fn query_message(id: u16, name: &str, qtype: RecordType, rd: bool) -> DnsMessage {
    let mut msg = DnsMessage::new();
    msg.id = id;
    msg.message_type = MessageType::Query;
    msg.recursion_desired = rd;
    msg.queries.push(Question { name: n(name), qtype, qclass: 1 });
    msg
}

fn build_query(id: u16, name: &str, qtype: RecordType) -> Vec<u8> {
    serialize_message(&query_message(id, name, qtype, false)).unwrap()
}

fn router_for(data: &str, file: &str, allow_recursion: &str, allow_query: &str, groups: Vec<NetGroup>) -> Router {
    let zone = parse_zone_str(data, file).unwrap();
    let store = ZoneStore::new(vec![zone]);
    Router::new(store, false, AclEngine::new(groups, allow_recursion, allow_query))
}

fn test_router() -> Router {
    router_for(ZONE_DATA, "example.com.zone", "any", "any", Vec::new())
}

fn cern_router() -> Router {
    router_for(CERN_ZONE, "example.cern.ch.zone", "any", "any", Vec::new())
}

/// What the server sends back for `raw` from `src`: the routing decision,
/// encoded, then rate limited.
fn handle(router: &mut Router, raw: &[u8], src: IpAddress) -> Option<Vec<u8>> {
    let result = match router.route(raw, &src) {
        RouteDecision::Reply(m) => response_bytes(&m),
        RouteDecision::ReplyUnlimited(m) => return response_bytes(&m),
        RouteDecision::Recurse(_) => panic!("no resolver in these tests"),
        RouteDecision::NoReply => None,
    };
    router.apply_rrl(result, src)
}

fn ask(router: &mut Router, name: &str, qtype: RecordType) -> DnsMessage {
    let raw = build_query(0x1234, name, qtype);
    let resp = handle(router, &raw, v4(127, 0, 0, 1)).unwrap();
    decode_message(&resp).unwrap()
}

#[test]
fn test_no_edns() {
    let msg = DnsMessage::new();
    assert!(get_edns(&msg).is_none());
    assert_eq!(max_udp_payload(&msg), 512);
    assert!(!dnssec_ok(&msg));
}

#[test]
fn edns_values_are_read() {
    let mut msg = DnsMessage::new();
    msg.edns = Some(Edns { max_payload: 4096, version: 0, dnssec_ok: true, rcode_high: 0 });
    assert_eq!(max_udp_payload(&msg), 4096);
    assert!(dnssec_ok(&msg));
}

#[test]
fn test_round_trip() {
    let msg = query_message(0x1234, "example.com.", RecordType::A, true);
    let bytes = serialize_message(&msg).unwrap();
    let parsed = parse_message(&bytes).unwrap();
    assert_eq!(parsed.id, 0x1234);
    assert_eq!(parsed.queries.len(), 1);
    assert!(parsed.queries[0].name.same_name(&n("example.com.")));
    assert!(parsed.recursion_desired);
}

#[test]
fn test_truncation() {
    let msg = query_message(0x1234, "example.com.", RecordType::A, true);
    let bytes = serialize_with_limit(&msg, 12).unwrap();
    let parsed = decode_message(&bytes).unwrap();
    assert!(parsed.truncated);
}

#[test]
fn parse_rejects_bad_messages() {
    assert!(matches!(parse_message(&[1, 2, 3]), Err(MessageError::Parse(_))));
    let mut two = query_message(7, "a.example.com.", RecordType::A, false);
    two.queries.push(Question { name: n("b.example.com."), qtype: RecordType::A, qclass: 1 });
    let bytes = serialize_message(&two).unwrap();
    assert!(matches!(parse_message(&bytes), Err(MessageError::InvalidQueryCount(2))));
    let none = serialize_message(&DnsMessage::new()).unwrap();
    assert!(matches!(parse_message(&none), Err(MessageError::InvalidQueryCount(0))));
}

#[test]
fn small_messages_are_not_truncated() {
    let msg = query_message(9, "example.com.", RecordType::A, false);
    let whole = serialize_message(&msg).unwrap();
    assert_eq!(serialize_with_limit(&msg, 512).unwrap(), whole);
}

#[test]
fn test_authoritative_query() {
    let mut router = test_router();
    let resp = ask(&mut router, "www.example.com.", RecordType::A);
    assert!(resp.authoritative);
    assert_eq!(resp.answers.len(), 1);
}

#[test]
fn test_nxdomain_query() {
    let mut router = test_router();
    let resp = ask(&mut router, "nonexistent.example.com.", RecordType::A);
    assert!(resp.authoritative);
    assert_eq!(resp.response_code, ResponseCode::NXDomain);
}

#[test]
fn router_test_non_authoritative_refused() {
    let mut router = test_router();
    let resp = ask(&mut router, "www.google.com.", RecordType::A);
    assert_eq!(resp.response_code, ResponseCode::Refused);
}

#[test]
fn malformed_query_gets_formerr() {
    let mut router = test_router();
    let resp = handle(&mut router, &[0xAB, 0xCD, 0xFF], v4(127, 0, 0, 1)).unwrap();
    let msg = decode_message(&resp).unwrap();
    assert_eq!(msg.id, 0xABCD);
    assert_eq!(msg.response_code, ResponseCode::FormErr);
    assert_eq!(formerr_id(&[7]), 0);
    assert_eq!(formerr_id(&[1, 2, 3]), 0x0102);
}

#[test]
fn recursion_without_resolver_is_servfail() {
    let mut router = test_router();
    let raw = serialize_message(&query_message(5, "www.google.com.", RecordType::A, true)).unwrap();
    let resp = handle(&mut router, &raw, v4(127, 0, 0, 1)).unwrap();
    let msg = decode_message(&resp).unwrap();
    assert_eq!(msg.response_code, ResponseCode::ServFail);
    assert_eq!(msg.id, 5);
}

#[test]
fn recursion_with_resolver_is_handed_over() {
    let zone = parse_zone_str(ZONE_DATA, "example.com.zone").unwrap();
    let router = Router::new(ZoneStore::new(vec![zone]), true, AclEngine::new(Vec::new(), "any", "any"));
    let raw = serialize_message(&query_message(5, "www.google.com.", RecordType::A, true)).unwrap();
    match router.route(&raw, &v4(127, 0, 0, 1)) {
        RouteDecision::Recurse(q) => assert!(q.queries[0].name.same_name(&n("www.google.com."))),
        _ => panic!("expected recursion"),
    }
}

#[test]
fn test_apex_a_query() {
    let mut router = cern_router();
    let msg = ask(&mut router, "example.cern.ch.", RecordType::A);
    assert!(msg.authoritative);
    assert_eq!(msg.response_code, ResponseCode::NoError);
    assert_eq!(msg.answers.len(), 1);
    match &msg.answers[0].data {
        RecordData::A(a) => assert_eq!(*a, u32::from_be_bytes([192, 168, 1, 1])),
        _ => panic!("expected A record"),
    }
}

#[test]
fn test_apex_aaaa_query() {
    let mut router = cern_router();
    let msg = ask(&mut router, "example.cern.ch.", RecordType::AAAA);
    assert!(msg.authoritative);
    assert_eq!(msg.answers.len(), 1);
}

#[test]
fn test_www_a_query() {
    let mut router = cern_router();
    let msg = ask(&mut router, "www.example.cern.ch.", RecordType::A);
    assert!(msg.authoritative);
    assert_eq!(msg.response_code, ResponseCode::NoError);
    assert_eq!(msg.answers.len(), 1);
}

#[test]
fn test_cname_query() {
    let mut router = cern_router();
    let msg = ask(&mut router, "ftp.example.cern.ch.", RecordType::A);
    assert!(msg.authoritative);
    assert!(msg.answers.len() >= 1);
    assert!(msg.answers.iter().any(|r| r.record_type() == RecordType::CNAME), "response should include CNAME record");
}

#[test]
fn test_mx_query() {
    let mut router = cern_router();
    let msg = ask(&mut router, "example.cern.ch.", RecordType::MX);
    assert!(msg.authoritative);
    assert_eq!(msg.answers.len(), 1);
    assert_eq!(msg.answers[0].record_type(), RecordType::MX);
}

#[test]
fn auth_test_test_nxdomain() {
    let mut router = cern_router();
    let msg = ask(&mut router, "nonexistent.example.cern.ch.", RecordType::A);
    assert!(msg.authoritative);
    assert_eq!(msg.response_code, ResponseCode::NXDomain);
    assert!(msg.answers.is_empty());
    assert!(!msg.name_servers.is_empty());
}

#[test]
fn auth_test_test_nodata() {
    let mut router = cern_router();
    let msg = ask(&mut router, "www.example.cern.ch.", RecordType::MX);
    assert!(msg.authoritative);
    assert_eq!(msg.response_code, ResponseCode::NoError);
    assert!(msg.answers.is_empty());
}

#[test]
fn auth_test_test_wildcard() {
    let mut router = cern_router();
    let msg = ask(&mut router, "anything.wild.example.cern.ch.", RecordType::A);
    assert!(msg.authoritative);
    assert_eq!(msg.response_code, ResponseCode::NoError);
    assert_eq!(msg.answers.len(), 1);
    assert!(msg.answers[0].name.same_name(&n("anything.wild.example.cern.ch.")));
}

#[test]
fn test_delegation() {
    let mut router = cern_router();
    let msg = ask(&mut router, "host.sub.example.cern.ch.", RecordType::A);
    assert!(
        msg.response_code == ResponseCode::NoError
            || msg.response_code == ResponseCode::Refused
            || msg.response_code == ResponseCode::NXDomain
    );
}

#[test]
fn delegation_is_a_referral_without_aa() {
    let mut router = cern_router();
    let msg = ask(&mut router, "host.sub.example.cern.ch.", RecordType::A);
    assert_eq!(msg.response_code, ResponseCode::NoError);
    assert!(msg.answers.is_empty());
    assert!(!msg.authoritative);
    assert_eq!(msg.name_servers.len(), 1);
    assert_eq!(msg.name_servers[0].record_type(), RecordType::NS);
    assert_eq!(msg.additionals.len(), 1);
    assert_eq!(msg.additionals[0].record_type(), RecordType::A);
}

#[test]
fn auth_test_test_non_authoritative_refused() {
    let mut router = cern_router();
    let msg = ask(&mut router, "www.google.com.", RecordType::A);
    assert_eq!(msg.response_code, ResponseCode::Refused);
}

#[test]
fn test_multiple_queries_same_name() {
    let mut router = cern_router();
    for _ in 0..5 {
        let msg = ask(&mut router, "www.example.cern.ch.", RecordType::A);
        assert!(msg.authoritative);
        assert_eq!(msg.answers.len(), 1);
    }
}

#[test]
fn test_acl_allow_all() {
    let mut router = router_for(ZONE_DATA, "example.com.zone", "any", "any", Vec::new());
    let raw = build_query(0x5678, "www.example.com.", RecordType::A);
    let resp = handle(&mut router, &raw, v4(10, 0, 0, 1)).unwrap();
    assert_eq!(decode_message(&resp).unwrap().response_code, ResponseCode::NoError);
}

#[test]
fn test_acl_deny_all_queries() {
    let mut router = router_for(ZONE_DATA, "example.com.zone", "any", "none", Vec::new());
    let raw = build_query(0x5678, "www.example.com.", RecordType::A);
    let resp = handle(&mut router, &raw, v4(10, 0, 0, 1)).unwrap();
    assert_eq!(decode_message(&resp).unwrap().response_code, ResponseCode::Refused);
}

#[test]
fn test_acl_group_based() {
    let groups = vec![NetGroup {
        name: "internal".to_string(),
        networks: vec![IpNetwork { addr: v4(10, 0, 0, 0), prefix_len: 8 }],
    }];
    let mut router = router_for(ZONE_DATA, "example.com.zone", "any", "internal", groups);
    let raw = build_query(0x5678, "www.example.com.", RecordType::A);
    let resp = handle(&mut router, &raw, v4(10, 1, 2, 3)).unwrap();
    assert_eq!(decode_message(&resp).unwrap().response_code, ResponseCode::NoError);
    let resp = handle(&mut router, &raw, v4(203, 0, 113, 1)).unwrap();
    assert_eq!(decode_message(&resp).unwrap().response_code, ResponseCode::Refused);
}

fn router_with_rrl(rps: u32, slip: u32) -> Router {
    test_router().with_rrl(RrlEngine::new(rps, slip, 24, 48))
}

#[test]
fn test_rrl_allows_under_limit() {
    let mut router = router_with_rrl(100, 2);
    let raw = build_query(0xABCD, "www.example.com.", RecordType::A);
    for _ in 0..10 {
        assert!(handle(&mut router, &raw, v4(10, 0, 0, 1)).is_some(), "response should not be dropped under limit");
    }
}

#[test]
fn test_rrl_drops_over_limit() {
    let mut router = router_with_rrl(3, 0);
    let raw = build_query(0xABCD, "www.example.com.", RecordType::A);
    for _ in 0..3 {
        let _ = handle(&mut router, &raw, v4(10, 0, 0, 1));
    }
    assert!(handle(&mut router, &raw, v4(10, 0, 0, 1)).is_none(), "response should be dropped after exceeding RRL");
}

#[test]
fn test_rrl_different_ips_independent() {
    let mut router = router_with_rrl(3, 0);
    let raw = build_query(0xABCD, "www.example.com.", RecordType::A);
    for _ in 0..3 {
        let _ = handle(&mut router, &raw, v4(10, 0, 0, 1));
    }
    assert!(handle(&mut router, &raw, v4(10, 0, 1, 1)).is_some(), "different /24 should have independent bucket");
}

#[test]
fn rrl_truncation_keeps_header_with_tc() {
    let mut router = router_with_rrl(1, 1);
    let raw = build_query(0xABCD, "www.example.com.", RecordType::A);
    let first = handle(&mut router, &raw, v4(10, 0, 0, 1)).unwrap();
    let second = handle(&mut router, &raw, v4(10, 0, 0, 1)).unwrap();
    assert_eq!(second.len(), 12);
    assert_eq!(&second[..2], &first[..2]);
    assert_eq!(second[2], first[2] | 0x02);
    assert_eq!(truncate_bytes(&vec![1, 2, 4, 8]), vec![1, 2, 6, 8]);
}

#[test]
fn wire_format_round_trip() {
    let msg = query_message(0x4242, "www.example.com.", RecordType::AAAA, true);
    let bytes = msg.to_wire().unwrap();
    let back = DnsMessage::from_wire(&bytes).unwrap();
    assert_eq!(back.id, 0x4242);
    assert_eq!(back.queries.len(), 1);
    assert_eq!(back.queries[0].qtype, RecordType::AAAA);
    assert!(back.recursion_desired);
    assert!(matches!(DnsMessage::from_wire(&[0u8; 3]), Err(SerializeError::Proto(_))));
    let none = DnsMessage::new().to_wire().unwrap();
    assert_eq!(DnsMessage::from_wire(&none).unwrap().queries.len(), 0);
}

#[test]
fn error_messages() {
    assert_eq!(MessageError::InvalidQueryCount(2).message(), "invalid query count: expected 1, got 2");
    assert_eq!(MessageError::TooLarge { size: 700, limit: 512 }.message(), "message too large: 700 bytes exceeds limit of 512");
    assert_eq!(MessageError::Parse("bad".to_string()).message(), "failed to parse DNS message: bad");
    assert_eq!(SerializeError::Proto("x".to_string()).message(), "serialization error: x");
}

#[test]
fn malformed_queries_are_not_rate_limited() {
    let mut router = router_with_rrl(1, 0);
    let garbage = vec![0x12u8, 0x34, 0xff];
    for _ in 0..5 {
        let resp = handle(&mut router, &garbage, v4(10, 0, 0, 1)).expect("FORMERR is always sent");
        let msg = decode_message(&resp).unwrap();
        assert_eq!(msg.response_code, ResponseCode::FormErr);
        assert_eq!(msg.id, 0x1234);
    }
    // The bucket of that source was not charged by the FORMERR replies.
    let raw = build_query(0xABCD, "www.example.com.", RecordType::A);
    assert!(handle(&mut router, &raw, v4(10, 0, 0, 1)).is_some());
}
