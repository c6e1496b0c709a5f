use cern_dns::api::{liveness, readiness};
use cern_dns::dedup::{DedupAction, DedupMap};
use cern_dns::name::DnsName;
use cern_dns::router::response_bytes;
use cern_dns::transport::{
    response_json, doh_get_query, doh_post_content_ok, doh_post_query, doh_wants_json, tcp_length_prefix, tcp_message_length, DohStatus,
    TcpConfig,
};
use cern_dns::types::{DnsMessage, MessageType, Question, Record, RecordData, RecordType, ResponseCode};

fn n(s: &str) -> DnsName {
    DnsName::from_ascii(s).unwrap()
}

#[test]
fn test_first_query_executes() {
    let mut map: DedupMap<u32> = DedupMap::new();
    let name = n("example.com.");
    assert!(matches!(map.try_dedup(&name, RecordType::A, 1), DedupAction::Execute));
    assert_eq!(map.complete(&name, RecordType::A), Some(1));
    assert_eq!(map.inflight_count(), 0);
}

#[test]
fn test_dedup_waiter() {
    let mut map: DedupMap<u32> = DedupMap::new();
    let name = n("example.com.");
    assert!(matches!(map.try_dedup(&name, RecordType::A, 1), DedupAction::Execute));
    match map.try_dedup(&n("EXAMPLE.com."), RecordType::A, 2) {
        DedupAction::Wait(h) => assert_eq!(*h, 1),
        DedupAction::Execute => panic!("expected Wait"),
    }
    assert!(matches!(map.try_dedup(&name, RecordType::AAAA, 3), DedupAction::Execute));
    assert_eq!(map.inflight_count(), 2);
    assert_eq!(map.complete(&name, RecordType::A), Some(1));
    assert_eq!(map.complete(&name, RecordType::A), None);
    assert!(matches!(map.try_dedup(&name, RecordType::A, 4), DedupAction::Execute));
}

#[test]
fn tcp_framing() {
    assert_eq!(tcp_message_length([0, 0]), None);
    assert_eq!(tcp_message_length([0, 29]), Some(29));
    assert_eq!(tcp_message_length([1, 2]), Some(258));
    assert_eq!(tcp_length_prefix(258), [1, 2]);
    assert_eq!(tcp_length_prefix(65535), [255, 255]);
    assert_eq!(tcp_length_prefix(65536 + 5), [0, 5]);
    let cfg = TcpConfig::default();
    assert_eq!(cfg.max_connections_per_ip, 100);
    assert_eq!(cfg.idle_timeout, std::time::Duration::from_secs(10));
}

#[test]
fn doh_content_negotiation() {
    assert!(doh_post_content_ok("application/dns-message"));
    assert!(!doh_post_content_ok("application/json"));
    assert!(doh_wants_json(b"application/dns-json"));
    assert!(doh_wants_json(b"text/html, application/dns-json;q=0.9"));
    assert!(!doh_wants_json(b"application/dns-message"));
    assert!(!doh_wants_json(b""));
}

#[test]
fn doh_get_parameter_is_base64url() {
    assert_eq!(doh_get_query("AAEC"), Ok(vec![0, 1, 2]));
    assert_eq!(doh_get_query("_-8"), Ok(vec![0xff, 0xef]));
    assert_eq!(doh_get_query("!!"), Err(DohStatus::BadRequest));
    assert_eq!(doh_post_query("application/dns-message", vec![1, 2]), Ok(vec![1, 2]));
    assert_eq!(doh_post_query("text/plain", vec![1, 2]), Err(DohStatus::UnsupportedMediaType));
    assert_eq!(DohStatus::Success.code(), 200);
    assert_eq!(DohStatus::BadRequest.code(), 400);
    assert_eq!(DohStatus::UnsupportedMediaType.code(), 415);
    assert_eq!(DohStatus::InternalError.code(), 500);
}

#[test]
fn health_probes() {
    assert_eq!(liveness().status, "alive");
    let (code, body) = readiness(true);
    assert_eq!((code, body.status.as_str()), (200, "ready"));
    let (code, body) = readiness(false);
    assert_eq!((code, body.status.as_str()), (503, "not ready"));
}

#[test]
fn second_query_for_a_key_waits_for_the_first() {
    let mut map: DedupMap<u32> = DedupMap::new();
    let name = n("example.com.");
    assert!(matches!(map.try_dedup(&name, RecordType::A, 1), DedupAction::Execute));
    match map.try_dedup(&n("EXAMPLE.com."), RecordType::A, 2) {
        DedupAction::Wait(h) => assert_eq!(*h, 1),
        _ => panic!("expected to wait"),
    }
    assert_eq!(map.inflight_count(), 1);
    assert_eq!(map.complete(&name, RecordType::A), Some(1));
}

#[test]
fn json_form_of_a_response() {
    let mut m = DnsMessage::new();
    m.id = 7;
    m.message_type = MessageType::Response;
    m.recursion_desired = true;
    m.recursion_available = true;
    m.response_code = ResponseCode::NXDomain;
    m.queries.push(Question { name: n("www.example.com."), qtype: RecordType::A, qclass: 1 });
    m.answers.push(Record::from_rdata(n("www.example.com."), 60, RecordData::A(u32::from_be_bytes([192, 0, 2, 1]))));
    let wire = response_bytes(&m).unwrap();
    let j = response_json(&wire).unwrap();
    assert_eq!(j.status, 3);
    assert!(j.rd && j.ra && !j.tc && !j.ad && !j.cd);
    assert_eq!(j.question.len(), 1);
    assert_eq!(j.question[0].name, "www.example.com.");
    assert_eq!(j.question[0].qtype, 1);
    assert_eq!(j.answer.len(), 1);
    assert_eq!(j.answer[0].name, "www.example.com.");
    assert_eq!(j.answer[0].rtype, 1);
    assert_eq!(j.answer[0].ttl, 60);
    assert_eq!(j.answer[0].data, "192.0.2.1");
    assert!(response_json(&[1, 2, 3]).is_none());
}
