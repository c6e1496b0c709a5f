use cern_dns::config::{CacheConfig, RecursionConfig};
use cern_dns::iteration::{ResolveAction, Resolution};
use cern_dns::name::DnsName;
use cern_dns::resolver::{ResolveError, Resolver};
use cern_dns::types::{DnsMessage, IpAddress, MessageType, Record, RecordData, RecordType, ResponseCode, SocketAddress};

fn n(s: &str) -> DnsName {
    DnsName::from_ascii(s).unwrap()
}

fn addr(last: u8) -> SocketAddress {
    SocketAddress { ip: IpAddress::V4(u32::from_be_bytes([192, 0, 2, last])), port: 53 }
}

fn resolver(retries: u32, max_depth: u32, minimize: bool) -> Resolver {
    let mut rc = RecursionConfig::default();
    rc.retries = retries;
    rc.max_depth = max_depth;
    rc.qname_minimization = minimize;
    Resolver::new(&rc, &CacheConfig::default())
}

fn response() -> DnsMessage {
    let mut m = DnsMessage::new();
    m.message_type = MessageType::Response;
    m
}

fn answer_a(name: &str, ip: u32) -> DnsMessage {
    let mut m = response();
    m.answers.push(Record::from_rdata(n(name), 300, RecordData::A(ip)));
    m
}

fn referral(zone: &str, ns: &str, glue: Option<u32>) -> DnsMessage {
    let mut m = response();
    m.name_servers.push(Record::from_rdata(n(zone), 3600, RecordData::NS(n(ns))));
    if let Some(ip) = glue {
        m.additionals.push(Record::from_rdata(n(ns), 3600, RecordData::A(ip)));
    }
    m
}

fn expect_query(a: &ResolveAction) -> (SocketAddress, DnsName, RecordType) {
    match a {
        ResolveAction::Query { server, qname, qtype } => (*server, qname.clone(), *qtype),
        ResolveAction::Finished(_) => panic!("expected a query"),
    }
}

fn start(r: &Resolver, name: &str, qtype: RecordType) -> (Resolution, ResolveAction) {
    r.begin_iteration(&n(name), qtype)
}

#[test]
fn referral_then_answer() {
    let r = resolver(0, 30, true);
    let (mut res, a) = start(&r, "www.example.com.", RecordType::A);
    let (server, qname, _) = expect_query(&a);
    assert_eq!(server, r.root_hints.servers[0]);
    assert!(qname.same_name(&n("com.")));

    let a = res.on_answer(&referral("com.", "a.gtld.example.", Some(0x0a000001)));
    let (server, qname, qtype) = expect_query(&a);
    assert_eq!(server.ip, IpAddress::V4(0x0a000001));
    assert!(qname.same_name(&n("example.com.")));
    assert_eq!(qtype, RecordType::A);

    let a = res.on_answer(&referral("example.com.", "ns.example.com.", Some(0x0a000002)));
    let (server, qname, _) = expect_query(&a);
    assert_eq!(server.ip, IpAddress::V4(0x0a000002));
    assert!(qname.same_name(&n("www.example.com.")));

    match res.on_answer(&answer_a("www.example.com.", 7)) {
        ResolveAction::Finished(Ok(resp)) => {
            assert_eq!(resp.answers.len(), 1);
            assert_eq!(resp.response_code, ResponseCode::NoError);
        }
        _ => panic!("expected the answer"),
    }
}

#[test]
fn without_minimisation_the_full_name_is_asked() {
    let r = resolver(0, 30, false);
    let (_, a) = start(&r, "www.example.com.", RecordType::AAAA);
    let (_, qname, qtype) = expect_query(&a);
    assert!(qname.same_name(&n("www.example.com.")));
    assert_eq!(qtype, RecordType::AAAA);
}

#[test]
fn failures_retry_then_move_on_then_give_up() {
    let r = resolver(1, 30, true);
    let (mut res, a) = start(&r, "example.org.", RecordType::A);
    let roots = r.root_hints.servers.clone();
    assert_eq!(expect_query(&a).0, roots[0]);
    assert_eq!(expect_query(&res.on_failure()).0, roots[0]);
    assert_eq!(expect_query(&res.on_failure()).0, roots[1]);
    let mut last = res.on_failure();
    for _ in 0..(2 * roots.len() - 3) {
        last = res.on_failure();
    }
    match last {
        ResolveAction::Finished(Err(ResolveError::NoNameservers(cut))) => assert!(cut.is_root()),
        _ => panic!("expected no name servers"),
    }
}

#[test]
fn cname_is_chased_and_appended() {
    let r = resolver(0, 30, false);
    let (mut res, _) = start(&r, "ftp.example.com.", RecordType::A);
    let mut cname = response();
    cname.answers.push(Record::from_rdata(n("ftp.example.com."), 300, RecordData::CNAME(n("www.example.net."))));
    let a = res.on_answer(&cname);
    let (server, qname, qtype) = expect_query(&a);
    assert_eq!(server, r.root_hints.servers[0]);
    assert!(qname.same_name(&n("www.example.net.")));
    assert_eq!(qtype, RecordType::A);
    match res.on_answer(&answer_a("www.example.net.", 9)) {
        ResolveAction::Finished(Ok(resp)) => {
            assert_eq!(resp.answers.len(), 2);
            assert_eq!(resp.answers[0].record_type(), RecordType::CNAME);
            assert!(matches!(resp.answers[1].data, RecordData::A(9)));
        }
        _ => panic!("expected the chased answer"),
    }
}

#[test]
fn referral_without_glue_looks_up_the_name_server() {
    let r = resolver(0, 30, false);
    let (mut res, _) = start(&r, "www.example.com.", RecordType::A);
    let a = res.on_answer(&referral("example.com.", "ns1.provider.net.", None));
    let (server, qname, qtype) = expect_query(&a);
    assert_eq!(server, r.root_hints.servers[0]);
    assert!(qname.same_name(&n("ns1.provider.net.")));
    assert_eq!(qtype, RecordType::A);
    let a = res.on_answer(&answer_a("ns1.provider.net.", 0x0a000009));
    let (server, qname, qtype) = expect_query(&a);
    assert_eq!(server.ip, IpAddress::V4(0x0a000009));
    assert!(qname.same_name(&n("www.example.com.")));
    assert_eq!(qtype, RecordType::A);
}

#[test]
fn empty_referral_means_no_name_servers() {
    let r = resolver(0, 30, false);
    let (mut res, _) = start(&r, "www.example.com.", RecordType::A);
    let mut odd = response();
    odd.name_servers.push(Record::from_rdata(n("example.com."), 300, RecordData::A(1)));
    match res.on_answer(&odd) {
        ResolveAction::Finished(Err(ResolveError::NoNameservers(cut))) => assert!(cut.is_root()),
        _ => panic!("expected no name servers"),
    }
}

#[test]
fn nxdomain_ends_resolution() {
    let r = resolver(0, 30, false);
    let (mut res, _) = start(&r, "nope.example.com.", RecordType::A);
    let mut nx = response();
    nx.response_code = ResponseCode::NXDomain;
    match res.on_answer(&nx) {
        ResolveAction::Finished(Ok(resp)) => assert_eq!(resp.response_code, ResponseCode::NXDomain),
        _ => panic!("expected NXDOMAIN"),
    }
}

#[test]
fn depth_limit_stops_chasing() {
    let r = resolver(0, 1, false);
    let (mut res, _) = start(&r, "ftp.example.com.", RecordType::A);
    let mut cname = response();
    cname.answers.push(Record::from_rdata(n("ftp.example.com."), 300, RecordData::CNAME(n("www.example.net."))));
    assert!(matches!(res.on_answer(&cname), ResolveAction::Finished(Err(ResolveError::MaxDepthExceeded))));
    let r0 = resolver(0, 0, false);
    assert!(matches!(start(&r0, "a.example.", RecordType::A).1, ResolveAction::Finished(Err(ResolveError::MaxDepthExceeded))));
}

#[test]
fn forwarding_asks_each_forwarder() {
    let r = resolver(0, 30, true);
    let (mut res, a) = r.begin_forwarding(&n("www.corp.example."), RecordType::A, vec![addr(1), addr(2)]);
    let (server, qname, _) = expect_query(&a);
    assert_eq!(server, addr(1));
    assert!(qname.same_name(&n("www.corp.example.")));
    assert_eq!(expect_query(&res.on_failure()).0, addr(2));
    assert!(matches!(res.on_failure(), ResolveAction::Finished(Err(ResolveError::ServFail))));

    let (mut res, _) = r.begin_forwarding(&n("www.corp.example."), RecordType::A, vec![addr(1)]);
    match res.on_answer(&referral("corp.example.", "ns.corp.example.", Some(5))) {
        ResolveAction::Finished(Ok(resp)) => assert_eq!(resp.authority.len(), 1),
        _ => panic!("a forwarder's answer is the result"),
    }
    assert!(matches!(
        r.begin_forwarding(&n("x."), RecordType::A, Vec::new()).1,
        ResolveAction::Finished(Err(ResolveError::ServFail))
    ));
}
