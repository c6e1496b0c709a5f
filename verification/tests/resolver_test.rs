use cern_dns::config::{CacheConfig, ForwardZone, RecursionConfig};
use cern_dns::iteration::ResolveAction;
use cern_dns::name::DnsName;
use cern_dns::resolver::{
    chase_result, find_forwarders, parse_duration, parse_duration_value, process_response,
    servers_from_answers, DurationValue, ResolveResponse, ResolveStart, ResponseStep, Resolver,
    RootHints,
};
use cern_dns::types::{
    DnsMessage, IpAddress, Record, RecordData, RecordType, ResponseCode, SocketAddress,
};
use cern_dns::upstream::{check_response_id, new_upstream_query, UpstreamConfig, UpstreamError};

fn n(s: &str) -> DnsName {
    DnsName::from_ascii(s).unwrap()
}

fn a(name: &str, ip: u32) -> Record {
    Record::from_rdata(n(name), 300, RecordData::A(ip))
}

#[test]
fn test_parse_duration() {
    assert_eq!(parse_duration("2s"), Some(std::time::Duration::from_secs(2)));
    assert_eq!(parse_duration("500ms"), Some(std::time::Duration::from_millis(500)));
    assert_eq!(parse_duration("10"), Some(std::time::Duration::from_secs(10)));
}

#[test]
fn test_root_hints() {
    let hints = RootHints::default();
    assert_eq!(hints.servers.len(), 13);
}

#[test]
fn root_hints_first_is_a_root() {
    let hints = RootHints::default();
    assert_eq!(hints.servers[0], SocketAddress { ip: IpAddress::V4(0xc629_0004), port: 53 });
    assert_eq!(hints.servers[12], SocketAddress { ip: IpAddress::V4(0xca0c_1b21), port: 53 });
}

#[test]
fn parse_duration_unicode_spaces() {
    assert_eq!(parse_duration_value("\u{00A0}2s\u{3000}"), Some(DurationValue::Secs(2)));
    assert_eq!(parse_duration_value("\u{2028}15ms\u{0085}"), Some(DurationValue::Millis(15)));
    assert_eq!(parse_duration_value("1\u{00A0}s"), None);
}

#[test]
fn parse_duration_edge_cases() {
    assert_eq!(parse_duration_value("  7s \n"), Some(DurationValue::Secs(7)));
    assert_eq!(parse_duration_value("+3ms"), Some(DurationValue::Millis(3)));
    assert_eq!(parse_duration_value("ms"), None);
    assert_eq!(parse_duration_value("s"), None);
    assert_eq!(parse_duration_value(""), None);
    assert_eq!(parse_duration_value("5 ms"), None);
    assert_eq!(parse_duration_value("18446744073709551615"), Some(DurationValue::Secs(u64::MAX)));
    assert_eq!(parse_duration_value("18446744073709551616"), None);
    assert_eq!(parse_duration_value("1x"), None);
    assert_eq!(parse_duration("nonsense"), None);
}

#[test]
fn test_upstream_config_default() {
    let config = UpstreamConfig::default();
    assert_eq!(config.timeout, std::time::Duration::from_secs(2));
    assert_eq!(config.retries, 2);
}

fn forwarding() -> Vec<ForwardZone> {
    vec![
        ForwardZone { zone: "corp.example.".to_string(), servers: vec![SocketAddress { ip: IpAddress::V4(0x0a000001), port: 53 }] },
        ForwardZone { zone: ".".to_string(), servers: vec![SocketAddress { ip: IpAddress::V4(0x08080808), port: 53 }] },
    ]
}

#[test]
fn forwarders_exact_then_dot() {
    let f = forwarding();
    let exact = find_forwarders(&f, &"corp.example.".to_string()).unwrap();
    assert_eq!(exact[0].ip, IpAddress::V4(0x0a000001));
    let other = find_forwarders(&f, &"www.example.com.".to_string()).unwrap();
    assert_eq!(other[0].ip, IpAddress::V4(0x08080808));
    let none: Vec<ForwardZone> = Vec::new();
    assert!(find_forwarders(&none, &"x.".to_string()).is_none());
}

#[test]
fn forwarders_of_the_longest_enclosing_zone() {
    let f = forwarding();
    let below = find_forwarders(&f, &"www.corp.example.".to_string()).unwrap();
    assert_eq!(below[0].ip, IpAddress::V4(0x0a000001));
    let not_a_label = find_forwarders(&f, &"xcorp.example.".to_string()).unwrap();
    assert_eq!(not_a_label[0].ip, IpAddress::V4(0x08080808));
    let only_corp = vec![ForwardZone { zone: "corp.example.".to_string(), servers: vec![SocketAddress { ip: IpAddress::V4(0x0a000001), port: 53 }] }];
    assert!(find_forwarders(&only_corp, &"www.example.com.".to_string()).is_none());
    assert!(find_forwarders(&only_corp, &"a.b.corp.example.".to_string()).is_some());
}

#[test]
fn answer_with_cname_is_chased() {
    let mut m = DnsMessage::new();
    m.answers.push(Record::from_rdata(n("ftp.example.com."), 300, RecordData::CNAME(n("www.example.net."))));
    match process_response(&m, &n("www.example.com."), RecordType::A, &DnsName::root()) {
        ResponseStep::Chase { answers, target } => {
            assert_eq!(answers.len(), 1);
            assert!(target.same_name(&n("www.example.net.")));
        }
        _ => panic!("expected a chase"),
    }
    m.answers.push(a("www.example.net.", 1));
    match process_response(&m, &n("www.example.com."), RecordType::A, &DnsName::root()) {
        ResponseStep::Done(r) => assert_eq!(r.answers.len(), 2),
        _ => panic!("expected an answer"),
    }
}

#[test]
fn referral_collects_glue() {
    let mut m = DnsMessage::new();
    m.name_servers.push(Record::from_rdata(n("example.com."), 300, RecordData::NS(n("ns1.example.com."))));
    m.additionals.push(a("ns1.example.com.", 0xc0000201));
    m.additionals.push(Record::from_rdata(n("ns1.example.com."), 300, RecordData::AAAA(1)));
    m.additionals.push(a("other.example.com.", 7));
    match process_response(&m, &n("www.example.com."), RecordType::A, &DnsName::root()) {
        ResponseStep::Referral { zone_cut, servers, ns_names } => {
            assert!(zone_cut.same_name(&n("example.com.")));
            assert_eq!(servers, vec![
                SocketAddress { ip: IpAddress::V4(0xc0000201), port: 53 },
                SocketAddress { ip: IpAddress::V6(1), port: 53 },
            ]);
            assert_eq!(ns_names.len(), 1);
        }
        _ => panic!("expected a referral"),
    }
}

#[test]
fn referral_outside_bailiwick_is_not_followed() {
    // A server for example.com. names a server for other.org. and offers
    // glue outside its zone: neither is used.
    let mut m = DnsMessage::new();
    m.name_servers.push(Record::from_rdata(n("other.org."), 300, RecordData::NS(n("ns.other.org."))));
    m.name_servers.push(Record::from_rdata(n("sub.example.com."), 300, RecordData::NS(n("ns.evil.net."))));
    m.additionals.push(a("ns.evil.net.", 0x01020304));
    m.additionals.push(a("ns.other.org.", 0x05060708));
    match process_response(&m, &n("www.sub.example.com."), RecordType::A, &n("example.com.")) {
        ResponseStep::Referral { zone_cut, servers, ns_names } => {
            assert!(zone_cut.same_name(&n("sub.example.com.")));
            assert!(servers.is_empty());
            assert_eq!(ns_names.len(), 1);
            assert!(ns_names[0].same_name(&n("ns.evil.net.")));
        }
        _ => panic!("expected a referral"),
    }
    // The zone's own name, or a zone the query name is not in, is no referral target.
    match process_response(&m, &n("www.example.com."), RecordType::A, &n("example.com.")) {
        ResponseStep::Referral { zone_cut, servers, ns_names } => {
            assert!(zone_cut.same_name(&n("example.com.")));
            assert!(servers.is_empty());
            assert!(ns_names.is_empty());
        }
        _ => panic!("expected a referral"),
    }
}

#[test]
fn in_bailiwick_glue_is_used() {
    let mut m = DnsMessage::new();
    m.name_servers.push(Record::from_rdata(n("sub.example.com."), 300, RecordData::NS(n("ns.sub.example.com."))));
    m.additionals.push(a("ns.sub.example.com.", 0x0a000002));
    match process_response(&m, &n("www.sub.example.com."), RecordType::A, &n("example.com.")) {
        ResponseStep::Referral { servers, .. } => {
            assert_eq!(servers, vec![SocketAddress { ip: IpAddress::V4(0x0a000002), port: 53 }]);
        }
        _ => panic!("expected a referral"),
    }
}

#[test]
fn nxdomain_response_is_final() {
    let mut m = DnsMessage::new();
    m.response_code = ResponseCode::NXDomain;
    m.name_servers.push(Record::from_rdata(n("example.com."), 300, RecordData::NS(n("ns1.example.com."))));
    match process_response(&m, &n("www.example.com."), RecordType::A, &DnsName::root()) {
        ResponseStep::Done(r) => {
            assert_eq!(r.response_code, ResponseCode::NXDomain);
            assert!(r.answers.is_empty());
            assert_eq!(r.authority.len(), 1);
        }
        _ => panic!("expected a final answer"),
    }
}

#[test]
fn chase_appends_answers() {
    let first = vec![Record::from_rdata(n("a.example."), 60, RecordData::CNAME(n("b.example.")))];
    let chased = ResolveResponse {
        answers: vec![a("b.example.", 9)],
        authority: Vec::new(),
        additional: Vec::new(),
        response_code: ResponseCode::NoError,
    };
    let r = chase_result(first, chased);
    assert_eq!(r.answers.len(), 2);
    assert!(matches!(r.answers[1].data, RecordData::A(9)));
}

#[test]
fn ns_addresses_from_answers() {
    let answers = vec![a("ns.example.", 1), Record::from_rdata(n("ns.example."), 1, RecordData::AAAA(5)), a("ns.example.", 2)];
    assert_eq!(servers_from_answers(&answers), vec![
        SocketAddress { ip: IpAddress::V4(1), port: 53 },
        SocketAddress { ip: IpAddress::V4(2), port: 53 },
    ]);
}

#[test]
fn upstream_query_and_id_check() {
    let (id, q) = new_upstream_query(&n("example.com."), RecordType::A);
    assert_eq!(q.id, id);
    assert!(!q.recursion_desired);
    assert!(q.queries[0].name.same_name(&n("example.com.")));
    let mut resp = DnsMessage::new();
    resp.id = id.wrapping_add(1);
    match check_response_id(id, resp) {
        Err(UpstreamError::IdMismatch { expected, got }) => {
            assert_eq!(expected, id);
            assert_eq!(got, id.wrapping_add(1));
        }
        _ => panic!("expected an id mismatch"),
    }
    let mut ok = DnsMessage::new();
    ok.id = id;
    assert!(check_response_id(id, ok).is_ok());
}

#[test]
fn resolver_start_uses_cache_then_forwarders() {
    let mut rc = RecursionConfig::default();
    rc.forwarding.zones = forwarding();
    let mut resolver = Resolver::new(&rc, &CacheConfig::default());
    let name = n("www.example.com.");
    match resolver.start(&name, RecordType::A) {
        ResolveStart::Forward(v) => assert_eq!(v[0].ip, IpAddress::V4(0x08080808)),
        _ => panic!("expected forwarding"),
    }
    let resp = ResolveResponse { answers: vec![a("www.example.com.", 4)], authority: Vec::new(), additional: Vec::new(), response_code: ResponseCode::NoError };
    resolver.record_result(&name, RecordType::A, &resp);
    match resolver.start(&name, RecordType::A) {
        ResolveStart::Cached(r) => assert_eq!(r.answers.len(), 1),
        _ => panic!("expected a cache hit"),
    }
    assert_eq!(resolver.cache_stats().hits, 1);
    match resolver.begin_iteration(&name, RecordType::A).1 {
        ResolveAction::Query { server, qname, qtype } => {
            assert_eq!(server, resolver.root_hints.servers[0]);
            assert!(qname.same_name(&n("com.")));
            assert_eq!(qtype, RecordType::A);
        }
        _ => panic!("expected a query to a root server"),
    }
}

#[test]
fn resolver_forwards_exact_zone_by_presentation_form() {
    let mut rc = RecursionConfig::default();
    rc.forwarding.zones = forwarding();
    let mut resolver = Resolver::new(&rc, &CacheConfig::default());
    match resolver.start(&n("corp.example."), RecordType::A) {
        ResolveStart::Forward(v) => assert_eq!(v[0].ip, IpAddress::V4(0x0a000001)),
        _ => panic!("expected the exact forwarding zone"),
    }
    let mut no_fwd = Resolver::new(&RecursionConfig::default(), &CacheConfig::default());
    assert!(matches!(no_fwd.start(&n("corp.example."), RecordType::A), ResolveStart::Iterate));
}

#[test]
fn nodata_is_cached_negatively_and_counters_move() {
    let mut resolver = Resolver::new(&RecursionConfig::default(), &CacheConfig::default());
    let name = n("nodata.example.com.");
    assert!(matches!(resolver.start(&name, RecordType::AAAA), ResolveStart::Iterate));
    assert_eq!(resolver.cache_stats().misses, 1);
    let resp = ResolveResponse { answers: Vec::new(), authority: Vec::new(), additional: Vec::new(), response_code: ResponseCode::NoError };
    resolver.record_result(&name, RecordType::AAAA, &resp);
    match resolver.start(&name, RecordType::AAAA) {
        ResolveStart::Cached(r) => {
            assert!(r.answers.is_empty());
            assert_eq!(r.response_code, ResponseCode::NoError);
        }
        _ => panic!("expected the negative entry"),
    }
    assert_eq!(resolver.cache_stats().hits, 1);
    assert_eq!(resolver.cache_stats().misses, 1);
    // SERVFAIL is not cached.
    let failed = ResolveResponse { answers: Vec::new(), authority: Vec::new(), additional: Vec::new(), response_code: ResponseCode::ServFail };
    resolver.record_result(&n("fail.example.com."), RecordType::A, &failed);
    assert!(matches!(resolver.start(&n("fail.example.com."), RecordType::A), ResolveStart::Iterate));
}

#[test]
fn upstream_query_is_a_plain_query() {
    let (id, q) = new_upstream_query(&n("www.Example.com."), RecordType::MX);
    assert_eq!(q.id, id);
    assert_eq!(q.op_code, 0);
    assert!(!q.recursion_desired && !q.checking_disabled && !q.authoritative);
    assert_eq!(q.queries.len(), 1);
    assert!(q.queries[0].name.same_name(&n("www.example.com.")));
    assert_eq!(q.queries[0].qtype, RecordType::MX);
    assert!(q.answers.is_empty() && q.name_servers.is_empty() && q.additionals.is_empty());
    assert!(q.edns.is_none());
}
