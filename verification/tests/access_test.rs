use cern_dns::acl::{parse_policy, AclEngine, AclPolicy, IpNetwork, NetGroup};
use cern_dns::rate_limit::{mask_ipv4, mask_ipv6, ConnectionLimiter, RrlAction, RrlEngine};
use cern_dns::types::IpAddress;

fn v4(a: u8, b: u8, c: u8, d: u8) -> IpAddress {
    IpAddress::V4(u32::from_be_bytes([a, b, c, d]))
}

fn net(a: u8, b: u8, c: u8, d: u8, prefix_len: u8) -> IpNetwork {
    IpNetwork { addr: v4(a, b, c, d), prefix_len }
}

fn test_engine() -> AclEngine {
    let groups = vec![NetGroup {
        name: "internal".to_string(),
        networks: vec![net(10, 0, 0, 0, 8), net(192, 168, 0, 0, 16)],
    }];
    AclEngine::new(groups, "internal", "any")
}

#[test]
fn test_query_allowed_any() {
    let engine = test_engine();
    assert!(engine.is_query_allowed(&v4(1, 2, 3, 4)));
    assert!(engine.is_query_allowed(&v4(10, 0, 0, 1)));
}

#[test]
fn test_recursion_internal_only() {
    let engine = test_engine();
    assert!(engine.is_recursion_allowed(&v4(10, 0, 0, 1)));
    assert!(engine.is_recursion_allowed(&v4(192, 168, 1, 1)));
    assert!(!engine.is_recursion_allowed(&v4(1, 2, 3, 4)));
}

#[test]
fn test_none_policy() {
    let engine = AclEngine::new(Vec::new(), "none", "none");
    assert!(!engine.is_recursion_allowed(&v4(10, 0, 0, 1)));
    assert!(!engine.is_query_allowed(&v4(10, 0, 0, 1)));
}

#[test]
fn test_any_policy() {
    let engine = AclEngine::new(Vec::new(), "any", "any");
    assert!(engine.is_recursion_allowed(&v4(1, 2, 3, 4)));
    assert!(engine.is_query_allowed(&v4(1, 2, 3, 4)));
}

#[test]
fn policy_words() {
    assert!(matches!(parse_policy("any"), AclPolicy::Any));
    assert!(matches!(parse_policy("none"), AclPolicy::Nobody));
    match parse_policy("internal") {
        AclPolicy::Groups(g) => assert_eq!(g, vec!["internal".to_string()]),
        _ => panic!("a group name gives a group policy"),
    }
    // Only the exact lower-case words are keywords.
    assert!(matches!(parse_policy("ANY"), AclPolicy::Groups(_)));
}

#[test]
fn unknown_group_allows_nobody() {
    let engine = AclEngine::new(Vec::new(), "missing", "any");
    assert!(!engine.is_recursion_allowed(&v4(10, 0, 0, 1)));
}

#[test]
fn network_bounds() {
    let n = net(10, 1, 2, 3, 8);
    assert!(n.contains(&v4(10, 0, 0, 0)));
    assert!(n.contains(&v4(10, 255, 255, 255)));
    assert!(!n.contains(&v4(11, 0, 0, 0)));
    assert!(!n.contains(&v4(9, 255, 255, 255)));
    assert!(!n.contains(&IpAddress::V6(1)));
    let all = net(0, 0, 0, 0, 0);
    assert!(all.contains(&v4(255, 255, 255, 255)));
    let host = net(192, 0, 2, 7, 32);
    assert!(host.contains(&v4(192, 0, 2, 7)));
    assert!(!host.contains(&v4(192, 0, 2, 8)));
    let v6 = IpNetwork { addr: IpAddress::V6(0x2001_0db8u128 << 96), prefix_len: 32 };
    assert!(v6.contains(&IpAddress::V6((0x2001_0db8u128 << 96) | 0xffff)));
    assert!(!v6.contains(&IpAddress::V6(0x2001_0db9u128 << 96)));
}

#[test]
fn test_rrl_allow_under_limit() {
    let mut rrl = RrlEngine::new(10, 2, 24, 48);
    let src = v4(192, 168, 1, 1);
    for _ in 0..10 {
        assert_eq!(rrl.check(src), RrlAction::Allow);
    }
}

#[test]
fn test_rrl_rate_limit_over_limit() {
    let mut rrl = RrlEngine::new(5, 2, 24, 48);
    let src = v4(10, 0, 0, 1);
    for _ in 0..5 {
        assert_eq!(rrl.check(src), RrlAction::Allow);
    }
    let action = rrl.check(src);
    assert!(action == RrlAction::Drop || action == RrlAction::Truncate);
}

#[test]
fn test_rrl_ipv4_prefix_grouping() {
    let mut rrl = RrlEngine::new(3, 0, 24, 48);
    let src1 = v4(192, 168, 1, 1);
    let src2 = v4(192, 168, 1, 200);
    for _ in 0..3 {
        rrl.check(src1);
    }
    assert_eq!(rrl.check(src2), RrlAction::Drop);
}

#[test]
fn test_connection_limiter() {
    let mut limiter = ConnectionLimiter::new(2);
    let addr = v4(10, 0, 0, 1);
    assert!(limiter.try_acquire(addr));
    assert!(limiter.try_acquire(addr));
    assert!(!limiter.try_acquire(addr));
    limiter.release(addr);
    assert!(limiter.try_acquire(addr));
}

#[test]
fn rrl_slip_alternates_truncate_and_drop() {
    let mut rrl = RrlEngine::new(1, 2, 24, 48);
    let src = v4(10, 0, 0, 1);
    assert_eq!(rrl.check_at(src, 0), RrlAction::Allow);
    assert_eq!(rrl.check_at(src, 0), RrlAction::Truncate);
    assert_eq!(rrl.check_at(src, 0), RrlAction::Drop);
    assert_eq!(rrl.check_at(src, 0), RrlAction::Truncate);
}

#[test]
fn rrl_refills_over_time() {
    let mut rrl = RrlEngine::new(2, 0, 24, 48);
    let src = v4(10, 0, 0, 1);
    assert_eq!(rrl.check_at(src, 0), RrlAction::Allow);
    assert_eq!(rrl.check_at(src, 0), RrlAction::Allow);
    assert_eq!(rrl.check_at(src, 0), RrlAction::Drop);
    // Half a second at two per second refills one token.
    assert_eq!(rrl.check_at(src, 500_000_000), RrlAction::Allow);
    assert_eq!(rrl.check_at(src, 500_000_000), RrlAction::Drop);
    // A long pause refills at most one second's worth.
    assert_eq!(rrl.check_at(src, 100_000_000_000), RrlAction::Allow);
    assert_eq!(rrl.check_at(src, 100_000_000_000), RrlAction::Allow);
    assert_eq!(rrl.check_at(src, 100_000_000_000), RrlAction::Drop);
}

#[test]
fn rrl_prefixes_are_independent() {
    let mut rrl = RrlEngine::new(1, 0, 24, 48);
    assert_eq!(rrl.check_at(v4(10, 0, 0, 1), 0), RrlAction::Allow);
    assert_eq!(rrl.check_at(v4(10, 0, 0, 2), 0), RrlAction::Drop);
    assert_eq!(rrl.check_at(v4(10, 0, 1, 1), 0), RrlAction::Allow);
    assert_eq!(rrl.mask_ip(v4(10, 0, 1, 77)), v4(10, 0, 1, 0));
}

#[test]
fn prefix_masks() {
    assert_eq!(mask_ipv4(0xC0A8_01C8, 24), 0xC0A8_0100);
    assert_eq!(mask_ipv4(0xC0A8_01C8, 32), 0xC0A8_01C8);
    assert_eq!(mask_ipv4(0xFFFF_FFFF, 1), 0x8000_0000);
    assert_eq!(mask_ipv6(u128::MAX, 48), u128::MAX << 80);
    assert_eq!(mask_ipv6(12345, 128), 12345);
}

#[test]
fn limiter_counts_per_address() {
    let mut limiter = ConnectionLimiter::new(1);
    let a = v4(10, 0, 0, 1);
    let b = v4(10, 0, 0, 2);
    assert!(limiter.try_acquire(a));
    assert!(limiter.try_acquire(b));
    assert!(!limiter.try_acquire(a));
    assert_eq!(limiter.open_connections(a), 1);
    limiter.release(a);
    assert_eq!(limiter.open_connections(a), 0);
    limiter.release(a);
    assert_eq!(limiter.open_connections(a), 0);
    assert_eq!(limiter.open_connections(b), 1);
}
