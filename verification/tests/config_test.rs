use cern_dns::acl::{IpNetwork, NetGroup};
use cern_dns::config::{
    default_allow_query, default_allow_recursion, default_max_depth, default_timeout, default_true, ServerConfig,
};
use cern_dns::types::{IpAddress, SocketAddress};
use cern_dns::types::decimal_string;
use cern_dns::validation::{validate, ValidationError};

#[test]
fn test_default_config() {
    let config = ServerConfig::default();
    assert_eq!(config.cache.max_ttl, 86400);
    assert_eq!(config.cache.min_ttl, 30);
    assert_eq!(config.cache.max_entries, 1_000_000);
    assert!(config.recursion.enabled);
    assert_eq!(config.recursion.max_depth, 30);
    assert!(!config.rrl.enabled);
}

#[test]
fn default_values() {
    let config = ServerConfig::default();
    assert_eq!(config.server.listen_udp.len(), 2);
    assert_eq!(config.server.listen_http, SocketAddress { ip: IpAddress::V4(0x7f00_0001), port: 9153 });
    assert_eq!(config.zones.directory, "/etc/dns/zones");
    assert_eq!(config.recursion.timeout, "2s");
    assert_eq!(config.rrl.responses_per_second, 5);
    assert_eq!(config.rrl.slip, 2);
    assert_eq!(config.rrl.ipv4_prefix_length, 24);
    assert_eq!(config.rrl.ipv6_prefix_length, 48);
    assert_eq!(config.logging.level, "info");
    assert_eq!(config.policy.allow_recursion, "none");
    assert_eq!(config.policy.allow_query, "any");
    assert_eq!(default_allow_recursion(), "none");
    assert_eq!(default_allow_query(), "any");
    assert_eq!(default_max_depth(), 30);
    assert_eq!(default_timeout(), "2s");
    assert!(default_true());
}

#[test]
fn test_valid_default_config() {
    let config = ServerConfig::default();
    assert!(validate(&config).is_ok());
}

#[test]
fn test_missing_tls_cert() {
    let mut config = ServerConfig::default();
    config.server.listen_dot = vec![SocketAddress { ip: IpAddress::V4(0), port: 853 }];
    let errors = validate(&config).unwrap_err();
    assert!(errors.iter().any(|e| matches!(e, ValidationError::MissingTlsCert)));
    assert!(errors.iter().any(|e| matches!(e, ValidationError::MissingTlsKey)));
}

#[test]
fn test_invalid_max_depth() {
    let mut config = ServerConfig::default();
    config.recursion.max_depth = 0;
    let errors = validate(&config).unwrap_err();
    assert!(errors.iter().any(|e| matches!(e, ValidationError::InvalidMaxDepth)));
}

#[test]
fn test_min_ttl_exceeds_max() {
    let mut config = ServerConfig::default();
    config.cache.min_ttl = 100;
    config.cache.max_ttl = 50;
    let errors = validate(&config).unwrap_err();
    assert!(errors.iter().any(|e| matches!(e, ValidationError::MinTtlExceedsMax { .. })));
}

#[test]
fn test_unknown_acl_group() {
    let mut config = ServerConfig::default();
    config.policy.allow_recursion = "nonexistent".to_string();
    let errors = validate(&config).unwrap_err();
    assert!(errors.iter().any(|e| matches!(e, ValidationError::UnknownAclGroup(_))));
}

#[test]
fn known_acl_group_is_accepted() {
    let mut config = ServerConfig::default();
    config.policy.allow_recursion = "cern-internal".to_string();
    config.acls = vec![NetGroup {
        name: "cern-internal".to_string(),
        networks: vec![IpNetwork { addr: IpAddress::V4(0x808d_0000), prefix_len: 16 }],
    }];
    assert!(validate(&config).is_ok());
}

#[test]
fn errors_come_in_check_order() {
    let mut config = ServerConfig::default();
    config.server.listen_doh = vec![SocketAddress { ip: IpAddress::V4(0), port: 443 }];
    config.recursion.max_depth = 0;
    config.rrl.enabled = true;
    config.rrl.slip = 0;
    config.cache.min_ttl = 7;
    config.cache.max_ttl = 3;
    config.policy.allow_recursion = "x".to_string();
    config.rrl.ipv4_prefix_length = 33;
    config.rrl.ipv6_prefix_length = 129;
    let errors = validate(&config).unwrap_err();
    let messages: Vec<String> = errors.iter().map(|e| e.message()).collect();
    assert_eq!(
        messages,
        vec![
            "TLS cert_path is required when DoT or DoH listeners are configured",
            "TLS key_path is required when DoT or DoH listeners are configured",
            "recursion.max_depth must be > 0",
            "rrl.slip must be >= 1",
            "cache.min_ttl (7) must be <= cache.max_ttl (3)",
            "policy.allow_recursion references unknown ACL group: x",
            "ipv4_prefix_length must be <= 32, got 33",
            "ipv6_prefix_length must be <= 128, got 129",
        ]
    );
}

#[test]
fn slip_only_checked_when_enabled() {
    let mut config = ServerConfig::default();
    config.rrl.slip = 0;
    assert!(validate(&config).is_ok());
}

#[test]
fn decimal_forms() {
    assert_eq!(decimal_string(0), "0");
    assert_eq!(decimal_string(7), "7");
    assert_eq!(decimal_string(86400), "86400");
    assert_eq!(decimal_string(u32::MAX as u64), "4294967295");
    assert_eq!(decimal_string(u64::MAX), "18446744073709551615");
}
