use crate::acl::NetGroup;
use crate::types::{IpAddress, SocketAddress};
use vstd::prelude::*;

verus! {

/// The whole server configuration; every section has defaults.
#[derive(Debug, Clone)]
pub struct ServerConfig {
    pub server: ListenConfig,
    pub tls: TlsConfig,
    pub zones: ZonesConfig,
    pub recursion: RecursionConfig,
    pub cache: CacheConfig,
    pub dnssec: DnssecConfig,
    pub rrl: RrlConfig,
    pub logging: LoggingConfig,
    pub acls: Vec<NetGroup>,
    pub policy: PolicyConfig,
}

/// The addresses the server listens on, and the number of worker threads
/// (0: one per CPU).
#[derive(Debug, Clone)]
pub struct ListenConfig {
    pub listen_udp: Vec<SocketAddress>,
    pub listen_tcp: Vec<SocketAddress>,
    pub listen_dot: Vec<SocketAddress>,
    pub listen_doh: Vec<SocketAddress>,
    pub listen_http: SocketAddress,
    pub workers: usize,
}

/// The certificate and key for DoT and DoH.
#[derive(Debug, Clone)]
pub struct TlsConfig {
    pub cert_path: Option<String>,
    pub key_path: Option<String>,
}

/// Where zone files are, and whether to watch them for changes.
#[derive(Debug, Clone)]
pub struct ZonesConfig {
    pub directory: String,
    pub watch: bool,
}

/// Forwarding: the servers that queries for a zone go to.
#[derive(Debug)]
pub struct ForwardZone {
    pub zone: String,
    pub servers: Vec<SocketAddress>,
}

pub struct ForwardZoneV {
    pub zone: Seq<char>,
    pub servers: Seq<SocketAddress>,
}

impl View for ForwardZone {
    type V = ForwardZoneV;

    open spec fn view(&self) -> ForwardZoneV {
        ForwardZoneV { zone: self.zone@, servers: self.servers@ }
    }
}

impl Clone for ForwardZone {
    fn clone(&self) -> (r: Self)
        ensures
            r@ == self@,
    {
        let mut servers: Vec<SocketAddress> = Vec::new();
        let mut i: usize = 0;
        while i < self.servers.len()
            invariant
                i <= self.servers@.len(),
                servers@ == self.servers@.subrange(0, i as int),
            decreases self.servers@.len() - i,
        {
            servers.push(self.servers[i]);
            assert(servers@ =~= self.servers@.subrange(0, i + 1));
            i = i + 1;
        }
        assert(servers@ =~= self.servers@);
        ForwardZone { zone: self.zone.clone(), servers }
    }
}

/// The views of a list of forwarding zones.
pub open spec fn forward_zones_view(v: Seq<ForwardZone>) -> Seq<ForwardZoneV> {
    v.map_values(|z: ForwardZone| z@)
}

/// A copy of a list of forwarding zones.
pub fn copy_forward_zones(v: &Vec<ForwardZone>) -> (r: Vec<ForwardZone>)
    ensures
        forward_zones_view(r@) == forward_zones_view(v@),
{
    let mut out: Vec<ForwardZone> = Vec::new();
    let mut i: usize = 0;
    while i < v.len()
        invariant
            i <= v@.len(),
            forward_zones_view(out@) == forward_zones_view(v@).subrange(0, i as int),
        decreases v@.len() - i,
    {
        let ghost before = forward_zones_view(out@);
        let z = v[i].clone();
        out.push(z);
        assert(forward_zones_view(out@) =~= before.push(v@[i as int]@));
        assert(forward_zones_view(v@).subrange(0, i + 1) =~= forward_zones_view(v@).subrange(0, i as int).push(v@[i as int]@));
        i = i + 1;
    }
    assert(forward_zones_view(v@).subrange(0, v@.len() as int) =~= forward_zones_view(v@));
    out
}

#[derive(Debug, Clone)]
pub struct ForwardingConfig {
    pub zones: Vec<ForwardZone>,
}

/// The recursive resolver's settings.
#[derive(Debug, Clone)]
pub struct RecursionConfig {
    pub enabled: bool,
    pub root_hints: String,
    pub max_depth: u32,
    pub timeout: String,
    pub retries: u32,
    pub qname_minimization: bool,
    pub forwarding: ForwardingConfig,
}

/// The resolver cache's size and TTL limits.
#[derive(Debug, Clone, Copy)]
pub struct CacheConfig {
    pub max_entries: u64,
    pub max_ttl: u32,
    pub min_ttl: u32,
    pub negative_ttl: u32,
}

/// DNSSEC signing and validation.
#[derive(Debug, Clone)]
pub struct DnssecConfig {
    pub enable_signing: bool,
    pub enable_validation: bool,
    pub key_directory: String,
    pub auto_rotate: bool,
    pub algorithms: DnssecAlgorithms,
}

/// The algorithms of the zone-signing and key-signing keys.
#[derive(Debug, Clone)]
pub struct DnssecAlgorithms {
    pub zsk: String,
    pub ksk: String,
}

/// Response rate limiting.
#[derive(Debug, Clone, Copy)]
pub struct RrlConfig {
    pub enabled: bool,
    pub responses_per_second: u32,
    pub slip: u32,
    pub ipv4_prefix_length: u8,
    pub ipv6_prefix_length: u8,
}

/// Log level and format.
#[derive(Debug, Clone)]
pub struct LoggingConfig {
    pub level: String,
    pub format: String,
}

/// Who may ask for recursion and who may query: "any", "none" or an ACL group.
#[derive(Debug, Clone)]
pub struct PolicyConfig {
    pub allow_recursion: String,
    pub allow_query: String,
}

/// UDP listeners by default: port 53 on all IPv4 and all IPv6 addresses.
pub fn default_listen_udp() -> (r: Vec<SocketAddress>)
    ensures
        r@ == seq![SocketAddress { ip: IpAddress::V4(0), port: 53 }, SocketAddress { ip: IpAddress::V6(0), port: 53 }],
{
    let mut v: Vec<SocketAddress> = Vec::new();
    v.push(SocketAddress { ip: IpAddress::V4(0), port: 53 });
    v.push(SocketAddress { ip: IpAddress::V6(0), port: 53 });
    v
}

/// TCP listeners by default: port 53 on all IPv4 and all IPv6 addresses.
pub fn default_listen_tcp() -> (r: Vec<SocketAddress>)
    ensures
        r@ == seq![SocketAddress { ip: IpAddress::V4(0), port: 53 }, SocketAddress { ip: IpAddress::V6(0), port: 53 }],
{
    default_listen_udp()
}

/// The HTTP API listens on 127.0.0.1:9153 by default.
pub fn default_listen_http() -> (r: SocketAddress)
    ensures
        r == (SocketAddress { ip: IpAddress::V4(0x7f00_0001), port: 9153 }),
{
    SocketAddress { ip: IpAddress::V4(0x7f00_0001), port: 9153 }
}

pub fn default_zone_dir() -> (r: String)
    ensures
        r@ == "/etc/dns/zones"@,
{
    "/etc/dns/zones".to_string()
}

pub fn default_root_hints() -> (r: String)
    ensures
        r@ == "/etc/dns/root.hints"@,
{
    "/etc/dns/root.hints".to_string()
}

pub fn default_max_depth() -> (r: u32)
    ensures
        r == 30,
{
    30
}

pub fn default_timeout() -> (r: String)
    ensures
        r@ == "2s"@,
{
    "2s".to_string()
}

pub fn default_retries() -> (r: u32)
    ensures
        r == 2,
{
    2
}

pub fn default_max_entries() -> (r: u64)
    ensures
        r == 1_000_000,
{
    1_000_000
}

pub fn default_max_ttl() -> (r: u32)
    ensures
        r == 86400,
{
    86400
}

pub fn default_min_ttl() -> (r: u32)
    ensures
        r == 30,
{
    30
}

pub fn default_negative_ttl() -> (r: u32)
    ensures
        r == 300,
{
    300
}

pub fn default_key_dir() -> (r: String)
    ensures
        r@ == "/etc/dns/keys"@,
{
    "/etc/dns/keys".to_string()
}

pub fn default_algorithm() -> (r: String)
    ensures
        r@ == "ECDSAP256SHA256"@,
{
    "ECDSAP256SHA256".to_string()
}

pub fn default_rps() -> (r: u32)
    ensures
        r == 5,
{
    5
}

pub fn default_slip() -> (r: u32)
    ensures
        r == 2,
{
    2
}

pub fn default_ipv4_prefix() -> (r: u8)
    ensures
        r == 24,
{
    24
}

pub fn default_ipv6_prefix() -> (r: u8)
    ensures
        r == 48,
{
    48
}

pub fn default_log_level() -> (r: String)
    ensures
        r@ == "info"@,
{
    "info".to_string()
}

pub fn default_log_format() -> (r: String)
    ensures
        r@ == "json"@,
{
    "json".to_string()
}

pub fn default_allow_recursion() -> (r: String)
    ensures
        r@ == "none"@,
{
    "none".to_string()
}

pub fn default_allow_query() -> (r: String)
    ensures
        r@ == "any"@,
{
    "any".to_string()
}

pub fn default_true() -> (r: bool)
    ensures
        r,
{
    true
}

impl Default for ListenConfig {
    fn default() -> (r: Self)
        ensures
            r.listen_udp@ == seq![SocketAddress { ip: IpAddress::V4(0), port: 53 }, SocketAddress { ip: IpAddress::V6(0), port: 53 }],
            r.listen_tcp@ == seq![SocketAddress { ip: IpAddress::V4(0), port: 53 }, SocketAddress { ip: IpAddress::V6(0), port: 53 }],
            r.listen_dot@.len() == 0,
            r.listen_doh@.len() == 0,
            r.listen_http == (SocketAddress { ip: IpAddress::V4(0x7f00_0001), port: 9153 }),
            r.workers == 0,
    {
        ListenConfig {
            listen_udp: default_listen_udp(),
            listen_tcp: default_listen_tcp(),
            listen_dot: Vec::new(),
            listen_doh: Vec::new(),
            listen_http: default_listen_http(),
            workers: 0,
        }
    }
}

impl Default for TlsConfig {
    fn default() -> (r: Self)
        ensures
            r.cert_path is None,
            r.key_path is None,
    {
        TlsConfig { cert_path: None, key_path: None }
    }
}

impl Default for ZonesConfig {
    fn default() -> (r: Self)
        ensures
            r.directory@ == "/etc/dns/zones"@,
            !r.watch,
    {
        ZonesConfig { directory: default_zone_dir(), watch: false }
    }
}

impl Default for ForwardingConfig {
    fn default() -> (r: Self)
        ensures
            r.zones@.len() == 0,
    {
        ForwardingConfig { zones: Vec::new() }
    }
}

impl Default for RecursionConfig {
    fn default() -> (r: Self)
        ensures
            r.enabled,
            r.root_hints@ == "/etc/dns/root.hints"@,
            r.max_depth == 30,
            r.timeout@ == "2s"@,
            r.retries == 2,
            r.qname_minimization,
            r.forwarding.zones@.len() == 0,
    {
        RecursionConfig {
            enabled: default_true(),
            root_hints: default_root_hints(),
            max_depth: default_max_depth(),
            timeout: default_timeout(),
            retries: default_retries(),
            qname_minimization: default_true(),
            forwarding: ForwardingConfig::default(),
        }
    }
}

impl Default for CacheConfig {
    fn default() -> (r: Self)
        ensures
            r.max_entries == 1_000_000,
            r.max_ttl == 86400,
            r.min_ttl == 30,
            r.negative_ttl == 300,
    {
        CacheConfig {
            max_entries: default_max_entries(),
            max_ttl: default_max_ttl(),
            min_ttl: default_min_ttl(),
            negative_ttl: default_negative_ttl(),
        }
    }
}

impl Default for DnssecAlgorithms {
    fn default() -> (r: Self)
        ensures
            r.zsk@ == "ECDSAP256SHA256"@,
            r.ksk@ == "ECDSAP256SHA256"@,
    {
        DnssecAlgorithms { zsk: default_algorithm(), ksk: default_algorithm() }
    }
}

impl Default for DnssecConfig {
    fn default() -> (r: Self)
        ensures
            !r.enable_signing,
            !r.enable_validation,
            r.key_directory@ == "/etc/dns/keys"@,
            !r.auto_rotate,
            r.algorithms.zsk@ == "ECDSAP256SHA256"@,
            r.algorithms.ksk@ == "ECDSAP256SHA256"@,
    {
        DnssecConfig {
            enable_signing: false,
            enable_validation: false,
            key_directory: default_key_dir(),
            auto_rotate: false,
            algorithms: DnssecAlgorithms::default(),
        }
    }
}

impl Default for RrlConfig {
    fn default() -> (r: Self)
        ensures
            !r.enabled,
            r.responses_per_second == 5,
            r.slip == 2,
            r.ipv4_prefix_length == 24,
            r.ipv6_prefix_length == 48,
    {
        RrlConfig {
            enabled: false,
            responses_per_second: default_rps(),
            slip: default_slip(),
            ipv4_prefix_length: default_ipv4_prefix(),
            ipv6_prefix_length: default_ipv6_prefix(),
        }
    }
}

impl Default for LoggingConfig {
    fn default() -> (r: Self)
        ensures
            r.level@ == "info"@,
            r.format@ == "json"@,
    {
        LoggingConfig { level: default_log_level(), format: default_log_format() }
    }
}

impl Default for PolicyConfig {
    fn default() -> (r: Self)
        ensures
            r.allow_recursion@ == "none"@,
            r.allow_query@ == "any"@,
    {
        PolicyConfig { allow_recursion: default_allow_recursion(), allow_query: default_allow_query() }
    }
}

/// What the default configuration holds.
pub open spec fn is_default_config(c: ServerConfig) -> bool {
    &&& c.server.listen_dot@.len() == 0
    &&& c.server.listen_doh@.len() == 0
    &&& c.server.workers == 0
    &&& c.tls.cert_path is None
    &&& c.tls.key_path is None
    &&& c.zones.directory@ == "/etc/dns/zones"@
    &&& !c.zones.watch
    &&& c.recursion.enabled
    &&& c.recursion.max_depth == 30
    &&& c.recursion.timeout@ == "2s"@
    &&& c.recursion.retries == 2
    &&& c.recursion.qname_minimization
    &&& c.cache.max_entries == 1_000_000
    &&& c.cache.max_ttl == 86400
    &&& c.cache.min_ttl == 30
    &&& c.cache.negative_ttl == 300
    &&& !c.dnssec.enable_signing
    &&& !c.dnssec.enable_validation
    &&& !c.rrl.enabled
    &&& c.rrl.responses_per_second == 5
    &&& c.rrl.slip == 2
    &&& c.rrl.ipv4_prefix_length == 24
    &&& c.rrl.ipv6_prefix_length == 48
    &&& c.logging.level@ == "info"@
    &&& c.logging.format@ == "json"@
    &&& c.acls@.len() == 0
    &&& c.policy.allow_recursion@ == "none"@
    &&& c.policy.allow_query@ == "any"@
}

impl Default for ServerConfig {
    fn default() -> (r: Self)
        ensures
            is_default_config(r),
    {
        ServerConfig {
            server: ListenConfig::default(),
            tls: TlsConfig::default(),
            zones: ZonesConfig::default(),
            recursion: RecursionConfig::default(),
            cache: CacheConfig::default(),
            dnssec: DnssecConfig::default(),
            rrl: RrlConfig::default(),
            logging: LoggingConfig::default(),
            acls: Vec::new(),
            policy: PolicyConfig::default(),
        }
    }
}

} // verus!
