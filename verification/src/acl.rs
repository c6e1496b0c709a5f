use crate::types::IpAddress;
use vstd::prelude::*;

verus! {

/// An IP network: an address and a prefix length (at most 32 for IPv4, 128
/// for IPv6). Host bits of the address are kept, as written.
#[derive(Debug, Clone, Copy, PartialEq, Eq, Structural)]
pub struct IpNetwork {
    pub addr: IpAddress,
    pub prefix_len: u8,
}

/// The netmask of an IPv4 prefix length: `len` one bits, then zeros.
pub open spec fn netmask_v4(len: u8) -> u32 {
    if len == 0 { 0 } else if len >= 32 { u32::MAX } else { u32::MAX << ((32 - len) as u32) }
}

/// The netmask of an IPv6 prefix length.
pub open spec fn netmask_v6(len: u8) -> u128 {
    if len == 0 { 0 } else if len >= 128 { u128::MAX } else { u128::MAX << ((128 - len) as u128) }
}

/// A network holds an address of its own family between its network address
/// (host bits cleared) and its broadcast address (host bits set).
pub open spec fn net_contains(net: IpNetwork, ip: IpAddress) -> bool {
    match (net.addr, ip) {
        (IpAddress::V4(a), IpAddress::V4(x)) => {
            let m = netmask_v4(net.prefix_len);
            (a & m) <= x && x <= (a | !m)
        },
        (IpAddress::V6(a), IpAddress::V6(x)) => {
            let m = netmask_v6(net.prefix_len);
            (a & m) <= x && x <= (a | !m)
        },
        _ => false,
    }
}

impl IpNetwork {
    /// Whether the network holds `ip`.
    pub fn contains(&self, ip: &IpAddress) -> (r: bool)
        ensures
            r == net_contains(*self, *ip),
    {
        match (self.addr, *ip) {
            (IpAddress::V4(a), IpAddress::V4(x)) => {
                let m: u32 = if self.prefix_len == 0 {
                    0
                } else if self.prefix_len >= 32 {
                    u32::MAX
                } else {
                    u32::MAX << ((32 - self.prefix_len) as u32)
                };
                (a & m) <= x && x <= (a | !m)
            },
            (IpAddress::V6(a), IpAddress::V6(x)) => {
                let m: u128 = if self.prefix_len == 0 {
                    0
                } else if self.prefix_len >= 128 {
                    u128::MAX
                } else {
                    u128::MAX << ((128 - self.prefix_len) as u128)
                };
                (a & m) <= x && x <= (a | !m)
            },
            _ => false,
        }
    }
}

/// Who may use a service: everyone, no one, or the members of named groups.
#[derive(Debug, Clone)]
pub enum AclPolicy {
    Any,
    Nobody,
    Groups(Vec<String>),
}

pub enum AclPolicyV {
    Any,
    Nobody,
    Groups(Seq<Seq<char>>),
}

impl View for AclPolicy {
    type V = AclPolicyV;

    open spec fn view(&self) -> AclPolicyV {
        match self {
            AclPolicy::Any => AclPolicyV::Any,
            AclPolicy::Nobody => AclPolicyV::Nobody,
            AclPolicy::Groups(g) => AclPolicyV::Groups(g@.map_values(|s: String| s@)),
        }
    }
}

/// The policy a configuration word names: "any", "none", or else the one
/// group of that name.
pub open spec fn spec_parse_policy(s: Seq<char>) -> AclPolicyV {
    if s == "any"@ {
        AclPolicyV::Any
    } else if s == "none"@ {
        AclPolicyV::Nobody
    } else {
        AclPolicyV::Groups(seq![s])
    }
}

/// Read a policy word: "any", "none", or a group name.
pub fn parse_policy(s: &str) -> (r: AclPolicy)
    ensures
        r@ == spec_parse_policy(s@),
{
    let owned = s.to_string();
    let any = "any".to_string();
    let none = "none".to_string();
    if owned == any {
        AclPolicy::Any
    } else if owned == none {
        AclPolicy::Nobody
    } else {
        let mut v: Vec<String> = Vec::new();
        v.push(owned);
        assert(v@.map_values(|x: String| x@) =~= seq![s@]);
        AclPolicy::Groups(v)
    }
}

/// A named group of networks.
#[derive(Debug, Clone)]
pub struct NetGroup {
    pub name: String,
    pub networks: Vec<IpNetwork>,
}

/// Some group named `g` holds `ip` in one of its networks.
#[verifier::opaque]
pub open spec fn group_holds(groups: Seq<NetGroup>, g: Seq<char>, ip: IpAddress) -> bool {
    exists|i: int, j: int|
        0 <= i < groups.len() && groups[i].name@ == g && 0 <= j < groups[i].networks@.len()
            && net_contains(#[trigger] groups[i].networks@[j], ip)
}

/// Whether `policy` lets `ip` in.
pub open spec fn policy_allows(groups: Seq<NetGroup>, policy: AclPolicyV, ip: IpAddress) -> bool {
    match policy {
        AclPolicyV::Any => true,
        AclPolicyV::Nobody => false,
        AclPolicyV::Groups(gs) => groups_allow(groups, gs, ip),
    }
}

/// One of the groups named in `gs` holds `ip`.
pub open spec fn groups_allow(groups: Seq<NetGroup>, gs: Seq<Seq<char>>, ip: IpAddress) -> bool {
    exists|k: int| 0 <= k < gs.len() && group_holds(groups, #[trigger] gs[k], ip)
}

/// Access control for queries and recursion.
#[derive(Debug, Clone)]
pub struct AclEngine {
    pub named_groups: Vec<NetGroup>,
    pub allow_recursion: AclPolicy,
    pub allow_query: AclPolicy,
}

impl AclEngine {
    /// An engine with the given groups and the two policies as written in
    /// the configuration.
    pub fn new(named_groups: Vec<NetGroup>, allow_recursion: &str, allow_query: &str) -> (r: AclEngine)
        ensures
            r.named_groups@ == named_groups@,
            r.allow_recursion@ == spec_parse_policy(allow_recursion@),
            r.allow_query@ == spec_parse_policy(allow_query@),
    {
        AclEngine {
            named_groups,
            allow_recursion: parse_policy(allow_recursion),
            allow_query: parse_policy(allow_query),
        }
    }

    /// Whether `src` may ask for recursion.
    pub fn is_recursion_allowed(&self, src: &IpAddress) -> (r: bool)
        ensures
            r == policy_allows(self.named_groups@, self.allow_recursion@, *src),
    {
        self.matches_policy(src, &self.allow_recursion)
    }

    /// Whether `src` may query at all.
    pub fn is_query_allowed(&self, src: &IpAddress) -> (r: bool)
        ensures
            r == policy_allows(self.named_groups@, self.allow_query@, *src),
    {
        self.matches_policy(src, &self.allow_query)
    }

    fn group_matches(&self, group_name: &String, src: &IpAddress) -> (r: bool)
        ensures
            r == group_holds(self.named_groups@, group_name@, *src),
    {
        reveal(group_holds);
        let groups = &self.named_groups;
        let mut i: usize = 0;
        while i < groups.len()
            invariant
                i <= groups@.len(),
                groups@ == self.named_groups@,
                forall|a: int, b: int|
                    0 <= a < i && groups@[a].name@ == group_name@ && 0 <= b < groups@[a].networks@.len()
                        ==> !net_contains(#[trigger] groups@[a].networks@[b], *src),
            decreases groups@.len() - i,
        {
            let g = &groups[i];
            if g.name == *group_name {
                let mut j: usize = 0;
                while j < g.networks.len()
                    invariant
                        j <= g.networks@.len(),
                        i < groups@.len(),
                        groups@ == self.named_groups@,
                        *g == groups@[i as int],
                        g.name@ == group_name@,
                        forall|b: int| 0 <= b < j ==> !net_contains(#[trigger] g.networks@[b], *src),
                        forall|a: int, b: int|
                            0 <= a < i && groups@[a].name@ == group_name@ && 0 <= b < groups@[a].networks@.len()
                                ==> !net_contains(#[trigger] groups@[a].networks@[b], *src),
                    decreases g.networks@.len() - j,
                {
                    if g.networks[j].contains(src) {
                        assert(groups@[i as int].networks@[j as int] == g.networks@[j as int]);
                        assert(net_contains(self.named_groups@[i as int].networks@[j as int], *src));
                        assert(self.named_groups@[i as int].name@ == group_name@);
                        reveal(group_holds);
                        return true;
                    }
                    j = j + 1;
                }
            }
            i = i + 1;
        }
        false
    }

    fn matches_policy(&self, src: &IpAddress, policy: &AclPolicy) -> (r: bool)
        ensures
            r == policy_allows(self.named_groups@, policy@, *src),
    {
        match policy {
            AclPolicy::Any => true,
            AclPolicy::Nobody => false,
            AclPolicy::Groups(groups) => {
                let ghost gs = groups@.map_values(|s: String| s@);
                let mut k: usize = 0;
                assert(policy@ == AclPolicyV::Groups(gs));
                while k < groups.len()
                    invariant
                        k <= groups@.len(),
                        policy@ == AclPolicyV::Groups(gs),
                        gs == groups@.map_values(|s: String| s@),
                        forall|a: int| 0 <= a < k ==> !group_holds(self.named_groups@, #[trigger] gs[a], *src),
                    decreases groups@.len() - k,
                {
                    assert(policy@ == AclPolicyV::Groups(gs));
                    if self.group_matches(&groups[k], src) {
                        assert(gs[k as int] == groups@[k as int]@);
                        assert(policy@ == AclPolicyV::Groups(gs));
                        assert(group_holds(self.named_groups@, gs[k as int], *src));
                        assert(groups_allow(self.named_groups@, gs, *src));
                        return true;
                    }
                    k = k + 1;
                }
                false
            },
        }
    }
}

/// A policy of "any" lets every address in, and "none" none.
pub proof fn lemma_any_none(groups: Seq<NetGroup>, ip: IpAddress)
    ensures
        policy_allows(groups, spec_parse_policy("any"@), ip),
        !policy_allows(groups, spec_parse_policy("none"@), ip),
{
    reveal_strlit("any");
    reveal_strlit("none");
    assert("any"@.len() == 3);
    assert("none"@.len() == 4);
    assert("none"@ != "any"@);
}

proof fn lemma_v6_prefix_bits(a: u128, x: u128, sh: u128)
    requires
        sh < 128,
    ensures
        ((a & (u128::MAX << sh)) <= x && x <= (a | !(u128::MAX << sh))) == ((x >> sh) == (a >> sh)),
{
    let m = u128::MAX << sh;
    assert(x & m <= x && x <= (x & m) | !m) by (bit_vector);
    assert((x >> sh) == (a >> sh) ==> (x & (u128::MAX << sh)) == (a & (u128::MAX << sh))) by (bit_vector)
        requires
            sh < 128,
    ;
    assert((a & (u128::MAX << sh)) >> sh == a >> sh) by (bit_vector)
        requires
            sh < 128,
    ;
    assert((a | !(u128::MAX << sh)) >> sh == a >> sh) by (bit_vector)
        requires
            sh < 128,
    ;
    assert(a | !m == (a & m) | !m) by (bit_vector);
    assert(forall|u: u128, v: u128| u <= v ==> #[trigger] (u >> sh) <= #[trigger] (v >> sh)) by (bit_vector);
}

proof fn lemma_v4_prefix_bits(a: u32, x: u32, sh: u32)
    requires
        sh < 32,
    ensures
        ((a & (u32::MAX << sh)) <= x && x <= (a | !(u32::MAX << sh))) == ((x >> sh) == (a >> sh)),
{
    assert(((a & (u32::MAX << sh)) <= x && x <= (a | !(u32::MAX << sh))) == ((x >> sh) == (a >> sh))) by (bit_vector)
        requires
            sh < 32,
    ;
}

/// The first `len` bits of two IPv6 addresses agree (all do for length 0;
/// lengths of 128 or more compare whole addresses).
pub open spec fn same_v6_prefix(a: u128, x: u128, len: u8) -> bool {
    ||| len == 0
    ||| len >= 128 && x == a
    ||| 0 < len < 128 && (x >> ((128 - len) as u128)) == (a >> ((128 - len) as u128))
}

/// The first `len` bits of two IPv4 addresses agree (all do for length 0;
/// lengths of 32 or more compare whole addresses).
pub open spec fn same_v4_prefix(a: u32, x: u32, len: u8) -> bool {
    ||| len == 0
    ||| len >= 32 && x == a
    ||| 0 < len < 32 && (x >> ((32 - len) as u32)) == (a >> ((32 - len) as u32))
}

/// An IPv6 network of prefix length `len` holds exactly the IPv6 addresses
/// whose first `len` bits are those of its address: every address for
/// length 0, only its own address for length 128; and no IPv4 address.
pub proof fn lemma_v6_network_holds_its_prefix(net: IpNetwork, x: u128, y: u32)
    requires
        net.addr is V6,
    ensures
        net_contains(net, IpAddress::V6(x)) <==> same_v6_prefix(net.addr->V6_0, x, net.prefix_len),
        !net_contains(net, IpAddress::V4(y)),
{
    let a = net.addr->V6_0;
    let len = net.prefix_len;
    if len == 0 {
        assert(a & 0 == 0 && a | !0u128 == u128::MAX) by (bit_vector);
    } else if len >= 128 {
        assert((a & u128::MAX) == a && (a | !u128::MAX) == a) by (bit_vector);
    } else {
        lemma_v6_prefix_bits(a, x, (128 - len) as u128);
    }
}

/// An IPv4 network of prefix length `len` holds exactly the IPv4 addresses
/// whose first `len` bits are those of its address: every address for
/// length 0, only its own address for length 32; and no IPv6 address.
pub proof fn lemma_v4_network_holds_its_prefix(net: IpNetwork, x: u32, y: u128)
    requires
        net.addr is V4,
    ensures
        net_contains(net, IpAddress::V4(x)) <==> same_v4_prefix(net.addr->V4_0, x, net.prefix_len),
        !net_contains(net, IpAddress::V6(y)),
{
    let a = net.addr->V4_0;
    let len = net.prefix_len;
    if len == 0 {
        assert(a & 0 == 0 && a | !0u32 == u32::MAX) by (bit_vector);
    } else if len >= 32 {
        assert((a & u32::MAX) == a && (a | !u32::MAX) == a) by (bit_vector);
    } else {
        lemma_v4_prefix_bits(a, x, (32 - len) as u32);
    }
}

} // verus!
