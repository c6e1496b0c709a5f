use crate::cache::{clock_now, nanos_since};
use crate::types::IpAddress;
use vstd::prelude::*;

verus! {


/// One token, in the billionths of a token that buckets count in.
pub const TOKEN: u128 = 1_000_000_000;

/// The first `len` bits of an IPv4 address, the rest zero.
pub open spec fn mask_v4(bits: u32, len: u8) -> u32 {
    if len >= 32 { bits } else { bits & (u32::MAX << ((32 - len) as u32)) }
}

/// The first `len` bits of an IPv6 address, the rest zero.
pub open spec fn mask_v6(bits: u128, len: u8) -> u128 {
    if len >= 128 { bits } else { bits & (u128::MAX << ((128 - len) as u128)) }
}

/// An address masked to the prefix length of its family.
pub open spec fn spec_mask_ip(addr: IpAddress, v4_len: u8, v6_len: u8) -> IpAddress {
    match addr {
        IpAddress::V4(b) => IpAddress::V4(mask_v4(b, v4_len)),
        IpAddress::V6(b) => IpAddress::V6(mask_v6(b, v6_len)),
    }
}

/// Keep the first `len` bits of an IPv4 address.
pub fn mask_ipv4(bits: u32, len: u8) -> (r: u32)
    requires
        len > 0,
    ensures
        r == mask_v4(bits, len),
{
    if len >= 32 {
        bits
    } else {
        let shift: u32 = (32 - len) as u32;
        bits & (u32::MAX << shift)
    }
}

/// Keep the first `len` bits of an IPv6 address.
pub fn mask_ipv6(bits: u128, len: u8) -> (r: u128)
    requires
        len > 0,
    ensures
        r == mask_v6(bits, len),
{
    if len >= 128 {
        bits
    } else {
        let shift: u128 = (128 - len) as u128;
        bits & (u128::MAX << shift)
    }
}

/// What to do with a response.
#[derive(Debug, Clone, Copy, PartialEq, Eq, Structural)]
pub enum RrlAction {
    /// Send it.
    Allow,
    /// Send nothing.
    Drop,
    /// Send it truncated (TC=1), so that the client retries over TCP.
    Truncate,
}

/// A concurrent map of token buckets, keyed by the family and bits of a
/// masked address prefix: billionths of tokens, and when the bucket was last
/// refilled (nanoseconds on the engine clock).
pub type BucketMap = dashmap::DashMap<(u8, u128), (u128, u64)>;

/// What a `DashMap` of token buckets holds: the bucket stored under each key.
pub uninterp spec fn bucket_contents(m: BucketMap) -> Map<(u8, u128), (u128, u64)>;

/// No buckets at all.
pub open spec fn no_buckets() -> Map<(u8, u128), (u128, u64)> {
    Map::empty()
}

/// An empty map (`DashMap::new`).
#[verifier::external_body]
fn buckets_new() -> (r: BucketMap)
    ensures
        bucket_contents(r) == no_buckets(),
{
    dashmap::DashMap::new()
}

/// The bucket stored under `k` (`DashMap::get`), if any.
#[verifier::external_body]
fn buckets_get(m: &BucketMap, k: (u8, u128)) -> (r: Option<(u128, u64)>)
    ensures
        r == (if bucket_contents(*m).contains_key(k) { Some(bucket_contents(*m)[k]) } else { None }),
{
    m.get(&k).map(|v| *v)
}

/// Store `v` under `k`, replacing what was there (`DashMap::insert`).
#[verifier::external_body]
fn buckets_insert(m: &mut BucketMap, k: (u8, u128), v: (u128, u64))
    ensures
        bucket_contents(*final(m)) == bucket_contents(*old(m)).insert(k, v),
{
    m.insert(k, v);
}

/// The abstract state of a rate limiter: the bucket (tokens, last refill)
/// of each masked prefix, by `addr_key`.
pub struct RrlV {
    pub buckets: Map<(u8, u128), (u128, u64)>,
    pub responses_per_second: u32,
    pub slip: u32,
    pub ipv4_prefix_length: u8,
    pub ipv6_prefix_length: u8,
    pub slip_counter: u64,
}

/// No bucket holds more than one second's worth of tokens, and the prefix
/// lengths are positive.
pub open spec fn rrl_wf(s: RrlV) -> bool {
    &&& s.ipv4_prefix_length > 0
    &&& s.ipv6_prefix_length > 0
    &&& forall|k: (u8, u128)| #[trigger] s.buckets.contains_key(k) ==> s.buckets[k].0 <= full_bucket(s.responses_per_second)
}

/// A full bucket: one second's worth of responses.
pub open spec fn full_bucket(rps: u32) -> u128 {
    (rps as u128 * TOKEN) as u128
}

/// The bucket of prefix `p` at `now`, refilled for the time since its last
/// refill and capped at one second's worth; a new prefix starts full.
pub open spec fn refilled(bs: Map<(u8, u128), (u128, u64)>, p: IpAddress, rps: u32, now: u64) -> (u128, u64) {
    if bs.contains_key(addr_key(p)) {
        let b = bs[addr_key(p)];
        let elapsed: u64 = if now > b.1 { (now - b.1) as u64 } else { 0 };
        let sum = b.0 + elapsed * rps;
        (if sum > full_bucket(rps) { full_bucket(rps) } else { sum as u128 }, now)
    } else {
        (full_bucket(rps), now)
    }
}

/// The state after deciding on a response to `src` at `now` (nanoseconds on
/// the engine clock), and the decision: a response costs one token; without
/// one, every `slip`-th limited response is truncated and the others dropped
/// (all dropped when `slip` is 0).
pub open spec fn spec_check(s: RrlV, src: IpAddress, now: u64) -> (RrlV, RrlAction) {
    let p = spec_mask_ip(src, s.ipv4_prefix_length, s.ipv6_prefix_length);
    let b = refilled(s.buckets, p, s.responses_per_second, now);
    if b.0 >= TOKEN {
        let nb: (u128, u64) = ((b.0 - TOKEN) as u128, now);
        (RrlV { buckets: s.buckets.insert(addr_key(p), nb), ..s }, RrlAction::Allow)
    } else if s.slip > 0 {
        let c = s.slip_counter;
        let next: u64 = if c == u64::MAX { 0 } else { (c + 1) as u64 };
        (RrlV { buckets: s.buckets.insert(addr_key(p), b), slip_counter: next, ..s },
            if c % (s.slip as u64) == 0 { RrlAction::Truncate } else { RrlAction::Drop })
    } else {
        (RrlV { buckets: s.buckets.insert(addr_key(p), b), ..s }, RrlAction::Drop)
    }
}

/// Response rate limiting (RRL): a token bucket per source address prefix,
/// against amplification and random-subdomain floods.
pub struct RrlEngine {
    buckets: BucketMap,
    responses_per_second: u32,
    slip: u32,
    ipv4_prefix_length: u8,
    ipv6_prefix_length: u8,
    slip_counter: u64,
    clock: std::time::Instant,
}

impl View for RrlEngine {
    type V = RrlV;

    closed spec fn view(&self) -> RrlV {
        RrlV {
            buckets: bucket_contents(self.buckets),
            responses_per_second: self.responses_per_second,
            slip: self.slip,
            ipv4_prefix_length: self.ipv4_prefix_length,
            ipv6_prefix_length: self.ipv6_prefix_length,
            slip_counter: self.slip_counter,
        }
    }
}

impl RrlEngine {
    /// No bucket is over-full, and the prefix lengths are positive.
    #[verifier::type_invariant]
    spec fn well_formed(self) -> bool {
        rrl_wf(self@)
    }

    /// An engine with no buckets yet.
    pub fn new(responses_per_second: u32, slip: u32, ipv4_prefix_length: u8, ipv6_prefix_length: u8) -> (r: RrlEngine)
        requires
            ipv4_prefix_length > 0,
            ipv6_prefix_length > 0,
        ensures
            r@ == (RrlV { buckets: no_buckets(), responses_per_second, slip, ipv4_prefix_length, ipv6_prefix_length, slip_counter: 0 }),
            rrl_wf(r@),
    {
        RrlEngine {
            buckets: buckets_new(),
            responses_per_second,
            slip,
            ipv4_prefix_length,
            ipv6_prefix_length,
            slip_counter: 0,
            clock: clock_now(),
        }
    }

    /// Mask an address to the configured prefix length of its family.
    pub fn mask_ip(&self, addr: IpAddress) -> (r: IpAddress)
        ensures
            r == spec_mask_ip(addr, self@.ipv4_prefix_length, self@.ipv6_prefix_length),
    {
        proof {
            use_type_invariant(self);
        }
        match addr {
            IpAddress::V4(b) => IpAddress::V4(mask_ipv4(b, self.ipv4_prefix_length)),
            IpAddress::V6(b) => IpAddress::V6(mask_ipv6(b, self.ipv6_prefix_length)),
        }
    }

    /// Decide on a response to `src` at `now`, nanoseconds on the engine clock.
    pub fn check_at(&mut self, src: IpAddress, now: u64) -> (r: RrlAction)
        ensures
            rrl_wf(final(self)@),
            (final(self)@, r) == spec_check(old(self)@, src, now),
    {
        proof {
            use_type_invariant(&*self);
        }
        let ghost s = self@;
        let p = self.mask_ip(src);
        let key = key_of(p);
        let full: u128 = self.responses_per_second as u128 * TOKEN;
        assert(full == full_bucket(s.responses_per_second));
        let mut b: (u128, u64) = match buckets_get(&self.buckets, key) {
            Some(old_b) => {
                assert(s.buckets.contains_key(key) && old_b == s.buckets[key]);
                assert(old_b.0 <= full);
                let elapsed: u64 = if now > old_b.1 { now - old_b.1 } else { 0 };
                assert(elapsed as u128 * self.responses_per_second as u128 <= 0xffff_ffff_ffff_ffff_u128 * 0xffff_ffff_u128) by (nonlinear_arith)
                    requires elapsed <= 0xffff_ffff_ffff_ffff_u64, self.responses_per_second <= 0xffff_ffff_u32;
                let sum: u128 = old_b.0 + elapsed as u128 * self.responses_per_second as u128;
                (if sum > full { full } else { sum }, now)
            },
            None => (full, now),
        };
        assert(b == refilled(s.buckets, p, s.responses_per_second, now));
        let action = if b.0 >= TOKEN {
            b = (b.0 - TOKEN, now);
            RrlAction::Allow
        } else if self.slip > 0 {
            let c = self.slip_counter;
            self.slip_counter = if c == u64::MAX { 0 } else { c + 1 };
            if c % (self.slip as u64) == 0 {
                RrlAction::Truncate
            } else {
                RrlAction::Drop
            }
        } else {
            RrlAction::Drop
        };
        let mut m = buckets_new();
        std::mem::swap(&mut m, &mut self.buckets);
        buckets_insert(&mut m, key, b);
        self.buckets = m;
        action
    }

    /// Decide on a response to `src` now.
    pub fn check(&mut self, src: IpAddress) -> (r: RrlAction)
        ensures
            rrl_wf(final(self)@),
            exists|now: u64| (final(self)@, r) == #[trigger] spec_check(old(self)@, src, now),
    {
        let now = nanos_since(&self.clock);
        self.check_at(src, now)
    }
}

/// Two sources with the same prefix are treated alike: the decision for one
/// is the decision for the other, and they leave the same state.
pub proof fn lemma_same_prefix_same_decision(s: RrlV, a: IpAddress, b: IpAddress, now: u64)
    requires
        spec_mask_ip(a, s.ipv4_prefix_length, s.ipv6_prefix_length) == spec_mask_ip(b, s.ipv4_prefix_length, s.ipv6_prefix_length),
    ensures
        spec_check(s, a, now) == spec_check(s, b, now),
{
}

/// Masking keeps the prefix: a masked address masks to itself.
pub proof fn lemma_mask_idempotent(bits4: u32, bits6: u128, len: u8)
    requires
        len > 0,
    ensures
        mask_v4(mask_v4(bits4, len), len) == mask_v4(bits4, len),
        mask_v6(mask_v6(bits6, len), len) == mask_v6(bits6, len),
{
    if len < 32 {
        let m: u32 = u32::MAX << ((32 - len) as u32);
        assert((bits4 & m) & m == bits4 & m) by (bit_vector);
    }
    if len < 128 {
        let m: u128 = u128::MAX << ((128 - len) as u128);
        assert((bits6 & m) & m == bits6 & m) by (bit_vector);
    }
}

/// A source with a full bucket is let through, and the bucket loses one token.
pub proof fn lemma_full_bucket_allows(s: RrlV, src: IpAddress, now: u64)
    requires
        rrl_wf(s),
        s.responses_per_second > 0,
        !s.buckets.contains_key(addr_key(spec_mask_ip(src, s.ipv4_prefix_length, s.ipv6_prefix_length))),
    ensures
        spec_check(s, src, now).1 == RrlAction::Allow,
{
    assert(full_bucket(s.responses_per_second) >= TOKEN) by (nonlinear_arith)
        requires s.responses_per_second > 0;
}

#[verifier::external_type_specification]
#[verifier::external_body]
#[verifier::reject_recursive_types(K)]
#[verifier::reject_recursive_types(V)]
#[verifier::reject_recursive_types(S)]
pub struct ExDashMap<K, V, S>(dashmap::DashMap<K, V, S>);

/// A concurrent map of connection counts, keyed by address family and bits.
pub type CountMap = dashmap::DashMap<(u8, u128), u32>;

/// What a `DashMap` of connection counts holds: the count stored under each
/// key.
pub uninterp spec fn connection_counts(m: CountMap) -> Map<(u8, u128), u32>;

/// No counts at all.
pub open spec fn no_counts() -> Map<(u8, u128), u32> {
    Map::empty()
}

/// An empty map (`DashMap::new`).
#[verifier::external_body]
fn counts_new() -> (r: CountMap)
    ensures
        connection_counts(r) == no_counts(),
{
    dashmap::DashMap::new()
}

/// The count stored under `k` (`DashMap::get`), if any.
#[verifier::external_body]
fn counts_get(m: &CountMap, k: (u8, u128)) -> (r: Option<u32>)
    ensures
        r == (if connection_counts(*m).contains_key(k) { Some(connection_counts(*m)[k]) } else { None }),
{
    m.get(&k).map(|v| *v)
}

/// Store `v` under `k`, replacing what was there (`DashMap::insert`).
#[verifier::external_body]
fn counts_insert(m: &mut CountMap, k: (u8, u128), v: u32)
    ensures
        connection_counts(*final(m)) == connection_counts(*old(m)).insert(k, v),
{
    m.insert(k, v);
}

/// Remove what is stored under `k` (`DashMap::remove`).
#[verifier::external_body]
fn counts_remove(m: &mut CountMap, k: (u8, u128))
    ensures
        connection_counts(*final(m)) == connection_counts(*old(m)).remove(k),
{
    m.remove(&k);
}

/// The key an address is counted under: its family (4 or 6) and its bits.
pub open spec fn addr_key(a: IpAddress) -> (u8, u128) {
    match a {
        IpAddress::V4(b) => (4u8, b as u128),
        IpAddress::V6(b) => (6u8, b),
    }
}

fn key_of(a: IpAddress) -> (r: (u8, u128))
    ensures
        r == addr_key(a),
{
    match a {
        IpAddress::V4(b) => (4u8, b as u128),
        IpAddress::V6(b) => (6u8, b),
    }
}

/// The number of open connections under each key, and the limit per address.
pub struct LimiterV {
    pub counts: Map<(u8, u128), u32>,
    pub max_per_ip: u32,
}

/// The number of connections open from `a`.
pub open spec fn open_count(cs: Map<(u8, u128), u32>, a: IpAddress) -> u32 {
    if cs.contains_key(addr_key(a)) { cs[addr_key(a)] } else { 0 }
}

/// Every stored count is positive and within the limit.
pub open spec fn limiter_wf(l: LimiterV) -> bool {
    forall|k: (u8, u128)| #[trigger] l.counts.contains_key(k) ==> 0 < l.counts[k] <= l.max_per_ip
}

/// Per-address limit on open TCP and DoT connections.
pub struct ConnectionLimiter {
    connections: CountMap,
    max_per_ip: u32,
}

impl View for ConnectionLimiter {
    type V = LimiterV;

    closed spec fn view(&self) -> LimiterV {
        LimiterV { counts: connection_counts(self.connections), max_per_ip: self.max_per_ip }
    }
}

proof fn lemma_key_injective(a: IpAddress, b: IpAddress)
    ensures
        addr_key(a) == addr_key(b) ==> a == b,
{
}

impl ConnectionLimiter {
    /// Every stored count is positive and within the limit.
    #[verifier::type_invariant]
    spec fn well_formed(self) -> bool {
        limiter_wf(self@)
    }

    /// A limiter with no open connections.
    pub fn new(max_per_ip: u32) -> (r: ConnectionLimiter)
        ensures
            r@ == (LimiterV { counts: Map::empty(), max_per_ip }),
            limiter_wf(r@),
    {
        ConnectionLimiter { connections: counts_new(), max_per_ip }
    }

    /// Open a connection from `addr` if it has fewer than the limit open.
    pub fn try_acquire(&mut self, addr: IpAddress) -> (r: bool)
        ensures
            final(self)@.max_per_ip == old(self)@.max_per_ip,
            r == (open_count(old(self)@.counts, addr) < old(self)@.max_per_ip),
            open_count(final(self)@.counts, addr) == (if r { open_count(old(self)@.counts, addr) + 1 } else { open_count(old(self)@.counts, addr) as int }),
            forall|b: IpAddress| b != addr ==> open_count(final(self)@.counts, b) == open_count(old(self)@.counts, b),
    {
        proof {
            use_type_invariant(&*self);
        }
        let k = key_of(addr);
        let c = match counts_get(&self.connections, k) {
            Some(c) => c,
            None => 0,
        };
        if c >= self.max_per_ip {
            return false;
        }
        let ghost before = self@.counts;
        let mut m = counts_new();
        std::mem::swap(&mut m, &mut self.connections);
        counts_insert(&mut m, k, c + 1);
        self.connections = m;
        proof {
            assert forall|b: IpAddress| b != addr implies open_count(self@.counts, b) == open_count(before, b) by {
                lemma_key_injective(addr, b);
            }
        }
        true
    }

    /// Close a connection from `addr`, if it has one open.
    pub fn release(&mut self, addr: IpAddress)
        ensures
            final(self)@.max_per_ip == old(self)@.max_per_ip,
            open_count(final(self)@.counts, addr) == (if open_count(old(self)@.counts, addr) > 0 { open_count(old(self)@.counts, addr) - 1 } else { 0 }),
            forall|b: IpAddress| b != addr ==> open_count(final(self)@.counts, b) == open_count(old(self)@.counts, b),
    {
        proof {
            use_type_invariant(&*self);
        }
        let k = key_of(addr);
        let ghost before = self@.counts;
        match counts_get(&self.connections, k) {
            None => {},
            Some(c) => {
                let mut m = counts_new();
                std::mem::swap(&mut m, &mut self.connections);
                if c > 1 {
                    counts_insert(&mut m, k, c - 1);
                } else {
                    counts_remove(&mut m, k);
                }
                self.connections = m;
                proof {
                    assert forall|b: IpAddress| b != addr implies open_count(self@.counts, b) == open_count(before, b) by {
                        lemma_key_injective(addr, b);
                    }
                }
            },
        }
    }

    /// The number of connections open from `addr`.
    pub fn open_connections(&self, addr: IpAddress) -> (r: u32)
        ensures
            r == open_count(self@.counts, addr),
    {
        match counts_get(&self.connections, key_of(addr)) {
            Some(c) => c,
            None => 0,
        }
    }
}

/// No address ever has more connections open than the limit.
pub proof fn lemma_count_within_limit(l: LimiterV, a: IpAddress)
    requires
        limiter_wf(l),
    ensures
        open_count(l.counts, a) <= l.max_per_ip,
{
    if l.counts.contains_key(addr_key(a)) {
        assert(0 < l.counts[addr_key(a)] <= l.max_per_ip);
    }
}

/// A connection opened and then closed leaves every address with as many
/// open connections as before.
pub proof fn lemma_acquire_release_restores(l0: LimiterV, l1: LimiterV, l2: LimiterV, a: IpAddress, b: IpAddress)
    requires
        open_count(l1.counts, a) == open_count(l0.counts, a) + 1,
        forall|x: IpAddress| x != a ==> open_count(l1.counts, x) == open_count(l0.counts, x),
        open_count(l2.counts, a) == (if open_count(l1.counts, a) > 0 { open_count(l1.counts, a) - 1 } else { 0 }),
        forall|x: IpAddress| x != a ==> open_count(l2.counts, x) == open_count(l1.counts, x),
    ensures
        open_count(l2.counts, b) == open_count(l0.counts, b),
{
}

/// The state after `k` decisions on responses to `src`, all at time `now`.
pub open spec fn run_checks(s: RrlV, src: IpAddress, now: u64, k: nat) -> RrlV
    decreases k,
{
    if k == 0 { s } else { spec_check(run_checks(s, src, now, (k - 1) as nat), src, now).0 }
}

/// A source whose prefix has no bucket yet gets `responses_per_second`
/// responses at one instant, and is limited from the next one on.
pub proof fn lemma_burst_then_limit(s: RrlV, src: IpAddress, now: u64, k: nat)
    requires
        rrl_wf(s),
        s.responses_per_second > 0,
        !s.buckets.contains_key(addr_key(spec_mask_ip(src, s.ipv4_prefix_length, s.ipv6_prefix_length))),
        k <= s.responses_per_second,
    ensures
        k < s.responses_per_second ==> spec_check(run_checks(s, src, now, k), src, now).1 == RrlAction::Allow,
        k == s.responses_per_second ==> spec_check(run_checks(s, src, now, k), src, now).1 != RrlAction::Allow,
{
    let p = spec_mask_ip(src, s.ipv4_prefix_length, s.ipv6_prefix_length);
    if k == 0 {
        lemma_full_bucket_allows(s, src, now);
    } else {
        lemma_burst_state(s, src, now, k);
        let r = run_checks(s, src, now, k);
        let b = r.buckets[addr_key(p)];
        assert(b.0 == (s.responses_per_second - k) * TOKEN);
        assert(refilled(r.buckets, p, r.responses_per_second, now) == (b.0, now));
    }
}

/// After `k` of the burst's responses (1 <= k <= the rate), the prefix's
/// bucket holds `rate - k` tokens, refilled at `now`.
proof fn lemma_burst_state(s: RrlV, src: IpAddress, now: u64, k: nat)
    requires
        rrl_wf(s),
        s.responses_per_second > 0,
        !s.buckets.contains_key(addr_key(spec_mask_ip(src, s.ipv4_prefix_length, s.ipv6_prefix_length))),
        1 <= k <= s.responses_per_second,
    ensures
        ({
            let r = run_checks(s, src, now, k);
            let p = spec_mask_ip(src, s.ipv4_prefix_length, s.ipv6_prefix_length);
            &&& r.responses_per_second == s.responses_per_second
            &&& r.ipv4_prefix_length == s.ipv4_prefix_length
            &&& r.ipv6_prefix_length == s.ipv6_prefix_length
            &&& r.buckets.contains_key(addr_key(p))
            &&& r.buckets[addr_key(p)] == (((s.responses_per_second - k) * TOKEN) as u128, now)
        }),
    decreases k,
{
    let p = spec_mask_ip(src, s.ipv4_prefix_length, s.ipv6_prefix_length);
    let rps = s.responses_per_second;
    if k == 1 {
        assert(run_checks(s, src, now, 0) == s);
        assert(full_bucket(rps) == rps * TOKEN);
        assert(full_bucket(rps) >= TOKEN);
    } else {
        lemma_burst_state(s, src, now, (k - 1) as nat);
        let r0 = run_checks(s, src, now, (k - 1) as nat);
        let b0 = r0.buckets[addr_key(p)];
        assert(refilled(r0.buckets, p, rps, now) == (b0.0, now));
        assert(b0.0 >= TOKEN);
    }
}

} // verus!
