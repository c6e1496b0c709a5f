use crate::cache::{bump, cache_key, spec_insert, spec_insert_negative, CacheStats, DnsCache};
use crate::config::{copy_forward_zones, forward_zones_view, CacheConfig, ForwardZone, ForwardZoneV, RecursionConfig};
use crate::name::{canon, is_subdomain, labels_below, spec_is_subdomain, spec_labels_below, DnsName};
use crate::types::{
    copy_records, records_view, DnsMessage, IpAddress, MessageV, RDataV, Record,
    RecordData, RecordType, RecordV, ResponseCode, SocketAddress,
};
use crate::wire::{ascii_name, name_to_ascii};
use crate::upstream::{
    duration_from_millis, duration_from_secs, millis_duration, secs_duration, UpstreamConfig, UpstreamError, UpstreamPool,
};
use vstd::prelude::*;
use vstd::string::StringSliceAdditionalSpecFns;

verus! {

/// An error of recursive resolution.
#[derive(Debug)]
pub enum ResolveError {
    MaxDepthExceeded,
    Upstream(UpstreamError),
    NoNameservers(DnsName),
    ServFail,
}

/// What recursive resolution found.
#[derive(Debug)]
pub struct ResolveResponse {
    pub answers: Vec<Record>,
    pub authority: Vec<Record>,
    pub additional: Vec<Record>,
    pub response_code: ResponseCode,
}

pub struct ResolveResponseV {
    pub answers: Seq<RecordV>,
    pub authority: Seq<RecordV>,
    pub additional: Seq<RecordV>,
    pub response_code: ResponseCode,
}

impl View for ResolveResponse {
    type V = ResolveResponseV;

    open spec fn view(&self) -> ResolveResponseV {
        ResolveResponseV {
            answers: records_view(self.answers@),
            authority: records_view(self.authority@),
            additional: records_view(self.additional@),
            response_code: self.response_code,
        }
    }
}

impl Clone for ResolveResponse {
    fn clone(&self) -> (r: Self)
        ensures
            r@ == self@,
    {
        ResolveResponse {
            answers: copy_records(&self.answers),
            authority: copy_records(&self.authority),
            additional: copy_records(&self.additional),
            response_code: self.response_code,
        }
    }
}

/// The addresses of the root servers, a.root-servers.net to m.root-servers.net.
#[derive(Debug, Clone)]
pub struct RootHints {
    pub servers: Vec<SocketAddress>,
}

/// The IPv4 addresses of the thirteen root servers, in order.
pub open spec fn root_server_ips() -> Seq<u32> {
    seq![
        0xc629_0004u32, 0xaaf7_aa02u32, 0xc021_040cu32, 0xc707_5b0du32, 0xc0cb_e60au32,
        0xc005_05f1u32, 0xc070_2404u32, 0xc661_be35u32, 0xc024_9411u32, 0xc03a_801eu32,
        0xc100_0e81u32, 0xc707_532au32, 0xca0c_1b21u32,
    ]
}

impl Default for RootHints {
    fn default() -> (r: Self)
        ensures
            r.servers@.len() == 13,
            forall|i: int| 0 <= i < 13 ==> #[trigger] r.servers@[i] == (SocketAddress { ip: IpAddress::V4(root_server_ips()[i]), port: 53 }),
    {
        let ips: [u32; 13] = [
            0xc629_0004, 0xaaf7_aa02, 0xc021_040c, 0xc707_5b0d, 0xc0cb_e60a, 0xc005_05f1, 0xc070_2404,
            0xc661_be35, 0xc024_9411, 0xc03a_801e, 0xc100_0e81, 0xc707_532a, 0xca0c_1b21,
        ];
        assert(ips@ =~= root_server_ips());
        let mut servers: Vec<SocketAddress> = Vec::new();
        let mut i: usize = 0;
        while i < 13
            invariant
                i <= 13,
                ips@ == root_server_ips(),
                servers@.len() == i,
                forall|j: int| 0 <= j < i ==> #[trigger] servers@[j] == (SocketAddress { ip: IpAddress::V4(root_server_ips()[j]), port: 53 }),
            decreases 13 - i,
        {
            servers.push(SocketAddress { ip: IpAddress::V4(ips[i]), port: 53 });
            i = i + 1;
        }
        RootHints { servers }
    }
}

/// ASCII white space: tab, line feed, vertical tab, form feed, carriage
/// return and space.
pub open spec fn is_space(b: u8) -> bool {
    b == 32 || (9 <= b && b <= 13)
}

/// The UTF-8 bytes of a three-byte white-space character: U+1680, U+2000 to
/// U+200A, U+2028, U+2029, U+202F, U+205F or U+3000.
pub open spec fn is_ws3(a: u8, b: u8, c: u8) -> bool {
    ||| a == 0xE1 && b == 0x9A && c == 0x80
    ||| a == 0xE2 && b == 0x80 && ((0x80 <= c && c <= 0x8A) || c == 0xA8 || c == 0xA9 || c == 0xAF)
    ||| a == 0xE2 && b == 0x81 && c == 0x9F
    ||| a == 0xE3 && b == 0x80 && c == 0x80
}

/// The length in bytes of the white-space character (Unicode White_Space, as
/// `char::is_whitespace` and `str::trim` take it) that UTF-8 text starts
/// with; 0 when it starts with none.
pub open spec fn ws_prefix(s: Seq<u8>) -> int {
    if s.len() >= 1 && is_space(s[0]) {
        1
    } else if s.len() >= 2 && s[0] == 0xC2 && (s[1] == 0x85 || s[1] == 0xA0) {
        2
    } else if s.len() >= 3 && is_ws3(s[0], s[1], s[2]) {
        3
    } else {
        0
    }
}

/// The length in bytes of the white-space character that UTF-8 text ends
/// with; 0 when it ends with none.
pub open spec fn ws_suffix(s: Seq<u8>) -> int {
    let n = s.len() as int;
    if n >= 1 && is_space(s[n - 1]) {
        1
    } else if n >= 2 && s[n - 2] == 0xC2 && (s[n - 1] == 0x85 || s[n - 1] == 0xA0) {
        2
    } else if n >= 3 && is_ws3(s[n - 3], s[n - 2], s[n - 1]) {
        3
    } else {
        0
    }
}

/// UTF-8 text without the white space at its start.
pub open spec fn trim_start(s: Seq<u8>) -> Seq<u8>
    decreases s.len(),
{
    if ws_prefix(s) > 0 { trim_start(s.subrange(ws_prefix(s), s.len() as int)) } else { s }
}

/// UTF-8 text without the white space at its end.
pub open spec fn trim_end(s: Seq<u8>) -> Seq<u8>
    decreases s.len(),
{
    if ws_suffix(s) > 0 { trim_end(s.subrange(0, s.len() - ws_suffix(s))) } else { s }
}

fn ws3(a: u8, b: u8, c: u8) -> (r: bool)
    ensures
        r == is_ws3(a, b, c),
{
    (a == 0xE1 && b == 0x9A && c == 0x80)
        || (a == 0xE2 && b == 0x80 && ((0x80 <= c && c <= 0x8A) || c == 0xA8 || c == 0xA9 || c == 0xAF))
        || (a == 0xE2 && b == 0x81 && c == 0x9F)
        || (a == 0xE3 && b == 0x80 && c == 0x80)
}

/// The length of the white-space character at the start of `b[start..end]`.
pub(crate) fn ws_prefix_len(b: &[u8], start: usize, end: usize) -> (r: usize)
    requires
        start <= end <= b@.len(),
    ensures
        r == ws_prefix(b@.subrange(start as int, end as int)),
        r <= end - start,
{
    let n = end - start;
    if n >= 1 && (b[start] == 32 || (9 <= b[start] && b[start] <= 13)) {
        1
    } else if n >= 2 && b[start] == 0xC2 && (b[start + 1] == 0x85 || b[start + 1] == 0xA0) {
        2
    } else if n >= 3 && ws3(b[start], b[start + 1], b[start + 2]) {
        3
    } else {
        0
    }
}

/// The length of the white-space character at the end of `b[start..end]`.
fn ws_suffix_len(b: &[u8], start: usize, end: usize) -> (r: usize)
    requires
        start <= end <= b@.len(),
    ensures
        r == ws_suffix(b@.subrange(start as int, end as int)),
        r <= end - start,
{
    let n = end - start;
    if n >= 1 && (b[end - 1] == 32 || (9 <= b[end - 1] && b[end - 1] <= 13)) {
        1
    } else if n >= 2 && b[end - 2] == 0xC2 && (b[end - 1] == 0x85 || b[end - 1] == 0xA0) {
        2
    } else if n >= 3 && ws3(b[end - 3], b[end - 2], b[end - 1]) {
        3
    } else {
        0
    }
}

/// The bounds of `b[start..end]` with the white space at both ends removed.
pub(crate) fn trim_bounds(b: &[u8], start: usize, end: usize) -> (r: (usize, usize))
    requires
        start <= end <= b@.len(),
    ensures
        start <= r.0 <= r.1 <= end,
        b@.subrange(r.0 as int, r.1 as int) == trim_end(trim_start(b@.subrange(start as int, end as int))),
{
    let mut s = start;
    let mut k = ws_prefix_len(b, s, end);
    while k > 0
        invariant
            start <= s <= end <= b@.len(),
            k == ws_prefix(b@.subrange(s as int, end as int)),
            k <= end - s,
            trim_start(b@.subrange(start as int, end as int)) == trim_start(b@.subrange(s as int, end as int)),
        decreases end - s,
    {
        assert(b@.subrange(s as int, end as int).subrange(k as int, (end - s) as int) =~= b@.subrange(s + k, end as int));
        s = s + k;
        k = ws_prefix_len(b, s, end);
    }
    let ghost ts = b@.subrange(s as int, end as int);
    assert(trim_start(ts) == ts);
    let mut e = end;
    let mut m = ws_suffix_len(b, s, e);
    while m > 0
        invariant
            start <= s <= e <= end <= b@.len(),
            ts == b@.subrange(s as int, end as int),
            m == ws_suffix(b@.subrange(s as int, e as int)),
            m <= e - s,
            trim_end(ts) == trim_end(b@.subrange(s as int, e as int)),
        decreases e - s,
    {
        assert(b@.subrange(s as int, e as int).subrange(0, (e - s) - m) =~= b@.subrange(s as int, e - m));
        e = e - m;
        m = ws_suffix_len(b, s, e);
    }
    (s, e)
}

pub open spec fn is_digit(b: u8) -> bool {
    48 <= b && b <= 57
}

/// The number written by a string of decimal digits.
pub open spec fn digits_value(s: Seq<u8>) -> nat
    decreases s.len(),
{
    if s.len() == 0 { 0 } else { digits_value(s.drop_last()) * 10 + (s.last() - 48) as nat }
}

/// `u64::from_str`: an optional `+`, then one or more digits, with a value
/// that fits in 64 bits.
pub open spec fn spec_parse_u64(s: Seq<u8>) -> Option<u64> {
    let d = without_plus(s);
    if d.len() > 0 && all_digits(d) && digits_value(d) <= u64::MAX {
        Some(digits_value(d) as u64)
    } else {
        None
    }
}

/// The text after a leading `+`, if there is one.
pub open spec fn without_plus(s: Seq<u8>) -> Seq<u8> {
    if s.len() > 0 && s[0] == 43 { s.drop_first() } else { s }
}

/// Every byte is a decimal digit.
pub open spec fn all_digits(d: Seq<u8>) -> bool {
    forall|i: int| 0 <= i < d.len() ==> is_digit(#[trigger] d[i])
}

/// A duration as written in the configuration: milliseconds or seconds.
#[derive(Debug, Clone, Copy, PartialEq, Eq, Structural)]
pub enum DurationValue {
    Millis(u64),
    Secs(u64),
}

/// "<n>ms" is milliseconds, "<n>s" and a bare "<n>" are seconds; white space
/// around is ignored.
pub open spec fn spec_parse_duration(s: Seq<u8>) -> Option<DurationValue> {
    let t = trim_end(trim_start(s));
    if t.len() >= 2 && t[t.len() - 2] == 109 && t[t.len() - 1] == 115 {
        match spec_parse_u64(t.subrange(0, t.len() - 2)) {
            Some(v) => Some(DurationValue::Millis(v)),
            None => None,
        }
    } else if t.len() >= 1 && t[t.len() - 1] == 115 {
        match spec_parse_u64(t.subrange(0, t.len() - 1)) {
            Some(v) => Some(DurationValue::Secs(v)),
            None => None,
        }
    } else {
        match spec_parse_u64(t) {
            Some(v) => Some(DurationValue::Secs(v)),
            None => None,
        }
    }
}

proof fn lemma_digits_value_prefix(s: Seq<u8>, i: int)
    requires
        0 <= i <= s.len(),
        forall|j: int| 0 <= j < s.len() ==> is_digit(#[trigger] s[j]),
    ensures
        digits_value(s.subrange(0, i)) <= digits_value(s),
    decreases s.len() - i,
{
    if i < s.len() {
        lemma_digits_value_prefix(s, i + 1);
        let p = s.subrange(0, i + 1);
        assert(p.drop_last() =~= s.subrange(0, i));
    } else {
        assert(s.subrange(0, i) =~= s);
    }
}

fn parse_u64_bytes(s: &[u8], start: usize, end: usize) -> (r: Option<u64>)
    requires
        start <= end <= s@.len(),
    ensures
        r == spec_parse_u64(s@.subrange(start as int, end as int)),
{
    let ghost full = s@.subrange(start as int, end as int);
    let mut i = start;
    if i < end && s[i] == 43 {
        i = i + 1;
    }
    let ghost d = without_plus(full);
    assert(d =~= s@.subrange(i as int, end as int));
    if i == end {
        return None;
    }
    let mut acc: u64 = 0;
    let mut j = i;
    while j < end
        invariant
            i <= j <= end,
            end <= s@.len(),
            start <= i,
            full == s@.subrange(start as int, end as int),
            d == without_plus(full),
            d == s@.subrange(i as int, end as int),
            forall|k: int| 0 <= k < j - i ==> is_digit(#[trigger] d[k]),
            acc == digits_value(d.subrange(0, j - i)),
        decreases end - j,
    {
        let b = s[j];
        if b < 48 || b > 57 {
            assert(!is_digit(d[j - i]));
            return None;
        }
        assert(d.subrange(0, j - i + 1).drop_last() =~= d.subrange(0, j - i));
        let digit = (b - 48) as u64;
        if acc > 1844674407370955161 || (acc == 1844674407370955161 && digit > 5) {
            proof {
                assert(digits_value(d.subrange(0, j - i + 1)) > u64::MAX);
                if all_digits(d) {
                    lemma_digits_value_prefix(d, j - i + 1);
                }
            }
            return None;
        }
        acc = acc * 10 + digit;
        j = j + 1;
    }
    assert(d.subrange(0, j - i) =~= d);
    Some(acc)
}

/// Read a duration: "<n>ms", "<n>s" or "<n>" (seconds), white space around ignored.
pub fn parse_duration_value(s: &str) -> (r: Option<DurationValue>)
    ensures
        r == spec_parse_duration(s.spec_bytes()),
{
    let b = s.as_bytes();
    assert(b@.subrange(0, b@.len() as int) =~= b@);
    let (start, end) = trim_bounds(b, 0, b.len());
    let ghost t = b@.subrange(start as int, end as int);
    assert(trim_end(trim_start(b@)) == t);
    if end - start >= 2 && b[end - 2] == 109 && b[end - 1] == 115 {
        assert(t.subrange(0, t.len() - 2) =~= b@.subrange(start as int, end - 2));
        match parse_u64_bytes(b, start, end - 2) {
            Some(v) => Some(DurationValue::Millis(v)),
            None => None,
        }
    } else if end - start >= 1 && b[end - 1] == 115 {
        assert(t.subrange(0, t.len() - 1) =~= b@.subrange(start as int, end - 1));
        match parse_u64_bytes(b, start, end - 1) {
            Some(v) => Some(DurationValue::Secs(v)),
            None => None,
        }
    } else {
        match parse_u64_bytes(b, start, end) {
            Some(v) => Some(DurationValue::Secs(v)),
            None => None,
        }
    }
}

/// The duration a written value stands for.
pub open spec fn duration_of(v: Option<DurationValue>) -> Option<std::time::Duration> {
    match v {
        Some(DurationValue::Millis(ms)) => Some(millis_duration(ms)),
        Some(DurationValue::Secs(secs)) => Some(secs_duration(secs)),
        None => None,
    }
}

/// Read a duration such as "2s", "500ms" or "10" (seconds). `None` exactly
/// when the text is none of these forms.
pub fn parse_duration(s: &str) -> (r: Option<std::time::Duration>)
    ensures
        r == duration_of(spec_parse_duration(s.spec_bytes())),
{
    match parse_duration_value(s) {
        Some(DurationValue::Millis(ms)) => Some(duration_from_millis(ms)),
        Some(DurationValue::Secs(secs)) => Some(duration_from_secs(secs)),
        None => None,
    }
}

/// Forwarding zone `zone` covers the name written `key`: it is ".", which
/// covers every name, or the name itself, or a suffix of it that starts
/// after a label boundary (".").
pub open spec fn zone_covers(zone: Seq<char>, key: Seq<char>) -> bool {
    ||| zone == "."@
    ||| key == zone
    ||| (key.len() > zone.len() && key.subrange(key.len() - zone.len(), key.len() as int) == zone
        && key[key.len() - zone.len() - 1] == '.')
}

/// Zone `i` is the first of the longest zones covering `key`.
pub open spec fn best_zone(zones: Seq<ForwardZoneV>, key: Seq<char>, i: int) -> bool {
    &&& 0 <= i < zones.len()
    &&& zone_covers(zones[i].zone, key)
    &&& forall|j: int| 0 <= j < zones.len() && zone_covers(#[trigger] zones[j].zone, key) ==> zones[j].zone.len() <= zones[i].zone.len()
    &&& forall|j: int| 0 <= j < i && zone_covers(#[trigger] zones[j].zone, key) ==> zones[j].zone.len() < zones[i].zone.len()
}

/// The forwarders for a name written `qname_ascii`: those of the longest
/// forwarding zone at or above the name (the first such, should two be
/// equally long), "." covering every name; none when no zone covers it.
pub open spec fn spec_find_forwarders(zones: Seq<ForwardZoneV>, qname_ascii: Seq<char>) -> Option<Seq<SocketAddress>> {
    if exists|i: int| 0 <= i < zones.len() && zone_covers(#[trigger] zones[i].zone, qname_ascii) {
        let i = choose|i: int| best_zone(zones, qname_ascii, i);
        Some(zones[i].servers)
    } else {
        None
    }
}

/// The text a name is looked up under among the forwarding zones: its
/// presentation form, or "." (which only the catch-all zone matches) for a
/// name that hickory-proto cannot hold.
pub open spec fn forward_key(qname: Seq<Seq<u8>>) -> Seq<char> {
    match ascii_name(qname) {
        Some(a) => a,
        None => "."@,
    }
}

fn covers(zone: &String, key: &String) -> (r: bool)
    ensures
        r == zone_covers(zone@, key@),
{
    let z = zone.as_str();
    let k = key.as_str();
    let zl = z.unicode_len();
    let kl = k.unicode_len();
    proof {
        reveal_strlit(".");
    }
    let is_dot = zl == 1 && z.get_char(0) == '.';
    if is_dot {
        assert(zone@ =~= "."@);
        return true;
    }
    assert(zone@ != "."@);
    if zl > kl {
        assert(zone@ != key@);
        return false;
    }
    let off = kl - zl;
    let mut i: usize = 0;
    while i < zl
        invariant
            zl == zone@.len(),
            kl == key@.len(),
            off == kl - zl,
            i <= zl,
            z@ == zone@,
            k@ == key@,
            zone@ != "."@,
            forall|j: int| 0 <= j < i ==> zone@[j] == #[trigger] key@[off + j],
        decreases zl - i,
    {
        if z.get_char(i) != k.get_char(off + i) {
            assert(key@.subrange(off as int, kl as int)[i as int] == key@[off + i]);
            assert(key@.subrange(off as int, kl as int) != zone@);
            if off == 0 {
                assert(key@.subrange(0, kl as int) =~= key@);
            }
            return false;
        }
        i = i + 1;
    }
    assert forall|j: int| 0 <= j < zl implies key@.subrange(off as int, kl as int)[j] == zone@[j] by {
        assert(zone@[j] == key@[off + j]);
    }
    assert(key@.subrange(off as int, kl as int) =~= zone@);
    if off == 0 {
        assert(key@ =~= zone@);
        return true;
    }
    let c = k.get_char(off - 1);
    if c == '.' {
        true
    } else {
        assert(key@ != zone@);
        false
    }
}

/// The forwarders configured for a name, given as written by `Name::to_ascii`.
pub fn find_forwarders(zones: &Vec<ForwardZone>, qname_ascii: &String) -> (r: Option<Vec<SocketAddress>>)
    ensures
        match r {
            Some(v) => spec_find_forwarders(forward_zones_view(zones@), qname_ascii@) == Some(v@),
            None => spec_find_forwarders(forward_zones_view(zones@), qname_ascii@) is None,
        },
{
    let ghost zv = forward_zones_view(zones@);
    let ghost key = qname_ascii@;
    let mut best: Option<usize> = None;
    let mut best_len: usize = 0;
    let mut i: usize = 0;
    while i < zones.len()
        invariant
            i <= zones@.len(),
            zv == forward_zones_view(zones@),
            key == qname_ascii@,
            match best {
                None => forall|j: int| 0 <= j < i ==> !zone_covers(#[trigger] zv[j].zone, key),
                Some(b) => {
                    &&& b < i
                    &&& zone_covers(zv[b as int].zone, key)
                    &&& best_len == zv[b as int].zone.len()
                    &&& forall|j: int| 0 <= j < i && zone_covers(#[trigger] zv[j].zone, key) ==> zv[j].zone.len() <= best_len
                    &&& forall|j: int| 0 <= j < b && zone_covers(#[trigger] zv[j].zone, key) ==> zv[j].zone.len() < best_len
                },
            },
        decreases zones@.len() - i,
    {
        assert(zv[i as int] == zones@[i as int]@);
        if covers(&zones[i].zone, qname_ascii) {
            let len = zones[i].zone.as_str().unicode_len();
            let better = match best {
                None => true,
                Some(_) => len > best_len,
            };
            if better {
                best = Some(i);
                best_len = len;
            }
        }
        i = i + 1;
    }
    match best {
        Some(b) => {
            proof {
                assert(best_zone(zv, key, b as int));
                let c = choose|c: int| best_zone(zv, key, c);
                if c < b {
                    assert(zv[c].zone.len() < zv[b as int].zone.len());
                } else if c > b {
                    assert(zv[b as int].zone.len() < zv[c].zone.len());
                }
                assert(c == b);
            }
            let z = zones[b].clone();
            assert(z@ == zv[b as int]);
            Some(z.servers)
        },
        None => None,
    }
}

/// The target of the first CNAME record among the answers, if that record
/// holds CNAME data.
pub open spec fn first_cname_target(answers: Seq<RecordV>) -> Option<Seq<Seq<u8>>> {
    if exists|i: int| 0 <= i < answers.len() && (#[trigger] answers[i]).rtype() == RecordType::CNAME {
        let i = choose|i: int|
            0 <= i < answers.len() && (#[trigger] answers[i]).rtype() == RecordType::CNAME && forall|j: int|
                0 <= j < i ==> (#[trigger] answers[j]).rtype() != RecordType::CNAME;
        match answers[i].data {
            RDataV::CNAME(t) => Some(t),
            _ => None,
        }
    } else {
        None
    }
}

/// An NS record that a server for zone cut `cut` may hand out when asked
/// about `qname` (its bailiwick): its owner lies strictly below the cut, and
/// `qname` lies at or below its owner.
pub open spec fn ns_in_bailiwick(r: RecordV, cut: Seq<Seq<u8>>, qname: Seq<Seq<u8>>) -> bool {
    spec_labels_below(r.name, cut) > 0 && spec_is_subdomain(qname, r.name)
}

/// The glue addresses for name server `target` among the additional records,
/// in order: A records give IPv4 and AAAA records IPv6 addresses, port 53.
/// Only records at or below the zone cut `cut` of the server that sent them
/// count (bailiwick).
pub open spec fn glue_for(adds: Seq<RecordV>, target: Seq<Seq<u8>>, cut: Seq<Seq<u8>>) -> Seq<SocketAddress>
    decreases adds.len(),
{
    if adds.len() == 0 {
        Seq::empty()
    } else {
        let r = adds.last();
        let rest = glue_for(adds.drop_last(), target, cut);
        if canon(r.name) == canon(target) && spec_is_subdomain(r.name, cut) {
            match r.data {
                RDataV::A(a) => rest.push(SocketAddress { ip: IpAddress::V4(a), port: 53 }),
                RDataV::AAAA(a) => rest.push(SocketAddress { ip: IpAddress::V6(a), port: 53 }),
                _ => rest,
            }
        } else {
            rest
        }
    }
}

/// The glue addresses of the in-bailiwick NS records of a referral from a
/// server for `cut` about `qname`, in order.
pub open spec fn referral_servers(nss: Seq<RecordV>, adds: Seq<RecordV>, cut: Seq<Seq<u8>>, qname: Seq<Seq<u8>>) -> Seq<SocketAddress>
    decreases nss.len(),
{
    if nss.len() == 0 {
        Seq::empty()
    } else {
        let rest = referral_servers(nss.drop_last(), adds, cut, qname);
        match nss.last().data {
            RDataV::NS(t) => if ns_in_bailiwick(nss.last(), cut, qname) { rest + glue_for(adds, t, cut) } else { rest },
            _ => rest,
        }
    }
}

/// The name server names of the in-bailiwick NS records of a referral, in
/// order.
pub open spec fn referral_ns_names(nss: Seq<RecordV>, cut: Seq<Seq<u8>>, qname: Seq<Seq<u8>>) -> Seq<Seq<Seq<u8>>>
    decreases nss.len(),
{
    if nss.len() == 0 {
        Seq::empty()
    } else {
        let rest = referral_ns_names(nss.drop_last(), cut, qname);
        match nss.last().data {
            RDataV::NS(t) => if ns_in_bailiwick(nss.last(), cut, qname) { rest.push(t) } else { rest },
            _ => rest,
        }
    }
}

/// The zone cut a referral moves to: the owner of its last in-bailiwick NS
/// record, else the current one.
pub open spec fn referral_cut(nss: Seq<RecordV>, cut: Seq<Seq<u8>>, qname: Seq<Seq<u8>>) -> Seq<Seq<u8>>
    decreases nss.len(),
{
    if nss.len() == 0 {
        cut
    } else {
        match nss.last().data {
            RDataV::NS(_) => if ns_in_bailiwick(nss.last(), cut, qname) {
                nss.last().name
            } else {
                referral_cut(nss.drop_last(), cut, qname)
            },
            _ => referral_cut(nss.drop_last(), cut, qname),
        }
    }
}

/// The IPv4 addresses (port 53) of the A records among some answers, in order.
pub open spec fn a_servers(answers: Seq<RecordV>) -> Seq<SocketAddress>
    decreases answers.len(),
{
    if answers.len() == 0 {
        Seq::empty()
    } else {
        let rest = a_servers(answers.drop_last());
        match answers.last().data {
            RDataV::A(a) => rest.push(SocketAddress { ip: IpAddress::V4(a), port: 53 }),
            _ => rest,
        }
    }
}

/// What to do with an upstream response.
#[derive(Debug)]
pub enum ResponseStep {
    /// Resolution is over: this is the result.
    Done(ResolveResponse),
    /// The answer is a CNAME to `target` without the records asked for:
    /// resolve the target and append its answers to these.
    Chase { answers: Vec<Record>, target: DnsName },
    /// A referral to `zone_cut`: ask `servers` (the glue), or, without glue,
    /// the addresses of the name servers `ns_names`.
    Referral { zone_cut: DnsName, servers: Vec<SocketAddress>, ns_names: Vec<DnsName> },
}

pub enum ResponseStepV {
    Done(ResolveResponseV),
    Chase { answers: Seq<RecordV>, target: Seq<Seq<u8>> },
    Referral { zone_cut: Seq<Seq<u8>>, servers: Seq<SocketAddress>, ns_names: Seq<Seq<Seq<u8>>> },
}

pub open spec fn names_view(v: Seq<DnsName>) -> Seq<Seq<Seq<u8>>> {
    v.map_values(|n: DnsName| n@)
}

impl View for ResponseStep {
    type V = ResponseStepV;

    open spec fn view(&self) -> ResponseStepV {
        match self {
            ResponseStep::Done(r) => ResponseStepV::Done(r@),
            ResponseStep::Chase { answers, target } => ResponseStepV::Chase { answers: records_view(answers@), target: target@ },
            ResponseStep::Referral { zone_cut, servers, ns_names } => ResponseStepV::Referral {
                zone_cut: zone_cut@,
                servers: servers@,
                ns_names: names_view(ns_names@),
            },
        }
    }
}

/// How an upstream response to a query of type `qtype` is used (the
/// iterative algorithm of RFC 1034 section 5.3.3): answers are the result,
/// unless they are a CNAME without the records asked for, which is chased;
/// NS records with NOERROR and no answers are a referral; anything else
/// (NXDOMAIN, errors, empty answers) is the result as it stands. A referral
/// from a server for zone cut `cut` about `qname` is only followed within
/// that server's bailiwick: NS records whose owner is below `cut` and at or
/// above `qname`, and glue at or below `cut`.
pub open spec fn spec_response_step(m: MessageV, qname: Seq<Seq<u8>>, qtype: RecordType, cut: Seq<Seq<u8>>) -> ResponseStepV {
    if m.answers.len() > 0 {
        let target = if qtype != RecordType::CNAME { first_cname_target(m.answers) } else { None };
        match target {
            Some(t) => {
                if exists|i: int| 0 <= i < m.answers.len() && (#[trigger] m.answers[i]).rtype() == qtype {
                    ResponseStepV::Done(ResolveResponseV {
                        answers: m.answers,
                        authority: m.name_servers,
                        additional: m.additionals,
                        response_code: ResponseCode::NoError,
                    })
                } else {
                    ResponseStepV::Chase { answers: m.answers, target: t }
                }
            },
            None => ResponseStepV::Done(ResolveResponseV {
                answers: m.answers,
                authority: m.name_servers,
                additional: m.additionals,
                response_code: m.response_code,
            }),
        }
    } else if m.name_servers.len() > 0 && m.response_code == ResponseCode::NoError {
        ResponseStepV::Referral {
            zone_cut: referral_cut(m.name_servers, cut, qname),
            servers: referral_servers(m.name_servers, m.additionals, cut, qname),
            ns_names: referral_ns_names(m.name_servers, cut, qname),
        }
    } else {
        ResponseStepV::Done(ResolveResponseV {
            answers: Seq::empty(),
            authority: m.name_servers,
            additional: Seq::empty(),
            response_code: m.response_code,
        })
    }
}

fn cname_target(answers: &Vec<Record>) -> (r: Option<DnsName>)
    ensures
        match r {
            Some(t) => first_cname_target(records_view(answers@)) == Some(t@),
            None => first_cname_target(records_view(answers@)) is None,
        },
{
    let ghost av = records_view(answers@);
    let mut i: usize = 0;
    while i < answers.len()
        invariant
            i <= answers@.len(),
            av == records_view(answers@),
            forall|j: int| 0 <= j < i ==> (#[trigger] av[j]).rtype() != RecordType::CNAME,
        decreases answers@.len() - i,
    {
        if answers[i].record_type() == RecordType::CNAME {
            proof {
                assert(av[i as int].rtype() == RecordType::CNAME);
                let k = choose|k: int|
                    0 <= k < av.len() && (#[trigger] av[k]).rtype() == RecordType::CNAME && forall|j: int|
                        0 <= j < k ==> (#[trigger] av[j]).rtype() != RecordType::CNAME;
                if k < i {
                    assert(av[k].rtype() != RecordType::CNAME);
                }
                if k > i {
                    assert(av[i as int].rtype() != RecordType::CNAME);
                }
            }
            return match &answers[i].data {
                RecordData::CNAME(t) => Some(t.clone()),
                _ => None,
            };
        }
        i = i + 1;
    }
    None
}

fn has_type(records: &Vec<Record>, t: RecordType) -> (r: bool)
    ensures
        r == exists|i: int| 0 <= i < records@.len() && (#[trigger] records_view(records@)[i]).rtype() == t,
{
    let ghost v = records_view(records@);
    let mut i: usize = 0;
    while i < records.len()
        invariant
            i <= records@.len(),
            v == records_view(records@),
            forall|j: int| 0 <= j < i ==> (#[trigger] v[j]).rtype() != t,
        decreases records@.len() - i,
    {
        if records[i].record_type() == t {
            assert(v[i as int].rtype() == t);
            return true;
        }
        i = i + 1;
    }
    false
}

fn glue_addresses(adds: &Vec<Record>, target: &DnsName, cut: &DnsName, out: &mut Vec<SocketAddress>)
    ensures
        final(out)@ == old(out)@ + glue_for(records_view(adds@), target@, cut@),
{
    let ghost av = records_view(adds@);
    let ghost start = out@;
    let mut i: usize = 0;
    assert(av.subrange(0, 0) =~= Seq::<RecordV>::empty());
    while i < adds.len()
        invariant
            i <= adds@.len(),
            av == records_view(adds@),
            out@ == start + glue_for(av.subrange(0, i as int), target@, cut@),
        decreases adds@.len() - i,
    {
        let r = &adds[i];
        let ghost sub = av.subrange(0, i + 1);
        assert(sub.drop_last() =~= av.subrange(0, i as int));
        assert(sub.last() == r@);
        if r.name.same_name(target) && is_subdomain(&r.name, cut) {
            match &r.data {
                RecordData::A(a) => {
                    out.push(SocketAddress { ip: IpAddress::V4(*a), port: 53 });
                },
                RecordData::AAAA(a) => {
                    out.push(SocketAddress { ip: IpAddress::V6(*a), port: 53 });
                },
                _ => {},
            }
        }
        assert(out@ =~= start + glue_for(sub, target@, cut@));
        i = i + 1;
    }
    assert(av.subrange(0, adds@.len() as int) =~= av);
}

fn referral(nss: &Vec<Record>, adds: &Vec<Record>, cut: &DnsName, qname: &DnsName) -> (r: (DnsName, Vec<SocketAddress>, Vec<DnsName>))
    ensures
        r.0@ == referral_cut(records_view(nss@), cut@, qname@),
        r.1@ == referral_servers(records_view(nss@), records_view(adds@), cut@, qname@),
        names_view(r.2@) == referral_ns_names(records_view(nss@), cut@, qname@),
{
    let ghost nv = records_view(nss@);
    let mut zone_cut = cut.clone();
    let mut servers: Vec<SocketAddress> = Vec::new();
    let mut names: Vec<DnsName> = Vec::new();
    let mut i: usize = 0;
    assert(nv.subrange(0, 0) =~= Seq::<RecordV>::empty());
    assert(names_view(names@) =~= Seq::<Seq<Seq<u8>>>::empty());
    while i < nss.len()
        invariant
            i <= nss@.len(),
            nv == records_view(nss@),
            zone_cut@ == referral_cut(nv.subrange(0, i as int), cut@, qname@),
            servers@ == referral_servers(nv.subrange(0, i as int), records_view(adds@), cut@, qname@),
            names_view(names@) == referral_ns_names(nv.subrange(0, i as int), cut@, qname@),
        decreases nss@.len() - i,
    {
        let ns = &nss[i];
        let ghost sub = nv.subrange(0, i + 1);
        assert(sub.drop_last() =~= nv.subrange(0, i as int));
        assert(sub.last() == ns@);
        match &ns.data {
            RecordData::NS(target) => {
                if labels_below(&ns.name, cut) > 0 && is_subdomain(qname, &ns.name) {
                    zone_cut = ns.name.clone();
                    glue_addresses(adds, target, cut, &mut servers);
                    let ghost before = names_view(names@);
                    names.push(target.clone());
                    assert(names_view(names@) =~= before.push(target@));
                }
            },
            _ => {},
        }
        i = i + 1;
    }
    assert(nv.subrange(0, nss@.len() as int) =~= nv);
    (zone_cut, servers, names)
}

/// Decide what an upstream response means for a query about `qname` of type
/// `qtype` made from zone cut `zone_cut`.
pub fn process_response(response: &DnsMessage, qname: &DnsName, qtype: RecordType, zone_cut: &DnsName) -> (r: ResponseStep)
    ensures
        r@ == spec_response_step(response@, qname@, qtype, zone_cut@),
{
    if response.answers.len() > 0 {
        let target = if qtype != RecordType::CNAME { cname_target(&response.answers) } else { None };
        match target {
            Some(t) => {
                if has_type(&response.answers, qtype) {
                    let rr = ResolveResponse {
                        answers: copy_records(&response.answers),
                        authority: copy_records(&response.name_servers),
                        additional: copy_records(&response.additionals),
                        response_code: ResponseCode::NoError,
                    };
                    ResponseStep::Done(rr)
                } else {
                    ResponseStep::Chase { answers: copy_records(&response.answers), target: t }
                }
            },
            None => {
                let rr = ResolveResponse {
                    answers: copy_records(&response.answers),
                    authority: copy_records(&response.name_servers),
                    additional: copy_records(&response.additionals),
                    response_code: response.response_code,
                };
                ResponseStep::Done(rr)
            },
        }
    } else if response.name_servers.len() > 0 && response.response_code == ResponseCode::NoError {
        let (cut, servers, ns_names) = referral(&response.name_servers, &response.additionals, zone_cut, qname);
        ResponseStep::Referral { zone_cut: cut, servers, ns_names }
    } else {
        let answers: Vec<Record> = Vec::new();
        let additional: Vec<Record> = Vec::new();
        assert(records_view(answers@) =~= Seq::<RecordV>::empty());
        assert(records_view(additional@) =~= Seq::<RecordV>::empty());
        ResponseStep::Done(ResolveResponse {
            answers,
            authority: copy_records(&response.name_servers),
            additional,
            response_code: response.response_code,
        })
    }
}

/// The name server addresses found by resolving a name server's name: its A
/// records, port 53.
pub fn servers_from_answers(answers: &Vec<Record>) -> (r: Vec<SocketAddress>)
    ensures
        r@ == a_servers(records_view(answers@)),
{
    let ghost av = records_view(answers@);
    let mut out: Vec<SocketAddress> = Vec::new();
    let mut i: usize = 0;
    assert(av.subrange(0, 0) =~= Seq::<RecordV>::empty());
    while i < answers.len()
        invariant
            i <= answers@.len(),
            av == records_view(answers@),
            out@ == a_servers(av.subrange(0, i as int)),
        decreases answers@.len() - i,
    {
        let ghost sub = av.subrange(0, i + 1);
        assert(sub.drop_last() =~= av.subrange(0, i as int));
        assert(sub.last() == answers@[i as int]@);
        match &answers[i].data {
            RecordData::A(a) => {
                out.push(SocketAddress { ip: IpAddress::V4(*a), port: 53 });
            },
            _ => {},
        }
        i = i + 1;
    }
    assert(av.subrange(0, answers@.len() as int) =~= av);
    out
}

/// The result of a chased CNAME: the CNAME answers followed by the answers
/// for the target, with the target's authority, additional records and
/// response code.
pub fn chase_result(answers: Vec<Record>, chased: ResolveResponse) -> (r: ResolveResponse)
    ensures
        r@ == (ResolveResponseV {
            answers: records_view(answers@) + chased@.answers,
            authority: chased@.authority,
            additional: chased@.additional,
            response_code: chased@.response_code,
        }),
{
    let mut all = answers;
    let ghost a0 = records_view(all@);
    let ResolveResponse { answers: more, authority, additional, response_code } = chased;
    let mut i: usize = 0;
    while i < more.len()
        invariant
            i <= more@.len(),
            records_view(all@) == a0 + records_view(more@).subrange(0, i as int),
        decreases more@.len() - i,
    {
        let ghost before = records_view(all@);
        let c = more[i].clone();
        all.push(c);
        assert(records_view(all@) =~= before.push(records_view(more@)[i as int]));
        assert(records_view(more@).subrange(0, i + 1) =~= records_view(more@).subrange(0, i as int).push(records_view(more@)[i as int]));
        assert(records_view(all@) =~= a0 + records_view(more@).subrange(0, i + 1));
        i = i + 1;
    }
    assert(records_view(more@).subrange(0, more@.len() as int) =~= records_view(more@));
    ResolveResponse { answers: all, authority, additional, response_code }
}

/// The result of a forwarded query: the forwarder's response as it stands.
pub fn forward_result(response: &DnsMessage) -> (r: ResolveResponse)
    ensures
        r@ == (ResolveResponseV {
            answers: response@.answers,
            authority: response@.name_servers,
            additional: response@.additionals,
            response_code: response@.response_code,
        }),
{
    ResolveResponse {
        answers: copy_records(&response.answers),
        authority: copy_records(&response.name_servers),
        additional: copy_records(&response.additionals),
        response_code: response.response_code,
    }
}

/// The recursive resolver's state: its cache and settings.
pub struct Resolver {
    pub cache: DnsCache,
    pub upstream: UpstreamPool,
    pub root_hints: RootHints,
    pub max_depth: u32,
    pub qname_minimization: bool,
    pub forwarding: Vec<ForwardZone>,
}

/// Where a query for `qname` is answered from before any upstream query: the
/// cache, forwarders, or iteration from the root.
#[derive(Debug)]
pub enum ResolveStart {
    Cached(ResolveResponse),
    Forward(Vec<SocketAddress>),
    Iterate,
}

impl Resolver {
    /// A resolver configured as given. An unreadable timeout means two seconds.
    pub fn new(recursion_config: &RecursionConfig, cache_config: &CacheConfig) -> (r: Resolver)
        ensures
            r.cache@.slots.len() == 0,
            r.cache@.max_entries == cache_config.max_entries,
            r.cache@.min_ttl == cache_config.min_ttl,
            r.cache@.max_ttl == cache_config.max_ttl,
            r.cache@.negative_ttl == cache_config.negative_ttl,
            r.upstream.config.retries == recursion_config.retries,
            r.upstream.config.timeout == (match duration_of(spec_parse_duration(vstd::utf8::encode_utf8(recursion_config.timeout@))) {
                Some(d) => d,
                None => secs_duration(2),
            }),
            r.root_hints.servers@.len() == 13,
            r.max_depth == recursion_config.max_depth,
            r.qname_minimization == recursion_config.qname_minimization,
            forward_zones_view(r.forwarding@) == forward_zones_view(recursion_config.forwarding.zones@),
    {
        let cache = DnsCache::new(cache_config.max_entries, cache_config.min_ttl, cache_config.max_ttl, cache_config.negative_ttl);
        let timeout = match parse_duration(recursion_config.timeout.as_str()) {
            Some(d) => d,
            None => duration_from_secs(2),
        };
        let upstream = UpstreamPool::new(UpstreamConfig { timeout, retries: recursion_config.retries });
        Resolver {
            cache,
            upstream,
            root_hints: RootHints::default(),
            max_depth: recursion_config.max_depth,
            qname_minimization: recursion_config.qname_minimization,
            forwarding: copy_forward_zones(&recursion_config.forwarding.zones),
        }
    }

    /// First step of `resolve`: a fresh cache entry answers at once; else the
    /// forwarders configured for the name (as `Name::to_ascii` writes it) are
    /// asked, or resolution iterates from the root.
    pub fn start(&mut self, qname: &DnsName, qtype: RecordType) -> (r: ResolveStart)
        ensures
            final(self).forwarding@ == old(self).forwarding@,
            final(self).max_depth == old(self).max_depth,
            final(self).qname_minimization == old(self).qname_minimization,
            final(self).root_hints.servers@ == old(self).root_hints.servers@,
            final(self).cache@.hits == (if r is Cached { bump(old(self).cache@.hits) } else { old(self).cache@.hits }),
            final(self).cache@.misses == (if r is Cached { old(self).cache@.misses } else { bump(old(self).cache@.misses) }),
            exists|now: u64| {
                let (slots, found) = #[trigger] crate::cache::spec_get(old(self).cache@.slots, cache_key(qname@, qtype), now);
                &&& final(self).cache@.slots == slots
                &&& match (found, r) {
                    (Some(e), ResolveStart::Cached(resp)) => resp@ == (ResolveResponseV {
                        answers: e.records,
                        authority: Seq::empty(),
                        additional: Seq::empty(),
                        response_code: e.response_code,
                    }),
                    (None, ResolveStart::Forward(v)) => spec_find_forwarders(forward_zones_view(old(self).forwarding@), forward_key(qname@)) == Some(v@),
                    (None, ResolveStart::Iterate) => spec_find_forwarders(forward_zones_view(old(self).forwarding@), forward_key(qname@)) is None,
                    _ => false,
                }
            },
    {
        match self.cache.get(qname, qtype) {
            Some(cached) => {
                let authority: Vec<Record> = Vec::new();
                let additional: Vec<Record> = Vec::new();
                assert(records_view(authority@) =~= Seq::<RecordV>::empty());
                assert(records_view(additional@) =~= Seq::<RecordV>::empty());
                ResolveStart::Cached(ResolveResponse {
                    answers: cached.records,
                    authority,
                    additional,
                    response_code: cached.response_code,
                })
            },
            None => {
                let key = match name_to_ascii(qname) {
                    Some(a) => a,
                    None => ".".to_string(),
                };
                match find_forwarders(&self.forwarding, &key) {
                    Some(v) => ResolveStart::Forward(v),
                    None => ResolveStart::Iterate,
                }
            },
        }
    }

    /// Keep what resolution found: answers under the TTL of the first one;
    /// an NXDOMAIN, or a NOERROR without answers (NODATA), as a negative
    /// entry (RFC 2308); nothing otherwise.
    pub fn record_result(&mut self, qname: &DnsName, qtype: RecordType, resp: &ResolveResponse)
        ensures
            final(self).forwarding@ == old(self).forwarding@,
            final(self).max_depth == old(self).max_depth,
            final(self).qname_minimization == old(self).qname_minimization,
            resp.answers@.len() > 0 ==> exists|now: u64| final(self).cache@ == #[trigger] spec_insert(
                old(self).cache@, cache_key(qname@, qtype), resp@.answers, resp.answers@[0].ttl, now),
            resp.answers@.len() == 0 && resp.response_code == ResponseCode::NXDomain ==> exists|now: u64|
                final(self).cache@ == #[trigger] spec_insert_negative(old(self).cache@, cache_key(qname@, qtype), ResponseCode::NXDomain, now),
            resp.answers@.len() == 0 && resp.response_code == ResponseCode::NoError ==> exists|now: u64|
                final(self).cache@ == #[trigger] spec_insert_negative(old(self).cache@, cache_key(qname@, qtype), ResponseCode::NoError, now),
            resp.answers@.len() == 0 && resp.response_code != ResponseCode::NXDomain && resp.response_code != ResponseCode::NoError
                ==> final(self).cache@ == old(self).cache@,
    {
        let now = self.cache.now();
        if resp.answers.len() > 0 {
            let ttl = resp.answers[0].ttl;
            self.cache.insert_at(qname, qtype, copy_records(&resp.answers), ttl, now);
            assert(self.cache@ == spec_insert(old(self).cache@, cache_key(qname@, qtype), resp@.answers, resp.answers@[0].ttl, now));
        } else if resp.response_code == ResponseCode::NXDomain {
            self.cache.insert_negative_at(qname, qtype, ResponseCode::NXDomain, now);
            assert(self.cache@ == spec_insert_negative(old(self).cache@, cache_key(qname@, qtype), ResponseCode::NXDomain, now));
        } else if resp.response_code == ResponseCode::NoError {
            self.cache.insert_negative_at(qname, qtype, ResponseCode::NoError, now);
            assert(self.cache@ == spec_insert_negative(old(self).cache@, cache_key(qname@, qtype), ResponseCode::NoError, now));
        }
    }

    /// Remove every cache entry.
    pub fn flush_cache(&mut self)
        ensures
            final(self).cache@.slots.len() == 0,
    {
        self.cache.flush_all();
    }

    /// Remove the cache entries of a name.
    pub fn flush_name(&mut self, name: &DnsName)
        ensures
            final(self).cache@.slots == crate::cache::spec_flush_name(old(self).cache@.slots, name@),
    {
        self.cache.flush_name(name);
    }

    /// The cache statistics.
    pub fn cache_stats(&self) -> (r: CacheStats)
        ensures
            r.size == self.cache@.slots.len(),
            r.hits == self.cache@.hits,
            r.misses == self.cache@.misses,
    {
        self.cache.stats()
    }
}

} // verus!
