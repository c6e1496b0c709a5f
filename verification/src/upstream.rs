use crate::name::{canon, canon_label, lower, DnsName};
use crate::types::{
    empty_message, DnsMessage, MessageType, MessageV, Question, QuestionV, RecordType,
};
use rand::Rng;
use vstd::prelude::*;

verus! {

/// The duration `Duration::from_secs(secs)` makes: `secs` seconds.
pub uninterp spec fn secs_duration(secs: u64) -> std::time::Duration;

/// The duration `Duration::from_millis(ms)` makes: `ms` milliseconds.
pub uninterp spec fn millis_duration(ms: u64) -> std::time::Duration;

/// `Duration::from_secs`: a duration of `secs` seconds.
#[verifier::external_body]
pub(crate) fn duration_from_secs(secs: u64) -> (r: std::time::Duration)
    ensures
        r == secs_duration(secs),
{
    std::time::Duration::from_secs(secs)
}

/// `Duration::from_millis`: a duration of `ms` milliseconds.
#[verifier::external_body]
pub(crate) fn duration_from_millis(ms: u64) -> (r: std::time::Duration)
    ensures
        r == millis_duration(ms),
{
    std::time::Duration::from_millis(ms)
}

/// A random `u16` from the thread-local generator (`rand::thread_rng().gen()`).
/// Nothing is stated of its value.
#[verifier::external_body]
fn random_u16() -> u16 {
    rand::thread_rng().gen()
}

/// A random `bool` from the thread-local generator (`rand::thread_rng().gen()`).
/// Nothing is stated of its value.
#[verifier::external_body]
fn random_bool() -> bool {
    rand::thread_rng().gen()
}

/// How long to wait for an upstream answer, and how many times to retry.
#[derive(Debug, Clone, Copy)]
pub struct UpstreamConfig {
    pub timeout: std::time::Duration,
    pub retries: u32,
}

impl Default for UpstreamConfig {
    /// Two seconds, two retries.
    fn default() -> (r: Self)
        ensures
            r.retries == 2,
            r.timeout == secs_duration(2),
    {
        UpstreamConfig { timeout: duration_from_secs(2), retries: 2 }
    }
}

/// An error of an upstream query.
#[derive(Debug)]
pub enum UpstreamError {
    Timeout(std::time::Duration),
    Io(String),
    Proto(String),
    IdMismatch { expected: u16, got: u16 },
    RetriesExhausted,
}

/// Sends queries to upstream servers.
pub struct UpstreamPool {
    pub config: UpstreamConfig,
}

impl UpstreamPool {
    /// A pool with the given settings.
    pub fn new(config: UpstreamConfig) -> (r: UpstreamPool)
        ensures
            r.config.retries == config.retries,
            r.config.timeout == config.timeout,
    {
        UpstreamPool { config }
    }

    /// How many times a query is sent at most: once, plus the retries.
    pub fn attempts(&self) -> (r: u64)
        ensures
            r == self.config.retries + 1,
    {
        self.config.retries as u64 + 1
    }
}

fn mix_label(l: &Vec<u8>) -> (r: Vec<u8>)
    ensures
        r@.len() == l@.len(),
        canon_label(r@) == canon_label(l@),
{
    let mut out: Vec<u8> = Vec::new();
    let mut i: usize = 0;
    while i < l.len()
        invariant
            i <= l@.len(),
            out@.len() == i,
            forall|j: int| 0 <= j < i ==> lower(#[trigger] out@[j]) == lower(l@[j]),
        decreases l@.len() - i,
    {
        let b = l[i];
        let is_upper = 65 <= b && b <= 90;
        let is_lower = 97 <= b && b <= 122;
        let nb: u8 = if is_upper || is_lower {
            let low: u8 = if is_upper { b + 32 } else { b };
            if random_bool() { low - 32 } else { low }
        } else {
            b
        };
        out.push(nb);
        i = i + 1;
    }
    assert(canon_label(out@) =~= canon_label(l@));
    out
}

/// The name with the case of each ASCII letter chosen at random (DNS 0x20,
/// draft-vixie-dnsext-dns0x20): the same name when case is ignored.
pub fn apply_0x20_encoding(name: &DnsName) -> (r: DnsName)
    ensures
        r@.len() == name@.len(),
        canon(r@) == canon(name@),
{
    let mut labels: Vec<Vec<u8>> = Vec::new();
    let mut i: usize = 0;
    while i < name.labels.len()
        invariant
            i <= name@.len(),
            labels@.len() == i,
            name@.len() == name.labels@.len(),
            forall|j: int| 0 <= j < i ==> canon_label((#[trigger] labels@[j])@) == canon_label(name@[j]),
        decreases name.labels@.len() - i,
    {
        let l = mix_label(&name.labels[i]);
        assert(name@[i as int] == name.labels@[i as int]@);
        labels.push(l);
        i = i + 1;
    }
    let r = DnsName { labels };
    assert(canon(r@) =~= canon(name@)) by {
        assert forall|j: int| 0 <= j < r@.len() implies canon(r@)[j] == canon(name@)[j] by {
            assert(r@[j] == labels@[j]@);
        }
    }
    r
}

/// The query sent upstream: id `id`, opcode QUERY, recursion not desired
/// (resolution is iterative), one question of class IN.
pub open spec fn spec_upstream_query(id: u16, qname: Seq<Seq<u8>>, qtype: RecordType) -> MessageV {
    MessageV {
        id,
        queries: seq![QuestionV { name: qname, qtype, qclass: 1 }],
        ..empty_message()
    }
}

/// Build the query for `qname` (already case-mixed) with the given id.
pub fn build_upstream_query(id: u16, qname: DnsName, qtype: RecordType) -> (r: DnsMessage)
    ensures
        r@ == spec_upstream_query(id, qname@, qtype),
{
    let mut msg = DnsMessage::new();
    msg.id = id;
    msg.message_type = MessageType::Query;
    msg.op_code = 0;
    msg.recursion_desired = false;
    let ghost before = msg@.queries;
    msg.queries.push(Question { name: qname, qtype, qclass: 1 });
    assert(msg@.queries =~= seq![QuestionV { name: qname@, qtype, qclass: 1 }]);
    msg
}

/// Build a query with a random id and the name's letters in random case; the
/// id is returned with it, to check the answer against.
pub fn new_upstream_query(qname: &DnsName, qtype: RecordType) -> (r: (u16, DnsMessage))
    ensures
        exists|m: Seq<Seq<u8>>| m.len() == qname@.len() && canon(m) == canon(qname@) && r.1@ == #[trigger] spec_upstream_query(r.0, m, qtype),
{
    let id = random_u16();
    let mixed = apply_0x20_encoding(qname);
    let ghost m = mixed@;
    let q = build_upstream_query(id, mixed, qtype);
    assert(q@ == spec_upstream_query(id, m, qtype));
    assert(m.len() == qname@.len() && canon(m) == canon(qname@));
    let r = (id, q);
    assert(r.1@ == spec_upstream_query(r.0, m, qtype));
    r
}

/// Accept an upstream answer only if it carries the id of the query.
pub fn check_response_id(expected: u16, response: DnsMessage) -> (r: Result<DnsMessage, UpstreamError>)
    ensures
        expected == response.id ==> (r matches Ok(m) && m@ == response@),
        expected != response.id ==> (r matches Err(UpstreamError::IdMismatch { expected: e, got: g }) && e == expected && g == response.id),
{
    if response.id != expected {
        let got = response.id;
        return Err(UpstreamError::IdMismatch { expected, got });
    }
    Ok(response)
}

} // verus!
