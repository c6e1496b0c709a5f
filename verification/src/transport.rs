use crate::name::DnsName;
use crate::types::{type_code, MessageV, QuestionV, RDataV, RecordV};
use crate::upstream::{duration_from_secs, secs_duration};
use crate::validator::{display_name, name_display};
use crate::wire::{decode_message, rdata_display, rdata_text, wire_message};
use base64::Engine;
use vstd::prelude::*;

verus! {

/// Settings of the TCP and DoT listeners.
#[derive(Debug, Clone, Copy)]
pub struct TcpConfig {
    pub idle_timeout: std::time::Duration,
    pub max_connections_per_ip: usize,
}

impl Default for TcpConfig {
    /// Ten seconds of idleness, 100 connections per address.
    fn default() -> (r: Self)
        ensures
            r.max_connections_per_ip == 100,
            r.idle_timeout == secs_duration(10),
    {
        TcpConfig { idle_timeout: duration_from_secs(10), max_connections_per_ip: 100 }
    }
}

/// The length of the DNS message that follows a TCP length prefix (RFC 1035
/// section 4.2.2), `None` for a zero length, which ends the connection.
pub fn tcp_message_length(prefix: [u8; 2]) -> (r: Option<usize>)
    ensures
        match r {
            Some(n) => n == prefix[0] as int * 256 + prefix[1] as int && n > 0,
            None => prefix[0] == 0 && prefix[1] == 0,
        },
{
    let n: usize = prefix[0] as usize * 256 + prefix[1] as usize;
    if n == 0 {
        None
    } else {
        Some(n)
    }
}

/// The two-byte length prefix written before a response of `len` bytes: the
/// length kept to 16 bits, big endian.
pub fn tcp_length_prefix(len: usize) -> (r: [u8; 2])
    ensures
        r[0] as int * 256 + r[1] as int == len as int % 65536,
{
    let low: usize = len % 65536;
    let hi = (low / 256) as u8;
    let lo = (low % 256) as u8;
    [hi, lo]
}

/// The content type of DNS messages over HTTPS (RFC 8484).
pub open spec fn dns_message_type() -> Seq<char> {
    "application/dns-message"@
}

/// A DoH POST body is read only with the DNS message content type.
pub fn doh_post_content_ok(content_type: &str) -> (r: bool)
    ensures
        r == (content_type@ == dns_message_type()),
{
    let ct = content_type.to_string();
    let expected = "application/dns-message".to_string();
    ct == expected
}

/// `pat` occurs in `s`.
pub open spec fn contains_text(s: Seq<u8>, pat: Seq<u8>) -> bool {
    exists|i: int| 0 <= i && i + pat.len() <= s.len() && #[trigger] s.subrange(i, i + pat.len()) == pat
}

/// The bytes of "application/dns-json".
pub open spec fn dns_json_type() -> Seq<u8> {
    seq![97u8, 112u8, 112u8, 108u8, 105u8, 99u8, 97u8, 116u8, 105u8, 111u8, 110u8, 47u8, 100u8, 110u8, 115u8, 45u8, 106u8, 115u8, 111u8, 110u8]
}

/// Whether an Accept header asks for the JSON form of DoH answers
/// ("application/dns-json" anywhere in it).
pub fn doh_wants_json(accept: &[u8]) -> (r: bool)
    ensures
        r == contains_text(accept@, dns_json_type()),
{
    let pat: [u8; 20] = [97, 112, 112, 108, 105, 99, 97, 116, 105, 111, 110, 47, 100, 110, 115, 45, 106, 115, 111, 110];
    assert(pat@ =~= dns_json_type());
    if accept.len() < 20 {
        assert(!contains_text(accept@, dns_json_type()));
        return false;
    }
    let mut i: usize = 0;
    let last = accept.len() - 20;
    while i <= last
        invariant
            last + 20 == accept@.len(),
            last + 20 == accept.len(),
            i <= last + 1,
            pat@ == dns_json_type(),
            forall|k: int| 0 <= k < i && k + 20 <= accept@.len() ==> #[trigger] accept@.subrange(k, k + 20) != dns_json_type(),
        decreases accept@.len() + 20 - i,
    {
        let mut j: usize = 0;
        let mut same = true;
        while j < 20 && same
            invariant
                j <= 20,
                i <= last,
                last + 20 == accept@.len(),
                last + 20 == accept.len(),
                pat@ == dns_json_type(),
                forall|m: int| 0 <= m < j ==> accept@[i + m] == pat@[m],
                !same ==> j < 20 && accept@[i + j] != pat@[j as int],
            decreases 20 - j + (if same { 1int } else { 0int }),
        {
            if accept[i + j] != pat[j] {
                same = false;
            } else {
                j = j + 1;
            }
        }
        if same {
            assert(accept@.subrange(i as int, i + 20) =~= dns_json_type());
            return true;
        }
        assert(accept@.subrange(i as int, i + 20)[j as int] != dns_json_type()[j as int]);
        i = i + 1;
    }
    false
}

/// What the base64url decoder (no padding) of the base64 crate makes of a
/// DoH GET `dns` parameter, if it decodes.
pub uninterp spec fn base64url_decoded(s: Seq<char>) -> Option<Seq<u8>>;

pub open spec fn opt_bytes_of(o: Option<Vec<u8>>) -> Option<Seq<u8>> {
    match o {
        Some(b) => Some(b@),
        None => None,
    }
}

/// Decode a DoH GET `dns` parameter (`URL_SAFE_NO_PAD.decode`).
#[verifier::external_body]
fn decode_doh_param(s: &str) -> (r: Option<Vec<u8>>)
    ensures
        opt_bytes_of(r) == base64url_decoded(s@),
{
    base64::engine::general_purpose::URL_SAFE_NO_PAD.decode(s).ok()
}

/// The status of a DoH reply.
#[derive(Debug, Clone, Copy, PartialEq, Eq, Structural)]
pub enum DohStatus {
    Success,
    BadRequest,
    UnsupportedMediaType,
    InternalError,
}

impl DohStatus {
    /// The HTTP status code.
    pub fn code(&self) -> (r: u16)
        ensures
            r == (match self {
                DohStatus::Success => 200u16,
                DohStatus::BadRequest => 400u16,
                DohStatus::UnsupportedMediaType => 415u16,
                DohStatus::InternalError => 500u16,
            }),
    {
        match self {
            DohStatus::Success => 200,
            DohStatus::BadRequest => 400,
            DohStatus::UnsupportedMediaType => 415,
            DohStatus::InternalError => 500,
        }
    }
}

/// The length a reader gets back from the prefix written for a response of
/// 1 to 65535 bytes is the response's length.
pub proof fn lemma_length_prefix_roundtrip(len: usize, prefix: [u8; 2])
    requires
        0 < len < 65536,
        prefix[0] as int * 256 + prefix[1] as int == len as int % 65536,
    ensures
        prefix[0] as int * 256 + prefix[1] as int == len,
        prefix[0] as int * 256 + prefix[1] as int > 0,
{
}

/// The DNS query of a DoH GET request: its `dns` parameter, base64url
/// without padding; 400 Bad Request where it does not decode.
pub fn doh_get_query(dns_param: &str) -> (r: Result<Vec<u8>, DohStatus>)
    ensures
        match base64url_decoded(dns_param@) {
            Some(b) => r matches Ok(q) && q@ == b,
            None => r == Err::<Vec<u8>, DohStatus>(DohStatus::BadRequest),
        },
{
    match decode_doh_param(dns_param) {
        Some(q) => Ok(q),
        None => Err(DohStatus::BadRequest),
    }
}

/// The DNS query of a DoH POST request: its body, read only with the DNS
/// message content type; 415 Unsupported Media Type otherwise.
pub fn doh_post_query(content_type: &str, body: Vec<u8>) -> (r: Result<Vec<u8>, DohStatus>)
    ensures
        content_type@ == dns_message_type() ==> (r matches Ok(q) && q@ == body@),
        content_type@ != dns_message_type() ==> r == Err::<Vec<u8>, DohStatus>(DohStatus::UnsupportedMediaType),
{
    if doh_post_content_ok(content_type) {
        Ok(body)
    } else {
        Err(DohStatus::UnsupportedMediaType)
    }
}

/// A question of the JSON form of a response.
pub struct DnsJsonQuestion {
    pub name: String,
    pub qtype: u16,
}

/// An answer record of the JSON form of a response.
pub struct DnsJsonAnswer {
    pub name: String,
    pub rtype: u16,
    pub ttl: u32,
    pub data: String,
}

/// The JSON form of a response (the simplified form of RFC 8484 JSON APIs):
/// status (the low four bits of the response code), flags, questions and
/// answers, names and data as hickory-proto presents them.
pub struct DnsJson {
    pub status: u16,
    pub tc: bool,
    pub rd: bool,
    pub ra: bool,
    pub ad: bool,
    pub cd: bool,
    pub question: Vec<DnsJsonQuestion>,
    pub answer: Vec<DnsJsonAnswer>,
}

pub struct DnsJsonQuestionV {
    pub name: Seq<char>,
    pub qtype: u16,
}

pub struct DnsJsonAnswerV {
    pub name: Seq<char>,
    pub rtype: u16,
    pub ttl: u32,
    pub data: Seq<char>,
}

pub struct DnsJsonV {
    pub status: u16,
    pub tc: bool,
    pub rd: bool,
    pub ra: bool,
    pub ad: bool,
    pub cd: bool,
    pub question: Seq<DnsJsonQuestionV>,
    pub answer: Seq<DnsJsonAnswerV>,
}

impl View for DnsJsonQuestion {
    type V = DnsJsonQuestionV;

    open spec fn view(&self) -> DnsJsonQuestionV {
        DnsJsonQuestionV { name: self.name@, qtype: self.qtype }
    }
}

impl View for DnsJsonAnswer {
    type V = DnsJsonAnswerV;

    open spec fn view(&self) -> DnsJsonAnswerV {
        DnsJsonAnswerV { name: self.name@, rtype: self.rtype, ttl: self.ttl, data: self.data@ }
    }
}

impl View for DnsJson {
    type V = DnsJsonV;

    open spec fn view(&self) -> DnsJsonV {
        DnsJsonV {
            status: self.status,
            tc: self.tc,
            rd: self.rd,
            ra: self.ra,
            ad: self.ad,
            cd: self.cd,
            question: self.question@.map_values(|q: DnsJsonQuestion| q@),
            answer: self.answer@.map_values(|a: DnsJsonAnswer| a@),
        }
    }
}

/// The text shown for a name: hickory-proto's presentation, empty where
/// hickory-proto cannot hold the name.
pub open spec fn shown_name(n: Seq<Seq<u8>>) -> Seq<char> {
    match display_name(n) {
        Some(t) => t,
        None => Seq::empty(),
    }
}

/// The text shown for record data: hickory-proto's presentation, empty where
/// hickory-proto cannot hold the data.
pub open spec fn shown_rdata(d: RDataV) -> Seq<char> {
    match rdata_text(d) {
        Some(t) => t,
        None => Seq::empty(),
    }
}

pub open spec fn json_question(q: QuestionV) -> DnsJsonQuestionV {
    DnsJsonQuestionV { name: shown_name(q.name), qtype: type_code(q.qtype) }
}

pub open spec fn json_answer(r: RecordV) -> DnsJsonAnswerV {
    DnsJsonAnswerV { name: shown_name(r.name), rtype: type_code(r.rtype()), ttl: r.ttl, data: shown_rdata(r.data) }
}

/// The JSON form of a decoded response.
pub open spec fn spec_json(m: MessageV) -> DnsJsonV {
    DnsJsonV {
        status: (m.response_code.spec_code() % 16) as u16,
        tc: m.truncated,
        rd: m.recursion_desired,
        ra: m.recursion_available,
        ad: m.authentic_data,
        cd: m.checking_disabled,
        question: m.queries.map_values(|q: QuestionV| json_question(q)),
        answer: m.answers.map_values(|r: RecordV| json_answer(r)),
    }
}

fn shown_name_of(n: &DnsName) -> (r: String)
    ensures
        r@ == shown_name(n@),
{
    match name_display(n) {
        Some(t) => t,
        None => String::new(),
    }
}

/// The JSON form of the response in `wire`; `None` where it cannot be decoded.
pub fn response_json(wire: &[u8]) -> (r: Option<DnsJson>)
    ensures
        match wire_message(wire@) {
            None => r is None,
            Some(m) => r matches Some(j) && j@ == spec_json(m),
        },
{
    let m = match decode_message(wire) {
        Ok(m) => m,
        Err(_) => {
            return None;
        },
    };
    let mut question: Vec<DnsJsonQuestion> = Vec::new();
    let mut i: usize = 0;
    while i < m.queries.len()
        invariant
            i <= m.queries@.len(),
            question@.map_values(|q: DnsJsonQuestion| q@) == m@.queries.subrange(0, i as int).map_values(|q: QuestionV| json_question(q)),
        decreases m.queries@.len() - i,
    {
        let q = &m.queries[i];
        assert(m@.queries[i as int] == q@);
        let jq = DnsJsonQuestion { name: shown_name_of(&q.name), qtype: q.qtype.code() };
        assert(jq@ == json_question(q@));
        let ghost before = question@.map_values(|q: DnsJsonQuestion| q@);
        let ghost src = m@.queries.subrange(0, i as int);
        question.push(jq);
        assert(question@.map_values(|q: DnsJsonQuestion| q@) =~= before.push(json_question(q@)));
        assert(m@.queries.subrange(0, i + 1) =~= src.push(q@));
        assert(src.push(q@).map_values(|q: QuestionV| json_question(q)) =~= src.map_values(|q: QuestionV| json_question(q)).push(json_question(q@)));
        i = i + 1;
    }
    assert(m@.queries.subrange(0, m@.queries.len() as int) =~= m@.queries);
    let mut answer: Vec<DnsJsonAnswer> = Vec::new();
    let mut k: usize = 0;
    while k < m.answers.len()
        invariant
            k <= m.answers@.len(),
            answer@.map_values(|a: DnsJsonAnswer| a@) == m@.answers.subrange(0, k as int).map_values(|r: RecordV| json_answer(r)),
        decreases m.answers@.len() - k,
    {
        let r = &m.answers[k];
        assert(m@.answers[k as int] == r@);
        let data = match rdata_display(&r.data) {
            Some(t) => t,
            None => String::new(),
        };
        let ja = DnsJsonAnswer { name: shown_name_of(&r.name), rtype: r.record_type().code(), ttl: r.ttl, data };
        assert(ja@ == json_answer(r@));
        let ghost before = answer@.map_values(|a: DnsJsonAnswer| a@);
        let ghost src = m@.answers.subrange(0, k as int);
        answer.push(ja);
        assert(answer@.map_values(|a: DnsJsonAnswer| a@) =~= before.push(json_answer(r@)));
        assert(m@.answers.subrange(0, k + 1) =~= src.push(r@));
        assert(src.push(r@).map_values(|r: RecordV| json_answer(r)) =~= src.map_values(|r: RecordV| json_answer(r)).push(json_answer(r@)));
        k = k + 1;
    }
    assert(m@.answers.subrange(0, m@.answers.len() as int) =~= m@.answers);
    let code = m.response_code.code();
    let j = DnsJson {
        status: code % 16,
        tc: m.truncated,
        rd: m.recursion_desired,
        ra: m.recursion_available,
        ad: m.authentic_data,
        cd: m.checking_disabled,
        question,
        answer,
    };
    Some(j)
}

} // verus!
