use crate::name::DnsName;
use crate::types::{
    questions_view, records_view, type_code, DnsMessage, Dnskey, Edns, MessageType, MessageV,
    Question, QuestionV, RDataV, Record, RecordData, RecordType, RecordV, ResponseCode, Rrsig,
    RrsigV,
};
use hickory_proto::dnssec::rdata::{DNSSECRData, DNSKEY, NSEC, RRSIG};
use hickory_proto::dnssec::{Algorithm, PublicKey, PublicKeyBuf};
use hickory_proto::rr::rdata::{A, AAAA, CNAME, MX, NS, PTR, SOA, SRV, TXT};
use hickory_proto::serialize::binary::{BinDecoder, BinEncodable, Restrict};
use hickory_proto::rr::{DNSClass, RData};
use hickory_proto::rr::Record as HickoryRecord;
use hickory_proto::rr::RecordType as HickoryRecordType;
use vstd::prelude::*;
use vstd::string::StringSliceAdditionalSpecFns;

verus! {

#[verifier::external_type_specification]
#[verifier::external_body]
pub struct ExHickoryMessage(hickory_proto::op::Message);

#[verifier::external_type_specification]
#[verifier::external_body]
pub struct ExHickoryName(hickory_proto::rr::Name);

#[verifier::external_type_specification]
#[verifier::external_body]
pub struct ExHickoryRData(hickory_proto::rr::RData);

#[verifier::external_type_specification]
#[verifier::external_body]
pub struct ExHickoryQuery(hickory_proto::op::Query);

/// What hickory-proto decodes from wire bytes, in the library's terms, with
/// every type and response code still given by its number, and the data of
/// record kinds the library does not model as the RDATA bytes hickory-proto
/// writes for it; `None` where decoding fails or such data cannot be written.
pub uninterp spec fn wire_decoded(bytes: Seq<u8>) -> Option<MessageV>;

/// A record type in canonical form: the named variant for a known code.
pub open spec fn canon_type(t: RecordType) -> RecordType {
    RecordType::spec_from_code(type_code(t))
}

pub open spec fn canon_rdata(d: RDataV) -> RDataV {
    match d {
        RDataV::NSEC(next, types) => RDataV::NSEC(next, types.map_values(|t: RecordType| canon_type(t))),
        RDataV::RRSIG(s) => RDataV::RRSIG(RrsigV { type_covered: canon_type(s.type_covered), ..s }),
        RDataV::Other(t, b) => RDataV::Other(canon_type(t), b),
        _ => d,
    }
}

pub open spec fn canon_record(r: RecordV) -> RecordV {
    RecordV { data: canon_rdata(r.data), ..r }
}

pub open spec fn canon_message(m: MessageV) -> MessageV {
    MessageV {
        response_code: ResponseCode::spec_from_code(m.response_code.spec_code()),
        queries: m.queries.map_values(|q: QuestionV| QuestionV { qtype: canon_type(q.qtype), ..q }),
        answers: m.answers.map_values(|r: RecordV| canon_record(r)),
        name_servers: m.name_servers.map_values(|r: RecordV| canon_record(r)),
        additionals: m.additionals.map_values(|r: RecordV| canon_record(r)),
        ..m
    }
}

/// What a message decodes to from wire bytes, in canonical form.
pub open spec fn wire_message(bytes: Seq<u8>) -> Option<MessageV> {
    match wire_decoded(bytes) {
        Some(m) => Some(canon_message(m)),
        None => None,
    }
}

/// The wire bytes hickory-proto encodes a message as, if it can.
pub uninterp spec fn wire_bytes(m: MessageV) -> Option<Seq<u8>>;

/// `Name::to_ascii` of the name with these labels, if hickory-proto accepts them.
pub uninterp spec fn ascii_name(labels: Seq<Seq<u8>>) -> Option<Seq<char>>;

pub open spec fn result_message_view(m: Result<DnsMessage, String>) -> Option<MessageV> {
    match m {
        Ok(x) => Some(x@),
        Err(_) => None,
    }
}

pub open spec fn result_bytes_view(b: Result<Vec<u8>, String>) -> Option<Seq<u8>> {
    match b {
        Ok(x) => Some(x@),
        Err(_) => None,
    }
}

pub open spec fn opt_string_view(s: Option<String>) -> Option<Seq<char>> {
    match s {
        Some(x) => Some(x@),
        None => None,
    }
}

/// A hickory-proto name as labels (converts, raw bytes kept).
#[verifier::external_body]
pub(crate) fn name_from_hickory(n: &hickory_proto::rr::Name) -> DnsName {
    DnsName { labels: n.iter().map(|l| l.to_vec()).collect() }
}

/// A name as a hickory-proto name (`Name::from_labels`), `None` where a label
/// or the name is too long.
#[verifier::external_body]
pub(crate) fn name_to_hickory(n: &DnsName) -> Option<hickory_proto::rr::Name> {
    hickory_proto::rr::Name::from_labels(n.labels.iter().map(|l| l.as_slice())).ok()
}

/// `Name::to_ascii` of a name: its presentation form, with a final dot.
#[verifier::external_body]
pub(crate) fn name_to_ascii(n: &DnsName) -> (r: Option<String>)
    ensures
        opt_string_view(r) == ascii_name(n@),
{
    name_to_hickory(n).map(|h| h.to_ascii())
}

/// The data of a hickory-proto record of the kinds held by address or name.
#[verifier::external_body]
fn simple_rdata_from_hickory(d: &RData) -> Option<RecordData> {
    match d {
        RData::A(a) => Some(RecordData::A(u32::from(a.0))),
        RData::AAAA(a) => Some(RecordData::AAAA(u128::from(a.0))),
        RData::NS(n) => Some(RecordData::NS(name_from_hickory(&n.0))),
        RData::CNAME(n) => Some(RecordData::CNAME(name_from_hickory(&n.0))),
        RData::PTR(n) => Some(RecordData::PTR(name_from_hickory(&n.0))),
        _ => None,
    }
}

/// The data of a hickory-proto MX or TXT record.
#[verifier::external_body]
fn mx_txt_rdata_from_hickory(d: &RData) -> Option<RecordData> {
    match d {
        RData::MX(mx) => Some(RecordData::MX { preference: mx.preference(), exchange: name_from_hickory(mx.exchange()) }),
        RData::TXT(t) => Some(RecordData::TXT(t.txt_data().iter().map(|s| s.to_vec()).collect())),
        _ => None,
    }
}

/// The data of a hickory-proto SRV or SOA record.
#[verifier::external_body]
fn server_rdata_from_hickory(d: &RData) -> Option<RecordData> {
    match d {
        RData::SRV(s) => Some(RecordData::SRV { priority: s.priority(), weight: s.weight(), port: s.port(), target: name_from_hickory(s.target()) }),
        RData::SOA(s) => Some(RecordData::SOA {
            mname: name_from_hickory(s.mname()), rname: name_from_hickory(s.rname()), serial: s.serial(),
            refresh: s.refresh(), retry: s.retry(), expire: s.expire(), minimum: s.minimum(),
        }),
        _ => None,
    }
}

/// The fields of a hickory-proto RRSIG.
#[verifier::external_body]
fn rrsig_from_hickory(d: &RData) -> Option<Rrsig> {
    match d {
        RData::DNSSEC(DNSSECRData::RRSIG(s)) => Some(Rrsig {
            type_covered: RecordType::Unknown(u16::from(s.type_covered())), algorithm: u8::from(s.algorithm()),
            num_labels: s.num_labels(), original_ttl: s.original_ttl(), sig_expiration: s.sig_expiration().get(),
            sig_inception: s.sig_inception().get(), key_tag: s.key_tag(), signer_name: name_from_hickory(s.signer_name()),
            signature: s.sig().to_vec(),
        }),
        _ => None,
    }
}

/// The data of a hickory-proto DNSSEC record (NSEC, RRSIG, DNSKEY).
#[verifier::external_body]
fn dnssec_rdata_from_hickory(d: &RData) -> Option<RecordData> {
    match d {
        RData::DNSSEC(DNSSECRData::NSEC(n)) => Some(RecordData::NSEC {
            next: name_from_hickory(n.next_domain_name()),
            types: n.type_bit_maps().map(|t| RecordType::Unknown(u16::from(t))).collect(),
        }),
        RData::DNSSEC(DNSSECRData::RRSIG(_)) => rrsig_from_hickory(d).map(RecordData::RRSIG),
        RData::DNSSEC(DNSSECRData::DNSKEY(k)) => Some(RecordData::DNSKEY(Dnskey {
            zone_key: k.zone_key(), secure_entry_point: k.secure_entry_point(), revoke: k.revoke(),
            algorithm: u8::from(k.public_key().algorithm()), public_key: k.public_key().public_bytes().to_vec(),
        })),
        _ => None,
    }
}

/// Any other hickory-proto record data, as its type code and its RDATA as
/// hickory-proto writes it (`BinEncodable::to_bytes`); `None` where that fails.
#[verifier::external_body]
fn other_rdata_from_hickory(d: &RData) -> Option<RecordData> {
    let code = u16::from(d.record_type());
    d.to_bytes().ok().map(|bytes| RecordData::Other(RecordType::Unknown(code), bytes))
}

/// Hickory-proto record data in the library's terms (type codes still raw).
#[verifier::external_body]
fn rdata_from_hickory(d: &RData) -> Option<RecordData> {
    simple_rdata_from_hickory(d)
        .or_else(|| mx_txt_rdata_from_hickory(d))
        .or_else(|| server_rdata_from_hickory(d))
        .or_else(|| dnssec_rdata_from_hickory(d))
        .or_else(|| other_rdata_from_hickory(d))
}

/// The answer, authority and additional records of a hickory-proto message,
/// `None` where some record data cannot be written back out.
#[verifier::external_body]
fn sections_from_hickory(m: &hickory_proto::op::Message) -> Option<(Vec<Record>, Vec<Record>, Vec<Record>)> {
    let rec = |r: &HickoryRecord| Some(Record { name: name_from_hickory(r.name()), dns_class: u16::from(r.dns_class()), ttl: r.ttl(), data: rdata_from_hickory(r.data())? });
    Some((m.answers().iter().map(rec).collect::<Option<_>>()?, m.name_servers().iter().map(rec).collect::<Option<_>>()?, m.additionals().iter().map(rec).collect::<Option<_>>()?))
}

/// A hickory-proto question in the library's terms.
#[verifier::external_body]
fn question_from_hickory(q: &hickory_proto::op::Query) -> Question {
    Question { name: name_from_hickory(q.name()), qtype: RecordType::Unknown(u16::from(q.query_type())), qclass: u16::from(q.query_class()) }
}

/// The header flags of a hickory-proto message: AA, TC, RD, RA, AD, CD.
#[verifier::external_body]
fn flags_from_hickory(m: &hickory_proto::op::Message) -> (bool, bool, bool, bool, bool, bool) {
    (m.authoritative(), m.truncated(), m.recursion_desired(), m.recursion_available(), m.authentic_data(), m.checking_disabled())
}

/// The EDNS of a hickory-proto message.
#[verifier::external_body]
fn edns_from_hickory(m: &hickory_proto::op::Message) -> Option<Edns> {
    m.extensions().as_ref().map(|e| Edns { max_payload: e.max_payload(), version: e.version(), dnssec_ok: e.flags().dnssec_ok, rcode_high: e.rcode_high() })
}

/// A hickory-proto message in the library's terms (type codes still raw).
#[verifier::external_body]
fn message_from_hickory(m: &hickory_proto::op::Message) -> Option<DnsMessage> {
    let (answers, name_servers, additionals) = sections_from_hickory(m)?;
    let (authoritative, truncated, recursion_desired, recursion_available, authentic_data, checking_disabled) = flags_from_hickory(m);
    Some(DnsMessage {
        id: m.id(), message_type: if m.message_type() == hickory_proto::op::MessageType::Query { MessageType::Query } else { MessageType::Response },
        op_code: u8::from(m.op_code()), authoritative, truncated, recursion_desired, recursion_available, authentic_data, checking_disabled,
        response_code: ResponseCode::Other(u16::from(m.response_code())),
        queries: m.queries().iter().map(question_from_hickory).collect(), answers, name_servers, additionals,
        edns: edns_from_hickory(m),
    })
}

/// Decode a DNS message (`Message::from_vec`), with hickory-proto's error text
/// on failure, or where the data of a record cannot be written back out.
/// Codes are given raw; `decode_message` puts them in canonical form.
#[verifier::external_body]
fn decode_raw(bytes: &[u8]) -> (r: Result<DnsMessage, String>)
    ensures
        result_message_view(r) == wire_decoded(bytes@),
{
    match hickory_proto::op::Message::from_vec(bytes) {
        Ok(m) => message_from_hickory(&m).ok_or_else(|| "record data cannot be re-encoded".to_string()),
        Err(e) => Err(e.to_string()),
    }
}

/// Record data as hickory-proto record data, for the kinds held by address or name.
#[verifier::external_body]
fn simple_rdata_to_hickory(d: &RecordData) -> Option<RData> {
    match d {
        RecordData::A(a) => Some(RData::A(A(core::net::Ipv4Addr::from(*a)))),
        RecordData::AAAA(a) => Some(RData::AAAA(AAAA(core::net::Ipv6Addr::from(*a)))),
        RecordData::NS(n) => name_to_hickory(n).map(|h| RData::NS(NS(h))),
        RecordData::CNAME(n) => name_to_hickory(n).map(|h| RData::CNAME(CNAME(h))),
        RecordData::PTR(n) => name_to_hickory(n).map(|h| RData::PTR(PTR(h))),
        _ => None,
    }
}

/// MX and TXT record data as hickory-proto record data.
#[verifier::external_body]
fn mx_txt_rdata_to_hickory(d: &RecordData) -> Option<RData> {
    match d {
        RecordData::MX { preference, exchange } => name_to_hickory(exchange).map(|h| RData::MX(MX::new(*preference, h))),
        RecordData::TXT(t) => Some(RData::TXT(TXT::from_bytes(t.iter().map(|s| s.as_slice()).collect()))),
        _ => None,
    }
}

/// SRV and SOA record data as hickory-proto record data.
#[verifier::external_body]
fn server_rdata_to_hickory(d: &RecordData) -> Option<RData> {
    match d {
        RecordData::SRV { priority, weight, port, target } => name_to_hickory(target).map(|h| RData::SRV(SRV::new(*priority, *weight, *port, h))),
        RecordData::SOA { mname, rname, serial, refresh, retry, expire, minimum } => match (name_to_hickory(mname), name_to_hickory(rname)) {
            (Some(m), Some(r)) => Some(RData::SOA(SOA::new(m, r, *serial, *refresh, *retry, *expire, *minimum))),
            _ => None,
        },
        _ => None,
    }
}

/// NSEC and DNSKEY record data as hickory-proto record data.
#[verifier::external_body]
fn dnssec_rdata_to_hickory(d: &RecordData) -> Option<RData> {
    match d {
        RecordData::NSEC { next, types } => name_to_hickory(next).map(|h| RData::DNSSEC(DNSSECRData::NSEC(NSEC::new(h, types.iter().map(|t| HickoryRecordType::from(t.code())))))),
        RecordData::DNSKEY(k) => Some(RData::DNSSEC(DNSSECRData::DNSKEY(DNSKEY::new(k.zone_key, k.secure_entry_point, k.revoke,
            PublicKeyBuf::new(k.public_key.clone(), Algorithm::from_u8(k.algorithm)))))),
        _ => None,
    }
}

/// RRSIG record data as hickory-proto record data.
#[verifier::external_body]
fn rrsig_rdata_to_hickory(d: &RecordData) -> Option<RData> {
    match d {
        RecordData::RRSIG(s) => name_to_hickory(&s.signer_name).map(|h| RData::DNSSEC(DNSSECRData::RRSIG(RRSIG::new(
            HickoryRecordType::from(s.type_covered.code()), Algorithm::from_u8(s.algorithm), s.num_labels, s.original_ttl,
            s.sig_expiration, s.sig_inception, s.key_tag, h, s.signature.clone())))),
        _ => None,
    }
}

/// Record data as hickory-proto record data; other kinds read from their
/// RDATA bytes by `RData::read` (`None` where hickory-proto cannot read them).
#[verifier::external_body]
pub(crate) fn rdata_to_hickory(d: &RecordData) -> Option<RData> {
    match d {
        RecordData::Other(t, bytes) => RData::read(&mut BinDecoder::new(bytes), HickoryRecordType::from(t.code()),
            Restrict::new(u16::try_from(bytes.len()).ok()?)).ok(),
        d => simple_rdata_to_hickory(d).or_else(|| mx_txt_rdata_to_hickory(d)).or_else(|| server_rdata_to_hickory(d))
            .or_else(|| dnssec_rdata_to_hickory(d)).or_else(|| rrsig_rdata_to_hickory(d)),
    }
}

/// The text hickory-proto's `Display` of `RData` writes for record data
/// converted by `rdata_to_hickory`, if it converts.
pub uninterp spec fn rdata_text(d: RDataV) -> Option<Seq<char>>;

/// `RData`'s `Display` text of record data, `None` where hickory-proto cannot
/// hold it.
#[verifier::external_body]
pub(crate) fn rdata_display(d: &RecordData) -> (r: Option<String>)
    ensures
        opt_string_view(r) == rdata_text(d@),
{
    rdata_to_hickory(d).map(|h| h.to_string())
}

/// Put the three record sections of a message into a hickory-proto message
/// (`Record::from_rdata`, then the class); `None` where a record cannot be encoded.
#[verifier::external_body]
fn add_sections_to_hickory(m: &DnsMessage, h: &mut hickory_proto::op::Message) -> Option<()> {
    let rec = |r: &Record| -> Option<HickoryRecord> {
        let mut x = HickoryRecord::from_rdata(name_to_hickory(&r.name)?, r.ttl, rdata_to_hickory(&r.data)?);
        x.set_dns_class(DNSClass::from(r.dns_class));
        Some(x)
    };
    h.add_answers(m.answers.iter().map(rec).collect::<Option<Vec<_>>>()?);
    h.add_name_servers(m.name_servers.iter().map(rec).collect::<Option<Vec<_>>>()?);
    h.add_additionals(m.additionals.iter().map(rec).collect::<Option<Vec<_>>>()?);
    Some(())
}

/// A question as a hickory-proto query.
#[verifier::external_body]
fn question_to_hickory(q: &Question) -> Option<hickory_proto::op::Query> {
    let mut query = hickory_proto::op::Query::query(name_to_hickory(&q.name)?, HickoryRecordType::from(q.qtype.code()));
    query.set_query_class(DNSClass::from(q.qclass));
    Some(query)
}

/// The header of a message as a hickory-proto message with no records.
#[verifier::external_body]
fn header_to_hickory(m: &DnsMessage) -> hickory_proto::op::Message {
    let mut h = hickory_proto::op::Message::new();
    h.set_id(m.id).set_message_type(if m.message_type == MessageType::Query { hickory_proto::op::MessageType::Query } else { hickory_proto::op::MessageType::Response })
        .set_op_code(hickory_proto::op::OpCode::from_u8(m.op_code)).set_authoritative(m.authoritative).set_truncated(m.truncated)
        .set_recursion_desired(m.recursion_desired).set_recursion_available(m.recursion_available).set_authentic_data(m.authentic_data)
        .set_checking_disabled(m.checking_disabled).set_response_code(m.response_code.code().into());
    h
}

/// A message as a hickory-proto message, `None` where a name cannot be encoded.
#[verifier::external_body]
fn message_to_hickory(m: &DnsMessage) -> Option<hickory_proto::op::Message> {
    let mut h = header_to_hickory(m);
    h.add_queries(m.queries.iter().map(question_to_hickory).collect::<Option<Vec<_>>>()?);
    add_sections_to_hickory(m, &mut h)?;
    if let Some(e) = m.edns { h.set_edns(hickory_proto::op::Edns::new().set_max_payload(e.max_payload).set_version(e.version).set_dnssec_ok(e.dnssec_ok).set_rcode_high(e.rcode_high).clone()); }
    Some(h)
}

/// Encode a message in wire format (`Message::to_vec`), with hickory-proto's
/// error text on failure.
#[verifier::external_body]
pub(crate) fn encode_message(m: &DnsMessage) -> (r: Result<Vec<u8>, String>)
    ensures
        result_bytes_view(r) == wire_bytes(m@),
{
    match message_to_hickory(m) {
        Some(h) => h.to_vec().map_err(|e| e.to_string()),
        None => Err("name cannot be encoded".to_string()),
    }
}

fn canonical_types(v: &Vec<RecordType>) -> (r: Vec<RecordType>)
    ensures
        r@ == v@.map_values(|t: RecordType| canon_type(t)),
{
    let mut out: Vec<RecordType> = Vec::new();
    let mut i: usize = 0;
    while i < v.len()
        invariant
            i <= v@.len(),
            out@ == v@.subrange(0, i as int).map_values(|t: RecordType| canon_type(t)),
        decreases v@.len() - i,
    {
        out.push(RecordType::from_code(v[i].code()));
        assert(v@.subrange(0, i + 1).map_values(|t: RecordType| canon_type(t)) =~= v@.subrange(0, i as int).map_values(|t: RecordType| canon_type(t)).push(canon_type(v@[i as int])));
        i = i + 1;
    }
    assert(v@.subrange(0, v@.len() as int) =~= v@);
    out
}

fn canonical_record(r: Record) -> (o: Record)
    ensures
        o@ == canon_record(r@),
{
    let Record { name, dns_class, ttl, data } = r;
    let data = match data {
        RecordData::NSEC { next, types } => RecordData::NSEC { next, types: canonical_types(&types) },
        RecordData::RRSIG(s) => {
            let Rrsig { type_covered, algorithm, num_labels, original_ttl, sig_expiration, sig_inception, key_tag, signer_name, signature } = s;
            RecordData::RRSIG(Rrsig {
                type_covered: RecordType::from_code(type_covered.code()),
                algorithm, num_labels, original_ttl, sig_expiration, sig_inception, key_tag, signer_name, signature,
            })
        },
        RecordData::Other(t, b) => RecordData::Other(RecordType::from_code(t.code()), b),
        d => d,
    };
    Record { name, dns_class, ttl, data }
}

fn canonical_records(v: &Vec<Record>) -> (r: Vec<Record>)
    ensures
        records_view(r@) == records_view(v@).map_values(|x: RecordV| canon_record(x)),
{
    let mut out: Vec<Record> = Vec::new();
    let mut i: usize = 0;
    while i < v.len()
        invariant
            i <= v@.len(),
            records_view(out@) == records_view(v@).subrange(0, i as int).map_values(|x: RecordV| canon_record(x)),
        decreases v@.len() - i,
    {
        let ghost before = records_view(out@);
        let c = canonical_record(v[i].clone());
        out.push(c);
        assert(records_view(out@) =~= before.push(canon_record(v@[i as int]@)));
        assert(records_view(v@).subrange(0, i + 1).map_values(|x: RecordV| canon_record(x)) =~= records_view(v@).subrange(0, i as int).map_values(|x: RecordV| canon_record(x)).push(canon_record(records_view(v@)[i as int])));
        i = i + 1;
    }
    assert(records_view(v@).subrange(0, v@.len() as int) =~= records_view(v@));
    out
}

fn canonical_questions(v: &Vec<Question>) -> (r: Vec<Question>)
    ensures
        questions_view(r@) == questions_view(v@).map_values(|q: QuestionV| QuestionV { qtype: canon_type(q.qtype), ..q }),
{
    let mut out: Vec<Question> = Vec::new();
    let mut i: usize = 0;
    while i < v.len()
        invariant
            i <= v@.len(),
            questions_view(out@) == questions_view(v@).subrange(0, i as int).map_values(|q: QuestionV| QuestionV { qtype: canon_type(q.qtype), ..q }),
        decreases v@.len() - i,
    {
        let ghost before = questions_view(out@);
        let q = &v[i];
        let c = Question { name: q.name.clone(), qtype: RecordType::from_code(q.qtype.code()), qclass: q.qclass };
        out.push(c);
        assert(questions_view(out@) =~= before.push(QuestionV { qtype: canon_type(v@[i as int]@.qtype), ..v@[i as int]@ }));
        assert(questions_view(v@).subrange(0, i + 1).map_values(|q: QuestionV| QuestionV { qtype: canon_type(q.qtype), ..q }) =~= questions_view(v@).subrange(0, i as int).map_values(|q: QuestionV| QuestionV { qtype: canon_type(q.qtype), ..q }).push(QuestionV { qtype: canon_type(questions_view(v@)[i as int].qtype), ..questions_view(v@)[i as int] }));
        i = i + 1;
    }
    assert(questions_view(v@).subrange(0, v@.len() as int) =~= questions_view(v@));
    out
}

fn canonical_message(m: DnsMessage) -> (r: DnsMessage)
    ensures
        r@ == canon_message(m@),
{
    let queries = canonical_questions(&m.queries);
    let answers = canonical_records(&m.answers);
    let name_servers = canonical_records(&m.name_servers);
    let additionals = canonical_records(&m.additionals);
    DnsMessage {
        id: m.id,
        message_type: m.message_type,
        op_code: m.op_code,
        authoritative: m.authoritative,
        truncated: m.truncated,
        recursion_desired: m.recursion_desired,
        recursion_available: m.recursion_available,
        authentic_data: m.authentic_data,
        checking_disabled: m.checking_disabled,
        response_code: ResponseCode::from_code(m.response_code.code()),
        queries,
        answers,
        name_servers,
        additionals,
        edns: m.edns,
    }
}

/// Decode a DNS message from wire format, with hickory-proto's error text on failure.
pub fn decode_message(bytes: &[u8]) -> (r: Result<DnsMessage, String>)
    ensures
        result_message_view(r) == wire_message(bytes@),
{
    match decode_raw(bytes) {
        Ok(m) => Ok(canonical_message(m)),
        Err(e) => Err(e),
    }
}

/// What hickory-proto's zone file parser reads from `content` with origin
/// `origin`: the zone origin and every record (RRSIGs left out), RRset by
/// RRset in the parser's key order, codes still raw.
pub uninterp spec fn zone_text_records(content: Seq<char>, origin: Seq<Seq<u8>>) -> Option<(Seq<Seq<u8>>, Seq<RecordV>)>;

/// `Name::from_ascii` of these bytes read as text, if it is a name.
pub uninterp spec fn name_from_ascii_bytes(b: Seq<u8>) -> Option<Seq<Seq<u8>>>;

pub open spec fn zone_text_view(r: Result<(DnsName, Vec<Record>), String>) -> Option<(Seq<Seq<u8>>, Seq<RecordV>)> {
    match r {
        Ok((o, v)) => Some((o@, records_view(v@))),
        Err(_) => None,
    }
}

pub open spec fn opt_name_view(n: Option<DnsName>) -> Option<Seq<Seq<u8>>> {
    match n {
        Some(x) => Some(x@),
        None => None,
    }
}

/// Parse zone file text (hickory-proto `Parser::new(content, None, origin)`,
/// then `parse`), with the parser's error text on failure. Text without
/// `$INCLUDE` is all the parser reads; with it, the parser reads the files
/// it names (relative paths are refused), so nothing is stated of that case.
#[verifier::external_body]
pub(crate) fn parse_zone_text(content: &str, origin: &DnsName) -> (r: Result<(DnsName, Vec<Record>), String>)
    ensures
        !crate::loader::spec_has_include(content.spec_bytes()) ==> zone_text_view(r) == zone_text_records(content@, origin@),
{
    let parser = hickory_proto::serialize::txt::Parser::new(content.to_string(), None, name_to_hickory(origin));
    let (o, sets) = parser.parse().map_err(|e| e.to_string())?;
    let rec = |r: &HickoryRecord| Some(Record { name: name_from_hickory(r.name()), dns_class: u16::from(r.dns_class()), ttl: r.ttl(), data: rdata_from_hickory(r.data())? });
    let records = sets.values().flat_map(|rs| rs.records_without_rrsigs().map(rec)).collect::<Option<Vec<_>>>();
    Ok((name_from_hickory(&o), records.ok_or("record data cannot be re-encoded")?))
}

/// `Name::from_ascii` of bytes read as UTF-8 text; `None` for text that is not a name.
#[verifier::external_body]
pub(crate) fn name_from_ascii(b: &[u8]) -> (r: Option<DnsName>)
    ensures
        opt_name_view(r) == name_from_ascii_bytes(b@),
{
    let text = std::str::from_utf8(b).ok()?;
    hickory_proto::rr::Name::from_ascii(text).ok().map(|n| name_from_hickory(&n))
}

/// Put every record type and code of a list of records in canonical form.
pub fn canonical_record_list(v: &Vec<Record>) -> (r: Vec<Record>)
    ensures
        records_view(r@) == records_view(v@).map_values(|x: RecordV| canon_record(x)),
{
    canonical_records(v)
}

impl DnsName {
    /// The name written in `s` (hickory-proto `Name::from_ascii`), if `s`
    /// writes one.
    pub fn from_ascii(s: &str) -> (r: Option<DnsName>)
        ensures
            opt_name_view(r) == name_from_ascii_bytes(s.spec_bytes()),
    {
        name_from_ascii(s.as_bytes())
    }
}

} // verus!
