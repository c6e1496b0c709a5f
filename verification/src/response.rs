use crate::negative::AuthResponse;
use crate::types::{
    copy_questions, copy_records, empty_message, records_view, DnsMessage, Edns, MessageType,
    MessageV, Record, RecordType, ResponseCode,
};
use vstd::prelude::*;

verus! {

/// The EDNS of a response to a query with EDNS `e`: version 0, the query's
/// payload size but at least 512, no DO bit.
pub open spec fn response_edns(e: Option<Edns>) -> Option<Edns> {
    match e {
        Some(q) => Some(Edns {
            max_payload: if q.max_payload < 512 { 512 } else { q.max_payload },
            version: 0,
            dnssec_ok: false,
            rcode_high: 0,
        }),
        None => None,
    }
}

/// The header every response to `q` shares: its id, opcode and RD flag, the
/// response bit, its questions, and the given code.
pub open spec fn response_base(q: MessageV, rcode: ResponseCode) -> MessageV {
    MessageV {
        id: q.id,
        message_type: MessageType::Response,
        op_code: q.op_code,
        recursion_desired: q.recursion_desired,
        response_code: rcode,
        queries: q.queries,
        ..empty_message()
    }
}

/// A lookup result that refers to a child zone: no answers, NOERROR, and NS
/// records (not an SOA) in the authority section.
pub open spec fn is_referral(a: crate::negative::AuthV) -> bool {
    &&& a.answers.len() == 0
    &&& a.response_code == ResponseCode::NoError
    &&& a.authority.len() > 0
    &&& a.authority[0].rtype() == RecordType::NS
}

/// A response from the zone data: AA set, except on a referral, which is
/// not authoritative (RFC 1034 section 4.3.2); RA clear; the three sections
/// of the lookup; and EDNS if the query had it.
pub open spec fn spec_authoritative_response(q: MessageV, a: crate::negative::AuthV) -> MessageV {
    MessageV {
        authoritative: !is_referral(a),
        answers: a.answers,
        name_servers: a.authority,
        additionals: a.additional,
        edns: response_edns(q.edns),
        ..response_base(q, a.response_code)
    }
}

fn base_response(query: &DnsMessage, rcode: ResponseCode) -> (r: DnsMessage)
    ensures
        r@ == response_base(query@, rcode),
{
    let mut response = DnsMessage::new();
    response.id = query.id;
    response.message_type = MessageType::Response;
    response.op_code = query.op_code;
    response.recursion_desired = query.recursion_desired;
    response.response_code = rcode;
    response.queries = copy_questions(&query.queries);
    response
}

/// The response to `query` with the answer of an authoritative lookup.
pub fn build_authoritative_response(query: &DnsMessage, auth: &AuthResponse) -> (r: DnsMessage)
    ensures
        r@ == spec_authoritative_response(query@, auth@),
{
    let mut response = base_response(query, auth.response_code);
    let referral = auth.answers.len() == 0 && auth.response_code == ResponseCode::NoError && auth.authority.len() > 0
        && auth.authority[0].record_type() == RecordType::NS;
    response.authoritative = !referral;
    response.recursion_available = false;
    response.answers = copy_records(&auth.answers);
    response.name_servers = copy_records(&auth.authority);
    response.additionals = copy_records(&auth.additional);
    match query.edns {
        Some(e) => {
            let payload = if e.max_payload < 512 { 512 } else { e.max_payload };
            response.edns = Some(Edns { max_payload: payload, version: 0, dnssec_ok: false, rcode_high: 0 });
        },
        None => {},
    }
    response
}

/// REFUSED, with the query's questions.
pub fn build_refused(query: &DnsMessage) -> (r: DnsMessage)
    ensures
        r@ == response_base(query@, ResponseCode::Refused),
{
    base_response(query, ResponseCode::Refused)
}

/// SERVFAIL, with the query's questions.
pub fn build_servfail(query: &DnsMessage) -> (r: DnsMessage)
    ensures
        r@ == response_base(query@, ResponseCode::ServFail),
{
    base_response(query, ResponseCode::ServFail)
}

/// FORMERR for a query that could not be read: only the id is known.
pub fn build_formerr(id: u16) -> (r: DnsMessage)
    ensures
        r@ == (MessageV { id, message_type: MessageType::Response, response_code: ResponseCode::FormErr, ..empty_message() }),
{
    let mut response = DnsMessage::new();
    response.id = id;
    response.message_type = MessageType::Response;
    response.response_code = ResponseCode::FormErr;
    response
}

/// A recursive answer: AA clear, RA set, NOERROR, the answers found.
pub fn build_recursive_response(query: &DnsMessage, answers: Vec<Record>) -> (r: DnsMessage)
    ensures
        r@ == (MessageV {
            recursion_available: true,
            answers: records_view(answers@),
            ..response_base(query@, ResponseCode::NoError)
        }),
{
    let mut response = base_response(query, ResponseCode::NoError);
    response.authoritative = false;
    response.recursion_available = true;
    response.answers = answers;
    response
}

} // verus!
