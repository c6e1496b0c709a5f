use crate::name::DnsName;
use crate::types::{copy_records, records_view, Record, RecordV, ResponseCode};
use crate::zone::{Zone, ZoneV};
use vstd::prelude::*;

verus! {

/// The answer of an authoritative lookup: the three record sections and the
/// response code.
#[derive(Debug)]
pub struct AuthResponse {
    pub answers: Vec<Record>,
    pub authority: Vec<Record>,
    pub additional: Vec<Record>,
    pub response_code: ResponseCode,
}

pub struct AuthV {
    pub answers: Seq<RecordV>,
    pub authority: Seq<RecordV>,
    pub additional: Seq<RecordV>,
    pub response_code: ResponseCode,
}

impl View for AuthResponse {
    type V = AuthV;

    open spec fn view(&self) -> AuthV {
        AuthV {
            answers: records_view(self.answers@),
            authority: records_view(self.authority@),
            additional: records_view(self.additional@),
            response_code: self.response_code,
        }
    }
}

impl Clone for AuthResponse {
    fn clone(&self) -> (r: Self)
        ensures
            r@ == self@,
    {
        AuthResponse {
            answers: copy_records(&self.answers),
            authority: copy_records(&self.authority),
            additional: copy_records(&self.additional),
            response_code: self.response_code,
        }
    }
}

pub open spec fn spec_noerror(
    answers: Seq<RecordV>,
    authority: Seq<RecordV>,
    additional: Seq<RecordV>,
) -> AuthV {
    AuthV { answers, authority, additional, response_code: ResponseCode::NoError }
}

/// NXDOMAIN: no answers, the zone's SOA in the authority section.
pub open spec fn spec_nxdomain(z: ZoneV) -> AuthV {
    AuthV {
        answers: Seq::empty(),
        authority: seq![z.soa],
        additional: Seq::empty(),
        response_code: ResponseCode::NXDomain,
    }
}

/// NODATA: NOERROR without answers, the zone's SOA in the authority section.
pub open spec fn spec_nodata(z: ZoneV) -> AuthV {
    AuthV {
        answers: Seq::empty(),
        authority: seq![z.soa],
        additional: Seq::empty(),
        response_code: ResponseCode::NoError,
    }
}

/// A referral: the delegating NS records in the authority section and their
/// glue in the additional section.
pub open spec fn spec_referral(ns: Seq<RecordV>, glue: Seq<RecordV>) -> AuthV {
    AuthV {
        answers: Seq::empty(),
        authority: ns,
        additional: glue,
        response_code: ResponseCode::NoError,
    }
}

impl AuthResponse {
    /// A NOERROR response with the given sections.
    pub fn noerror(answers: Vec<Record>, authority: Vec<Record>, additional: Vec<Record>) -> (r:
        AuthResponse)
        ensures
            r@ == spec_noerror(records_view(answers@), records_view(authority@), records_view(additional@)),
    {
        AuthResponse { answers, authority, additional, response_code: ResponseCode::NoError }
    }
}

/// The NXDOMAIN response of a zone (the name does not exist).
pub fn nxdomain_response(zone: &Zone) -> (r: AuthResponse)
    ensures
        r@ == spec_nxdomain(zone@),
{
    let mut authority: Vec<Record> = Vec::new();
    authority.push(zone.soa.clone());
    let r = AuthResponse {
        answers: Vec::new(),
        authority,
        additional: Vec::new(),
        response_code: ResponseCode::NXDomain,
    };
    assert(r@.authority =~= seq![zone@.soa]);
    assert(r@.answers =~= Seq::<RecordV>::empty());
    assert(r@.additional =~= Seq::<RecordV>::empty());
    r
}

/// The NODATA response of a zone (the name exists but not with the type asked for).
pub fn nodata_response(zone: &Zone, _qname: &DnsName) -> (r: AuthResponse)
    ensures
        r@ == spec_nodata(zone@),
{
    let mut authority: Vec<Record> = Vec::new();
    authority.push(zone.soa.clone());
    let r = AuthResponse {
        answers: Vec::new(),
        authority,
        additional: Vec::new(),
        response_code: ResponseCode::NoError,
    };
    assert(r@.authority =~= seq![zone@.soa]);
    assert(r@.answers =~= Seq::<RecordV>::empty());
    assert(r@.additional =~= Seq::<RecordV>::empty());
    r
}

/// A referral to a child zone: the NS records and their glue.
pub fn referral_response(ns_records: &Vec<Record>, glue: Vec<Record>) -> (r: AuthResponse)
    ensures
        r@ == spec_referral(records_view(ns_records@), records_view(glue@)),
{
    let r = AuthResponse {
        answers: Vec::new(),
        authority: copy_records(ns_records),
        additional: glue,
        response_code: ResponseCode::NoError,
    };
    assert(r@.answers =~= Seq::<RecordV>::empty());
    r
}

} // verus!
