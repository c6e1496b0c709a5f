use crate::name::DnsName;
use vstd::prelude::*;

verus! {

/// A resource record type.
#[derive(Debug, Clone, Copy, PartialEq, Eq, Structural)]
pub enum RecordType {
    A,
    NS,
    CNAME,
    SOA,
    PTR,
    HINFO,
    MX,
    TXT,
    AAAA,
    SRV,
    NAPTR,
    OPT,
    DS,
    RRSIG,
    NSEC,
    DNSKEY,
    NSEC3,
    NSEC3PARAM,
    TLSA,
    IXFR,
    AXFR,
    ANY,
    CAA,
    Unknown(u16),
}

/// The numeric code of a record type (RFC 1035 and later).
pub open spec fn type_code(t: RecordType) -> u16 {
    match t {
        RecordType::A => 1,
        RecordType::NS => 2,
        RecordType::CNAME => 5,
        RecordType::SOA => 6,
        RecordType::PTR => 12,
        RecordType::HINFO => 13,
        RecordType::MX => 15,
        RecordType::TXT => 16,
        RecordType::AAAA => 28,
        RecordType::SRV => 33,
        RecordType::NAPTR => 35,
        RecordType::OPT => 41,
        RecordType::DS => 43,
        RecordType::RRSIG => 46,
        RecordType::NSEC => 47,
        RecordType::DNSKEY => 48,
        RecordType::NSEC3 => 50,
        RecordType::NSEC3PARAM => 51,
        RecordType::TLSA => 52,
        RecordType::IXFR => 251,
        RecordType::AXFR => 252,
        RecordType::ANY => 255,
        RecordType::CAA => 257,
        RecordType::Unknown(c) => c,
    }
}

impl RecordType {
    pub open spec fn spec_from_code(c: u16) -> RecordType {
        if c == 1 {
            RecordType::A
        } else if c == 2 {
            RecordType::NS
        } else if c == 5 {
            RecordType::CNAME
        } else if c == 6 {
            RecordType::SOA
        } else if c == 12 {
            RecordType::PTR
        } else if c == 13 {
            RecordType::HINFO
        } else if c == 15 {
            RecordType::MX
        } else if c == 16 {
            RecordType::TXT
        } else if c == 28 {
            RecordType::AAAA
        } else if c == 33 {
            RecordType::SRV
        } else if c == 35 {
            RecordType::NAPTR
        } else if c == 41 {
            RecordType::OPT
        } else if c == 43 {
            RecordType::DS
        } else if c == 46 {
            RecordType::RRSIG
        } else if c == 47 {
            RecordType::NSEC
        } else if c == 48 {
            RecordType::DNSKEY
        } else if c == 50 {
            RecordType::NSEC3
        } else if c == 51 {
            RecordType::NSEC3PARAM
        } else if c == 52 {
            RecordType::TLSA
        } else if c == 251 {
            RecordType::IXFR
        } else if c == 252 {
            RecordType::AXFR
        } else if c == 255 {
            RecordType::ANY
        } else if c == 257 {
            RecordType::CAA
        } else {
            RecordType::Unknown(c)
        }
    }

    /// The record type with the given numeric code.
    pub fn from_code(c: u16) -> (r: RecordType)
        ensures
            r == RecordType::spec_from_code(c),
            type_code(r) == c,
    {
        if c == 1 {
            RecordType::A
        } else if c == 2 {
            RecordType::NS
        } else if c == 5 {
            RecordType::CNAME
        } else if c == 6 {
            RecordType::SOA
        } else if c == 12 {
            RecordType::PTR
        } else if c == 13 {
            RecordType::HINFO
        } else if c == 15 {
            RecordType::MX
        } else if c == 16 {
            RecordType::TXT
        } else if c == 28 {
            RecordType::AAAA
        } else if c == 33 {
            RecordType::SRV
        } else if c == 35 {
            RecordType::NAPTR
        } else if c == 41 {
            RecordType::OPT
        } else if c == 43 {
            RecordType::DS
        } else if c == 46 {
            RecordType::RRSIG
        } else if c == 47 {
            RecordType::NSEC
        } else if c == 48 {
            RecordType::DNSKEY
        } else if c == 50 {
            RecordType::NSEC3
        } else if c == 51 {
            RecordType::NSEC3PARAM
        } else if c == 52 {
            RecordType::TLSA
        } else if c == 251 {
            RecordType::IXFR
        } else if c == 252 {
            RecordType::AXFR
        } else if c == 255 {
            RecordType::ANY
        } else if c == 257 {
            RecordType::CAA
        } else {
            RecordType::Unknown(c)
        }
    }

    /// The numeric code of this type.
    pub fn code(&self) -> (r: u16)
        ensures
            r == type_code(*self),
    {
        match self {
            RecordType::A => 1,
            RecordType::NS => 2,
            RecordType::CNAME => 5,
            RecordType::SOA => 6,
            RecordType::PTR => 12,
            RecordType::HINFO => 13,
            RecordType::MX => 15,
            RecordType::TXT => 16,
            RecordType::AAAA => 28,
            RecordType::SRV => 33,
            RecordType::NAPTR => 35,
            RecordType::OPT => 41,
            RecordType::DS => 43,
            RecordType::RRSIG => 46,
            RecordType::NSEC => 47,
            RecordType::DNSKEY => 48,
            RecordType::NSEC3 => 50,
            RecordType::NSEC3PARAM => 51,
            RecordType::TLSA => 52,
            RecordType::IXFR => 251,
            RecordType::AXFR => 252,
            RecordType::ANY => 255,
            RecordType::CAA => 257,
            RecordType::Unknown(c) => *c,
        }
    }
}

/// A DNS response code.
#[derive(Debug, Clone, Copy, PartialEq, Eq, Structural)]
pub enum ResponseCode {
    NoError,
    FormErr,
    ServFail,
    NXDomain,
    NotImp,
    Refused,
    Other(u16),
}

impl ResponseCode {
    pub open spec fn spec_code(&self) -> u16 {
        match *self {
            ResponseCode::NoError => 0,
            ResponseCode::FormErr => 1,
            ResponseCode::ServFail => 2,
            ResponseCode::NXDomain => 3,
            ResponseCode::NotImp => 4,
            ResponseCode::Refused => 5,
            ResponseCode::Other(c) => c,
        }
    }

    /// The numeric code (including the EDNS extended bits).
    pub fn code(&self) -> (r: u16)
        ensures
            r == self.spec_code(),
    {
        match self {
            ResponseCode::NoError => 0,
            ResponseCode::FormErr => 1,
            ResponseCode::ServFail => 2,
            ResponseCode::NXDomain => 3,
            ResponseCode::NotImp => 4,
            ResponseCode::Refused => 5,
            ResponseCode::Other(c) => *c,
        }
    }

    /// The response code with numeric code `c`: a named one for 0 to 5.
    pub open spec fn spec_from_code(c: u16) -> ResponseCode {
        if c == 0 {
            ResponseCode::NoError
        } else if c == 1 {
            ResponseCode::FormErr
        } else if c == 2 {
            ResponseCode::ServFail
        } else if c == 3 {
            ResponseCode::NXDomain
        } else if c == 4 {
            ResponseCode::NotImp
        } else if c == 5 {
            ResponseCode::Refused
        } else {
            ResponseCode::Other(c)
        }
    }

    /// The response code with the given numeric code.
    pub fn from_code(c: u16) -> (r: ResponseCode)
        ensures
            r == ResponseCode::spec_from_code(c),
            r.spec_code() == c,
            c <= 5 ==> !(r is Other),
    {
        if c == 0 {
            ResponseCode::NoError
        } else if c == 1 {
            ResponseCode::FormErr
        } else if c == 2 {
            ResponseCode::ServFail
        } else if c == 3 {
            ResponseCode::NXDomain
        } else if c == 4 {
            ResponseCode::NotImp
        } else if c == 5 {
            ResponseCode::Refused
        } else {
            ResponseCode::Other(c)
        }
    }
}

/// Whether a response code signals an error (anything but NOERROR).
pub fn is_error(rcode: ResponseCode) -> (r: bool)
    ensures
        r == !(rcode is NoError),
{
    !matches!(rcode, ResponseCode::NoError)
}

/// Whether a response code is NXDOMAIN.
pub fn is_nxdomain(rcode: ResponseCode) -> (r: bool)
    ensures
        r == (rcode is NXDomain),
{
    matches!(rcode, ResponseCode::NXDomain)
}

/// Whether a response code is SERVFAIL.
pub fn is_servfail(rcode: ResponseCode) -> (r: bool)
    ensures
        r == (rcode is ServFail),
{
    matches!(rcode, ResponseCode::ServFail)
}

/// A DNSSEC signature (RRSIG, RFC 4034 section 3).
#[derive(Debug)]
pub struct Rrsig {
    pub type_covered: RecordType,
    pub algorithm: u8,
    pub num_labels: u8,
    pub original_ttl: u32,
    pub sig_expiration: u32,
    pub sig_inception: u32,
    pub key_tag: u16,
    pub signer_name: DnsName,
    pub signature: Vec<u8>,
}

pub struct RrsigV {
    pub type_covered: RecordType,
    pub algorithm: u8,
    pub num_labels: u8,
    pub original_ttl: u32,
    pub sig_expiration: u32,
    pub sig_inception: u32,
    pub key_tag: u16,
    pub signer_name: Seq<Seq<u8>>,
    pub signature: Seq<u8>,
}

impl View for Rrsig {
    type V = RrsigV;

    open spec fn view(&self) -> RrsigV {
        RrsigV {
            type_covered: self.type_covered,
            algorithm: self.algorithm,
            num_labels: self.num_labels,
            original_ttl: self.original_ttl,
            sig_expiration: self.sig_expiration,
            sig_inception: self.sig_inception,
            key_tag: self.key_tag,
            signer_name: self.signer_name@,
            signature: self.signature@,
        }
    }
}

impl Clone for Rrsig {
    fn clone(&self) -> (r: Self)
        ensures
            r@ == self@,
    {
        Rrsig {
            type_covered: self.type_covered,
            algorithm: self.algorithm,
            num_labels: self.num_labels,
            original_ttl: self.original_ttl,
            sig_expiration: self.sig_expiration,
            sig_inception: self.sig_inception,
            key_tag: self.key_tag,
            signer_name: self.signer_name.clone(),
            signature: copy_bytes(&self.signature),
        }
    }
}

/// A DNSSEC public key (DNSKEY, RFC 4034 section 2).
#[derive(Debug)]
pub struct Dnskey {
    pub zone_key: bool,
    pub secure_entry_point: bool,
    pub revoke: bool,
    pub algorithm: u8,
    pub public_key: Vec<u8>,
}

pub struct DnskeyV {
    pub zone_key: bool,
    pub secure_entry_point: bool,
    pub revoke: bool,
    pub algorithm: u8,
    pub public_key: Seq<u8>,
}

impl View for Dnskey {
    type V = DnskeyV;

    open spec fn view(&self) -> DnskeyV {
        DnskeyV {
            zone_key: self.zone_key,
            secure_entry_point: self.secure_entry_point,
            revoke: self.revoke,
            algorithm: self.algorithm,
            public_key: self.public_key@,
        }
    }
}

impl Clone for Dnskey {
    fn clone(&self) -> (r: Self)
        ensures
            r@ == self@,
    {
        Dnskey {
            zone_key: self.zone_key,
            secure_entry_point: self.secure_entry_point,
            revoke: self.revoke,
            algorithm: self.algorithm,
            public_key: copy_bytes(&self.public_key),
        }
    }
}

/// The data of a resource record. The kinds that the server's logic reads are
/// held field by field; any other kind is held as its type and its RDATA in
/// wire format.
#[derive(Debug)]
pub enum RecordData {
    A(u32),
    AAAA(u128),
    NS(DnsName),
    CNAME(DnsName),
    PTR(DnsName),
    MX { preference: u16, exchange: DnsName },
    SRV { priority: u16, weight: u16, port: u16, target: DnsName },
    SOA {
        mname: DnsName,
        rname: DnsName,
        serial: u32,
        refresh: i32,
        retry: i32,
        expire: i32,
        minimum: u32,
    },
    TXT(Vec<Vec<u8>>),
    NSEC { next: DnsName, types: Vec<RecordType> },
    RRSIG(Rrsig),
    DNSKEY(Dnskey),
    Other(RecordType, Vec<u8>),
}

pub enum RDataV {
    A(u32),
    AAAA(u128),
    NS(Seq<Seq<u8>>),
    CNAME(Seq<Seq<u8>>),
    PTR(Seq<Seq<u8>>),
    MX(u16, Seq<Seq<u8>>),
    SRV(u16, u16, u16, Seq<Seq<u8>>),
    SOA(Seq<Seq<u8>>, Seq<Seq<u8>>, u32, i32, i32, i32, u32),
    TXT(Seq<Seq<u8>>),
    NSEC(Seq<Seq<u8>>, Seq<RecordType>),
    RRSIG(RrsigV),
    DNSKEY(DnskeyV),
    Other(RecordType, Seq<u8>),
}

impl View for RecordData {
    type V = RDataV;

    open spec fn view(&self) -> RDataV {
        match self {
            RecordData::A(a) => RDataV::A(*a),
            RecordData::AAAA(a) => RDataV::AAAA(*a),
            RecordData::NS(n) => RDataV::NS(n@),
            RecordData::CNAME(n) => RDataV::CNAME(n@),
            RecordData::PTR(n) => RDataV::PTR(n@),
            RecordData::MX { preference, exchange } => RDataV::MX(*preference, exchange@),
            RecordData::SRV { priority, weight, port, target } => RDataV::SRV(
                *priority,
                *weight,
                *port,
                target@,
            ),
            RecordData::SOA { mname, rname, serial, refresh, retry, expire, minimum } => RDataV::SOA(
                mname@,
                rname@,
                *serial,
                *refresh,
                *retry,
                *expire,
                *minimum,
            ),
            RecordData::TXT(t) => RDataV::TXT(t@.map_values(|s: Vec<u8>| s@)),
            RecordData::NSEC { next, types } => RDataV::NSEC(next@, types@),
            RecordData::RRSIG(s) => RDataV::RRSIG(s@),
            RecordData::DNSKEY(k) => RDataV::DNSKEY(k@),
            RecordData::Other(t, d) => RDataV::Other(*t, d@),
        }
    }
}

/// A copy of a byte vector.
pub fn copy_bytes(v: &Vec<u8>) -> (r: Vec<u8>)
    ensures
        r@ == v@,
{
    let mut r: Vec<u8> = Vec::new();
    let mut i: usize = 0;
    while i < v.len()
        invariant
            i <= v.len(),
            r@ == v@.subrange(0, i as int),
        decreases v.len() - i,
    {
        r.push(v[i]);
        i = i + 1;
    }
    assert(r@ =~= v@);
    r
}

/// A copy of a list of byte strings.
pub fn copy_byte_strings(v: &Vec<Vec<u8>>) -> (r: Vec<Vec<u8>>)
    ensures
        r@.map_values(|s: Vec<u8>| s@) == v@.map_values(|s: Vec<u8>| s@),
{
    let mut r: Vec<Vec<u8>> = Vec::new();
    let mut i: usize = 0;
    while i < v.len()
        invariant
            i <= v.len(),
            r@.len() == i,
            forall|j: int| 0 <= j < i ==> #[trigger] r@[j]@ == v@[j]@,
        decreases v.len() - i,
    {
        r.push(copy_bytes(&v[i]));
        i = i + 1;
    }
    assert(r@.map_values(|s: Vec<u8>| s@) =~= v@.map_values(|s: Vec<u8>| s@));
    r
}

/// A copy of a list of record types.
pub fn copy_types(v: &Vec<RecordType>) -> (r: Vec<RecordType>)
    ensures
        r@ == v@,
{
    let mut r: Vec<RecordType> = Vec::new();
    let mut i: usize = 0;
    while i < v.len()
        invariant
            i <= v.len(),
            r@ == v@.subrange(0, i as int),
        decreases v.len() - i,
    {
        r.push(v[i]);
        i = i + 1;
    }
    assert(r@ =~= v@);
    r
}

impl Clone for RecordData {
    fn clone(&self) -> (r: Self)
        ensures
            r@ == self@,
    {
        match self {
            RecordData::A(a) => RecordData::A(*a),
            RecordData::AAAA(a) => RecordData::AAAA(*a),
            RecordData::NS(n) => RecordData::NS(n.clone()),
            RecordData::CNAME(n) => RecordData::CNAME(n.clone()),
            RecordData::PTR(n) => RecordData::PTR(n.clone()),
            RecordData::MX { preference, exchange } => RecordData::MX {
                preference: *preference,
                exchange: exchange.clone(),
            },
            RecordData::SRV { priority, weight, port, target } => RecordData::SRV {
                priority: *priority,
                weight: *weight,
                port: *port,
                target: target.clone(),
            },
            RecordData::SOA { mname, rname, serial, refresh, retry, expire, minimum } =>
            RecordData::SOA {
                mname: mname.clone(),
                rname: rname.clone(),
                serial: *serial,
                refresh: *refresh,
                retry: *retry,
                expire: *expire,
                minimum: *minimum,
            },
            RecordData::TXT(t) => RecordData::TXT(copy_byte_strings(t)),
            RecordData::NSEC { next, types } => RecordData::NSEC {
                next: next.clone(),
                types: copy_types(types),
            },
            RecordData::RRSIG(s) => RecordData::RRSIG(s.clone()),
            RecordData::DNSKEY(k) => RecordData::DNSKEY(k.clone()),
            RecordData::Other(t, d) => RecordData::Other(*t, copy_bytes(d)),
        }
    }
}

/// The record type that a record's data has.
pub open spec fn data_type(d: RDataV) -> RecordType {
    match d {
        RDataV::A(_) => RecordType::A,
        RDataV::AAAA(_) => RecordType::AAAA,
        RDataV::NS(_) => RecordType::NS,
        RDataV::CNAME(_) => RecordType::CNAME,
        RDataV::PTR(_) => RecordType::PTR,
        RDataV::MX(..) => RecordType::MX,
        RDataV::SRV(..) => RecordType::SRV,
        RDataV::SOA(..) => RecordType::SOA,
        RDataV::TXT(_) => RecordType::TXT,
        RDataV::NSEC(..) => RecordType::NSEC,
        RDataV::RRSIG(_) => RecordType::RRSIG,
        RDataV::DNSKEY(_) => RecordType::DNSKEY,
        RDataV::Other(t, _) => t,
    }
}

/// A resource record: owner name, class, TTL and data. Its type is the type
/// of its data.
#[derive(Debug)]
pub struct Record {
    pub name: DnsName,
    pub dns_class: u16,
    pub ttl: u32,
    pub data: RecordData,
}

pub struct RecordV {
    pub name: Seq<Seq<u8>>,
    pub dns_class: u16,
    pub ttl: u32,
    pub data: RDataV,
}

impl RecordV {
    pub open spec fn rtype(self) -> RecordType {
        data_type(self.data)
    }

    /// The same record with another owner name.
    pub open spec fn with_name(self, name: Seq<Seq<u8>>) -> RecordV {
        RecordV { name, ..self }
    }
}

impl View for Record {
    type V = RecordV;

    open spec fn view(&self) -> RecordV {
        RecordV { name: self.name@, dns_class: self.dns_class, ttl: self.ttl, data: self.data@ }
    }
}

impl Clone for Record {
    fn clone(&self) -> (r: Self)
        ensures
            r@ == self@,
    {
        Record {
            name: self.name.clone(),
            dns_class: self.dns_class,
            ttl: self.ttl,
            data: self.data.clone(),
        }
    }
}

/// The views of a list of records.
pub open spec fn records_view(v: Seq<Record>) -> Seq<RecordV> {
    v.map_values(|r: Record| r@)
}

impl Record {
    /// A record of class IN.
    pub fn from_rdata(name: DnsName, ttl: u32, data: RecordData) -> (r: Record)
        ensures
            r@ == (RecordV { name: name@, dns_class: 1, ttl, data: data@ }),
    {
        Record { name, dns_class: 1, ttl, data }
    }

    /// The type of this record.
    pub fn record_type(&self) -> (r: RecordType)
        ensures
            r == self@.rtype(),
    {
        match &self.data {
            RecordData::A(_) => RecordType::A,
            RecordData::AAAA(_) => RecordType::AAAA,
            RecordData::NS(_) => RecordType::NS,
            RecordData::CNAME(_) => RecordType::CNAME,
            RecordData::PTR(_) => RecordType::PTR,
            RecordData::MX { .. } => RecordType::MX,
            RecordData::SRV { .. } => RecordType::SRV,
            RecordData::SOA { .. } => RecordType::SOA,
            RecordData::TXT(_) => RecordType::TXT,
            RecordData::NSEC { .. } => RecordType::NSEC,
            RecordData::RRSIG(_) => RecordType::RRSIG,
            RecordData::DNSKEY(_) => RecordType::DNSKEY,
            RecordData::Other(t, _) => *t,
        }
    }

    /// A record of the given type with empty data.
    pub fn update0(name: DnsName, ttl: u32, rtype: RecordType) -> (r: Record)
        ensures
            r@ == (RecordV {
                name: name@,
                dns_class: 1,
                ttl,
                data: RDataV::Other(rtype, Seq::empty()),
            }),
    {
        let r = Record { name, dns_class: 1, ttl, data: RecordData::Other(rtype, Vec::new()) };
        assert(r@.data == RDataV::Other(rtype, Seq::empty()));
        r
    }
}

/// A copy of a list of records.
pub fn copy_records(v: &Vec<Record>) -> (r: Vec<Record>)
    ensures
        records_view(r@) == records_view(v@),
{
    let mut r: Vec<Record> = Vec::new();
    let mut i: usize = 0;
    while i < v.len()
        invariant
            i <= v.len(),
            r@.len() == i,
            forall|j: int| 0 <= j < i ==> #[trigger] r@[j]@ == v@[j]@,
        decreases v.len() - i,
    {
        r.push(v[i].clone());
        i = i + 1;
    }
    assert(records_view(r@) =~= records_view(v@));
    r
}

/// Append copies of `src` to `dst`.
pub fn extend_records(dst: &mut Vec<Record>, src: &Vec<Record>)
    ensures
        records_view(final(dst)@) == records_view(old(dst)@) + records_view(src@),
{
    let ghost d0 = records_view(dst@);
    let mut i: usize = 0;
    while i < src.len()
        invariant
            i <= src.len(),
            records_view(dst@) == d0 + records_view(src@).subrange(0, i as int),
        decreases src.len() - i,
    {
        let ghost before = records_view(dst@);
        dst.push(src[i].clone());
        assert(records_view(dst@) =~= before.push(src@[i as int]@));
        assert(records_view(src@).subrange(0, i + 1) =~= records_view(src@).subrange(
            0,
            i as int,
        ).push(src@[i as int]@));
        i = i + 1;
    }
    assert(records_view(src@).subrange(0, src.len() as int) =~= records_view(src@));
}

/// The records of the given type, in order.
pub open spec fn spec_rrset_for_type(records: Seq<RecordV>, rtype: RecordType) -> Seq<RecordV> {
    records.filter(|r: RecordV| r.rtype() == rtype)
}

/// Filter records by type, keeping their order.
pub fn rrset_for_type(records: &Vec<Record>, rtype: RecordType) -> (r: Vec<Record>)
    ensures
        records_view(r@) == spec_rrset_for_type(records_view(records@), rtype),
{
    let mut r: Vec<Record> = Vec::new();
    let mut i: usize = 0;
    while i < records.len()
        invariant
            i <= records.len(),
            records_view(r@) == spec_rrset_for_type(
                records_view(records@).subrange(0, i as int),
                rtype,
            ),
        decreases records.len() - i,
    {
        let ghost prefix = records_view(records@).subrange(0, i as int);
        assert(records_view(records@).subrange(0, i + 1) =~= prefix.push(records@[i as int]@));
        reveal_with_fuel(Seq::filter, 1);
        assert(prefix.push(records@[i as int]@).drop_last() =~= prefix);
        if records[i].record_type() == rtype {
            let ghost before = records_view(r@);
            r.push(records[i].clone());
            assert(records_view(r@) =~= before.push(records@[i as int]@));
        }
        i = i + 1;
    }
    assert(records_view(records@).subrange(0, records.len() as int) =~= records_view(records@));
    r
}

/// The smallest TTL among the records (0 for none).
pub open spec fn spec_min_ttl(records: Seq<RecordV>) -> u32
    decreases records.len(),
{
    if records.len() == 0 {
        0
    } else if records.len() == 1 {
        records[0].ttl
    } else {
        let rest = spec_min_ttl(records.drop_first());
        if records[0].ttl <= rest {
            records[0].ttl
        } else {
            rest
        }
    }
}

/// The smallest TTL of the records, or 0 when there are none.
pub fn min_ttl(records: &Vec<Record>) -> (r: u32)
    ensures
        r == spec_min_ttl(records_view(records@)),
        records@.len() > 0 ==> forall|i: int| 0 <= i < records@.len() ==> r <= records@[i].ttl,
        records@.len() > 0 ==> exists|i: int| 0 <= i < records@.len() && r == records@[i].ttl,
    decreases records@.len(),
{
    let n = records.len();
    if n == 0 {
        return 0;
    }
    let mut i: usize = n - 1;
    let mut m: u32 = records[n - 1].ttl;
    assert(records_view(records@).subrange(n - 1, n as int) =~= seq![records@[n - 1]@]);
    while i > 0
        invariant
            i < n,
            n == records@.len(),
            m == spec_min_ttl(records_view(records@).subrange(i as int, n as int)),
            forall|k: int| i <= k < n ==> m <= records@[k].ttl,
            exists|k: int| i <= k < n && m == records@[k].ttl,
        decreases i,
    {
        let ghost s = records_view(records@).subrange(i - 1, n as int);
        assert(s.drop_first() =~= records_view(records@).subrange(i as int, n as int));
        let t = records[i - 1].ttl;
        if t <= m {
            m = t;
        }
        i = i - 1;
    }
    assert(records_view(records@).subrange(0, n as int) =~= records_view(records@));
    m
}

/// A question: the name, type and class asked for.
#[derive(Debug)]
pub struct Question {
    pub name: DnsName,
    pub qtype: RecordType,
    pub qclass: u16,
}

pub struct QuestionV {
    pub name: Seq<Seq<u8>>,
    pub qtype: RecordType,
    pub qclass: u16,
}

impl View for Question {
    type V = QuestionV;

    open spec fn view(&self) -> QuestionV {
        QuestionV { name: self.name@, qtype: self.qtype, qclass: self.qclass }
    }
}

impl Clone for Question {
    fn clone(&self) -> (r: Self)
        ensures
            r@ == self@,
    {
        Question { name: self.name.clone(), qtype: self.qtype, qclass: self.qclass }
    }
}

/// The EDNS(0) information of a message (RFC 6891).
#[derive(Debug, Clone, Copy, PartialEq, Eq, Structural)]
pub struct Edns {
    pub max_payload: u16,
    pub version: u8,
    pub dnssec_ok: bool,
    pub rcode_high: u8,
}

/// Whether a message is a query or a response.
#[derive(Debug, Clone, Copy, PartialEq, Eq, Structural)]
pub enum MessageType {
    Query,
    Response,
}

/// A DNS message: header flags, the four sections and EDNS.
#[derive(Debug)]
pub struct DnsMessage {
    pub id: u16,
    pub message_type: MessageType,
    pub op_code: u8,
    pub authoritative: bool,
    pub truncated: bool,
    pub recursion_desired: bool,
    pub recursion_available: bool,
    pub authentic_data: bool,
    pub checking_disabled: bool,
    pub response_code: ResponseCode,
    pub queries: Vec<Question>,
    pub answers: Vec<Record>,
    pub name_servers: Vec<Record>,
    pub additionals: Vec<Record>,
    pub edns: Option<Edns>,
}

pub struct MessageV {
    pub id: u16,
    pub message_type: MessageType,
    pub op_code: u8,
    pub authoritative: bool,
    pub truncated: bool,
    pub recursion_desired: bool,
    pub recursion_available: bool,
    pub authentic_data: bool,
    pub checking_disabled: bool,
    pub response_code: ResponseCode,
    pub queries: Seq<QuestionV>,
    pub answers: Seq<RecordV>,
    pub name_servers: Seq<RecordV>,
    pub additionals: Seq<RecordV>,
    pub edns: Option<Edns>,
}

pub open spec fn questions_view(v: Seq<Question>) -> Seq<QuestionV> {
    v.map_values(|q: Question| q@)
}

impl View for DnsMessage {
    type V = MessageV;

    open spec fn view(&self) -> MessageV {
        MessageV {
            id: self.id,
            message_type: self.message_type,
            op_code: self.op_code,
            authoritative: self.authoritative,
            truncated: self.truncated,
            recursion_desired: self.recursion_desired,
            recursion_available: self.recursion_available,
            authentic_data: self.authentic_data,
            checking_disabled: self.checking_disabled,
            response_code: self.response_code,
            queries: questions_view(self.queries@),
            answers: records_view(self.answers@),
            name_servers: records_view(self.name_servers@),
            additionals: records_view(self.additionals@),
            edns: self.edns,
        }
    }
}

/// A copy of a list of questions.
pub fn copy_questions(v: &Vec<Question>) -> (r: Vec<Question>)
    ensures
        questions_view(r@) == questions_view(v@),
{
    let mut r: Vec<Question> = Vec::new();
    let mut i: usize = 0;
    while i < v.len()
        invariant
            i <= v.len(),
            r@.len() == i,
            forall|j: int| 0 <= j < i ==> #[trigger] r@[j]@ == v@[j]@,
        decreases v.len() - i,
    {
        r.push(v[i].clone());
        i = i + 1;
    }
    assert(questions_view(r@) =~= questions_view(v@));
    r
}

impl DnsMessage {
    /// An empty message: id 0, a query, opcode QUERY, no flags, NOERROR, no
    /// records and no EDNS.
    pub fn new() -> (r: DnsMessage)
        ensures
            r@ == empty_message(),
    {
        let r = DnsMessage {
            id: 0,
            message_type: MessageType::Query,
            op_code: 0,
            authoritative: false,
            truncated: false,
            recursion_desired: false,
            recursion_available: false,
            authentic_data: false,
            checking_disabled: false,
            response_code: ResponseCode::NoError,
            queries: Vec::new(),
            answers: Vec::new(),
            name_servers: Vec::new(),
            additionals: Vec::new(),
            edns: None,
        };
        assert(questions_view(r.queries@) =~= Seq::empty());
        assert(records_view(r.answers@) =~= Seq::empty());
        assert(records_view(r.name_servers@) =~= Seq::empty());
        assert(records_view(r.additionals@) =~= Seq::empty());
        r
    }
}

pub open spec fn empty_message() -> MessageV {
    MessageV {
        id: 0,
        message_type: MessageType::Query,
        op_code: 0,
        authoritative: false,
        truncated: false,
        recursion_desired: false,
        recursion_available: false,
        authentic_data: false,
        checking_disabled: false,
        response_code: ResponseCode::NoError,
        queries: Seq::empty(),
        answers: Seq::empty(),
        name_servers: Seq::empty(),
        additionals: Seq::empty(),
        edns: None,
    }
}

/// The EDNS information of a message, if it has any.
pub fn get_edns(msg: &DnsMessage) -> (r: Option<Edns>)
    ensures
        r == msg.edns,
{
    msg.edns
}

/// The UDP payload size the sender advertises with EDNS, 512 without EDNS.
pub fn max_udp_payload(msg: &DnsMessage) -> (r: u16)
    ensures
        r == (match msg.edns {
            Some(e) => e.max_payload,
            None => 512u16,
        }),
{
    match msg.edns {
        Some(e) => e.max_payload,
        None => 512,
    }
}

/// Whether the DNSSEC OK bit is set in the EDNS flags (false without EDNS).
pub fn dnssec_ok(msg: &DnsMessage) -> (r: bool)
    ensures
        r == (match msg.edns {
            Some(e) => e.dnssec_ok,
            None => false,
        }),
{
    match msg.edns {
        Some(e) => e.dnssec_ok,
        None => false,
    }
}

/// An IP address: IPv4 as a 32-bit number, IPv6 as a 128-bit number (most
/// significant bits first).
#[derive(Debug, Clone, Copy, PartialEq, Eq, Structural)]
pub enum IpAddress {
    V4(u32),
    V6(u128),
}

/// A transport address: an IP address and a port.
#[derive(Debug, Clone, Copy, PartialEq, Eq, Structural)]
pub struct SocketAddress {
    pub ip: IpAddress,
    pub port: u16,
}

/// The decimal digit `d` as a character.
pub open spec fn digit_char(d: nat) -> char {
    if d == 0 { '0' } else if d == 1 { '1' } else if d == 2 { '2' } else if d == 3 { '3' } else if d == 4 { '4' }
    else if d == 5 { '5' } else if d == 6 { '6' } else if d == 7 { '7' } else if d == 8 { '8' } else { '9' }
}

/// The decimal form of `n`, without leading zeros.
pub open spec fn decimal(n: nat) -> Seq<char>
    decreases n,
{
    if n < 10 { seq![digit_char(n)] } else { decimal(n / 10).push(digit_char(n % 10)) }
}

fn digit_str(d: u64) -> (r: &'static str)
    requires
        d < 10,
    ensures
        r@ == seq![digit_char(d as nat)],
{
    proof {
        reveal_strlit("0");
        reveal_strlit("1");
        reveal_strlit("2");
        reveal_strlit("3");
        reveal_strlit("4");
        reveal_strlit("5");
        reveal_strlit("6");
        reveal_strlit("7");
        reveal_strlit("8");
        reveal_strlit("9");
    }
    let r = if d == 0 { "0" } else if d == 1 { "1" } else if d == 2 { "2" } else if d == 3 { "3" } else if d == 4 { "4" }
        else if d == 5 { "5" } else if d == 6 { "6" } else if d == 7 { "7" } else if d == 8 { "8" } else { "9" };
    assert(r@ =~= seq![digit_char(d as nat)]);
    r
}

/// The decimal form of `n`.
pub fn decimal_string(n: u64) -> (r: String)
    ensures
        r@ == decimal(n as nat),
    decreases n,
{
    if n < 10 {
        digit_str(n).to_owned()
    } else {
        let mut s = decimal_string(n / 10);
        s.append(digit_str(n % 10));
        s
    }
}

} // verus!
