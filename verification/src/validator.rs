use crate::name::DnsName;
use crate::types::{
    type_code,
    records_view, Dnskey, DnskeyV, RDataV, Record, RecordData, RecordType, RecordV, Rrsig, RrsigV,
};
use crate::signer::{tbs_for, unix_time_secs};
use crate::wire::{name_to_hickory, opt_string_view, rdata_to_hickory};
use hickory_proto::dnssec::Verifier;
use vstd::prelude::*;

verus! {

/// The outcome of DNSSEC validation of an RRset.
#[derive(Debug, Clone, PartialEq, Eq)]
pub enum ValidationResult {
    Secure,
    Insecure,
    Bogus(String),
}

/// Whether hickory-proto's DNSKEY `verify_rrsig` accepts signature `sig` by
/// key `key` over the RRset `rrset` at `name`, class IN.
pub uninterp spec fn signature_valid(key: DnskeyV, name: Seq<Seq<u8>>, sig: RrsigV, rrset: Seq<RecordV>) -> bool;

#[verifier::external_type_specification]
#[verifier::external_body]
pub struct ExDnskey(hickory_proto::dnssec::rdata::DNSKEY);

/// DNSKEY data as hickory-proto `DNSKEY` data.
#[verifier::external_body]
fn dnskey_to_hickory(key: &Dnskey) -> Option<hickory_proto::dnssec::rdata::DNSKEY> {
    match rdata_to_hickory(&RecordData::DNSKEY(key.clone())) {
        Some(hickory_proto::rr::RData::DNSSEC(hickory_proto::dnssec::rdata::DNSSECRData::DNSKEY(k))) => Some(k),
        _ => None,
    }
}

/// Check a signature against a key, as hickory-proto's `DNSKEY::verify_rrsig`
/// does (`tbs_for`, then `Verifier::verify` with the signature bytes); false
/// also where a name or record cannot be given to hickory-proto. Decoding the
/// public key asserts (in debug builds) that its algorithm is supported, so
/// only such keys are accepted.
#[verifier::external_body]
fn verify_signature(key: &Dnskey, name: &DnsName, sig: &Rrsig, rrset: &Vec<Record>) -> (r: bool)
    requires
        supported_algorithm(key@.algorithm),
    ensures
        r == signature_valid(key@, name@, sig@, records_view(rrset@)),
{
    match (dnskey_to_hickory(key), tbs_for(name, rrset, sig)) {
        (Some(k), Ok(tbs)) => k.verify(tbs.as_ref(), &sig.signature).is_ok(),
        _ => false,
    }
}

/// The text hickory-proto's `Display` of `Name` writes for the name with
/// these labels (labels as UTF-8, a final dot), if hickory-proto accepts them.
pub uninterp spec fn display_name(labels: Seq<Seq<u8>>) -> Option<Seq<char>>;

/// The text `{:?}` writes for hickory-proto's `RecordType` of this code.
pub uninterp spec fn type_debug_text(code: u16) -> Seq<char>;

/// `Name`'s `Display` text of a name, `None` where hickory-proto cannot hold it.
#[verifier::external_body]
pub(crate) fn name_display(name: &DnsName) -> (r: Option<String>)
    ensures
        opt_string_view(r) == display_name(name@),
{
    name_to_hickory(name).map(|n| n.to_string())
}

/// The `Debug` text of hickory-proto's `RecordType` of a code.
#[verifier::external_body]
fn type_text(code: u16) -> (r: String)
    ensures
        r@ == type_debug_text(code),
{
    format!("{:?}", hickory_proto::rr::RecordType::from(code))
}

/// The reason given for a bogus RRset: its name and type.
pub open spec fn bogus_text(name: Seq<Seq<u8>>, rtype: RecordType) -> Seq<char> {
    let shown = match display_name(name) {
        Some(t) => t,
        None => Seq::empty(),
    };
    "no valid RRSIG found for ("@ + shown + ", "@ + type_debug_text(type_code(rtype)) + ")"@
}

fn bogus_reason(name: &DnsName, rtype: RecordType) -> (r: String)
    ensures
        r@ == bogus_text(name@, rtype),
{
    let mut s = "no valid RRSIG found for (".to_owned();
    match name_display(name) {
        Some(t) => s.append(t.as_str()),
        None => {},
    }
    s.append(", ");
    s.append(type_text(rtype.code()).as_str());
    s.append(")");
    s
}

/// A signature that may validate an RRset of type `rtype` at time `now`: it
/// covers that type, and `now` is within its validity period.
pub open spec fn usable(sig: RrsigV, rtype: RecordType, now: u32) -> bool {
    sig.type_covered == rtype && now <= sig.sig_expiration && now >= sig.sig_inception
}

/// The algorithms hickory-proto can verify (`Algorithm::is_supported`):
/// RSASHA1 (5), RSASHA1-NSEC3-SHA1 (7), RSASHA256 (8), RSASHA512 (10),
/// ECDSA P-256 (13), ECDSA P-384 (14) and Ed25519 (15).
pub open spec fn supported_algorithm(a: u8) -> bool {
    a == 5 || a == 7 || a == 8 || a == 10 || a == 13 || a == 14 || a == 15
}

/// A key that may have made a signature: a zone key of the same algorithm,
/// one that can be verified.
pub open spec fn key_fits(key: DnskeyV, sig: RrsigV) -> bool {
    key.zone_key && key.algorithm == sig.algorithm && supported_algorithm(key.algorithm)
}

/// Some usable signature is verified by some fitting key.
pub open spec fn has_valid_signature(name: Seq<Seq<u8>>, rtype: RecordType, rrset: Seq<RecordV>, sigs: Seq<RrsigV>, keys: Seq<DnskeyV>, now: u32) -> bool {
    exists|i: int, j: int|
        0 <= i < sigs.len() && 0 <= j < keys.len() && usable(sigs[i], rtype, now) && key_fits(keys[j], sigs[i])
            && #[trigger] signature_valid(keys[j], name, sigs[i], rrset)
}

pub open spec fn rrsigs_view(v: Seq<Rrsig>) -> Seq<RrsigV> {
    v.map_values(|s: Rrsig| s@)
}

pub open spec fn dnskeys_view(v: Seq<Dnskey>) -> Seq<DnskeyV> {
    v.map_values(|k: Dnskey| k@)
}

/// Validate an RRset at time `now` (seconds since the epoch, 32 bits): with no
/// signatures it is insecure; secure when a usable signature is verified by a
/// fitting key; bogus otherwise.
pub fn validate_rrset_at(
    name: &DnsName,
    rtype: RecordType,
    rrset: &Vec<Record>,
    rrsigs: &Vec<Rrsig>,
    dnskeys: &Vec<Dnskey>,
    now: u32,
) -> (r: ValidationResult)
    ensures
        rrsigs@.len() == 0 ==> r == ValidationResult::Insecure,
        rrsigs@.len() > 0 ==> (r == ValidationResult::Secure <==> has_valid_signature(
            name@, rtype, records_view(rrset@), rrsigs_view(rrsigs@), dnskeys_view(dnskeys@), now)),
        rrsigs@.len() > 0 ==> (r is Secure || r is Bogus),
        r matches ValidationResult::Bogus(t) ==> t@ == bogus_text(name@, rtype),
{
    if rrsigs.len() == 0 {
        return ValidationResult::Insecure;
    }
    let ghost sv = rrsigs_view(rrsigs@);
    let ghost kv = dnskeys_view(dnskeys@);
    let ghost rv = records_view(rrset@);
    let mut i: usize = 0;
    while i < rrsigs.len()
        invariant
            i <= rrsigs@.len(),
            sv == rrsigs_view(rrsigs@),
            kv == dnskeys_view(dnskeys@),
            rv == records_view(rrset@),
            forall|a: int, b: int|
                0 <= a < i && 0 <= b < kv.len() && usable(sv[a], rtype, now) && key_fits(kv[b], sv[a])
                    ==> !#[trigger] signature_valid(kv[b], name@, sv[a], rv),
        decreases rrsigs@.len() - i,
    {
        let sig = &rrsigs[i];
        assert(sv[i as int] == sig@);
        if sig.type_covered == rtype && now <= sig.sig_expiration && now >= sig.sig_inception {
            let mut j: usize = 0;
            while j < dnskeys.len()
                invariant
                    j <= dnskeys@.len(),
                    i < rrsigs@.len(),
                    sv == rrsigs_view(rrsigs@),
                    kv == dnskeys_view(dnskeys@),
                    rv == records_view(rrset@),
                    sv[i as int] == sig@,
                    usable(sig@, rtype, now),
                    forall|a: int, b: int|
                        0 <= a < i && 0 <= b < kv.len() && usable(sv[a], rtype, now) && key_fits(kv[b], sv[a])
                            ==> !#[trigger] signature_valid(kv[b], name@, sv[a], rv),
                    forall|b: int| 0 <= b < j && key_fits(kv[b], sig@) ==> !#[trigger] signature_valid(kv[b], name@, sig@, rv),
                decreases dnskeys@.len() - j,
            {
                let key = &dnskeys[j];
                assert(kv[j as int] == key@);
                let a = key.algorithm;
                let supported = a == 5 || a == 7 || a == 8 || a == 10 || a == 13 || a == 14 || a == 15;
                if key.zone_key && key.algorithm == sig.algorithm && supported {
                    if verify_signature(key, name, sig, rrset) {
                        assert(signature_valid(kv[j as int], name@, sv[i as int], rv));
                        return ValidationResult::Secure;
                    }
                }
                j = j + 1;
            }
        }
        i = i + 1;
    }
    ValidationResult::Bogus(bogus_reason(name, rtype))
}

/// Validate an RRset now.
pub fn validate_rrset(name: &DnsName, rtype: RecordType, rrset: &Vec<Record>, rrsigs: &Vec<Rrsig>, dnskeys: &Vec<Dnskey>) -> (r: ValidationResult)
    ensures
        rrsigs@.len() == 0 ==> r == ValidationResult::Insecure,
        rrsigs@.len() > 0 ==> exists|now: u32| (r == ValidationResult::Secure <==> #[trigger] has_valid_signature(
            name@, rtype, records_view(rrset@), rrsigs_view(rrsigs@), dnskeys_view(dnskeys@), now)),
        rrsigs@.len() > 0 ==> (r is Secure || r is Bogus),
        r matches ValidationResult::Bogus(t) ==> t@ == bogus_text(name@, rtype),
{
    let now = unix_time_secs();
    #[verifier::truncate]
    let now32 = now as u32;
    validate_rrset_at(name, rtype, rrset, rrsigs, dnskeys, now32)
}

/// The RRSIG data among some records, in order.
pub open spec fn spec_rrsigs(records: Seq<RecordV>) -> Seq<RrsigV>
    decreases records.len(),
{
    if records.len() == 0 {
        Seq::empty()
    } else {
        let rest = spec_rrsigs(records.drop_last());
        match records.last().data {
            RDataV::RRSIG(s) => rest.push(s),
            _ => rest,
        }
    }
}

/// The DNSKEY data among some records, in order.
pub open spec fn spec_dnskeys(records: Seq<RecordV>) -> Seq<DnskeyV>
    decreases records.len(),
{
    if records.len() == 0 {
        Seq::empty()
    } else {
        let rest = spec_dnskeys(records.drop_last());
        match records.last().data {
            RDataV::DNSKEY(k) => rest.push(k),
            _ => rest,
        }
    }
}

/// The signatures among some records.
pub fn extract_rrsigs(records: &Vec<Record>) -> (r: Vec<Rrsig>)
    ensures
        rrsigs_view(r@) == spec_rrsigs(records_view(records@)),
{
    let ghost rv = records_view(records@);
    let mut out: Vec<Rrsig> = Vec::new();
    let mut i: usize = 0;
    assert(rv.subrange(0, 0) =~= Seq::<RecordV>::empty());
    assert(rrsigs_view(out@) =~= Seq::<RrsigV>::empty());
    while i < records.len()
        invariant
            i <= records@.len(),
            rv == records_view(records@),
            rrsigs_view(out@) == spec_rrsigs(rv.subrange(0, i as int)),
        decreases records@.len() - i,
    {
        let ghost sub = rv.subrange(0, i + 1);
        assert(sub.drop_last() =~= rv.subrange(0, i as int));
        assert(sub.last() == records@[i as int]@);
        match &records[i].data {
            RecordData::RRSIG(s) => {
                let ghost before = rrsigs_view(out@);
                out.push(s.clone());
                assert(rrsigs_view(out@) =~= before.push(s@));
            },
            _ => {},
        }
        i = i + 1;
    }
    assert(rv.subrange(0, records@.len() as int) =~= rv);
    out
}

/// The keys among some records.
pub fn extract_dnskeys(records: &Vec<Record>) -> (r: Vec<Dnskey>)
    ensures
        dnskeys_view(r@) == spec_dnskeys(records_view(records@)),
{
    let ghost rv = records_view(records@);
    let mut out: Vec<Dnskey> = Vec::new();
    let mut i: usize = 0;
    assert(rv.subrange(0, 0) =~= Seq::<RecordV>::empty());
    assert(dnskeys_view(out@) =~= Seq::<DnskeyV>::empty());
    while i < records.len()
        invariant
            i <= records@.len(),
            rv == records_view(records@),
            dnskeys_view(out@) == spec_dnskeys(rv.subrange(0, i as int)),
        decreases records@.len() - i,
    {
        let ghost sub = rv.subrange(0, i + 1);
        assert(sub.drop_last() =~= rv.subrange(0, i as int));
        assert(sub.last() == records@[i as int]@);
        match &records[i].data {
            RecordData::DNSKEY(k) => {
                let ghost before = dnskeys_view(out@);
                out.push(k.clone());
                assert(dnskeys_view(out@) =~= before.push(k@));
            },
            _ => {},
        }
        i = i + 1;
    }
    assert(rv.subrange(0, records@.len() as int) =~= rv);
    out
}

/// An RRset is only secure through a signature that is current: a
/// verified signature that covers its type, was made by a zone key of its
/// algorithm, and whose validity period holds `now` (RFC 4034 section
/// 3.1.5). So an RRset whose signatures have all expired, or are not yet
/// valid, is never secure.
pub proof fn lemma_secure_needs_current_signature(
    name: Seq<Seq<u8>>,
    rtype: RecordType,
    rrset: Seq<RecordV>,
    sigs: Seq<RrsigV>,
    keys: Seq<DnskeyV>,
    now: u32,
)
    ensures
        has_valid_signature(name, rtype, rrset, sigs, keys, now) ==> exists|i: int, j: int|
            0 <= i < sigs.len() && 0 <= j < keys.len() && sigs[i].sig_inception <= now && now <= sigs[i].sig_expiration
                && sigs[i].type_covered == rtype && keys[j].zone_key && keys[j].algorithm == sigs[i].algorithm
                && #[trigger] signature_valid(keys[j], name, sigs[i], rrset),
        (forall|i: int| 0 <= i < sigs.len() ==> now > (#[trigger] sigs[i]).sig_expiration || now < sigs[i].sig_inception)
            ==> !has_valid_signature(name, rtype, rrset, sigs, keys, now),
{
}

} // verus!
