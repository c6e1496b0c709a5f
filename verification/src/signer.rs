use crate::keys::{dnskey_from_signer, DnssecKeyPair};
use crate::validator::{has_valid_signature, key_fits, signature_valid, spec_rrsigs, usable};
use crate::name::{canon, num_labels, DnsName};
use crate::types::{records_view, Dnskey, DnskeyV, RDataV, Record, RecordData, RecordType, RecordV, Rrsig, RrsigV};
use crate::wire::{name_from_hickory, name_to_hickory, rdata_to_hickory};
use crate::zone::{rrsets_view, RRset, RRsetV};
use hickory_proto::dnssec::{SigSigner, SigningKey};
use vstd::prelude::*;

verus! {

/// An error signing a zone.
#[derive(Debug)]
pub enum SignError {
    Signing(String),
    NoZsk,
    NoKsk,
}

impl SignError {
    pub open spec fn spec_message(&self) -> Seq<char> {
        match self {
            SignError::Signing(e) => "signing failed: "@ + e@,
            SignError::NoZsk => "no ZSK available for signing"@,
            SignError::NoKsk => "no KSK available for signing DNSKEY RRset"@,
        }
    }

    /// The message that describes the error.
    pub fn message(&self) -> (r: String)
        ensures
            r@ == self.spec_message(),
    {
        match self {
            SignError::Signing(e) => {
                let mut s = "signing failed: ".to_owned();
                s.append(e.as_str());
                s
            },
            SignError::NoZsk => "no ZSK available for signing".to_owned(),
            SignError::NoKsk => "no KSK available for signing DNSKEY RRset".to_owned(),
        }
    }
}

/// Seconds since the Unix epoch on the system clock (`SystemTime::now`), 0
/// for a clock set before it. It depends on the time of the call, so nothing
/// is stated of it.
#[verifier::external_body]
pub(crate) fn unix_time_secs() -> u64 {
    std::time::SystemTime::now().duration_since(std::time::UNIX_EPOCH).map(|d| d.as_secs()).unwrap_or(0)
}

#[verifier::external_type_specification]
#[verifier::external_body]
pub struct ExSig(hickory_proto::dnssec::rdata::SIG);

#[verifier::external_type_specification]
#[verifier::external_body]
pub struct ExTbs(hickory_proto::dnssec::tbs::TBS);

/// The signature fields of an RRSIG as hickory-proto `SIG` data (`SIG::new`),
/// with an empty signature.
#[verifier::external_body]
fn sig_fields(f: &Rrsig) -> Option<hickory_proto::dnssec::rdata::SIG> {
    Some(hickory_proto::dnssec::rdata::SIG::new(hickory_proto::rr::RecordType::from(f.type_covered.code()), hickory_proto::dnssec::Algorithm::from_u8(f.algorithm),
        f.num_labels, f.original_ttl, f.sig_expiration, f.sig_inception, f.key_tag, name_to_hickory(&f.signer_name)?, Vec::new()))
}

/// The data signed for an RRset at `name`, class IN, under the fields of `f`
/// (hickory-proto `TBS::from_sig`), with hickory-proto's error text on failure.
#[verifier::external_body]
pub(crate) fn tbs_for(name: &DnsName, records: &Vec<Record>, f: &Rrsig) -> Result<hickory_proto::dnssec::tbs::TBS, String> {
    let rec = |r: &Record| -> Option<hickory_proto::rr::Record> {
        let mut x = hickory_proto::rr::Record::from_rdata(name_to_hickory(&r.name)?, r.ttl, rdata_to_hickory(&r.data)?);
        x.set_dns_class(hickory_proto::rr::DNSClass::from(r.dns_class));
        Some(x)
    };
    let hrecs = records.iter().map(rec).collect::<Option<Vec<_>>>().ok_or("record cannot be encoded")?;
    let sig = sig_fields(f).ok_or("bad signer name")?;
    hickory_proto::dnssec::tbs::TBS::from_sig(&name_to_hickory(name).ok_or("bad name")?, hickory_proto::rr::DNSClass::IN, &sig, hrecs.iter()).map_err(|e| e.to_string())
}

/// Sign an RRset (`tbs_for`, then `SigSigner::sign`) and give the DNSKEY data
/// of the signer (`SigSigner::to_dnskey`, as `dnskey_from_signer` converts
/// it). The signature is made with the signer's private key over the data
/// that hickory-proto's verification recomputes from the same fields, name
/// and records, so for ECDSA P-256 (13) and Ed25519 (15) keys it verifies
/// under that DNSKEY. ECDSA signatures are randomised, so nothing else is
/// stated of the signature bytes.
#[verifier::external_body]
fn sign_data(signer: &SigSigner, name: &DnsName, records: &Vec<Record>, f: &Rrsig) -> (r: Result<(Vec<u8>, Dnskey), String>)
    ensures
        r matches Ok((sig, k)) ==> ((k@.algorithm == 13 || k@.algorithm == 15)
            ==> signature_valid(k@, name@, RrsigV { signature: sig@, ..f@ }, records_view(records@))),
{
    let tbs = tbs_for(name, records, f)?;
    let sig = signer.sign(&tbs).map_err(|e| e.to_string())?;
    Ok((sig, dnskey_from_signer(signer).ok_or("no DNSKEY")?))
}

/// Whether two DNSKEY data are the same.
fn same_dnskey(a: &Dnskey, b: &Dnskey) -> (r: bool)
    ensures
        r == (a@ == b@),
{
    if a.zone_key != b.zone_key || a.secure_entry_point != b.secure_entry_point || a.revoke != b.revoke
        || a.algorithm != b.algorithm || a.public_key.len() != b.public_key.len() {
        return false;
    }
    let mut i: usize = 0;
    while i < a.public_key.len()
        invariant
            i <= a.public_key@.len(),
            a.public_key@.len() == b.public_key@.len(),
            forall|j: int| 0 <= j < i ==> a.public_key@[j] == b.public_key@[j],
        decreases a.public_key@.len() - i,
    {
        if a.public_key[i] != b.public_key[i] {
            return false;
        }
        i = i + 1;
    }
    assert(a.public_key@ =~= b.public_key@);
    true
}

/// The RRSIG record for an RRset of type `rtype` at `name`: the TTL of its
/// first record (300 for an empty one), the label count of the name without
/// a leading wildcard, and the given key and validity period.
pub open spec fn rrsig_record(
    records: Seq<RecordV>,
    name: Seq<Seq<u8>>,
    rtype: RecordType,
    algorithm: u8,
    key_tag: u16,
    signer_name: Seq<Seq<u8>>,
    inception: u32,
    expiration: u32,
    signature: Seq<u8>,
) -> RecordV {
    let ttl: u32 = if records.len() > 0 { records[0].ttl } else { 300 };
    RecordV {
        name,
        dns_class: 1,
        ttl,
        data: RDataV::RRSIG(RrsigV {
            type_covered: rtype,
            algorithm,
            num_labels: num_labels(name) as u8,
            original_ttl: ttl,
            sig_expiration: expiration,
            sig_inception: inception,
            key_tag,
            signer_name,
            signature,
        }),
    }
}

/// The signature fields of an RRSIG record.
pub open spec fn rrsig_of(r: RecordV) -> RrsigV {
    r.data->RRSIG_0
}

/// The outcome of a signing call as values: the signature and the DNSKEY
/// data of the signer, or `None` where the call failed.
pub open spec fn signing_view(r: Result<(Vec<u8>, Dnskey), String>) -> Option<(Seq<u8>, DnskeyV)> {
    match r {
        Ok((sig, k)) => Some((sig@, k@)),
        Err(_) => None,
    }
}

/// The RRSIG that signing one RRset gives for the outcome `res` of the
/// signing call: the RRSIG record with that signature where the call
/// succeeded and the signer holds `dnskey`; none otherwise.
pub open spec fn signing_step(
    res: Option<(Seq<u8>, DnskeyV)>,
    records: Seq<RecordV>,
    name: Seq<Seq<u8>>,
    rtype: RecordType,
    algorithm: u8,
    key_tag: u16,
    signer_name: Seq<Seq<u8>>,
    inception: u32,
    expiration: u32,
    dnskey: DnskeyV,
) -> Option<RecordV> {
    match res {
        Some((sig, k)) => if k == dnskey {
            Some(rrsig_record(records, name, rtype, algorithm, key_tag, signer_name, inception, expiration, sig))
        } else {
            None
        },
        None => None,
    }
}

/// What the signing call guarantees of its outcome: a signature by an ECDSA
/// P-256 or Ed25519 key verifies under the signer's DNSKEY.
pub open spec fn outcome_verifies(
    res: Option<(Seq<u8>, DnskeyV)>,
    records: Seq<RecordV>,
    name: Seq<Seq<u8>>,
    rtype: RecordType,
    algorithm: u8,
    key_tag: u16,
    signer_name: Seq<Seq<u8>>,
    inception: u32,
    expiration: u32,
) -> bool {
    match res {
        Some((sig, k)) => (k.algorithm == 13 || k.algorithm == 15) ==> signature_valid(k, name,
            rrsig_of(rrsig_record(records, name, rtype, algorithm, key_tag, signer_name, inception, expiration, sig)), records),
        None => true,
    }
}

/// The RRSIG record for an RRset from the outcome of its signing call: the
/// record with the signature when the call succeeded and the signer holds
/// `dnskey`, else a signing error.
pub fn rrsig_from_signing(
    result: Result<(Vec<u8>, Dnskey), String>,
    records: &Vec<Record>,
    name: &DnsName,
    rtype: RecordType,
    algorithm: u8,
    key_tag: u16,
    signer_name: &DnsName,
    inception: u32,
    expiration: u32,
    dnskey: &Dnskey,
) -> (r: Result<Record, SignError>)
    ensures
        match signing_step(signing_view(result), records_view(records@), name@, rtype, algorithm, key_tag, signer_name@,
            inception, expiration, dnskey@) {
            Some(rec) => r matches Ok(x) && x@ == rec,
            None => r matches Err(SignError::Signing(_)),
        },
{
    let (signature, key) = match result {
        Ok(x) => x,
        Err(e) => {
            return Err(SignError::Signing(e));
        },
    };
    if !same_dnskey(&key, dnskey) {
        return Err(SignError::Signing("the signer does not hold this DNSKEY".to_owned()));
    }
    let ttl: u32 = if records.len() > 0 { records[0].ttl } else { 300 };
    let labels = name.num_labels();
    #[verifier::truncate]
    let num_labels_u8 = labels as u8;
    let rrsig = Rrsig {
        type_covered: rtype,
        algorithm,
        num_labels: num_labels_u8,
        original_ttl: ttl,
        sig_expiration: expiration,
        sig_inception: inception,
        key_tag,
        signer_name: signer_name.clone(),
        signature,
    };
    let rec = Record::from_rdata(name.clone(), ttl, RecordData::RRSIG(rrsig));
    assert(rec@ == rrsig_record(records_view(records@), name@, rtype, algorithm, key_tag, signer_name@, inception, expiration,
        rec@.data->RRSIG_0.signature));
    Ok(rec)
}

/// Sign one RRset with `signer`, whose DNSKEY data is `dnskey`: the RRSIG
/// record with the given key fields and validity period, for whatever the
/// signing call gave (`rrsig_from_signing`); a signature by an ECDSA P-256
/// or Ed25519 key verifies under `dnskey`.
pub fn sign_rrset(
    records: &Vec<Record>,
    name: &DnsName,
    rtype: RecordType,
    algorithm: u8,
    key_tag: u16,
    signer_name: &DnsName,
    inception: u32,
    expiration: u32,
    signer: &SigSigner,
    dnskey: &Dnskey,
) -> (r: Result<Record, SignError>)
    ensures
        exists|res: Option<(Seq<u8>, DnskeyV)>|
            outcome_verifies(res, records_view(records@), name@, rtype, algorithm, key_tag, signer_name@, inception, expiration)
            && match #[trigger] signing_step(res, records_view(records@), name@, rtype, algorithm, key_tag, signer_name@,
                inception, expiration, dnskey@) {
                Some(rec) => r matches Ok(x) && x@ == rec,
                None => r matches Err(SignError::Signing(_)),
            },
{
    let ttl: u32 = if records.len() > 0 { records[0].ttl } else { 300 };
    let labels = name.num_labels();
    #[verifier::truncate]
    let num_labels_u8 = labels as u8;
    let fields = Rrsig {
        type_covered: rtype,
        algorithm,
        num_labels: num_labels_u8,
        original_ttl: ttl,
        sig_expiration: expiration,
        sig_inception: inception,
        key_tag,
        signer_name: signer_name.clone(),
        signature: Vec::new(),
    };
    let result = sign_data(signer, name, records, &fields);
    let ghost res = signing_view(result);
    proof {
        match res {
            Some((sig, k)) => {
                assert(RrsigV { signature: sig, ..fields@ } == rrsig_of(rrsig_record(records_view(records@), name@, rtype, algorithm,
                    key_tag, signer_name@, inception, expiration, sig)));
            },
            None => {},
        }
    }
    let r = rrsig_from_signing(result, records, name, rtype, algorithm, key_tag, signer_name, inception, expiration, dnskey);
    assert(outcome_verifies(res, records_view(records@), name@, rtype, algorithm, key_tag, signer_name@, inception, expiration));
    r
}

/// An RRset that signing covers: not empty and not itself RRSIGs.
pub open spec fn signable(s: RRsetV) -> bool {
    s.records.len() > 0 && s.rtype != RecordType::RRSIG
}

/// The key that signs an RRset: the key-signing key for the DNSKEY RRset at
/// the apex, the zone-signing key for every other one.
pub open spec fn uses_ksk(s: RRsetV, origin: Seq<Seq<u8>>) -> bool {
    s.rtype == RecordType::DNSKEY && canon(s.name) == canon(origin)
}

/// What signing needs of a key pair: its algorithm number, key tag, zone
/// (the signer name) and DNSKEY data.
pub struct SigningKeyV {
    pub algorithm: u8,
    pub key_tag: u16,
    pub zone: Seq<Seq<u8>>,
    pub dnskey: DnskeyV,
}

pub open spec fn signing_key(k: &DnssecKeyPair) -> SigningKeyV {
    SigningKeyV { algorithm: k.algorithm.spec_number(), key_tag: k.key_tag, zone: k.zone@, dnskey: k.dnskey@ }
}

/// The key that signs RRset `s`.
pub open spec fn key_for(s: RRsetV, origin: Seq<Seq<u8>>, zsk: SigningKeyV, ksk: SigningKeyV) -> SigningKeyV {
    if uses_ksk(s, origin) { ksk } else { zsk }
}

/// `inception + secs` in 32-bit serial arithmetic (RFC 4034 section 3.1.5),
/// `secs` taken modulo 2^32.
pub open spec fn serial_add(inception: u32, secs: u64) -> u32 {
    ((inception as int + (secs as int % 0x1_0000_0000)) % 0x1_0000_0000) as u32
}

/// The RRSIG that signing RRset `s` gives for the outcome `res` of its
/// signing call (`signing_step` with the RRset's key).
pub open spec fn set_step(
    s: RRsetV,
    origin: Seq<Seq<u8>>,
    zsk: SigningKeyV,
    ksk: SigningKeyV,
    inception: u32,
    expiration: u32,
    res: Option<(Seq<u8>, DnskeyV)>,
) -> Option<RecordV> {
    let key = key_for(s, origin, zsk, ksk);
    signing_step(res, s.records, s.name, s.rtype, key.algorithm, key.key_tag, key.zone, inception, expiration, key.dnskey)
}

/// The signing call for RRset `s` kept its guarantee (`outcome_verifies`).
pub open spec fn set_outcome_ok(
    s: RRsetV,
    origin: Seq<Seq<u8>>,
    zsk: SigningKeyV,
    ksk: SigningKeyV,
    inception: u32,
    expiration: u32,
    res: Option<(Seq<u8>, DnskeyV)>,
) -> bool {
    let key = key_for(s, origin, zsk, ksk);
    outcome_verifies(res, s.records, s.name, s.rtype, key.algorithm, key.key_tag, key.zone, inception, expiration)
}

/// The RRSIGs that signing `sets` gives for the outcomes of the signing
/// calls, in order: for each RRset that signing covers, its RRSIG exactly
/// when its signing step gives one.
pub open spec fn zone_rrsigs(
    sets: Seq<RRsetV>,
    origin: Seq<Seq<u8>>,
    zsk: SigningKeyV,
    ksk: SigningKeyV,
    inception: u32,
    expiration: u32,
    outcomes: Seq<Option<(Seq<u8>, DnskeyV)>>,
) -> Seq<RecordV>
    decreases sets.len(),
{
    if sets.len() == 0 {
        Seq::empty()
    } else {
        let k = sets.len() - 1;
        let rest = zone_rrsigs(sets.drop_last(), origin, zsk, ksk, inception, expiration, outcomes);
        if signable(sets[k]) {
            match set_step(sets[k], origin, zsk, ksk, inception, expiration, outcomes[k]) {
                Some(rec) => rest.push(rec),
                None => rest,
            }
        } else {
            rest
        }
    }
}

/// `out` is what signing `sets` from `inception` to `expiration` gives, for
/// some outcomes of the signing calls, each keeping its guarantee.
pub open spec fn zone_signed(
    out: Seq<RecordV>,
    sets: Seq<RRsetV>,
    origin: Seq<Seq<u8>>,
    zsk: SigningKeyV,
    ksk: SigningKeyV,
    inception: u32,
    expiration: u32,
) -> bool {
    exists|outcomes: Seq<Option<(Seq<u8>, DnskeyV)>>| outcomes.len() == sets.len()
        && (forall|k: int| 0 <= k < sets.len() ==> set_outcome_ok(sets[k], origin, zsk, ksk, inception, expiration, #[trigger] outcomes[k]))
        && #[trigger] zone_rrsigs(sets, origin, zsk, ksk, inception, expiration, outcomes) == out
}

/// The number of RRsets that signing covers.
pub open spec fn signable_count(sets: Seq<RRsetV>) -> nat
    decreases sets.len(),
{
    if sets.len() == 0 {
        0
    } else {
        signable_count(sets.drop_last()) + if signable(sets.last()) { 1nat } else { 0nat }
    }
}

proof fn lemma_zone_rrsigs_prefix(
    sets: Seq<RRsetV>,
    k: int,
    origin: Seq<Seq<u8>>,
    zsk: SigningKeyV,
    ksk: SigningKeyV,
    inception: u32,
    expiration: u32,
    outcomes: Seq<Option<(Seq<u8>, DnskeyV)>>,
    outcomes2: Seq<Option<(Seq<u8>, DnskeyV)>>,
)
    requires
        0 <= k <= sets.len(),
        forall|j: int| 0 <= j < k ==> outcomes2[j] == outcomes[j],
    ensures
        zone_rrsigs(sets.subrange(0, k), origin, zsk, ksk, inception, expiration, outcomes)
            == zone_rrsigs(sets.subrange(0, k), origin, zsk, ksk, inception, expiration, outcomes2),
    decreases k,
{
    if k > 0 {
        let p = sets.subrange(0, k);
        assert(p.drop_last() =~= sets.subrange(0, k - 1));
        lemma_zone_rrsigs_prefix(sets, k - 1, origin, zsk, ksk, inception, expiration, outcomes, outcomes2);
    }
}

/// Sign every RRset of a zone at time `now` (seconds since the epoch, in the
/// 32-bit serial arithmetic of RFC 4034 section 3.1.5): each signature is
/// made with the key-signing key for the apex DNSKEY RRset and the
/// zone-signing key otherwise, names the key's zone as signer and is valid
/// from `now` for the zone-signing key's signature duration. The result
/// holds, in order, for each RRset that is not empty and not RRSIGs, its
/// RRSIG exactly when its signing call succeeds and the signer holds the
/// key's DNSKEY.
pub fn sign_zone_at(records: &Vec<RRset>, origin: &DnsName, zsk: &DnssecKeyPair, ksk: &DnssecKeyPair, now: u32) -> (r: Result<Vec<Record>, SignError>)
    ensures
        r matches Ok(out) && zone_signed(records_view(out@), rrsets_view(records@), origin@, signing_key(zsk), signing_key(ksk),
            now, serial_add(now, zsk.sig_secs)),
{
    let inception = now;
    #[verifier::truncate]
    let dur32 = zsk.sig_secs as u32;
    let expiration = inception.wrapping_add(dur32);
    proof {
        let secs = zsk.sig_secs;
        assert(dur32 == secs % 0x1_0000_0000) by (bit_vector)
            requires
                dur32 == secs as u32;
        assert(expiration == serial_add(now, zsk.sig_secs));
    }
    let ghost sets = rrsets_view(records@);
    let ghost zk = signing_key(zsk);
    let ghost kk = signing_key(ksk);
    let ghost o = origin@;
    let ghost mut outcomes: Seq<Option<(Seq<u8>, DnskeyV)>> = Seq::new(records@.len(), |i: int| None);
    let mut out: Vec<Record> = Vec::new();
    assert(records_view(out@) =~= Seq::<RecordV>::empty());
    assert(sets.subrange(0, 0) =~= Seq::<RRsetV>::empty());
    let mut k: usize = 0;
    while k < records.len()
        invariant
            k <= records@.len(),
            sets == rrsets_view(records@),
            inception == now,
            zk == signing_key(zsk),
            kk == signing_key(ksk),
            o == origin@,
            outcomes.len() == sets.len(),
            records_view(out@) == zone_rrsigs(sets.subrange(0, k as int), o, zk, kk, inception, expiration, outcomes),
            forall|j: int| 0 <= j < sets.len() ==> set_outcome_ok(sets[j], o, zk, kk, inception, expiration, #[trigger] outcomes[j]),
        decreases records@.len() - k,
    {
        let set = &records[k];
        assert(sets[k as int] == set@);
        let ghost pre = sets.subrange(0, k as int);
        let ghost next = sets.subrange(0, k + 1);
        assert(next.drop_last() =~= pre);
        assert(next[k as int] == sets[k as int]);
        if set.records.len() > 0 && set.rtype != RecordType::RRSIG {
            let use_ksk = set.rtype == RecordType::DNSKEY && set.name.same_name(origin);
            let key = if use_ksk { ksk } else { zsk };
            assert(signing_key(key) == key_for(sets[k as int], o, zk, kk));
            let r = sign_rrset(&set.records, &set.name, set.rtype, key.algorithm.number(), key.key_tag, &key.zone, inception,
                expiration, &key.signer, &key.dnskey);
            let ghost res = choose|res: Option<(Seq<u8>, DnskeyV)>|
                outcome_verifies(res, records_view(set.records@), set.name@, set.rtype, key.algorithm.spec_number(), key.key_tag,
                    key.zone@, inception, expiration)
                && match #[trigger] signing_step(res, records_view(set.records@), set.name@, set.rtype, key.algorithm.spec_number(),
                    key.key_tag, key.zone@, inception, expiration, key.dnskey@) {
                    Some(rec) => r matches Ok(x) && x@ == rec,
                    None => r matches Err(SignError::Signing(_)),
                };
            let ghost before = out@;
            let ghost outcomes0 = outcomes;
            proof {
                outcomes = outcomes.update(k as int, res);
                lemma_zone_rrsigs_prefix(sets, k as int, o, zk, kk, inception, expiration, outcomes0, outcomes);
                assert(set_step(sets[k as int], o, zk, kk, inception, expiration, outcomes[k as int]) == signing_step(res,
                    records_view(set.records@), set.name@, set.rtype, key.algorithm.spec_number(), key.key_tag, key.zone@, inception,
                    expiration, key.dnskey@));
                assert forall|j: int| 0 <= j < sets.len() implies set_outcome_ok(sets[j], o, zk, kk, inception, expiration, #[trigger] outcomes[j]) by {
                    if j != k {
                        assert(outcomes[j] == outcomes0[j]);
                    }
                }
            }
            match r {
                Ok(rec) => {
                    out.push(rec);
                    assert(records_view(out@) =~= records_view(before).push(rec@));
                },
                Err(_) => {},
            }
            assert(records_view(out@) == zone_rrsigs(next, o, zk, kk, inception, expiration, outcomes));
        } else {
            assert(records_view(out@) == zone_rrsigs(next, o, zk, kk, inception, expiration, outcomes));
        }
        k = k + 1;
    }
    assert(sets.subrange(0, records@.len() as int) =~= sets);
    Ok(out)
}

/// Sign every RRset of a zone now.
pub fn sign_zone(records: &Vec<RRset>, origin: &DnsName, zsk: &DnssecKeyPair, ksk: &DnssecKeyPair) -> (r: Result<Vec<Record>, SignError>)
    ensures
        r matches Ok(out) && exists|now: u32| #[trigger] zone_signed(records_view(out@), rrsets_view(records@), origin@,
            signing_key(zsk), signing_key(ksk), now, serial_add(now, zsk.sig_secs)),
{
    let now = unix_time_secs();
    #[verifier::truncate]
    let now32 = now as u32;
    sign_zone_at(records, origin, zsk, ksk, now32)
}

proof fn lemma_rrsigs_of_signed(
    sets: Seq<RRsetV>,
    origin: Seq<Seq<u8>>,
    zsk: SigningKeyV,
    ksk: SigningKeyV,
    inception: u32,
    expiration: u32,
    outcomes: Seq<Option<(Seq<u8>, DnskeyV)>>,
    k: int,
)
    requires
        0 <= k < sets.len(),
        signable(sets[k]),
        set_step(sets[k], origin, zsk, ksk, inception, expiration, outcomes[k]) is Some,
    ensures
        exists|i: int| 0 <= i < spec_rrsigs(zone_rrsigs(sets, origin, zsk, ksk, inception, expiration, outcomes)).len()
            && #[trigger] spec_rrsigs(zone_rrsigs(sets, origin, zsk, ksk, inception, expiration, outcomes))[i]
                == rrsig_of(set_step(sets[k], origin, zsk, ksk, inception, expiration, outcomes[k])->Some_0),
    decreases sets.len(),
{
    let last = sets.len() - 1;
    let rest = zone_rrsigs(sets.drop_last(), origin, zsk, ksk, inception, expiration, outcomes);
    let target = rrsig_of(set_step(sets[k], origin, zsk, ksk, inception, expiration, outcomes[k])->Some_0);
    let all = zone_rrsigs(sets, origin, zsk, ksk, inception, expiration, outcomes);
    let step = set_step(sets[last], origin, zsk, ksk, inception, expiration, outcomes[last]);
    if signable(sets[last]) && step is Some {
        let r = step->Some_0;
        assert(all == rest.push(r));
        assert(all.drop_last() =~= rest);
        assert(r.data is RRSIG);
        assert(spec_rrsigs(all) == spec_rrsigs(rest).push(rrsig_of(r)));
        if k == last {
            assert(spec_rrsigs(all)[spec_rrsigs(all).len() - 1] == target);
        } else {
            assert(sets.drop_last()[k] == sets[k]);
            lemma_rrsigs_of_signed(sets.drop_last(), origin, zsk, ksk, inception, expiration, outcomes, k);
            let i = choose|i: int| 0 <= i < spec_rrsigs(rest).len() && #[trigger] spec_rrsigs(rest)[i] == target;
            assert(spec_rrsigs(all)[i] == spec_rrsigs(rest)[i]);
        }
    } else {
        assert(k != last);
        assert(all == rest);
        assert(sets.drop_last()[k] == sets[k]);
        lemma_rrsigs_of_signed(sets.drop_last(), origin, zsk, ksk, inception, expiration, outcomes, k);
    }
}

/// Signing gives at most one RRSIG per RRset that signing covers, and as
/// many as there are such RRsets only when every one of them got its RRSIG.
proof fn lemma_zone_rrsigs_count(
    sets: Seq<RRsetV>,
    origin: Seq<Seq<u8>>,
    zsk: SigningKeyV,
    ksk: SigningKeyV,
    inception: u32,
    expiration: u32,
    outcomes: Seq<Option<(Seq<u8>, DnskeyV)>>,
)
    ensures
        zone_rrsigs(sets, origin, zsk, ksk, inception, expiration, outcomes).len() <= signable_count(sets),
        zone_rrsigs(sets, origin, zsk, ksk, inception, expiration, outcomes).len() == signable_count(sets) ==> forall|k: int|
            0 <= k < sets.len() && signable(sets[k]) ==> #[trigger] set_step(sets[k], origin, zsk, ksk, inception, expiration, outcomes[k]) is Some,
    decreases sets.len(),
{
    if sets.len() > 0 {
        let last = sets.len() - 1;
        let d = sets.drop_last();
        lemma_zone_rrsigs_count(d, origin, zsk, ksk, inception, expiration, outcomes);
        let all = zone_rrsigs(sets, origin, zsk, ksk, inception, expiration, outcomes);
        if all.len() == signable_count(sets) {
            assert forall|k: int| 0 <= k < sets.len() && signable(sets[k]) implies #[trigger] set_step(sets[k], origin, zsk, ksk, inception,
                expiration, outcomes[k]) is Some by {
                if k < last {
                    assert(d[k] == sets[k]);
                }
            }
        }
    }
}

/// A zone this library signs validates: where signing gave an RRSIG for every
/// RRset it covers (as many RRSIGs as such RRsets), each such RRset made with
/// an ECDSA P-256 or Ed25519 zone key, whose DNSKEY data has the key pair's
/// algorithm, has among the RRSIGs a signature usable at any time `now`
/// within the validity period and verified by that key's DNSKEY, so
/// `validate_rrset_at` with these RRSIGs and that DNSKEY answers Secure.
pub proof fn lemma_signed_zone_validates(
    out: Seq<RecordV>,
    sets: Seq<RRsetV>,
    origin: Seq<Seq<u8>>,
    zsk: SigningKeyV,
    ksk: SigningKeyV,
    inception: u32,
    expiration: u32,
    k: int,
    now: u32,
)
    requires
        zone_signed(out, sets, origin, zsk, ksk, inception, expiration),
        out.len() == signable_count(sets),
        0 <= k < sets.len(),
        signable(sets[k]),
        key_for(sets[k], origin, zsk, ksk).dnskey.algorithm == 13 || key_for(sets[k], origin, zsk, ksk).dnskey.algorithm == 15,
        key_for(sets[k], origin, zsk, ksk).dnskey.zone_key,
        key_for(sets[k], origin, zsk, ksk).dnskey.algorithm == key_for(sets[k], origin, zsk, ksk).algorithm,
        inception <= now <= expiration,
    ensures
        has_valid_signature(sets[k].name, sets[k].rtype, sets[k].records, spec_rrsigs(out),
            seq![key_for(sets[k], origin, zsk, ksk).dnskey], now),
{
    let outcomes = choose|outcomes: Seq<Option<(Seq<u8>, DnskeyV)>>| outcomes.len() == sets.len()
        && (forall|j: int| 0 <= j < sets.len() ==> set_outcome_ok(sets[j], origin, zsk, ksk, inception, expiration, #[trigger] outcomes[j]))
        && #[trigger] zone_rrsigs(sets, origin, zsk, ksk, inception, expiration, outcomes) == out;
    lemma_zone_rrsigs_count(sets, origin, zsk, ksk, inception, expiration, outcomes);
    assert(set_step(sets[k], origin, zsk, ksk, inception, expiration, outcomes[k]) is Some);
    assert(set_outcome_ok(sets[k], origin, zsk, ksk, inception, expiration, outcomes[k]));
    lemma_rrsigs_of_signed(sets, origin, zsk, ksk, inception, expiration, outcomes, k);
    let key = key_for(sets[k], origin, zsk, ksk);
    let target = rrsig_of(set_step(sets[k], origin, zsk, ksk, inception, expiration, outcomes[k])->Some_0);
    let l = spec_rrsigs(out);
    let i = choose|i: int| 0 <= i < spec_rrsigs(out).len() && #[trigger] spec_rrsigs(out)[i] == target;
    let keys = seq![key.dnskey];
    assert(keys[0] == key.dnskey);
    assert(usable(l[i], sets[k].rtype, now));
    assert(key_fits(keys[0], l[i]));
    assert(signature_valid(keys[0], sets[k].name, l[i], sets[k].records));
}

} // verus!
