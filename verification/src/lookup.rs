use crate::name::{canon, is_subdomain, spec_is_subdomain, DnsName};
use crate::negative::{
    nodata_response, nxdomain_response, referral_response, spec_noerror, spec_nodata,
    spec_nxdomain, spec_referral, AuthResponse, AuthV,
};
use crate::types::{extend_records, records_view, RDataV, Record, RecordData, RecordType, RecordV};
use crate::zone::{Zone, ZoneV};
use vstd::prelude::*;

verus! {

/// How many CNAME records an in-zone CNAME chain is followed through.
pub const MAX_CNAME_CHAIN: usize = 8;

/// The glue for a list of NS records: the zone's A/AAAA records of each NS target.
pub open spec fn ns_glue(z: ZoneV, ns: Seq<RecordV>) -> Seq<RecordV>
    decreases ns.len(),
{
    if ns.len() == 0 {
        Seq::empty()
    } else {
        let rest = ns_glue(z, ns.drop_last());
        match ns.last().data {
            RDataV::NS(target) => rest + z.glue(target),
            _ => rest,
        }
    }
}

/// The additional records for an answer: the zone's A/AAAA records of every
/// MX exchange, NS target and SRV target among the answer records.
pub open spec fn additional_for(z: ZoneV, records: Seq<RecordV>) -> Seq<RecordV>
    decreases records.len(),
{
    if records.len() == 0 {
        Seq::empty()
    } else {
        let rest = additional_for(z, records.drop_last());
        match records.last().data {
            RDataV::MX(_, t) => rest + z.glue(t),
            RDataV::NS(t) => rest + z.glue(t),
            RDataV::SRV(_, _, _, t) => rest + z.glue(t),
            _ => rest,
        }
    }
}

/// The authority section of positive answers: the apex NS records.
pub open spec fn authority_ns(z: ZoneV) -> Seq<RecordV> {
    z.records_at(z.origin, RecordType::NS)
}

/// Walking up from `cur` (inclusive) while below the origin: the referral at
/// the first name other than `qname` that has NS records.
pub open spec fn delegation_walk(z: ZoneV, qname: Seq<Seq<u8>>, cur: Seq<Seq<u8>>) -> Option<AuthV>
    decreases cur.len(),
{
    if canon(cur) == canon(z.origin) || !spec_is_subdomain(cur, z.origin) {
        None
    } else if z.lookup(cur, RecordType::NS) is Some && canon(cur) != canon(qname) {
        let ns = z.records_at(cur, RecordType::NS);
        Some(spec_referral(ns, ns_glue(z, ns)))
    } else if cur.len() == 0 {
        None
    } else {
        delegation_walk(z, qname, cur.drop_first())
    }
}

/// The answer records of following a CNAME chain inside the zone: each CNAME
/// RRset met, then the records of the type asked for at the end of the chain
/// if the zone has them; at most `fuel` CNAME RRsets are followed.
pub open spec fn cname_chain(z: ZoneV, qtype: RecordType, current: Seq<RecordV>, fuel: nat) -> Seq<
    RecordV,
>
    decreases fuel,
{
    if fuel == 0 {
        Seq::empty()
    } else if current.len() == 0 {
        current
    } else {
        match current[0].data {
            RDataV::CNAME(target) => match z.lookup(target, qtype) {
                Some(found) => current + found,
                None => match z.lookup(target, RecordType::CNAME) {
                    Some(next) => current + cname_chain(z, qtype, next, (fuel - 1) as nat),
                    None => current,
                },
            },
            _ => current,
        }
    }
}

/// The records with their owner name replaced (wildcard synthesis).
pub open spec fn renamed(records: Seq<RecordV>, name: Seq<Seq<u8>>) -> Seq<RecordV> {
    records.map_values(|r: RecordV| r.with_name(name))
}

/// The answer for a name that exists in the zone.
pub open spec fn spec_resolve_exact(z: ZoneV, qname: Seq<Seq<u8>>, qtype: RecordType) -> AuthV {
    match z.lookup(qname, qtype) {
        Some(records) => spec_noerror(records, authority_ns(z), additional_for(z, records)),
        None => if qtype != RecordType::CNAME && z.lookup(qname, RecordType::CNAME) is Some {
            spec_noerror(
                cname_chain(
                    z,
                    qtype,
                    z.records_at(qname, RecordType::CNAME),
                    MAX_CNAME_CHAIN as nat,
                ),
                authority_ns(z),
                Seq::empty(),
            )
        } else {
            spec_nodata(z)
        },
    }
}

/// The answer synthesised from the wildcard name `w` (RFC 4592).
pub open spec fn spec_resolve_wildcard(
    z: ZoneV,
    qname: Seq<Seq<u8>>,
    qtype: RecordType,
    w: Seq<Seq<u8>>,
) -> AuthV {
    match z.lookup(w, qtype) {
        Some(records) => spec_noerror(renamed(records, qname), authority_ns(z), Seq::empty()),
        None => if qtype != RecordType::CNAME && z.lookup(w, RecordType::CNAME) is Some {
            spec_noerror(
                renamed(z.records_at(w, RecordType::CNAME), qname),
                authority_ns(z),
                Seq::empty(),
            )
        } else {
            spec_nodata(z)
        },
    }
}

/// The authoritative answer of a zone (RFC 1034 section 4.3.2): a referral
/// at a delegation below the origin, else the records at the name (with CNAME
/// chasing), else a wildcard answer, else NXDOMAIN.
pub open spec fn spec_resolve_query(z: ZoneV, qname: Seq<Seq<u8>>, qtype: RecordType) -> AuthV {
    if canon(qname) != canon(z.origin) && delegation_walk(z, qname, qname) is Some {
        delegation_walk(z, qname, qname).unwrap()
    } else if z.name_exists(qname) {
        spec_resolve_exact(z, qname, qtype)
    } else if z.wildcard_from(qname) is Some {
        spec_resolve_wildcard(z, qname, qtype, z.wildcard_from(qname).unwrap())
    } else {
        spec_nxdomain(z)
    }
}

/// An NXDOMAIN answer has no answers and exactly the zone's SOA as authority;
/// any answer is NOERROR or NXDOMAIN.
pub proof fn lemma_resolve_nxdomain_has_soa(z: ZoneV, qname: Seq<Seq<u8>>, qtype: RecordType)
    ensures
        spec_resolve_query(z, qname, qtype).response_code is NXDomain ==> spec_resolve_query(
            z,
            qname,
            qtype,
        ).answers.len() == 0 && spec_resolve_query(z, qname, qtype).authority == seq![z.soa],
        spec_resolve_query(z, qname, qtype).response_code is NoError || spec_resolve_query(
            z,
            qname,
            qtype,
        ).response_code is NXDomain,
{
    if canon(qname) != canon(z.origin) && delegation_walk(z, qname, qname) is Some {
        lemma_walk_is_referral(z, qname, qname);
    }
}

proof fn lemma_walk_is_referral(z: ZoneV, qname: Seq<Seq<u8>>, cur: Seq<Seq<u8>>)
    ensures
        delegation_walk(z, qname, cur) matches Some(a) ==> a.response_code is NoError && a.answers.len()
            == 0,
    decreases cur.len(),
{
    if cur.len() > 0 {
        lemma_walk_is_referral(z, qname, cur.drop_first());
    }
}

/// Every record in a wildcard-synthesised answer is owned by the query name.
pub proof fn lemma_wildcard_answers_owned_by_qname(
    z: ZoneV,
    qname: Seq<Seq<u8>>,
    qtype: RecordType,
    w: Seq<Seq<u8>>,
)
    ensures
        forall|i: int|
            0 <= i < spec_resolve_wildcard(z, qname, qtype, w).answers.len() ==> (
            #[trigger] spec_resolve_wildcard(z, qname, qtype, w).answers[i]).name == qname,
{
}

/// The zone's A/AAAA records for each MX, NS and SRV target among `records`.
pub fn collect_additional(zone: &Zone, records: &Vec<Record>) -> (r: Vec<Record>)
    requires
        zone@.wf(),
    ensures
        records_view(r@) == additional_for(zone@, records_view(records@)),
{
    let mut additional: Vec<Record> = Vec::new();
    let mut i: usize = 0;
    while i < records.len()
        invariant
            zone@.wf(),
            i <= records.len(),
            records_view(additional@) == additional_for(
                zone@,
                records_view(records@).subrange(0, i as int),
            ),
        decreases records.len() - i,
    {
        assert(records_view(records@).subrange(0, i + 1).drop_last() =~= records_view(
            records@,
        ).subrange(0, i as int));
        match &records[i].data {
            RecordData::MX { exchange, .. } => {
                let g = zone.glue_records(exchange);
                extend_records(&mut additional, &g);
            },
            RecordData::NS(target) => {
                let g = zone.glue_records(target);
                extend_records(&mut additional, &g);
            },
            RecordData::SRV { target, .. } => {
                let g = zone.glue_records(target);
                extend_records(&mut additional, &g);
            },
            _ => {},
        }
        i = i + 1;
    }
    assert(records_view(records@).subrange(0, records.len() as int) =~= records_view(records@));
    additional
}

fn ns_glue_records(zone: &Zone, ns: &Vec<Record>) -> (r: Vec<Record>)
    requires
        zone@.wf(),
    ensures
        records_view(r@) == ns_glue(zone@, records_view(ns@)),
{
    let mut glue: Vec<Record> = Vec::new();
    let mut i: usize = 0;
    while i < ns.len()
        invariant
            zone@.wf(),
            i <= ns.len(),
            records_view(glue@) == ns_glue(zone@, records_view(ns@).subrange(0, i as int)),
        decreases ns.len() - i,
    {
        assert(records_view(ns@).subrange(0, i + 1).drop_last() =~= records_view(ns@).subrange(
            0,
            i as int,
        ));
        if let RecordData::NS(target) = &ns[i].data {
            let g = zone.glue_records(target);
            extend_records(&mut glue, &g);
        }
        i = i + 1;
    }
    assert(records_view(ns@).subrange(0, ns.len() as int) =~= records_view(ns@));
    glue
}

fn authority_records(zone: &Zone) -> (r: Vec<Record>)
    requires
        zone@.wf(),
    ensures
        records_view(r@) == authority_ns(zone@),
{
    match zone.apex_ns() {
        Some(v) => v,
        None => {
            let v: Vec<Record> = Vec::new();
            assert(records_view(v@) =~= Seq::<RecordV>::empty());
            v
        },
    }
}

fn find_delegation_for(zone: &Zone, qname: &DnsName) -> (r: Option<AuthResponse>)
    requires
        zone@.wf(),
    ensures
        r matches Some(a) ==> delegation_walk(zone@, qname@, qname@) == Some(a@),
        r is None <==> delegation_walk(zone@, qname@, qname@) is None,
{
    let mut current = qname.clone();
    loop
        invariant
            zone@.wf(),
            delegation_walk(zone@, qname@, qname@) == delegation_walk(zone@, qname@, current@),
        decreases current@.len(),
    {
        if current.same_name(&zone.origin) {
            return None;
        }
        if !is_subdomain(&current, &zone.origin) {
            return None;
        }
        if let Some(ns_records) = zone.lookup_exact(&current, RecordType::NS) {
            if !current.same_name(qname) {
                let glue = ns_glue_records(zone, &ns_records);
                return Some(referral_response(&ns_records, glue));
            }
        }
        match current.parent() {
            Some(p) => {
                current = p;
            },
            None => {
                return None;
            },
        }
    }
}

fn chase_cname(zone: &Zone, qtype: RecordType, cname_records: Vec<Record>) -> (r: AuthResponse)
    requires
        zone@.wf(),
    ensures
        r@ == spec_noerror(
            cname_chain(zone@, qtype, records_view(cname_records@), MAX_CNAME_CHAIN as nat),
            authority_ns(zone@),
            Seq::empty(),
        ),
{
    let mut answers: Vec<Record> = Vec::new();
    let mut current = cname_records;
    let mut k: usize = 0;
    let ghost full = cname_chain(zone@, qtype, records_view(current@), MAX_CNAME_CHAIN as nat);
    while k < MAX_CNAME_CHAIN
        invariant
            zone@.wf(),
            k <= MAX_CNAME_CHAIN,
            full == cname_chain(zone@, qtype, records_view(cname_records@), MAX_CNAME_CHAIN as nat),
            full == records_view(answers@) + cname_chain(
                zone@,
                qtype,
                records_view(current@),
                (MAX_CNAME_CHAIN - k) as nat,
            ),
        decreases MAX_CNAME_CHAIN - k,
    {
        let ghost before = records_view(answers@);
        let ghost cur = records_view(current@);
        extend_records(&mut answers, &current);
        if current.len() == 0 {
            assert(full =~= records_view(answers@));
            let r = AuthResponse::noerror(answers, authority_records(zone), Vec::new());
            assert(r@.additional =~= Seq::<RecordV>::empty());
            return r;
        }
        assert(cur[0] == current@[0]@);
        let target = match &current[0].data {
            RecordData::CNAME(t) => t.clone(),
            _ => {
                assert(full =~= records_view(answers@));
                let r = AuthResponse::noerror(answers, authority_records(zone), Vec::new());
                assert(r@.additional =~= Seq::<RecordV>::empty());
                return r;
            },
        };
        if let Some(found) = zone.lookup_exact(&target, qtype) {
            extend_records(&mut answers, &found);
            assert(full =~= records_view(answers@));
            let r = AuthResponse::noerror(answers, authority_records(zone), Vec::new());
            assert(r@.additional =~= Seq::<RecordV>::empty());
            return r;
        }
        match zone.lookup_exact(&target, RecordType::CNAME) {
            Some(next) => {
                assert(full =~= records_view(answers@) + cname_chain(
                    zone@,
                    qtype,
                    records_view(next@),
                    (MAX_CNAME_CHAIN - k - 1) as nat,
                ));
                current = next;
            },
            None => {
                assert(full =~= records_view(answers@));
                let r = AuthResponse::noerror(answers, authority_records(zone), Vec::new());
                assert(r@.additional =~= Seq::<RecordV>::empty());
                return r;
            },
        }
        k = k + 1;
    }
    assert(full =~= records_view(answers@));
    let r = AuthResponse::noerror(answers, authority_records(zone), Vec::new());
    assert(r@.additional =~= Seq::<RecordV>::empty());
    r
}

fn rename_all(records: &Vec<Record>, name: &DnsName) -> (r: Vec<Record>)
    ensures
        records_view(r@) == renamed(records_view(records@), name@),
{
    let mut out: Vec<Record> = Vec::new();
    let mut i: usize = 0;
    while i < records.len()
        invariant
            i <= records.len(),
            out@.len() == i,
            forall|j: int| 0 <= j < i ==> #[trigger] out@[j]@ == records@[j]@.with_name(name@),
        decreases records.len() - i,
    {
        let mut synth = records[i].clone();
        synth.name = name.clone();
        out.push(synth);
        i = i + 1;
    }
    assert(records_view(out@) =~= renamed(records_view(records@), name@));
    out
}

fn resolve_exact(zone: &Zone, qname: &DnsName, qtype: RecordType) -> (r: AuthResponse)
    requires
        zone@.wf(),
    ensures
        r@ == spec_resolve_exact(zone@, qname@, qtype),
{
    if let Some(records) = zone.lookup_exact(qname, qtype) {
        let additional = collect_additional(zone, &records);
        return AuthResponse::noerror(records, authority_records(zone), additional);
    }
    if qtype != RecordType::CNAME {
        if let Some(cname_records) = zone.lookup_exact(qname, RecordType::CNAME) {
            return chase_cname(zone, qtype, cname_records);
        }
    }
    nodata_response(zone, qname)
}

fn resolve_wildcard(zone: &Zone, qname: &DnsName, qtype: RecordType, wild: &DnsName) -> (r:
    AuthResponse)
    requires
        zone@.wf(),
    ensures
        r@ == spec_resolve_wildcard(zone@, qname@, qtype, wild@),
{
    if let Some(records) = zone.lookup_exact(wild, qtype) {
        let synthesized = rename_all(&records, qname);
        let r = AuthResponse::noerror(synthesized, authority_records(zone), Vec::new());
        assert(r@.additional =~= Seq::<RecordV>::empty());
        return r;
    }
    if qtype != RecordType::CNAME {
        if let Some(cname_records) = zone.lookup_exact(wild, RecordType::CNAME) {
            let synthesized = rename_all(&cname_records, qname);
            let r = AuthResponse::noerror(synthesized, authority_records(zone), Vec::new());
            assert(r@.additional =~= Seq::<RecordV>::empty());
            return r;
        }
    }
    nodata_response(zone, qname)
}

/// Answer a query from a zone (RFC 1034 section 4.3.2): a referral at a
/// delegation below the origin, the records at the name (following CNAMEs
/// inside the zone), a wildcard answer, or NXDOMAIN.
pub fn resolve_query(zone: &Zone, qname: &DnsName, qtype: RecordType) -> (r: AuthResponse)
    requires
        zone@.wf(),
    ensures
        r@ == spec_resolve_query(zone@, qname@, qtype),
{
    if !qname.same_name(&zone.origin) {
        if let Some(delegation) = find_delegation_for(zone, qname) {
            return delegation;
        }
    }
    if zone.name_exists(qname) {
        return resolve_exact(zone, qname, qtype);
    }
    if let Some(wild) = zone.wildcard_name(qname) {
        return resolve_wildcard(zone, qname, qtype, &wild);
    }
    nxdomain_response(zone)
}

/// The name a record asks additional address records for: the exchange of
/// an MX record, the name server of an NS record, the target of an SRV record
/// (RFC 1035 sections 3.3.9 and 3.3.11, RFC 2782).
pub open spec fn additional_target(d: RDataV) -> Option<Seq<Seq<u8>>> {
    match d {
        RDataV::MX(_, t) => Some(t),
        RDataV::NS(t) => Some(t),
        RDataV::SRV(_, _, _, t) => Some(t),
        _ => None,
    }
}

/// The additional section of an answer holds every A and AAAA record the zone
/// has for the target of each NS, MX and SRV record among the answers, and
/// nothing but such records.
pub proof fn lemma_additional_holds_target_addresses(z: ZoneV, records: Seq<RecordV>)
    ensures
        forall|i: int, g: RecordV|
            0 <= i < records.len() && (#[trigger] additional_target(records[i].data)) is Some
                && (z.records_at(additional_target(records[i].data)->Some_0, RecordType::A).contains(g)
                    || z.records_at(additional_target(records[i].data)->Some_0, RecordType::AAAA).contains(g))
                ==> #[trigger] additional_for(z, records).contains(g),
        forall|g: RecordV| #[trigger] additional_for(z, records).contains(g) ==> exists|i: int|
            0 <= i < records.len() && (#[trigger] additional_target(records[i].data)) is Some
                && (z.records_at(additional_target(records[i].data)->Some_0, RecordType::A).contains(g)
                    || z.records_at(additional_target(records[i].data)->Some_0, RecordType::AAAA).contains(g)),
    decreases records.len(),
{
    if records.len() > 0 {
        let d = records.drop_last();
        let last = records.len() - 1;
        lemma_additional_holds_target_addresses(z, d);
        let rest = additional_for(z, d);
        let all = additional_for(z, records);
        assert forall|i: int, g: RecordV|
            0 <= i < records.len() && (#[trigger] additional_target(records[i].data)) is Some
                && (z.records_at(additional_target(records[i].data)->Some_0, RecordType::A).contains(g)
                    || z.records_at(additional_target(records[i].data)->Some_0, RecordType::AAAA).contains(g))
            implies #[trigger] all.contains(g) by {
            if i < last {
                assert(d[i] == records[i]);
                assert(rest.contains(g));
                let k = choose|k: int| 0 <= k < rest.len() && rest[k] == g;
                match records.last().data {
                    RDataV::MX(_, t) => { assert(all[k] == g); },
                    RDataV::NS(t) => { assert(all[k] == g); },
                    RDataV::SRV(_, _, _, t) => { assert(all[k] == g); },
                    _ => {},
                }
            } else {
                let t = additional_target(records[i].data)->Some_0;
                let gl = z.glue(t);
                assert(all == rest + gl);
                if z.records_at(t, RecordType::A).contains(g) {
                    let k = choose|k: int| 0 <= k < z.records_at(t, RecordType::A).len() && z.records_at(t, RecordType::A)[k] == g;
                    assert(gl[k] == g);
                    assert(all[rest.len() + k] == g);
                } else {
                    let k = choose|k: int| 0 <= k < z.records_at(t, RecordType::AAAA).len() && z.records_at(t, RecordType::AAAA)[k] == g;
                    assert(gl[z.records_at(t, RecordType::A).len() + k] == g);
                    assert(all[rest.len() + z.records_at(t, RecordType::A).len() + k] == g);
                }
            }
        }
        assert forall|g: RecordV| #[trigger] all.contains(g) implies exists|i: int|
            0 <= i < records.len() && (#[trigger] additional_target(records[i].data)) is Some
                && (z.records_at(additional_target(records[i].data)->Some_0, RecordType::A).contains(g)
                    || z.records_at(additional_target(records[i].data)->Some_0, RecordType::AAAA).contains(g)) by {
            let k = choose|k: int| 0 <= k < all.len() && all[k] == g;
            if additional_target(records.last().data) is Some && k >= rest.len() {
                let t = additional_target(records.last().data)->Some_0;
                let na = z.records_at(t, RecordType::A).len();
                assert(all == rest + z.glue(t));
                if k - rest.len() < na {
                    assert(z.records_at(t, RecordType::A)[k - rest.len()] == g);
                } else {
                    assert(z.records_at(t, RecordType::AAAA)[k - rest.len() - na] == g);
                }
                assert(additional_target(records[last].data) is Some);
            } else {
                if additional_target(records.last().data) is Some {
                    let t = additional_target(records.last().data)->Some_0;
                    assert(all == rest + z.glue(t));
                } else {
                    assert(all == rest);
                }
                assert(rest[k] == g);
                assert(rest.contains(g));
                let i = choose|i: int| 0 <= i < d.len() && (#[trigger] additional_target(d[i].data)) is Some
                    && (z.records_at(additional_target(d[i].data)->Some_0, RecordType::A).contains(g)
                        || z.records_at(additional_target(d[i].data)->Some_0, RecordType::AAAA).contains(g));
                assert(d[i] == records[i]);
            }
        }
    }
}

} // verus!
