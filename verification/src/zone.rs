use crate::name::{canon, spec_is_subdomain, is_subdomain, DnsName};
use crate::types::{copy_records, extend_records, records_view, RDataV, Record, RecordData, RecordType, RecordV};
use vstd::prelude::*;

verus! {

/// The records of one type at one owner name.
#[derive(Debug)]
pub struct RRset {
    pub name: DnsName,
    pub rtype: RecordType,
    pub records: Vec<Record>,
}

pub struct RRsetV {
    pub name: Seq<Seq<u8>>,
    pub rtype: RecordType,
    pub records: Seq<RecordV>,
}

impl View for RRset {
    type V = RRsetV;

    open spec fn view(&self) -> RRsetV {
        RRsetV { name: self.name@, rtype: self.rtype, records: records_view(self.records@) }
    }
}

impl Clone for RRset {
    fn clone(&self) -> (r: Self)
        ensures
            r@ == self@,
    {
        RRset { name: self.name.clone(), rtype: self.rtype, records: copy_records(&self.records) }
    }
}

pub open spec fn rrsets_view(v: Seq<RRset>) -> Seq<RRsetV> {
    v.map_values(|s: RRset| s@)
}

/// A copy of a list of RRsets.
pub fn copy_rrsets(v: &Vec<RRset>) -> (r: Vec<RRset>)
    ensures
        rrsets_view(r@) == rrsets_view(v@),
{
    let mut r: Vec<RRset> = Vec::new();
    let mut i: usize = 0;
    while i < v.len()
        invariant
            i <= v.len(),
            r@.len() == i,
            forall|j: int| 0 <= j < i ==> #[trigger] r@[j]@ == v@[j]@,
        decreases v.len() - i,
    {
        r.push(v[i].clone());
        i = i + 1;
    }
    assert(rrsets_view(r@) =~= rrsets_view(v@));
    r
}

/// An RRset is the one for the given owner name (ASCII case ignored) and type.
pub open spec fn key_matches(s: RRsetV, name: Seq<Seq<u8>>, rtype: RecordType) -> bool {
    canon(s.name) == canon(name) && s.rtype == rtype
}

/// No two RRsets share an owner name and a type.
pub open spec fn keys_unique(sets: Seq<RRsetV>) -> bool {
    forall|i: int, j: int|
        0 <= i < sets.len() && 0 <= j < sets.len() && i != j ==> !key_matches(
            #[trigger] sets[i],
            sets[j].name,
            #[trigger] sets[j].rtype,
        )
}

/// The records at `name` of type `rtype`, if there is an RRset for them.
pub open spec fn spec_lookup(sets: Seq<RRsetV>, name: Seq<Seq<u8>>, rtype: RecordType) -> Option<
    Seq<RecordV>,
> {
    if exists|i: int| 0 <= i < sets.len() && key_matches(#[trigger] sets[i], name, rtype) {
        let i = choose|i: int| 0 <= i < sets.len() && key_matches(#[trigger] sets[i], name, rtype);
        Some(sets[i].records)
    } else {
        None
    }
}

/// Some RRset has `name` as its owner (ASCII case ignored).
pub open spec fn spec_name_exists(sets: Seq<RRsetV>, name: Seq<Seq<u8>>) -> bool {
    exists|i: int| 0 <= i < sets.len() && canon(#[trigger] sets[i].name) == canon(name)
}

/// The RRsets at `name`, in the order the zone holds them.
pub open spec fn spec_rrsets_at(sets: Seq<RRsetV>, name: Seq<Seq<u8>>) -> Seq<RRsetV> {
    sets.filter(|s: RRsetV| canon(s.name) == canon(name))
}

/// A DNS zone: its origin (apex), its SOA record and all its records, grouped
/// into RRsets by owner name and type.
#[derive(Debug)]
pub struct Zone {
    pub origin: DnsName,
    pub soa: Record,
    pub records: Vec<RRset>,
}

pub struct ZoneV {
    pub origin: Seq<Seq<u8>>,
    pub soa: RecordV,
    pub rrsets: Seq<RRsetV>,
}

impl View for Zone {
    type V = ZoneV;

    open spec fn view(&self) -> ZoneV {
        ZoneV { origin: self.origin@, soa: self.soa@, rrsets: rrsets_view(self.records@) }
    }
}

impl Clone for Zone {
    fn clone(&self) -> (r: Self)
        ensures
            r@ == self@,
    {
        Zone { origin: self.origin.clone(), soa: self.soa.clone(), records: copy_rrsets(&self.records) }
    }
}

impl ZoneV {
    pub open spec fn wf(self) -> bool {
        keys_unique(self.rrsets)
    }

    pub open spec fn lookup(self, name: Seq<Seq<u8>>, rtype: RecordType) -> Option<Seq<RecordV>> {
        spec_lookup(self.rrsets, name, rtype)
    }

    pub open spec fn name_exists(self, name: Seq<Seq<u8>>) -> bool {
        spec_name_exists(self.rrsets, name)
    }

    /// The records `lookup` gives, or none.
    pub open spec fn records_at(self, name: Seq<Seq<u8>>, rtype: RecordType) -> Seq<RecordV> {
        match self.lookup(name, rtype) {
            Some(r) => r,
            None => Seq::empty(),
        }
    }

    /// A/AAAA records at a name: the address ("glue") records this zone holds for it.
    pub open spec fn glue(self, name: Seq<Seq<u8>>) -> Seq<RecordV> {
        self.records_at(name, RecordType::A) + self.records_at(name, RecordType::AAAA)
    }

    /// The NS records at the apex, if any.
    pub open spec fn apex_ns(self) -> Option<Seq<RecordV>> {
        self.lookup(self.origin, RecordType::NS)
    }

    /// Walking up from `cur` (inclusive), the first name that has NS records,
    /// stopping before the origin and at the root: the owner name stored in
    /// the zone and the NS records.
    pub open spec fn delegation_from(self, cur: Seq<Seq<u8>>) -> Option<
        (Seq<Seq<u8>>, Seq<RecordV>),
    >
        decreases cur.len(),
    {
        if canon(cur) == canon(self.origin) {
            None
        } else if self.lookup(cur, RecordType::NS) is Some {
            let i = choose|i: int|
                0 <= i < self.rrsets.len() && key_matches(
                    #[trigger] self.rrsets[i],
                    cur,
                    RecordType::NS,
                );
            Some((self.rrsets[i].name, self.rrsets[i].records))
        } else if cur.len() == 0 {
            None
        } else {
            self.delegation_from(cur.drop_first())
        }
    }

    /// The delegation point for `qname`: the closest strict ancestor of
    /// `qname` below the origin that has NS records.
    pub open spec fn find_delegation(self, qname: Seq<Seq<u8>>) -> Option<
        (Seq<Seq<u8>>, Seq<RecordV>),
    > {
        if canon(qname) == canon(self.origin) || qname.len() == 0 {
            None
        } else {
            self.delegation_from(qname.drop_first())
        }
    }

    /// Walking up from `cur` (exclusive), the wildcard name `*.p` for the
    /// first ancestor `p` at which the zone holds a wildcard, without going
    /// above the origin (RFC 4592).
    pub open spec fn wildcard_from(self, cur: Seq<Seq<u8>>) -> Option<Seq<Seq<u8>>>
        decreases cur.len(),
    {
        if cur.len() == 0 {
            None
        } else {
            let p = cur.drop_first();
            let w = seq![seq![42u8]] + p;
            if !spec_is_subdomain(p, self.origin) && canon(p) != canon(self.origin) {
                None
            } else if self.name_exists(w) {
                Some(w)
            } else if canon(p) == canon(self.origin) {
                None
            } else {
                self.wildcard_from(p)
            }
        }
    }

    /// The number of records in the zone.
    pub open spec fn record_count(self) -> nat {
        count_records(self.rrsets)
    }

    /// The SOA serial, 0 when the SOA record holds no SOA data.
    pub open spec fn serial(self) -> u32 {
        match self.soa.data {
            RDataV::SOA(_, _, serial, _, _, _, _) => serial,
            _ => 0,
        }
    }
}

pub open spec fn count_records(sets: Seq<RRsetV>) -> nat
    decreases sets.len(),
{
    if sets.len() == 0 {
        0
    } else {
        count_records(sets.drop_last()) + sets.last().records.len()
    }
}

/// With unique keys, the RRset at a matching index is the one `spec_lookup` gives.
pub proof fn lemma_lookup_at(sets: Seq<RRsetV>, i: int, name: Seq<Seq<u8>>, rtype: RecordType)
    requires
        keys_unique(sets),
        0 <= i < sets.len(),
        key_matches(sets[i], name, rtype),
    ensures
        spec_lookup(sets, name, rtype) == Some(sets[i].records),
{
    let j = choose|j: int| 0 <= j < sets.len() && key_matches(#[trigger] sets[j], name, rtype);
    if j != i {
        assert(key_matches(sets[j], sets[i].name, sets[i].rtype));
    }
}

impl Zone {
    /// A zone holding only its SOA record, stored at the origin under type SOA.
    pub fn new(origin: DnsName, soa: Record) -> (r: Zone)
        ensures
            r@.wf(),
            r@.origin == origin@,
            r@.soa == soa@,
            r@.rrsets == seq![RRsetV { name: origin@, rtype: RecordType::SOA, records: seq![soa@] }],
    {
        let mut recs: Vec<Record> = Vec::new();
        recs.push(soa.clone());
        let set = RRset { name: origin.clone(), rtype: RecordType::SOA, records: recs };
        let mut records: Vec<RRset> = Vec::new();
        records.push(set);
        let r = Zone { origin, soa, records };
        assert(records_view(r.records@[0].records@) =~= seq![soa@]);
        assert(r@.rrsets =~= seq![
            RRsetV { name: r.origin@, rtype: RecordType::SOA, records: seq![soa@] },
        ]);
        r
    }

    /// The index of the RRset for `name` and `rtype`, if there is one.
    pub fn index_of(&self, name: &DnsName, rtype: RecordType) -> (r: Option<usize>)
        ensures
            r matches Some(i) ==> i < self@.rrsets.len() && key_matches(
                self@.rrsets[i as int],
                name@,
                rtype,
            ),
            r is None ==> forall|i: int|
                0 <= i < self@.rrsets.len() ==> !key_matches(#[trigger] self@.rrsets[i], name@, rtype),
    {
        let mut i: usize = 0;
        while i < self.records.len()
            invariant
                i <= self.records.len(),
                forall|k: int| 0 <= k < i ==> !key_matches(#[trigger] self@.rrsets[k], name@, rtype),
            decreases self.records.len() - i,
        {
            if self.records[i].rtype == rtype && self.records[i].name.same_name(name) {
                return Some(i);
            }
            i = i + 1;
        }
        None
    }

    /// Add a record to the RRset of its owner name and type, creating the
    /// RRset when there is none.
    pub fn add_record(&mut self, record: Record)
        requires
            old(self)@.wf(),
        ensures
            final(self)@.wf(),
            final(self)@.origin == old(self)@.origin,
            final(self)@.soa == old(self)@.soa,
            final(self)@.lookup(record@.name, record@.rtype()) == Some(
                old(self)@.records_at(record@.name, record@.rtype()).push(record@),
            ),
            forall|n: Seq<Seq<u8>>, t: RecordType|
                !(canon(n) == canon(record@.name) && t == record@.rtype()) ==> #[trigger] final(self)@.lookup(n, t) == old(self)@.lookup(n, t),
            forall|n: Seq<Seq<u8>>| #[trigger]
                final(self)@.name_exists(n) == (old(self)@.name_exists(n) || canon(n) == canon(
                    record@.name,
                )),
    {
        let rtype = record.record_type();
        let ghost old_sets = self@.rrsets;
        let ghost rv = record@;
        match self.index_of(&record.name, rtype) {
            Some(i) => {
                proof {
                    lemma_lookup_at(old_sets, i as int, rv.name, rtype);
                }
                let mut set = self.records.remove(i);
                let ghost mid = rrsets_view(self.records@);
                assert(mid =~= old_sets.remove(i as int));
                let ghost set_old = set@;
                set.records.push(record);
                assert(records_view(set.records@) =~= set_old.records.push(rv));
                let ghost set_new = set@;
                self.records.insert(i, set);
                proof {
                    let sets = self@.rrsets;
                    assert(sets =~= mid.insert(i as int, set_new));
                    assert(sets =~= old_sets.update(i as int, RRsetV { records: set_old.records.push(rv), ..set_old }));
                    assert(records_view(self.records@[i as int].records@) =~= set_old.records.push(rv));
                    assert(keys_unique(sets)) by {
                        assert forall|a: int, b: int|
                            0 <= a < sets.len() && 0 <= b < sets.len() && a != b implies !key_matches(
                            #[trigger] sets[a],
                            sets[b].name,
                            #[trigger] sets[b].rtype,
                        ) by {
                            assert(!key_matches(old_sets[a], old_sets[b].name, old_sets[b].rtype));
                        }
                    }
                    lemma_lookup_at(sets, i as int, rv.name, rtype);
                    assert forall|n: Seq<Seq<u8>>, t: RecordType|
                        !(canon(n) == canon(rv.name) && t == rtype) implies #[trigger] spec_lookup(
                        sets,
                        n,
                        t,
                    ) == spec_lookup(old_sets, n, t) by {
                        if exists|k: int| 0 <= k < old_sets.len() && key_matches(#[trigger] old_sets[k], n, t) {
                            let k = choose|k: int| 0 <= k < old_sets.len() && key_matches(#[trigger] old_sets[k], n, t);
                            lemma_lookup_at(old_sets, k, n, t);
                            assert(k != i);
                            lemma_lookup_at(sets, k, n, t);
                        } else {
                            assert forall|k: int| 0 <= k < sets.len() implies !key_matches(#[trigger] sets[k], n, t) by {
                                assert(!key_matches(old_sets[k], n, t));
                            }
                        }
                    }
                    assert forall|n: Seq<Seq<u8>>| #[trigger] spec_name_exists(sets, n) == (spec_name_exists(old_sets, n) || canon(n) == canon(rv.name)) by {
                        if spec_name_exists(sets, n) {
                            let k = choose|k: int| 0 <= k < sets.len() && canon(#[trigger] sets[k].name) == canon(n);
                            assert(canon(old_sets[k].name) == canon(n));
                        }
                        if canon(n) == canon(rv.name) {
                            assert(canon(old_sets[i as int].name) == canon(n));
                        }
                        if spec_name_exists(old_sets, n) {
                            let k = choose|k: int| 0 <= k < old_sets.len() && canon(#[trigger] old_sets[k].name) == canon(n);
                            assert(canon(sets[k].name) == canon(n));
                        }
                    }
                }
            },
            None => {
                let mut recs: Vec<Record> = Vec::new();
                let name = record.name.clone();
                recs.push(record);
                let set = RRset { name, rtype, records: recs };
                proof {
                    assert(records_view(set.records@) =~= seq![rv]);
                }
                self.records.push(set);
                proof {
                    let sets = self@.rrsets;
                    let n0 = old_sets.len() as int;
                    assert(sets =~= old_sets.push(set@));
                    assert(keys_unique(sets)) by {
                        assert forall|a: int, b: int|
                            0 <= a < sets.len() && 0 <= b < sets.len() && a != b implies !key_matches(
                            #[trigger] sets[a],
                            sets[b].name,
                            #[trigger] sets[b].rtype,
                        ) by {
                            if a < n0 && b < n0 {
                                assert(!key_matches(old_sets[a], old_sets[b].name, old_sets[b].rtype));
                            } else if a == n0 {
                                assert(!key_matches(old_sets[b], rv.name, rtype));
                            } else {
                                assert(!key_matches(old_sets[a], rv.name, rtype));
                            }
                        }
                    }
                    lemma_lookup_at(sets, n0, rv.name, rtype);
                    assert(old_sets.len() == self@.rrsets.len() - 1);
                    assert(spec_lookup(old_sets, rv.name, rtype) is None);
                    assert(Seq::<RecordV>::empty().push(rv) =~= seq![rv]);
                    assert forall|n: Seq<Seq<u8>>, t: RecordType|
                        !(canon(n) == canon(rv.name) && t == rtype) implies #[trigger] spec_lookup(
                        sets,
                        n,
                        t,
                    ) == spec_lookup(old_sets, n, t) by {
                        assert(!key_matches(sets[n0], n, t));
                        if exists|k: int| 0 <= k < old_sets.len() && key_matches(#[trigger] old_sets[k], n, t) {
                            let k = choose|k: int| 0 <= k < old_sets.len() && key_matches(#[trigger] old_sets[k], n, t);
                            lemma_lookup_at(old_sets, k, n, t);
                            lemma_lookup_at(sets, k, n, t);
                        } else {
                            assert forall|k: int| 0 <= k < sets.len() implies !key_matches(#[trigger] sets[k], n, t) by {
                                if k < n0 {
                                    assert(!key_matches(old_sets[k], n, t));
                                }
                            }
                        }
                    }
                    assert forall|n: Seq<Seq<u8>>| #[trigger] spec_name_exists(sets, n) == (spec_name_exists(old_sets, n) || canon(n) == canon(rv.name)) by {
                        if spec_name_exists(sets, n) {
                            let k = choose|k: int| 0 <= k < sets.len() && canon(#[trigger] sets[k].name) == canon(n);
                            if k < n0 {
                                assert(canon(old_sets[k].name) == canon(n));
                            }
                        }
                        if canon(n) == canon(rv.name) {
                            assert(canon(sets[n0].name) == canon(n));
                        }
                        if spec_name_exists(old_sets, n) {
                            let k = choose|k: int| 0 <= k < old_sets.len() && canon(#[trigger] old_sets[k].name) == canon(n);
                            assert(canon(sets[k].name) == canon(n));
                        }
                    }
                }
            },
        }
    }

    /// The records at `name` of type `rtype` (a copy), if the zone has any.
    pub fn lookup_exact(&self, name: &DnsName, rtype: RecordType) -> (r: Option<Vec<Record>>)
        requires
            self@.wf(),
        ensures
            r matches Some(v) ==> self@.lookup(name@, rtype) == Some(records_view(v@)),
            r is None <==> self@.lookup(name@, rtype) is None,
    {
        match self.index_of(name, rtype) {
            Some(i) => {
                proof {
                    lemma_lookup_at(self@.rrsets, i as int, name@, rtype);
                }
                Some(copy_records(&self.records[i].records))
            },
            None => None,
        }
    }

    /// Whether any record has `name` as its owner.
    pub fn name_exists(&self, name: &DnsName) -> (r: bool)
        ensures
            r == self@.name_exists(name@),
    {
        let mut i: usize = 0;
        while i < self.records.len()
            invariant
                i <= self.records.len(),
                forall|k: int| 0 <= k < i ==> canon(#[trigger] self@.rrsets[k].name) != canon(name@),
            decreases self.records.len() - i,
        {
            if self.records[i].name.same_name(name) {
                assert(canon(self@.rrsets[i as int].name) == canon(name@));
                return true;
            }
            i = i + 1;
        }
        false
    }

    /// The RRsets at `name`, in the order the zone holds them.
    pub fn rrsets_at(&self, name: &DnsName) -> (r: Vec<RRset>)
        ensures
            rrsets_view(r@) == spec_rrsets_at(self@.rrsets, name@),
    {
        let mut r: Vec<RRset> = Vec::new();
        let mut i: usize = 0;
        while i < self.records.len()
            invariant
                i <= self.records.len(),
                rrsets_view(r@) == spec_rrsets_at(self@.rrsets.subrange(0, i as int), name@),
            decreases self.records.len() - i,
        {
            let ghost prefix = self@.rrsets.subrange(0, i as int);
            assert(self@.rrsets.subrange(0, i + 1) =~= prefix.push(self@.rrsets[i as int]));
            reveal_with_fuel(Seq::filter, 1);
            assert(prefix.push(self@.rrsets[i as int]).drop_last() =~= prefix);
            if self.records[i].name.same_name(name) {
                let ghost before = rrsets_view(r@);
                r.push(self.records[i].clone());
                assert(rrsets_view(r@) =~= before.push(self@.rrsets[i as int]));
            }
            i = i + 1;
        }
        assert(self@.rrsets.subrange(0, self.records.len() as int) =~= self@.rrsets);
        r
    }

    /// The NS records at the zone apex.
    pub fn apex_ns(&self) -> (r: Option<Vec<Record>>)
        requires
            self@.wf(),
        ensures
            r matches Some(v) ==> self@.apex_ns() == Some(records_view(v@)),
            r is None <==> self@.apex_ns() is None,
    {
        self.lookup_exact(&self.origin, RecordType::NS)
    }

    /// The A and AAAA records the zone holds for `name`.
    pub fn glue_records(&self, name: &DnsName) -> (r: Vec<Record>)
        requires
            self@.wf(),
        ensures
            records_view(r@) == self@.glue(name@),
    {
        let mut glue: Vec<Record> = Vec::new();
        if let Some(a) = self.lookup_exact(name, RecordType::A) {
            extend_records(&mut glue, &a);
        }
        if let Some(aaaa) = self.lookup_exact(name, RecordType::AAAA) {
            extend_records(&mut glue, &aaaa);
        }
        assert(records_view(glue@) =~= self@.glue(name@));
        glue
    }

    /// The delegation point for `qname`: the closest ancestor of `qname`
    /// (not `qname` itself) strictly below the origin that has NS records,
    /// with those records.
    pub fn find_delegation(&self, qname: &DnsName) -> (r: Option<(DnsName, Vec<Record>)>)
        requires
            self@.wf(),
        ensures
            r matches Some((n, v)) ==> self@.find_delegation(qname@) == Some((n@, records_view(v@))),
            r is None <==> self@.find_delegation(qname@) is None,
    {
        if qname.same_name(&self.origin) {
            return None;
        }
        let mut check = match qname.parent() {
            Some(p) => p,
            None => return None,
        };
        loop
            invariant
                self@.wf(),
                self@.find_delegation(qname@) == self@.delegation_from(check@),
            decreases check@.len(),
        {
            if check.same_name(&self.origin) {
                return None;
            }
            match self.index_of(&check, RecordType::NS) {
                Some(i) => {
                    proof {
                        lemma_lookup_at(self@.rrsets, i as int, check@, RecordType::NS);
                        let k = choose|k: int|
                            0 <= k < self@.rrsets.len() && key_matches(
                                #[trigger] self@.rrsets[k],
                                check@,
                                RecordType::NS,
                            );
                        if k != i {
                            assert(key_matches(self@.rrsets[k], self@.rrsets[i as int].name, RecordType::NS));
                        }
                    }
                    let n = self.records[i].name.clone();
                    let v = copy_records(&self.records[i].records);
                    return Some((n, v));
                },
                None => {
                    assert(self@.lookup(check@, RecordType::NS) is None);
                },
            }
            match check.parent() {
                Some(p) => {
                    check = p;
                },
                None => {
                    return None;
                },
            }
        }
    }

    /// The wildcard owner name `*.p` that could answer for `qname`, for the
    /// closest ancestor `p` of `qname` (not above the origin) at which the
    /// zone holds a wildcard.
    pub fn wildcard_name(&self, qname: &DnsName) -> (r: Option<DnsName>)
        ensures
            r matches Some(w) ==> self@.wildcard_from(qname@) == Some(w@),
            r is None <==> self@.wildcard_from(qname@) is None,
    {
        let mut current = qname.clone();
        loop
            invariant
                self@.wildcard_from(qname@) == self@.wildcard_from(current@),
            decreases current@.len(),
        {
            let p = match current.parent() {
                Some(p) => p,
                None => return None,
            };
            let is_origin = p.same_name(&self.origin);
            if !is_subdomain(&p, &self.origin) && !is_origin {
                return None;
            }
            let w = p.wildcard_child();
            if self.name_exists(&w) {
                return Some(w);
            }
            if is_origin {
                return None;
            }
            current = p;
        }
    }

    /// The RRsets at the wildcard name that could answer for `qname` (see
    /// `wildcard_name`), if there is one.
    pub fn find_wildcard(&self, qname: &DnsName) -> (r: Option<Vec<RRset>>)
        ensures
            r matches Some(v) ==> (self@.wildcard_from(qname@) matches Some(w) && rrsets_view(v@)
                == spec_rrsets_at(self@.rrsets, w)),
            r is None <==> self@.wildcard_from(qname@) is None,
    {
        match self.wildcard_name(qname) {
            Some(w) => Some(self.rrsets_at(&w)),
            None => None,
        }
    }

    /// The number of records in the zone (saturating at `usize::MAX`).
    pub fn record_count(&self) -> (r: usize)
        ensures
            r == (if self@.record_count() <= usize::MAX {
                self@.record_count()
            } else {
                usize::MAX as nat
            }),
    {
        let mut total: usize = 0;
        let mut i: usize = 0;
        while i < self.records.len()
            invariant
                i <= self.records.len(),
                total == (if count_records(self@.rrsets.subrange(0, i as int)) <= usize::MAX {
                    count_records(self@.rrsets.subrange(0, i as int))
                } else {
                    usize::MAX as nat
                }),
            decreases self.records.len() - i,
        {
            assert(self@.rrsets.subrange(0, i + 1).drop_last() =~= self@.rrsets.subrange(0, i as int));
            total = total.saturating_add(self.records[i].records.len());
            i = i + 1;
        }
        assert(self@.rrsets.subrange(0, self.records.len() as int) =~= self@.rrsets);
        total
    }

    /// The SOA serial number (0 when the SOA record holds no SOA data).
    pub fn serial(&self) -> (r: u32)
        ensures
            r == self@.serial(),
    {
        match &self.soa.data {
            RecordData::SOA { serial, .. } => *serial,
            _ => 0,
        }
    }
}

} // verus!
