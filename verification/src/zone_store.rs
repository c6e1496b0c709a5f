use crate::lookup::{resolve_query, spec_resolve_query};
use crate::name::{canon, DnsName};
use crate::negative::{AuthResponse, AuthV};
use crate::types::RecordType;
use crate::zone::{Zone, ZoneV};
use vstd::prelude::*;

verus! {

broadcast use vstd::seq_lib::group_filter_ensures;

/// The zones a server is authoritative for, at most one per origin.
pub struct ZoneStore {
    zones: Vec<Zone>,
}

/// The result of replacing every zone of a store.
#[derive(Debug)]
pub struct ReloadResult {
    pub zones_loaded: usize,
    pub errors: Vec<String>,
}

pub open spec fn zones_view(v: Seq<Zone>) -> Seq<ZoneV> {
    v.map_values(|z: Zone| z@)
}

/// Every zone is well formed and no two zones share an origin.
pub open spec fn store_wf(zs: Seq<ZoneV>) -> bool {
    &&& forall|i: int| 0 <= i < zs.len() ==> (#[trigger] zs[i]).wf()
    &&& forall|i: int, j: int|
        0 <= i < zs.len() && 0 <= j < zs.len() && i != j ==> canon(#[trigger] zs[i].origin) != canon(
            #[trigger] zs[j].origin,
        )
}

/// The zone whose origin is `name`, if there is one.
pub open spec fn spec_zone_at(zs: Seq<ZoneV>, name: Seq<Seq<u8>>) -> Option<ZoneV> {
    if exists|i: int| 0 <= i < zs.len() && canon(#[trigger] zs[i].origin) == canon(name) {
        Some(zs[choose|i: int| 0 <= i < zs.len() && canon(#[trigger] zs[i].origin) == canon(name)])
    } else {
        None
    }
}

/// The most specific zone for a name: the zone at the name itself or at its
/// closest ancestor that has one.
pub open spec fn spec_find_zone(zs: Seq<ZoneV>, name: Seq<Seq<u8>>) -> Option<ZoneV>
    decreases name.len(),
{
    if spec_zone_at(zs, name) is Some {
        spec_zone_at(zs, name)
    } else if name.len() == 0 {
        None
    } else {
        spec_find_zone(zs, name.drop_first())
    }
}

/// The authoritative answer for a query, from the most specific zone.
pub open spec fn spec_store_lookup(zs: Seq<ZoneV>, qname: Seq<Seq<u8>>, qtype: RecordType) -> Option<
    AuthV,
> {
    match spec_find_zone(zs, qname) {
        Some(z) => Some(spec_resolve_query(z, qname, qtype)),
        None => None,
    }
}

/// The store after putting in `z`, replacing a zone with the same origin.
pub open spec fn spec_swapped(zs: Seq<ZoneV>, z: ZoneV) -> Seq<ZoneV> {
    zs.filter(|x: ZoneV| canon(x.origin) != canon(z.origin)).push(z)
}

proof fn lemma_zone_at(zs: Seq<ZoneV>, i: int, name: Seq<Seq<u8>>)
    requires
        store_wf(zs),
        0 <= i < zs.len(),
        canon(zs[i].origin) == canon(name),
    ensures
        spec_zone_at(zs, name) == Some(zs[i]),
{
    let j = choose|j: int| 0 <= j < zs.len() && canon(#[trigger] zs[j].origin) == canon(name);
    if j != i {
        assert(canon(zs[j].origin) == canon(zs[i].origin));
    }
}

impl ZoneStore {
    pub closed spec fn spec_zones(&self) -> Seq<ZoneV> {
        zones_view(self.zones@)
    }

    pub closed spec fn wf(&self) -> bool {
        store_wf(self.spec_zones())
    }

    /// A store without zones.
    pub fn empty() -> (r: ZoneStore)
        ensures
            r.wf(),
            r.spec_zones() == Seq::<ZoneV>::empty(),
    {
        let r = ZoneStore { zones: Vec::new() };
        assert(r.spec_zones() =~= Seq::<ZoneV>::empty());
        r
    }

    /// A store of the given zones; a later zone replaces an earlier one with
    /// the same origin.
    pub fn new(zones: Vec<Zone>) -> (r: ZoneStore)
        requires
            forall|i: int| 0 <= i < zones@.len() ==> (#[trigger] zones@[i])@.wf(),
        ensures
            r.wf(),
            forall|i: int| 0 <= i < zones@.len() ==> #[trigger] spec_zone_at(r.spec_zones(), zones@[i]@.origin) is Some,
    {
        let mut store = ZoneStore::empty();
        let ghost input = zones_view(zones@);
        let mut work = zones;
        let mut k: usize = 0;
        let n = work.len();
        assert(input.subrange(0, n as int) =~= input);
        while work.len() > 0
            invariant
                store.wf(),
                zones_view(work@) == input.subrange(k as int, n as int),
                k <= n,
                n == input.len(),
                forall|i: int| 0 <= i < input.len() ==> (#[trigger] input[i]).wf(),
                forall|i: int| 0 <= i < k ==> #[trigger] spec_zone_at(store.spec_zones(), input[i].origin) is Some,
            decreases work.len(),
        {
            let ghost before = zones_view(work@);
            assert(before.len() == work@.len());
            let z = work.remove(0);
            assert(before[0] == z@);
            assert(input.subrange(k as int, n as int)[0] == input[k as int]);
            assert(zones_view(work@) =~= before.drop_first());
            assert(zones_view(work@) =~= input.subrange(k + 1, n as int));
            let ghost old_store = store.spec_zones();
            let ghost zv = z@;
            store.swap_zone(z);
            proof {
                let zs = store.spec_zones();
                let f = old_store.filter(|x: ZoneV| canon(x.origin) != canon(zv.origin));
                assert(zs == f.push(zv));
                assert forall|i: int| 0 <= i < k + 1 implies #[trigger] spec_zone_at(zs, input[i].origin) is Some by {
                    if canon(input[i].origin) == canon(zv.origin) {
                        assert(canon(zs[zs.len() - 1].origin) == canon(input[i].origin));
                    } else {
                        assert(spec_zone_at(old_store, input[i].origin) is Some);
                        let m = choose|m: int| 0 <= m < old_store.len() && canon(#[trigger] old_store[m].origin) == canon(input[i].origin);
                        old_store.lemma_filter_contains(|x: ZoneV| canon(x.origin) != canon(zv.origin), m);
                        assert(f.contains(old_store[m]));
                        let q = choose|q: int| 0 <= q < f.len() && f[q] == old_store[m];
                        assert(zs[q] == old_store[m]);
                        assert(canon(zs[q].origin) == canon(input[i].origin));
                    }
                }
            }
            k = k + 1;
        }
        assert(zones_view(work@).len() == work@.len());
        assert(k == n);
        assert forall|i: int| 0 <= i < zones@.len() implies #[trigger] spec_zone_at(store.spec_zones(), zones@[i]@.origin) is Some by {
            assert(input[i] == zones@[i]@);
        }
        store
    }

    /// The number of zones.
    pub fn zone_count(&self) -> (r: usize)
        ensures
            r == self.spec_zones().len(),
    {
        self.zones.len()
    }

    /// The origins of all zones.
    pub fn zone_names(&self) -> (r: Vec<DnsName>)
        ensures
            r@.len() == self.spec_zones().len(),
            forall|i: int| 0 <= i < r@.len() ==> (#[trigger] r@[i])@ == self.spec_zones()[i].origin,
    {
        let mut names: Vec<DnsName> = Vec::new();
        let mut i: usize = 0;
        while i < self.zones.len()
            invariant
                i <= self.zones.len(),
                names@.len() == i,
                forall|j: int| 0 <= j < i ==> (#[trigger] names@[j])@ == self.spec_zones()[j].origin,
            decreases self.zones.len() - i,
        {
            names.push(self.zones[i].origin.clone());
            i = i + 1;
        }
        names
    }

    fn index_at(&self, name: &DnsName) -> (r: Option<usize>)
        requires
            self.wf(),
        ensures
            r matches Some(i) ==> i < self.spec_zones().len() && spec_zone_at(self.spec_zones(), name@) == Some(self.spec_zones()[i as int]),
            r is None <==> spec_zone_at(self.spec_zones(), name@) is None,
    {
        let mut i: usize = 0;
        while i < self.zones.len()
            invariant
                self.wf(),
                i <= self.zones.len(),
                forall|k: int| 0 <= k < i ==> canon(#[trigger] self.spec_zones()[k].origin) != canon(name@),
            decreases self.zones.len() - i,
        {
            if self.zones[i].origin.same_name(name) {
                proof {
                    lemma_zone_at(self.spec_zones(), i as int, name@);
                }
                return Some(i);
            }
            i = i + 1;
        }
        None
    }

    /// The zone whose origin is `name`.
    pub fn get_zone(&self, name: &DnsName) -> (r: Option<&Zone>)
        requires
            self.wf(),
        ensures
            r matches Some(z) ==> spec_zone_at(self.spec_zones(), name@) == Some(z@),
            r is None <==> spec_zone_at(self.spec_zones(), name@) is None,
    {
        match self.index_at(name) {
            Some(i) => Some(&self.zones[i]),
            None => None,
        }
    }

    /// The most specific zone for `qname`: the zone at `qname` or at its
    /// closest ancestor that has one.
    pub fn find_zone(&self, qname: &DnsName) -> (r: Option<&Zone>)
        requires
            self.wf(),
        ensures
            r matches Some(z) ==> spec_find_zone(self.spec_zones(), qname@) == Some(z@) && z@.wf(),
            r is None <==> spec_find_zone(self.spec_zones(), qname@) is None,
    {
        let mut current = qname.clone();
        loop
            invariant
                self.wf(),
                spec_find_zone(self.spec_zones(), qname@) == spec_find_zone(self.spec_zones(), current@),
            decreases current@.len(),
        {
            if let Some(i) = self.index_at(&current) {
                assert(self.spec_zones()[i as int].wf());
                return Some(&self.zones[i]);
            }
            match current.parent() {
                Some(p) => {
                    current = p;
                },
                None => {
                    return None;
                },
            }
        }
    }

    /// Whether some zone of the store covers `name`.
    pub fn is_authoritative_for(&self, name: &DnsName) -> (r: bool)
        requires
            self.wf(),
        ensures
            r == spec_find_zone(self.spec_zones(), name@) is Some,
    {
        self.find_zone(name).is_some()
    }

    /// The authoritative answer for a query from the most specific zone, or
    /// `None` when no zone covers the name.
    pub fn lookup(&self, qname: &DnsName, qtype: RecordType) -> (r: Option<AuthResponse>)
        requires
            self.wf(),
        ensures
            r matches Some(a) ==> spec_store_lookup(self.spec_zones(), qname@, qtype) == Some(a@),
            r is None <==> spec_store_lookup(self.spec_zones(), qname@, qtype) is None,
    {
        match self.find_zone(qname) {
            Some(zone) => Some(resolve_query(zone, qname, qtype)),
            None => None,
        }
    }

    /// Put in a zone, replacing the zone with the same origin if there is one.
    pub fn swap_zone(&mut self, zone: Zone)
        requires
            old(self).wf(),
            zone@.wf(),
        ensures
            final(self).wf(),
            final(self).spec_zones() == spec_swapped(old(self).spec_zones(), zone@),
    {
        let ghost old_zs = self.spec_zones();
        let ghost zv = zone@;
        let mut kept: Vec<Zone> = Vec::new();
        let mut i: usize = 0;
        while i < self.zones.len()
            invariant
                i <= self.zones.len(),
                old_zs == zones_view(self.zones@),
                zones_view(kept@) == old_zs.subrange(0, i as int).filter(|x: ZoneV| canon(x.origin) != canon(zv.origin)),
                zv == zone@,
            decreases self.zones.len() - i,
        {
            let ghost prefix = old_zs.subrange(0, i as int);
            assert(old_zs.subrange(0, i + 1) =~= prefix.push(old_zs[i as int]));
            reveal_with_fuel(Seq::filter, 1);
            assert(prefix.push(old_zs[i as int]).drop_last() =~= prefix);
            if !self.zones[i].origin.same_name(&zone.origin) {
                let ghost before = zones_view(kept@);
                kept.push(self.zones[i].clone());
                assert(zones_view(kept@) =~= before.push(old_zs[i as int]));
            }
            i = i + 1;
        }
        assert(old_zs.subrange(0, self.zones.len() as int) =~= old_zs);
        let ghost f = zones_view(kept@);
        kept.push(zone);
        self.zones = kept;
        proof {
            let zs = self.spec_zones();
            assert(zs =~= f.push(zv));
            assert(spec_swapped(old_zs, zv) == f.push(zv));
            assert forall|a: int| 0 <= a < zs.len() implies (#[trigger] zs[a]).wf() by {
                if a < f.len() {
                    assert(f.contains(zs[a]));
                    old_zs.lemma_filter_contains_rev(|x: ZoneV| canon(x.origin) != canon(zv.origin), zs[a]);
                }
            }
            assert forall|a: int, b: int| 0 <= a < zs.len() && 0 <= b < zs.len() && a != b implies canon(#[trigger] zs[a].origin) != canon(#[trigger] zs[b].origin) by {
                lemma_filter_distinct(old_zs, zv.origin);
                if a < f.len() && b < f.len() {
                } else if a < f.len() {
                    assert(f.contains(zs[a]));
                    old_zs.lemma_filter_contains_rev(|x: ZoneV| canon(x.origin) != canon(zv.origin), zs[a]);
                } else {
                    assert(f.contains(zs[b]));
                    old_zs.lemma_filter_contains_rev(|x: ZoneV| canon(x.origin) != canon(zv.origin), zs[b]);
                }
            }
        }
    }

    /// Replace all zones at once.
    pub fn reload_all(&mut self, zones: Vec<Zone>) -> (r: ReloadResult)
        requires
            forall|i: int| 0 <= i < zones@.len() ==> (#[trigger] zones@[i])@.wf(),
        ensures
            final(self).wf(),
            forall|i: int| 0 <= i < zones@.len() ==> #[trigger] spec_zone_at(final(self).spec_zones(), zones@[i]@.origin) is Some,
            r.zones_loaded == final(self).spec_zones().len(),
            r.errors@.len() == 0,
    {
        let fresh = ZoneStore::new(zones);
        *self = fresh;
        ReloadResult { zones_loaded: self.zones.len(), errors: Vec::new() }
    }
}

/// Keeping only the zones whose origin differs from `o` keeps origins distinct
/// and leaves none with origin `o`.
proof fn lemma_filter_distinct(zs: Seq<ZoneV>, o: Seq<Seq<u8>>)
    requires
        store_wf(zs),
    ensures
        ({
            let f = zs.filter(|x: ZoneV| canon(x.origin) != canon(o));
            &&& forall|a: int| 0 <= a < f.len() ==> canon(#[trigger] f[a].origin) != canon(o)
            &&& forall|a: int, b: int|
                0 <= a < f.len() && 0 <= b < f.len() && a != b ==> canon(#[trigger] f[a].origin)
                    != canon(#[trigger] f[b].origin)
        }),
    decreases zs.len(),
{
    let p = |x: ZoneV| canon(x.origin) != canon(o);
    let f = zs.filter(p);
    reveal_with_fuel(Seq::filter, 1);
    if zs.len() > 0 {
        let init = zs.drop_last();
        assert(store_wf(init)) by {
            assert forall|a: int, b: int|
                0 <= a < init.len() && 0 <= b < init.len() && a != b implies canon(#[trigger] init[a].origin)
                != canon(#[trigger] init[b].origin) by {
                assert(canon(zs[a].origin) != canon(zs[b].origin));
            }
        }
        lemma_filter_distinct(init, o);
        let fi = init.filter(p);
        assert forall|a: int| 0 <= a < f.len() implies canon(#[trigger] f[a].origin) != canon(o) by {
            zs.lemma_filter_contains_rev(p, f[a]);
            assert(f.contains(f[a]));
        }
        if p(zs.last()) {
            assert(f == fi.push(zs.last()));
            assert forall|a: int, b: int|
                0 <= a < f.len() && 0 <= b < f.len() && a != b implies canon(#[trigger] f[a].origin)
                != canon(#[trigger] f[b].origin) by {
                if a < fi.len() && b < fi.len() {
                } else {
                    let c = if a < fi.len() { a } else { b };
                    if c < fi.len() {
                        assert(fi.contains(fi[c]));
                        init.lemma_filter_contains_rev(p, fi[c]);
                        let m = choose|m: int| 0 <= m < init.len() && init[m] == fi[c];
                        assert(canon(zs[m].origin) != canon(zs[zs.len() - 1].origin));
                    }
                }
            }
        } else {
            assert(f == fi);
        }
    }
}

proof fn lemma_filter_origin_len(zs: Seq<ZoneV>, o: Seq<Seq<u8>>)
    requires
        store_wf(zs),
    ensures
        zs.filter(|x: ZoneV| canon(x.origin) != canon(o)).len() + (if spec_zone_at(zs, o) is Some { 1int } else { 0int }) == zs.len(),
    decreases zs.len(),
{
    let p = |x: ZoneV| canon(x.origin) != canon(o);
    if zs.len() > 0 {
        let d = zs.drop_last();
        assert(store_wf(d)) by {
            assert forall|i: int| 0 <= i < d.len() implies (#[trigger] d[i]).wf() by {
                assert(d[i] == zs[i]);
            }
            assert forall|i: int, j: int| 0 <= i < d.len() && 0 <= j < d.len() && i != j implies canon(#[trigger] d[i].origin) != canon(#[trigger] d[j].origin) by {
                assert(d[i] == zs[i] && d[j] == zs[j]);
            }
        }
        lemma_filter_origin_len(d, o);
        reveal_with_fuel(Seq::filter, 1);
        assert(zs.filter(p) == (if p(zs.last()) { d.filter(p).push(zs.last()) } else { d.filter(p) }));
        let last = zs.len() - 1;
        if canon(zs[last].origin) == canon(o) {
            lemma_zone_at(zs, last, o);
            if exists|i: int| 0 <= i < d.len() && canon(#[trigger] d[i].origin) == canon(o) {
                let i = choose|i: int| 0 <= i < d.len() && canon(#[trigger] d[i].origin) == canon(o);
                assert(d[i] == zs[i]);
            }
        } else {
            if exists|i: int| 0 <= i < d.len() && canon(#[trigger] d[i].origin) == canon(o) {
                let i = choose|i: int| 0 <= i < d.len() && canon(#[trigger] d[i].origin) == canon(o);
                assert(d[i] == zs[i]);
                lemma_zone_at(zs, i, o);
            }
            if exists|i: int| 0 <= i < zs.len() && canon(#[trigger] zs[i].origin) == canon(o) {
                let i = choose|i: int| 0 <= i < zs.len() && canon(#[trigger] zs[i].origin) == canon(o);
                assert(i != last);
                assert(d[i] == zs[i]);
            }
        }
    }
}

/// A zone swapped into the store is what the store then holds at its origin;
/// the zones at every other origin are unchanged; the store holds one zone
/// more exactly when it held none at that origin.
pub proof fn lemma_swap_then_get(zs: Seq<ZoneV>, z: ZoneV, name: Seq<Seq<u8>>)
    requires
        store_wf(zs),
        z.wf(),
    ensures
        spec_zone_at(spec_swapped(zs, z), z.origin) == Some(z),
        canon(name) != canon(z.origin) ==> spec_zone_at(spec_swapped(zs, z), name) == spec_zone_at(zs, name),
        spec_swapped(zs, z).len() == zs.len() + (if spec_zone_at(zs, z.origin) is Some { 0int } else { 1int }),
{
    lemma_filter_origin_len(zs, z.origin);
    let p = |x: ZoneV| canon(x.origin) != canon(z.origin);
    let f = zs.filter(p);
    let s2 = f.push(z);
    lemma_filter_distinct(zs, z.origin);
    assert(store_wf(s2)) by {
        assert forall|a: int| 0 <= a < s2.len() implies (#[trigger] s2[a]).wf() by {
            if a < f.len() {
                assert(f.contains(s2[a]));
                zs.lemma_filter_contains_rev(p, s2[a]);
            }
        }
        assert forall|a: int, b: int| 0 <= a < s2.len() && 0 <= b < s2.len() && a != b implies canon(#[trigger] s2[a].origin) != canon(#[trigger] s2[b].origin) by {
        }
    }
    lemma_zone_at(s2, s2.len() - 1, z.origin);
    if canon(name) != canon(z.origin) {
        if exists|i: int| 0 <= i < zs.len() && canon(#[trigger] zs[i].origin) == canon(name) {
            let i = choose|i: int| 0 <= i < zs.len() && canon(#[trigger] zs[i].origin) == canon(name);
            zs.lemma_filter_contains(p, i);
            let j = choose|j: int| 0 <= j < f.len() && f[j] == zs[i];
            lemma_zone_at(zs, i, name);
            lemma_zone_at(s2, j, name);
        } else {
            if exists|j: int| 0 <= j < s2.len() && canon(#[trigger] s2[j].origin) == canon(name) {
                let j = choose|j: int| 0 <= j < s2.len() && canon(#[trigger] s2[j].origin) == canon(name);
                assert(j < f.len());
                assert(f.contains(s2[j]));
                zs.lemma_filter_contains_rev(p, s2[j]);
            }
        }
    }
}

} // verus!
