use crate::name::{
    canon, lemma_name_order_congruent, lemma_name_order_eq, lemma_name_order_trans, name_order,
    DnsName,
};
use crate::types::{records_view, type_code, RDataV, Record, RecordData, RecordType, RecordV};
use crate::zone::{rrsets_view, RRset, RRsetV};
use vstd::prelude::*;

verus! {

/// An owner name and the types of the RRsets it owns.
struct NameTypes {
    name: DnsName,
    types: Vec<RecordType>,
}

/// Record types sorted strictly increasing by their numeric code.
pub open spec fn types_sorted(t: Seq<RecordType>) -> bool {
    forall|i: int, j: int| 0 <= i < j < t.len() ==> type_code(#[trigger] t[i]) < type_code(#[trigger] t[j])
}

/// Some type in the list has code `c`.
pub open spec fn has_code(t: Seq<RecordType>, c: u16) -> bool {
    exists|i: int| 0 <= i < t.len() && type_code(#[trigger] t[i]) == c
}

/// The type codes an NSEC record at `name` lists: the type of every RRset the
/// zone has at the name, plus NSEC and RRSIG.
pub open spec fn nsec_code_at(sets: Seq<RRsetV>, name: Seq<Seq<u8>>, c: u16) -> bool {
    ||| c == 47
    ||| c == 46
    ||| exists|k: int| 0 <= k < sets.len() && canon(#[trigger] sets[k].name) == canon(name) && type_code(sets[k].rtype) == c
}

/// NSEC owner names strictly increasing in canonical order (RFC 4034 section 6.1).
pub open spec fn chain_sorted(out: Seq<RecordV>) -> bool {
    forall|i: int, j: int| 0 <= i < j < out.len() ==> name_order(#[trigger] out[i].name, #[trigger] out[j].name) == -1
}

/// Some record of `out` is owned by `name`, compared case-insensitively.
pub open spec fn has_owner(out: Seq<RecordV>, name: Seq<Seq<u8>>) -> bool {
    exists|i: int| 0 <= i < out.len() && canon(#[trigger] out[i].name) == canon(name)
}

/// Every owner name of the zone has an NSEC record.
pub open spec fn chain_covers(out: Seq<RecordV>, sets: Seq<RRsetV>) -> bool {
    forall|k: int| 0 <= k < sets.len() ==> has_owner(out, #[trigger] sets[k].name)
}

/// Every NSEC record is owned by an owner name of the zone.
pub open spec fn chain_owned(out: Seq<RecordV>, sets: Seq<RRsetV>) -> bool {
    forall|i: int| 0 <= i < out.len() ==> exists|k: int| 0 <= k < sets.len() && (#[trigger] out[i]).name == (#[trigger] sets[k]).name
}

/// Each NSEC record points to the next owner name (the last to the origin) and
/// lists the types at its owner name, plus NSEC and RRSIG, in increasing order.
pub open spec fn chain_links(out: Seq<RecordV>, sets: Seq<RRsetV>, origin: Seq<Seq<u8>>, ttl: u32) -> bool {
    forall|i: int| 0 <= i < out.len() ==> {
        &&& (#[trigger] out[i]).ttl == ttl
        &&& out[i].dns_class == 1
        &&& out[i].data matches RDataV::NSEC(next, types) && {
            &&& next == (if i + 1 < out.len() { out[i + 1].name } else { origin })
            &&& types_sorted(types)
            &&& forall|c: u16| has_code(types, c) <==> nsec_code_at(sets, out[i].name, c)
        }
    }
}

/// What `generate_nsec_chain` produces for `sets`: one NSEC record per owner
/// name, in strictly increasing canonical order; each points to the next owner
/// name, the last to the origin, and lists the types at its owner name (plus
/// NSEC and RRSIG) in increasing order.
pub open spec fn is_nsec_chain(out: Seq<RecordV>, sets: Seq<RRsetV>, origin: Seq<Seq<u8>>, ttl: u32) -> bool {
    &&& chain_sorted(out)
    &&& chain_covers(out, sets)
    &&& chain_owned(out, sets)
    &&& chain_links(out, sets, origin, ttl)
}

/// Insert a type into a list sorted by code, unless a type with that code is there.
fn insert_type(types: &mut Vec<RecordType>, t: RecordType)
    requires
        types_sorted(old(types)@),
    ensures
        types_sorted(final(types)@),
        forall|c: u16| has_code(final(types)@, c) <==> (has_code(old(types)@, c) || c == type_code(t)),
{
    let c = t.code();
    let mut pos: usize = 0;
    while pos < types.len() && types[pos].code() < c
        invariant
            pos <= types.len(),
            forall|j: int| 0 <= j < pos ==> type_code(#[trigger] types@[j]) < c,
        decreases types.len() - pos,
    {
        pos = pos + 1;
    }
    let ghost before = types@;
    if pos < types.len() && types[pos].code() == c {
        assert(type_code(before[pos as int]) == c);
        return;
    }
    types.insert(pos, t);
    assert(types@ =~= before.subrange(0, pos as int).push(t) + before.subrange(pos as int, before.len() as int));
    assert(types@[pos as int] == t);
    assert forall|a: int, b: int| 0 <= a < b < types@.len() implies type_code(#[trigger] types@[a]) < type_code(#[trigger] types@[b]) by {
        if b < pos {
        } else if b == pos {
            assert(type_code(before[a]) < c);
        } else if a > pos {
            assert(type_code(before[a - 1]) < type_code(before[b - 1]));
        } else if a == pos {
            assert(type_code(before[pos as int]) >= c);
            if b - 1 > pos {
                assert(type_code(before[pos as int]) < type_code(before[b - 1]));
            }
        } else {
            assert(type_code(before[a]) < c);
            assert(type_code(before[pos as int]) >= c);
            if b - 1 > pos {
                assert(type_code(before[pos as int]) < type_code(before[b - 1]));
            }
        }
    }
    assert forall|x: u16| has_code(types@, x) <==> (has_code(before, x) || x == c) by {
        if has_code(types@, x) {
            let i = choose|i: int| 0 <= i < types@.len() && type_code(#[trigger] types@[i]) == x;
            if i < pos {
                assert(type_code(before[i]) == x);
            } else if i > pos {
                assert(type_code(before[i - 1]) == x);
            }
        }
        if has_code(before, x) {
            let i = choose|i: int| 0 <= i < before.len() && type_code(#[trigger] before[i]) == x;
            if i < pos {
                assert(type_code(types@[i]) == x);
            } else {
                assert(type_code(types@[i + 1]) == x);
            }
        }
        if x == c {
            assert(type_code(types@[pos as int]) == x);
        }
    }
}

struct EntryV {
    name: Seq<Seq<u8>>,
    types: Seq<RecordType>,
}

impl View for NameTypes {
    type V = EntryV;

    closed spec fn view(&self) -> EntryV {
        EntryV { name: self.name@, types: self.types@ }
    }
}

spec fn entries_view(es: Seq<NameTypes>) -> Seq<EntryV> {
    es.map_values(|e: NameTypes| e@)
}

spec fn g_sorted(es: Seq<EntryV>) -> bool {
    forall|i: int, j: int| 0 <= i < j < es.len() ==> name_order(#[trigger] es[i].name, #[trigger] es[j].name) == -1
}

spec fn g_cover(es: Seq<EntryV>, rs: Seq<RRsetV>, k: int) -> bool {
    forall|m: int| 0 <= m < k ==> exists|i: int| 0 <= i < es.len() && canon(#[trigger] es[i].name) == canon(#[trigger] rs[m].name)
}

spec fn g_from(es: Seq<EntryV>, rs: Seq<RRsetV>, k: int) -> bool {
    forall|i: int| 0 <= i < es.len() ==> exists|m: int| 0 <= m < k && (#[trigger] es[i]).name == (#[trigger] rs[m]).name
}

spec fn g_types(es: Seq<EntryV>, rs: Seq<RRsetV>, k: int) -> bool {
    forall|i: int, t: RecordType| 0 <= i < es.len() ==> ((#[trigger] es[i].types.contains(t)) <==>
        exists|m: int| 0 <= m < k && canon(#[trigger] rs[m].name) == canon(es[i].name) && rs[m].rtype == t)
}

/// The invariant of grouping the first `k` RRsets by owner name: entries
/// strictly increasing in canonical order, every owner name among them, every
/// entry an owner name, and each entry's types those of its RRsets.
#[verifier::opaque]
spec fn grouped(es: Seq<EntryV>, rs: Seq<RRsetV>, k: int) -> bool {
    &&& g_sorted(es)
    &&& g_cover(es, rs, k)
    &&& g_from(es, rs, k)
    &&& g_types(es, rs, k)
}

/// In a sorted grouping, an entry that is the same name as `n` at `pos` is the only one.
proof fn lemma_sorted_other_differs(es: Seq<EntryV>, pos: int, n: Seq<Seq<u8>>, i: int)
    requires
        g_sorted(es),
        0 <= pos < es.len(),
        0 <= i < es.len(),
        i != pos,
        name_order(es[pos].name, n) == 0,
    ensures
        canon(n) != canon(es[i].name),
{
    lemma_name_order_eq(n, es[i].name);
    if i < pos {
        assert(name_order(es[i].name, es[pos].name) == -1);
        lemma_name_order_congruent(es[pos].name, n, es[i].name);
        lemma_name_order_eq(es[i].name, es[pos].name);
    } else {
        assert(name_order(es[pos].name, es[i].name) == -1);
        lemma_name_order_congruent(es[pos].name, n, es[i].name);
    }
}

proof fn lemma_merge_sorted(es: Seq<EntryV>, es2: Seq<EntryV>, pos: int, t: RecordType)
    requires
        g_sorted(es),
        0 <= pos < es.len(),
        es2 == es.update(pos, EntryV { name: es[pos].name, types: es[pos].types.push(t) }),
    ensures
        g_sorted(es2),
{
    assert forall|i: int, j: int| 0 <= i < j < es2.len() implies name_order(#[trigger] es2[i].name, #[trigger] es2[j].name) == -1 by {
        assert(name_order(es[i].name, es[j].name) == -1);
    }
}

proof fn lemma_merge_cover(es: Seq<EntryV>, es2: Seq<EntryV>, rs: Seq<RRsetV>, k: int, pos: int)
    requires
        0 <= k < rs.len(),
        g_cover(es, rs, k),
        0 <= pos < es.len(),
        canon(es[pos].name) == canon(rs[k].name),
        es2 == es.update(pos, EntryV { name: es[pos].name, types: es[pos].types.push(rs[k].rtype) }),
    ensures
        g_cover(es2, rs, k + 1),
        g_from(es, rs, k) ==> g_from(es2, rs, k + 1),
{
    assert forall|m: int| 0 <= m < k + 1 implies exists|i: int| 0 <= i < es2.len() && canon(#[trigger] es2[i].name) == canon(#[trigger] rs[m].name) by {
        if m < k {
            let i = choose|i: int| 0 <= i < es.len() && canon(#[trigger] es[i].name) == canon(rs[m].name);
            assert(es2[i].name == es[i].name);
        } else {
            assert(canon(es2[pos].name) == canon(rs[m].name));
        }
    }
    if g_from(es, rs, k) {
        assert forall|i: int| 0 <= i < es2.len() implies exists|m: int| 0 <= m < k + 1 && (#[trigger] es2[i]).name == (#[trigger] rs[m]).name by {
            let m = choose|m: int| 0 <= m < k && (#[trigger] es[i]).name == (#[trigger] rs[m]).name;
            assert(es2[i].name == rs[m].name);
        }
    }
}

proof fn lemma_merge_types(es: Seq<EntryV>, es2: Seq<EntryV>, rs: Seq<RRsetV>, k: int, pos: int)
    requires
        0 <= k < rs.len(),
        g_sorted(es),
        g_types(es, rs, k),
        0 <= pos < es.len(),
        name_order(es[pos].name, rs[k].name) == 0,
        canon(es[pos].name) == canon(rs[k].name),
        es2 == es.update(pos, EntryV { name: es[pos].name, types: es[pos].types.push(rs[k].rtype) }),
    ensures
        g_types(es2, rs, k + 1),
{
    assert forall|i: int, t: RecordType| 0 <= i < es2.len() implies ((#[trigger] es2[i].types.contains(t)) <==>
        exists|m: int| 0 <= m < k + 1 && canon(#[trigger] rs[m].name) == canon(es2[i].name) && rs[m].rtype == t) by {
        assert(es[i].types.contains(t) <==> exists|m: int| 0 <= m < k && canon(#[trigger] rs[m].name) == canon(es[i].name) && rs[m].rtype == t);
        if i == pos {
            let ts = es2[i].types;
            if ts.contains(t) {
                let q = choose|q: int| 0 <= q < ts.len() && ts[q] == t;
                if q < ts.len() - 1 {
                    assert(es[i].types[q] == t);
                    assert(es[i].types.contains(t));
                }
            }
            if exists|m: int| 0 <= m < k + 1 && canon(#[trigger] rs[m].name) == canon(es2[i].name) && rs[m].rtype == t {
                let m = choose|m: int| 0 <= m < k + 1 && canon(#[trigger] rs[m].name) == canon(es2[i].name) && rs[m].rtype == t;
                if m < k {
                    let q = choose|q: int| 0 <= q < es[i].types.len() && es[i].types[q] == t;
                    assert(ts[q] == t);
                } else {
                    assert(ts[ts.len() - 1] == t);
                }
            }
        } else {
            assert(es2[i] == es[i]);
            lemma_sorted_other_differs(es, pos, rs[k].name, i);
        }
    }
}

proof fn lemma_merge(es: Seq<EntryV>, es2: Seq<EntryV>, rs: Seq<RRsetV>, k: int, pos: int)
    requires
        0 <= k < rs.len(),
        grouped(es, rs, k),
        0 <= pos < es.len(),
        name_order(es[pos].name, rs[k].name) == 0,
        es2 == es.update(pos, EntryV { name: es[pos].name, types: es[pos].types.push(rs[k].rtype) }),
    ensures
        grouped(es2, rs, k + 1),
{
    reveal(grouped);
    lemma_name_order_eq(es[pos].name, rs[k].name);
    lemma_merge_sorted(es, es2, pos, rs[k].rtype);
    lemma_merge_cover(es, es2, rs, k, pos);
    lemma_merge_types(es, es2, rs, k, pos);
}

proof fn lemma_insert_sorted(es: Seq<EntryV>, es2: Seq<EntryV>, n: Seq<Seq<u8>>, pos: int, e: EntryV)
    requires
        g_sorted(es),
        0 <= pos <= es.len(),
        forall|j: int| 0 <= j < pos ==> name_order(#[trigger] es[j].name, n) == -1,
        pos < es.len() ==> name_order(n, es[pos].name) == -1,
        e.name == n,
        es2 == es.insert(pos, e),
    ensures
        g_sorted(es2),
{
    assert forall|i: int, j: int| 0 <= i < j < es2.len() implies name_order(#[trigger] es2[i].name, #[trigger] es2[j].name) == -1 by {
        if j < pos {
            assert(name_order(es[i].name, es[j].name) == -1);
        } else if j == pos {
            assert(name_order(es[i].name, n) == -1);
        } else if i > pos {
            assert(name_order(es[i - 1].name, es[j - 1].name) == -1);
        } else if i == pos {
            if j - 1 > pos {
                assert(name_order(es[pos].name, es[j - 1].name) == -1);
                lemma_name_order_trans(n, es[pos].name, es[j - 1].name);
            }
        } else {
            assert(name_order(es[i].name, n) == -1);
            if j - 1 > pos {
                assert(name_order(es[pos].name, es[j - 1].name) == -1);
                lemma_name_order_trans(n, es[pos].name, es[j - 1].name);
            }
            lemma_name_order_trans(es[i].name, n, es[j - 1].name);
        }
    }
}

proof fn lemma_insert_cover(es: Seq<EntryV>, es2: Seq<EntryV>, rs: Seq<RRsetV>, k: int, pos: int)
    requires
        0 <= k < rs.len(),
        g_cover(es, rs, k),
        g_from(es, rs, k),
        0 <= pos <= es.len(),
        es2 == es.insert(pos, EntryV { name: rs[k].name, types: seq![rs[k].rtype] }),
    ensures
        g_cover(es2, rs, k + 1),
        g_from(es2, rs, k + 1),
{
    assert(forall|i: int| 0 <= i < pos ==> es2[i] == es[i]);
    assert(forall|i: int| pos < i < es2.len() ==> es2[i] == es[i - 1]);
    assert forall|m: int| 0 <= m < k + 1 implies exists|i: int| 0 <= i < es2.len() && canon(#[trigger] es2[i].name) == canon(#[trigger] rs[m].name) by {
        if m < k {
            let i = choose|i: int| 0 <= i < es.len() && canon(#[trigger] es[i].name) == canon(rs[m].name);
            if i < pos {
                assert(es2[i] == es[i]);
            } else {
                assert(es2[i + 1] == es[i]);
            }
        } else {
            assert(es2[pos].name == rs[m].name);
        }
    }
    assert forall|i: int| 0 <= i < es2.len() implies exists|m: int| 0 <= m < k + 1 && (#[trigger] es2[i]).name == (#[trigger] rs[m]).name by {
        if i < pos {
            let m = choose|m: int| 0 <= m < k && (#[trigger] es[i]).name == (#[trigger] rs[m]).name;
        } else if i > pos {
            let m = choose|m: int| 0 <= m < k && (#[trigger] es[i - 1]).name == (#[trigger] rs[m]).name;
        } else {
            assert(es2[i].name == rs[k].name);
        }
    }
}

proof fn lemma_insert_types(es: Seq<EntryV>, es2: Seq<EntryV>, rs: Seq<RRsetV>, k: int, pos: int)
    requires
        0 <= k < rs.len(),
        g_sorted(es),
        g_cover(es, rs, k),
        g_types(es, rs, k),
        0 <= pos <= es.len(),
        forall|j: int| 0 <= j < pos ==> name_order(#[trigger] es[j].name, rs[k].name) == -1,
        pos < es.len() ==> name_order(es[pos].name, rs[k].name) == 1,
        es2 == es.insert(pos, EntryV { name: rs[k].name, types: seq![rs[k].rtype] }),
    ensures
        g_types(es2, rs, k + 1),
{
    let n = rs[k].name;
    if pos < es.len() {
        lemma_name_order_eq(es[pos].name, n);
    }
    assert forall|i: int, t: RecordType| 0 <= i < es2.len() implies ((#[trigger] es2[i].types.contains(t)) <==>
        exists|m: int| 0 <= m < k + 1 && canon(#[trigger] rs[m].name) == canon(es2[i].name) && rs[m].rtype == t) by {
        if i == pos {
            assert(es2[i].types == seq![rs[k].rtype]);
            if exists|m: int| 0 <= m < k + 1 && canon(#[trigger] rs[m].name) == canon(es2[i].name) && rs[m].rtype == t {
                let m = choose|m: int| 0 <= m < k + 1 && canon(#[trigger] rs[m].name) == canon(es2[i].name) && rs[m].rtype == t;
                if m < k {
                    let q = choose|q: int| 0 <= q < es.len() && canon(#[trigger] es[q].name) == canon(rs[m].name);
                    lemma_name_order_eq(es[q].name, n);
                    if q < pos {
                        assert(name_order(es[q].name, n) == -1);
                    } else if q > pos {
                        assert(name_order(es[pos].name, es[q].name) == -1);
                        lemma_name_order_congruent(es[q].name, n, es[pos].name);
                    }
                } else {
                    assert(es2[i].types[0] == t);
                }
            }
            if es2[i].types.contains(t) {
                assert(t == rs[k].rtype);
            }
        } else {
            let oi = if i < pos { i } else { i - 1 };
            assert(es2[i] == es[oi]);
            assert(canon(rs[k].name) != canon(es[oi].name)) by {
                lemma_name_order_eq(n, es[oi].name);
                if oi < pos {
                    lemma_name_order_eq(es[oi].name, n);
                } else if oi > pos {
                    assert(name_order(es[pos].name, es[oi].name) == -1);
                    lemma_name_order_trans(n, es[pos].name, es[oi].name);
                }
            }
            assert(es[oi].types.contains(t) <==> exists|m: int| 0 <= m < k && canon(#[trigger] rs[m].name) == canon(es[oi].name) && rs[m].rtype == t);
        }
    }
}

proof fn lemma_insert(es: Seq<EntryV>, es2: Seq<EntryV>, rs: Seq<RRsetV>, k: int, pos: int)
    requires
        0 <= k < rs.len(),
        grouped(es, rs, k),
        0 <= pos <= es.len(),
        forall|j: int| 0 <= j < pos ==> name_order(#[trigger] es[j].name, rs[k].name) == -1,
        pos < es.len() ==> name_order(es[pos].name, rs[k].name) == 1,
        es2 == es.insert(pos, EntryV { name: rs[k].name, types: seq![rs[k].rtype] }),
    ensures
        grouped(es2, rs, k + 1),
{
    reveal(grouped);
    if pos < es.len() {
        lemma_name_order_eq(es[pos].name, rs[k].name);
    }
    lemma_insert_sorted(es, es2, rs[k].name, pos, EntryV { name: rs[k].name, types: seq![rs[k].rtype] });
    lemma_insert_cover(es, es2, rs, k, pos);
    lemma_insert_types(es, es2, rs, k, pos);
}

/// Add the `k`-th RRset to the grouping.
fn insert_rrset(entries: &mut Vec<NameTypes>, records: &Vec<RRset>, k: usize)
    requires
        k < records@.len(),
        grouped(entries_view(old(entries)@), rrsets_view(records@), k as int),
    ensures
        grouped(entries_view(final(entries)@), rrsets_view(records@), k + 1),
{
    let set = &records[k];
    let ghost rs = rrsets_view(records@);
    let ghost es = entries_view(entries@);
    assert(rs[k as int].name == set.name@);
    let mut pos: usize = 0;
    while pos < entries.len() && entries[pos].name.compare(&set.name) == -1
        invariant
            pos <= entries@.len(),
            es == entries_view(entries@),
            forall|j: int| 0 <= j < pos ==> name_order(#[trigger] es[j].name, set.name@) == -1,
        decreases entries.len() - pos,
    {
        pos = pos + 1;
    }
    if pos < entries.len() && entries[pos].name.compare(&set.name) == 0 {
        let mut e = entries.remove(pos);
        e.types.push(set.rtype);
        entries.insert(pos, e);
        proof {
            assert(entries_view(entries@) =~= es.update(pos as int, EntryV { name: es[pos as int].name, types: es[pos as int].types.push(rs[k as int].rtype) }));
            lemma_merge(es, entries_view(entries@), rs, k as int, pos as int);
        }
    } else {
        proof {
            if pos < entries@.len() {
                lemma_name_order_eq(es[pos as int].name, set.name@);
            }
        }
        let mut types: Vec<RecordType> = Vec::new();
        types.push(set.rtype);
        let e = NameTypes { name: set.name.clone(), types };
        entries.insert(pos, e);
        proof {
            assert(e@.types =~= seq![rs[k as int].rtype]);
            assert(entries_view(entries@) =~= es.insert(pos as int, EntryV { name: rs[k as int].name, types: seq![rs[k as int].rtype] }));
            lemma_insert(es, entries_view(entries@), rs, k as int, pos as int);
        }
    }
}

/// Group RRsets by owner name, in canonical order.
fn group_by_name(records: &Vec<RRset>) -> (r: Vec<NameTypes>)
    ensures
        grouped(entries_view(r@), rrsets_view(records@), records@.len() as int),
{
    let mut entries: Vec<NameTypes> = Vec::new();
    let mut k: usize = 0;
    assert(entries_view(entries@) =~= Seq::<EntryV>::empty());
    proof {
        reveal(grouped);
    }
    while k < records.len()
        invariant
            k <= records.len(),
            grouped(entries_view(entries@), rrsets_view(records@), k as int),
        decreases records.len() - k,
    {
        insert_rrset(&mut entries, records, k);
        k = k + 1;
    }
    entries
}

/// The types of an NSEC record: the given ones plus NSEC and RRSIG, sorted by code.
fn nsec_type_list(given: &Vec<RecordType>) -> (r: Vec<RecordType>)
    ensures
        types_sorted(r@),
        forall|c: u16| has_code(r@, c) <==> (c == 47 || c == 46 || has_code(given@, c)),
{
    let mut types: Vec<RecordType> = Vec::new();
    let mut j: usize = 0;
    while j < given.len()
        invariant
            j <= given@.len(),
            types_sorted(types@),
            forall|c: u16| has_code(types@, c) <==> has_code(given@.subrange(0, j as int), c),
        decreases given@.len() - j,
    {
        let t = given[j];
        insert_type(&mut types, t);
        proof {
            let ts = given@;
            assert(ts.subrange(0, j + 1) =~= ts.subrange(0, j as int).push(t));
            assert forall|c: u16| has_code(types@, c) <==> has_code(ts.subrange(0, j + 1), c) by {
                let s0 = ts.subrange(0, j as int);
                let s1 = ts.subrange(0, j + 1);
                if has_code(s1, c) {
                    let q = choose|q: int| 0 <= q < s1.len() && type_code(#[trigger] s1[q]) == c;
                    if q < j {
                        assert(type_code(s0[q]) == c);
                    }
                }
                if has_code(s0, c) {
                    let q = choose|q: int| 0 <= q < s0.len() && type_code(#[trigger] s0[q]) == c;
                    assert(type_code(s1[q]) == c);
                }
                if c == type_code(t) {
                    assert(type_code(s1[j as int]) == c);
                }
            }
        }
        j = j + 1;
    }
    assert(given@.subrange(0, j as int) =~= given@);
    insert_type(&mut types, RecordType::NSEC);
    insert_type(&mut types, RecordType::RRSIG);
    types
}

spec fn chain_step(ov: Seq<RecordV>, es: Seq<EntryV>, origin: Seq<Seq<u8>>, ttl: u32, a: int) -> bool {
    &&& ov[a].name == es[a].name
    &&& ov[a].ttl == ttl
    &&& ov[a].dns_class == 1
    &&& ov[a].data matches RDataV::NSEC(next, types) && {
        &&& next == (if a + 1 < es.len() { es[a + 1].name } else { origin })
        &&& types_sorted(types)
        &&& forall|c: u16| has_code(types, c) <==> (c == 47 || c == 46 || has_code(es[a].types, c))
    }
}

proof fn lemma_chain_sorted(ov: Seq<RecordV>, es: Seq<EntryV>, origin: Seq<Seq<u8>>, ttl: u32)
    requires
        g_sorted(es),
        ov.len() == es.len(),
        forall|a: int| 0 <= a < ov.len() ==> #[trigger] chain_step(ov, es, origin, ttl, a),
    ensures
        chain_sorted(ov),
{
    assert forall|a: int, b: int| 0 <= a < b < ov.len() implies name_order(#[trigger] ov[a].name, #[trigger] ov[b].name) == -1 by {
        assert(chain_step(ov, es, origin, ttl, a));
        assert(chain_step(ov, es, origin, ttl, b));
        assert(name_order(es[a].name, es[b].name) == -1);
    }
}

proof fn lemma_chain_covers(ov: Seq<RecordV>, es: Seq<EntryV>, rs: Seq<RRsetV>, origin: Seq<Seq<u8>>, ttl: u32)
    requires
        g_cover(es, rs, rs.len() as int),
        g_from(es, rs, rs.len() as int),
        ov.len() == es.len(),
        forall|a: int| 0 <= a < ov.len() ==> #[trigger] chain_step(ov, es, origin, ttl, a),
    ensures
        chain_covers(ov, rs),
        chain_owned(ov, rs),
{
    assert forall|k: int| 0 <= k < rs.len() implies has_owner(ov, #[trigger] rs[k].name) by {
        let a = choose|a: int| 0 <= a < es.len() && canon(#[trigger] es[a].name) == canon(rs[k].name);
        assert(chain_step(ov, es, origin, ttl, a));
        assert(canon(ov[a].name) == canon(rs[k].name));
    }
    assert forall|a: int| 0 <= a < ov.len() implies exists|m: int| 0 <= m < rs.len() && (#[trigger] ov[a]).name == (#[trigger] rs[m]).name by {
        assert(chain_step(ov, es, origin, ttl, a));
        let m = choose|m: int| 0 <= m < rs.len() && (#[trigger] es[a]).name == (#[trigger] rs[m]).name;
    }
}

proof fn lemma_chain_types(et: Seq<RecordType>, rs: Seq<RRsetV>, name: Seq<Seq<u8>>, types: Seq<RecordType>)
    requires
        forall|t: RecordType| (#[trigger] et.contains(t)) <==>
            exists|m: int| 0 <= m < rs.len() && canon(#[trigger] rs[m].name) == canon(name) && rs[m].rtype == t,
        forall|c: u16| has_code(types, c) <==> (c == 47 || c == 46 || has_code(et, c)),
    ensures
        forall|c: u16| has_code(types, c) <==> nsec_code_at(rs, name, c),
{
    assert forall|c: u16| has_code(types, c) <==> nsec_code_at(rs, name, c) by {
        if has_code(et, c) {
            let q = choose|q: int| 0 <= q < et.len() && type_code(#[trigger] et[q]) == c;
            assert(et.contains(et[q]));
            let m = choose|m: int| 0 <= m < rs.len() && canon(#[trigger] rs[m].name) == canon(name) && rs[m].rtype == et[q];
        }
        if exists|m: int| 0 <= m < rs.len() && canon(#[trigger] rs[m].name) == canon(name) && type_code(rs[m].rtype) == c {
            let m = choose|m: int| 0 <= m < rs.len() && canon(#[trigger] rs[m].name) == canon(name) && type_code(rs[m].rtype) == c;
            assert(et.contains(rs[m].rtype));
            let q = choose|q: int| 0 <= q < et.len() && et[q] == rs[m].rtype;
            assert(type_code(et[q]) == c);
        }
    }
}

proof fn lemma_chain_links(ov: Seq<RecordV>, es: Seq<EntryV>, rs: Seq<RRsetV>, origin: Seq<Seq<u8>>, ttl: u32)
    requires
        g_types(es, rs, rs.len() as int),
        ov.len() == es.len(),
        forall|a: int| 0 <= a < ov.len() ==> #[trigger] chain_step(ov, es, origin, ttl, a),
    ensures
        chain_links(ov, rs, origin, ttl),
{
    assert forall|a: int| 0 <= a < ov.len() implies {
        &&& (#[trigger] ov[a]).ttl == ttl
        &&& ov[a].dns_class == 1
        &&& ov[a].data matches RDataV::NSEC(next, types) && {
            &&& next == (if a + 1 < ov.len() { ov[a + 1].name } else { origin })
            &&& types_sorted(types)
            &&& forall|c: u16| has_code(types, c) <==> nsec_code_at(rs, ov[a].name, c)
        }
    } by {
        assert(chain_step(ov, es, origin, ttl, a));
        if a + 1 < ov.len() {
            assert(chain_step(ov, es, origin, ttl, a + 1));
        }
        if let RDataV::NSEC(next, types) = ov[a].data {
            let et = es[a].types;
            assert forall|t: RecordType| (#[trigger] et.contains(t)) <==>
                exists|m: int| 0 <= m < rs.len() && canon(#[trigger] rs[m].name) == canon(ov[a].name) && rs[m].rtype == t by {
                assert(es[a].types.contains(t) <==> exists|m: int| 0 <= m < rs.len() && canon(#[trigger] rs[m].name) == canon(es[a].name) && rs[m].rtype == t);
            }
            lemma_chain_types(et, rs, ov[a].name, types);
        }
    }
}

proof fn lemma_chain(ov: Seq<RecordV>, es: Seq<EntryV>, rs: Seq<RRsetV>, origin: Seq<Seq<u8>>, ttl: u32)
    requires
        grouped(es, rs, rs.len() as int),
        ov.len() == es.len(),
        forall|a: int| 0 <= a < ov.len() ==> #[trigger] chain_step(ov, es, origin, ttl, a),
    ensures
        is_nsec_chain(ov, rs, origin, ttl),
{
    reveal(grouped);
    lemma_chain_sorted(ov, es, origin, ttl);
    lemma_chain_covers(ov, es, rs, origin, ttl);
    lemma_chain_links(ov, es, rs, origin, ttl);
}

/// Generate the NSEC records of a zone (RFC 4034 section 4): one record per
/// owner name, in canonical order, each naming the next owner name (the last
/// one the origin) and the types present at its owner name.
pub fn generate_nsec_chain(records: &Vec<RRset>, origin: &DnsName, ttl: u32) -> (r: Vec<Record>)
    ensures
        records@.len() == 0 ==> r@.len() == 0,
        is_nsec_chain(records_view(r@), rrsets_view(records@), origin@, ttl),
{
    let entries = group_by_name(records);
    let ghost es = entries_view(entries@);
    let ghost rs = rrsets_view(records@);
    if records.len() == 0 {
        assert(entries@.len() == 0) by {
            reveal(grouped);
            if entries@.len() > 0 {
                assert(es[0] == entries@[0]@);
                let m = choose|m: int| 0 <= m < 0 && (#[trigger] es[0]).name == (#[trigger] rs[m]).name;
            }
        }
    }
    let mut out: Vec<Record> = Vec::new();
    let n = entries.len();
    let mut i: usize = 0;
    while i < n
        invariant
            n == entries@.len(),
            es == entries_view(entries@),
            i <= n,
            out@.len() == i,
            forall|a: int| 0 <= a < i ==> #[trigger] chain_step(records_view(out@), es, origin@, ttl, a),
        decreases n - i,
    {
        let next = if i + 1 < n {
            entries[i + 1].name.clone()
        } else {
            origin.clone()
        };
        let types = nsec_type_list(&entries[i].types);
        let rec = Record::from_rdata(entries[i].name.clone(), ttl, RecordData::NSEC { next, types });
        let ghost before = records_view(out@);
        out.push(rec);
        proof {
            let ov = records_view(out@);
            assert(ov =~= before.push(rec@));
            assert forall|a: int| 0 <= a < i + 1 implies #[trigger] chain_step(ov, es, origin@, ttl, a) by {
                if a < i {
                    assert(chain_step(before, es, origin@, ttl, a));
                } else {
                    assert(es[a] == entries@[a]@);
                    if a + 1 < n {
                        assert(es[a + 1] == entries@[a + 1]@);
                    }
                }
            }
        }
        i = i + 1;
    }
    proof {
        lemma_chain(records_view(out@), es, rs, origin@, ttl);
    }
    out
}

/// `a` sorts before `b` in canonical order.
pub open spec fn name_lt(a: Seq<Seq<u8>>, b: Seq<Seq<u8>>) -> bool {
    name_order(a, b) == -1
}

/// `a` sorts before `b` or is the same name.
pub open spec fn name_le(a: Seq<Seq<u8>>, b: Seq<Seq<u8>>) -> bool {
    name_order(a, b) != 1
}

/// An NSEC record whose span (owner, next) holds `q`: owner < q < next, or,
/// at the end of the chain where next <= owner, q after the owner or before
/// next.
pub open spec fn nsec_covers(rec: RecordV, q: Seq<Seq<u8>>) -> bool {
    match rec.data {
        RDataV::NSEC(next, _) => {
            let owner = rec.name;
            ||| name_lt(owner, q) && (name_lt(q, next) || name_le(next, owner))
            ||| name_le(next, owner) && (name_lt(owner, q) || name_lt(q, next))
        },
        _ => false,
    }
}

/// An NSEC record owned by `q` whose type list lacks `qtype`.
pub open spec fn nsec_denies_type(rec: RecordV, q: Seq<Seq<u8>>, qtype: RecordType) -> bool {
    &&& canon(rec.name) == canon(q)
    &&& match rec.data {
        RDataV::NSEC(_, types) => !has_code(types, type_code(qtype)),
        _ => false,
    }
}

fn covers(rec: &Record, qname: &DnsName) -> (r: bool)
    ensures
        r == nsec_covers(rec@, qname@),
{
    match &rec.data {
        RecordData::NSEC { next, .. } => {
            let owner = &rec.name;
            let owner_q = owner.compare(qname);
            let q_next = qname.compare(next);
            let next_owner = next.compare(owner);
            (owner_q == -1 && (q_next == -1 || next_owner != 1))
                || (next_owner != 1 && (owner_q == -1 || q_next == -1))
        },
        _ => false,
    }
}

fn lists_code(types: &Vec<RecordType>, c: u16) -> (r: bool)
    ensures
        r == has_code(types@, c),
{
    let mut i: usize = 0;
    while i < types.len()
        invariant
            i <= types@.len(),
            forall|j: int| 0 <= j < i ==> type_code(#[trigger] types@[j]) != c,
        decreases types@.len() - i,
    {
        if types[i].code() == c {
            return true;
        }
        i = i + 1;
    }
    false
}

fn denies_type(rec: &Record, qname: &DnsName, qtype: RecordType) -> (r: bool)
    ensures
        r == nsec_denies_type(rec@, qname@, qtype),
{
    if !rec.name.same_name(qname) {
        return false;
    }
    match &rec.data {
        RecordData::NSEC { types, .. } => !lists_code(types, qtype.code()),
        _ => false,
    }
}

/// Find the NSEC record that proves `qname` does not exist (NXDOMAIN proof):
/// the first one whose span holds `qname`.
pub fn find_covering_nsec<'a>(nsec_records: &'a [Record], qname: &DnsName) -> (r: Option<&'a Record>)
    ensures
        r is None <==> forall|i: int| 0 <= i < nsec_records@.len() ==> !nsec_covers(#[trigger] nsec_records@[i]@, qname@),
        r matches Some(rec) ==> exists|i: int| 0 <= i < nsec_records@.len() && *rec == nsec_records@[i]
            && nsec_covers(rec@, qname@)
            && forall|j: int| 0 <= j < i ==> !nsec_covers(#[trigger] nsec_records@[j]@, qname@),
{
    let mut i: usize = 0;
    while i < nsec_records.len()
        invariant
            i <= nsec_records@.len(),
            forall|j: int| 0 <= j < i ==> !nsec_covers(#[trigger] nsec_records@[j]@, qname@),
        decreases nsec_records@.len() - i,
    {
        if covers(&nsec_records[i], qname) {
            return Some(&nsec_records[i]);
        }
        i = i + 1;
    }
    None
}

/// Find the NSEC record that proves `qname` has no `qtype` records (NODATA
/// proof): the first one owned by `qname` whose types lack `qtype`.
pub fn find_nodata_nsec<'a>(nsec_records: &'a [Record], qname: &DnsName, qtype: RecordType) -> (r: Option<&'a Record>)
    ensures
        r is None <==> forall|i: int| 0 <= i < nsec_records@.len() ==> !nsec_denies_type(#[trigger] nsec_records@[i]@, qname@, qtype),
        r matches Some(rec) ==> exists|i: int| 0 <= i < nsec_records@.len() && *rec == nsec_records@[i]
            && nsec_denies_type(rec@, qname@, qtype)
            && forall|j: int| 0 <= j < i ==> !nsec_denies_type(#[trigger] nsec_records@[j]@, qname@, qtype),
{
    let mut i: usize = 0;
    while i < nsec_records.len()
        invariant
            i <= nsec_records@.len(),
            forall|j: int| 0 <= j < i ==> !nsec_denies_type(#[trigger] nsec_records@[j]@, qname@, qtype),
        decreases nsec_records@.len() - i,
    {
        if denies_type(&nsec_records[i], qname, qtype) {
            return Some(&nsec_records[i]);
        }
        i = i + 1;
    }
    None
}

/// Walking up the chain from a record whose owner sorts before `q`: some
/// record at or after it covers `q`.
proof fn lemma_cover_from(out: Seq<RecordV>, sets: Seq<RRsetV>, origin: Seq<Seq<u8>>, ttl: u32, q: Seq<Seq<u8>>, i: int)
    requires
        chain_sorted(out),
        chain_links(out, sets, origin, ttl),
        0 <= i < out.len(),
        !has_owner(out, q),
        name_lt(out[i].name, q),
        name_le(origin, out[out.len() - 1].name),
    ensures
        exists|j: int| 0 <= j < out.len() && nsec_covers(#[trigger] out[j], q),
    decreases out.len() - i,
{
    let last = out.len() - 1;
    assert(out[i].ttl == ttl);
    if i == last {
        assert(nsec_covers(out[i], q));
    } else {
        let nx = out[i + 1].name;
        lemma_name_order_eq(nx, q);
        if canon(nx) == canon(q) {
            assert(has_owner(out, q));
        }
        if name_lt(nx, q) {
            lemma_cover_from(out, sets, origin, ttl, q, i + 1);
        } else {
            assert(name_order(q, nx) == -1);
            assert(nsec_covers(out[i], q));
        }
    }
}

/// The NSEC chain of a zone whose apex has records proves every absent name
/// absent: a name that owns no NSEC record of the chain is covered by one
/// (RFC 4034 section 4.1.1), which `find_covering_nsec` then finds.
pub proof fn lemma_chain_covers_absent_names(
    out: Seq<RecordV>,
    sets: Seq<RRsetV>,
    origin: Seq<Seq<u8>>,
    ttl: u32,
    q: Seq<Seq<u8>>,
)
    requires
        is_nsec_chain(out, sets, origin, ttl),
        has_owner(out, origin),
        !has_owner(out, q),
    ensures
        exists|j: int| 0 <= j < out.len() && nsec_covers(#[trigger] out[j], q),
{
    lemma_sorted_links_cover(out, sets, origin, ttl, q);
}

proof fn lemma_sorted_links_cover(out: Seq<RecordV>, sets: Seq<RRsetV>, origin: Seq<Seq<u8>>, ttl: u32, q: Seq<Seq<u8>>)
    requires
        chain_sorted(out),
        chain_links(out, sets, origin, ttl),
        has_owner(out, origin),
        !has_owner(out, q),
    ensures
        exists|j: int| 0 <= j < out.len() && nsec_covers(#[trigger] out[j], q),
{
    let k0 = choose|k: int| 0 <= k < out.len() && canon(#[trigger] out[k].name) == canon(origin);
    let last = out.len() - 1;
    lemma_name_order_eq(out[k0].name, origin);
    // The origin sorts no later than the last owner name.
    if k0 < last {
        assert(name_order(out[k0].name, out[last].name) == -1);
        lemma_name_order_congruent(out[k0].name, origin, out[last].name);
    } else {
        lemma_name_order_eq(origin, out[last].name);
    }
    assert(name_le(origin, out[last].name));
    let first = out[0].name;
    lemma_name_order_eq(first, q);
    if canon(first) == canon(q) {
        assert(has_owner(out, q));
    }
    if name_lt(first, q) {
        lemma_cover_from(out, sets, origin, ttl, q, 0);
    } else {
        // `q` sorts before every owner name, so before the origin: the last
        // record, which wraps around to the origin, covers it.
        assert(name_order(q, first) == -1);
        if k0 > 0 {
            assert(name_order(first, out[k0].name) == -1);
            lemma_name_order_trans(q, first, out[k0].name);
        }
        lemma_name_order_congruent(out[k0].name, origin, q);
        assert(name_lt(q, origin));
        assert(out[last].ttl == ttl);
        assert(nsec_covers(out[last], q));
    }
}

/// An NSEC record proves the absence only of names strictly inside its
/// span: it never covers its own owner name, nor the next name it points to
/// (names compared without regard to ASCII case).
pub proof fn lemma_cover_excludes_ends(rec: RecordV, q: Seq<Seq<u8>>)
    ensures
        nsec_covers(rec, q) ==> canon(q) != canon(rec.name),
        nsec_covers(rec, q) ==> (rec.data matches RDataV::NSEC(next, _) && canon(q) != canon(next)),
{
    match rec.data {
        RDataV::NSEC(next, _) => {
            let owner = rec.name;
            lemma_name_order_eq(owner, q);
            lemma_name_order_eq(q, next);
            lemma_name_order_eq(next, owner);
            if canon(q) == canon(owner) {
                lemma_name_order_congruent(q, owner, next);
            }
            if canon(q) == canon(next) {
                lemma_name_order_congruent(q, next, owner);
            }
        },
        _ => {},
    }
}

proof fn lemma_sorted_owner_not_covered(out: Seq<RecordV>, origin: Seq<Seq<u8>>, i: int, j: int, next: Seq<Seq<u8>>)
    requires
        chain_sorted(out),
        out.len() > 0,
        canon(out[0].name) == canon(origin),
        0 <= i < out.len(),
        0 <= j < out.len(),
        out[j].data matches RDataV::NSEC(n, _) && n == next,
        next == (if j + 1 < out.len() { out[j + 1].name } else { origin }),
    ensures
        !nsec_covers(out[j], out[i].name),
{
    let q = out[i].name;
    let owner = out[j].name;
    lemma_name_order_eq(owner, q);
    lemma_name_order_eq(q, next);
    lemma_name_order_eq(next, owner);
    if i == j {
        lemma_cover_excludes_ends(out[j], q);
    } else if i < j {
        assert(name_order(q, owner) == -1);
        if j + 1 < out.len() {
            assert(name_order(owner, next) == -1);
            lemma_name_order_trans(q, owner, next);
        } else {
            lemma_name_order_eq(out[0].name, origin);
            lemma_name_order_congruent(out[0].name, origin, q);
            lemma_name_order_congruent(out[0].name, origin, owner);
            if i > 0 {
                assert(name_order(out[0].name, q) == -1);
            }
            assert(name_order(origin, owner) == -1) by {
                assert(name_order(out[0].name, owner) == -1);
            }
        }
    } else {
        assert(name_order(owner, q) == -1);
        assert(name_order(owner, next) == -1);
        if j + 1 < i {
            assert(name_order(next, q) == -1);
        }
    }
}

/// In the NSEC chain of a zone whose apex comes first, no record covers a
/// name that owns a record of the chain: existing names are never proved
/// absent (RFC 4034 section 4.1.1).
pub proof fn lemma_chain_owners_not_covered(
    out: Seq<RecordV>,
    sets: Seq<RRsetV>,
    origin: Seq<Seq<u8>>,
    ttl: u32,
    i: int,
    j: int,
)
    requires
        is_nsec_chain(out, sets, origin, ttl),
        out.len() > 0,
        canon(out[0].name) == canon(origin),
        0 <= i < out.len(),
        0 <= j < out.len(),
    ensures
        !nsec_covers(out[j], out[i].name),
{
    assert(out[j].ttl == ttl);
    let next = if j + 1 < out.len() { out[j + 1].name } else { origin };
    lemma_sorted_owner_not_covered(out, origin, i, j, next);
}

} // verus!
