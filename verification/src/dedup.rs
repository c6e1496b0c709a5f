use crate::cache::cache_key;
use crate::name::DnsName;
use crate::types::{ResponseCode, Record, RecordType};
use vstd::prelude::*;

verus! {

/// The result shared with the queries that waited for an in-flight one.
#[derive(Debug)]
pub struct DedupResult {
    pub records: Vec<Record>,
    pub response_code: ResponseCode,
}

/// What a query should do: resolve (it is the first for its name and type),
/// or wait for the query already in flight, whose handle is given.
pub enum DedupAction<'a, T> {
    Execute,
    Wait(&'a T),
}

struct Inflight<T> {
    name: DnsName,
    rtype: RecordType,
    handle: T,
}

/// The queries in flight, one per name (case ignored) and type, each with a
/// handle to reach the queries waiting for it.
pub struct DedupMap<T> {
    inflight: Vec<Inflight<T>>,
}

/// The in-flight keys, in the order they started, with their handles.
pub open spec fn keys_distinct<T>(s: Seq<((Seq<Seq<u8>>, u16), T)>) -> bool {
    forall|i: int, j: int| 0 <= i < j < s.len() ==> (#[trigger] s[i]).0 != (#[trigger] s[j]).0
}

pub open spec fn is_inflight<T>(s: Seq<((Seq<Seq<u8>>, u16), T)>, k: (Seq<Seq<u8>>, u16)) -> bool {
    exists|i: int| 0 <= i < s.len() && (#[trigger] s[i]).0 == k
}

impl<T> View for DedupMap<T> {
    type V = Seq<((Seq<Seq<u8>>, u16), T)>;

    closed spec fn view(&self) -> Seq<((Seq<Seq<u8>>, u16), T)> {
        self.inflight@.map_values(|e: Inflight<T>| (cache_key(e.name@, e.rtype), e.handle))
    }
}

impl<T> DedupMap<T> {
    /// At most one query is in flight per key.
    #[verifier::type_invariant]
    spec fn keys_unique(self) -> bool {
        keys_distinct(self@)
    }

    /// Nothing in flight.
    pub fn new() -> (r: DedupMap<T>)
        ensures
            r@ == Seq::<((Seq<Seq<u8>>, u16), T)>::empty(),
    {
        let r = DedupMap { inflight: Vec::new() };
        assert(r@ =~= Seq::<((Seq<Seq<u8>>, u16), T)>::empty());
        r
    }

    fn find(&self, name: &DnsName, rtype: RecordType) -> (r: Option<usize>)
        ensures
            match r {
                Some(i) => i < self@.len() && self@[i as int].0 == cache_key(name@, rtype),
                None => !is_inflight(self@, cache_key(name@, rtype)),
            },
    {
        let code = rtype.code();
        let mut i: usize = 0;
        while i < self.inflight.len()
            invariant
                i <= self.inflight@.len(),
                code == crate::types::type_code(rtype),
                forall|j: int| 0 <= j < i ==> (#[trigger] self@[j]).0 != cache_key(name@, rtype),
            decreases self.inflight@.len() - i,
        {
            let e = &self.inflight[i];
            assert(self@[i as int].0 == cache_key(e.name@, e.rtype));
            if e.name.same_name(name) && e.rtype.code() == code {
                return Some(i);
            }
            i = i + 1;
        }
        None
    }

    /// Join the query in flight for `name` and `rtype`, or start one with
    /// `handle` if there is none.
    pub fn try_dedup(&mut self, name: &DnsName, rtype: RecordType, handle: T) -> (r: DedupAction<'_, T>)
        ensures
            is_inflight(old(self)@, cache_key(name@, rtype)) ==> (r matches DedupAction::Wait(h) && final(self)@ == old(self)@
                && exists|i: int| 0 <= i < old(self)@.len() && old(self)@[i] == (cache_key(name@, rtype), *h)),
            !is_inflight(old(self)@, cache_key(name@, rtype)) ==> (r matches DedupAction::Execute
                && final(self)@ == old(self)@.push((cache_key(name@, rtype), handle))),
    {
        match self.find(name, rtype) {
            Some(i) => {
                let h = &self.inflight[i].handle;
                assert(self@[i as int] == (cache_key(name@, rtype), *h));
                DedupAction::Wait(h)
            },
            None => {
                proof {
                    use_type_invariant(&*self);
                }
                let ghost before = self@;
                let mut v: Vec<Inflight<T>> = Vec::new();
                std::mem::swap(&mut v, &mut self.inflight);
                let ghost vv = v@.map_values(|e: Inflight<T>| (cache_key(e.name@, e.rtype), e.handle));
                assert(vv =~= before);
                v.push(Inflight { name: name.clone(), rtype, handle });
                let ghost after = v@.map_values(|e: Inflight<T>| (cache_key(e.name@, e.rtype), e.handle));
                assert(after =~= before.push((cache_key(name@, rtype), handle)));
                assert forall|i: int, j: int| 0 <= i < j < after.len() implies (#[trigger] after[i]).0 != (#[trigger] after[j]).0 by {
                    if j == after.len() - 1 {
                        assert(after[i] == before[i]);
                    } else {
                        assert(after[i] == before[i] && after[j] == before[j]);
                    }
                }
                self.inflight = v;
                assert(self@ == after);
                DedupAction::Execute
            },
        }
    }

    /// The query for `name` and `rtype` is over: take it out, giving back its handle.
    pub fn complete(&mut self, name: &DnsName, rtype: RecordType) -> (r: Option<T>)
        ensures
            !is_inflight(final(self)@, cache_key(name@, rtype)),
            is_inflight(old(self)@, cache_key(name@, rtype)) ==> exists|i: int| 0 <= i < old(self)@.len()
                && (#[trigger] old(self)@[i]).0 == cache_key(name@, rtype) && r == Some(old(self)@[i].1)
                && final(self)@ == old(self)@.remove(i),
            !is_inflight(old(self)@, cache_key(name@, rtype)) ==> (r is None && final(self)@ == old(self)@),
            forall|k: (Seq<Seq<u8>>, u16)| k != cache_key(name@, rtype) ==> (is_inflight(final(self)@, k) <==> is_inflight(old(self)@, k)),
    {
        match self.find(name, rtype) {
            Some(i) => {
                proof {
                    use_type_invariant(&*self);
                }
                let ghost before = self@;
                let mut v: Vec<Inflight<T>> = Vec::new();
                std::mem::swap(&mut v, &mut self.inflight);
                let ghost vv = v@.map_values(|e: Inflight<T>| (cache_key(e.name@, e.rtype), e.handle));
                assert(vv =~= before);
                let e = v.remove(i);
                let ghost after = v@.map_values(|e: Inflight<T>| (cache_key(e.name@, e.rtype), e.handle));
                assert(after =~= before.remove(i as int));
                proof {
                    let k = cache_key(name@, rtype);
                    if is_inflight(after, k) {
                        let j = choose|j: int| 0 <= j < after.len() && (#[trigger] after[j]).0 == k;
                        if j < i {
                            assert(before[j].0 == before[i as int].0);
                        } else {
                            assert(before[j + 1].0 == before[i as int].0);
                        }
                    }
                    assert forall|k2: (Seq<Seq<u8>>, u16)| k2 != k implies (is_inflight(after, k2) <==> is_inflight(before, k2)) by {
                        if is_inflight(before, k2) {
                            let j = choose|j: int| 0 <= j < before.len() && (#[trigger] before[j]).0 == k2;
                            if j < i {
                                assert(after[j] == before[j]);
                            } else {
                                assert(j != i);
                                assert(after[j - 1] == before[j]);
                            }
                        }
                        if is_inflight(after, k2) {
                            let j = choose|j: int| 0 <= j < after.len() && (#[trigger] after[j]).0 == k2;
                            if j < i {
                                assert(after[j] == before[j]);
                            } else {
                                assert(after[j] == before[j + 1]);
                            }
                        }
                    }
                    assert forall|a: int, b: int| 0 <= a < b < after.len() implies (#[trigger] after[a]).0 != (#[trigger] after[b]).0 by {
                        let oa = if a < i { a } else { a + 1 };
                        let ob = if b < i { b } else { b + 1 };
                        assert(after[a] == before[oa] && after[b] == before[ob]);
                    }
                }
                assert(before[i as int].1 == e.handle);
                self.inflight = v;
                assert(self@ == after);
                Some(e.handle)
            },
            None => None,
        }
    }

    /// The number of queries in flight.
    pub fn inflight_count(&self) -> (r: usize)
        ensures
            r == self@.len(),
    {
        self.inflight.len()
    }
}

/// Starting a query and completing it leaves the same queries in flight as before.
pub proof fn lemma_start_complete_restores<T>(s: Seq<((Seq<Seq<u8>>, u16), T)>, k: (Seq<Seq<u8>>, u16), h: T, k2: (Seq<Seq<u8>>, u16))
    requires
        keys_distinct(s),
        !is_inflight(s, k),
        k2 != k,
    ensures
        is_inflight(s.push((k, h)), k),
        is_inflight(s.push((k, h)), k2) <==> is_inflight(s, k2),
{
    let t = s.push((k, h));
    assert(t[t.len() - 1].0 == k);
    if is_inflight(t, k2) {
        let j = choose|j: int| 0 <= j < t.len() && (#[trigger] t[j]).0 == k2;
        assert(t[j] == s[j]);
    }
    if is_inflight(s, k2) {
        let j = choose|j: int| 0 <= j < s.len() && (#[trigger] s[j]).0 == k2;
        assert(t[j] == s[j]);
    }
}

/// Of the queries for one name and type, only the first resolves: once it
/// is in flight, every later query for that key finds its handle and waits.
pub proof fn lemma_single_execution<T>(s: Seq<((Seq<Seq<u8>>, u16), T)>, k: (Seq<Seq<u8>>, u16), h: T)
    requires
        keys_distinct(s),
        !is_inflight(s, k),
    ensures
        keys_distinct(s.push((k, h))),
        is_inflight(s.push((k, h)), k),
        forall|i: int| 0 <= i < s.len() + 1 && (#[trigger] s.push((k, h))[i]).0 == k ==> s.push((k, h))[i].1 == h,
{
    let t = s.push((k, h));
    assert(t[t.len() - 1].0 == k);
    assert forall|a: int, b: int| 0 <= a < b < t.len() implies (#[trigger] t[a]).0 != (#[trigger] t[b]).0 by {
        assert(t[a] == s[a]);
        if b < s.len() {
            assert(t[b] == s[b]);
        }
    }
    assert forall|i: int| 0 <= i < s.len() + 1 && (#[trigger] t[i]).0 == k implies t[i].1 == h by {
        if i < s.len() {
            assert(t[i] == s[i]);
        }
    }
}

/// The in-flight entries after queries for key `k` with handles `hs` call
/// `try_dedup` in turn (nothing completing meanwhile), and for each call
/// whether it resolves (`Execute`) rather than waits: a call resolves exactly
/// when the key is not in flight, and then starts it.
pub open spec fn dedup_calls<T>(s: Seq<((Seq<Seq<u8>>, u16), T)>, k: (Seq<Seq<u8>>, u16), hs: Seq<T>) -> (Seq<((Seq<Seq<u8>>, u16), T)>, Seq<bool>)
    decreases hs.len(),
{
    if hs.len() == 0 {
        (s, Seq::empty())
    } else {
        let (s1, ex) = dedup_calls(s, k, hs.drop_last());
        if is_inflight(s1, k) {
            (s1, ex.push(false))
        } else {
            (s1.push((k, hs.last())), ex.push(true))
        }
    }
}

/// However many queries for one key arrive while none for it is in flight,
/// exactly the first resolves and all the others wait; afterwards the key is
/// in flight once, with the first query's handle, which `complete` gives
/// back to deliver the result to the waiting queries.
pub proof fn lemma_one_resolution<T>(s: Seq<((Seq<Seq<u8>>, u16), T)>, k: (Seq<Seq<u8>>, u16), hs: Seq<T>)
    requires
        keys_distinct(s),
        !is_inflight(s, k),
        hs.len() > 0,
    ensures
        dedup_calls(s, k, hs).1.len() == hs.len(),
        dedup_calls(s, k, hs).1[0],
        forall|i: int| 0 < i < hs.len() ==> !#[trigger] dedup_calls(s, k, hs).1[i],
        dedup_calls(s, k, hs).0 == s.push((k, hs[0])),
        keys_distinct(dedup_calls(s, k, hs).0),
        forall|i: int| 0 <= i < dedup_calls(s, k, hs).0.len() && (#[trigger] dedup_calls(s, k, hs).0[i]).0 == k
            ==> dedup_calls(s, k, hs).0[i].1 == hs[0],
    decreases hs.len(),
{
    lemma_single_execution(s, k, hs[0]);
    if hs.len() == 1 {
        let d = hs.drop_last();
        assert(dedup_calls(s, k, d).0 == s);
        assert(dedup_calls(s, k, d).1 =~= Seq::<bool>::empty());
        assert(hs.last() == hs[0]);
    } else {
        let d = hs.drop_last();
        lemma_one_resolution(s, k, d);
        assert(d[0] == hs[0]);
        let s1 = dedup_calls(s, k, d).0;
        assert(s1[s1.len() - 1].0 == k);
        assert(is_inflight(s1, k));
        let ex = dedup_calls(s, k, hs).1;
        assert(ex == dedup_calls(s, k, d).1.push(false));
        assert forall|i: int| 0 < i < hs.len() implies !#[trigger] ex[i] by {
            if i < hs.len() - 1 {
                assert(ex[i] == dedup_calls(s, k, d).1[i]);
            }
        }
    }
}

} // verus!
