use crate::name::{canon, DnsName};
use crate::types::{copy_records, records_view, type_code, RecordType, Record, RecordV, ResponseCode};
use vstd::prelude::*;

verus! {

broadcast use vstd::seq_lib::group_filter_ensures;

#[verifier::external_type_specification]
#[verifier::external_body]
pub struct ExInstant(std::time::Instant);

/// Reads the monotonic clock (`std::time::Instant::now`). Nothing is stated of
/// the instant it returns.
#[verifier::external_body]
pub(crate) fn clock_now() -> std::time::Instant {
    std::time::Instant::now()
}

/// Nanoseconds elapsed since `start` (`Instant::elapsed`, then
/// `Duration::as_nanos`, kept to 64 bits). It depends on the time of the
/// call, so nothing is stated of it.
#[verifier::external_body]
pub(crate) fn nanos_since(start: &std::time::Instant) -> u64 {
    start.elapsed().as_nanos() as u64
}

/// Whole seconds in a count of nanoseconds.
pub open spec fn whole_seconds(nanos: u64) -> u64 {
    nanos / 1_000_000_000
}

/// Whole seconds elapsed since `start`: the 64-bit nanosecond count that
/// `nanos_since` reads, divided down to seconds.
fn seconds_since(start: &std::time::Instant) -> (r: u64)
    ensures
        exists|nanos: u64| r == whole_seconds(nanos),
{
    let nanos = nanos_since(start);
    let r = nanos / 1_000_000_000;
    assert(r == whole_seconds(nanos));
    r
}

/// A counter after one more event, wrapping to 0 past the largest `u64`.
pub open spec fn bump(x: u64) -> u64 {
    if x == u64::MAX { 0 } else { (x + 1) as u64 }
}

/// The key a cache entry is stored under: the owner name compared without
/// regard to ASCII case, and the type code (the class is always IN).
pub open spec fn cache_key(name: Seq<Seq<u8>>, rtype: RecordType) -> (Seq<Seq<u8>>, u16) {
    (canon(name), type_code(rtype))
}

/// The TTL left of an entry with TTL `original` stored at `inserted_at`, at
/// time `now` (seconds on the cache clock).
pub open spec fn ttl_left(original: u32, inserted_at: u64, now: u64) -> u32 {
    if now <= inserted_at {
        original
    } else if now - inserted_at >= original {
        0
    } else {
        (original - (now - inserted_at)) as u32
    }
}

/// `ttl` raised to `min_ttl`, then lowered to `max_ttl`.
pub open spec fn spec_clamp_ttl(ttl: u32, min_ttl: u32, max_ttl: u32) -> u32 {
    let raised = if ttl < min_ttl { min_ttl } else { ttl };
    if raised > max_ttl { max_ttl } else { raised }
}

/// The TTL of a negative entry: the negative TTL lowered to `max_ttl`, then
/// raised to `min_ttl`.
pub open spec fn spec_negative_ttl(negative_ttl: u32, min_ttl: u32, max_ttl: u32) -> u32 {
    let lowered = if negative_ttl > max_ttl { max_ttl } else { negative_ttl };
    if lowered < min_ttl { min_ttl } else { lowered }
}

/// A cached response: its records, its response code, the TTL it was stored
/// with, and when it was stored (seconds on the clock of the cache that holds it).
#[derive(Debug)]
pub struct CacheEntry {
    pub records: Vec<Record>,
    pub response_code: ResponseCode,
    pub original_ttl: u32,
    pub inserted_at: u64,
    pub clock: std::time::Instant,
}

pub struct EntryV {
    pub records: Seq<RecordV>,
    pub response_code: ResponseCode,
    pub original_ttl: u32,
    pub inserted_at: u64,
}

impl View for CacheEntry {
    type V = EntryV;

    open spec fn view(&self) -> EntryV {
        EntryV {
            records: records_view(self.records@),
            response_code: self.response_code,
            original_ttl: self.original_ttl,
            inserted_at: self.inserted_at,
        }
    }
}

impl Clone for CacheEntry {
    fn clone(&self) -> (r: Self)
        ensures
            r@ == self@,
    {
        CacheEntry {
            records: copy_records(&self.records),
            response_code: self.response_code,
            original_ttl: self.original_ttl,
            inserted_at: self.inserted_at,
            clock: self.clock,
        }
    }
}

impl CacheEntry {
    /// The TTL left at time `now` on the cache clock.
    pub fn remaining_ttl_at(&self, now: u64) -> (r: u32)
        ensures
            r == ttl_left(self.original_ttl, self.inserted_at, now),
    {
        if now <= self.inserted_at {
            self.original_ttl
        } else if now - self.inserted_at >= self.original_ttl as u64 {
            0
        } else {
            self.original_ttl - (now - self.inserted_at) as u32
        }
    }

    /// The TTL left now.
    pub fn remaining_ttl(&self) -> (r: u32)
        ensures
            r <= self.original_ttl,
            exists|now: u64| r == ttl_left(self.original_ttl, self.inserted_at, now),
    {
        let now = seconds_since(&self.clock);
        self.remaining_ttl_at(now)
    }

    /// Whether the entry has no TTL left now.
    pub fn is_expired(&self) -> (r: bool)
        ensures
            exists|now: u64| r == (ttl_left(self.original_ttl, self.inserted_at, now) == 0),
    {
        self.remaining_ttl() == 0
    }
}

/// The view of an entry that may be absent.
pub open spec fn opt_entry_view(o: Option<CacheEntry>) -> Option<EntryV> {
    match o {
        Some(e) => Some(e@),
        None => None,
    }
}

/// Cache statistics: the number of entries and the hit and miss counts.
#[derive(Debug, Clone, Copy)]
pub struct CacheStats {
    pub size: u64,
    pub hits: u64,
    pub misses: u64,
}

struct Slot {
    name: DnsName,
    rtype: RecordType,
    entry: CacheEntry,
}

pub struct SlotV {
    pub key: (Seq<Seq<u8>>, u16),
    pub entry: EntryV,
}

impl View for Slot {
    type V = SlotV;

    closed spec fn view(&self) -> SlotV {
        SlotV { key: cache_key(self.name@, self.rtype), entry: self.entry@ }
    }
}

spec fn slots_view(v: Seq<Slot>) -> Seq<SlotV> {
    v.map_values(|s: Slot| s@)
}

/// The abstract cache: its entries, oldest first, its limits and counters.
pub struct CacheV {
    pub slots: Seq<SlotV>,
    pub max_entries: u64,
    pub min_ttl: u32,
    pub max_ttl: u32,
    pub negative_ttl: u32,
    pub hits: u64,
    pub misses: u64,
}

/// Some entry has key `k`.
pub open spec fn has_key(slots: Seq<SlotV>, k: (Seq<Seq<u8>>, u16)) -> bool {
    exists|i: int| 0 <= i < slots.len() && (#[trigger] slots[i]).key == k
}

/// The position of the entry with key `k`.
pub open spec fn key_index(slots: Seq<SlotV>, k: (Seq<Seq<u8>>, u16)) -> int {
    choose|i: int| 0 <= i < slots.len() && (#[trigger] slots[i]).key == k
}

/// No two entries share a key, and there are at most `max_entries` of them.
pub open spec fn cache_wf(c: CacheV) -> bool {
    &&& forall|i: int, j: int| 0 <= i < j < c.slots.len() ==> (#[trigger] c.slots[i]).key != (#[trigger] c.slots[j]).key
    &&& c.slots.len() <= c.max_entries
}

/// The entries after a lookup of `k` at `now`, and what it finds: an expired
/// entry is removed and not returned; a live one is returned and becomes the
/// most recently used (it moves to the end, the last to be evicted).
pub open spec fn spec_get(slots: Seq<SlotV>, k: (Seq<Seq<u8>>, u16), now: u64) -> (Seq<SlotV>, Option<EntryV>) {
    if !has_key(slots, k) {
        (slots, None)
    } else {
        let i = key_index(slots, k);
        let e = slots[i].entry;
        if ttl_left(e.original_ttl, e.inserted_at, now) == 0 {
            (slots.remove(i), None)
        } else {
            (slots.remove(i).push(slots[i]), Some(e))
        }
    }
}

/// The entries after storing `e` under `k`: an entry with that key is
/// replaced; when the cache is full the least recently used entry (the first)
/// makes room; a cache of size 0 stores nothing.
pub open spec fn spec_put(slots: Seq<SlotV>, max_entries: u64, k: (Seq<Seq<u8>>, u16), e: EntryV) -> Seq<SlotV> {
    let base = if has_key(slots, k) { slots.remove(key_index(slots, k)) } else { slots };
    if max_entries == 0 {
        base
    } else if base.len() >= max_entries {
        base.drop_first().push(SlotV { key: k, entry: e })
    } else {
        base.push(SlotV { key: k, entry: e })
    }
}

/// The entries kept when flushing `name`: those of every other name.
pub open spec fn spec_flush_name(slots: Seq<SlotV>, name: Seq<Seq<u8>>) -> Seq<SlotV> {
    slots.filter(|s: SlotV| !(s.key.0 == canon(name)))
}

/// The cache after storing a positive response at `now`, its TTL clamped.
pub open spec fn spec_insert(c: CacheV, k: (Seq<Seq<u8>>, u16), records: Seq<RecordV>, ttl: u32, now: u64) -> CacheV {
    CacheV {
        slots: spec_put(c.slots, c.max_entries, k, EntryV {
            records,
            response_code: ResponseCode::NoError,
            original_ttl: spec_clamp_ttl(ttl, c.min_ttl, c.max_ttl),
            inserted_at: now,
        }),
        ..c
    }
}

/// The cache after storing a negative response at `now`.
pub open spec fn spec_insert_negative(c: CacheV, k: (Seq<Seq<u8>>, u16), rcode: ResponseCode, now: u64) -> CacheV {
    CacheV {
        slots: spec_put(c.slots, c.max_entries, k, EntryV {
            records: Seq::empty(),
            response_code: rcode,
            original_ttl: spec_negative_ttl(c.negative_ttl, c.min_ttl, c.max_ttl),
            inserted_at: now,
        }),
        ..c
    }
}

/// DNS response cache with TTL expiry, TTL clamping, negative entries and a
/// size limit.
pub struct DnsCache {
    slots: Vec<Slot>,
    max_entries: u64,
    min_ttl: u32,
    max_ttl: u32,
    negative_ttl: u32,
    hits: u64,
    misses: u64,
    clock: std::time::Instant,
}

impl View for DnsCache {
    type V = CacheV;

    closed spec fn view(&self) -> CacheV {
        CacheV {
            slots: slots_view(self.slots@),
            max_entries: self.max_entries,
            min_ttl: self.min_ttl,
            max_ttl: self.max_ttl,
            negative_ttl: self.negative_ttl,
            hits: self.hits,
            misses: self.misses,
        }
    }
}

proof fn lemma_key_index(slots: Seq<SlotV>, i: int, k: (Seq<Seq<u8>>, u16))
    requires
        forall|a: int, b: int| 0 <= a < b < slots.len() ==> (#[trigger] slots[a]).key != (#[trigger] slots[b]).key,
        0 <= i < slots.len(),
        slots[i].key == k,
    ensures
        has_key(slots, k),
        key_index(slots, k) == i,
{
    let j = key_index(slots, k);
    assert(slots[j].key == k);
    if j < i {
        assert(slots[j].key != slots[i].key);
    } else if j > i {
        assert(slots[i].key != slots[j].key);
    }
}

/// Removing an entry keeps the keys distinct.
proof fn lemma_remove_keeps_distinct(slots: Seq<SlotV>, i: int)
    requires
        forall|a: int, b: int| 0 <= a < b < slots.len() ==> (#[trigger] slots[a]).key != (#[trigger] slots[b]).key,
        0 <= i < slots.len(),
    ensures
        forall|a: int, b: int| 0 <= a < b < slots.remove(i).len() ==> (#[trigger] slots.remove(i)[a]).key != (#[trigger] slots.remove(i)[b]).key,
{
    let m = slots.remove(i);
    assert forall|a: int, b: int| 0 <= a < b < m.len() implies (#[trigger] m[a]).key != (#[trigger] m[b]).key by {
        let oa = if a < i { a } else { a + 1 };
        let ob = if b < i { b } else { b + 1 };
        assert(m[a] == slots[oa] && m[b] == slots[ob]);
    }
}

/// Moving an entry to the end keeps the keys distinct and the size.
proof fn lemma_move_to_end(slots: Seq<SlotV>, i: int)
    requires
        forall|a: int, b: int| 0 <= a < b < slots.len() ==> (#[trigger] slots[a]).key != (#[trigger] slots[b]).key,
        0 <= i < slots.len(),
    ensures
        ({
            let m = slots.remove(i).push(slots[i]);
            &&& m.len() == slots.len()
            &&& forall|a: int, b: int| 0 <= a < b < m.len() ==> (#[trigger] m[a]).key != (#[trigger] m[b]).key
        }),
{
    let m = slots.remove(i).push(slots[i]);
    assert forall|a: int, b: int| 0 <= a < b < m.len() implies (#[trigger] m[a]).key != (#[trigger] m[b]).key by {
        let oa = if a < i { a } else { a + 1 };
        assert(m[a] == slots[oa]);
        if b == m.len() - 1 {
            assert(m[b] == slots[i]);
            assert(oa != i);
        } else {
            let ob = if b < i { b } else { b + 1 };
            assert(m[b] == slots[ob]);
            assert(oa < ob);
        }
    }
}

impl DnsCache {
    /// The entries have distinct keys and never outnumber the size limit.
    #[verifier::type_invariant]
    spec fn well_formed(self) -> bool {
        cache_wf(self@)
    }

    /// An empty cache holding at most `max_entries` entries.
    pub fn new(max_entries: u64, min_ttl: u32, max_ttl: u32, negative_ttl: u32) -> (r: DnsCache)
        ensures
            r@ == (CacheV { slots: Seq::empty(), max_entries, min_ttl, max_ttl, negative_ttl, hits: 0, misses: 0 }),
            cache_wf(r@),
    {
        let r = DnsCache {
            slots: Vec::new(),
            max_entries,
            min_ttl,
            max_ttl,
            negative_ttl,
            hits: 0,
            misses: 0,
            clock: clock_now(),
        };
        assert(slots_view(r.slots@) =~= Seq::empty());
        r
    }

    /// Seconds elapsed on the cache clock: whole seconds of the nanoseconds
    /// read since the cache was made.
    pub fn now(&self) -> (r: u64)
        ensures
            exists|nanos: u64| r == whole_seconds(nanos),
    {
        seconds_since(&self.clock)
    }

    fn find(&self, name: &DnsName, rtype: RecordType) -> (r: Option<usize>)
        requires
            cache_wf(self@),
        ensures
            match r {
                None => !has_key(self@.slots, cache_key(name@, rtype)),
                Some(i) => i < self@.slots.len() && key_index(self@.slots, cache_key(name@, rtype)) == i
                    && has_key(self@.slots, cache_key(name@, rtype)),
            },
    {
        let ghost k = cache_key(name@, rtype);
        let ghost sv = self@.slots;
        let code = rtype.code();
        let mut i: usize = 0;
        while i < self.slots.len()
            invariant
                i <= self.slots@.len(),
                sv == slots_view(self.slots@),
                sv == self@.slots,
                cache_wf(self@),
                k == cache_key(name@, rtype),
                code == type_code(rtype),
                forall|j: int| 0 <= j < i ==> (#[trigger] sv[j]).key != k,
            decreases self.slots@.len() - i,
        {
            let s = &self.slots[i];
            assert(sv[i as int] == s@);
            if s.name.same_name(name) && s.rtype.code() == code {
                assert(sv[i as int].key == k);
                proof {
                    lemma_key_index(sv, i as int, k);
                }
                return Some(i);
            }
            i = i + 1;
        }
        None
    }

    /// Look up the entry for `name` and `rtype` at time `now`: an expired
    /// entry is removed and counts as a miss.
    pub fn get_at(&mut self, name: &DnsName, rtype: RecordType, now: u64) -> (r: Option<CacheEntry>)
        ensures
            final(self)@.slots == spec_get(old(self)@.slots, cache_key(name@, rtype), now).0,
            opt_entry_view(r) == spec_get(old(self)@.slots, cache_key(name@, rtype), now).1,
            final(self)@.hits == (if r is Some { bump(old(self)@.hits) } else { old(self)@.hits }),
            final(self)@.misses == (if r is None { bump(old(self)@.misses) } else { old(self)@.misses }),
            final(self)@.max_entries == old(self)@.max_entries,
            final(self)@.min_ttl == old(self)@.min_ttl,
            final(self)@.max_ttl == old(self)@.max_ttl,
            final(self)@.negative_ttl == old(self)@.negative_ttl,
    {
        proof {
            use_type_invariant(&*self);
        }
        match self.find(name, rtype) {
            None => {
                self.misses = if self.misses == u64::MAX { 0 } else { self.misses + 1 };
                None
            },
            Some(i) => {
                let ghost before = slots_view(self.slots@);
                let mut slots: Vec<Slot> = Vec::new();
                std::mem::swap(&mut slots, &mut self.slots);
                assert(slots_view(slots@) == before);
                if slots[i].entry.remaining_ttl_at(now) == 0 {
                    slots.remove(i);
                    assert(slots_view(slots@) =~= before.remove(i as int));
                    proof {
                        lemma_remove_keeps_distinct(before, i as int);
                    }
                    self.slots = slots;
                    self.misses = if self.misses == u64::MAX { 0 } else { self.misses + 1 };
                    None
                } else {
                    let slot = slots.remove(i);
                    let found = slot.entry.clone();
                    slots.push(slot);
                    assert(slots_view(slots@) =~= before.remove(i as int).push(before[i as int]));
                    proof {
                        lemma_move_to_end(before, i as int);
                    }
                    self.slots = slots;
                    self.hits = if self.hits == u64::MAX { 0 } else { self.hits + 1 };
                    Some(found)
                }
            },
        }
    }

    /// Look up the entry for `name` and `rtype` now.
    pub fn get(&mut self, name: &DnsName, rtype: RecordType) -> (r: Option<CacheEntry>)
        ensures
            exists|now: u64| {
                &&& final(self)@.slots == (#[trigger] spec_get(old(self)@.slots, cache_key(name@, rtype), now)).0
                &&& opt_entry_view(r) == spec_get(old(self)@.slots, cache_key(name@, rtype), now).1
            },
            final(self)@.hits == (if r is Some { bump(old(self)@.hits) } else { old(self)@.hits }),
            final(self)@.misses == (if r is None { bump(old(self)@.misses) } else { old(self)@.misses }),
            final(self)@.max_entries == old(self)@.max_entries,
    {
        let now = self.now();
        self.get_at(name, rtype, now)
    }

    fn put(&mut self, name: &DnsName, rtype: RecordType, entry: CacheEntry)
        ensures
            final(self)@ == (CacheV { slots: spec_put(old(self)@.slots, old(self)@.max_entries, cache_key(name@, rtype), entry@), ..old(self)@ }),
    {
        let ghost k = cache_key(name@, rtype);
        let ghost ev = entry@;
        proof {
            use_type_invariant(&*self);
        }
        let ghost s0 = self@.slots;
        let found = self.find(name, rtype);
        let mut slots: Vec<Slot> = Vec::new();
        std::mem::swap(&mut slots, &mut self.slots);
        assert(slots_view(slots@) == s0);
        match found {
            Some(i) => {
                slots.remove(i);
                assert(slots_view(slots@) =~= s0.remove(i as int));
                proof {
                    lemma_remove_keeps_distinct(s0, i as int);
                }
            },
            None => {},
        }
        let ghost base = slots_view(slots@);
        assert(base == (if has_key(s0, k) { s0.remove(key_index(s0, k)) } else { s0 }));
        assert(!has_key(base, k)) by {
            if has_key(base, k) {
                let j = choose|j: int| 0 <= j < base.len() && (#[trigger] base[j]).key == k;
                let i = key_index(s0, k);
                if j < i {
                    assert(base[j] == s0[j]);
                } else {
                    assert(base[j] == s0[j + 1]);
                }
            }
        }
        if self.max_entries == 0 {
            self.slots = slots;
            return;
        }
        if slots.len() as u64 >= self.max_entries {
            slots.remove(0);
            assert(slots_view(slots@) =~= base.drop_first());
        }
        let ghost mid = slots_view(slots@);
        let slot = Slot { name: name.clone(), rtype, entry };
        slots.push(slot);
        assert(slots_view(slots@) =~= mid.push(SlotV { key: k, entry: ev }));
        assert forall|i: int, j: int| 0 <= i < j < slots_view(slots@).len() implies (#[trigger] slots_view(slots@)[i]).key != (#[trigger] slots_view(slots@)[j]).key by {
            let sv = slots_view(slots@);
            if j == sv.len() - 1 {
                if sv[i].key == k {
                    if base.len() >= self.max_entries {
                        assert(base[i + 1] == mid[i]);
                        assert(has_key(base, k));
                    } else {
                        assert(base[i] == mid[i]);
                        assert(has_key(base, k));
                    }
                }
            } else {
                if base.len() >= self.max_entries {
                    assert(mid[i] == base[i + 1] && mid[j] == base[j + 1]);
                    if i + 1 >= 0 && j + 1 < base.len() {
                        if s0.len() > 0 && has_key(s0, k) {
                            let q = key_index(s0, k);
                            let bi = i + 1;
                            let bj = j + 1;
                            let oi = if bi < q { bi } else { bi + 1 };
                            let oj = if bj < q { bj } else { bj + 1 };
                            assert(base[bi] == s0[oi] && base[bj] == s0[oj]);
                        }
                    }
                } else {
                    if has_key(s0, k) {
                        let q = key_index(s0, k);
                        let oi = if i < q { i } else { i + 1 };
                        let oj = if j < q { j } else { j + 1 };
                        assert(base[i] == s0[oi] && base[j] == s0[oj]);
                    }
                }
            }
        }
        self.slots = slots;
    }

    /// Store a positive response, its TTL clamped to the cache limits, at time `now`.
    pub fn insert_at(&mut self, name: &DnsName, rtype: RecordType, records: Vec<Record>, ttl: u32, now: u64)
        ensures
            final(self)@ == spec_insert(old(self)@, cache_key(name@, rtype), records_view(records@), ttl, now),
    {
        let ttl = self.clamp_ttl(ttl);
        let entry = CacheEntry { records, response_code: ResponseCode::NoError, original_ttl: ttl, inserted_at: now, clock: self.clock };
        self.put(name, rtype, entry);
    }

    /// Store a positive response now, its TTL clamped to the cache limits.
    pub fn insert(&mut self, name: &DnsName, rtype: RecordType, records: Vec<Record>, ttl: u32)
        ensures
            exists|now: u64| final(self)@ == #[trigger] spec_insert(old(self)@, cache_key(name@, rtype), records_view(records@), ttl, now),
    {
        let now = self.now();
        self.insert_at(name, rtype, records, ttl, now);
    }

    /// Store a negative response (NXDOMAIN or NODATA) at time `now`, with the
    /// negative TTL kept within the cache limits.
    pub fn insert_negative_at(&mut self, name: &DnsName, rtype: RecordType, response_code: ResponseCode, now: u64)
        ensures
            final(self)@ == spec_insert_negative(old(self)@, cache_key(name@, rtype), response_code, now),
    {
        let lowered = if self.negative_ttl > self.max_ttl { self.max_ttl } else { self.negative_ttl };
        let ttl = if lowered < self.min_ttl { self.min_ttl } else { lowered };
        let records: Vec<Record> = Vec::new();
        assert(records_view(records@) =~= Seq::empty());
        let entry = CacheEntry { records, response_code, original_ttl: ttl, inserted_at: now, clock: self.clock };
        self.put(name, rtype, entry);
    }

    /// Store a negative response (NXDOMAIN or NODATA) now.
    pub fn insert_negative(&mut self, name: &DnsName, rtype: RecordType, response_code: ResponseCode)
        ensures
            exists|now: u64| final(self)@ == #[trigger] spec_insert_negative(old(self)@, cache_key(name@, rtype), response_code, now),
    {
        let now = self.now();
        self.insert_negative_at(name, rtype, response_code, now);
    }

    /// Remove every entry.
    pub fn flush_all(&mut self)
        ensures
            final(self)@ == (CacheV { slots: Seq::empty(), ..old(self)@ }),
    {
        self.slots = Vec::new();
        assert(slots_view(self.slots@) =~= Seq::empty());
    }

    /// Remove the entries of `name`, of every record type.
    pub fn flush_name(&mut self, name: &DnsName)
        ensures
            final(self)@ == (CacheV { slots: spec_flush_name(old(self)@.slots, name@), ..old(self)@ }),
    {
        proof {
            use_type_invariant(&*self);
        }
        let ghost old_sv = self@.slots;
        let ghost keep = |s: SlotV| !(s.key.0 == canon(name@));
        let mut kept: Vec<Slot> = Vec::new();
        let mut rest: Vec<Slot> = Vec::new();
        std::mem::swap(&mut rest, &mut self.slots);
        let n = rest.len();
        let mut i: usize = 0;
        assert(old_sv.subrange(0, 0) =~= Seq::<SlotV>::empty());
        assert(slots_view(kept@) =~= Seq::<SlotV>::empty());
        while i < n
            invariant
                n == rest@.len(),
                i <= n,
                kept@.len() <= i,
                n <= self@.max_entries,
                old_sv == slots_view(rest@),
                slots_view(kept@) == old_sv.subrange(0, i as int).filter(keep),
                keep == (|s: SlotV| !(s.key.0 == canon(name@))),
                forall|a: int, b: int| 0 <= a < b < old_sv.len() ==> (#[trigger] old_sv[a]).key != (#[trigger] old_sv[b]).key,
                forall|a: int, b: int| 0 <= a < b < kept@.len() ==> (#[trigger] slots_view(kept@)[a]).key != (#[trigger] slots_view(kept@)[b]).key,
                forall|a: int| 0 <= a < kept@.len() ==> exists|j: int| 0 <= j < i && (#[trigger] slots_view(kept@)[a]).key == (#[trigger] old_sv[j]).key,
            decreases n - i,
        {
            let ghost prefix = old_sv.subrange(0, i as int);
            assert(old_sv.subrange(0, i + 1) =~= prefix.push(old_sv[i as int]));
            reveal_with_fuel(Seq::filter, 1);
            assert(prefix.push(old_sv[i as int]).drop_last() =~= prefix);
            let s = &rest[i];
            assert(old_sv[i as int] == s@);
            if !s.name.same_name(name) {
                let ghost before = slots_view(kept@);
                kept.push(Slot { name: s.name.clone(), rtype: s.rtype, entry: s.entry.clone() });
                assert(slots_view(kept@) =~= before.push(old_sv[i as int]));
                let ghost kv = slots_view(kept@);
                assert forall|a: int, b: int| 0 <= a < b < kept@.len() implies (#[trigger] kv[a]).key != (#[trigger] kv[b]).key by {
                    if b == kv.len() - 1 {
                        let j = choose|j: int| 0 <= j < i && (#[trigger] before[a]).key == (#[trigger] old_sv[j]).key;
                        assert(old_sv[j].key != old_sv[i as int].key);
                    } else {
                        assert(kv[a] == before[a] && kv[b] == before[b]);
                    }
                }
                assert forall|a: int| 0 <= a < kept@.len() implies exists|j: int| 0 <= j < i + 1 && (#[trigger] kv[a]).key == (#[trigger] old_sv[j]).key by {
                    if a == kv.len() - 1 {
                        assert(kv[a].key == old_sv[i as int].key);
                    } else {
                        assert(kv[a] == before[a]);
                        let j = choose|j: int| 0 <= j < i && (#[trigger] before[a]).key == (#[trigger] old_sv[j]).key;
                        assert(kv[a].key == old_sv[j].key);
                    }
                }
            }
            i = i + 1;
        }
        assert(old_sv.subrange(0, n as int) =~= old_sv);
        self.slots = kept;
    }

    /// The number of entries and the hit and miss counts.
    pub fn stats(&self) -> (r: CacheStats)
        ensures
            r.size == self@.slots.len(),
            r.hits == self@.hits,
            r.misses == self@.misses,
    {
        CacheStats { size: self.slots.len() as u64, hits: self.hits, misses: self.misses }
    }

    /// `ttl` kept within the cache's TTL limits.
    pub fn clamp_ttl(&self, ttl: u32) -> (r: u32)
        ensures
            r == spec_clamp_ttl(ttl, self@.min_ttl, self@.max_ttl),
    {
        let raised = if ttl < self.min_ttl { self.min_ttl } else { ttl };
        if raised > self.max_ttl { self.max_ttl } else { raised }
    }
}

proof fn lemma_put_last(slots: Seq<SlotV>, max_entries: u64, k: (Seq<Seq<u8>>, u16), e: EntryV)
    requires
        forall|a: int, b: int| 0 <= a < b < slots.len() ==> (#[trigger] slots[a]).key != (#[trigger] slots[b]).key,
        max_entries > 0,
    ensures
        ({
            let r = spec_put(slots, max_entries, k, e);
            &&& r.len() > 0
            &&& r[r.len() - 1] == (SlotV { key: k, entry: e })
            &&& has_key(r, k)
            &&& key_index(r, k) == r.len() - 1
        }),
{
    let base = if has_key(slots, k) { slots.remove(key_index(slots, k)) } else { slots };
    assert(!has_key(base, k)) by {
        if has_key(base, k) {
            let j = choose|j: int| 0 <= j < base.len() && (#[trigger] base[j]).key == k;
            let i = key_index(slots, k);
            if j < i {
                assert(base[j] == slots[j]);
            } else {
                assert(base[j] == slots[j + 1]);
            }
        }
    }
    let r = spec_put(slots, max_entries, k, e);
    let last = r.len() - 1;
    assert(r[last] == SlotV { key: k, entry: e });
    assert forall|j: int| 0 <= j < r.len() && (#[trigger] r[j]).key == k implies j == last by {
        if j != last {
            if base.len() >= max_entries {
                assert(r[j] == base[j + 1]);
            } else {
                assert(r[j] == base[j]);
            }
        }
    }
    assert(r[last].key == k);
    let q = key_index(r, k);
    assert(r[q].key == k);
}

/// A lookup right after a store, at the same time and under the same key,
/// finds the stored records, unless the clamped TTL is zero or the cache
/// holds nothing.
pub proof fn lemma_insert_then_get(c: CacheV, k: (Seq<Seq<u8>>, u16), records: Seq<RecordV>, ttl: u32, now: u64)
    requires
        cache_wf(c),
        c.max_entries > 0,
        spec_clamp_ttl(ttl, c.min_ttl, c.max_ttl) > 0,
    ensures
        spec_get(spec_insert(c, k, records, ttl, now).slots, k, now) == (spec_insert(c, k, records, ttl, now).slots, Some(EntryV {
            records,
            response_code: ResponseCode::NoError,
            original_ttl: spec_clamp_ttl(ttl, c.min_ttl, c.max_ttl),
            inserted_at: now,
        })),
{
    let e = EntryV {
        records,
        response_code: ResponseCode::NoError,
        original_ttl: spec_clamp_ttl(ttl, c.min_ttl, c.max_ttl),
        inserted_at: now,
    };
    lemma_put_last(c.slots, c.max_entries, k, e);
    let r = spec_put(c.slots, c.max_entries, k, e);
    assert(r.remove(r.len() - 1).push(r[r.len() - 1]) =~= r);
}

/// A lookup under the same key at any time before the clamped TTL has run
/// out since the store, with nothing done in between, finds the stored
/// records.
pub proof fn lemma_insert_then_get_later(c: CacheV, k: (Seq<Seq<u8>>, u16), records: Seq<RecordV>, ttl: u32, now: u64, later: u64)
    requires
        cache_wf(c),
        c.max_entries > 0,
        now <= later,
        later - now < spec_clamp_ttl(ttl, c.min_ttl, c.max_ttl),
    ensures
        spec_get(spec_insert(c, k, records, ttl, now).slots, k, later).1 == Some(EntryV {
            records,
            response_code: ResponseCode::NoError,
            original_ttl: spec_clamp_ttl(ttl, c.min_ttl, c.max_ttl),
            inserted_at: now,
        }),
{
    let e = EntryV {
        records,
        response_code: ResponseCode::NoError,
        original_ttl: spec_clamp_ttl(ttl, c.min_ttl, c.max_ttl),
        inserted_at: now,
    };
    lemma_put_last(c.slots, c.max_entries, k, e);
    assert(ttl_left(e.original_ttl, now, later) > 0);
}

/// A hit makes its entry the most recently used: it moves to the end, after
/// every other entry, which keep their order.
pub proof fn lemma_hit_is_most_recent(slots: Seq<SlotV>, k: (Seq<Seq<u8>>, u16), now: u64)
    requires
        has_key(slots, k),
        ttl_left(slots[key_index(slots, k)].entry.original_ttl, slots[key_index(slots, k)].entry.inserted_at, now) > 0,
    ensures
        spec_get(slots, k, now).0.len() == slots.len(),
        spec_get(slots, k, now).0.last() == slots[key_index(slots, k)],
        spec_get(slots, k, now).0.drop_last() == slots.remove(key_index(slots, k)),
{
    let i = key_index(slots, k);
    assert(slots.remove(i).push(slots[i]).drop_last() =~= slots.remove(i));
}

/// Storing a new key in a full cache evicts the least recently used entry,
/// the first one, and keeps the size at the limit.
pub proof fn lemma_full_cache_evicts_least_recent(slots: Seq<SlotV>, max_entries: u64, k: (Seq<Seq<u8>>, u16), e: EntryV)
    requires
        max_entries > 0,
        slots.len() == max_entries,
        !has_key(slots, k),
    ensures
        spec_put(slots, max_entries, k, e) == slots.drop_first().push(SlotV { key: k, entry: e }),
        spec_put(slots, max_entries, k, e).len() == max_entries,
{
}

/// A negative answer stored now is found by a lookup at the same time, with
/// no records and the stored response code, unless its TTL is zero or the
/// cache holds nothing.
pub proof fn lemma_negative_then_get(c: CacheV, k: (Seq<Seq<u8>>, u16), rcode: ResponseCode, now: u64)
    requires
        cache_wf(c),
        c.max_entries > 0,
        spec_negative_ttl(c.negative_ttl, c.min_ttl, c.max_ttl) > 0,
    ensures
        spec_get(spec_insert_negative(c, k, rcode, now).slots, k, now).1 == Some(EntryV {
            records: Seq::empty(),
            response_code: rcode,
            original_ttl: spec_negative_ttl(c.negative_ttl, c.min_ttl, c.max_ttl),
            inserted_at: now,
        }),
{
    let e = EntryV {
        records: Seq::empty(),
        response_code: rcode,
        original_ttl: spec_negative_ttl(c.negative_ttl, c.min_ttl, c.max_ttl),
        inserted_at: now,
    };
    lemma_put_last(c.slots, c.max_entries, k, e);
}

/// With `min_ttl <= max_ttl`, stored TTLs, positive and negative, lie within
/// the limits.
pub proof fn lemma_ttl_within_limits(ttl: u32, negative_ttl: u32, min_ttl: u32, max_ttl: u32)
    requires
        min_ttl <= max_ttl,
    ensures
        min_ttl <= spec_clamp_ttl(ttl, min_ttl, max_ttl) <= max_ttl,
        min_ttl <= ttl <= max_ttl ==> spec_clamp_ttl(ttl, min_ttl, max_ttl) == ttl,
        min_ttl <= spec_negative_ttl(negative_ttl, min_ttl, max_ttl) <= max_ttl,
{
}

/// An entry's TTL runs out: it is the full TTL at the time it was stored, and
/// zero once that many seconds have passed.
pub proof fn lemma_ttl_runs_out(original: u32, inserted_at: u64, now: u64)
    ensures
        ttl_left(original, inserted_at, inserted_at) == original,
        ttl_left(original, inserted_at, now) <= original,
        now >= inserted_at + original ==> ttl_left(original, inserted_at, now) == 0,
{
}

/// Flushing a name removes exactly its entries, of every type.
pub proof fn lemma_flush_name_keys(slots: Seq<SlotV>, name: Seq<Seq<u8>>, k: (Seq<Seq<u8>>, u16))
    ensures
        has_key(spec_flush_name(slots, name), k) <==> (has_key(slots, k) && !(k.0 == canon(name))),
{
    let keep = |s: SlotV| !(s.key.0 == canon(name));
    let f = slots.filter(keep);
    if has_key(f, k) {
        let j = choose|j: int| 0 <= j < f.len() && (#[trigger] f[j]).key == k;
        assert(f.contains(f[j]));
        slots.lemma_filter_contains_rev(keep, f[j]);
        let i = choose|i: int| 0 <= i < slots.len() && slots[i] == f[j];
        assert(slots[i].key == k);
    }
    if has_key(slots, k) && !(k.0 == canon(name)) {
        let i = choose|i: int| 0 <= i < slots.len() && (#[trigger] slots[i]).key == k;
        slots.lemma_filter_contains(keep, i);
        let j = choose|j: int| 0 <= j < f.len() && f[j] == slots[i];
        assert(f[j].key == k);
    }
}

/// After a flush nothing is found.
pub proof fn lemma_flush_all_then_miss(k: (Seq<Seq<u8>>, u16), now: u64)
    ensures
        spec_get(Seq::<SlotV>::empty(), k, now).1 is None,
{
}

} // verus!
