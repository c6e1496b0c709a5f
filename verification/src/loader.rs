use crate::name::{canon, DnsName};
use crate::resolver::{trim_bounds, trim_end, trim_start, ws_prefix, ws_prefix_len};
use crate::types::{records_view, RecordType, RecordV, Record};
use crate::wire::{
    canon_record, canonical_record_list, name_from_ascii, name_from_ascii_bytes, opt_name_view,
    parse_zone_text, zone_text_records, zone_text_view,
};
use crate::zone::{Zone, ZoneV};
use vstd::prelude::*;
use vstd::string::StringSliceAdditionalSpecFns;

verus! {

/// The file name of a path without its extension (`Path::file_stem`), as
/// UTF-8 bytes, if it has one that is UTF-8.
pub uninterp spec fn path_file_stem(path: Seq<char>) -> Option<Seq<u8>>;

pub open spec fn opt_bytes(o: Option<Vec<u8>>) -> Option<Seq<u8>> {
    match o {
        Some(b) => Some(b@),
        None => None,
    }
}

/// `Path::file_stem` of a path, as UTF-8 bytes.
#[verifier::external_body]
fn file_stem(path: &str) -> (r: Option<Vec<u8>>)
    ensures
        opt_bytes(r) == path_file_stem(path@),
{
    std::path::Path::new(path).file_stem().and_then(|s| s.to_str()).map(|s| s.as_bytes().to_vec())
}

/// An error loading a zone.
#[derive(Debug)]
pub enum ZoneLoadError {
    Io { path: String, reason: String },
    Parse { path: String, reason: String },
    MissingSoa { path: String },
    DirRead(String),
}

impl ZoneLoadError {
    pub open spec fn spec_message(&self) -> Seq<char> {
        match self {
            ZoneLoadError::Io { path, reason } => "failed to read zone file "@ + path@ + ": "@ + reason@,
            ZoneLoadError::Parse { path, reason } => "failed to parse zone file "@ + path@ + ": "@ + reason@,
            ZoneLoadError::MissingSoa { path } => "zone file "@ + path@ + " has no SOA record"@,
            ZoneLoadError::DirRead(reason) => "failed to read zone directory: "@ + reason@,
        }
    }

    /// The message that describes the error.
    pub fn message(&self) -> (r: String)
        ensures
            r@ == self.spec_message(),
    {
        match self {
            ZoneLoadError::Io { path, reason } => {
                let mut s = "failed to read zone file ".to_owned();
                s.append(path.as_str());
                s.append(": ");
                s.append(reason.as_str());
                s
            },
            ZoneLoadError::Parse { path, reason } => {
                let mut s = "failed to parse zone file ".to_owned();
                s.append(path.as_str());
                s.append(": ");
                s.append(reason.as_str());
                s
            },
            ZoneLoadError::MissingSoa { path } => {
                let mut s = "zone file ".to_owned();
                s.append(path.as_str());
                s.append(" has no SOA record");
                s
            },
            ZoneLoadError::DirRead(reason) => {
                let mut s = "failed to read zone directory: ".to_owned();
                s.append(reason.as_str());
                s
            },
        }
    }
}

/// The length of the first line of `s` (up to the first newline).
pub open spec fn line_len(s: Seq<u8>) -> nat
    decreases s.len(),
{
    if s.len() == 0 || s[0] == 10 { 0 } else { 1 + line_len(s.drop_first()) }
}

pub open spec fn trim(s: Seq<u8>) -> Seq<u8> {
    trim_end(trim_start(s))
}

/// `s` without the `;` characters at its end.
pub open spec fn trim_semicolons(s: Seq<u8>) -> Seq<u8>
    decreases s.len(),
{
    if s.len() > 0 && s.last() == 59 { trim_semicolons(s.drop_last()) } else { s }
}

/// The first word of `s`, which starts with no white space: its bytes up to
/// the first white space.
pub open spec fn word_len(s: Seq<u8>) -> nat
    decreases s.len(),
{
    if s.len() == 0 || ws_prefix(s) > 0 { 0 } else { 1 + word_len(s.drop_first()) }
}

/// The bytes of "$ORIGIN".
pub open spec fn origin_directive() -> Seq<u8> {
    seq![36u8, 79u8, 82u8, 73u8, 71u8, 73u8, 78u8]
}

/// The name given after `$ORIGIN` on a line: the rest of the line trimmed,
/// trailing `;` dropped, its first word; none if there is no word.
pub open spec fn origin_word(rest: Seq<u8>) -> Option<Seq<u8>> {
    let t = trim_semicolons(trim(rest));
    let n = word_len(t);
    if n == 0 { None } else { Some(t.subrange(0, n as int)) }
}

/// The first line whose trimmed text starts with `$ORIGIN`: `Some` of the
/// word it names (or of none), `None` when there is no such line.
pub open spec fn scan_origin(s: Seq<u8>) -> Option<Option<Seq<u8>>>
    decreases s.len(),
{
    let l = line_len(s);
    let t = trim(s.subrange(0, l as int));
    if t.len() >= 7 && t.subrange(0, 7) == origin_directive() {
        Some(origin_word(t.subrange(7, t.len() as int)))
    } else if l >= s.len() {
        None
    } else {
        scan_origin(s.subrange(l + 1 as int, s.len() as int))
    }
}

/// The origin a zone file declares with `$ORIGIN`, on the first line that
/// has the directive.
pub open spec fn spec_extract_origin(content: Seq<u8>) -> Option<Seq<Seq<u8>>> {
    match scan_origin(content) {
        Some(Some(w)) => name_from_ascii_bytes(w),
        _ => None,
    }
}

proof fn lemma_line_len(s: Seq<u8>, i: int)
    requires
        0 <= i <= s.len(),
        forall|j: int| 0 <= j < i ==> s[j] != 10,
        i == s.len() || s[i] == 10,
    ensures
        line_len(s) == i,
    decreases i,
{
    if i > 0 {
        lemma_line_len(s.drop_first(), i - 1);
    }
}

fn origin_of_line(b: &[u8], s: usize, e: usize) -> (r: Option<Vec<u8>>)
    requires
        s <= e <= b@.len(),
        e - s >= 7,
    ensures
        opt_bytes(r) == origin_word(b@.subrange(s as int, e as int).subrange(7, (e - s) as int)),
{
    let ghost rest = b@.subrange(s as int, e as int).subrange(7, (e - s) as int);
    assert(rest =~= b@.subrange(s + 7, e as int));
    let (ts, te) = trim_bounds(b, s + 7, e);
    let mut te2 = te;
    assert(b@.subrange(ts as int, te2 as int) == trim(rest));
    while te2 > ts && b[te2 - 1] == 59
        invariant
            s + 7 <= ts <= te2 <= te <= e <= b@.len(),
            trim_semicolons(trim(rest)) == trim_semicolons(b@.subrange(ts as int, te2 as int)),
        decreases te2 - ts,
    {
        assert(b@.subrange(ts as int, te2 as int).drop_last() =~= b@.subrange(ts as int, te2 - 1));
        te2 = te2 - 1;
    }
    let ghost t = b@.subrange(ts as int, te2 as int);
    assert(trim_semicolons(t) == t);
    let mut w = ts;
    while w < te2 && ws_prefix_len(b, w, te2) == 0
        invariant
            ts <= w <= te2 <= b@.len(),
            t == b@.subrange(ts as int, te2 as int),
            word_len(t) == (w - ts) + word_len(b@.subrange(w as int, te2 as int)),
        decreases te2 - w,
    {
        assert(b@.subrange(w as int, te2 as int).drop_first() =~= b@.subrange(w + 1, te2 as int));
        w = w + 1;
    }
    assert(word_len(b@.subrange(w as int, te2 as int)) == 0);
    if w == ts {
        return None;
    }
    let mut out: Vec<u8> = Vec::new();
    let mut k = ts;
    while k < w
        invariant
            ts <= k <= w <= te2 <= b@.len(),
            out@ == b@.subrange(ts as int, k as int),
        decreases w - k,
    {
        out.push(b[k]);
        assert(out@ =~= b@.subrange(ts as int, k + 1));
        k = k + 1;
    }
    assert(t.subrange(0, (w - ts) as int) =~= out@);
    Some(out)
}

fn scan_origin_exec(b: &[u8]) -> (r: Option<Option<Vec<u8>>>)
    ensures
        match r {
            None => scan_origin(b@) is None,
            Some(o) => scan_origin(b@) == Some(opt_bytes(o)),
        },
{
    let mut start: usize = 0;
    assert(b@.subrange(0, b@.len() as int) =~= b@);
    while start <= b.len()
        invariant
            start <= b@.len() + 1,
            start <= b@.len() ==> scan_origin(b@) == scan_origin(b@.subrange(start as int, b@.len() as int)),
            start > b@.len() ==> scan_origin(b@) is None,
        decreases b@.len() + 1 - start,
    {
        let ghost s = b@.subrange(start as int, b@.len() as int);
        let mut end = start;
        while end < b.len() && b[end] != 10
            invariant
                start <= end <= b@.len(),
                forall|j: int| start <= j < end ==> b@[j] != 10,
            decreases b@.len() - end,
        {
            end = end + 1;
        }
        proof {
            lemma_line_len(s, end - start);
            assert(s.subrange(0, end - start) =~= b@.subrange(start as int, end as int));
        }
        let (ts, te) = trim_bounds(b, start, end);
        let ghost t = b@.subrange(ts as int, te as int);
        if te - ts >= 7 && b[ts] == 36 && b[ts + 1] == 79 && b[ts + 2] == 82 && b[ts + 3] == 73 && b[ts + 4] == 71
            && b[ts + 5] == 73 && b[ts + 6] == 78 {
            assert(t.subrange(0, 7) =~= origin_directive());
            return Some(origin_of_line(b, ts, te));
        }
        proof {
            if t.len() >= 7 && t.subrange(0, 7) == origin_directive() {
                assert(t.subrange(0, 7)[0] == 36u8);
                assert(t.subrange(0, 7)[6] == 78u8);
            }
        }
        if end >= b.len() {
            return None;
        }
        assert(s.subrange((end - start) + 1, s.len() as int) =~= b@.subrange(end + 1, b@.len() as int));
        start = end + 1;
    }
    None
}

/// The origin a zone file declares with `$ORIGIN`, if any.
pub fn extract_origin(content: &str) -> (r: Option<DnsName>)
    ensures
        opt_name_view(r) == spec_extract_origin(content.spec_bytes()),
{
    let b = content.as_bytes();
    match scan_origin_exec(b) {
        Some(Some(w)) => name_from_ascii(w.as_slice()),
        _ => None,
    }
}

/// A record is the zone's SOA: an SOA record owned by the origin.
pub open spec fn is_apex_soa(r: RecordV, origin: Seq<Seq<u8>>) -> bool {
    r.rtype() == RecordType::SOA && canon(r.name) == canon(origin)
}

/// The zone built from a parsed zone file: the first apex SOA record, and
/// every other record added in order. `None` without an apex SOA.
pub open spec fn first_apex_soa(recs: Seq<RecordV>, origin: Seq<Seq<u8>>) -> Option<RecordV> {
    if exists|i: int| 0 <= i < recs.len() && is_apex_soa(#[trigger] recs[i], origin) {
        let i = choose|i: int|
            0 <= i < recs.len() && is_apex_soa(#[trigger] recs[i], origin) && forall|j: int|
                0 <= j < i ==> !is_apex_soa(#[trigger] recs[j], origin);
        Some(recs[i])
    } else {
        None
    }
}

/// The records of a zone file a loaded zone holds at `name` and `t`.
pub open spec fn loaded_records(recs: Seq<RecordV>, origin: Seq<Seq<u8>>, name: Seq<Seq<u8>>, t: RecordType) -> Seq<RecordV> {
    recs.filter(|r: RecordV| canon(r.name) == canon(name) && r.rtype() == t && !is_apex_soa(r, origin))
}

/// What a zone loaded from `recs` with origin `origin` and SOA `soa` answers
/// for `name` and `t`.
pub open spec fn loaded_lookup(recs: Seq<RecordV>, origin: Seq<Seq<u8>>, soa: RecordV, name: Seq<Seq<u8>>, t: RecordType) -> Option<Seq<RecordV>> {
    if canon(name) == canon(origin) && t == RecordType::SOA {
        Some(seq![soa])
    } else if loaded_records(recs, origin, name, t).len() > 0 {
        Some(loaded_records(recs, origin, name, t))
    } else {
        None
    }
}

proof fn lemma_lookup_canon(z: ZoneV, a: Seq<Seq<u8>>, b: Seq<Seq<u8>>, t: RecordType)
    requires
        z.wf(),
        canon(a) == canon(b),
    ensures
        z.lookup(a, t) == z.lookup(b, t),
{
    let sets = z.rrsets;
    if exists|i: int| 0 <= i < sets.len() && crate::zone::key_matches(#[trigger] sets[i], a, t) {
        let ia = choose|i: int| 0 <= i < sets.len() && crate::zone::key_matches(#[trigger] sets[i], a, t);
        let ib = choose|i: int| 0 <= i < sets.len() && crate::zone::key_matches(#[trigger] sets[i], b, t);
        assert(crate::zone::key_matches(sets[ia], b, t));
        if ia != ib {
            assert(!crate::zone::key_matches(sets[ia], sets[ib].name, sets[ib].rtype));
        }
    } else {
        if exists|i: int| 0 <= i < sets.len() && crate::zone::key_matches(#[trigger] sets[i], b, t) {
            let ib = choose|i: int| 0 <= i < sets.len() && crate::zone::key_matches(#[trigger] sets[i], b, t);
            assert(crate::zone::key_matches(sets[ib], a, t));
        }
    }
}

proof fn lemma_loaded_step(recs: Seq<RecordV>, k: int, origin: Seq<Seq<u8>>, name: Seq<Seq<u8>>, t: RecordType)
    requires
        0 <= k < recs.len(),
    ensures
        loaded_records(recs.subrange(0, k + 1), origin, name, t) == (
            if canon(recs[k].name) == canon(name) && recs[k].rtype() == t && !is_apex_soa(recs[k], origin) {
                loaded_records(recs.subrange(0, k), origin, name, t).push(recs[k])
            } else {
                loaded_records(recs.subrange(0, k), origin, name, t)
            }),
{
    let p = recs.subrange(0, k);
    assert(recs.subrange(0, k + 1) =~= p.push(recs[k]));
    reveal_with_fuel(Seq::filter, 1);
    assert(p.push(recs[k]).drop_last() =~= p);
}

fn find_apex_soa(recs: &Vec<Record>, origin: &DnsName) -> (r: Option<usize>)
    ensures
        match r {
            None => first_apex_soa(records_view(recs@), origin@) is None,
            Some(i) => i < recs@.len() && first_apex_soa(records_view(recs@), origin@) == Some(records_view(recs@)[i as int]),
        },
{
    let ghost rv = records_view(recs@);
    let mut i: usize = 0;
    while i < recs.len()
        invariant
            i <= recs@.len(),
            rv == records_view(recs@),
            forall|j: int| 0 <= j < i ==> !is_apex_soa(#[trigger] rv[j], origin@),
        decreases recs@.len() - i,
    {
        assert(rv[i as int] == recs@[i as int]@);
        if recs[i].record_type() == RecordType::SOA && recs[i].name.same_name(origin) {
            proof {
                let k = choose|k: int|
                    0 <= k < rv.len() && is_apex_soa(#[trigger] rv[k], origin@) && forall|j: int|
                        0 <= j < k ==> !is_apex_soa(#[trigger] rv[j], origin@);
                if k < i {
                    assert(!is_apex_soa(rv[k], origin@));
                }
                if k > i {
                    assert(!is_apex_soa(rv[i as int], origin@));
                }
            }
            return Some(i);
        }
        i = i + 1;
    }
    None
}

/// The bytes of `$INCLUDE`.
pub open spec fn include_directive() -> Seq<u8> {
    seq![36u8, 73u8, 78u8, 67u8, 76u8, 85u8, 68u8, 69u8]
}

/// The text holds `$INCLUDE`, the directive that makes the parser read other
/// files.
pub open spec fn spec_has_include(b: Seq<u8>) -> bool {
    exists|i: int| 0 <= i && i + 8 <= b.len() && #[trigger] b.subrange(i, i + 8) == include_directive()
}

fn directive_at(b: &[u8], i: usize) -> (r: bool)
    requires
        i + 8 <= b@.len(),
    ensures
        r == (b@.subrange(i as int, i + 8) == include_directive()),
{
    let pat: [u8; 8] = [36, 73, 78, 67, 76, 85, 68, 69];
    assert(pat@ =~= include_directive());
    let mut k: usize = 0;
    while k < 8
        invariant
            pat@ == include_directive(),
            i + 8 <= b@.len(),
            b@.len() == b.len(),
            k <= 8,
            forall|m: int| 0 <= m < k ==> b@[i + m] == pat@[m],
        decreases 8 - k,
    {
        if b[i + k] != pat[k] {
            assert(b@.subrange(i as int, i + 8)[k as int] == b@[i + k]);
            return false;
        }
        k = k + 1;
    }
    assert(b@.subrange(i as int, i + 8) =~= include_directive());
    true
}

/// Whether the text holds `$INCLUDE`.
pub fn has_include(b: &[u8]) -> (r: bool)
    ensures
        r == spec_has_include(b@),
{
    if b.len() < 8 {
        return false;
    }
    let last = b.len() - 8;
    let mut i: usize = 0;
    while i <= last
        invariant
            last + 8 == b@.len(),
            b@.len() == b.len(),
            i <= last + 1,
            forall|j: int| 0 <= j < i ==> #[trigger] b@.subrange(j, j + 8) != include_directive(),
        decreases last + 1 - i,
    {
        if directive_at(b, i) {
            return true;
        }
        i = i + 1;
    }
    false
}

/// The zone built from what the zone file parser gave (`p`: the origin and
/// the records, or `None` for a parse error): the zone's SOA is the first SOA
/// record at the origin; every other record is added in the parser's order.
pub open spec fn zone_from_parse(p: Option<(Seq<Seq<u8>>, Seq<RecordV>)>, r: Result<Zone, ZoneLoadError>) -> bool {
    match p {
        None => r matches Err(ZoneLoadError::Parse { .. }),
        Some((o, raw)) => {
            let recs = raw.map_values(|x: RecordV| canon_record(x));
            match first_apex_soa(recs, o) {
                None => r matches Err(ZoneLoadError::MissingSoa { .. }),
                Some(soa) => r matches Ok(z) && {
                    &&& z@.wf()
                    &&& z@.origin == o
                    &&& z@.soa == soa
                    &&& forall|n: Seq<Seq<u8>>, t: RecordType| #[trigger] z@.lookup(n, t) == loaded_lookup(recs, o, soa, n, t)
                },
            }
        },
    }
}

/// Build a zone from what the zone file parser gave for the file at `path`.
pub fn zone_from_parsed(parsed: Result<(DnsName, Vec<Record>), String>, path: &str) -> (r: Result<Zone, ZoneLoadError>)
    ensures
        zone_from_parse(zone_text_view(parsed), r),
{
    let (final_origin, raw) = match parsed {
        Ok(x) => x,
        Err(reason) => {
            return Err(ZoneLoadError::Parse { path: path.to_string(), reason });
        },
    };
    let recs = canonical_record_list(&raw);
    let ghost rv = records_view(recs@);
    let soa_i = match find_apex_soa(&recs, &final_origin) {
        Some(x) => x,
        None => {
            return Err(ZoneLoadError::MissingSoa { path: path.to_string() });
        },
    };
    let soa = recs[soa_i].clone();
    let mut zone = Zone::new(final_origin.clone(), soa);
    let mut k: usize = 0;
    assert forall|n: Seq<Seq<u8>>, t: RecordType| #[trigger] zone@.lookup(n, t) == loaded_lookup(rv.subrange(0, 0), final_origin@, rv[soa_i as int], n, t) by {
        assert(rv.subrange(0, 0).filter(|r: RecordV| canon(r.name) == canon(n) && r.rtype() == t && !is_apex_soa(r, final_origin@)) =~= Seq::<RecordV>::empty());
        let sets = zone@.rrsets;
        if canon(n) == canon(final_origin@) && t == RecordType::SOA {
            assert(crate::zone::key_matches(sets[0], n, t));
        } else {
            if exists|i: int| 0 <= i < sets.len() && crate::zone::key_matches(#[trigger] sets[i], n, t) {
                let i = choose|i: int| 0 <= i < sets.len() && crate::zone::key_matches(#[trigger] sets[i], n, t);
                assert(i == 0);
            }
        }
    }
    while k < recs.len()
        invariant
            k <= recs@.len(),
            rv == records_view(recs@),
            soa_i < rv.len(),
            zone@.wf(),
            zone@.origin == final_origin@,
            zone@.soa == rv[soa_i as int],
            forall|n: Seq<Seq<u8>>, t: RecordType| #[trigger] zone@.lookup(n, t) == loaded_lookup(rv.subrange(0, k as int), final_origin@, rv[soa_i as int], n, t),
        decreases recs@.len() - k,
    {
        let r = &recs[k];
        assert(rv[k as int] == r@);
        let is_soa = r.record_type() == RecordType::SOA && r.name.same_name(&final_origin);
        let ghost before = zone@;
        let ghost soa_v = rv[soa_i as int];
        if !is_soa {
            zone.add_record(r.clone());
        }
        proof {
            let o = final_origin@;
            assert forall|n: Seq<Seq<u8>>, t: RecordType| #[trigger] zone@.lookup(n, t) == loaded_lookup(rv.subrange(0, k + 1), o, soa_v, n, t) by {
                lemma_loaded_step(rv, k as int, o, n, t);
                assert(before.lookup(n, t) == loaded_lookup(rv.subrange(0, k as int), o, soa_v, n, t));
                if !is_soa && canon(n) == canon(r@.name) && t == r@.rtype() {
                    lemma_lookup_canon(zone@, n, r@.name, t);
                    lemma_lookup_canon(before, n, r@.name, t);
                    if canon(n) == canon(o) && t == RecordType::SOA {
                        assert(is_apex_soa(r@, o));
                    }
                }
            }
        }
        k = k + 1;
    }
    assert(rv.subrange(0, recs@.len() as int) =~= rv);
    Ok(zone)
}

/// Build a zone from text: the origin comes from `$ORIGIN`, else from the
/// file name of `path` with a dot added, else the root; the zone's SOA is the
/// first SOA record at the origin the parser reports; every other record is
/// added in the parser's order. For text with `$INCLUDE`, the parser also
/// reads the named files, so what it gives is not a function of the text.
pub fn parse_zone_str(content: &str, path: &str) -> (r: Result<Zone, ZoneLoadError>)
    ensures
        ({
            let fallback = match path_file_stem(path@) {
                Some(st) => match name_from_ascii_bytes(st.push(46u8)) {
                    Some(n) => n,
                    None => Seq::<Seq<u8>>::empty(),
                },
                None => match name_from_ascii_bytes(seq![117u8, 110u8, 107u8, 110u8, 111u8, 119u8, 110u8, 46u8]) {
                    Some(n) => n,
                    None => Seq::<Seq<u8>>::empty(),
                },
            };
            let origin = match spec_extract_origin(content.spec_bytes()) {
                Some(o) => o,
                None => fallback,
            };
            exists|p: Option<(Seq<Seq<u8>>, Seq<RecordV>)>| #[trigger] zone_from_parse(p, r)
                && (!spec_has_include(content.spec_bytes()) ==> p == zone_text_records(content@, origin))
        }),
{
    let origin = match extract_origin(content) {
        Some(o) => o,
        None => {
            let stem: Vec<u8> = match file_stem(path) {
                Some(s) => s,
                None => {
                    let mut u: Vec<u8> = Vec::new();
                    u.push(117);
                    u.push(110);
                    u.push(107);
                    u.push(110);
                    u.push(111);
                    u.push(119);
                    u.push(110);
                    assert(u@ =~= seq![117u8, 110u8, 107u8, 110u8, 111u8, 119u8, 110u8]);
                    u
                },
            };
            let ghost stem_v = stem@;
            let mut with_dot = stem;
            with_dot.push(46);
            assert(with_dot@ == stem_v.push(46u8));
            assert(seq![117u8, 110u8, 107u8, 110u8, 111u8, 119u8, 110u8].push(46u8) =~= seq![117u8, 110u8, 107u8, 110u8, 111u8, 119u8, 110u8, 46u8]);
            match name_from_ascii(with_dot.as_slice()) {
                Some(n) => n,
                None => DnsName::root(),
            }
        },
    };
    let parsed = parse_zone_text(content, &origin);
    let ghost p = zone_text_view(parsed);
    let r = zone_from_parsed(parsed, path);
    assert(zone_from_parse(p, r));
    r
}

/// A file of a zone directory holds a zone when its extension is `zone` or `db`.
pub fn is_zone_file(extension: &str) -> (r: bool)
    ensures
        r == (extension@ == "zone"@ || extension@ == "db"@),
{
    let e = extension.to_string();
    e == "zone".to_string() || e == "db".to_string()
}

} // verus!
