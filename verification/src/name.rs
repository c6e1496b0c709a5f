use vstd::prelude::*;

verus! {

/// A fully qualified domain name, as its labels from the leftmost (most
/// specific) to the rightmost (closest to the root). The root has no labels.
#[derive(Debug)]
pub struct DnsName {
    pub labels: Vec<Vec<u8>>,
}

impl Clone for DnsName {
    fn clone(&self) -> (r: Self)
        ensures
            r@ == self@,
    {
        let mut labels: Vec<Vec<u8>> = Vec::new();
        let mut i: usize = 0;
        while i < self.labels.len()
            invariant
                i <= self.labels.len(),
                labels@.len() == i,
                forall|j: int| 0 <= j < i ==> #[trigger] labels@[j]@ == self.labels@[j]@,
            decreases self.labels.len() - i,
        {
            labels.push(self.labels[i].clone());
            i = i + 1;
        }
        let r = DnsName { labels };
        assert(r@ =~= self@);
        r
    }
}

impl View for DnsName {
    type V = Seq<Seq<u8>>;

    open spec fn view(&self) -> Seq<Seq<u8>> {
        self.labels@.map_values(|l: Vec<u8>| l@)
    }
}

/// ASCII lowercase of one byte.
pub open spec fn lower(b: u8) -> u8 {
    if 65 <= b <= 90 {
        (b + 32) as u8
    } else {
        b
    }
}

/// A label with its ASCII letters lowercased.
pub open spec fn canon_label(l: Seq<u8>) -> Seq<u8> {
    l.map_values(|b: u8| lower(b))
}

/// A name with all its labels lowercased: two names are the same DNS name
/// exactly when their canonical forms are equal.
pub open spec fn canon(n: Seq<Seq<u8>>) -> Seq<Seq<u8>> {
    n.map_values(|l: Seq<u8>| canon_label(l))
}

/// The number of labels, not counting a leading wildcard label `*`.
pub open spec fn num_labels(n: Seq<Seq<u8>>) -> nat {
    if n.len() > 0 && n[0] == seq![42u8] {
        (n.len() - 1) as nat
    } else {
        n.len()
    }
}

/// `name` lies at or below `zone`: it has at least as many labels (not
/// counting a leading `*`), and, read from the root, the labels the two have
/// in common position are equal up to ASCII case.
pub open spec fn spec_is_subdomain(name: Seq<Seq<u8>>, zone: Seq<Seq<u8>>) -> bool {
    &&& num_labels(name) >= num_labels(zone)
    &&& forall|i: int|
        0 <= i < name.len() && i < zone.len() ==> canon_label(#[trigger] name[name.len() - 1 - i])
            == canon_label(zone[zone.len() - 1 - i])
}

/// The label count of `name` beyond `zone`, or 0 when `name` is not at or
/// below `zone`.
pub open spec fn spec_labels_below(name: Seq<Seq<u8>>, zone: Seq<Seq<u8>>) -> nat {
    if spec_is_subdomain(name, zone) {
        (num_labels(name) - num_labels(zone)) as nat
    } else {
        0
    }
}

/// The parent of a name: the name without its leftmost label; the root has none.
pub open spec fn spec_parent(name: Seq<Seq<u8>>) -> Option<Seq<Seq<u8>>> {
    if name.len() == 0 {
        None
    } else {
        Some(name.drop_first())
    }
}

/// Byte-wise comparison of two labels, ASCII case ignored, a missing byte
/// sorting before any byte: -1, 0 or 1.
pub open spec fn label_order(a: Seq<u8>, b: Seq<u8>) -> int
    decreases a.len(),
{
    if a.len() == 0 {
        if b.len() == 0 {
            0
        } else {
            -1
        }
    } else if b.len() == 0 {
        1
    } else if lower(a[0]) < lower(b[0]) {
        -1
    } else if lower(a[0]) > lower(b[0]) {
        1
    } else {
        label_order(a.drop_first(), b.drop_first())
    }
}

/// The canonical DNS name order (RFC 4034 section 6.1): labels compared from
/// the rightmost one, a name that runs out of labels first sorting first.
pub open spec fn name_order(a: Seq<Seq<u8>>, b: Seq<Seq<u8>>) -> int
    decreases a.len(),
{
    if a.len() == 0 {
        if b.len() == 0 {
            0
        } else {
            -1
        }
    } else if b.len() == 0 {
        1
    } else if label_order(a.last(), b.last()) != 0 {
        label_order(a.last(), b.last())
    } else {
        name_order(a.drop_last(), b.drop_last())
    }
}

/// The last `k` labels of a name.
pub open spec fn suffix(n: Seq<Seq<u8>>, k: nat) -> Seq<Seq<u8>>
    recommends
        k <= n.len(),
{
    n.subrange(n.len() - k, n.len() as int)
}

/// The name sent to a server authoritative for `zone_cut` when resolving
/// `qname` with QNAME minimisation (RFC 9156): one label more than the zone
/// cut, counted as `num_labels` counts, unless `qname` is no longer than that.
pub open spec fn spec_minimized_qname(qname: Seq<Seq<u8>>, zone_cut: Seq<Seq<u8>>) -> Seq<
    Seq<u8>,
> {
    let q = num_labels(qname);
    let z = num_labels(zone_cut);
    if q <= z + 1 {
        qname
    } else {
        let skip = (q - (z + 1)) as int;
        qname.subrange(skip, qname.len() as int)
    }
}

/// Two labels are equal in the label order exactly when they are the same up
/// to ASCII case, and swapping the arguments negates the order.
pub proof fn lemma_label_order_eq(a: Seq<u8>, b: Seq<u8>)
    ensures
        (label_order(a, b) == 0) == (canon_label(a) == canon_label(b)),
        label_order(a, b) == -label_order(b, a),
        -1 <= label_order(a, b) <= 1,
    decreases a.len(),
{
    if a.len() > 0 && b.len() > 0 {
        lemma_label_order_eq(a.drop_first(), b.drop_first());
        assert(canon_label(a.drop_first()) =~= canon_label(a).drop_first());
        assert(canon_label(b.drop_first()) =~= canon_label(b).drop_first());
        if canon_label(a) == canon_label(b) {
            assert(canon_label(a)[0] == lower(a[0]));
        }
        if lower(a[0]) == lower(b[0]) && canon_label(a.drop_first()) == canon_label(b.drop_first()) {
            assert(canon_label(a) =~= canon_label(b)) by {
                assert forall|i: int| 0 <= i < a.len() implies canon_label(a)[i] == canon_label(b)[i] by {
                    if i > 0 {
                        assert(canon_label(a.drop_first())[i - 1] == canon_label(a)[i]);
                        assert(canon_label(b.drop_first())[i - 1] == canon_label(b)[i]);
                    }
                }
            }
        }
    } else if a.len() == 0 && b.len() > 0 {
        assert(canon_label(a).len() != canon_label(b).len());
    } else if a.len() > 0 && b.len() == 0 {
        assert(canon_label(a).len() != canon_label(b).len());
    } else {
        assert(canon_label(a) =~= canon_label(b));
    }
}

/// Two names are equal in the canonical order exactly when they are the same
/// DNS name, and swapping the arguments negates the order.
pub proof fn lemma_name_order_eq(a: Seq<Seq<u8>>, b: Seq<Seq<u8>>)
    ensures
        (name_order(a, b) == 0) == (canon(a) == canon(b)),
        name_order(a, b) == -name_order(b, a),
        -1 <= name_order(a, b) <= 1,
    decreases a.len(),
{
    if a.len() > 0 && b.len() > 0 {
        lemma_label_order_eq(a.last(), b.last());
        lemma_name_order_eq(a.drop_last(), b.drop_last());
        assert(canon(a.drop_last()) =~= canon(a).drop_last());
        assert(canon(b.drop_last()) =~= canon(b).drop_last());
        if canon(a) == canon(b) {
            assert(canon(a).last() == canon_label(a.last()));
            assert(canon(b).last() == canon_label(b.last()));
        }
        if canon_label(a.last()) == canon_label(b.last()) && canon(a.drop_last()) == canon(
            b.drop_last(),
        ) {
            assert(canon(a) =~= canon(b)) by {
                assert forall|i: int| 0 <= i < canon(a).len() implies canon(a)[i] == canon(b)[i] by {
                    if i < a.len() - 1 {
                        assert(canon(a.drop_last())[i] == canon(a)[i]);
                        assert(canon(b.drop_last())[i] == canon(b)[i]);
                    }
                }
            }
        }
    } else if a.len() == 0 && b.len() > 0 {
        assert(canon(a).len() != canon(b).len());
    } else if a.len() > 0 && b.len() == 0 {
        assert(canon(a).len() != canon(b).len());
    } else {
        assert(canon(a) =~= canon(b));
    }
}


/// The byte-wise label order is transitive.
pub proof fn lemma_label_order_trans(a: Seq<u8>, b: Seq<u8>, c: Seq<u8>)
    requires
        label_order(a, b) == -1,
        label_order(b, c) == -1,
    ensures
        label_order(a, c) == -1,
    decreases a.len(),
{
    if a.len() > 0 && b.len() > 0 && c.len() > 0 {
        if lower(a[0]) == lower(b[0]) && lower(b[0]) == lower(c[0]) {
            lemma_label_order_trans(a.drop_first(), b.drop_first(), c.drop_first());
        }
    }
}

/// The canonical name order is transitive.
pub proof fn lemma_name_order_trans(a: Seq<Seq<u8>>, b: Seq<Seq<u8>>, c: Seq<Seq<u8>>)
    requires
        name_order(a, b) == -1,
        name_order(b, c) == -1,
    ensures
        name_order(a, c) == -1,
    decreases a.len(),
{
    if a.len() > 0 && b.len() > 0 && c.len() > 0 {
        let (la, lb, lc) = (a.last(), b.last(), c.last());
        lemma_label_order_eq(la, lb);
        lemma_label_order_eq(lb, lc);
        lemma_label_order_eq(la, lc);
        if label_order(la, lb) == 0 && label_order(lb, lc) == 0 {
            lemma_name_order_trans(a.drop_last(), b.drop_last(), c.drop_last());
        } else if label_order(la, lb) == 0 {
            // canon(la) == canon(lb), so la compares with lc as lb does
            lemma_label_order_congruent(la, lb, lc);
        } else if label_order(lb, lc) == 0 {
            lemma_label_order_congruent(lc, lb, la);
            lemma_label_order_eq(la, lb);
        } else {
            lemma_label_order_trans(la, lb, lc);
        }
    }
}

/// Labels equal up to case compare alike with any third label.
pub proof fn lemma_label_order_congruent(a: Seq<u8>, b: Seq<u8>, c: Seq<u8>)
    requires
        label_order(a, b) == 0,
    ensures
        label_order(a, c) == label_order(b, c),
        label_order(c, a) == label_order(c, b),
    decreases a.len(),
{
    lemma_label_order_eq(a, c);
    lemma_label_order_eq(b, c);
    if a.len() > 0 && b.len() > 0 && c.len() > 0 {
        lemma_label_order_congruent(a.drop_first(), b.drop_first(), c.drop_first());
    }
}

/// Names that are the same DNS name compare alike with any third name.
pub proof fn lemma_name_order_congruent(a: Seq<Seq<u8>>, b: Seq<Seq<u8>>, c: Seq<Seq<u8>>)
    requires
        name_order(a, b) == 0,
    ensures
        name_order(a, c) == name_order(b, c),
        name_order(c, a) == name_order(c, b),
    decreases a.len(),
{
    lemma_name_order_eq(a, c);
    lemma_name_order_eq(b, c);
    if a.len() > 0 && b.len() > 0 && c.len() > 0 {
        lemma_label_order_congruent(a.last(), b.last(), c.last());
        lemma_name_order_congruent(a.drop_last(), b.drop_last(), c.drop_last());
    }
}

/// ASCII lowercase of one byte.
pub fn to_lower(b: u8) -> (r: u8)
    ensures
        r == lower(b),
{
    if 65 <= b && b <= 90 {
        b + 32
    } else {
        b
    }
}

/// Compare two labels ignoring ASCII case.
pub fn label_eq_ignore_case(a: &Vec<u8>, b: &Vec<u8>) -> (r: bool)
    ensures
        r == (canon_label(a@) == canon_label(b@)),
{
    if a.len() != b.len() {
        assert(canon_label(a@).len() != canon_label(b@).len());
        return false;
    }
    let mut i: usize = 0;
    while i < a.len()
        invariant
            a.len() == b.len(),
            i <= a.len(),
            forall|j: int| 0 <= j < i ==> lower(a@[j]) == lower(b@[j]),
        decreases a.len() - i,
    {
        if to_lower(a[i]) != to_lower(b[i]) {
            assert(canon_label(a@)[i as int] != canon_label(b@)[i as int]);
            return false;
        }
        i = i + 1;
    }
    assert(canon_label(a@) =~= canon_label(b@));
    true
}

/// Compare two labels in the canonical order: -1, 0 or 1.
pub fn label_compare(a: &Vec<u8>, b: &Vec<u8>) -> (r: i8)
    ensures
        r == label_order(a@, b@),
{
    let mut i: usize = 0;
    assert(a@.skip(0) =~= a@);
    assert(b@.skip(0) =~= b@);
    while i < a.len() && i < b.len()
        invariant
            i <= a.len(),
            i <= b.len(),
            label_order(a@, b@) == label_order(a@.skip(i as int), b@.skip(i as int)),
        decreases a.len() - i,
    {
        let x = to_lower(a[i]);
        let y = to_lower(b[i]);
        assert(a@.skip(i as int)[0] == a@[i as int]);
        assert(b@.skip(i as int)[0] == b@[i as int]);
        if x < y {
            return -1;
        }
        if x > y {
            return 1;
        }
        assert(a@.skip(i as int).drop_first() =~= a@.skip(i + 1));
        assert(b@.skip(i as int).drop_first() =~= b@.skip(i + 1));
        i = i + 1;
    }
    if i == a.len() {
        if i == b.len() {
            0
        } else {
            -1
        }
    } else {
        1
    }
}

impl DnsName {
    /// The root name.
    pub fn root() -> (r: DnsName)
        ensures
            r@ == Seq::<Seq<u8>>::empty(),
    {
        let r = DnsName { labels: Vec::new() };
        assert(r@ =~= Seq::<Seq<u8>>::empty());
        r
    }

    pub fn is_root(&self) -> (r: bool)
        ensures
            r == (self@.len() == 0),
    {
        self.labels.len() == 0
    }

    /// Number of labels, not counting a leading `*`.
    pub fn num_labels(&self) -> (r: usize)
        ensures
            r == num_labels(self@),
    {
        let n = self.labels.len();
        if n > 0 && self.labels[0].len() == 1 && self.labels[0][0] == 42 {
            assert(self@[0] =~= seq![42u8]);
            n - 1
        } else {
            if n > 0 {
                assert(self@[0] == self.labels@[0]@);
            }
            n
        }
    }

    /// Whether two names are the same DNS name (ASCII case ignored).
    pub fn same_name(&self, other: &DnsName) -> (r: bool)
        ensures
            r == (canon(self@) == canon(other@)),
    {
        if self.labels.len() != other.labels.len() {
            assert(canon(self@).len() != canon(other@).len());
            return false;
        }
        let mut i: usize = 0;
        while i < self.labels.len()
            invariant
                self.labels.len() == other.labels.len(),
                i <= self.labels.len(),
                forall|j: int| 0 <= j < i ==> canon(self@)[j] == canon(other@)[j],
            decreases self.labels.len() - i,
        {
            if !label_eq_ignore_case(&self.labels[i], &other.labels[i]) {
                assert(canon(self@)[i as int] != canon(other@)[i as int]);
                return false;
            }
            i = i + 1;
        }
        assert(canon(self@) =~= canon(other@));
        true
    }

    /// Compare two names in the canonical DNS order: -1, 0 or 1.
    pub fn compare(&self, other: &DnsName) -> (r: i8)
        ensures
            r == name_order(self@, other@),
    {
        let mut i: usize = self.labels.len();
        let mut j: usize = other.labels.len();
        assert(self@.subrange(0, i as int) =~= self@);
        assert(other@.subrange(0, j as int) =~= other@);
        while i > 0 && j > 0
            invariant
                i <= self.labels.len(),
                j <= other.labels.len(),
                name_order(self@, other@) == name_order(
                    self@.subrange(0, i as int),
                    other@.subrange(0, j as int),
                ),
            decreases i,
        {
            let c = label_compare(&self.labels[i - 1], &other.labels[j - 1]);
            assert(self@.subrange(0, i as int).last() == self@[i - 1]);
            assert(other@.subrange(0, j as int).last() == other@[j - 1]);
            if c != 0 {
                return c;
            }
            assert(self@.subrange(0, i as int).drop_last() =~= self@.subrange(0, i - 1));
            assert(other@.subrange(0, j as int).drop_last() =~= other@.subrange(0, j - 1));
            i = i - 1;
            j = j - 1;
        }
        if i == 0 {
            if j == 0 {
                0
            } else {
                -1
            }
        } else {
            1
        }
    }

    /// The name without its leftmost label; `None` for the root.
    pub fn parent(&self) -> (r: Option<DnsName>)
        ensures
            r matches Some(p) ==> spec_parent(self@) == Some(p@),
            r is None <==> spec_parent(self@) is None,
    {
        if self.labels.len() == 0 {
            return None;
        }
        let mut labels: Vec<Vec<u8>> = Vec::new();
        let mut i: usize = 1;
        while i < self.labels.len()
            invariant
                1 <= i <= self.labels.len(),
                labels@.len() == i - 1,
                forall|k: int| 0 <= k < i - 1 ==> #[trigger] labels@[k]@ == self.labels@[k + 1]@,
            decreases self.labels.len() - i,
        {
            labels.push(self.labels[i].clone());
            i = i + 1;
        }
        let p = DnsName { labels };
        assert(p@ =~= self@.drop_first());
        Some(p)
    }

    /// The wildcard name directly below this one: `*` followed by its labels.
    pub fn wildcard_child(&self) -> (r: DnsName)
        ensures
            r@ == seq![seq![42u8]] + self@,
    {
        let mut labels: Vec<Vec<u8>> = Vec::new();
        let mut star: Vec<u8> = Vec::new();
        star.push(42);
        labels.push(star);
        let mut i: usize = 0;
        while i < self.labels.len()
            invariant
                i <= self.labels.len(),
                labels@.len() == i + 1,
                labels@[0]@ == seq![42u8],
                forall|k: int| 0 <= k < i ==> #[trigger] labels@[k + 1]@ == self.labels@[k]@,
            decreases self.labels.len() - i,
        {
            labels.push(self.labels[i].clone());
            i = i + 1;
        }
        let r = DnsName { labels };
        assert(r@ =~= seq![seq![42u8]] + self@) by {
            assert forall|k: int| 0 <= k < r@.len() implies r@[k] == (seq![seq![42u8]] + self@)[k] by {
                if k > 0 {
                    assert(labels@[(k - 1) + 1]@ == self.labels@[k - 1]@);
                }
            }
        }
        r
    }
}

/// Whether `name` is at or below `zone`.
pub fn is_subdomain(name: &DnsName, zone: &DnsName) -> (r: bool)
    ensures
        r == spec_is_subdomain(name@, zone@),
{
    if name.num_labels() < zone.num_labels() {
        return false;
    }
    let n = name.labels.len();
    let z = zone.labels.len();
    let mut i: usize = 0;
    while i < n && i < z
        invariant
            n == name@.len(),
            z == zone@.len(),
            i <= n,
            i <= z,
            forall|k: int|
                0 <= k < i ==> canon_label(#[trigger] name@[n - 1 - k]) == canon_label(
                    zone@[z - 1 - k],
                ),
        decreases n - i,
    {
        if !label_eq_ignore_case(&name.labels[n - 1 - i], &zone.labels[z - 1 - i]) {
            assert(name@[n - 1 - i as int] == name.labels@[n - 1 - i as int]@);
            assert(zone@[z - 1 - i as int] == zone.labels@[z - 1 - i as int]@);
            return false;
        }
        i = i + 1;
    }
    true
}

/// The number of labels of `name` beyond `zone`: 0 when `name` equals `zone`
/// or is not below it, 1 for a direct child, and so on.
pub fn labels_below(name: &DnsName, zone: &DnsName) -> (r: usize)
    ensures
        r == spec_labels_below(name@, zone@),
{
    if !is_subdomain(name, zone) {
        return 0;
    }
    name.num_labels() - zone.num_labels()
}

/// The parent of `name` (the name without its leftmost label), `None` for the root.
pub fn parent(name: &DnsName) -> (r: Option<DnsName>)
    ensures
        r matches Some(p) ==> spec_parent(name@) == Some(p@),
        r is None <==> spec_parent(name@) is None,
{
    name.parent()
}

/// QNAME minimisation (RFC 9156): the name to send to a server that is
/// authoritative for `zone_cut` when resolving `qname`, revealing one label
/// beyond the zone cut.
pub fn minimized_qname(qname: &DnsName, zone_cut: &DnsName) -> (r: DnsName)
    ensures
        r@ == spec_minimized_qname(qname@, zone_cut@),
{
    let q = qname.num_labels();
    let z = zone_cut.num_labels();
    if q <= z || q - z <= 1 {
        return qname.clone();
    }
    let skip = q - (z + 1);
    let mut labels: Vec<Vec<u8>> = Vec::new();
    let mut i: usize = skip;
    while i < qname.labels.len()
        invariant
            skip <= i <= qname.labels.len(),
            labels@.len() == i - skip,
            forall|k: int| 0 <= k < i - skip ==> #[trigger] labels@[k]@ == qname.labels@[k + skip]@,
        decreases qname.labels.len() - i,
    {
        labels.push(qname.labels[i].clone());
        i = i + 1;
    }
    let r = DnsName { labels };
    assert(r@ =~= qname@.subrange(skip as int, qname@.len() as int));
    r
}

/// QNAME minimisation (RFC 9156) only ever drops leading labels: the name
/// asked is a suffix of the query name, the whole name once it is at most one
/// label below the zone cut.
pub proof fn lemma_minimized_is_suffix(qname: Seq<Seq<u8>>, zone_cut: Seq<Seq<u8>>)
    ensures
        spec_minimized_qname(qname, zone_cut).len() <= qname.len(),
        spec_minimized_qname(qname, zone_cut) == qname.subrange(
            qname.len() - spec_minimized_qname(qname, zone_cut).len(),
            qname.len() as int,
        ),
        num_labels(qname) <= num_labels(zone_cut) + 1 ==> spec_minimized_qname(qname, zone_cut) == qname,
{
    let m = spec_minimized_qname(qname, zone_cut);
    if num_labels(qname) <= num_labels(zone_cut) + 1 {
        assert(qname.subrange(0, qname.len() as int) =~= qname);
    } else {
        assert(num_labels(qname) <= qname.len());
    }
}

} // verus!
