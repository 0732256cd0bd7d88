//! Triangle-soup topology comparison by vertex-hash keys.
use vstd::prelude::*;

verus! {

/// Nine vertex-hash ints (three corners × xyz), preserving winding.
#[derive(Debug, Clone, Copy, PartialEq, Eq, Hash)]
pub struct TriKey(pub (i32, i32, i32, i32, i32, i32, i32, i32, i32));

/// Corner `c` (`0..3`) of a key.
pub open spec fn corner(k: TriKey, c: int) -> (i32, i32, i32) {
    let t = k.0;
    if c == 0 {
        (t.0, t.1, t.2)
    } else if c == 1 {
        (t.3, t.4, t.5)
    } else {
        (t.6, t.7, t.8)
    }
}

/// Whether corner `c` of `a` is one of the corners of `b`.
pub open spec fn corner_in(a: TriKey, c: int, b: TriKey) -> bool {
    corner(a, c) == corner(b, 0) || corner(a, c) == corner(b, 1) || corner(a, c) == corner(b, 2)
}

/// How many corners of `a` (with repetition) are corners of `b`.
pub open spec fn spec_shared_vert_count(a: TriKey, b: TriKey) -> int {
    (if corner_in(a, 0, b) { 1int } else { 0 }) + (if corner_in(a, 1, b) { 1int } else { 0 }) + (
    if corner_in(a, 2, b) { 1int } else { 0 })
}

/// `a` shares at least two corner hashes with some key of `r`.
pub open spec fn near_some(a: TriKey, r: Set<TriKey>) -> bool {
    exists|b: TriKey| r.contains(b) && spec_shared_vert_count(a, b) >= 2
}

fn corner_of(k: TriKey, c: usize) -> (v: (i32, i32, i32))
    requires
        c < 3,
    ensures
        v == corner(k, c as int),
{
    let t = k.0;
    if c == 0 {
        (t.0, t.1, t.2)
    } else if c == 1 {
        (t.3, t.4, t.5)
    } else {
        (t.6, t.7, t.8)
    }
}

fn same_corner(a: (i32, i32, i32), b: (i32, i32, i32)) -> (r: bool)
    ensures
        r == (a == b),
{
    a.0 == b.0 && a.1 == b.1 && a.2 == b.2
}

fn same_key(a: TriKey, b: TriKey) -> (r: bool)
    ensures
        r == (a == b),
{
    let (x, y) = (a.0, b.0);
    x.0 == y.0 && x.1 == y.1 && x.2 == y.2 && x.3 == y.3 && x.4 == y.4 && x.5 == y.5 && x.6 == y.6
        && x.7 == y.7 && x.8 == y.8
}

fn shared_vert_count(a: TriKey, b: TriKey) -> (n: usize)
    ensures
        n == spec_shared_vert_count(a, b),
{
    let mut n: usize = 0;
    let mut c: usize = 0;
    while c < 3
        invariant
            c <= 3,
            n == (if c > 0 && corner_in(a, 0, b) { 1int } else { 0 }) + (if c > 1 && corner_in(a, 1, b) {
                1int
            } else {
                0
            }) + (if c > 2 && corner_in(a, 2, b) { 1int } else { 0 }),
        decreases 3 - c,
    {
        let v = corner_of(a, c);
        if same_corner(v, corner_of(b, 0)) || same_corner(v, corner_of(b, 1)) || same_corner(
            v,
            corner_of(b, 2),
        ) {
            n += 1;
        }
        c += 1;
    }
    n
}

fn contains_key(v: &Vec<TriKey>, k: TriKey) -> (b: bool)
    ensures
        b == v@.contains(k),
{
    let mut i: usize = 0;
    while i < v.len()
        invariant
            i <= v@.len(),
            forall|j: int| 0 <= j < i ==> v@[j] != k,
        decreases v@.len() - i,
    {
        if same_key(v[i], k) {
            assert(v@[i as int] == k);
            return true;
        }
        i += 1;
    }
    false
}

/// Whether some key of `v` shares at least two corners with `a`.
fn near_any(a: TriKey, v: &Vec<TriKey>) -> (b: bool)
    ensures
        b == near_some(a, v@.to_set()),
{
    let mut i: usize = 0;
    while i < v.len()
        invariant
            i <= v@.len(),
            forall|j: int| 0 <= j < i ==> spec_shared_vert_count(a, #[trigger] v@[j]) < 2,
        decreases v@.len() - i,
    {
        if shared_vert_count(a, v[i]) >= 2 {
            assert(v@.to_set().contains(v@[i as int]));
            return true;
        }
        i += 1;
    }
    assert forall|b: TriKey| v@.to_set().contains(b) implies spec_shared_vert_count(a, b) < 2 by {
        let j = choose|j: int| 0 <= j < v@.len() && v@[j] == b;
        assert(spec_shared_vert_count(a, v@[j]) < 2);
    }
    false
}

/// The distinct keys of `s`, each once, in first-seen order.
fn distinct_keys(s: &[TriKey]) -> (d: Vec<TriKey>)
    ensures
        d@.no_duplicates(),
        d@.to_set() == s@.to_set(),
{
    let mut d: Vec<TriKey> = Vec::new();
    let mut i: usize = 0;
    while i < s.len()
        invariant
            i <= s@.len(),
            d@.no_duplicates(),
            forall|x: TriKey| #[trigger] d@.contains(x) <==> s@.take(i as int).contains(x),
        decreases s@.len() - i,
    {
        let p = s[i];
        let present = contains_key(&d, p);
        let ghost before = d@;
        if !present {
            d.push(p);
            assert forall|a: int, b: int| 0 <= a < b < d@.len() implies d@[a] != d@[b] by {
                if b == d@.len() - 1 {
                    assert(before.contains(d@[a]));
                }
            }
        }
        proof {
            let t1 = s@.take(i + 1);
            assert(t1 =~= s@.take(i as int).push(p));
            assert forall|x: TriKey| #[trigger] d@.contains(x) <==> t1.contains(x) by {
                if t1.contains(x) {
                    let j = choose|j: int| 0 <= j < i + 1 && t1[j] == x;
                    if j < i {
                        assert(s@.take(i as int)[j] == x);
                        assert(s@.take(i as int).contains(x));
                        assert(before.contains(x));
                        let k = choose|k: int| 0 <= k < before.len() && before[k] == x;
                        assert(d@[k] == x);
                    } else {
                        assert(x == p);
                        if !present {
                            assert(d@[d@.len() - 1] == p);
                        }
                    }
                }
                if d@.contains(x) {
                    let j = choose|j: int| 0 <= j < d@.len() && d@[j] == x;
                    if present || j < before.len() {
                        assert(before[j] == x);
                        assert(before.contains(x));
                        assert(s@.take(i as int).contains(x));
                        let k = choose|k: int| 0 <= k < i && s@.take(i as int)[k] == x;
                        assert(t1[k] == x);
                    } else {
                        assert(t1[i as int] == x);
                    }
                }
            }
        }
        i += 1;
    }
    assert(s@.take(s@.len() as int) =~= s@);
    assert(d@.to_set() =~= s@.to_set());
    d
}

/// Agreement between a native and a reference key set.
#[derive(Debug)]
pub struct TriKeyOverlap {
    pub exact_shared: usize,
    /// Native keys with at least two corner hashes matching some reference key.
    pub partial_shared: usize,
}

/// Exact and two-corner agreement of `native` with `reference`, both read as
/// sets (repeated keys count once).
pub fn tri_key_overlap(native: &[TriKey], reference: &[TriKey]) -> (o: TriKeyOverlap)
    ensures
        o.exact_shared == native@.to_set().intersect(reference@.to_set()).len(),
        o.partial_shared == native@.to_set().filter(|k: TriKey| near_some(k, reference@.to_set())).len(),
        o.exact_shared <= o.partial_shared,
{
    let dn = distinct_keys(native);
    let dr = distinct_keys(reference);
    let ghost r = reference@.to_set();
    let ghost near = |k: TriKey| near_some(k, r);
    let mut exact: Vec<TriKey> = Vec::new();
    let mut partial: Vec<TriKey> = Vec::new();
    let mut i: usize = 0;
    while i < dn.len()
        invariant
            i <= dn@.len(),
            dn@.no_duplicates(),
            dr@.to_set() == r,
            near == (|k: TriKey| near_some(k, r)),
            exact@.no_duplicates(),
            partial@.no_duplicates(),
            exact@.len() <= partial@.len(),
            forall|x: TriKey| #[trigger]
                exact@.contains(x) <==> (dn@.take(i as int).contains(x) && r.contains(x)),
            forall|x: TriKey| #[trigger]
                partial@.contains(x) <==> (dn@.take(i as int).contains(x) && near(x)),
        decreases dn@.len() - i,
    {
        let p = dn[i];
        let ghost t1 = dn@.take(i + 1);
        let ghost (be, bp) = (exact@, partial@);
        proof {
            assert(t1 =~= dn@.take(i as int).push(p));
            assert(!dn@.take(i as int).contains(p)) by {
                if dn@.take(i as int).contains(p) {
                    let k = choose|k: int| 0 <= k < i && dn@.take(i as int)[k] == p;
                    assert(dn@[k] == dn@[i as int]);
                }
            }
        }
        let inside = contains_key(&dr, p);
        let is_near = if inside {
            proof {
                assert(dr@.to_set().contains(p));
                assert(spec_shared_vert_count(p, p) == 3);
            }
            true
        } else {
            near_any(p, &dr)
        };
        assert(inside == r.contains(p));
        assert(is_near == near(p));
        if inside {
            exact.push(p);
        }
        if is_near {
            partial.push(p);
        }
        proof {
            assert forall|a: int, b: int| 0 <= a < b < exact@.len() implies exact@[a] != exact@[b] by {
                if b == exact@.len() - 1 && inside {
                    assert(be.contains(exact@[a]));
                }
            }
            assert forall|a: int, b: int| 0 <= a < b < partial@.len() implies partial@[a] != partial@[b] by {
                if b == partial@.len() - 1 && is_near {
                    assert(bp.contains(partial@[a]));
                }
            }
            assert forall|x: TriKey| #[trigger]
                exact@.contains(x) <==> (t1.contains(x) && r.contains(x)) by {
                if t1.contains(x) && r.contains(x) {
                    let j = choose|j: int| 0 <= j < i + 1 && t1[j] == x;
                    if j < i {
                        assert(dn@.take(i as int)[j] == x);
                        assert(be.contains(x));
                        let k = choose|k: int| 0 <= k < be.len() && be[k] == x;
                        assert(exact@[k] == x);
                    } else {
                        assert(exact@[exact@.len() - 1] == p);
                    }
                }
                if exact@.contains(x) {
                    let j = choose|j: int| 0 <= j < exact@.len() && exact@[j] == x;
                    if j < be.len() {
                        assert(be[j] == x);
                        assert(be.contains(x));
                        let k = choose|k: int| 0 <= k < i && dn@.take(i as int)[k] == x;
                        assert(t1[k] == x);
                    } else {
                        assert(t1[i as int] == x);
                    }
                }
            }
            assert forall|x: TriKey| #[trigger]
                partial@.contains(x) <==> (t1.contains(x) && near(x)) by {
                if t1.contains(x) && near(x) {
                    let j = choose|j: int| 0 <= j < i + 1 && t1[j] == x;
                    if j < i {
                        assert(dn@.take(i as int)[j] == x);
                        assert(bp.contains(x));
                        let k = choose|k: int| 0 <= k < bp.len() && bp[k] == x;
                        assert(partial@[k] == x);
                    } else {
                        assert(partial@[partial@.len() - 1] == p);
                    }
                }
                if partial@.contains(x) {
                    let j = choose|j: int| 0 <= j < partial@.len() && partial@[j] == x;
                    if j < bp.len() {
                        assert(bp[j] == x);
                        assert(bp.contains(x));
                        let k = choose|k: int| 0 <= k < i && dn@.take(i as int)[k] == x;
                        assert(t1[k] == x);
                    } else {
                        assert(t1[i as int] == x);
                    }
                }
            }
        }
        i += 1;
    }
    proof {
        assert(dn@.take(dn@.len() as int) =~= dn@);
        exact@.unique_seq_to_set();
        partial@.unique_seq_to_set();
        assert(exact@.to_set() =~= native@.to_set().intersect(r)) by {
            assert forall|x: TriKey| native@.to_set().intersect(r).contains(x) implies exact@.to_set().contains(x) by {
                assert(dn@.to_set().contains(x));
            }
            assert forall|x: TriKey| exact@.to_set().contains(x) implies native@.to_set().intersect(r).contains(x) by {
                assert(exact@.contains(x));
                assert(dn@.to_set().contains(x));
            }
        }
        assert(partial@.to_set() =~= native@.to_set().filter(near)) by {
            assert forall|x: TriKey| native@.to_set().filter(near).contains(x) implies partial@.to_set().contains(x) by {
                assert(dn@.to_set().contains(x));
            }
            assert forall|x: TriKey| partial@.to_set().contains(x) implies native@.to_set().filter(near).contains(x) by {
                assert(partial@.contains(x));
                assert(dn@.to_set().contains(x));
            }
        }
    }
    TriKeyOverlap { exact_shared: exact.len(), partial_shared: partial.len() }
}

/// Split the distinct keys `dn` into those found in `dr` and the rest.
fn split_by_membership(dn: &Vec<TriKey>, dr: &Vec<TriKey>) -> (r: (Vec<TriKey>, Vec<TriKey>))
    requires
        dn@.no_duplicates(),
    ensures
        r.0@.no_duplicates(),
        r.1@.no_duplicates(),
        r.0@.to_set() == dn@.to_set().intersect(dr@.to_set()),
        r.1@.to_set() == dn@.to_set().difference(dr@.to_set()),
        r.0@.len() + r.1@.len() == dn@.len(),
{
    let ghost r = dr@.to_set();
    let mut inside: Vec<TriKey> = Vec::new();
    let mut outside: Vec<TriKey> = Vec::new();
    let mut i: usize = 0;
    while i < dn.len()
        invariant
            i <= dn@.len(),
            dn@.no_duplicates(),
            r == dr@.to_set(),
            inside@.no_duplicates(),
            outside@.no_duplicates(),
            inside@.len() + outside@.len() == i,
            forall|x: TriKey| #[trigger]
                inside@.contains(x) <==> (dn@.take(i as int).contains(x) && r.contains(x)),
            forall|x: TriKey| #[trigger]
                outside@.contains(x) <==> (dn@.take(i as int).contains(x) && !r.contains(x)),
        decreases dn@.len() - i,
    {
        let p = dn[i];
        let ghost t1 = dn@.take(i + 1);
        let ghost (bi, bo) = (inside@, outside@);
        proof {
            assert(t1 =~= dn@.take(i as int).push(p));
            assert(!dn@.take(i as int).contains(p)) by {
                if dn@.take(i as int).contains(p) {
                    let k = choose|k: int| 0 <= k < i && dn@.take(i as int)[k] == p;
                    assert(dn@[k] == dn@[i as int]);
                }
            }
        }
        let found = contains_key(dr, p);
        assert(found == r.contains(p));
        if found {
            inside.push(p);
        } else {
            outside.push(p);
        }
        proof {
            assert forall|a: int, b: int| 0 <= a < b < inside@.len() implies inside@[a] != inside@[b] by {
                if b == inside@.len() - 1 && found {
                    assert(bi.contains(inside@[a]));
                }
            }
            assert forall|a: int, b: int| 0 <= a < b < outside@.len() implies outside@[a] != outside@[b] by {
                if b == outside@.len() - 1 && !found {
                    assert(bo.contains(outside@[a]));
                }
            }
            assert forall|x: TriKey| #[trigger]
                inside@.contains(x) <==> (t1.contains(x) && r.contains(x)) by {
                if t1.contains(x) && r.contains(x) {
                    let j = choose|j: int| 0 <= j < i + 1 && t1[j] == x;
                    if j < i {
                        assert(dn@.take(i as int)[j] == x);
                        assert(bi.contains(x));
                        let k = choose|k: int| 0 <= k < bi.len() && bi[k] == x;
                        assert(inside@[k] == x);
                    } else {
                        assert(inside@[inside@.len() - 1] == p);
                    }
                }
                if inside@.contains(x) {
                    let j = choose|j: int| 0 <= j < inside@.len() && inside@[j] == x;
                    if j < bi.len() {
                        assert(bi[j] == x);
                        assert(bi.contains(x));
                        let k = choose|k: int| 0 <= k < i && dn@.take(i as int)[k] == x;
                        assert(t1[k] == x);
                    } else {
                        assert(t1[i as int] == x);
                    }
                }
            }
            assert forall|x: TriKey| #[trigger]
                outside@.contains(x) <==> (t1.contains(x) && !r.contains(x)) by {
                if t1.contains(x) && !r.contains(x) {
                    let j = choose|j: int| 0 <= j < i + 1 && t1[j] == x;
                    if j < i {
                        assert(dn@.take(i as int)[j] == x);
                        assert(bo.contains(x));
                        let k = choose|k: int| 0 <= k < bo.len() && bo[k] == x;
                        assert(outside@[k] == x);
                    } else {
                        assert(outside@[outside@.len() - 1] == p);
                    }
                }
                if outside@.contains(x) {
                    let j = choose|j: int| 0 <= j < outside@.len() && outside@[j] == x;
                    if j < bo.len() {
                        assert(bo[j] == x);
                        assert(bo.contains(x));
                        let k = choose|k: int| 0 <= k < i && dn@.take(i as int)[k] == x;
                        assert(t1[k] == x);
                    } else {
                        assert(t1[i as int] == x);
                    }
                }
            }
        }
        i += 1;
    }
    proof {
        assert(dn@.take(dn@.len() as int) =~= dn@);
        assert(inside@.to_set() =~= dn@.to_set().intersect(r));
        assert(outside@.to_set() =~= dn@.to_set().difference(r));
    }
    (inside, outside)
}

/// Triangle-set agreement between a native and a reference result.
#[derive(Debug)]
pub struct TopologyOverlap {
    pub native_tris: usize,
    pub reference_tris: usize,
    pub shared: usize,
    pub only_native: usize,
    pub only_reference: usize,
}

/// Compare the triangle key sets of a native and a reference result
/// (repeated keys count once).
pub fn topology_overlap(native: &[TriKey], reference: &[TriKey]) -> (o: TopologyOverlap)
    ensures
        o.native_tris == native@.to_set().len(),
        o.reference_tris == reference@.to_set().len(),
        o.shared == native@.to_set().intersect(reference@.to_set()).len(),
        o.only_native == native@.to_set().difference(reference@.to_set()).len(),
        o.only_reference == reference@.to_set().difference(native@.to_set()).len(),
        o.shared + o.only_native == o.native_tris,
        o.shared + o.only_reference == o.reference_tris,
{
    let dn = distinct_keys(native);
    let dr = distinct_keys(reference);
    let (shared, only_n) = split_by_membership(&dn, &dr);
    let (shared_r, only_r) = split_by_membership(&dr, &dn);
    proof {
        dn@.unique_seq_to_set();
        dr@.unique_seq_to_set();
        shared@.unique_seq_to_set();
        shared_r@.unique_seq_to_set();
        only_n@.unique_seq_to_set();
        only_r@.unique_seq_to_set();
        assert(shared_r@.to_set() =~= shared@.to_set());
    }
    TopologyOverlap {
        native_tris: dn.len(),
        reference_tris: dr.len(),
        shared: shared.len(),
        only_native: only_n.len(),
        only_reference: only_r.len(),
    }
}

} // verus!
