//! Statistics that compare a native broad-phase run against a reference
//! run: pair-set overlap and the flattened intersection-neighbour layout.
use vstd::prelude::*;

use super::intersection_map::IntersectionMap;
use super::topology::TriKey;

verus! {

broadcast use vstd::std_specs::hash::group_hash_axioms;

/// Whether `v` holds the pair `p` (compared component-wise).
fn contains_pair(v: &Vec<(usize, usize)>, p: (usize, usize)) -> (b: bool)
    ensures
        b == v@.contains(p),
{
    let mut i: usize = 0;
    while i < v.len()
        invariant
            i <= v@.len(),
            forall|j: int| 0 <= j < i ==> v@[j] != p,
        decreases v@.len() - i,
    {
        if v[i].0 == p.0 && v[i].1 == p.1 {
            assert(v@[i as int] == p);
            return true;
        }
        i += 1;
    }
    false
}

/// The distinct pairs of `s`, each once, in first-seen order.
fn distinct_pairs(s: &[(usize, usize)]) -> (d: Vec<(usize, usize)>)
    ensures
        d@.no_duplicates(),
        d@.to_set() == s@.to_set(),
{
    let mut d: Vec<(usize, usize)> = Vec::new();
    let mut i: usize = 0;
    while i < s.len()
        invariant
            i <= s@.len(),
            d@.no_duplicates(),
            forall|x: (usize, usize)| #[trigger] d@.contains(x) <==> s@.take(i as int).contains(x),
        decreases s@.len() - i,
    {
        let p = s[i];
        let present = contains_pair(&d, p);
        let ghost before = d@;
        if !present {
            d.push(p);
            assert forall|a: int, b: int| 0 <= a < b < d@.len() implies d@[a] != d@[b] by {
                if b == d@.len() - 1 {
                    assert(before.contains(d@[a]));
                }
            }
        }
        proof {
            let t1 = s@.take(i + 1);
            assert(t1 =~= s@.take(i as int).push(p));
            assert forall|x: (usize, usize)| #[trigger] d@.contains(x) <==> s@.take(i + 1).contains(x) by {
                if s@.take(i + 1).contains(x) {
                    let j = choose|j: int| 0 <= j < i + 1 && t1[j] == x;
                    if j < i {
                        assert(s@.take(i as int)[j] == x);
                        assert(s@.take(i as int).contains(x));
                        assert(before.contains(x));
                        let k = choose|k: int| 0 <= k < before.len() && before[k] == x;
                        assert(d@[k] == x);
                    } else {
                        assert(x == p);
                        if !present {
                            assert(d@[d@.len() - 1] == p);
                        }
                    }
                }
                if d@.contains(x) {
                    let j = choose|j: int| 0 <= j < d@.len() && d@[j] == x;
                    if present || j < before.len() {
                        assert(before[j] == x);
                        assert(before.contains(x));
                        assert(s@.take(i as int).contains(x));
                        let k = choose|k: int| 0 <= k < i && s@.take(i as int)[k] == x;
                        assert(s@.take(i + 1)[k] == x);
                    } else {
                        assert(s@.take(i + 1)[i as int] == x);
                    }
                }
            }
        }
        i += 1;
    }
    assert(s@.take(s@.len() as int) =~= s@);
    assert(d@.to_set() =~= s@.to_set());
    d
}

/// Sizes of the native and reference pair sets and of their intersection
/// (duplicates count once).
pub fn pair_overlap(native: &[(usize, usize)], reference: &[(usize, usize)]) -> (r: (
    usize,
    usize,
    usize,
))
    ensures
        r.0 == native@.to_set().len(),
        r.1 == reference@.to_set().len(),
        r.2 == native@.to_set().intersect(reference@.to_set()).len(),
{
    let dn = distinct_pairs(native);
    let dr = distinct_pairs(reference);
    let mut shared: Vec<(usize, usize)> = Vec::new();
    let mut i: usize = 0;
    while i < dn.len()
        invariant
            i <= dn@.len(),
            dn@.no_duplicates(),
            shared@.no_duplicates(),
            forall|x: (usize, usize)| #[trigger]
                shared@.contains(x) <==> (dn@.take(i as int).contains(x) && dr@.contains(x)),
        decreases dn@.len() - i,
    {
        let p = dn[i];
        let ghost before = shared@;
        let ghost t1 = dn@.take(i + 1);
        proof {
            assert(t1 =~= dn@.take(i as int).push(p));
            assert(!dn@.take(i as int).contains(p)) by {
                if dn@.take(i as int).contains(p) {
                    let k = choose|k: int| 0 <= k < i && dn@.take(i as int)[k] == p;
                    assert(dn@[k] == dn@[i as int]);
                }
            }
        }
        if contains_pair(&dr, p) {
            shared.push(p);
            assert forall|a: int, b: int| 0 <= a < b < shared@.len() implies shared@[a] != shared@[b] by {
                if b == shared@.len() - 1 {
                    assert(before.contains(shared@[a]));
                }
            }
        }
        proof {
            assert forall|x: (usize, usize)| #[trigger]
                shared@.contains(x) <==> (dn@.take(i + 1).contains(x) && dr@.contains(x)) by {
                if dn@.take(i + 1).contains(x) && dr@.contains(x) {
                    let j = choose|j: int| 0 <= j < i + 1 && t1[j] == x;
                    if j < i {
                        assert(dn@.take(i as int)[j] == x);
                        assert(before.contains(x));
                        let k = choose|k: int| 0 <= k < before.len() && before[k] == x;
                        assert(shared@[k] == x);
                    } else {
                        assert(shared@[shared@.len() - 1] == p);
                    }
                }
                if shared@.contains(x) {
                    let j = choose|j: int| 0 <= j < shared@.len() && shared@[j] == x;
                    if j < before.len() {
                        assert(before[j] == x);
                        assert(before.contains(x));
                        assert(dn@.take(i as int).contains(x));
                        let k = choose|k: int| 0 <= k < i && dn@.take(i as int)[k] == x;
                        assert(dn@.take(i + 1)[k] == x);
                    } else {
                        assert(dn@.take(i + 1)[i as int] == x);
                    }
                }
            }
        }
        i += 1;
    }
    proof {
        assert(dn@.take(dn@.len() as int) =~= dn@);
        dn@.unique_seq_to_set();
        dr@.unique_seq_to_set();
        shared@.unique_seq_to_set();
        assert(shared@.to_set() =~= native@.to_set().intersect(reference@.to_set())) by {
            assert forall|x: (usize, usize)|
                native@.to_set().intersect(reference@.to_set()).contains(x) implies shared@.to_set().contains(x) by {
                assert(dn@.to_set().contains(x));
                assert(dr@.to_set().contains(x));
            }
            assert forall|x: (usize, usize)|
                shared@.to_set().contains(x) implies native@.to_set().intersect(reference@.to_set()).contains(x) by {
                assert(shared@.contains(x));
                assert(dn@.to_set().contains(x));
                assert(dr@.to_set().contains(x));
            }
        }
    }
    (dn.len(), dr.len(), shared.len())
}

/// The flattened neighbour lists of `ids` in order: for each id, the length
/// of its list followed by the list itself.
pub open spec fn neighbor_layout(ids: Seq<usize>, lists: Map<usize, Seq<usize>>) -> Seq<usize>
    decreases ids.len(),
{
    if ids.len() == 0 {
        Seq::empty()
    } else {
        let id = ids.last();
        neighbor_layout(ids.drop_last(), lists) + seq![lists[id].len() as usize] + lists[id]
    }
}

/// Flatten an intersection map in first-seen id order: each id's list
/// length, then its list.
pub fn intersection_neighbors(map: &IntersectionMap) -> (out: Vec<usize>)
    requires
        map.wf(),
    ensures
        out@ == neighbor_layout(map.ids@, map.lists()),
{
    let mut out: Vec<usize> = Vec::new();
    let mut i: usize = 0;
    while i < map.ids.len()
        invariant
            i <= map.ids@.len(),
            map.wf(),
            out@ == neighbor_layout(map.ids@.take(i as int), map.lists()),
        decreases map.ids@.len() - i,
    {
        let id = map.ids[i];
        assert(map.ids@.contains(id));
        let neighbors = map.intersection_set.get(&id).unwrap();
        let ghost base = out@;
        out.push(neighbors.len());
        let mut k: usize = 0;
        while k < neighbors.len()
            invariant
                k <= neighbors@.len(),
                out@ == base + seq![neighbors@.len() as usize] + neighbors@.take(k as int),
            decreases neighbors@.len() - k,
        {
            out.push(neighbors[k]);
            assert(neighbors@.take(k + 1) =~= neighbors@.take(k as int).push(neighbors@[k as int]));
            k += 1;
        }
        proof {
            assert(neighbors@.take(neighbors@.len() as int) =~= neighbors@);
            assert(map.ids@.take(i + 1).drop_last() =~= map.ids@.take(i as int));
            assert(map.lists()[id] == neighbors@);
        }
        i += 1;
    }
    assert(map.ids@.take(map.ids@.len() as int) =~= map.ids@);
    out
}

/// The little-endian `u32` at byte `at`.
pub open spec fn u32le(raw: Seq<u8>, at: int) -> u32 {
    (raw[at] + raw[at + 1] * 256 + raw[at + 2] * 65536 + raw[at + 3] * 16777216) as u32
}

/// The little-endian `i32` at byte `at` (two's complement).
pub open spec fn i32le(raw: Seq<u8>, at: int) -> i32 {
    u32le(raw, at) as i32
}

/// The nine little-endian `i32`s at byte `at`, as a key.
pub open spec fn key_at(raw: Seq<u8>, at: int) -> TriKey {
    TriKey(
        (
            i32le(raw, at),
            i32le(raw, at + 4),
            i32le(raw, at + 8),
            i32le(raw, at + 12),
            i32le(raw, at + 16),
            i32le(raw, at + 20),
            i32le(raw, at + 24),
            i32le(raw, at + 28),
            i32le(raw, at + 32),
        ),
    )
}

/// `count` consecutive little-endian `u32`s from byte `at`.
pub open spec fn u32s_at(raw: Seq<u8>, at: int, count: int) -> Seq<u32> {
    Seq::new(count as nat, |k: int| u32le(raw, at + 4 * k))
}

/// `count` consecutive little-endian `u32`s from byte `at`, widened.
pub open spec fn usizes_at(raw: Seq<u8>, at: int, count: int) -> Seq<usize> {
    Seq::new(count as nat, |k: int| u32le(raw, at + 4 * k) as usize)
}

/// `count` consecutive keys (36 bytes each) from byte `at`.
pub open spec fn keys_at(raw: Seq<u8>, at: int, count: int) -> Seq<TriKey> {
    Seq::new(count as nat, |k: int| key_at(raw, at + 36 * k))
}

fn read_u32_le(raw: &[u8], at: usize) -> (v: u32)
    requires
        at + 4 <= raw@.len(),
    ensures
        v == u32le(raw@, at as int),
{
    raw[at] as u32 + (raw[at + 1] as u32) * 256 + (raw[at + 2] as u32) * 65536 + (raw[at + 3] as u32)
        * 16777216
}

fn read_i32_le(raw: &[u8], at: usize) -> (v: i32)
    requires
        at + 4 <= raw@.len(),
    ensures
        v == i32le(raw@, at as int),
{
    #[verifier::truncate]
    (read_u32_le(raw, at) as i32)
}

fn read_u32s(raw: &[u8], at: usize, count: usize) -> (v: Vec<u32>)
    requires
        at + 4 * count <= raw@.len(),
    ensures
        v@ == u32s_at(raw@, at as int, count as int),
{
    let mut v: Vec<u32> = Vec::new();
    let n = raw.len();
    let mut k: usize = 0;
    while k < count
        invariant
            n == raw@.len(),
            k <= count,
            at + 4 * count <= raw@.len(),
            v@ == u32s_at(raw@, at as int, k as int),
        decreases count - k,
    {
        assert(4 * k + 4 <= 4 * count) by (nonlinear_arith)
            requires
                k < count,
        ;
        v.push(read_u32_le(raw, at + 4 * k));
        assert(v@ =~= u32s_at(raw@, at as int, k + 1));
        k += 1;
    }
    v
}

fn read_usizes(raw: &[u8], at: usize, count: usize) -> (v: Vec<usize>)
    requires
        at + 4 * count <= raw@.len(),
    ensures
        v@ == usizes_at(raw@, at as int, count as int),
{
    let mut v: Vec<usize> = Vec::new();
    let n = raw.len();
    let mut k: usize = 0;
    while k < count
        invariant
            n == raw@.len(),
            k <= count,
            at + 4 * count <= raw@.len(),
            v@ == usizes_at(raw@, at as int, k as int),
        decreases count - k,
    {
        assert(4 * k + 4 <= 4 * count) by (nonlinear_arith)
            requires
                k < count,
        ;
        v.push(read_u32_le(raw, at + 4 * k) as usize);
        assert(v@ =~= usizes_at(raw@, at as int, k + 1));
        k += 1;
    }
    v
}

fn read_keys(raw: &[u8], at: usize, count: usize) -> (v: Vec<TriKey>)
    requires
        at + 36 * count <= raw@.len(),
    ensures
        v@ == keys_at(raw@, at as int, count as int),
{
    let mut v: Vec<TriKey> = Vec::new();
    let n = raw.len();
    let mut k: usize = 0;
    while k < count
        invariant
            n == raw@.len(),
            k <= count,
            at + 36 * count <= raw@.len(),
            v@ == keys_at(raw@, at as int, k as int),
        decreases count - k,
    {
        assert(36 * k + 36 <= 36 * count) by (nonlinear_arith)
            requires
                k < count,
        ;
        let o = at + 36 * k;
        let key = TriKey(
            (
                read_i32_le(raw, o),
                read_i32_le(raw, o + 4),
                read_i32_le(raw, o + 8),
                read_i32_le(raw, o + 12),
                read_i32_le(raw, o + 16),
                read_i32_le(raw, o + 20),
                read_i32_le(raw, o + 24),
                read_i32_le(raw, o + 28),
                read_i32_le(raw, o + 32),
            ),
        );
        v.push(key);
        assert(v@ =~= keys_at(raw@, at as int, k + 1));
        k += 1;
    }
    v
}

/// Whether bytes `at..at + 4` spell `tag`.
pub open spec fn has_tag(raw: Seq<u8>, at: int, tag: Seq<u8>) -> bool {
    &&& at + 4 <= raw.len()
    &&& raw.subrange(at, at + 4) == tag
}

/// `b"SSP1"`.
pub open spec fn ssp1_tag() -> Seq<u8> {
    seq![0x53u8, 0x53u8, 0x50u8, 0x31u8]
}

/// `b"BCP1"`.
pub open spec fn bcp1_tag() -> Seq<u8> {
    seq![0x42u8, 0x43u8, 0x50u8, 0x31u8]
}

/// `b"BVH1"`.
pub open spec fn bvh1_tag() -> Seq<u8> {
    seq![0x42u8, 0x56u8, 0x48u8, 0x31u8]
}

/// Reference split state of the shell brush.
pub struct ShellSplitReference {
    pub split_id_count: usize,
    pub tri_keys: Vec<TriKey>,
    pub clipped_tri_keys: Vec<TriKey>,
    pub clipped_total: usize,
}

/// Clipped-key count, clipped total and the offset of the key arrays: the
/// clipped fields are present only in files of at least 20 bytes.
pub open spec fn ssp1_layout(raw: Seq<u8>) -> (int, int, int) {
    if raw.len() >= 20 {
        (u32le(raw, 12) as int, u32le(raw, 16) as int, 20)
    } else {
        (0, 0, 12)
    }
}

/// An `SSP1` file: tag, split-id count, key count, optional clipped-key
/// count and total, then the keys and clipped keys (nine `i32`s each).
pub open spec fn ssp1_well_formed(raw: Seq<u8>) -> bool {
    let (clipped_count, _, offset) = ssp1_layout(raw);
    &&& raw.len() >= 12
    &&& has_tag(raw, 0, ssp1_tag())
    &&& offset + 36 * (u32le(raw, 8) + clipped_count) <= raw.len()
}

/// Parse an `SSP1` shell-split reference file.
pub fn load_shell_split_reference(raw: &[u8]) -> (r: ShellSplitReference)
    requires
        ssp1_well_formed(raw@),
    ensures
        ({
            let (clipped_count, clipped_total, offset) = ssp1_layout(raw@);
            let tri_count = u32le(raw@, 8) as int;
            &&& r.split_id_count == u32le(raw@, 4)
            &&& r.tri_keys@ == keys_at(raw@, offset, tri_count)
            &&& r.clipped_tri_keys@ == keys_at(raw@, offset + 36 * tri_count, clipped_count)
            &&& r.clipped_total == clipped_total
        }),
{
    let split_id_count = read_u32_le(raw, 4) as usize;
    let tri_count = read_u32_le(raw, 8) as usize;
    let (clipped_count, clipped_total, offset) = if raw.len() >= 20 {
        (read_u32_le(raw, 12) as usize, read_u32_le(raw, 16) as usize, 20usize)
    } else {
        (0usize, 0usize, 12usize)
    };
    let tri_keys = read_keys(raw, offset, tri_count);
    let clipped_tri_keys = read_keys(raw, offset + 36 * tri_count, clipped_count);
    ShellSplitReference { split_id_count, tri_keys, clipped_tri_keys, clipped_total }
}

/// A serialized mesh BVH; the `f32` buffers are held as their IEEE-754 bit
/// patterns, exactly as stored in the file.
pub struct SerializedBvhBits {
    pub version: u32,
    pub node_buffer: Vec<u32>,
    pub triangle_order: Vec<u32>,
    pub triangle_indices: Vec<u32>,
    pub positions: Vec<u32>,
}

/// The `f32` with bit pattern `b` is a NaN: all exponent bits set and a
/// non-zero fraction.
pub open spec fn f32_bits_nan(b: u32) -> bool {
    b & 0x7f80_0000u32 == 0x7f80_0000u32 && b & 0x007f_ffffu32 != 0
}

/// `==` on the `f32`s with bit patterns `a` and `b`: never for a NaN,
/// otherwise equal bits or two zeros of either sign.
pub open spec fn f32_bits_eq(a: u32, b: u32) -> bool {
    !f32_bits_nan(a) && !f32_bits_nan(b) && (a == b || (a & 0x7fff_ffffu32 == 0 && b & 0x7fff_ffffu32
        == 0))
}

/// `==` on two `f32` slices given as bit patterns: same length and
/// element-wise `f32` equality.
pub open spec fn f32_slices_eq(a: Seq<u32>, b: Seq<u32>) -> bool {
    a.len() == b.len() && forall|i: int| 0 <= i < a.len() ==> f32_bits_eq(#[trigger] a[i], b[i])
}

fn f32_eq_bits(a: u32, b: u32) -> (r: bool)
    ensures
        r == f32_bits_eq(a, b),
{
    let a_nan = (a & 0x7f80_0000u32) == 0x7f80_0000u32 && (a & 0x007f_ffffu32) != 0;
    let b_nan = (b & 0x7f80_0000u32) == 0x7f80_0000u32 && (b & 0x007f_ffffu32) != 0;
    !a_nan && !b_nan && (a == b || ((a & 0x7fff_ffffu32) == 0 && (b & 0x7fff_ffffu32) == 0))
}

fn f32_slices_match(a: &Vec<u32>, b: &Vec<u32>) -> (r: bool)
    ensures
        r == f32_slices_eq(a@, b@),
{
    if a.len() != b.len() {
        return false;
    }
    let n = a.len();
    let mut i: usize = 0;
    while i < n
        invariant
            i <= n,
            n == a@.len(),
            n == b@.len(),
            forall|j: int| 0 <= j < i ==> f32_bits_eq(#[trigger] a@[j], b@[j]),
        decreases n - i,
    {
        if !f32_eq_bits(a[i], b[i]) {
            return false;
        }
        i += 1;
    }
    true
}

fn u32_slices_match(a: &Vec<u32>, b: &Vec<u32>) -> (r: bool)
    ensures
        r == (a@ == b@),
{
    if a.len() != b.len() {
        return false;
    }
    let n = a.len();
    let mut i: usize = 0;
    while i < n
        invariant
            i <= n,
            n == a@.len(),
            n == b@.len(),
            forall|j: int| 0 <= j < i ==> #[trigger] a@[j] == b@[j],
        decreases n - i,
    {
        if a[i] != b[i] {
            return false;
        }
        i += 1;
    }
    assert(a@ =~= b@);
    true
}

/// Two serialized BVHs have the same buffers: the node buffer and the
/// positions compare as `f32` (so a NaN never matches and `-0.0` matches
/// `0.0`), the triangle order and indices as integers.
pub fn bvh_buffers_match(a: &SerializedBvhBits, b: &SerializedBvhBits) -> (r: bool)
    ensures
        r == (f32_slices_eq(a.node_buffer@, b.node_buffer@) && a.triangle_order@ == b.triangle_order@
            && a.triangle_indices@ == b.triangle_indices@ && f32_slices_eq(a.positions@, b.positions@)),
{
    f32_slices_match(&a.node_buffer, &b.node_buffer) && u32_slices_match(&a.triangle_order, &b.triangle_order)
        && u32_slices_match(&a.triangle_indices, &b.triangle_indices) && f32_slices_match(
        &a.positions,
        &b.positions,
    )
}

/// Byte length of the `BVH1` chunk at `c`: a 20-byte header (tag and four
/// counts) followed by the four arrays of 4-byte values.
pub open spec fn chunk_len(raw: Seq<u8>, c: int) -> int {
    20 + 4 * (u32le(raw, c + 4) + u32le(raw, c + 8) + u32le(raw, c + 12) + u32le(raw, c + 16))
}

/// A complete `BVH1` chunk starts at `c`.
pub open spec fn chunk_ok(raw: Seq<u8>, c: int) -> bool {
    &&& 0 <= c
    &&& c + 20 <= raw.len()
    &&& has_tag(raw, c, bvh1_tag())
    &&& c + chunk_len(raw, c) <= raw.len()
}

/// `b` holds the `BVH1` chunk at `c`.
pub open spec fn chunk_matches(b: SerializedBvhBits, raw: Seq<u8>, c: int) -> bool {
    let nb = u32le(raw, c + 4) as int;
    let to = u32le(raw, c + 8) as int;
    let ti = u32le(raw, c + 12) as int;
    let pos = u32le(raw, c + 16) as int;
    &&& b.version == 1
    &&& b.node_buffer@ == u32s_at(raw, c + 20, nb)
    &&& b.triangle_order@ == u32s_at(raw, c + 20 + 4 * nb, to)
    &&& b.triangle_indices@ == u32s_at(raw, c + 20 + 4 * (nb + to), ti)
    &&& b.positions@ == u32s_at(raw, c + 20 + 4 * (nb + to + ti), pos)
}

fn read_bvh_chunk(raw: &[u8], at: usize) -> (r: (SerializedBvhBits, usize))
    requires
        chunk_ok(raw@, at as int),
    ensures
        chunk_matches(r.0, raw@, at as int),
        r.1 == at + chunk_len(raw@, at as int),
{
    let n = raw.len();
    assert(at + 20 <= n);
    let nb = read_u32_le(raw, at + 4) as usize;
    let to = read_u32_le(raw, at + 8) as usize;
    let ti = read_u32_le(raw, at + 12) as usize;
    let pos = read_u32_le(raw, at + 16) as usize;
    let mut offset = at + 20;
    let node_buffer = read_u32s(raw, offset, nb);
    offset = offset + 4 * nb;
    let triangle_order = read_u32s(raw, offset, to);
    offset = offset + 4 * to;
    let triangle_indices = read_u32s(raw, offset, ti);
    offset = offset + 4 * ti;
    let positions = read_u32s(raw, offset, pos);
    offset = offset + 4 * pos;
    (SerializedBvhBits { version: 1, node_buffer, triangle_order, triangle_indices, positions }, offset)
}

/// `count` consecutive pairs of little-endian `u32`s from byte `at`.
pub open spec fn pairs_at(raw: Seq<u8>, at: int, count: int) -> Seq<(usize, usize)> {
    Seq::new(count as nat, |k: int| (u32le(raw, at + 8 * k) as usize, u32le(raw, at + 8 * k + 4) as usize))
}

fn read_pairs(raw: &[u8], at: usize, count: usize) -> (v: Vec<(usize, usize)>)
    requires
        at + 8 * count <= raw@.len(),
    ensures
        v@ == pairs_at(raw@, at as int, count as int),
{
    let mut v: Vec<(usize, usize)> = Vec::new();
    let n = raw.len();
    let mut k: usize = 0;
    while k < count
        invariant
            n == raw@.len(),
            k <= count,
            at + 8 * count <= raw@.len(),
            v@ == pairs_at(raw@, at as int, k as int),
        decreases count - k,
    {
        assert(8 * k + 8 <= 8 * count) by (nonlinear_arith)
            requires
                k < count,
        ;
        let first = read_u32_le(raw, at + 8 * k) as usize;
        let second = read_u32_le(raw, at + 8 * k + 4) as usize;
        v.push((first, second));
        assert(v@ =~= pairs_at(raw@, at as int, k + 1));
        k += 1;
    }
    v
}

/// Reference broad-phase state: candidate pairs, intersected ids and
/// neighbour layouts of both brushes, and both serialized BVHs.
pub struct BvhcastReference {
    pub pairs: Vec<(usize, usize)>,
    pub a_ids: Vec<usize>,
    pub b_ids: Vec<usize>,
    pub a_neighbors: Vec<usize>,
    pub b_neighbors: Vec<usize>,
    pub shell_bvh: SerializedBvhBits,
    pub sphere_bvh: SerializedBvhBits,
}

/// Neighbour-layout lengths and the offset of the pair array: the neighbour
/// counts are present only in files of at least 24 bytes.
pub open spec fn bcp1_layout(raw: Seq<u8>) -> (int, int, int) {
    if raw.len() >= 24 {
        (u32le(raw, 16) as int, u32le(raw, 20) as int, 24)
    } else {
        (0, 0, 16)
    }
}

/// Offsets of the a-ids, b-ids, a-neighbours, b-neighbours and first BVH
/// chunk of a `BCP1` file.
pub open spec fn bcp1_offsets(raw: Seq<u8>) -> (int, int, int, int, int) {
    let (an, bn, off) = bcp1_layout(raw);
    let a_at = off + 8 * u32le(raw, 4);
    let b_at = a_at + 4 * u32le(raw, 8);
    let an_at = b_at + 4 * u32le(raw, 12);
    let bn_at = an_at + 4 * an;
    (a_at, b_at, an_at, bn_at, bn_at + 4 * bn)
}

/// A `BCP1` file: tag, pair / a-id / b-id counts, optional neighbour-layout
/// lengths, the arrays, then two `BVH1` chunks (shell, sphere).
pub open spec fn bcp1_well_formed(raw: Seq<u8>) -> bool {
    let shell_at = bcp1_offsets(raw).4;
    &&& raw.len() >= 16
    &&& has_tag(raw, 0, bcp1_tag())
    &&& shell_at <= raw.len()
    &&& chunk_ok(raw, shell_at)
    &&& chunk_ok(raw, shell_at + chunk_len(raw, shell_at))
}

/// Parse a `BCP1` broad-phase reference file.
pub fn load_bvhcast_reference(raw: &[u8]) -> (r: BvhcastReference)
    requires
        bcp1_well_formed(raw@),
    ensures
        ({
            let (an, bn, off) = bcp1_layout(raw@);
            let (a_at, b_at, an_at, bn_at, shell_at) = bcp1_offsets(raw@);
            &&& r.pairs@ == pairs_at(raw@, off, u32le(raw@, 4) as int)
            &&& r.a_ids@ == usizes_at(raw@, a_at, u32le(raw@, 8) as int)
            &&& r.b_ids@ == usizes_at(raw@, b_at, u32le(raw@, 12) as int)
            &&& r.a_neighbors@ == usizes_at(raw@, an_at, an)
            &&& r.b_neighbors@ == usizes_at(raw@, bn_at, bn)
            &&& chunk_matches(r.shell_bvh, raw@, shell_at)
            &&& chunk_matches(r.sphere_bvh, raw@, shell_at + chunk_len(raw@, shell_at))
        }),
{
    let pair_count = read_u32_le(raw, 4) as usize;
    let a_id_count = read_u32_le(raw, 8) as usize;
    let b_id_count = read_u32_le(raw, 12) as usize;
    let (a_neighbor_count, b_neighbor_count, mut offset) = if raw.len() >= 24 {
        (read_u32_le(raw, 16) as usize, read_u32_le(raw, 20) as usize, 24usize)
    } else {
        (0usize, 0usize, 16usize)
    };
    let pairs = read_pairs(raw, offset, pair_count);
    offset = offset + 8 * pair_count;
    let a_ids = read_usizes(raw, offset, a_id_count);
    offset = offset + 4 * a_id_count;
    let b_ids = read_usizes(raw, offset, b_id_count);
    offset = offset + 4 * b_id_count;
    let a_neighbors = read_usizes(raw, offset, a_neighbor_count);
    offset = offset + 4 * a_neighbor_count;
    let b_neighbors = read_usizes(raw, offset, b_neighbor_count);
    offset = offset + 4 * b_neighbor_count;
    let (shell_bvh, next) = read_bvh_chunk(raw, offset);
    let (sphere_bvh, _) = read_bvh_chunk(raw, next);
    BvhcastReference { pairs, a_ids, b_ids, a_neighbors, b_neighbors, shell_bvh, sphere_bvh }
}

} // verus!
