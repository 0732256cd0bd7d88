//! VP9 motion-vector entropy coding (libvpx `vp9_encodemv`).
//!
//! MVs are in 1/8-pel units. With `allow_high_precision_mv = 0` the decoder
//! forces the high-precision bit to 1, so only even MV values round-trip.
use vstd::prelude::*;
use crate::vp9::bool_coder::{BoolEncoder, spec_put_bools, lemma_put_bools_append, lemma_put_bools_push};
use crate::vp9::tree::{
    law_tree_token_read_back, spec_read, spec_tree_path, tree_has, tree_ops, tree_wf, write_tree,
};

verus! {

/// `vp9_mv_class_tree`.
pub const MV_CLASS_TREE: [i8; 20] = [
    0, 2, -1, 4, 6, 8, -2, -3, 10, 12, -4, -5, -6, 14, 16, 18, -7, -8, -9, -10,
];

proof fn lemma_class_tree()
    ensures
        tree_wf(MV_CLASS_TREE@),
        forall|c: i8| 0 <= c <= 10 ==> tree_has(MV_CLASS_TREE@, c),
{
    let t = MV_CLASS_TREE@;
    assert(t =~= seq![0i8, 2i8, -1i8, 4i8, 6i8, 8i8, -2i8, -3i8, 10i8, 12i8, -4i8, -5i8, -6i8, 14i8, 16i8, 18i8, -7i8, -8i8, -9i8, -10i8]);
    reveal_with_fuel(spec_tree_path, 8);
    assert(tree_has(t, 0));
    assert(tree_has(t, 1));
    assert(tree_has(t, 2));
    assert(tree_has(t, 3));
    assert(tree_has(t, 4));
    assert(tree_has(t, 5));
    assert(tree_has(t, 6));
    assert(tree_has(t, 7));
    assert(tree_has(t, 8));
    assert(tree_has(t, 9));
    assert(tree_has(t, 10));
}

/// `vp9_mv_fp_tree`.
pub const MV_FP_TREE: [i8; 6] = [0, 2, -1, 4, -2, -3];

/// `vp9_mv_joint_tree`.
pub const MV_JOINT_TREE: [i8; 6] = [0, 2, -1, 4, -2, -3];

/// `default_nmv_context.joints[MV_JOINTS - 1]`.
pub const DEFAULT_MV_JOINTS: [u8; 3] = [32, 64, 96];

pub const MV_JOINT_ZERO: i8 = 0;
pub const MV_JOINT_HNZVZ: i8 = 1;
pub const MV_JOINT_HZVNZ: i8 = 2;
pub const MV_JOINT_HNZVNZ: i8 = 3;

proof fn lemma_fp_tree()
    ensures
        tree_wf(MV_FP_TREE@),
        forall|c: i8| 0 <= c <= 3 ==> tree_has(MV_FP_TREE@, c),
        MV_JOINT_TREE@ == MV_FP_TREE@,
{
    let t = MV_FP_TREE@;
    assert(t =~= seq![0i8, 2i8, -1i8, 4i8, -2i8, -3i8]);
    assert(MV_JOINT_TREE@ =~= seq![0i8, 2i8, -1i8, 4i8, -2i8, -3i8]);
    reveal_with_fuel(spec_tree_path, 4);
    assert(tree_has(t, 0));
    assert(tree_has(t, 1));
    assert(tree_has(t, 2));
    assert(tree_has(t, 3));
}

/// One component of `default_nmv_context`.
#[derive(Clone, Copy)]
pub struct NmvComponent {
    pub sign: u8,
    pub classes: [u8; 10],
    pub class0: u8,
    pub bits: [u8; 10],
    pub class0_fp: [[u8; 3]; 2],
    pub fp: [u8; 3],
}

/// `default_nmv_context.comps[0]` (vertical) and `[1]` (horizontal).
pub open spec fn spec_default_nmv_comp(i: int) -> NmvComponent {
    NmvComponent {
        sign: 128,
        classes: if i == 0 {
            [224, 144, 192, 168, 192, 176, 192, 198, 198, 245]
        } else {
            [216, 128, 176, 160, 176, 176, 192, 198, 198, 208]
        },
        class0: if i == 0 {
            216
        } else {
            208
        },
        bits: [136, 140, 148, 160, 176, 192, 224, 234, 234, 240],
        class0_fp: [[128, 128, 64], [96, 112, 64]],
        fp: [64, 96, 64],
    }
}

/// `default_nmv_context.comps`: vertical then horizontal.
pub fn default_nmv_comps() -> (c: [NmvComponent; 2])
    ensures
        c[0] == spec_default_nmv_comp(0),
        c[1] == spec_default_nmv_comp(1),
{
    [
        NmvComponent {
            sign: 128,
            classes: [224, 144, 192, 168, 192, 176, 192, 198, 198, 245],
            class0: 216,
            bits: [136, 140, 148, 160, 176, 192, 224, 234, 234, 240],
            class0_fp: [[128, 128, 64], [96, 112, 64]],
            fp: [64, 96, 64],
        },
        NmvComponent {
            sign: 128,
            classes: [216, 128, 176, 160, 176, 176, 192, 198, 198, 208],
            class0: 208,
            bits: [136, 140, 148, 160, 176, 192, 224, 234, 234, 240],
            class0_fp: [[128, 128, 64], [96, 112, 64]],
            fp: [64, 96, 64],
        },
    ]
}

/// A motion vector in 1/8-pel units.
#[derive(Clone, Copy, Debug, Default, PartialEq, Eq, Structural)]
pub struct Mv {
    pub row: i16,
    pub col: i16,
}

/// `MV_JOINT_TYPE` of a vector: which of its components are non-zero.
pub open spec fn spec_joint(mv: Mv) -> i8 {
    if mv.row == 0 && mv.col == 0 {
        MV_JOINT_ZERO
    } else if mv.row == 0 {
        MV_JOINT_HNZVZ
    } else if mv.col == 0 {
        MV_JOINT_HZVNZ
    } else {
        MV_JOINT_HNZVNZ
    }
}

impl Mv {
    /// The joint type: zero, horizontal-only, vertical-only or both.
    pub fn joint(self) -> (j: i8)
        ensures
            j == spec_joint(self),
    {
        if self.row == 0 && self.col == 0 {
            MV_JOINT_ZERO
        } else if self.row == 0 {
            MV_JOINT_HNZVZ
        } else if self.col == 0 {
            MV_JOINT_HZVNZ
        } else {
            MV_JOINT_HNZVNZ
        }
    }
}

/// `floor(log2(n))`, with `0` for `n <= 1`.
pub open spec fn spec_log2_floor(n: int) -> int
    decreases n,
{
    if n <= 1 {
        0
    } else {
        1 + spec_log2_floor(n / 2)
    }
}

/// `floor(log2(n))` (`31 - leading_zeros`), `0` for `n == 0`.
pub fn log2_floor(n: u32) -> (r: u32)
    ensures
        r == spec_log2_floor(n as int),
        r < 32,
{
    proof {
        lemma_log2_bound(n as int);
    }
    let mut m = n;
    let mut k: u32 = 0;
    while m > 1
        invariant
            k + spec_log2_floor(m as int) == spec_log2_floor(n as int),
            spec_log2_floor(n as int) < 32,
        decreases m,
    {
        proof {
            lemma_log2_nonneg(m as int / 2);
        }
        m = m / 2;
        k += 1;
    }
    k
}

proof fn lemma_log2_nonneg(n: int)
    ensures
        spec_log2_floor(n) >= 0,
    decreases n,
{
    if n > 1 {
        lemma_log2_nonneg(n / 2);
    }
}

proof fn lemma_log2_bound(n: int)
    requires
        0 <= n <= u32::MAX,
    ensures
        spec_log2_floor(n) < 32,
{
    vstd::arithmetic::power2::lemma2_to64();
    lemma_log2_mono_pow(n, 32);
}

proof fn lemma_log2_mono_pow(n: int, k: nat)
    requires
        0 <= n < vstd::arithmetic::power2::pow2(k),
        k >= 1,
    ensures
        spec_log2_floor(n) < k,
    decreases k,
{
    vstd::arithmetic::power2::lemma_pow2_unfold(k);
    if n > 1 {
        if k == 1 {
            vstd::arithmetic::power2::lemma2_to64();
        } else {
            lemma_log2_mono_pow(n / 2, (k - 1) as nat);
        }
    }
}

/// `2 << (c + 2)` for a non-zero class, `0` for class 0.
pub open spec fn spec_class_base(c: int) -> int {
    if c != 0 {
        vstd::arithmetic::power2::pow2((c + 3) as nat) as int
    } else {
        0
    }
}

/// The MV class of offset `z = |v| - 1`.
pub open spec fn spec_mv_class(z: int) -> int {
    if z >= 8192 {
        10
    } else {
        spec_log2_floor(z / 8)
    }
}

proof fn lemma_class_facts(z: int)
    requires
        0 <= z <= 32767,
    ensures
        0 <= spec_mv_class(z) <= 10,
        spec_class_base(spec_mv_class(z)) <= z,
        spec_mv_class(z) == 0 ==> z < 16,
{
    vstd::arithmetic::power2::lemma2_to64();
    if z < 8192 {
        if z / 8 >= 1 {
            lemma_log2_range(z / 8);
            let c = spec_log2_floor(z / 8);
            lemma_log2_mono_pow(z / 8, 10);
            if c != 0 {
                vstd::arithmetic::power2::lemma_pow2_unfold((c + 1) as nat);
                vstd::arithmetic::power2::lemma_pow2_unfold((c + 2) as nat);
                vstd::arithmetic::power2::lemma_pow2_unfold((c + 3) as nat);
            } else {
                assert(z / 8 < 2);
            }
        }
    }
}

proof fn lemma_log2_range(n: int)
    requires
        1 <= n,
    ensures
        vstd::arithmetic::power2::pow2(spec_log2_floor(n) as nat) <= n,
        n < 2 * vstd::arithmetic::power2::pow2(spec_log2_floor(n) as nat),
        spec_log2_floor(n) >= 0,
    decreases n,
{
    if n > 1 {
        lemma_log2_range(n / 2);
        vstd::arithmetic::power2::lemma_pow2_unfold((spec_log2_floor(n / 2) + 1) as nat);
    } else {
        vstd::arithmetic::power2::lemma2_to64();
    }
}

/// `mv_class_base(c)`: `CLASS0_SIZE << (c + 2)` for `c != 0`, else `0`.
fn mv_class_base(c: i32) -> (b: i32)
    requires
        0 <= c <= 10,
    ensures
        b == spec_class_base(c as int),
{
    if c != 0 {
        let sh: u32 = (c + 2) as u32;
        proof {
            vstd::arithmetic::power2::lemma2_to64();
            vstd::arithmetic::power2::lemma_pow2_strictly_increases(sh as nat, 13);
            vstd::bits::lemma_u32_shl_is_mul(2, sh);
            vstd::arithmetic::power2::lemma_pow2_unfold((sh + 1) as nat);
        }
        (2u32 << sh) as i32
    } else {
        0
    }
}

/// `(class, offset)` of an MV magnitude offset `z = |v| - 1`: the class
/// (`10` from 8192 on, else `floor(log2(z >> 3))`) and `z` minus its base.
pub fn get_mv_class(z: i32) -> (r: (i32, i32))
    requires
        0 <= z <= 32767,
    ensures
        r.0 == spec_mv_class(z as int),
        r.1 == z - spec_class_base(r.0 as int),
        0 <= r.0 <= 10,
        0 <= r.1,
        r.0 == 0 ==> r.1 < 16,
{
    proof {
        lemma_class_facts(z as int);
    }
    let c = if z >= 2 * 4096 {
        10
    } else {
        log2_floor((z / 8) as u32) as i32
    };
    (c, z - mv_class_base(c))
}

/// `|v|` of an `i16` as an `int`.
pub open spec fn abs16(v: i16) -> int {
    if v < 0 {
        -(v as int)
    } else {
        v as int
    }
}

/// High-precision MV bits are usable when the reference MV is small.
pub open spec fn spec_use_mv_hp(ref_mv: Mv) -> bool {
    abs16(ref_mv.row) < 64 && abs16(ref_mv.col) < 64
}

fn unsigned_abs16(v: i16) -> (r: u16)
    ensures
        r == abs16(v),
{
    if v < 0 {
        (-(v as i32)) as u16
    } else {
        v as u16
    }
}

fn use_mv_hp(ref_mv: Mv) -> (b: bool)
    ensures
        b == spec_use_mv_hp(ref_mv),
{
    unsigned_abs16(ref_mv.row) < 64 && unsigned_abs16(ref_mv.col) < 64
}

/// Bit `i` of a non-negative `d`.
pub open spec fn bit_at(d: int, i: int) -> bool {
    (d / (vstd::arithmetic::power2::pow2(i as nat) as int)) % 2 == 1
}

/// The decisions coding one non-zero MV component: sign, class, integer
/// bits (`class0` bit or `class` raw bits), fractional tree and, when used,
/// the high-precision bit.
pub open spec fn spec_component_ops(comp: i16, m: NmvComponent, use_hp: bool) -> Seq<(u8, bool)> {
    let z = abs16(comp) - 1;
    let c = spec_mv_class(z);
    let off = z - spec_class_base(c);
    let d = off / 8;
    let fr = (off / 2) % 4;
    let hp = off % 2;
    let head = seq![(m.sign, comp < 0)] + tree_ops(MV_CLASS_TREE@, m.classes@, c as i8);
    let mid = if c == 0 {
        seq![(m.class0, d != 0)] + tree_ops(MV_FP_TREE@, m.class0_fp[d]@, fr as i8)
    } else {
        Seq::new(c as nat, |i: int| (m.bits[i], bit_at(d as int, i)))
            + tree_ops(MV_FP_TREE@, m.fp@, fr as i8)
    };
    let tail = if use_hp {
        seq![(128u8, hp != 0)]
    } else {
        seq![]
    };
    head + mid + tail
}

fn write_mv_component(e: &mut BoolEncoder, comp: i16, mvcomp: &NmvComponent, use_hp: bool)
    requires
        old(e).wf(),
        comp != 0,
    ensures
        final(e).wf(),
        final(e)@ == spec_put_bools(old(e)@, spec_component_ops(comp, *mvcomp, use_hp)),
{
    proof {
        lemma_class_tree();
        lemma_fp_tree();
    }
    let ghost s0 = e@;
    let sign = comp < 0;
    let mag = unsigned_abs16(comp) as i32;
    let z = mag - 1;
    let (mv_class, offset) = get_mv_class(z);
    let d = offset / 8;
    let fr = (offset / 2) % 4;
    let hp = offset % 2;
    let ghost m = *mvcomp;
    let ghost head = seq![(m.sign, comp < 0)] + tree_ops(MV_CLASS_TREE@, m.classes@, mv_class as i8);

    e.put_bool(mvcomp.sign, sign);
    let ghost s1 = e@;
    write_tree(e, &MV_CLASS_TREE, &mvcomp.classes, mv_class as i8);
    proof {
        assert(seq![(m.sign, comp < 0)] =~= seq![].push((m.sign, comp < 0)));
        lemma_put_bools_push(s0, seq![], (m.sign, comp < 0));
        lemma_put_bools_append(s0, seq![(m.sign, comp < 0)], tree_ops(MV_CLASS_TREE@, m.classes@, mv_class as i8));
    }
    let ghost s2 = e@;
    assert(s2 == spec_put_bools(s0, head));
    if mv_class == 0 {
        let ghost mid = seq![(m.class0, d != 0)] + tree_ops(MV_FP_TREE@, m.class0_fp[d as int]@, fr as i8);
        e.put_bool(mvcomp.class0, d != 0);
        write_tree(e, &MV_FP_TREE, &mvcomp.class0_fp[d as usize], fr as i8);
        proof {
            assert(seq![(m.class0, d != 0)] =~= seq![].push((m.class0, d != 0)));
            lemma_put_bools_push(s2, seq![], (m.class0, d != 0));
            lemma_put_bools_append(s2, seq![(m.class0, d != 0)], tree_ops(MV_FP_TREE@, m.class0_fp[d as int]@, fr as i8));
            lemma_put_bools_append(s0, head, mid);
        }
    } else {
        let ghost bits_ops = Seq::new(mv_class as nat, |i: int| (m.bits[i], bit_at(d as int, i)));
        let nbits = mv_class;
        let mut i: i32 = 0;
        assert(bits_ops.take(0) =~= Seq::<(u8, bool)>::empty());
        while i < nbits
            invariant
                0 <= i <= nbits <= 10,
                nbits == mv_class,
                0 <= d,
                m == *mvcomp,
                e.wf(),
                bits_ops == Seq::new(mv_class as nat, |i: int| (m.bits[i], bit_at(d as int, i))),
                e@ == spec_put_bools(s2, bits_ops.take(i as int)),
            decreases nbits - i,
        {
            let y = (d as u32) >> (i as u32);
            proof {
                vstd::bits::lemma_u32_shr_is_div(d as u32, i as u32);
                crate::vp9::bool_coder::lemma_u32_and_one(y);
                assert(bits_ops.take(i + 1) =~= bits_ops.take(i as int).push(bits_ops[i as int]));
                lemma_put_bools_push(s2, bits_ops.take(i as int), bits_ops[i as int]);
            }
            e.put_bool(mvcomp.bits[i as usize], (y & 1) != 0);
            i += 1;
        }
        assert(bits_ops.take(nbits as int) =~= bits_ops);
        let ghost s3 = e@;
        write_tree(e, &MV_FP_TREE, &mvcomp.fp, fr as i8);
        proof {
            lemma_put_bools_append(s2, bits_ops, tree_ops(MV_FP_TREE@, m.fp@, fr as i8));
            lemma_put_bools_append(s0, head, bits_ops + tree_ops(MV_FP_TREE@, m.fp@, fr as i8));
        }
    }
    let ghost mid = if mv_class == 0 {
        seq![(m.class0, d != 0)] + tree_ops(MV_FP_TREE@, m.class0_fp[d as int]@, fr as i8)
    } else {
        Seq::new(mv_class as nat, |i: int| (m.bits[i], bit_at(d as int, i)))
            + tree_ops(MV_FP_TREE@, m.fp@, fr as i8)
    };
    assert(e@ == spec_put_bools(s0, head + mid));
    if use_hp {
        e.put_bool(128, hp != 0);
        proof {
            lemma_put_bools_push(s0, head + mid, (128u8, hp != 0));
            assert((head + mid).push((128u8, hp != 0)) =~= head + mid + seq![(128u8, hp != 0)]);
        }
    } else {
        assert(head + mid + seq![] =~= head + mid);
    }
}

/// The decisions coding `mv` as a delta from `ref_mv` (`vp9_encode_mv`).
pub open spec fn spec_mv_ops(mv: Mv, ref_mv: Mv, allow_hp: bool) -> Seq<(u8, bool)> {
    let diff = Mv { row: (mv.row - ref_mv.row) as i16, col: (mv.col - ref_mv.col) as i16 };
    let j = spec_joint(diff);
    let use_hp = allow_hp && spec_use_mv_hp(ref_mv);
    let jops = tree_ops(MV_JOINT_TREE@, DEFAULT_MV_JOINTS@, j);
    let rops = if j == MV_JOINT_HZVNZ || j == MV_JOINT_HNZVNZ {
        spec_component_ops(diff.row, spec_default_nmv_comp(0), use_hp)
    } else {
        seq![]
    };
    let cops = if j == MV_JOINT_HNZVZ || j == MV_JOINT_HNZVNZ {
        spec_component_ops(diff.col, spec_default_nmv_comp(1), use_hp)
    } else {
        seq![]
    };
    jops + rops + cops
}

/// Encode `mv` as a delta from `ref_mv` (`vp9_encode_mv`).
pub fn write_mv(e: &mut BoolEncoder, mv: Mv, ref_mv: Mv, allow_hp: bool)
    requires
        old(e).wf(),
        i16::MIN <= mv.row - ref_mv.row <= i16::MAX,
        i16::MIN <= mv.col - ref_mv.col <= i16::MAX,
    ensures
        final(e).wf(),
        final(e)@ == spec_put_bools(old(e)@, spec_mv_ops(mv, ref_mv, allow_hp)),
{
    proof {
        lemma_fp_tree();
    }
    let ghost s0 = e@;
    let diff = Mv { row: mv.row - ref_mv.row, col: mv.col - ref_mv.col };
    let joint = diff.joint();
    write_tree(e, &MV_JOINT_TREE, &DEFAULT_MV_JOINTS, joint);
    let ghost jops = tree_ops(MV_JOINT_TREE@, DEFAULT_MV_JOINTS@, joint);
    let ghost s1 = e@;
    let comps = default_nmv_comps();
    let use_hp = allow_hp && use_mv_hp(ref_mv);
    if joint == MV_JOINT_HZVNZ || joint == MV_JOINT_HNZVNZ {
        write_mv_component(e, diff.row, &comps[0], use_hp);
    }
    let ghost rops = if joint == MV_JOINT_HZVNZ || joint == MV_JOINT_HNZVNZ {
        spec_component_ops(diff.row, spec_default_nmv_comp(0), use_hp)
    } else {
        seq![]
    };
    proof {
        lemma_put_bools_append(s0, jops, rops);
    }
    let ghost s2 = e@;
    if joint == MV_JOINT_HNZVZ || joint == MV_JOINT_HNZVNZ {
        write_mv_component(e, diff.col, &comps[1], use_hp);
    }
    let ghost cops = if joint == MV_JOINT_HNZVZ || joint == MV_JOINT_HNZVNZ {
        spec_component_ops(diff.col, spec_default_nmv_comp(1), use_hp)
    } else {
        seq![]
    };
    proof {
        lemma_put_bools_append(s0, jops + rops, cops);
    }
}

/// The decided bits of a sequence of decisions.
pub open spec fn op_bits(ops: Seq<(u8, bool)>) -> Seq<bool> {
    ops.map_values(|o: (u8, bool)| o.1)
}

/// `Σ bits[pos + i] · 2^i` over `i < k`: `k` bits read least significant first.
pub open spec fn bits_le(bits: Seq<bool>, pos: int, k: nat) -> int
    decreases k,
{
    if k == 0 {
        0
    } else {
        bits_le(bits, pos, (k - 1) as nat) + if bits[pos + k - 1] {
            vstd::arithmetic::power2::pow2((k - 1) as nat) as int
        } else {
            0
        }
    }
}

/// The value of a component from its sign, class, integer part, fraction
/// and high-precision bit (the decoder's `mv_class_base(c) + ((d << 3) |
/// (fr << 1) | hp) + 1`, negated for the sign).
pub open spec fn component_value(sign: bool, c: int, d: int, fr: int, hp: int) -> int {
    let mag = spec_class_base(c) + 8 * d + 2 * fr + hp + 1;
    if sign {
        -mag
    } else {
        mag
    }
}

/// After the integer part: the fraction from its tree, then the
/// high-precision bit when used (else 1).
pub open spec fn read_component_tail(bits: Seq<bool>, pos: int, sign: bool, c: int, d: int, use_hp: bool) -> Option<(int, nat)> {
    if pos > bits.len() {
        None
    } else {
        match spec_read(MV_FP_TREE@, 0, bits.subrange(pos, bits.len() as int)) {
            None => None,
            Some((fr, n)) => {
                let q = pos + n;
                if use_hp {
                    if q < bits.len() {
                        Some((component_value(sign, c, d, fr as int, if bits[q] { 1 } else { 0 }), (q + 1) as nat))
                    } else {
                        None
                    }
                } else {
                    Some((component_value(sign, c, d, fr as int, 1), q as nat))
                }
            },
        }
    }
}

/// One non-zero MV component read from the front of `bits` as the decoder
/// reads it (libvpx `read_mv_component`): sign, class, then the class-0
/// bit or `class` raw bits, the fraction and the high-precision bit; the
/// value and the number of bits used.
pub open spec fn read_component(bits: Seq<bool>, use_hp: bool) -> Option<(int, nat)> {
    if bits.len() == 0 {
        None
    } else {
        match spec_read(MV_CLASS_TREE@, 0, bits.drop_first()) {
            None => None,
            Some((c, n1)) => {
                let p: int = 1 + n1 as int;
                if c == 0 {
                    if p < bits.len() {
                        read_component_tail(bits, p + 1, bits[0], 0, if bits[p] { 1 } else { 0 }, use_hp)
                    } else {
                        None
                    }
                } else {
                    read_component_tail(bits, p + c, bits[0], c as int, bits_le(bits, p, c as nat), use_hp)
                }
            },
        }
    }
}

proof fn lemma_op_bits_add(a: Seq<(u8, bool)>, b: Seq<(u8, bool)>)
    ensures
        op_bits(a + b) == op_bits(a) + op_bits(b),
{
    assert(op_bits(a + b) =~= op_bits(a) + op_bits(b));
}

/// Bits read least significant first give `d` modulo `2^k`.
proof fn lemma_bits_le(bits: Seq<bool>, pos: int, d: int, k: nat)
    requires
        d >= 0,
        forall|i: int| 0 <= i < k ==> bits[pos + i] == bit_at(d, i),
    ensures
        bits_le(bits, pos, k) == d % (vstd::arithmetic::power2::pow2(k) as int),
    decreases k,
{
    vstd::arithmetic::power2::lemma_pow2_pos(k);
    if k == 0 {
        vstd::arithmetic::power2::lemma2_to64();
    } else {
        let j = (k - 1) as nat;
        lemma_bits_le(bits, pos, d, j);
        vstd::arithmetic::power2::lemma_pow2_pos(j);
        vstd::arithmetic::power2::lemma_pow2_unfold(k);
        let pj = vstd::arithmetic::power2::pow2(j) as int;
        vstd::arithmetic::div_mod::lemma_mod_breakdown(d, pj, 2);
        assert(bits[pos + j] == bit_at(d, j as int));
        assert(pj * 2 == vstd::arithmetic::power2::pow2(k) as int);
        let b = (d / pj) % 2;
        vstd::arithmetic::div_mod::lemma_div_pos_is_pos(d, pj);
        vstd::arithmetic::div_mod::lemma_mod_pos_bound(d / pj, 2);
        assert(bits_le(bits, pos, k) == bits_le(bits, pos, j) + if bits[pos + j] { pj } else { 0 });
        if bits[pos + j] {
            assert(b == 1);
            assert(pj * b == pj);
        } else {
            assert(b == 0);
            assert(pj * b == 0);
        }
    }
}

/// The magnitude offset of a class fits the bits coded for it.
proof fn lemma_class_range(z: int)
    requires
        0 <= z <= 16383,
    ensures
        spec_mv_class(z) >= 1 ==> (z - spec_class_base(spec_mv_class(z))) / 8 < vstd::arithmetic::power2::pow2(
            spec_mv_class(z) as nat,
        ),
        spec_mv_class(z) == 0 ==> z < 16,
        0 <= spec_mv_class(z) <= 10,
        spec_class_base(spec_mv_class(z)) <= z,
        spec_class_base(spec_mv_class(z)) % 2 == 0,
{
    lemma_class_facts(z);
    vstd::arithmetic::power2::lemma2_to64();
    let c = spec_mv_class(z);
    if c >= 1 {
        if z < 8192 {
            lemma_log2_range(z / 8);
            vstd::arithmetic::power2::lemma_pow2_unfold((c + 1) as nat);
            vstd::arithmetic::power2::lemma_pow2_unfold((c + 2) as nat);
            vstd::arithmetic::power2::lemma_pow2_unfold((c + 3) as nat);
            let p = vstd::arithmetic::power2::pow2(c as nat) as int;
            assert(spec_class_base(c) == 8 * p);
            assert(z / 8 < 2 * p);
            assert((z - 8 * p) / 8 < p);
        }
        vstd::arithmetic::power2::lemma_pow2_unfold((c + 3) as nat);
    }
}

/// `8 · (o / 8) + 2 · ((o / 2) % 4) + o % 2 == o`.
proof fn lemma_offset_split(o: int)
    requires
        o >= 0,
    ensures
        8 * (o / 8) + 2 * ((o / 2) % 4) + o % 2 == o,
{
}

/// The class, integer part, fraction and high-precision bit of a component
/// rebuild it.
proof fn lemma_component_value(comp: i16, use_hp: bool)
    requires
        comp != 0,
        abs16(comp) <= 16384,
        use_hp || comp % 2 == 0,
    ensures
        ({
            let z = abs16(comp) - 1;
            let c = spec_mv_class(z);
            let off = z - spec_class_base(c);
            component_value(comp < 0, c, off / 8, (off / 2) % 4, if use_hp { off % 2 } else { 1 }) == comp
        }),
{
    let z = abs16(comp) - 1;
    lemma_class_range(z);
    let c = spec_mv_class(z);
    let off = z - spec_class_base(c);
    lemma_offset_split(off);
    if !use_hp {
        assert(abs16(comp) % 2 == 0);
        assert(off % 2 == 1);
    }
}

/// A non-zero MV component of magnitude at most `2^14` is read back from
/// its decisions, whatever follows them, when its high-precision bit is
/// coded or it is even (an uncoded high-precision bit reads as 1).
#[verifier::spinoff_prover]
#[verifier::rlimit(60)]
pub proof fn law_mv_component_read_back(comp: i16, m: NmvComponent, use_hp: bool, rest: Seq<bool>)
    requires
        comp != 0,
        abs16(comp) <= 16384,
        use_hp || comp % 2 == 0,
    ensures
        read_component(op_bits(spec_component_ops(comp, m, use_hp)) + rest, use_hp) == Some(
            (comp as int, spec_component_ops(comp, m, use_hp).len()),
        ),
{
    lemma_class_tree();
    lemma_fp_tree();
    let z = abs16(comp) - 1;
    lemma_class_range(z);
    lemma_component_value(comp, use_hp);
    let c = spec_mv_class(z);
    let off = z - spec_class_base(c);
    let d = off / 8;
    let fr = (off / 2) % 4;
    let hp = off % 2;
    let sign_ops = seq![(m.sign, comp < 0)];
    let cops = tree_ops(MV_CLASS_TREE@, m.classes@, c as i8);
    let head = sign_ops + cops;
    let fp_probs = if c == 0 {
        m.class0_fp[d]@
    } else {
        m.fp@
    };
    let fops = tree_ops(MV_FP_TREE@, fp_probs, fr as i8);
    let int_ops = if c == 0 {
        seq![(m.class0, d != 0)]
    } else {
        Seq::new(c as nat, |i: int| (m.bits[i], bit_at(d as int, i)))
    };
    let mid = int_ops + fops;
    let tail = if use_hp {
        seq![(128u8, hp != 0)]
    } else {
        seq![]
    };
    let ops = spec_component_ops(comp, m, use_hp);
    assert(ops == head + mid + tail);
    let bits = op_bits(ops) + rest;
    lemma_op_bits_add(head + mid, tail);
    lemma_op_bits_add(head, mid);
    lemma_op_bits_add(sign_ops, cops);
    lemma_op_bits_add(int_ops, fops);
    let after_class = op_bits(mid) + op_bits(tail) + rest;
    assert(bits.drop_first() =~= op_bits(cops) + after_class);
    law_tree_token_read_back(MV_CLASS_TREE@, m.classes@, c as i8, after_class);
    assert(spec_read(MV_CLASS_TREE@, 0, bits.drop_first()) == Some(((c as i8), cops.len())));
    assert((c as i8) as int == c);
    let p: int = 1 + cops.len() as int;
    let q0: int = p + int_ops.len();
    assert(bits.subrange(q0, bits.len() as int) =~= op_bits(fops) + (op_bits(tail) + rest));
    law_tree_token_read_back(MV_FP_TREE@, fp_probs, fr as i8, op_bits(tail) + rest);
    assert(spec_read(MV_FP_TREE@, 0, bits.subrange(q0, bits.len() as int)) == Some(((fr as i8), fops.len())));
    assert((fr as i8) as int == fr);
    let q: int = q0 + fops.len();
    assert(q == ops.len() - tail.len());
    assert(bits[0] == (comp < 0));
    let hp_read = if use_hp {
        hp
    } else {
        1
    };
    if use_hp {
        assert(bits[q] == (hp != 0));
        assert((if bits[q] { 1int } else { 0int }) == hp);
    }
    assert(read_component_tail(bits, q0, comp < 0, c, d, use_hp) == Some((component_value(comp < 0, c, d, fr, hp_read), ops.len())));
    if c == 0 {
        assert(bits[p] == (d != 0));
        assert(d == 0 || d == 1);
        assert((if bits[p] { 1int } else { 0int }) == d);
    } else {
        assert forall|i: int| 0 <= i < c implies bits[p + i] == bit_at(d, i) by {
            assert(bits[p + i] == op_bits(int_ops)[i]);
        }
        lemma_bits_le(bits, p, d, c as nat);
        vstd::arithmetic::div_mod::lemma_small_mod(d as nat, vstd::arithmetic::power2::pow2(c as nat));
        assert(bits_le(bits, p, c as nat) == d);
    }
}

/// An MV delta read as the decoder reads it: the joint, then the row and
/// column components it marks as non-zero.
pub open spec fn read_mv_delta(bits: Seq<bool>, use_hp: bool) -> Option<(int, int)> {
    match spec_read(MV_JOINT_TREE@, 0, bits) {
        None => None,
        Some((j, n)) => {
            let after = bits.subrange(n as int, bits.len() as int);
            let has_row = j == MV_JOINT_HZVNZ || j == MV_JOINT_HNZVNZ;
            let has_col = j == MV_JOINT_HNZVZ || j == MV_JOINT_HNZVNZ;
            let row = if has_row {
                read_component(after, use_hp)
            } else {
                Some((0int, 0nat))
            };
            match row {
                None => None,
                Some((r, k)) => {
                    let col = if has_col {
                        read_component(after.subrange(k as int, after.len() as int), use_hp)
                    } else {
                        Some((0int, 0nat))
                    };
                    match col {
                        None => None,
                        Some((c, _)) => Some((r, c)),
                    }
                },
            }
        },
    }
}

/// The delta `mv - ref_mv` coded by `write_mv` is read back from its
/// decisions when each component is at most `2^14` in magnitude and, with
/// high precision off, even.
#[verifier::spinoff_prover]
#[verifier::rlimit(60)]
pub proof fn law_mv_read_back(mv: Mv, ref_mv: Mv, allow_hp: bool, rest: Seq<bool>)
    requires
        i16::MIN <= mv.row - ref_mv.row <= i16::MAX,
        i16::MIN <= mv.col - ref_mv.col <= i16::MAX,
        -16384 <= mv.row - ref_mv.row <= 16384,
        -16384 <= mv.col - ref_mv.col <= 16384,
        !(allow_hp && spec_use_mv_hp(ref_mv)) ==> (mv.row - ref_mv.row) % 2 == 0 && (mv.col - ref_mv.col) % 2 == 0,
    ensures
        read_mv_delta(op_bits(spec_mv_ops(mv, ref_mv, allow_hp)) + rest, allow_hp && spec_use_mv_hp(ref_mv)) == Some(
            (mv.row - ref_mv.row, mv.col - ref_mv.col),
        ),
{
    lemma_fp_tree();
    let diff = Mv { row: (mv.row - ref_mv.row) as i16, col: (mv.col - ref_mv.col) as i16 };
    let j = spec_joint(diff);
    let use_hp = allow_hp && spec_use_mv_hp(ref_mv);
    let jops = tree_ops(MV_JOINT_TREE@, DEFAULT_MV_JOINTS@, j);
    let rops = if j == MV_JOINT_HZVNZ || j == MV_JOINT_HNZVNZ {
        spec_component_ops(diff.row, spec_default_nmv_comp(0), use_hp)
    } else {
        seq![]
    };
    let cops = if j == MV_JOINT_HNZVZ || j == MV_JOINT_HNZVNZ {
        spec_component_ops(diff.col, spec_default_nmv_comp(1), use_hp)
    } else {
        seq![]
    };
    let bits = op_bits(jops + rops + cops) + rest;
    lemma_op_bits_add(jops + rops, cops);
    lemma_op_bits_add(jops, rops);
    let after = op_bits(rops) + op_bits(cops) + rest;
    assert(bits =~= op_bits(jops) + after);
    assert(tree_has(MV_JOINT_TREE@, j));
    law_tree_token_read_back(MV_JOINT_TREE@, DEFAULT_MV_JOINTS@, j, after);
    assert(bits.subrange(jops.len() as int, bits.len() as int) =~= after);
    if j == MV_JOINT_HZVNZ || j == MV_JOINT_HNZVNZ {
        law_mv_component_read_back(diff.row, spec_default_nmv_comp(0), use_hp, op_bits(cops) + rest);
        assert(op_bits(rops) + op_bits(cops) + rest =~= op_bits(rops) + (op_bits(cops) + rest));
        assert(after.subrange(rops.len() as int, after.len() as int) =~= op_bits(cops) + rest);
    } else {
        assert(op_bits(rops) =~= Seq::<bool>::empty());
        assert(after.subrange(0, after.len() as int) =~= after);
        assert(after =~= op_bits(cops) + rest);
    }
    if j == MV_JOINT_HNZVZ || j == MV_JOINT_HNZVNZ {
        law_mv_component_read_back(diff.col, spec_default_nmv_comp(1), use_hp, rest);
    }
}

} // verus!
