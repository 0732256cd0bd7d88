//! Inter-frame helpers of the VP9 encoder: reference sign bias and MV
//! scaling, compound averaging, inter-mode choice and tokens, MV-reference
//! clamping, segmentation (right half uses `SEG_LVL_ALT_Q`), tile-column
//! layout and tile packing, and the inter compressed header.
use vstd::prelude::*;
use crate::vp9::bit_writer::{BitWriter, value_bits};
use crate::vp9::bool_coder::{
    BoolEncoder, spec_put_bools, spec_encode, literal_ops, flush_ops, lemma_put_bools_append,
    lemma_put_bools_push,
};
use crate::vp9::mv::Mv;
use crate::vp9::mc::{InterpFilter, plane_ok, predict_inter, spec_inter_pixel, lin};
use crate::vp9::me::{SearchCtx, mk_ctx, src_at};
use crate::vp9::intra::abs_diff;
use crate::vp9::tables::{
    ALTREF_FRAME, DIFF_UPDATE_PROB, INTER_OFFSET_NEARESTMV, INTER_OFFSET_NEARMV,
    INTER_OFFSET_NEWMV, INTER_OFFSET_ZEROMV, NEARESTMV, NEARMV, NEWMV, ZEROMV,
};

verus! {

pub const MAX_TILE_WIDTH_SB: u32 = 64;
pub const MIN_TILE_WIDTH_SB: u32 = 4;
pub const QINDEX: u32 = 128;
pub const QINDEX_USIZE: usize = 128;
/// Segment 1 uses `SEG_LVL_ALT_Q` with this delta.
pub const SEG1_ALT_Q_DELTA: i32 = 32;
pub const MAX_PROB: u8 = 255;
pub const MAXQ: i32 = 255;
pub const MAX_SEGMENTS: usize = 8;
pub const SEG_TREE_PROBS: usize = 7;
pub const SEG_LVL_ALT_Q: usize = 0;
pub const SEG_LVL_MAX: usize = 4;
/// Frame loop-filter level.
pub const FILTER_LEVEL: u8 = 10;
pub const FILTER_SHARPNESS: u8 = 0;
/// `vp9_segment_tree`.
pub const SEGMENT_TREE: [i8; 14] = [2, 4, 6, 8, 10, 12, 0, -1, -2, -3, -4, -5, -6, -7];

/// Only ALTREF has sign bias 1 (which enables compound LAST/GOLDEN + ALTREF).
pub fn ref_sign_bias(rf: i8) -> (b: bool)
    ensures
        b == (rf == ALTREF_FRAME),
{
    rf == ALTREF_FRAME
}

/// A neighbour's MV as a candidate for another reference: negated when the
/// two references' sign biases differ.
pub open spec fn spec_scale_mv_for_ref(mv: Mv, from_ref: i8, to_ref: i8) -> Mv {
    if (from_ref == ALTREF_FRAME) != (to_ref == ALTREF_FRAME) {
        Mv { row: (-mv.row) as i16, col: (-mv.col) as i16 }
    } else {
        mv
    }
}

/// Scale a candidate MV across references (sign flip on bias mismatch).
pub fn scale_mv_for_ref(mv: Mv, from_ref: i8, to_ref: i8) -> (r: Mv)
    requires
        mv.row > i16::MIN,
        mv.col > i16::MIN,
    ensures
        r == spec_scale_mv_for_ref(mv, from_ref, to_ref),
{
    if ref_sign_bias(from_ref) != ref_sign_bias(to_ref) {
        Mv { row: -mv.row, col: -mv.col }
    } else {
        mv
    }
}

/// Rounded average of two prediction samples.
pub open spec fn avg2(a: u8, b: u8) -> u8 {
    ((a as int + b as int + 1) / 2) as u8
}

/// `out[i] = (a[i] + b[i] + 1) >> 1` — the compound prediction average.
pub fn avg_bytes(a: &[u8], b: &[u8], out: &mut [u8])
    requires
        a@.len() == old(out)@.len(),
        b@.len() == old(out)@.len(),
    ensures
        final(out)@.len() == old(out)@.len(),
        forall|i: int| 0 <= i < final(out)@.len() ==> #[trigger] final(out)@[i] == avg2(a@[i], b@[i]),
{
    let n = out.len();
    let mut i: usize = 0;
    while i < n
        invariant
            n == out@.len(),
            i <= n,
            a@.len() == n,
            b@.len() == n,
            forall|k: int| 0 <= k < i ==> #[trigger] out@[k] == avg2(a@[k], b@[k]),
        decreases n - i,
    {
        let s: u16 = a[i] as u16 + b[i] as u16 + 1;
        out[i] = (s / 2) as u8;
        i += 1;
    }
}

/// `INTER_OFFSET(mode)` for an inter mode.
pub open spec fn is_inter_mode(mode: i8) -> bool {
    mode == NEARESTMV || mode == NEARMV || mode == ZEROMV || mode == NEWMV
}

/// The inter-mode tree token of an inter mode (`mode - NEARESTMV`).
pub fn inter_mode_token(mode: i8) -> (t: i8)
    requires
        is_inter_mode(mode),
    ensures
        t == mode - NEARESTMV,
{
    match mode {
        NEARESTMV => INTER_OFFSET_NEARESTMV,
        NEARMV => INTER_OFFSET_NEARMV,
        ZEROMV => INTER_OFFSET_ZEROMV,
        _ => INTER_OFFSET_NEWMV,
    }
}

/// The coded mode for a searched MV: ZEROMV for the zero vector, NEARESTMV /
/// NEARMV when it equals a reference candidate, else NEWMV.
pub open spec fn spec_pick_inter_mode(best: Mv, nearest: Mv, near: Mv) -> (Mv, i8) {
    if best == (Mv { row: 0, col: 0 }) {
        (Mv { row: 0, col: 0 }, ZEROMV)
    } else if best == nearest {
        (nearest, NEARESTMV)
    } else if best == near {
        (near, NEARMV)
    } else {
        (best, NEWMV)
    }
}

/// Prefer predicted modes when the searched MV matches a reference candidate.
pub fn pick_inter_mode(best: Mv, nearest: Mv, near: Mv) -> (r: (Mv, i8))
    ensures
        r == spec_pick_inter_mode(best, nearest, near),
{
    if best == (Mv { row: 0, col: 0 }) {
        (Mv { row: 0, col: 0 }, ZEROMV)
    } else if best == nearest {
        (nearest, NEARESTMV)
    } else if best == near {
        (near, NEARMV)
    } else {
        (best, NEWMV)
    }
}

/// Number of MV-context probabilities signalled (all as "no update").
pub fn nmv_update_count(allow_hp: bool) -> (n: usize)
    ensures
        n == if allow_hp {
            69usize
        } else {
            65usize
        },
{
    let mut n: usize = 3 + 2 * (1 + 10 + 1 + 10) + 2 * (2 * 3 + 3);
    if allow_hp {
        n += 2 * (1 + 1);
    }
    n
}

/// Right half of the frame → segment 1 (ALT_Q); left half → segment 0.
pub fn segment_id_for_mi_col(mi_col: usize, mi_cols: usize) -> (s: u8)
    ensures
        s == if mi_col >= mi_cols / 2 {
            1u8
        } else {
            0u8
        },
{
    if mi_col >= mi_cols / 2 {
        1
    } else {
        0
    }
}

/// The quantizer index of a segment: `QINDEX + SEG1_ALT_Q_DELTA` (clamped to
/// 255) for segment 1, `QINDEX` otherwise.
pub fn qindex_for_segment(segment_id: u8) -> (q: usize)
    ensures
        q == if segment_id == 1 {
            160usize
        } else {
            128usize
        },
{
    if segment_id == 1 {
        let v: i32 = QINDEX as i32 + SEG1_ALT_Q_DELTA;
        let c = if v < 0 {
            0
        } else if v > MAXQ {
            MAXQ
        } else {
            v
        };
        c as usize
    } else {
        QINDEX_USIZE
    }
}

/// The three bits of a segment id, most significant first, each coded with
/// probability `MAX_PROB`.
pub open spec fn spec_segment_id_ops(segment_id: u8) -> Seq<(u8, bool)> {
    Seq::new(3, |k: int| (MAX_PROB, ((segment_id as int) / vstd::arithmetic::power2::pow2((2 - k) as nat) as int) % 2 == 1))
}

/// `vp9_write_tree` over `vp9_segment_tree` with `len = 3`: the segment id is
/// written as its 3-bit path.
pub fn write_segment_id(e: &mut BoolEncoder, segment_id: u8)
    requires
        old(e).wf(),
    ensures
        final(e).wf(),
        final(e)@ == spec_put_bools(old(e)@, spec_segment_id_ops(segment_id)),
{
    let ghost ops = spec_segment_id_ops(segment_id);
    let ghost s0 = e@;
    let mut i: i8 = 0;
    let mut len: i32 = 3;
    let bits = segment_id as i32;
    assert(ops.take(0) =~= Seq::<(u8, bool)>::empty());
    assert(SEGMENT_TREE@ =~= seq![2i8, 4i8, 6i8, 8i8, 10i8, 12i8, 0i8, -1i8, -2i8, -3i8, -4i8, -5i8, -6i8, -7i8]);
    while len > 0
        invariant
            0 <= len <= 3,
            0 <= i <= 12,
            i % 2 == 0,
            SEGMENT_TREE@ == seq![2i8, 4i8, 6i8, 8i8, 10i8, 12i8, 0i8, -1i8, -2i8, -3i8, -4i8, -5i8, -6i8, -7i8],
            bits == segment_id as i32,
            e.wf(),
            ops == spec_segment_id_ops(segment_id),
            e@ == spec_put_bools(s0, ops.take(3 - len)),
        decreases len,
    {
        len -= 1;
        let y = (bits as u32) >> (len as u32);
        proof {
            vstd::bits::lemma_u32_shr_is_div(bits as u32, len as u32);
            crate::vp9::bool_coder::lemma_u32_and_one(y);
            let k = 2 - len;
            assert(ops.take(k + 1) =~= ops.take(k).push(ops[k]));
            lemma_put_bools_push(s0, ops.take(k), ops[k]);
        }
        let bit = (y & 1) != 0;
        e.put_bool(MAX_PROB, bit);
        let next = SEGMENT_TREE[i as usize + if bit {
            1usize
        } else {
            0usize
        }];
        i = if next > 0 && next <= 12 {
            next
        } else {
            0
        };
    }
    assert(ops.take(3) =~= ops);
}

/// `min_log2` of libvpx `vp9_get_tile_n_bits`: the least `k >= from` with
/// `64 << k >= sb_cols`.
pub open spec fn spec_min_log2_from(sb_cols: int, k: nat) -> nat
    decreases sb_cols - k,
{
    if 64 * vstd::arithmetic::power2::pow2(k) < sb_cols {
        proof {
            lemma_lt_pow2(k);
        }
        spec_min_log2_from(sb_cols, k + 1)
    } else {
        k
    }
}

pub proof fn lemma_lt_pow2(k: nat)
    ensures
        k < vstd::arithmetic::power2::pow2(k),
    decreases k,
{
    if k == 0 {
        vstd::arithmetic::power2::lemma2_to64();
    } else {
        vstd::arithmetic::power2::lemma_pow2_unfold(k);
        lemma_lt_pow2((k - 1) as nat);
        vstd::arithmetic::power2::lemma_pow2_pos((k - 1) as nat);
    }
}

/// `max_log2` of libvpx `vp9_get_tile_n_bits`: one less than the least
/// `m >= 1` with `sb_cols >> m < 4`.
pub open spec fn spec_max_log2_from(sb_cols: int, m: nat) -> nat
    decreases sb_cols - vstd::arithmetic::power2::pow2(m),
{
    if sb_cols / (vstd::arithmetic::power2::pow2(m) as int) >= 4 {
        proof {
            vstd::arithmetic::power2::lemma_pow2_unfold(m + 1);
            vstd::arithmetic::power2::lemma_pow2_pos(m);
            assert(sb_cols >= 4 * vstd::arithmetic::power2::pow2(m)) by (nonlinear_arith)
                requires
                    sb_cols / (vstd::arithmetic::power2::pow2(m) as int) >= 4,
                    vstd::arithmetic::power2::pow2(m) > 0,
            ;
        }
        spec_max_log2_from(sb_cols, m + 1)
    } else {
        (m - 1) as nat
    }
}

/// Superblock columns of a frame `width` pixels wide.
pub open spec fn sb_cols_of(width: u32) -> int {
    ((width / 8) as int + 7) / 8
}

/// `(min_log2, max_log2)` tile-column bounds for a frame `width` pixels wide
/// (libvpx `vp9_get_tile_n_bits`).
pub fn tile_log2_bounds(width: u32) -> (r: (u32, u32))
    ensures
        r.0 == spec_min_log2_from(sb_cols_of(width), 0),
        r.1 == spec_max_log2_from(sb_cols_of(width), 1),
        r.0 <= 20,
        r.1 <= 26,
{
    let mi_cols = width / 8;
    let sb_cols = (mi_cols + 7) / 8;
    let ghost sb = sb_cols as int;
    proof {
        vstd::arithmetic::power2::lemma2_to64();
    }
    let mut min_log2: u32 = 0;
    loop
        invariant
            sb == sb_cols_of(width),
            sb == sb_cols,
            sb <= 0x400_0000,
            min_log2 <= 20,
            spec_min_log2_from(sb, min_log2 as nat) == spec_min_log2_from(sb, 0),
            vstd::arithmetic::power2::pow2(20) == 0x10_0000,
        ensures
            min_log2 <= 20,
            spec_min_log2_from(sb, 0) == min_log2,
        decreases 20 - min_log2,
    {
        proof {
            if min_log2 < 20 {
                vstd::arithmetic::power2::lemma_pow2_strictly_increases(min_log2 as nat, 20);
            }
            vstd::bits::lemma_u32_shl_is_mul(64, min_log2);
        }
        if (MAX_TILE_WIDTH_SB << min_log2) < sb_cols {
            min_log2 += 1;
        } else {
            assert(spec_min_log2_from(sb, min_log2 as nat) == min_log2);
            break;
        }
    }
    let mut max_log2: u32 = 1;
    loop
        invariant
            sb == sb_cols_of(width),
            sb == sb_cols,
            sb <= 0x400_0000,
            1 <= max_log2 <= 26,
            spec_max_log2_from(sb, max_log2 as nat) == spec_max_log2_from(sb, 1),
            vstd::arithmetic::power2::pow2(24) == 0x100_0000,
        ensures
            1 <= max_log2 <= 26,
            spec_max_log2_from(sb, 1) == max_log2 - 1,
        decreases 26 - max_log2,
    {
        proof {
            vstd::bits::lemma_u32_shr_is_div(sb_cols, max_log2);
            vstd::arithmetic::power2::lemma_pow2_pos(max_log2 as nat);
            if max_log2 >= 25 {
                if max_log2 > 24 {
                    vstd::arithmetic::power2::lemma_pow2_strictly_increases(24, max_log2 as nat);
                }
                assert(sb / (vstd::arithmetic::power2::pow2(max_log2 as nat) as int) < 4) by (nonlinear_arith)
                    requires
                        sb <= 0x400_0000,
                        vstd::arithmetic::power2::pow2(max_log2 as nat) > 0x100_0000,
                ;
            }
        }
        if (sb_cols >> max_log2) >= MIN_TILE_WIDTH_SB {
            max_log2 += 1;
        } else {
            assert(spec_max_log2_from(sb, max_log2 as nat) == max_log2 - 1);
            break;
        }
    }
    (min_log2, max_log2 - 1)
}

/// Two tile columns when the frame allows it (`max_log2 >= 1`, i.e. at least
/// 512 px), clamped into `[min_log2, max_log2]`.
pub open spec fn spec_choose_log2_tile_cols(width: u32) -> int {
    let lo = spec_min_log2_from(sb_cols_of(width), 0) as int;
    let hi = spec_max_log2_from(sb_cols_of(width), 1) as int;
    if hi >= 1 {
        let a = if lo > 1 {
            lo
        } else {
            1
        };
        if a < hi {
            a
        } else {
            hi
        }
    } else {
        lo
    }
}

/// Prefer two tile columns when the frame is wide enough.
pub fn choose_log2_tile_cols(width: u32) -> (l: u32)
    ensures
        l == spec_choose_log2_tile_cols(width),
{
    let (min_log2, max_log2) = tile_log2_bounds(width);
    if max_log2 >= 1 {
        let a = if min_log2 > 1 {
            min_log2
        } else {
            1
        };
        if a < max_log2 {
            a
        } else {
            max_log2
        }
    } else {
        min_log2
    }
}

/// MI column range `[start, end)` of tile `tile_col` of `2^log2` tiles
/// (libvpx `get_tile_offset`): superblock boundaries `tile_col * sb / 2^log2`,
/// in MI units, capped at `mi_cols`.
pub open spec fn spec_tile_mi_col_range(mi_cols: int, log2: nat, tile_col: int) -> (int, int) {
    let sb = (mi_cols + 7) / 8;
    let p = vstd::arithmetic::power2::pow2(log2) as int;
    let start_sb = (tile_col * sb) / p;
    let end_sb = ((tile_col + 1) * sb) / p;
    let start = if start_sb * 8 < mi_cols {
        start_sb * 8
    } else {
        mi_cols
    };
    let end = if end_sb * 8 < mi_cols {
        end_sb * 8
    } else {
        mi_cols
    };
    (start, end)
}

/// The MI column range of one tile column.
pub fn tile_mi_col_range(mi_cols: usize, log2_tile_cols: u32, tile_col: u32) -> (r: (usize, usize))
    requires
        mi_cols <= 0x100_0000,
        log2_tile_cols < 32,
        tile_col < 0x1000,
    ensures
        (r.0 as int, r.1 as int) == spec_tile_mi_col_range(mi_cols as int, log2_tile_cols as nat, tile_col as int),
{
    let sb_cols = (mi_cols + 7) / 8;
    assert(sb_cols <= 0x20_0001);
    assert((tile_col as u64 + 1) * (sb_cols as u64) <= 0x1001 * 0x20_0001
        && (tile_col as u64) * (sb_cols as u64) <= 0x1001 * 0x20_0001) by (nonlinear_arith)
        requires
            tile_col < 0x1000,
            sb_cols <= 0x20_0001,
    ;
    let a: u64 = tile_col as u64 * sb_cols as u64;
    let b: u64 = (tile_col as u64 + 1) * sb_cols as u64;
    proof {
        vstd::bits::lemma_u64_shr_is_div(a, log2_tile_cols as u64);
        vstd::bits::lemma_u64_shr_is_div(b, log2_tile_cols as u64);
        vstd::arithmetic::power2::lemma_pow2_pos(log2_tile_cols as nat);
    }
    let start_sb = a >> (log2_tile_cols as u64);
    let end_sb = b >> (log2_tile_cols as u64);
    proof {
        vstd::arithmetic::div_mod::lemma_div_is_ordered_by_denominator(a as int, 1, vstd::arithmetic::power2::pow2(log2_tile_cols as nat) as int);
        vstd::arithmetic::div_mod::lemma_div_is_ordered_by_denominator(b as int, 1, vstd::arithmetic::power2::pow2(log2_tile_cols as nat) as int);
        assert(a as int / 1 == a as int);
        assert(b as int / 1 == b as int);
    }
    let start = if start_sb * 8 < mi_cols as u64 {
        (start_sb * 8) as usize
    } else {
        mi_cols
    };
    let end = if end_sb * 8 < mi_cols as u64 {
        (end_sb * 8) as usize
    } else {
        mi_cols
    };
    (start, end)
}

/// Big-endian bytes of a `u32` (`u32::to_be_bytes`).
pub open spec fn be32(v: u32) -> Seq<u8> {
    seq![
        (v as nat / 0x100_0000) as u8,
        ((v as nat / 0x1_0000) % 256) as u8,
        ((v as nat / 0x100) % 256) as u8,
        (v as nat % 256) as u8,
    ]
}

/// Tile `j` of `tiles` as it stands in the frame: preceded by its length as a
/// big-endian `u32` unless it is the last tile.
pub open spec fn spec_tile_chunk(tiles: Seq<Seq<u8>>, j: int) -> Seq<u8> {
    if j + 1 < tiles.len() {
        be32(tiles[j].len() as u32) + tiles[j]
    } else {
        tiles[j]
    }
}

/// The first `i` tiles packed.
pub open spec fn spec_pack_prefix(tiles: Seq<Seq<u8>>, i: nat) -> Seq<u8>
    decreases i,
{
    if i == 0 {
        seq![]
    } else {
        spec_pack_prefix(tiles, (i - 1) as nat) + spec_tile_chunk(tiles, i - 1)
    }
}

/// All tiles packed: each but the last carries a big-endian `u32` size prefix.
pub open spec fn spec_pack_tiles(tiles: Seq<Seq<u8>>) -> Seq<u8> {
    spec_pack_prefix(tiles, tiles.len())
}

/// The views of a slice of byte vectors.
pub open spec fn tile_views(tiles: Seq<Vec<u8>>) -> Seq<Seq<u8>> {
    tiles.map_values(|t: Vec<u8>| t@)
}

fn push_all(out: &mut Vec<u8>, src: &[u8])
    ensures
        final(out)@ == old(out)@ + src@,
{
    let n = src.len();
    let mut k: usize = 0;
    while k < n
        invariant
            k <= n,
            n == src@.len(),
            out@ == old(out)@ + src@.take(k as int),
        decreases n - k,
    {
        assert(src@.take(k + 1) =~= src@.take(k as int).push(src@[k as int]));
        out.push(src[k]);
        k += 1;
    }
    assert(src@.take(n as int) =~= src@);
}

/// `v.to_be_bytes()`.
fn be32_bytes(v: u32) -> (b: [u8; 4])
    ensures
        b@ == be32(v),
{
    let b = [(v >> 24) as u8, (v >> 16) as u8, (v >> 8) as u8, v as u8];
    assert(((v >> 24) as u8) as nat == v as nat / 0x100_0000
        && ((v >> 16) as u8) as nat == (v as nat / 0x1_0000) % 256
        && ((v >> 8) as u8) as nat == (v as nat / 0x100) % 256
        && (v as u8) as nat == v as nat % 256) by (bit_vector);
    assert(b@ =~= be32(v));
    b
}

/// Pack independent tile bitstreams: a big-endian `u32` size prefix on every
/// tile but the last.
pub fn pack_tile_data(tiles: &[Vec<u8>]) -> (out: Vec<u8>)
    ensures
        out@ == spec_pack_tiles(tile_views(tiles@)),
{
    let ghost tv = tile_views(tiles@);
    let mut out: Vec<u8> = Vec::new();
    let n = tiles.len();
    let mut i: usize = 0;
    while i < n
        invariant
            i <= n,
            n == tiles@.len(),
            tv == tile_views(tiles@),
            tv.len() == n,
            out@ == spec_pack_prefix(tv, i as nat),
        decreases n - i,
    {
        let tile = &tiles[i];
        assert(tv[i as int] == tile@);
        if i + 1 < n {
            let p = be32_bytes(tile.len() as u32);
            push_all(&mut out, &p);
        }
        push_all(&mut out, tile.as_slice());
        assert(out@ =~= spec_pack_prefix(tv, (i + 1) as nat));
        i += 1;
    }
    out
}

/// Tile-column syntax (VP9 spec `tile_info`): `log2 - min_log2` ones, a
/// terminating zero unless `log2 == max_log2`, then `log2_tile_rows = 0`.
pub open spec fn spec_tile_info_bits(width: u32, log2_tile_cols: u32) -> Seq<bool> {
    let lo = spec_min_log2_from(sb_cols_of(width), 0) as int;
    let hi = spec_max_log2_from(sb_cols_of(width), 1) as int;
    Seq::new((log2_tile_cols - lo) as nat, |k: int| true)
        + (if log2_tile_cols < hi {
        seq![false]
    } else {
        seq![]
    }) + seq![false]
}

/// Write the tile-column/row syntax for `log2_tile_cols` tile columns.
pub fn write_tile_info(w: &mut BitWriter, width: u32, log2_tile_cols: u32)
    requires
        spec_min_log2_from(sb_cols_of(width), 0) <= log2_tile_cols <= spec_max_log2_from(
            sb_cols_of(width),
            1,
        ),
    ensures
        final(w)@ == old(w)@ + spec_tile_info_bits(width, log2_tile_cols),
{
    let (min_log2, max_log2) = tile_log2_bounds(width);
    let ghost total = (log2_tile_cols - min_log2) as nat;
    let mut ones = log2_tile_cols - min_log2;
    while ones > 0
        invariant
            ones <= total,
            w@ == old(w)@ + Seq::new((total - ones) as nat, |k: int| true),
        decreases ones,
    {
        w.write_bit(1);
        assert(Seq::new((total - ones) as nat, |k: int| true).push(true) =~= Seq::new(
            (total - ones + 1) as nat,
            |k: int| true,
        ));
        ones -= 1;
    }
    let ghost w1 = w@;
    if log2_tile_cols < max_log2 {
        w.write_bit(0);
    }
    w.write_bit(0);
    assert(w@ =~= old(w)@ + spec_tile_info_bits(width, log2_tile_cols));
}

/// `v` clamped into `[lo, hi]` (`i32::clamp`, `lo <= hi`).
pub open spec fn clamp_i32(v: int, lo: int, hi: int) -> int {
    if v < lo {
        lo
    } else if v > hi {
        hi
    } else {
        v
    }
}

/// libvpx `clamp_mv_ref` (`MV_BORDER = 16 << 3`, MI = 8 px, Q3 units): the
/// vector may point at most 16 px beyond the frame edge around the block.
pub open spec fn spec_clamp_mv_ref(
    mv: Mv,
    mi_row: int,
    mi_col: int,
    mi_rows: int,
    mi_cols: int,
    bw_mi: int,
    bh_mi: int,
) -> Mv {
    let left = -(mi_col * 64) - 128;
    let right = (mi_cols - bw_mi - mi_col) * 64 + 128;
    let top = -(mi_row * 64) - 128;
    let bottom = (mi_rows - bh_mi - mi_row) * 64 + 128;
    Mv {
        row: clamp_i32(mv.row as int, top, bottom) as i16,
        col: clamp_i32(mv.col as int, left, right) as i16,
    }
}

/// Clamp a reference MV so it points at most `MV_BORDER` beyond the frame;
/// `bw_mi`/`bh_mi` are the block size in MI units.
pub fn clamp_mv_ref(
    mv: Mv,
    mi_row: usize,
    mi_col: usize,
    mi_rows: usize,
    mi_cols: usize,
    bw_mi: usize,
    bh_mi: usize,
) -> (r: Mv)
    requires
        mi_row <= 0x10_0000,
        mi_col <= 0x10_0000,
        mi_rows <= 0x10_0000,
        mi_cols <= 0x10_0000,
        bw_mi <= mi_cols + 4,
        bh_mi <= mi_rows + 4,
    ensures
        r == spec_clamp_mv_ref(
            mv,
            mi_row as int,
            mi_col as int,
            mi_rows as int,
            mi_cols as int,
            bw_mi as int,
            bh_mi as int,
        ),
{
    let mv_border: i32 = 16 * 8;
    let mr: i32 = mi_row as i32;
    let mc: i32 = mi_col as i32;
    let nr: i32 = mi_rows as i32;
    let nc: i32 = mi_cols as i32;
    let bw: i32 = bw_mi as i32;
    let bh: i32 = bh_mi as i32;
    let left: i32 = -(mc * 8 * 8) - mv_border;
    let right: i32 = (nc - bw - mc) * 8 * 8 + mv_border;
    let top: i32 = -(mr * 8 * 8) - mv_border;
    let bottom: i32 = (nr - bh - mr) * 8 * 8 + mv_border;
    let row: i32 = mv.row as i32;
    let col: i32 = mv.col as i32;
    let cr = if row < top {
        top
    } else if row > bottom {
        bottom
    } else {
        row
    };
    let cc = if col < left {
        left
    } else if col > right {
        right
    } else {
        col
    };
    Mv { row: cr as i16, col: cc as i16 }
}

/// Inputs of [`sad_compound`]: the source block and two reference planes of
/// one size, within the limits of the prediction arithmetic.
pub open spec fn compound_ok(g: SearchCtx, ref1: Seq<u8>, ref1_stride: int) -> bool {
    &&& plane_ok(g.reference, g.ref_stride, g.ref_w, g.ref_h)
    &&& plane_ok(ref1, ref1_stride, g.ref_w, g.ref_h)
    &&& g.bw >= 1 && g.bh >= 1
    &&& g.x >= 0 && g.y >= 0
    &&& (g.y + g.bh - 1) * g.src_stride + g.x + g.bw <= g.src.len()
    &&& g.src_stride >= g.bw
    &&& g.x + g.bw + 4200 <= 0x4000_0000
    &&& g.y + g.bh + 4200 <= 0x4000_0000
    &&& (g.bh + 7) * g.bw <= usize::MAX
    &&& 255 * g.bw * g.bh <= u64::MAX
}

/// The compound prediction at `(r, c)`: the rounded average of the EIGHTTAP
/// luma predictions from the two references.
pub open spec fn spec_compound_pixel(
    g: SearchCtx,
    ref1: Seq<u8>,
    ref1_stride: int,
    mv0: Mv,
    mv1: Mv,
    r: int,
    c: int,
) -> u8 {
    avg2(
        spec_inter_pixel(g.reference, g.ref_stride, g.ref_w, g.ref_h, g.x, g.y, mv0.row, mv0.col, false, InterpFilter::EightTap, r, c),
        spec_inter_pixel(ref1, ref1_stride, g.ref_w, g.ref_h, g.x, g.y, mv1.row, mv1.col, false, InterpFilter::EightTap, r, c),
    )
}

/// SAD over the first `n` samples (raster order) against the compound
/// prediction.
pub open spec fn sad_compound_partial(
    g: SearchCtx,
    ref1: Seq<u8>,
    ref1_stride: int,
    mv0: Mv,
    mv1: Mv,
    n: int,
) -> int
    decreases n,
{
    if n <= 0 {
        0
    } else {
        let r = (n - 1) / g.bw;
        let c = (n - 1) % g.bw;
        sad_compound_partial(g, ref1, ref1_stride, mv0, mv1, n - 1) + abs_diff(
            src_at(g, r, c),
            spec_compound_pixel(g, ref1, ref1_stride, mv0, mv1, r, c),
        )
    }
}

proof fn lemma_compound_partial_bound(g: SearchCtx, ref1: Seq<u8>, ref1_stride: int, mv0: Mv, mv1: Mv, n: int)
    requires
        n >= 0,
    ensures
        0 <= sad_compound_partial(g, ref1, ref1_stride, mv0, mv1, n) <= 255 * n,
    decreases n,
{
    if n > 0 {
        lemma_compound_partial_bound(g, ref1, ref1_stride, mv0, mv1, n - 1);
    }
}

proof fn lemma_compound_index(g: SearchCtx, ref1: Seq<u8>, ref1_stride: int, r: int, c: int)
    requires
        compound_ok(g, ref1, ref1_stride),
        0 <= r < g.bh,
        0 <= c < g.bw,
    ensures
        0 <= (g.y + r) * g.src_stride + g.x + c < g.src.len(),
        0 <= r * g.bw + c < g.bw * g.bh,
        (r * g.bw + c) / g.bw == r,
        (r * g.bw + c) % g.bw == c,
        255 * (r * g.bw + c) + 255 <= 255 * g.bw * g.bh,
{
    assert(0 <= (g.y + r) * g.src_stride + g.x + c < g.src.len()) by (nonlinear_arith)
        requires
            0 <= r < g.bh,
            0 <= c < g.bw,
            g.src_stride >= 0,
            g.y >= 0,
            g.x >= 0,
            (g.y + g.bh - 1) * g.src_stride + g.x + g.bw <= g.src.len(),
    ;
    assert(0 <= r * g.bw + c < g.bw * g.bh) by (nonlinear_arith)
        requires
            0 <= r < g.bh,
            0 <= c < g.bw,
    ;
    assert((r * g.bw + c) / g.bw == r && (r * g.bw + c) % g.bw == c) by (nonlinear_arith)
        requires
            0 <= c < g.bw,
    ;
    assert(255 * (r * g.bw + c) + 255 <= 255 * g.bw * g.bh) by (nonlinear_arith)
        requires
            r * g.bw + c < g.bw * g.bh,
    ;
}

/// SAD of the source block against the average of two EIGHTTAP predictions
/// (LAST/GOLDEN under `mv0`, ALTREF under `mv1`).
pub fn sad_compound(
    src: &[u8],
    src_stride: usize,
    ref0: &[u8],
    ref0_stride: usize,
    ref1: &[u8],
    ref1_stride: usize,
    ref_w: usize,
    ref_h: usize,
    x: usize,
    y: usize,
    bw: usize,
    bh: usize,
    mv0: Mv,
    mv1: Mv,
) -> (sad: u64)
    requires
        compound_ok(mk_ctx(src@, src_stride, ref0@, ref0_stride, ref_w, ref_h, x, y, bw, bh), ref1@, ref1_stride as int),
    ensures
        sad == sad_compound_partial(
            mk_ctx(src@, src_stride, ref0@, ref0_stride, ref_w, ref_h, x, y, bw, bh),
            ref1@,
            ref1_stride as int,
            mv0,
            mv1,
            bw * bh,
        ),
{
    let ghost g = mk_ctx(src@, src_stride, ref0@, ref0_stride, ref_w, ref_h, x, y, bw, bh);
    proof {
        assert(bw * bh <= (bh + 7) * bw) by (nonlinear_arith)
            requires
                bw >= 1,
        ;
    }
    let mut a: Vec<u8> = vec![0u8; bw * bh];
    let mut b: Vec<u8> = vec![0u8; bw * bh];
    predict_inter(ref0, ref0_stride, ref_w, ref_h, x, y, bw, bh, mv0.row, mv0.col, false, InterpFilter::EightTap, a.as_mut_slice());
    predict_inter(ref1, ref1_stride, ref_w, ref_h, x, y, bw, bh, mv1.row, mv1.col, false, InterpFilter::EightTap, b.as_mut_slice());
    let slen = src.len();
    let mut sad: u64 = 0;
    let mut r: usize = 0;
    while r < bh
        invariant
            slen == src@.len(),
            g == mk_ctx(src@, src_stride, ref0@, ref0_stride, ref_w, ref_h, x, y, bw, bh),
            compound_ok(g, ref1@, ref1_stride as int),
            r <= bh,
            a@.len() == bw * bh,
            b@.len() == bw * bh,
            bw * bh <= usize::MAX,
            forall|rr: int, cc: int|
                0 <= rr < bh && 0 <= cc < bw ==> #[trigger] a@[lin(rr, bw as int, cc)] == spec_inter_pixel(
                    ref0@, ref0_stride as int, ref_w as int, ref_h as int, x as int, y as int,
                    mv0.row, mv0.col, false, InterpFilter::EightTap, rr, cc),
            forall|rr: int, cc: int|
                0 <= rr < bh && 0 <= cc < bw ==> #[trigger] b@[lin(rr, bw as int, cc)] == spec_inter_pixel(
                    ref1@, ref1_stride as int, ref_w as int, ref_h as int, x as int, y as int,
                    mv1.row, mv1.col, false, InterpFilter::EightTap, rr, cc),
            sad == sad_compound_partial(g, ref1@, ref1_stride as int, mv0, mv1, r * bw),
        decreases bh - r,
    {
        let mut c: usize = 0;
        while c < bw
            invariant
                slen == src@.len(),
                g == mk_ctx(src@, src_stride, ref0@, ref0_stride, ref_w, ref_h, x, y, bw, bh),
                compound_ok(g, ref1@, ref1_stride as int),
                r < bh,
                c <= bw,
                a@.len() == bw * bh,
                b@.len() == bw * bh,
                bw * bh <= usize::MAX,
                forall|rr: int, cc: int|
                    0 <= rr < bh && 0 <= cc < bw ==> #[trigger] a@[lin(rr, bw as int, cc)] == spec_inter_pixel(
                        ref0@, ref0_stride as int, ref_w as int, ref_h as int, x as int, y as int,
                        mv0.row, mv0.col, false, InterpFilter::EightTap, rr, cc),
                forall|rr: int, cc: int|
                    0 <= rr < bh && 0 <= cc < bw ==> #[trigger] b@[lin(rr, bw as int, cc)] == spec_inter_pixel(
                        ref1@, ref1_stride as int, ref_w as int, ref_h as int, x as int, y as int,
                        mv1.row, mv1.col, false, InterpFilter::EightTap, rr, cc),
                sad == sad_compound_partial(g, ref1@, ref1_stride as int, mv0, mv1, r * bw + c),
            decreases bw - c,
        {
            proof {
                lemma_compound_index(g, ref1@, ref1_stride as int, r as int, c as int);
                lemma_compound_partial_bound(g, ref1@, ref1_stride as int, mv0, mv1, r * bw + c);
                assert(a@[lin(r as int, bw as int, c as int)] == spec_inter_pixel(
                    ref0@, ref0_stride as int, ref_w as int, ref_h as int, x as int, y as int,
                    mv0.row, mv0.col, false, InterpFilter::EightTap, r as int, c as int));
                assert(b@[lin(r as int, bw as int, c as int)] == spec_inter_pixel(
                    ref1@, ref1_stride as int, ref_w as int, ref_h as int, x as int, y as int,
                    mv1.row, mv1.col, false, InterpFilter::EightTap, r as int, c as int));
            }
            let pa = a[r * bw + c];
            let pb = b[r * bw + c];
            let sum: u16 = pa as u16 + pb as u16 + 1;
            let pred = (sum / 2) as u8;
            let s = src[(y + r) * src_stride + x + c];
            let d: u64 = if s >= pred {
                (s - pred) as u64
            } else {
                (pred - s) as u64
            };
            sad = sad + d;
            c += 1;
        }
        assert(r * bw + bw == (r + 1) * bw) by (nonlinear_arith);
        r += 1;
    }
    assert(r * bw == bw * bh) by (nonlinear_arith)
        requires
            r == bh,
    ;
    sad
}

/// The feature-data bits of segment/feature slot `j = 4 * seg + feat`: only
/// segment 1's `SEG_LVL_ALT_Q` is enabled, with `|delta|` in 8 bits and a
/// `0` (positive) sign.
pub open spec fn seg_feature_entry(j: int) -> Seq<bool> {
    if j == 4 * 1 + SEG_LVL_ALT_Q {
        seq![true] + value_bits(SEG1_ALT_Q_DELTA as u32, 8) + seq![false]
    } else {
        seq![false]
    }
}

/// Feature-data bits of the first `k` slots.
pub open spec fn seg_feature_bits(k: nat) -> Seq<bool>
    decreases k,
{
    if k == 0 {
        seq![]
    } else {
        seg_feature_bits((k - 1) as nat) + seg_feature_entry(k - 1)
    }
}

/// Uncompressed `segmentation_params`: enabled, map update with all tree
/// probabilities at `MAX_PROB`, no temporal update, delta-coded feature data.
pub open spec fn spec_segmentation_params_bits() -> Seq<bool> {
    seq![true, true] + Seq::new(SEG_TREE_PROBS as nat, |i: int| false) + seq![false, true, false]
        + seg_feature_bits((MAX_SEGMENTS * SEG_LVL_MAX) as nat)
}

/// Write the segmentation parameters (segment map + ALT_Q on segment 1).
pub fn write_segmentation_params(w: &mut BitWriter)
    ensures
        final(w)@ == old(w)@ + spec_segmentation_params_bits(),
{
    w.write_bit(1);
    w.write_bit(1);
    let ghost w0 = w@;
    let mut i: usize = 0;
    while i < SEG_TREE_PROBS
        invariant
            i <= SEG_TREE_PROBS,
            w@ == w0 + Seq::new(i as nat, |k: int| false),
        decreases SEG_TREE_PROBS - i,
    {
        w.write_bit(0);
        assert(Seq::new(i as nat, |k: int| false).push(false) =~= Seq::new((i + 1) as nat, |k: int| false));
        i += 1;
    }
    w.write_bit(0);
    w.write_bit(1);
    w.write_bit(0);
    let ghost w1 = w@;
    assert(w1 =~= old(w)@ + (seq![true, true] + Seq::new(SEG_TREE_PROBS as nat, |i: int| false) + seq![false, true, false]));
    let mut seg: usize = 0;
    while seg < MAX_SEGMENTS
        invariant
            seg <= MAX_SEGMENTS,
            w@ == w1 + seg_feature_bits((seg * SEG_LVL_MAX) as nat),
        decreases MAX_SEGMENTS - seg,
    {
        let mut feat: usize = 0;
        while feat < SEG_LVL_MAX
            invariant
                seg < MAX_SEGMENTS,
                feat <= SEG_LVL_MAX,
                w@ == w1 + seg_feature_bits((seg * SEG_LVL_MAX + feat) as nat),
            decreases SEG_LVL_MAX - feat,
        {
            let ghost j = seg * SEG_LVL_MAX + feat;
            let ghost before = w@;
            let active = seg == 1 && feat == SEG_LVL_ALT_Q;
            w.write_bit(if active {
                1u32
            } else {
                0u32
            });
            if active {
                w.write_bits(SEG1_ALT_Q_DELTA as u32, 8);
                w.write_bit(0);
            }
            assert(w@ =~= before + seg_feature_entry(j));
            assert(w@ =~= w1 + seg_feature_bits((j + 1) as nat));
            feat += 1;
        }
        seg += 1;
    }
    assert(w@ =~= old(w)@ + spec_segmentation_params_bits());
}

/// Leading bits of an inter frame header: frame marker, profile 0, a shown
/// non-key frame without error resilience, `reset_frame_context = 0`, and
/// the refresh flags.
pub open spec fn spec_inter_header_head(refresh_frame_flags: u8) -> Seq<bool> {
    value_bits(2, 2) + seq![false, false, false, true, true, false] + value_bits(0, 2)
        + value_bits(refresh_frame_flags as u32, 8)
}

/// LAST, GOLDEN and ALTREF in buffers 0, 1, 2; only ALTREF is sign-biased.
pub open spec fn spec_ref_bits() -> Seq<bool> {
    value_bits(0, 3) + seq![false] + value_bits(1, 3) + seq![false] + value_bits(2, 3)
        + seq![true]
}

/// Frame size from LAST, no render size, `allow_high_precision_mv = 0`,
/// switchable filters, frame-parallel decoding in context 0, loop filter
/// level 10 / sharpness 0 with deltas enabled (no update), `base_q_idx = 128`
/// with no delta-q.
pub open spec fn spec_inter_header_mid() -> Seq<bool> {
    seq![true, false, false, true, false, true] + value_bits(0, 2) + value_bits(
        FILTER_LEVEL as u32,
        6,
    ) + value_bits(FILTER_SHARPNESS as u32, 3) + seq![true, false] + value_bits(QINDEX, 8)
        + seq![false, false, false]
}

/// The uncompressed header of an inter frame: the leading bits, the
/// reference slots, the frame-level settings, segmentation, the tile layout,
/// then the compressed header size.
pub open spec fn spec_inter_header_bits(
    width: u32,
    header_size: u32,
    refresh_frame_flags: u8,
    log2_tile_cols: u32,
) -> Seq<bool> {
    spec_inter_header_head(refresh_frame_flags) + spec_ref_bits() + spec_inter_header_mid()
        + spec_segmentation_params_bits() + spec_tile_info_bits(width, log2_tile_cols)
        + value_bits(header_size, 16)
}

/// Write the uncompressed header of an inter frame.
pub fn write_uncompressed_inter_header(
    w: &mut BitWriter,
    width: u32,
    _height: u32,
    header_size: u32,
    refresh_frame_flags: u8,
    log2_tile_cols: u32,
)
    requires
        spec_min_log2_from(sb_cols_of(width), 0) <= log2_tile_cols <= spec_max_log2_from(
            sb_cols_of(width),
            1,
        ),
    ensures
        final(w)@ == old(w)@ + spec_inter_header_bits(
            width,
            header_size,
            refresh_frame_flags,
            log2_tile_cols,
        ),
{
    let ghost w0 = w@;
    w.write_bits(2, 2);
    w.write_bit(0);
    w.write_bit(0);
    w.write_bit(0);
    w.write_bit(1);
    w.write_bit(1);
    w.write_bit(0);
    w.write_bits(0, 2);
    w.write_bits(refresh_frame_flags as u32, 8);
    let ghost w1 = w@;
    assert(w1 =~= w0 + spec_inter_header_head(refresh_frame_flags));
    let mut i: u32 = 0;
    while i < 3
        invariant
            i <= 3,
            w@ == w1 + (if i == 0 {
                seq![]
            } else if i == 1 {
                value_bits(0, 3) + seq![false]
            } else if i == 2 {
                value_bits(0, 3) + seq![false] + value_bits(1, 3) + seq![false]
            } else {
                spec_ref_bits()
            }),
        decreases 3 - i,
    {
        let ghost before = w@;
        w.write_bits(i, 3);
        w.write_bit(if i == 2 {
            1u32
        } else {
            0u32
        });
        assert(w@ =~= before + value_bits(i, 3) + seq![i == 2]);
        i += 1;
        assert(w@ =~= w1 + (if i == 1 {
            value_bits(0, 3) + seq![false]
        } else if i == 2 {
            value_bits(0, 3) + seq![false] + value_bits(1, 3) + seq![false]
        } else {
            spec_ref_bits()
        }));
    }
    let ghost w2 = w@;
    w.write_bit(1);
    w.write_bit(0);
    w.write_bit(0);
    w.write_bit(1);
    w.write_bit(0);
    w.write_bit(1);
    w.write_bits(0, 2);
    w.write_bits(FILTER_LEVEL as u32, 6);
    w.write_bits(FILTER_SHARPNESS as u32, 3);
    w.write_bit(1);
    w.write_bit(0);
    w.write_bits(QINDEX, 8);
    w.write_bit(0);
    w.write_bit(0);
    w.write_bit(0);
    let ghost w3 = w@;
    assert(w3 =~= w2 + spec_inter_header_mid());
    write_segmentation_params(w);
    write_tile_info(w, width, log2_tile_cols);
    w.write_bits(header_size, 16);
    proof {
        let h = spec_inter_header_head(refresh_frame_flags);
        let r = spec_ref_bits();
        let m = spec_inter_header_mid();
        let sg = spec_segmentation_params_bits();
        let t = spec_tile_info_bits(width, log2_tile_cols);
        let z = value_bits(header_size, 16);
        assert(w@ == w0 + h + r + m + sg + t + z);
        assert(w0 + h + r + m + sg + t + z =~= w0 + (h + r + m + sg + t + z));
    }
}

/// Frame-level `REFERENCE_MODE`.
#[derive(Clone, Copy, PartialEq, Eq, Structural)]
pub enum RefMode {
    /// Only single-reference blocks.
    Single,
    /// Only compound blocks.
    Compound,
    /// Chosen per block.
    Select,
}

/// `n` copies of the decision `(prob, bit)`.
pub open spec fn rep(prob: u8, bit: bool, n: nat) -> Seq<(u8, bool)> {
    Seq::new(n, |i: int| (prob, bit))
}

fn put_repeat(e: &mut BoolEncoder, prob: u8, bit: bool, n: usize)
    requires
        old(e).wf(),
    ensures
        final(e).wf(),
        final(e)@ == spec_put_bools(old(e)@, rep(prob, bit, n as nat)),
{
    let mut k: usize = 0;
    assert(rep(prob, bit, 0) =~= Seq::<(u8, bool)>::empty());
    while k < n
        invariant
            k <= n,
            e.wf(),
            e@ == spec_put_bools(old(e)@, rep(prob, bit, k as nat)),
        decreases n - k,
    {
        proof {
            assert(rep(prob, bit, (k + 1) as nat) =~= rep(prob, bit, k as nat).push((prob, bit)));
            lemma_put_bools_push(old(e)@, rep(prob, bit, k as nat), (prob, bit));
        }
        e.put_bool(prob, bit);
        k += 1;
    }
}

/// The reference-mode part of the inter compressed header.
pub open spec fn spec_ref_mode_ops(ref_mode: RefMode) -> Seq<(u8, bool)> {
    match ref_mode {
        RefMode::Single => seq![(128u8, false)] + rep(DIFF_UPDATE_PROB, false, 10),
        RefMode::Compound => seq![(128u8, true), (128u8, false)] + rep(DIFF_UPDATE_PROB, false, 5),
        RefMode::Select => seq![(128u8, true), (128u8, true)] + rep(DIFF_UPDATE_PROB, false, 5)
            + rep(DIFF_UPDATE_PROB, false, 10) + rep(DIFF_UPDATE_PROB, false, 5),
    }
}

/// Decisions of the inter compressed header: `tx_mode = TX_MODE_SELECT`
/// (base `ALLOW_32X32`) and no probability updates anywhere: tx sizes,
/// coefficients, skip, inter modes, interpolation filters, intra/inter, the
/// reference mode's own probabilities, y modes, partitions and MV contexts.
pub open spec fn spec_compressed_header_inter_ops(ref_mode: RefMode) -> Seq<(u8, bool)> {
    literal_ops(3, 2) + seq![(128u8, true)] + rep(DIFF_UPDATE_PROB, false, 12) + rep(
        128,
        false,
        4,
    ) + rep(DIFF_UPDATE_PROB, false, 3) + rep(DIFF_UPDATE_PROB, false, 21) + rep(
        DIFF_UPDATE_PROB,
        false,
        8,
    ) + rep(DIFF_UPDATE_PROB, false, 4) + spec_ref_mode_ops(ref_mode) + rep(
        DIFF_UPDATE_PROB,
        false,
        36,
    ) + rep(DIFF_UPDATE_PROB, false, 48) + rep(DIFF_UPDATE_PROB, false, 65)
}

/// The bool-coded compressed header of an inter frame.
pub fn compressed_header_inter(ref_mode: RefMode) -> (bytes: Vec<u8>)
    ensures
        bytes@ == spec_encode(spec_compressed_header_inter_ops(ref_mode)),
{
    let mut e = BoolEncoder::new();
    let ghost s0 = e@;
    e.put_literal(3, 2);
    let ghost mut ops = literal_ops(3, 2);
    e.put_bit(true);
    proof {
        lemma_put_bools_push(s0, ops, (128u8, true));
        ops = ops.push((128u8, true));
    }
    put_repeat(&mut e, DIFF_UPDATE_PROB, false, 2 * 1 + 2 * 2 + 2 * 3);
    proof {
        lemma_put_bools_append(s0, ops, rep(DIFF_UPDATE_PROB, false, 12));
        ops = ops + rep(DIFF_UPDATE_PROB, false, 12);
    }
    put_repeat(&mut e, 128, false, 4);
    proof {
        lemma_put_bools_append(s0, ops, rep(128, false, 4));
        ops = ops + rep(128, false, 4);
    }
    put_repeat(&mut e, DIFF_UPDATE_PROB, false, 3);
    proof {
        lemma_put_bools_append(s0, ops, rep(DIFF_UPDATE_PROB, false, 3));
        ops = ops + rep(DIFF_UPDATE_PROB, false, 3);
    }
    put_repeat(&mut e, DIFF_UPDATE_PROB, false, 7 * 3);
    proof {
        lemma_put_bools_append(s0, ops, rep(DIFF_UPDATE_PROB, false, 21));
        ops = ops + rep(DIFF_UPDATE_PROB, false, 21);
    }
    put_repeat(&mut e, DIFF_UPDATE_PROB, false, 4 * 2);
    proof {
        lemma_put_bools_append(s0, ops, rep(DIFF_UPDATE_PROB, false, 8));
        ops = ops + rep(DIFF_UPDATE_PROB, false, 8);
    }
    put_repeat(&mut e, DIFF_UPDATE_PROB, false, 4);
    proof {
        lemma_put_bools_append(s0, ops, rep(DIFF_UPDATE_PROB, false, 4));
        ops = ops + rep(DIFF_UPDATE_PROB, false, 4);
    }
    let ghost s1 = e@;
    match ref_mode {
        RefMode::Single => {
            e.put_bit(false);
            put_repeat(&mut e, DIFF_UPDATE_PROB, false, 5 * 2);
            proof {
                lemma_put_bools_push(s1, seq![], (128u8, false));
                assert(seq![].push((128u8, false)) =~= seq![(128u8, false)]);
                assert(spec_put_bools(s1, seq![]) == s1);
                lemma_put_bools_append(s1, seq![(128u8, false)], rep(DIFF_UPDATE_PROB, false, 10));
            }
        },
        RefMode::Compound => {
            e.put_bit(true);
            e.put_bit(false);
            put_repeat(&mut e, DIFF_UPDATE_PROB, false, 5);
            proof {
                lemma_put_bools_push(s1, seq![], (128u8, true));
                assert(seq![].push((128u8, true)) =~= seq![(128u8, true)]);
                assert(spec_put_bools(s1, seq![]) == s1);
                lemma_put_bools_push(s1, seq![(128u8, true)], (128u8, false));
                assert(seq![(128u8, true)].push((128u8, false)) =~= seq![(128u8, true), (128u8, false)]);
                lemma_put_bools_append(s1, seq![(128u8, true), (128u8, false)], rep(DIFF_UPDATE_PROB, false, 5));
            }
        },
        RefMode::Select => {
            e.put_bit(true);
            e.put_bit(true);
            put_repeat(&mut e, DIFF_UPDATE_PROB, false, 5);
            let ghost s2 = e@;
            put_repeat(&mut e, DIFF_UPDATE_PROB, false, 5 * 2);
            let ghost s3 = e@;
            put_repeat(&mut e, DIFF_UPDATE_PROB, false, 5);
            proof {
                let a = seq![(128u8, true), (128u8, true)];
                lemma_put_bools_push(s1, seq![], (128u8, true));
                assert(seq![].push((128u8, true)) =~= seq![(128u8, true)]);
                assert(spec_put_bools(s1, seq![]) == s1);
                lemma_put_bools_push(s1, seq![(128u8, true)], (128u8, true));
                assert(seq![(128u8, true)].push((128u8, true)) =~= a);
                lemma_put_bools_append(s1, a, rep(DIFF_UPDATE_PROB, false, 5));
                lemma_put_bools_append(s1, a + rep(DIFF_UPDATE_PROB, false, 5), rep(DIFF_UPDATE_PROB, false, 10));
                lemma_put_bools_append(
                    s1,
                    a + rep(DIFF_UPDATE_PROB, false, 5) + rep(DIFF_UPDATE_PROB, false, 10),
                    rep(DIFF_UPDATE_PROB, false, 5),
                );
            }
        },
    }
    proof {
        lemma_put_bools_append(s0, ops, spec_ref_mode_ops(ref_mode));
        ops = ops + spec_ref_mode_ops(ref_mode);
    }
    put_repeat(&mut e, DIFF_UPDATE_PROB, false, 4 * 9);
    proof {
        lemma_put_bools_append(s0, ops, rep(DIFF_UPDATE_PROB, false, 36));
        ops = ops + rep(DIFF_UPDATE_PROB, false, 36);
    }
    put_repeat(&mut e, DIFF_UPDATE_PROB, false, 16 * 3);
    proof {
        lemma_put_bools_append(s0, ops, rep(DIFF_UPDATE_PROB, false, 48));
        ops = ops + rep(DIFF_UPDATE_PROB, false, 48);
    }
    let nmv = nmv_update_count(false);
    put_repeat(&mut e, DIFF_UPDATE_PROB, false, nmv);
    proof {
        lemma_put_bools_append(s0, ops, rep(DIFF_UPDATE_PROB, false, 65));
        ops = ops + rep(DIFF_UPDATE_PROB, false, 65);
        assert(ops == spec_compressed_header_inter_ops(ref_mode));
        lemma_put_bools_append(s0, ops, flush_ops());
    }
    e.finish()
}

} // verus!
