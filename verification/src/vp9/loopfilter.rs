//! VP9 8-bit in-loop deblocking filter, bit-exact with libvpx
//! (`filter4`/`filter8`/`filter16`, the `vpx_lpf_*` edge sweeps, loop-filter
//! masks and the per-superblock plane filtering). Superblocks are visited in
//! raster order; within each, luma is filtered (vertical edges, then
//! horizontal) before the two chroma planes.
use vstd::prelude::*;
use crate::vp9::transform::lemma_i64_shr;

verus! {

/// Per-MI information needed to build the masks.
#[derive(Clone, Copy)]
pub struct LfMi {
    pub skip: bool,
    pub is_inter: bool,
    /// 0 = 4×4, 1 = 8×8, 2 = 16×16, 3 = 32×32.
    pub tx_size_y: u8,
    /// Block width/height in MI units (8×8).
    pub bw_mi: u8,
    pub bh_mi: u8,
    /// `BLOCK_SIZES` index into the mask tables (3 = 8×8 … 12 = 64×64).
    pub bsize_idx: usize,
    /// True only for the top-left MI of a coding block.
    pub block_origin: bool,
    /// Effective loop-filter level of this MI (`0` skips its edges).
    pub level: u8,
}

/// Default `ref_deltas`, indexed by `INTRA_FRAME ..= ALTREF_FRAME`.
pub const DEFAULT_LF_REF_DELTAS: [i8; 4] = [1, 0, -1, -1];

/// Default `mode_deltas`: `[ZEROMV, other inter]`.
pub const DEFAULT_LF_MODE_DELTAS: [i8; 2] = [0, 0];

pub const MI_BLOCK_SIZE: usize = 8;
pub const MAX_LOOP_FILTER: usize = 63;

/// `mode_lf_lut`: 1 for NEARESTMV, NEARMV and NEWMV, 0 for ZEROMV and intra.
pub open spec fn spec_mode_lf_delta_idx(mode: i8) -> usize {
    if mode == 10 || mode == 11 || mode == 13 {
        1
    } else {
        0
    }
}

/// `mode_lf_lut[mode]`.
pub fn mode_lf_delta_idx(mode: i8) -> (r: usize)
    ensures
        r == spec_mode_lf_delta_idx(mode),
{
    if mode == 12 {
        0
    } else if mode == 10 || mode == 11 || mode == 13 {
        1
    } else {
        0
    }
}

/// `v` clamped into `[lo, hi]`.
pub open spec fn clampi(v: int, lo: int, hi: int) -> int {
    if v < lo {
        lo
    } else if v > hi {
        hi
    } else {
        v
    }
}

/// The effective filter level of an MI: `base + ref_delta * scale +
/// mode_delta * scale` with `scale = 2^(base >> 5)`, clamped to
/// `[0, 63]`; a zero base stays zero.
pub open spec fn spec_lf_level(base: u8, ref_frame: i8, mode: i8) -> u8 {
    if base == 0 {
        0
    } else {
        let scale = vstd::arithmetic::power2::pow2((base / 32) as nat) as int;
        let rf = clampi(ref_frame as int, 0, 3);
        let md = spec_mode_lf_delta_idx(mode) as int;
        clampi(
            base + DEFAULT_LF_REF_DELTAS[rf] * scale + DEFAULT_LF_MODE_DELTAS[md] * scale,
            0,
            63,
        ) as u8
    }
}

/// Effective filter level of one MI (`vp9_loop_filter_frame_init` +
/// `get_filter_level` with the default deltas).
pub fn lf_level_for_mi(base: u8, ref_frame: i8, mode: i8) -> (l: u8)
    ensures
        l == spec_lf_level(base, ref_frame, mode),
{
    if base == 0 {
        return 0;
    }
    let sh = (base >> 5) as i32;
    proof {
        vstd::bits::lemma_u8_shr_is_div(base, 5);
        vstd::arithmetic::power2::lemma2_to64();
        vstd::bits::lemma_u32_shl_is_mul(1, sh as u32);
        assert(vstd::arithmetic::power2::pow2(5) == 32);
        assert(sh <= 7);
        vstd::arithmetic::power2::lemma_pow2_strictly_increases(sh as nat, 8);
    }
    let scale: i32 = (1u32 << (sh as u32)) as i32;
    let rf: usize = if ref_frame < 0 {
        0
    } else if ref_frame > 3 {
        3
    } else {
        ref_frame as usize
    };
    let md = mode_lf_delta_idx(mode);
    let rd = DEFAULT_LF_REF_DELTAS[rf] as i32;
    let mdl = DEFAULT_LF_MODE_DELTAS[md] as i32;
    assert(DEFAULT_LF_REF_DELTAS@ =~= seq![1i8, 0i8, -1i8, -1i8]);
    assert(DEFAULT_LF_MODE_DELTAS@ =~= seq![0i8, 0i8]);
    assert(-128 <= rd * scale <= 128 && -128 <= mdl * scale <= 128) by (nonlinear_arith)
        requires
            -1 <= rd <= 1,
            -1 <= mdl <= 1,
            0 < scale <= 128,
    ;
    let lvl: i32 = base as i32 + rd * scale + mdl * scale;
    let c = if lvl < 0 {
        0
    } else if lvl > 63 {
        63
    } else {
        lvl
    };
    c as u8
}

/// Per-level thresholds.
#[derive(Clone, Copy)]
pub struct LoopFilterThresh {
    pub mblim: u8,
    pub lim: u8,
    pub hev_thr: u8,
}

/// `block_inside_limit` of `update_sharpness`.
pub open spec fn spec_inside_limit(sharpness: u8, lvl: int) -> int {
    let shift = (if sharpness > 0 {
        1int
    } else {
        0int
    }) + (if sharpness > 4 {
        1int
    } else {
        0int
    });
    let b0 = lvl / vstd::arithmetic::power2::pow2(shift as nat) as int;
    let b1 = if sharpness > 0 && b0 > 9 - sharpness {
        9 - sharpness
    } else {
        b0
    };
    if b1 < 1 {
        1
    } else {
        b1
    }
}

/// The thresholds of level `lvl`: `lim` is the inside limit, `mblim =
/// 2 * (lvl + 2) + lim`, `hev_thr = lvl >> 4`.
pub open spec fn spec_thresh(sharpness: u8, lvl: int) -> LoopFilterThresh {
    let lim = spec_inside_limit(sharpness, lvl);
    LoopFilterThresh { mblim: (2 * (lvl + 2) + lim) as u8, lim: lim as u8, hev_thr: (lvl / 16) as u8 }
}

/// The thresholds of every level `0 ..= 63` (`update_sharpness`).
pub fn build_thresholds(sharpness: u8) -> (out: Vec<LoopFilterThresh>)
    ensures
        out@.len() == MAX_LOOP_FILTER + 1,
        forall|l: int| 0 <= l <= MAX_LOOP_FILTER ==> #[trigger] out@[l] == spec_thresh(sharpness, l),
{
    let mut out: Vec<LoopFilterThresh> = Vec::new();
    let sh = sharpness as i32;
    let shift: u32 = (if sh > 0 {
        1u32
    } else {
        0u32
    }) + (if sh > 4 {
        1u32
    } else {
        0u32
    });
    proof {
        vstd::arithmetic::power2::lemma2_to64();
    }
    let mut lvl: usize = 0;
    while lvl <= MAX_LOOP_FILTER
        invariant
            lvl <= MAX_LOOP_FILTER + 1,
            out@.len() == lvl,
            sh == sharpness as i32,
            shift as int == (if sharpness > 0 {
                1int
            } else {
                0int
            }) + (if sharpness > 4 {
                1int
            } else {
                0int
            }),
            vstd::arithmetic::power2::pow2(0) == 1,
            vstd::arithmetic::power2::pow2(1) == 2,
            vstd::arithmetic::power2::pow2(2) == 4,
            forall|l: int| 0 <= l < lvl ==> #[trigger] out@[l] == spec_thresh(sharpness, l),
        decreases MAX_LOOP_FILTER + 1 - lvl,
    {
        let lvl_i = lvl as i32;
        proof {
            vstd::bits::lemma_u32_shr_is_div(lvl as u32, shift);
        }
        let mut block_inside_limit: i32 = ((lvl as u32) >> shift) as i32;
        if sh > 0 && block_inside_limit > 9 - sh {
            block_inside_limit = 9 - sh;
        }
        if block_inside_limit < 1 {
            block_inside_limit = 1;
        }
        let t = LoopFilterThresh {
            mblim: (2 * (lvl_i + 2) + block_inside_limit) as u8,
            lim: block_inside_limit as u8,
            hev_thr: (lvl_i / 16) as u8,
        };
        assert(t == spec_thresh(sharpness, lvl as int));
        out.push(t);
        lvl += 1;
    }
    out
}

/// `|a - b|`.
pub open spec fn ad(a: u8, b: u8) -> int {
    if a >= b {
        a - b
    } else {
        b - a
    }
}

fn absdiff(a: u8, b: u8) -> (d: u32)
    ensures
        d == ad(a, b),
{
    if a >= b {
        (a - b) as u32
    } else {
        (b - a) as u32
    }
}

/// `filter_mask`: every step on each side within `limit`, and the step
/// across the edge within `blimit`.
pub open spec fn spec_filter_mask(limit: u8, blimit: u8, p3: u8, p2: u8, p1: u8, p0: u8, q0: u8, q1: u8, q2: u8, q3: u8) -> bool {
    ad(p3, p2) <= limit && ad(p2, p1) <= limit && ad(p1, p0) <= limit && ad(q1, q0) <= limit
        && ad(q2, q1) <= limit && ad(q3, q2) <= limit && ad(p0, q0) * 2 + ad(p1, q1) / 2 <= blimit
}

/// `filter_mask`.
pub fn filter_mask(limit: u8, blimit: u8, p3: u8, p2: u8, p1: u8, p0: u8, q0: u8, q1: u8, q2: u8, q3: u8) -> (m: bool)
    ensures
        m == spec_filter_mask(limit, blimit, p3, p2, p1, p0, q0, q1, q2, q3),
{
    let limit = limit as u32;
    let blimit = blimit as u32;
    absdiff(p3, p2) <= limit && absdiff(p2, p1) <= limit && absdiff(p1, p0) <= limit
        && absdiff(q1, q0) <= limit && absdiff(q2, q1) <= limit && absdiff(q3, q2) <= limit
        && absdiff(p0, q0) * 2 + absdiff(p1, q1) / 2 <= blimit
}

/// `flat_mask4`: the three samples on each side next to the edge are
/// within `thresh` of the edge sample.
pub open spec fn spec_flat_mask4(thresh: u8, p3: u8, p2: u8, p1: u8, p0: u8, q0: u8, q1: u8, q2: u8, q3: u8) -> bool {
    ad(p1, p0) <= thresh && ad(q1, q0) <= thresh && ad(p2, p0) <= thresh && ad(q2, q0) <= thresh
        && ad(p3, p0) <= thresh && ad(q3, q0) <= thresh
}

/// `flat_mask4`.
pub fn flat_mask4(thresh: u8, p3: u8, p2: u8, p1: u8, p0: u8, q0: u8, q1: u8, q2: u8, q3: u8) -> (m: bool)
    ensures
        m == spec_flat_mask4(thresh, p3, p2, p1, p0, q0, q1, q2, q3),
{
    let thresh = thresh as u32;
    absdiff(p1, p0) <= thresh && absdiff(q1, q0) <= thresh && absdiff(p2, p0) <= thresh
        && absdiff(q2, q0) <= thresh && absdiff(p3, p0) <= thresh && absdiff(q3, q0) <= thresh
}

/// `flat_mask5`: `flat_mask4` and the fourth samples out as well.
pub open spec fn spec_flat_mask5(thresh: u8, p4: u8, p3: u8, p2: u8, p1: u8, p0: u8, q0: u8, q1: u8, q2: u8, q3: u8, q4: u8) -> bool {
    spec_flat_mask4(thresh, p3, p2, p1, p0, q0, q1, q2, q3) && ad(p4, p0) <= thresh && ad(q4, q0) <= thresh
}

/// `flat_mask5`.
pub fn flat_mask5(thresh: u8, p4: u8, p3: u8, p2: u8, p1: u8, p0: u8, q0: u8, q1: u8, q2: u8, q3: u8, q4: u8) -> (m: bool)
    ensures
        m == spec_flat_mask5(thresh, p4, p3, p2, p1, p0, q0, q1, q2, q3, q4),
{
    let thresh_i = thresh as u32;
    flat_mask4(thresh, p3, p2, p1, p0, q0, q1, q2, q3) && absdiff(p4, p0) <= thresh_i
        && absdiff(q4, q0) <= thresh_i
}

/// `hev_mask`: high edge variance on either side.
pub open spec fn spec_hev_mask(thresh: u8, p1: u8, p0: u8, q0: u8, q1: u8) -> bool {
    ad(p1, p0) > thresh || ad(q1, q0) > thresh
}

/// `hev_mask`.
pub fn hev_mask(thresh: u8, p1: u8, p0: u8, q0: u8, q1: u8) -> (m: bool)
    ensures
        m == spec_hev_mask(thresh, p1, p0, q0, q1),
{
    let thresh = thresh as u32;
    absdiff(p1, p0) > thresh || absdiff(q1, q0) > thresh
}

/// `signed_char_clamp`.
pub open spec fn clamp8(t: int) -> int {
    clampi(t, -128, 127)
}

fn signed_char_clamp(t: i32) -> (r: i32)
    ensures
        r == clamp8(t as int),
{
    if t < -128 {
        -128
    } else if t > 127 {
        127
    } else {
        t
    }
}

/// `v >> n` (arithmetic) for small `n`.
fn asr(v: i32, n: u32) -> (r: i32)
    requires
        1 <= n <= 4,
    ensures
        r as int == v as int / vstd::arithmetic::power2::pow2(n as nat) as int,
{
    proof {
        lemma_i64_shr(v as i64, n);
        vstd::arithmetic::power2::lemma2_to64();
        vstd::arithmetic::power2::lemma_pow2_pos(n as nat);
    }
    ((v as i64) >> n) as i32
}

/// The four new samples `(q0, p0, q1, p1)` of `filter4`.
pub open spec fn spec_filter4_vals(mask: bool, thresh: u8, p1: u8, p0: u8, q0: u8, q1: u8) -> (int, int, int, int) {
    let ps1 = p1 - 128;
    let ps0 = p0 - 128;
    let qs0 = q0 - 128;
    let qs1 = q1 - 128;
    let hev = spec_hev_mask(thresh, p1, p0, q0, q1);
    let f0 = if hev {
        clamp8(ps1 - qs1)
    } else {
        0
    };
    let f1 = if mask {
        clamp8(f0 + 3 * (qs0 - ps0))
    } else {
        0
    };
    let filter1 = clamp8(f1 + 4) / 8;
    let filter2 = clamp8(f1 + 3) / 8;
    let outer = if hev {
        0
    } else {
        (filter1 + 1) / 2
    };
    (clamp8(qs0 - filter1) + 128, clamp8(ps0 + filter2) + 128, clamp8(qs1 - outer) + 128, clamp8(ps1 + outer) + 128)
}

/// `filter4` on `buf`: the two samples on each side of the edge move
/// toward each other.
#[verifier::opaque]
pub open spec fn spec_filter4(buf: Seq<u8>, mask: bool, thresh: u8, op1: int, op0: int, oq0: int, oq1: int) -> Seq<u8> {
    let v = spec_filter4_vals(mask, thresh, buf[op1], buf[op0], buf[oq0], buf[oq1]);
    buf.update(oq0, v.0 as u8).update(op0, v.1 as u8).update(oq1, v.2 as u8).update(op1, v.3 as u8)
}

/// `filter4`.
pub fn filter4(mask: bool, thresh: u8, buf: &mut [u8], op1: usize, op0: usize, oq0: usize, oq1: usize)
    requires
        op1 < old(buf)@.len(),
        op0 < old(buf)@.len(),
        oq0 < old(buf)@.len(),
        oq1 < old(buf)@.len(),
    ensures
        final(buf)@ == spec_filter4(old(buf)@, mask, thresh, op1 as int, op0 as int, oq0 as int, oq1 as int),
        final(buf)@.len() == old(buf)@.len(),
{
    reveal(spec_filter4);
    let p1 = buf[op1];
    let p0 = buf[op0];
    let q0 = buf[oq0];
    let q1 = buf[oq1];
    let ps1 = p1 as i32 - 128;
    let ps0 = p0 as i32 - 128;
    let qs0 = q0 as i32 - 128;
    let qs1 = q1 as i32 - 128;
    let hev = hev_mask(thresh, p1, p0, q0, q1);
    let mut filter = signed_char_clamp(ps1 - qs1);
    filter = if hev {
        filter
    } else {
        0
    };
    filter = signed_char_clamp(filter + 3 * (qs0 - ps0));
    filter = if mask {
        filter
    } else {
        0
    };
    proof {
        vstd::arithmetic::power2::lemma2_to64();
    }
    let filter1 = asr(signed_char_clamp(filter + 4), 3);
    let filter2 = asr(signed_char_clamp(filter + 3), 3);
    buf[oq0] = (signed_char_clamp(qs0 - filter1) + 128) as u8;
    buf[op0] = (signed_char_clamp(ps0 + filter2) + 128) as u8;
    let outer = asr(filter1 + 1, 1);
    let outer = if hev {
        0
    } else {
        outer
    };
    buf[oq1] = (signed_char_clamp(qs1 - outer) + 128) as u8;
    buf[op1] = (signed_char_clamp(ps1 + outer) + 128) as u8;
}

/// `|a - b|` of two samples.
pub open spec fn sample_dist(a: u8, b: u8) -> int {
    if a >= b { a - b } else { b - a }
}

/// The 4-tap deblocking filter across the edge between `p0` and `q0`
/// (samples `p1 p0 | q0 q1`), in signed sample space (`s - 128`):
/// - off the edge mask nothing moves;
/// - the step `f = clamp(3·(q0 − p0))` (plus `clamp(p1 − q1)` on high edge
///   variance, `|p1 − p0| > thresh` or `|q1 − q0| > thresh`) moves `q0` down
///   by `f1 = clamp(f + 4) >> 3` and `p0` up by `clamp(f + 3) >> 3`;
/// - without high edge variance `p1` moves up and `q1` down by
///   `(f1 + 1) >> 1`; with it they stay.
pub proof fn law_filter4_taps(buf: Seq<u8>, mask: bool, thresh: u8, op1: int, op0: int, oq0: int, oq1: int)
    requires
        0 <= op1 < buf.len(),
        0 <= op0 < buf.len(),
        0 <= oq0 < buf.len(),
        0 <= oq1 < buf.len(),
        op1 != op0 && op1 != oq0 && op1 != oq1 && op0 != oq0 && op0 != oq1 && oq0 != oq1,
    ensures
        ({
            let out = spec_filter4(buf, mask, thresh, op1, op0, oq0, oq1);
            let (p1, p0, q0, q1) = (buf[op1], buf[op0], buf[oq0], buf[oq1]);
            let hev = sample_dist(p1, p0) > thresh || sample_dist(q1, q0) > thresh;
            let f = clamp8((if hev { clamp8(p1 - q1) } else { 0 }) + 3 * (q0 - p0));
            let f1 = clamp8(f + 4) / 8;
            let f2 = clamp8(f + 3) / 8;
            &&& out.len() == buf.len()
            &&& forall|k: int| 0 <= k < buf.len() && k != op1 && k != op0 && k != oq0 && k != oq1 ==> out[k] == buf[k]
            &&& (!mask ==> out == buf)
            &&& (mask ==> out[oq0] == clamp8(q0 - 128 - f1) + 128)
            &&& (mask ==> out[op0] == clamp8(p0 - 128 + f2) + 128)
            &&& (mask && !hev ==> out[op1] == clamp8(p1 - 128 + (f1 + 1) / 2) + 128)
            &&& (mask && !hev ==> out[oq1] == clamp8(q1 - 128 - (f1 + 1) / 2) + 128)
            &&& (hev ==> out[op1] == p1 && out[oq1] == q1)
        }),
{
    reveal(spec_filter4);
    let out = spec_filter4(buf, mask, thresh, op1, op0, oq0, oq1);
    let (p1, p0, q0, q1) = (buf[op1], buf[op0], buf[oq0], buf[oq1]);
    assert(spec_hev_mask(thresh, p1, p0, q0, q1) == (sample_dist(p1, p0) > thresh || sample_dist(q1, q0) > thresh));
    let v = spec_filter4_vals(mask, thresh, p1, p0, q0, q1);
    assert(0 <= v.0 <= 255 && 0 <= v.1 <= 255 && 0 <= v.2 <= 255 && 0 <= v.3 <= 255);
    if !mask {
        assert(clamp8(4int) / 8 == 0 && clamp8(3int) / 8 == 0);
        assert(out =~= buf);
    }
}

/// `t[i + d]` with the index clamped into `0 .. len - 1` (edge samples
/// repeat), summed over `d = -r ..= j`.
pub open spec fn clamped_window(t: Seq<int>, len: int, i: int, r: int, j: int) -> int
    decreases j + r + 1,
{
    if j < -r {
        0
    } else {
        clamped_window(t, len, i, r, j - 1) + t[clampi(i + j, 0, len - 1)]
    }
}

/// The flat 8-tap filter (`filter8` on a flat edge, samples
/// `t = p3 p2 p1 p0 q0 q1 q2 q3`): each of `p2 .. q2` becomes the rounded
/// mean of the 7-sample window centred on it (edge samples repeated) with
/// the centre counted twice.
pub proof fn law_flat_filter8_window(buf: Seq<u8>, mask: bool, thresh: u8, flat: bool, i: Seq<int>)
    requires
        i.len() == 8,
        forall|k: int| 0 <= k < 8 ==> 0 <= #[trigger] i[k] < buf.len(),
        forall|a: int, b: int| 0 <= a < b < 8 ==> #[trigger] i[a] != #[trigger] i[b],
        flat && mask,
    ensures
        ({
            let out = spec_filter8(buf, mask, thresh, flat, i[0], i[1], i[2], i[3], i[4], i[5], i[6], i[7]);
            let t = Seq::new(8, |k: int| buf[i[k]] as int);
            &&& out.len() == buf.len()
            &&& out[i[0]] == buf[i[0]]
            &&& out[i[7]] == buf[i[7]]
            &&& forall|k: int| 1 <= k < 7 ==> #[trigger] out[i[k]] as int == (clamped_window(t, 8, k, 3, 3) + t[k] + 4) / 8
        }),
{
    reveal(spec_filter8);
    let t = Seq::new(8, |k: int| buf[i[k]] as int);
    assert(i[0] != i[1] && i[0] != i[2] && i[0] != i[3] && i[0] != i[4] && i[0] != i[5] && i[0] != i[6] && i[0] != i[7]);
    assert(i[1] != i[2] && i[1] != i[3] && i[1] != i[4] && i[1] != i[5] && i[1] != i[6] && i[1] != i[7]);
    assert(i[2] != i[3] && i[2] != i[4] && i[2] != i[5] && i[2] != i[6] && i[2] != i[7]);
    assert(i[3] != i[4] && i[3] != i[5] && i[3] != i[6] && i[3] != i[7]);
    assert(i[4] != i[5] && i[4] != i[6] && i[4] != i[7]);
    assert(i[5] != i[6] && i[5] != i[7] && i[6] != i[7]);
    reveal_with_fuel(clamped_window, 8);
    assert(0 <= t[0] <= 255 && 0 <= t[1] <= 255 && 0 <= t[2] <= 255 && 0 <= t[3] <= 255);
    assert(0 <= t[4] <= 255 && 0 <= t[5] <= 255 && 0 <= t[6] <= 255 && 0 <= t[7] <= 255);
    assert forall|k: int| 1 <= k < 7 implies #[trigger] spec_filter8(buf, mask, thresh, flat, i[0], i[1], i[2], i[3], i[4], i[5], i[6], i[7])[i[k]] as int == (clamped_window(t, 8, k, 3, 3) + t[k] + 4) / 8 by {
        assert(k == 1 || k == 2 || k == 3 || k == 4 || k == 5 || k == 6);
    }
}

/// `ROUND_POWER_OF_TWO(sum, 3)` of the 8-tap `filter8` sums.
pub open spec fn r3(v: int) -> u8 {
    ((v + 4) / 8) as u8
}

/// `filter8` on `buf`: on a flat, unmasked-out edge the three samples on
/// each side are replaced by 8-tap averages of the unfiltered samples;
/// otherwise `filter4`.
#[verifier::opaque]
pub open spec fn spec_filter8(buf: Seq<u8>, mask: bool, thresh: u8, flat: bool, op3: int, op2: int, op1: int, op0: int, oq0: int, oq1: int, oq2: int, oq3: int) -> Seq<u8> {
    if flat && mask {
        let p3 = buf[op3] as int;
        let p2 = buf[op2] as int;
        let p1 = buf[op1] as int;
        let p0 = buf[op0] as int;
        let q0 = buf[oq0] as int;
        let q1 = buf[oq1] as int;
        let q2 = buf[oq2] as int;
        let q3 = buf[oq3] as int;
        buf.update(op2, r3(p3 + p3 + p3 + 2 * p2 + p1 + p0 + q0))
            .update(op1, r3(p3 + p3 + p2 + 2 * p1 + p0 + q0 + q1))
            .update(op0, r3(p3 + p2 + p1 + 2 * p0 + q0 + q1 + q2))
            .update(oq0, r3(p2 + p1 + p0 + 2 * q0 + q1 + q2 + q3))
            .update(oq1, r3(p1 + p0 + q0 + 2 * q1 + q2 + q3 + q3))
            .update(oq2, r3(p0 + q0 + q1 + 2 * q2 + q3 + q3 + q3))
    } else {
        spec_filter4(buf, mask, thresh, op1, op0, oq0, oq1)
    }
}

fn round3(v: u32) -> (r: u8)
    requires
        v <= 0x1000,
    ensures
        r == r3(v as int),
{
    ((v + 4) / 8) as u8
}

/// `filter8`.
pub fn filter8(
    mask: bool,
    thresh: u8,
    flat: bool,
    buf: &mut [u8],
    op3: usize,
    op2: usize,
    op1: usize,
    op0: usize,
    oq0: usize,
    oq1: usize,
    oq2: usize,
    oq3: usize,
)
    requires
        op3 < old(buf)@.len(),
        op2 < old(buf)@.len(),
        op1 < old(buf)@.len(),
        op0 < old(buf)@.len(),
        oq0 < old(buf)@.len(),
        oq1 < old(buf)@.len(),
        oq2 < old(buf)@.len(),
        oq3 < old(buf)@.len(),
    ensures
        final(buf)@ == spec_filter8(old(buf)@, mask, thresh, flat, op3 as int, op2 as int, op1 as int, op0 as int, oq0 as int, oq1 as int, oq2 as int, oq3 as int),
        final(buf)@.len() == old(buf)@.len(),
{
    reveal(spec_filter8);
    if flat && mask {
        let p3 = buf[op3] as u32;
        let p2 = buf[op2] as u32;
        let p1 = buf[op1] as u32;
        let p0 = buf[op0] as u32;
        let q0 = buf[oq0] as u32;
        let q1 = buf[oq1] as u32;
        let q2 = buf[oq2] as u32;
        let q3 = buf[oq3] as u32;
        buf[op2] = round3(p3 + p3 + p3 + 2 * p2 + p1 + p0 + q0);
        buf[op1] = round3(p3 + p3 + p2 + 2 * p1 + p0 + q0 + q1);
        buf[op0] = round3(p3 + p2 + p1 + 2 * p0 + q0 + q1 + q2);
        buf[oq0] = round3(p2 + p1 + p0 + 2 * q0 + q1 + q2 + q3);
        buf[oq1] = round3(p1 + p0 + q0 + 2 * q1 + q2 + q3 + q3);
        buf[oq2] = round3(p0 + q0 + q1 + 2 * q2 + q3 + q3 + q3);
    } else {
        filter4(mask, thresh, buf, op1, op0, oq0, oq1);
    }
}

/// `ROUND_POWER_OF_TWO(sum, 4)` of the 16-tap `filter16` sums.
#[verifier::opaque]
pub open spec fn r4(v: int) -> u8 {
    ((v + 8) / 16) as u8
}

fn round4(v: u32) -> (r: u8)
    requires
        v <= 0x7000,
    ensures
        r == r4(v as int),
{
    proof {
        reveal(r4);
    }
    ((v + 8) / 16) as u8
}

/// The 16-tap `filter16` weights (each row sums to 16): row `k` gives
/// the new sample `k` of `p6 .. q6` from the samples `p7 .. q7`.
pub const FILTER16_WEIGHTS: [[u8; 16]; 14] = [
    [7, 2, 1, 1, 1, 1, 1, 1, 1, 0, 0, 0, 0, 0, 0, 0],
    [6, 1, 2, 1, 1, 1, 1, 1, 1, 1, 0, 0, 0, 0, 0, 0],
    [5, 1, 1, 2, 1, 1, 1, 1, 1, 1, 1, 0, 0, 0, 0, 0],
    [4, 1, 1, 1, 2, 1, 1, 1, 1, 1, 1, 1, 0, 0, 0, 0],
    [3, 1, 1, 1, 1, 2, 1, 1, 1, 1, 1, 1, 1, 0, 0, 0],
    [2, 1, 1, 1, 1, 1, 2, 1, 1, 1, 1, 1, 1, 1, 0, 0],
    [1, 1, 1, 1, 1, 1, 1, 2, 1, 1, 1, 1, 1, 1, 1, 0],
    [0, 1, 1, 1, 1, 1, 1, 1, 2, 1, 1, 1, 1, 1, 1, 1],
    [0, 0, 1, 1, 1, 1, 1, 1, 1, 2, 1, 1, 1, 1, 1, 2],
    [0, 0, 0, 1, 1, 1, 1, 1, 1, 1, 2, 1, 1, 1, 1, 3],
    [0, 0, 0, 0, 1, 1, 1, 1, 1, 1, 1, 2, 1, 1, 1, 4],
    [0, 0, 0, 0, 0, 1, 1, 1, 1, 1, 1, 1, 2, 1, 1, 5],
    [0, 0, 0, 0, 0, 0, 1, 1, 1, 1, 1, 1, 1, 2, 1, 6],
    [0, 0, 0, 0, 0, 0, 0, 1, 1, 1, 1, 1, 1, 1, 2, 7],
];

/// `sum_{j < n} w[j] * t[j]`.
pub open spec fn wdot(w: Seq<u8>, t: Seq<int>, n: int) -> int
    decreases n,
{
    if n <= 0 {
        0
    } else {
        wdot(w, t, n - 1) + w[n - 1] * t[n - 1]
    }
}

/// The fourteen new samples `p6 .. q6` of a doubly flat `filter16` edge:
/// 16-tap weighted averages of the samples `t = p7 .. q7`.
pub open spec fn spec_filter16_vals(t: Seq<int>) -> Seq<u8> {
    Seq::new(14, |k: int| r4(wdot(FILTER16_WEIGHTS[k]@, t, 16)))
}

/// `buf` with the samples at `i[1] .. i[14]` replaced by `v[0] .. v[13]`,
/// in that order.
pub open spec fn apply14(buf: Seq<u8>, i: Seq<usize>, v: Seq<u8>) -> Seq<u8> {
    buf
        .update(i[1] as int, v[0])
        .update(i[2] as int, v[1])
        .update(i[3] as int, v[2])
        .update(i[4] as int, v[3])
        .update(i[5] as int, v[4])
        .update(i[6] as int, v[5])
        .update(i[7] as int, v[6])
        .update(i[8] as int, v[7])
        .update(i[9] as int, v[8])
        .update(i[10] as int, v[9])
        .update(i[11] as int, v[10])
        .update(i[12] as int, v[11])
        .update(i[13] as int, v[12])
        .update(i[14] as int, v[13])
}

/// The sixteen samples at the tap positions `i`.
pub open spec fn taps16(buf: Seq<u8>, i: Seq<usize>) -> Seq<int> {
    Seq::new(16, |k: int| buf[i[k] as int] as int)
}

/// `filter16` on `buf` (`i` lists the sixteen tap positions `p7 .. q7`):
/// on a doubly flat edge the seven samples on each side are replaced by
/// 16-tap averages of the unfiltered samples; otherwise `filter8`.
#[verifier::opaque]
pub open spec fn spec_filter16(buf: Seq<u8>, mask: bool, thresh: u8, flat: bool, flat2: bool, i: Seq<usize>) -> Seq<u8> {
    if flat2 && flat && mask {
        apply14(buf, i, spec_filter16_vals(taps16(buf, i)))
    } else {
        spec_filter8(buf, mask, thresh, flat, i[4] as int, i[5] as int, i[6] as int, i[7] as int, i[8] as int, i[9] as int, i[10] as int, i[11] as int)
    }
}

#[verifier::rlimit(100)]
proof fn lemma_wdot_bound(w: Seq<u8>, t: Seq<int>, n: int)
    requires
        0 <= n <= t.len(),
        n <= w.len(),
        forall|j: int| 0 <= j < n ==> 0 <= #[trigger] t[j] <= 255,
        forall|j: int| 0 <= j < n ==> #[trigger] w[j] <= 7,
    ensures
        0 <= wdot(w, t, n) <= 1785 * n,
    decreases n,
{
    if n > 0 {
        lemma_wdot_bound(w, t, n - 1);
        assert(w[n - 1] * t[n - 1] <= 1785) by (nonlinear_arith)
            requires
                w[n - 1] <= 7,
                0 <= t[n - 1] <= 255,
        ;
        assert(w[n - 1] * t[n - 1] >= 0) by (nonlinear_arith)
            requires
                0 <= t[n - 1],
                0 <= w[n - 1],
        ;
        assert(wdot(w, t, n) == wdot(w, t, n - 1) + w[n - 1] * t[n - 1]);
    }
}

fn weighted16(w: &[u8; 16], t: &[u32; 16]) -> (s: u32)
    requires
        forall|k: int| 0 <= k < 16 ==> #[trigger] t@[k] <= 255,
        forall|k: int| 0 <= k < 16 ==> #[trigger] w@[k] <= 7,
    ensures
        s == wdot(w@, Seq::new(16, |k: int| t@[k] as int), 16),
        s <= 0x7000,
{
    let ghost ts = Seq::new(16, |k: int| t@[k] as int);
    let mut acc: u32 = 0;
    let mut j: usize = 0;
    while j < 16
        invariant
            j <= 16,
            ts == Seq::new(16, |k: int| t@[k] as int),
            forall|k: int| 0 <= k < 16 ==> #[trigger] t@[k] <= 255,
            forall|k: int| 0 <= k < 16 ==> #[trigger] w@[k] <= 7,
            acc == wdot(w@, ts, j as int),
            acc <= 1785 * j,
        decreases 16 - j,
    {
        proof {
            lemma_wdot_bound(w@, ts, j + 1);
        }
        acc = acc + w[j] as u32 * t[j];
        j += 1;
    }
    acc
}

fn filter16_vals(t: &[u32; 16]) -> (v: [u8; 14])
    requires
        forall|k: int| 0 <= k < 16 ==> #[trigger] t@[k] <= 255,
    ensures
        v@ == spec_filter16_vals(Seq::new(16, |k: int| t@[k] as int)),
{
    let mut v = [0u8; 14];
    let mut k: usize = 0;
    while k < 14
        invariant
            k <= 14,
            forall|j: int| 0 <= j < 16 ==> #[trigger] t@[j] <= 255,
            forall|j: int| 0 <= j < k ==> #[trigger] v@[j] == spec_filter16_vals(Seq::new(16, |i: int| t@[i] as int))[j],
        decreases 14 - k,
    {
        let w = &FILTER16_WEIGHTS[k];
        proof {
            assert(forall|j: int| 0 <= j < 16 ==> #[trigger] w@[j] <= 7) by {
                assert(FILTER16_WEIGHTS@ == seq![
                    [7u8, 2u8, 1u8, 1u8, 1u8, 1u8, 1u8, 1u8, 1u8, 0u8, 0u8, 0u8, 0u8, 0u8, 0u8, 0u8],
                    [6u8, 1u8, 2u8, 1u8, 1u8, 1u8, 1u8, 1u8, 1u8, 1u8, 0u8, 0u8, 0u8, 0u8, 0u8, 0u8],
                    [5u8, 1u8, 1u8, 2u8, 1u8, 1u8, 1u8, 1u8, 1u8, 1u8, 1u8, 0u8, 0u8, 0u8, 0u8, 0u8],
                    [4u8, 1u8, 1u8, 1u8, 2u8, 1u8, 1u8, 1u8, 1u8, 1u8, 1u8, 1u8, 0u8, 0u8, 0u8, 0u8],
                    [3u8, 1u8, 1u8, 1u8, 1u8, 2u8, 1u8, 1u8, 1u8, 1u8, 1u8, 1u8, 1u8, 0u8, 0u8, 0u8],
                    [2u8, 1u8, 1u8, 1u8, 1u8, 1u8, 2u8, 1u8, 1u8, 1u8, 1u8, 1u8, 1u8, 1u8, 0u8, 0u8],
                    [1u8, 1u8, 1u8, 1u8, 1u8, 1u8, 1u8, 2u8, 1u8, 1u8, 1u8, 1u8, 1u8, 1u8, 1u8, 0u8],
                    [0u8, 1u8, 1u8, 1u8, 1u8, 1u8, 1u8, 1u8, 2u8, 1u8, 1u8, 1u8, 1u8, 1u8, 1u8, 1u8],
                    [0u8, 0u8, 1u8, 1u8, 1u8, 1u8, 1u8, 1u8, 1u8, 2u8, 1u8, 1u8, 1u8, 1u8, 1u8, 2u8],
                    [0u8, 0u8, 0u8, 1u8, 1u8, 1u8, 1u8, 1u8, 1u8, 1u8, 2u8, 1u8, 1u8, 1u8, 1u8, 3u8],
                    [0u8, 0u8, 0u8, 0u8, 1u8, 1u8, 1u8, 1u8, 1u8, 1u8, 1u8, 2u8, 1u8, 1u8, 1u8, 4u8],
                    [0u8, 0u8, 0u8, 0u8, 0u8, 1u8, 1u8, 1u8, 1u8, 1u8, 1u8, 1u8, 2u8, 1u8, 1u8, 5u8],
                    [0u8, 0u8, 0u8, 0u8, 0u8, 0u8, 1u8, 1u8, 1u8, 1u8, 1u8, 1u8, 1u8, 2u8, 1u8, 6u8],
                    [0u8, 0u8, 0u8, 0u8, 0u8, 0u8, 0u8, 1u8, 1u8, 1u8, 1u8, 1u8, 1u8, 1u8, 2u8, 7u8],
                ]);
            }
        }
        let s = weighted16(w, t);
        v[k] = round4(s);
        k += 1;
    }
    assert(v@ =~= spec_filter16_vals(Seq::new(16, |k: int| t@[k] as int)));
    v
}

/// `filter16`; `idx` lists the tap positions `op7 .. op0, oq0 .. oq7`.
#[verifier::rlimit(40)]
pub fn filter16(mask: bool, thresh: u8, flat: bool, flat2: bool, buf: &mut [u8], idx: [usize; 16])
    requires
        forall|k: int| 0 <= k < 16 ==> #[trigger] idx@[k] < old(buf)@.len(),
    ensures
        final(buf)@ == spec_filter16(old(buf)@, mask, thresh, flat, flat2, idx@),
        final(buf)@.len() == old(buf)@.len(),
{
    reveal(spec_filter16);
    let op7 = idx[0];
    let op6 = idx[1];
    let op5 = idx[2];
    let op4 = idx[3];
    let op3 = idx[4];
    let op2 = idx[5];
    let op1 = idx[6];
    let op0 = idx[7];
    let oq0 = idx[8];
    let oq1 = idx[9];
    let oq2 = idx[10];
    let oq3 = idx[11];
    let oq4 = idx[12];
    let oq5 = idx[13];
    let oq6 = idx[14];
    let oq7 = idx[15];
    if flat2 && flat && mask {
        let t = [
            buf[op7] as u32,
            buf[op6] as u32,
            buf[op5] as u32,
            buf[op4] as u32,
            buf[op3] as u32,
            buf[op2] as u32,
            buf[op1] as u32,
            buf[op0] as u32,
            buf[oq0] as u32,
            buf[oq1] as u32,
            buf[oq2] as u32,
            buf[oq3] as u32,
            buf[oq4] as u32,
            buf[oq5] as u32,
            buf[oq6] as u32,
            buf[oq7] as u32,
        ];
        assert(Seq::new(16, |k: int| t@[k] as int) =~= taps16(buf@, idx@));
        let v = filter16_vals(&t);
        let ghost b0 = buf@;
        buf[op6] = v[0];
        buf[op5] = v[1];
        buf[op4] = v[2];
        buf[op3] = v[3];
        buf[op2] = v[4];
        buf[op1] = v[5];
        buf[op0] = v[6];
        buf[oq0] = v[7];
        buf[oq1] = v[8];
        buf[oq2] = v[9];
        buf[oq3] = v[10];
        buf[oq4] = v[11];
        buf[oq5] = v[12];
        buf[oq6] = v[13];
        assert(buf@ =~= apply14(b0, idx@, v@));
    } else {
        filter8(mask, thresh, flat, buf, op3, op2, op1, op0, oq0, oq1, oq2, oq3);
    }
}

/// How far an edge filter of the given size reaches on each side.
pub open spec fn reach(size: int) -> int {
    if size == 16 {
        8
    } else {
        4
    }
}

/// The eight taps `p3 .. q3` around edge position `s`.
pub open spec fn taps8(buf: Seq<u8>, s: int, t: int) -> (u8, u8, u8, u8, u8, u8, u8, u8) {
    (buf[s - 4 * t], buf[s - 3 * t], buf[s - 2 * t], buf[s - t], buf[s], buf[s + t], buf[s + 2 * t], buf[s + 3 * t])
}

/// `filter_mask` at edge position `s`.
pub open spec fn edge_mask(buf: Seq<u8>, s: int, t: int, blimit: u8, limit: u8) -> bool {
    let v = taps8(buf, s, t);
    spec_filter_mask(limit, blimit, v.0, v.1, v.2, v.3, v.4, v.5, v.6, v.7)
}

/// `flat_mask4(1, ..)` at edge position `s`.
pub open spec fn edge_flat(buf: Seq<u8>, s: int, t: int) -> bool {
    let v = taps8(buf, s, t);
    spec_flat_mask4(1, v.0, v.1, v.2, v.3, v.4, v.5, v.6, v.7)
}

/// `flat_mask5(1, ..)` over the outer taps at edge position `s`.
pub open spec fn edge_flat2(buf: Seq<u8>, s: int, t: int) -> bool {
    spec_flat_mask5(
        1,
        buf[s - 8 * t],
        buf[s - 7 * t],
        buf[s - 6 * t],
        buf[s - 5 * t],
        buf[s - t],
        buf[s],
        buf[s + 4 * t],
        buf[s + 5 * t],
        buf[s + 6 * t],
        buf[s + 7 * t],
    )
}

/// The sixteen tap positions `s - 8t .. s + 7t`.
pub open spec fn idx16(s: int, t: int) -> Seq<usize> {
    seq![
        (s - 8 * t) as usize,
        (s - 7 * t) as usize,
        (s - 6 * t) as usize,
        (s - 5 * t) as usize,
        (s - 4 * t) as usize,
        (s - 3 * t) as usize,
        (s - 2 * t) as usize,
        (s - 1 * t) as usize,
        s as usize,
        (s + 1 * t) as usize,
        (s + 2 * t) as usize,
        (s + 3 * t) as usize,
        (s + 4 * t) as usize,
        (s + 5 * t) as usize,
        (s + 6 * t) as usize,
        (s + 7 * t) as usize,
    ]
}

/// One iteration of `vpx_lpf_{vertical,horizontal}_{4,8,16}_c`: the filter
/// of size 4, 8 or 16 at edge position `s` (taps `s + k * t`), with its
/// masks computed from the current samples.
pub open spec fn spec_edge(buf: Seq<u8>, s: int, t: int, size: int, blimit: u8, limit: u8, thresh: u8) -> Seq<u8> {
    let mask = edge_mask(buf, s, t, blimit, limit);
    if size == 4 {
        spec_filter4(buf, mask, thresh, s - 2 * t, s - t, s, s + t)
    } else if size == 8 {
        spec_filter8(buf, mask, thresh, edge_flat(buf, s, t), s - 4 * t, s - 3 * t, s - 2 * t, s - t, s, s + t, s + 2 * t, s + 3 * t)
    } else {
        spec_filter16(buf, mask, thresh, edge_flat(buf, s, t), edge_flat2(buf, s, t), idx16(s, t))
    }
}

/// Eight consecutive edge positions `pos + i * adv`, filtered in order.
pub open spec fn spec_lpf(buf: Seq<u8>, pos: int, t: int, adv: int, size: int, blimit: u8, limit: u8, thresh: u8, n: int) -> Seq<u8>
    decreases n,
{
    if n <= 0 {
        buf
    } else {
        spec_edge(spec_lpf(buf, pos, t, adv, size, blimit, limit, thresh, n - 1), pos + (n - 1) * adv, t, size, blimit, limit, thresh)
    }
}

fn edge_masks(buf: &[u8], s: usize, t: usize, blimit: u8, limit: u8) -> (r: (bool, bool))
    requires
        s >= 4 * t,
        s + 3 * t < buf@.len(),
    ensures
        r.0 == edge_mask(buf@, s as int, t as int, blimit, limit),
        r.1 == edge_flat(buf@, s as int, t as int),
{
    let p3 = buf[s - 4 * t];
    let p2 = buf[s - 3 * t];
    let p1 = buf[s - 2 * t];
    let p0 = buf[s - t];
    let q0 = buf[s];
    let q1 = buf[s + t];
    let q2 = buf[s + 2 * t];
    let q3 = buf[s + 3 * t];
    (filter_mask(limit, blimit, p3, p2, p1, p0, q0, q1, q2, q3), flat_mask4(1, p3, p2, p1, p0, q0, q1, q2, q3))
}

fn edge_flat2_at(buf: &[u8], s: usize, t: usize) -> (f: bool)
    requires
        s >= 8 * t,
        s + 7 * t < buf@.len(),
    ensures
        f == edge_flat2(buf@, s as int, t as int),
{
    flat_mask5(
        1,
        buf[s - 8 * t],
        buf[s - 7 * t],
        buf[s - 6 * t],
        buf[s - 5 * t],
        buf[s - t],
        buf[s],
        buf[s + 4 * t],
        buf[s + 5 * t],
        buf[s + 6 * t],
        buf[s + 7 * t],
    )
}

fn filter_edge(buf: &mut [u8], s: usize, t: usize, size: usize, blimit: u8, limit: u8, thresh: u8)
    requires
        size == 4 || size == 8 || size == 16,
        s >= reach(size as int) * t,
        s + (reach(size as int) - 1) * t < old(buf)@.len(),
    ensures
        final(buf)@ == spec_edge(old(buf)@, s as int, t as int, size as int, blimit, limit, thresh),
        final(buf)@.len() == old(buf)@.len(),
{
    let blen = buf.len();
    assert(s + 3 * t < blen);
    let (mask, flat) = edge_masks(buf, s, t, blimit, limit);
    if size == 4 {
        filter4(mask, thresh, buf, s - 2 * t, s - t, s, s + t);
    } else if size == 8 {
        filter8(mask, thresh, flat, buf, s - 4 * t, s - 3 * t, s - 2 * t, s - t, s, s + t, s + 2 * t, s + 3 * t);
    } else {
        let flat2 = edge_flat2_at(buf, s, t);
        let idx = [
            s - 8 * t,
            s - 7 * t,
            s - 6 * t,
            s - 5 * t,
            s - 4 * t,
            s - 3 * t,
            s - 2 * t,
            s - t,
            s,
            s + t,
            s + 2 * t,
            s + 3 * t,
            s + 4 * t,
            s + 5 * t,
            s + 6 * t,
            s + 7 * t,
        ];
        assert(idx@ =~= idx16(s as int, t as int));
        filter16(mask, thresh, flat, flat2, buf, idx);
    }
}

/// Filter eight edge positions `pos + i * adv` (taps `+ k * t`).
fn lpf(buf: &mut [u8], pos: usize, t: usize, adv: usize, size: usize, blimit: u8, limit: u8, thresh: u8)
    requires
        size == 4 || size == 8 || size == 16,
        pos >= reach(size as int) * t,
        pos + 7 * adv + (reach(size as int) - 1) * t < old(buf)@.len(),
    ensures
        final(buf)@ == spec_lpf(old(buf)@, pos as int, t as int, adv as int, size as int, blimit, limit, thresh, 8),
        final(buf)@.len() == old(buf)@.len(),
{
    let blen = buf.len();
    let mut i: usize = 0;
    while i < 8
        invariant
            i <= 8,
            blen == buf@.len(),
            size == 4 || size == 8 || size == 16,
            pos >= reach(size as int) * t,
            pos + 7 * adv + (reach(size as int) - 1) * t < old(buf)@.len(),
            buf@.len() == old(buf)@.len(),
            buf@ == spec_lpf(old(buf)@, pos as int, t as int, adv as int, size as int, blimit, limit, thresh, i as int),
        decreases 8 - i,
    {
        assert(i * adv <= 7 * adv) by (nonlinear_arith)
            requires
                i < 8,
        ;
        let s = pos + i * adv;
        filter_edge(buf, s, t, size, blimit, limit, thresh);
        i += 1;
    }
}

/// `vpx_lpf_vertical_4_c`: eight rows of a vertical edge at `pos`.
pub fn lpf_vertical_4(buf: &mut [u8], stride: usize, pos: usize, blimit: u8, limit: u8, thresh: u8)
    requires
        pos >= 4,
        pos + 7 * stride + 3 < old(buf)@.len(),
    ensures
        final(buf)@ == spec_lpf(old(buf)@, pos as int, 1, stride as int, 4, blimit, limit, thresh, 8),
        final(buf)@.len() == old(buf)@.len(),
{
    lpf(buf, pos, 1, stride, 4, blimit, limit, thresh);
}

/// `vpx_lpf_vertical_8_c`.
pub fn lpf_vertical_8(buf: &mut [u8], stride: usize, pos: usize, blimit: u8, limit: u8, thresh: u8)
    requires
        pos >= 4,
        pos + 7 * stride + 3 < old(buf)@.len(),
    ensures
        final(buf)@ == spec_lpf(old(buf)@, pos as int, 1, stride as int, 8, blimit, limit, thresh, 8),
        final(buf)@.len() == old(buf)@.len(),
{
    lpf(buf, pos, 1, stride, 8, blimit, limit, thresh);
}

/// `vpx_lpf_vertical_16_c`.
pub fn lpf_vertical_16(buf: &mut [u8], stride: usize, pos: usize, blimit: u8, limit: u8, thresh: u8)
    requires
        pos >= 8,
        pos + 7 * stride + 7 < old(buf)@.len(),
    ensures
        final(buf)@ == spec_lpf(old(buf)@, pos as int, 1, stride as int, 16, blimit, limit, thresh, 8),
        final(buf)@.len() == old(buf)@.len(),
{
    lpf(buf, pos, 1, stride, 16, blimit, limit, thresh);
}

/// `vpx_lpf_horizontal_4_c`: eight columns of a horizontal edge at `pos`.
pub fn lpf_horizontal_4(buf: &mut [u8], stride: usize, pos: usize, blimit: u8, limit: u8, thresh: u8)
    requires
        pos >= 4 * stride,
        pos + 7 + 3 * stride < old(buf)@.len(),
    ensures
        final(buf)@ == spec_lpf(old(buf)@, pos as int, stride as int, 1, 4, blimit, limit, thresh, 8),
        final(buf)@.len() == old(buf)@.len(),
{
    lpf(buf, pos, stride, 1, 4, blimit, limit, thresh);
}

/// `vpx_lpf_horizontal_8_c`.
pub fn lpf_horizontal_8(buf: &mut [u8], stride: usize, pos: usize, blimit: u8, limit: u8, thresh: u8)
    requires
        pos >= 4 * stride,
        pos + 7 + 3 * stride < old(buf)@.len(),
    ensures
        final(buf)@ == spec_lpf(old(buf)@, pos as int, stride as int, 1, 8, blimit, limit, thresh, 8),
        final(buf)@.len() == old(buf)@.len(),
{
    lpf(buf, pos, stride, 1, 8, blimit, limit, thresh);
}

/// `vpx_lpf_horizontal_16_c`.
pub fn lpf_horizontal_16(buf: &mut [u8], stride: usize, pos: usize, blimit: u8, limit: u8, thresh: u8)
    requires
        pos >= 8 * stride,
        pos + 7 + 7 * stride < old(buf)@.len(),
    ensures
        final(buf)@ == spec_lpf(old(buf)@, pos as int, stride as int, 1, 16, blimit, limit, thresh, 8),
        final(buf)@.len() == old(buf)@.len(),
{
    lpf(buf, pos, stride, 1, 16, blimit, limit, thresh);
}

pub const LEFT_PRED_MASK_Y: [u64; 13] = [
    0x0000_0000_0000_0001,
    0x0000_0000_0000_0001,
    0x0000_0000_0000_0001,
    0x0000_0000_0000_0001,
    0x0000_0000_0000_0101,
    0x0000_0000_0000_0001,
    0x0000_0000_0000_0101,
    0x0000_0000_0101_0101,
    0x0000_0000_0000_0101,
    0x0000_0000_0101_0101,
    0x0101_0101_0101_0101,
    0x0000_0000_0101_0101,
    0x0101_0101_0101_0101,
];

pub const ABOVE_PRED_MASK_Y: [u64; 13] = [0x1, 0x1, 0x1, 0x1, 0x1, 0x3, 0x3, 0x3, 0xf, 0xf, 0xf, 0xff, 0xff];

pub const SIZE_MASK_Y: [u64; 13] = [
    0x0000_0000_0000_0001,
    0x0000_0000_0000_0001,
    0x0000_0000_0000_0001,
    0x0000_0000_0000_0001,
    0x0000_0000_0000_0101,
    0x0000_0000_0000_0003,
    0x0000_0000_0000_0303,
    0x0000_0000_0303_0303,
    0x0000_0000_0000_0f0f,
    0x0000_0000_0f0f_0f0f,
    0x0f0f_0f0f_0f0f_0f0f,
    0x0000_0000_ffff_ffff,
    0xffff_ffff_ffff_ffff,
];

pub const LEFT_PRED_MASK_UV: [u16; 13] = [
    0x0001, 0x0001, 0x0001, 0x0001, 0x0001, 0x0001, 0x0001, 0x0011, 0x0001, 0x0011, 0x1111, 0x0011, 0x1111,
];

pub const ABOVE_PRED_MASK_UV: [u16; 13] = [
    0x0001, 0x0001, 0x0001, 0x0001, 0x0001, 0x0001, 0x0001, 0x0001, 0x0003, 0x0003, 0x0003, 0x000f, 0x000f,
];

pub const SIZE_MASK_UV: [u16; 13] = [
    0x0001, 0x0001, 0x0001, 0x0001, 0x0001, 0x0001, 0x0001, 0x0011, 0x0003, 0x0033, 0x3333, 0x00ff, 0xffff,
];

pub const LEFT_TXFORM_MASK_Y: [u64; 4] = [
    0xffff_ffff_ffff_ffff,
    0xffff_ffff_ffff_ffff,
    0x5555_5555_5555_5555,
    0x1111_1111_1111_1111,
];

pub const ABOVE_TXFORM_MASK_Y: [u64; 4] = [
    0xffff_ffff_ffff_ffff,
    0xffff_ffff_ffff_ffff,
    0x00ff_00ff_00ff_00ff,
    0x0000_00ff_0000_00ff,
];

pub const LEFT_TXFORM_MASK_UV: [u16; 4] = [0xffff, 0xffff, 0x5555, 0x1111];

pub const ABOVE_TXFORM_MASK_UV: [u16; 4] = [0xffff, 0xffff, 0x0f0f, 0x000f];

pub const LEFT_BORDER_Y: u64 = 0x1111_1111_1111_1111;

pub const ABOVE_BORDER_Y: u64 = 0x0000_00ff_0000_00ff;

pub const LEFT_BORDER_UV: u16 = 0x1111;

pub const ABOVE_BORDER_UV: u16 = 0x000f;

/// Per-superblock loop-filter masks (`LOOP_FILTER_MASK`): for each
/// transform size, the 8×8 positions whose left / above edge is filtered;
/// the internal 4×4 edges; and the filter level of each 8×8 position.
pub struct LoopFilterMask {
    pub left_y: [u64; 4],
    pub above_y: [u64; 4],
    pub int_4x4_y: u64,
    pub lfl_y: [u8; 64],
    pub left_uv: [u16; 4],
    pub above_uv: [u16; 4],
    pub int_4x4_uv: u16,
}

/// The contents of a [`LoopFilterMask`].
pub struct MaskModel {
    pub left_y: Seq<u64>,
    pub above_y: Seq<u64>,
    pub int_4x4_y: u64,
    pub lfl_y: Seq<u8>,
    pub left_uv: Seq<u16>,
    pub above_uv: Seq<u16>,
    pub int_4x4_uv: u16,
}

impl View for LoopFilterMask {
    type V = MaskModel;

    open spec fn view(&self) -> MaskModel {
        MaskModel {
            left_y: self.left_y@,
            above_y: self.above_y@,
            int_4x4_y: self.int_4x4_y,
            lfl_y: self.lfl_y@,
            left_uv: self.left_uv@,
            above_uv: self.above_uv@,
            int_4x4_uv: self.int_4x4_uv,
        }
    }
}

/// The empty mask.
pub open spec fn empty_mask() -> MaskModel {
    MaskModel {
        left_y: seq![0u64, 0u64, 0u64, 0u64],
        above_y: seq![0u64, 0u64, 0u64, 0u64],
        int_4x4_y: 0,
        lfl_y: Seq::new(64, |k: int| 0u8),
        left_uv: seq![0u16, 0u16, 0u16, 0u16],
        above_uv: seq![0u16, 0u16, 0u16, 0u16],
        int_4x4_uv: 0,
    }
}

impl LoopFilterMask {
    /// An all-zero mask.
    pub fn new() -> (m: Self)
        ensures
            m@ == empty_mask(),
    {
        let m = LoopFilterMask {
            left_y: [0; 4],
            above_y: [0; 4],
            int_4x4_y: 0,
            lfl_y: [0; 64],
            left_uv: [0; 4],
            above_uv: [0; 4],
            int_4x4_uv: 0,
        };
        assert(m@.left_y =~= empty_mask().left_y);
        assert(m@.above_y =~= empty_mask().above_y);
        assert(m@.lfl_y =~= empty_mask().lfl_y);
        assert(m@.left_uv =~= empty_mask().left_uv);
        assert(m@.above_uv =~= empty_mask().above_uv);
        m
    }
}

/// Position `j` of the 8×8 grid is covered by a `bw × bh` block whose
/// top-left position is `shift`.
pub open spec fn covered(j: int, shift: int, bw: int, bh: int) -> bool {
    exists|r: int| 0 <= r < bh && #[trigger] in_block_row(j, shift, bw, r)
}

/// Position `j` lies in row `r` of a block of width `bw` starting at `shift`.
pub open spec fn in_block_row(j: int, shift: int, bw: int, r: int) -> bool {
    shift + 8 * r <= j < shift + 8 * r + bw
}

/// `vp9_build_mask` for a coding block at `(row, col)` of its superblock
/// (MI units): its level fills `lfl_y`; its prediction edges, and unless it
/// is a skipped inter block its transform edges, are added to the masks
/// of its transform size (chroma only from the top-left MI of each 16×16,
/// with the transform size capped by the block's shorter side).
pub open spec fn spec_build_mask(
    m: MaskModel,
    level: u8,
    is_inter: bool,
    skip: bool,
    tx_size_y: u8,
    bsize_idx: int,
    bw_mi: int,
    bh_mi: int,
    row: int,
    col: int,
) -> MaskModel {
    if level == 0 {
        m
    } else {
        let mn = if bw_mi < bh_mi {
            bw_mi
        } else {
            bh_mi
        };
        let tx_cap = vstd::std_specs::bits::u64_trailing_zeros(mn as u64) as u8;
        let tx_uv = if tx_size_y < tx_cap {
            tx_size_y
        } else {
            tx_cap
        };
        let ty = tx_size_y as int;
        let tu = tx_uv as int;
        let shift_y = (col + row * 8) as usize;
        let shift_uv = (col / 2 + (row / 2) * 4) as usize;
        let build_uv = row % 2 == 0 && col % 2 == 0;
        let lfl = Seq::new(64, |j: int| if covered(j, shift_y as int, bw_mi, bh_mi) {
            level
        } else {
            m.lfl_y[j]
        });
        let above_y1 = m.above_y.update(ty, m.above_y[ty] | (ABOVE_PRED_MASK_Y[bsize_idx] << shift_y));
        let left_y1 = m.left_y.update(ty, m.left_y[ty] | (LEFT_PRED_MASK_Y[bsize_idx] << shift_y));
        let above_uv1 = if build_uv {
            m.above_uv.update(tu, m.above_uv[tu] | (ABOVE_PRED_MASK_UV[bsize_idx] << shift_uv))
        } else {
            m.above_uv
        };
        let left_uv1 = if build_uv {
            m.left_uv.update(tu, m.left_uv[tu] | (LEFT_PRED_MASK_UV[bsize_idx] << shift_uv))
        } else {
            m.left_uv
        };
        if skip && is_inter {
            MaskModel { left_y: left_y1, above_y: above_y1, lfl_y: lfl, left_uv: left_uv1, above_uv: above_uv1, ..m }
        } else {
            let above_y2 = above_y1.update(ty, above_y1[ty] | ((SIZE_MASK_Y[bsize_idx] & ABOVE_TXFORM_MASK_Y[ty]) << shift_y));
            let left_y2 = left_y1.update(ty, left_y1[ty] | ((SIZE_MASK_Y[bsize_idx] & LEFT_TXFORM_MASK_Y[ty]) << shift_y));
            let above_uv2 = if build_uv {
                above_uv1.update(tu, above_uv1[tu] | ((SIZE_MASK_UV[bsize_idx] & ABOVE_TXFORM_MASK_UV[tu]) << shift_uv))
            } else {
                above_uv1
            };
            let left_uv2 = if build_uv {
                left_uv1.update(tu, left_uv1[tu] | ((SIZE_MASK_UV[bsize_idx] & LEFT_TXFORM_MASK_UV[tu]) << shift_uv))
            } else {
                left_uv1
            };
            let int_y = if tx_size_y == 0 {
                m.int_4x4_y | (SIZE_MASK_Y[bsize_idx] << shift_y)
            } else {
                m.int_4x4_y
            };
            let int_uv = if build_uv && tx_uv == 0 {
                m.int_4x4_uv | (SIZE_MASK_UV[bsize_idx] << shift_uv)
            } else {
                m.int_4x4_uv
            };
            MaskModel {
                left_y: left_y2,
                above_y: above_y2,
                int_4x4_y: int_y,
                lfl_y: lfl,
                left_uv: left_uv2,
                above_uv: above_uv2,
                int_4x4_uv: int_uv,
            }
        }
    }
}

/// The block's MI positions fit in the superblock's 8×8 grid.
pub open spec fn block_fits(bw_mi: int, bh_mi: int, row: int, col: int) -> bool {
    bw_mi == 0 || bh_mi == 0 || col + row * 8 + 8 * (bh_mi - 1) + bw_mi <= 64
}

/// `vp9_build_mask`.
pub fn build_mask(
    level: u8,
    is_inter: bool,
    skip: bool,
    tx_size_y: u8,
    bsize_idx: usize,
    bw_mi: usize,
    bh_mi: usize,
    row_in_sb: usize,
    col_in_sb: usize,
    lfm: &mut LoopFilterMask,
)
    requires
        level != 0 ==> tx_size_y < 4 && bsize_idx < 13 && block_fits(bw_mi as int, bh_mi as int, row_in_sb as int, col_in_sb as int),
        row_in_sb < 8,
        col_in_sb < 8,
        bw_mi <= 0xff,
        bh_mi <= 0xff,
    ensures
        final(lfm)@ == spec_build_mask(
            old(lfm)@,
            level,
            is_inter,
            skip,
            tx_size_y,
            bsize_idx as int,
            bw_mi as int,
            bh_mi as int,
            row_in_sb as int,
            col_in_sb as int,
        ),
{
    if level == 0 {
        return;
    }
    let mn = if bw_mi < bh_mi {
        bw_mi
    } else {
        bh_mi
    };
    let tx_cap = (mn as u64).trailing_zeros() as u8;
    let tx_size_uv = if tx_size_y < tx_cap {
        tx_size_y
    } else {
        tx_cap
    };
    proof {
        vstd::arithmetic::power2::lemma2_to64();
        vstd::bits::lemma_usize_shl_is_mul(row_in_sb, 3);
        vstd::bits::lemma_usize_shr_is_div(row_in_sb, 1);
        vstd::bits::lemma_usize_shr_is_div(col_in_sb, 1);
        vstd::bits::lemma_usize_shl_is_mul((row_in_sb >> 1) as usize, 2);
    }
    let shift_y = col_in_sb + (row_in_sb << 3);
    let shift_uv = (col_in_sb >> 1) + ((row_in_sb >> 1) << 2);
    let build_uv = row_in_sb % 2 == 0 && col_in_sb % 2 == 0;
    let ghost m0 = lfm@;
    let ghost lfl_target = Seq::new(64, |j: int| if covered(j, shift_y as int, bw_mi as int, bh_mi as int) {
        level
    } else {
        m0.lfl_y[j]
    });
    let mut index = shift_y;
    let mut r: usize = 0;
    while r < bh_mi
        invariant
            r <= bh_mi,
            bw_mi <= 0xff,
            bh_mi <= 0xff,
            shift_y < 64,
            block_fits(bw_mi as int, bh_mi as int, row_in_sb as int, col_in_sb as int),
            shift_y == col_in_sb + row_in_sb * 8,
            index == shift_y + 8 * r,
            lfm.left_y@ == m0.left_y,
            lfm.above_y@ == m0.above_y,
            lfm.left_uv@ == m0.left_uv,
            lfm.above_uv@ == m0.above_uv,
            lfm.int_4x4_y == m0.int_4x4_y,
            lfm.int_4x4_uv == m0.int_4x4_uv,
            forall|j: int| 0 <= j < 64 ==> #[trigger] lfm.lfl_y@[j] == (if covered(j, shift_y as int, bw_mi as int, r as int) {
                level
            } else {
                m0.lfl_y[j]
            }),
        decreases bh_mi - r,
    {
        let mut k: usize = 0;
        while k < bw_mi
            invariant
                r < bh_mi,
                k <= bw_mi,
                bw_mi <= 0xff,
                bh_mi <= 0xff,
                shift_y < 64,
                block_fits(bw_mi as int, bh_mi as int, row_in_sb as int, col_in_sb as int),
                shift_y == col_in_sb + row_in_sb * 8,
                index == shift_y + 8 * r,
                lfm.left_y@ == m0.left_y,
                lfm.above_y@ == m0.above_y,
                lfm.left_uv@ == m0.left_uv,
                lfm.above_uv@ == m0.above_uv,
                lfm.int_4x4_y == m0.int_4x4_y,
                lfm.int_4x4_uv == m0.int_4x4_uv,
                forall|j: int| 0 <= j < 64 ==> #[trigger] lfm.lfl_y@[j] == (if covered(j, shift_y as int, bw_mi as int, r as int) || (index <= j < index + k) {
                    level
                } else {
                    m0.lfl_y[j]
                }),
            decreases bw_mi - k,
        {
            assert(index + k < 64) by (nonlinear_arith)
                requires
                    index == shift_y + 8 * r,
                    r < bh_mi,
                    k < bw_mi,
                    shift_y + 8 * (bh_mi - 1) + bw_mi <= 64,
            ;
            lfm.lfl_y[index + k] = level;
            k += 1;
        }
        proof {
            assert forall|j: int| 0 <= j < 64 implies #[trigger] lfm.lfl_y@[j] == (if covered(j, shift_y as int, bw_mi as int, (r + 1) as int) {
                level
            } else {
                m0.lfl_y[j]
            }) by {
                if covered(j, shift_y as int, bw_mi as int, (r + 1) as int) {
                    let rr = choose|rr: int| 0 <= rr < r + 1 && #[trigger] in_block_row(j, shift_y as int, bw_mi as int, rr);
                    if rr < r {
                        assert(covered(j, shift_y as int, bw_mi as int, r as int));
                    }
                } else {
                    if covered(j, shift_y as int, bw_mi as int, r as int) {
                        let rr = choose|rr: int| 0 <= rr < r && #[trigger] in_block_row(j, shift_y as int, bw_mi as int, rr);
                        assert(in_block_row(j, shift_y as int, bw_mi as int, rr));
                        assert(covered(j, shift_y as int, bw_mi as int, (r + 1) as int));
                    }
                    if index <= j < index + bw_mi {
                        assert(in_block_row(j, shift_y as int, bw_mi as int, r as int));
                        assert(covered(j, shift_y as int, bw_mi as int, (r + 1) as int));
                    }
                }
            }
        }
        index += 8;
        r += 1;
    }
    assert(lfm.lfl_y@ =~= lfl_target);
    let ty = tx_size_y as usize;
    let tu = tx_size_uv as usize;
    lfm.above_y[ty] = lfm.above_y[ty] | (ABOVE_PRED_MASK_Y[bsize_idx] << shift_y);
    lfm.left_y[ty] = lfm.left_y[ty] | (LEFT_PRED_MASK_Y[bsize_idx] << shift_y);
    if build_uv {
        lfm.above_uv[tu] = lfm.above_uv[tu] | (ABOVE_PRED_MASK_UV[bsize_idx] << shift_uv);
        lfm.left_uv[tu] = lfm.left_uv[tu] | (LEFT_PRED_MASK_UV[bsize_idx] << shift_uv);
    }
    if skip && is_inter {
        proof {
            let sp = spec_build_mask(m0, level, is_inter, skip, tx_size_y, bsize_idx as int, bw_mi as int, bh_mi as int, row_in_sb as int, col_in_sb as int);
            assert(lfm.lfl_y@ == sp.lfl_y);
            assert(lfm.above_y@ == sp.above_y);
            assert(lfm.left_y@ == sp.left_y);
            assert(lfm.above_uv@ == sp.above_uv);
            assert(lfm.left_uv@ == sp.left_uv);
            assert(lfm.int_4x4_y == sp.int_4x4_y);
            assert(lfm.int_4x4_uv == sp.int_4x4_uv);
        }
        return;
    }
    lfm.above_y[ty] = lfm.above_y[ty] | ((SIZE_MASK_Y[bsize_idx] & ABOVE_TXFORM_MASK_Y[ty]) << shift_y);
    lfm.left_y[ty] = lfm.left_y[ty] | ((SIZE_MASK_Y[bsize_idx] & LEFT_TXFORM_MASK_Y[ty]) << shift_y);
    if build_uv {
        lfm.above_uv[tu] = lfm.above_uv[tu] | ((SIZE_MASK_UV[bsize_idx] & ABOVE_TXFORM_MASK_UV[tu]) << shift_uv);
        lfm.left_uv[tu] = lfm.left_uv[tu] | ((SIZE_MASK_UV[bsize_idx] & LEFT_TXFORM_MASK_UV[tu]) << shift_uv);
    }
    if tx_size_y == 0 {
        lfm.int_4x4_y = lfm.int_4x4_y | (SIZE_MASK_Y[bsize_idx] << shift_y);
    }
    if build_uv && tx_size_uv == 0 {
        lfm.int_4x4_uv = lfm.int_4x4_uv | (SIZE_MASK_UV[bsize_idx] << shift_uv);
    }
    proof {
        let sp = spec_build_mask(m0, level, is_inter, skip, tx_size_y, bsize_idx as int, bw_mi as int, bh_mi as int, row_in_sb as int, col_in_sb as int);
        assert(lfm.lfl_y@ == sp.lfl_y);
        assert(lfm.above_y@ == sp.above_y);
        assert(lfm.left_y@ == sp.left_y);
        assert(lfm.above_uv@ == sp.above_uv);
        assert(lfm.left_uv@ == sp.left_uv);
        assert(lfm.int_4x4_y == sp.int_4x4_y);
        assert(lfm.int_4x4_uv == sp.int_4x4_uv);
    }
}

/// The first three entries of `s` masked by `m`.
pub open spec fn and3_y(s: Seq<u64>, m: u64) -> Seq<u64> {
    s.update(0, s[0] & m).update(1, s[1] & m).update(2, s[2] & m)
}

/// The first three entries of `s` masked by `m`.
pub open spec fn and3_uv(s: Seq<u16>, m: u16) -> Seq<u16> {
    s.update(0, s[0] & m).update(1, s[1] & m).update(2, s[2] & m)
}

fn and3_64(a: &mut [u64; 4], m: u64)
    ensures
        final(a)@ == and3_y(old(a)@, m),
{
    let mut i: usize = 0;
    while i < 3
        invariant
            i <= 3,
            a@.len() == 4,
            a@[3] == old(a)@[3],
            forall|k: int| 0 <= k < i ==> #[trigger] a@[k] == old(a)@[k] & m,
            forall|k: int| i <= k < 3 ==> #[trigger] a@[k] == old(a)@[k],
        decreases 3 - i,
    {
        a[i] = a[i] & m;
        i += 1;
    }
    assert(a@ =~= and3_y(old(a)@, m));
}

fn and3_16(a: &mut [u16; 4], m: u16)
    ensures
        final(a)@ == and3_uv(old(a)@, m),
{
    let mut i: usize = 0;
    while i < 3
        invariant
            i <= 3,
            a@.len() == 4,
            a@[3] == old(a)@[3],
            forall|k: int| 0 <= k < i ==> #[trigger] a@[k] == old(a)@[k] & m,
            forall|k: int| i <= k < 3 ==> #[trigger] a@[k] == old(a)@[k],
        decreases 3 - i,
    {
        a[i] = a[i] & m;
        i += 1;
    }
    assert(a@ =~= and3_uv(old(a)@, m));
}

/// `vp9_adjust_mask`, first part: 32×32 edges are filtered as 16×16, and
/// 4×4 edges on the 8×8 grid border as 8×8.
pub open spec fn adjust_merge(m: MaskModel) -> MaskModel {
    let ly = m.left_y.update(2, m.left_y[2] | m.left_y[3]);
    let ay = m.above_y.update(2, m.above_y[2] | m.above_y[3]);
    let luv = m.left_uv.update(2, m.left_uv[2] | m.left_uv[3]);
    let auv = m.above_uv.update(2, m.above_uv[2] | m.above_uv[3]);
    MaskModel {
        left_y: ly.update(1, ly[1] | (ly[0] & LEFT_BORDER_Y)).update(0, ly[0] & !LEFT_BORDER_Y),
        above_y: ay.update(1, ay[1] | (ay[0] & ABOVE_BORDER_Y)).update(0, ay[0] & !ABOVE_BORDER_Y),
        left_uv: luv.update(1, luv[1] | (luv[0] & LEFT_BORDER_UV)).update(0, luv[0] & !LEFT_BORDER_UV),
        above_uv: auv.update(1, auv[1] | (auv[0] & ABOVE_BORDER_UV)).update(0, auv[0] & !ABOVE_BORDER_UV),
        ..m
    }
}

/// The bottom clip for a superblock with only `rows` MI rows in the frame.
pub open spec fn adjust_rows(m: MaskModel, rows: u32) -> MaskModel {
    let mask_y: u64 = ((1u64 << ((rows * 8) as u64)) - 1) as u64;
    let mask_uv: u16 = ((((1u32 << ((((rows + 1) as u32) >> 1u32) * 4) as u32) - 1) as u32) & 0xffffu32) as u16;
    let auv = and3_uv(m.above_uv, mask_uv);
    let auv1 = if rows == 1 {
        auv.update(1, auv[1] | auv[2]).update(2, 0u16)
    } else {
        auv
    };
    let auv2 = if rows == 5 {
        auv1.update(1, auv1[1] | (auv1[2] & 0xff00u16)).update(2, auv1[2] & !0xff00u16)
    } else {
        auv1
    };
    MaskModel {
        left_y: and3_y(m.left_y, mask_y),
        above_y: and3_y(m.above_y, mask_y),
        left_uv: and3_uv(m.left_uv, mask_uv),
        above_uv: auv2,
        int_4x4_y: m.int_4x4_y & mask_y,
        int_4x4_uv: m.int_4x4_uv & mask_uv,
        ..m
    }
}

/// The right clip for a superblock with only `columns` MI columns in the
/// frame.
pub open spec fn adjust_cols(m: MaskModel, columns: u32) -> MaskModel {
    let mask_y: u64 = (((1u64 << (columns as u64)) - 1) * 0x0101_0101_0101_0101u64) as u64;
    let mask_uv: u16 = (((((1u32 << (((columns + 1) as u32) >> 1u32)) - 1) * 0x1111) as u32) & 0xffffu32) as u16;
    let mask_uv_int: u16 = (((((1u32 << (columns >> 1u32)) - 1) * 0x1111) as u32) & 0xffffu32) as u16;
    let luv = and3_uv(m.left_uv, mask_uv);
    let luv1 = if columns == 1 {
        luv.update(1, luv[1] | luv[2]).update(2, 0u16)
    } else {
        luv
    };
    let luv2 = if columns == 5 {
        luv1.update(1, luv1[1] | (luv1[2] & 0xccccu16)).update(2, luv1[2] & !0xccccu16)
    } else {
        luv1
    };
    MaskModel {
        left_y: and3_y(m.left_y, mask_y),
        above_y: and3_y(m.above_y, mask_y),
        left_uv: luv2,
        above_uv: and3_uv(m.above_uv, mask_uv),
        int_4x4_y: m.int_4x4_y & mask_y,
        int_4x4_uv: m.int_4x4_uv & mask_uv_int,
        ..m
    }
}

/// No left edges at the frame's left border.
pub open spec fn adjust_left(m: MaskModel) -> MaskModel {
    MaskModel {
        left_y: and3_y(m.left_y, 0xfefe_fefe_fefe_fefeu64),
        left_uv: and3_uv(m.left_uv, 0xeeeeu16),
        ..m
    }
}

/// `vp9_adjust_mask` for the superblock at MI `(sb_row, sb_col)`.
pub open spec fn spec_adjust_mask(m: MaskModel, mi_rows: int, mi_cols: int, sb_row: int, sb_col: int) -> MaskModel {
    let m1 = adjust_merge(m);
    let m2 = if sb_row + 8 > mi_rows {
        adjust_rows(m1, (mi_rows - sb_row) as u32)
    } else {
        m1
    };
    let m3 = if sb_col + 8 > mi_cols {
        adjust_cols(m2, (mi_cols - sb_col) as u32)
    } else {
        m2
    };
    if sb_col == 0 {
        adjust_left(m3)
    } else {
        m3
    }
}

/// `vp9_adjust_mask`.
pub fn adjust_mask(mi_rows: usize, mi_cols: usize, sb_row: usize, sb_col: usize, lfm: &mut LoopFilterMask)
    requires
        sb_row < mi_rows <= 0x1000_0000,
        sb_col < mi_cols <= 0x1000_0000,
    ensures
        final(lfm)@ == spec_adjust_mask(old(lfm)@, mi_rows as int, mi_cols as int, sb_row as int, sb_col as int),
{
    let ghost m0 = lfm@;
    lfm.left_y[2] = lfm.left_y[2] | lfm.left_y[3];
    lfm.above_y[2] = lfm.above_y[2] | lfm.above_y[3];
    lfm.left_uv[2] = lfm.left_uv[2] | lfm.left_uv[3];
    lfm.above_uv[2] = lfm.above_uv[2] | lfm.above_uv[3];
    lfm.left_y[1] = lfm.left_y[1] | (lfm.left_y[0] & LEFT_BORDER_Y);
    lfm.left_y[0] = lfm.left_y[0] & !LEFT_BORDER_Y;
    lfm.above_y[1] = lfm.above_y[1] | (lfm.above_y[0] & ABOVE_BORDER_Y);
    lfm.above_y[0] = lfm.above_y[0] & !ABOVE_BORDER_Y;
    lfm.left_uv[1] = lfm.left_uv[1] | (lfm.left_uv[0] & LEFT_BORDER_UV);
    lfm.left_uv[0] = lfm.left_uv[0] & !LEFT_BORDER_UV;
    lfm.above_uv[1] = lfm.above_uv[1] | (lfm.above_uv[0] & ABOVE_BORDER_UV);
    lfm.above_uv[0] = lfm.above_uv[0] & !ABOVE_BORDER_UV;
    let ghost m1 = adjust_merge(m0);
    assert(lfm.left_y@ =~= m1.left_y);
    assert(lfm.above_y@ =~= m1.above_y);
    assert(lfm.left_uv@ =~= m1.left_uv);
    assert(lfm.above_uv@ =~= m1.above_uv);
    assert(lfm@ == m1);
    if sb_row + MI_BLOCK_SIZE > mi_rows {
        let rows = (mi_rows - sb_row) as u32;
        let ghost mb = lfm@;
        let half_rows: u32 = (rows + 1) >> 1;
        proof {
            vstd::arithmetic::power2::lemma2_to64();
            vstd::arithmetic::power2::lemma_pow2_pos((rows * 8) as nat);
            vstd::arithmetic::power2::lemma_pow2_strictly_increases((rows * 8) as nat, 64);
            vstd::bits::lemma_u64_shl_is_mul(1, (rows * 8) as u64);
            vstd::bits::lemma_u32_shr_is_div((rows + 1) as u32, 1);
            vstd::arithmetic::power2::lemma_pow2_pos((half_rows * 4) as nat);
            vstd::arithmetic::power2::lemma_pow2_strictly_increases((half_rows * 4) as nat, 32);
            vstd::bits::lemma_u32_shl_is_mul(1, (half_rows * 4) as u32);
        }
        let mask_y: u64 = (1u64 << ((rows * 8) as u64)) - 1;
        let mask_uv: u16 = (((1u32 << (half_rows * 4)) - 1) & 0xffff) as u16;
        and3_64(&mut lfm.left_y, mask_y);
        and3_64(&mut lfm.above_y, mask_y);
        and3_16(&mut lfm.left_uv, mask_uv);
        and3_16(&mut lfm.above_uv, mask_uv);
        lfm.int_4x4_y = lfm.int_4x4_y & mask_y;
        lfm.int_4x4_uv = lfm.int_4x4_uv & mask_uv;
        if rows == 1 {
            lfm.above_uv[1] = lfm.above_uv[1] | lfm.above_uv[2];
            lfm.above_uv[2] = 0;
        }
        if rows == 5 {
            lfm.above_uv[1] = lfm.above_uv[1] | (lfm.above_uv[2] & 0xff00);
            lfm.above_uv[2] = lfm.above_uv[2] & !0xff00u16;
        }
        proof {
            let sp = adjust_rows(mb, rows);
            assert(lfm.above_uv@ =~= sp.above_uv);
            assert(lfm@ == sp);
        }
    }
    let ghost m2 = lfm@;
    if sb_col + MI_BLOCK_SIZE > mi_cols {
        let columns = (mi_cols - sb_col) as u32;
        let half_up: u32 = (columns + 1) >> 1;
        let half_down: u32 = columns >> 1;
        proof {
            vstd::arithmetic::power2::lemma2_to64();
            vstd::arithmetic::power2::lemma_pow2_pos(columns as nat);
            vstd::bits::lemma_u64_shl_is_mul(1, columns as u64);
            vstd::bits::lemma_u32_shr_is_div((columns + 1) as u32, 1);
            vstd::bits::lemma_u32_shr_is_div(columns, 1);
            vstd::arithmetic::power2::lemma_pow2_pos(half_up as nat);
            vstd::bits::lemma_u32_shl_is_mul(1, half_up);
            vstd::arithmetic::power2::lemma_pow2_pos(half_down as nat);
            vstd::bits::lemma_u32_shl_is_mul(1, half_down);
        }
        let mask_y: u64 = ((1u64 << (columns as u64)) - 1) * 0x0101_0101_0101_0101;
        let mask_uv: u16 = ((((1u32 << half_up) - 1) * 0x1111) & 0xffff) as u16;
        let mask_uv_int: u16 = ((((1u32 << half_down) - 1) * 0x1111) & 0xffff) as u16;
        and3_64(&mut lfm.left_y, mask_y);
        and3_64(&mut lfm.above_y, mask_y);
        and3_16(&mut lfm.left_uv, mask_uv);
        and3_16(&mut lfm.above_uv, mask_uv);
        lfm.int_4x4_y = lfm.int_4x4_y & mask_y;
        lfm.int_4x4_uv = lfm.int_4x4_uv & mask_uv_int;
        if columns == 1 {
            lfm.left_uv[1] = lfm.left_uv[1] | lfm.left_uv[2];
            lfm.left_uv[2] = 0;
        }
        if columns == 5 {
            lfm.left_uv[1] = lfm.left_uv[1] | (lfm.left_uv[2] & 0xcccc);
            lfm.left_uv[2] = lfm.left_uv[2] & !0xccccu16;
        }
        proof {
            let sp = adjust_cols(m2, columns);
            assert(lfm.left_uv@ =~= sp.left_uv);
            assert(lfm@ == sp);
        }
    }
    let ghost m3 = lfm@;
    if sb_col == 0 {
        and3_64(&mut lfm.left_y, 0xfefe_fefe_fefe_fefe);
        and3_16(&mut lfm.left_uv, 0xeeee);
        assert(lfm@ == adjust_left(m3));
    }
}

/// Bit `c` of `m`.
pub open spec fn bit(m: u32, c: int) -> bool {
    (m >> (c as u32)) & 1u32 != 0u32
}

/// Column `c` of a selective filter pass: the largest edge filter whose
/// mask bit is set at position `p`, then the internal 4×4 edge at `inner`.
pub open spec fn sel_step(
    buf: Seq<u8>,
    p: int,
    inner: int,
    tap: int,
    adv: int,
    b16: bool,
    b8: bool,
    b4: bool,
    b4i: bool,
    t: LoopFilterThresh,
) -> Seq<u8> {
    let b1 = if b16 {
        spec_lpf(buf, p, tap, adv, 16, t.mblim, t.lim, t.hev_thr, 8)
    } else if b8 {
        spec_lpf(buf, p, tap, adv, 8, t.mblim, t.lim, t.hev_thr, 8)
    } else if b4 {
        spec_lpf(buf, p, tap, adv, 4, t.mblim, t.lim, t.hev_thr, 8)
    } else {
        buf
    };
    if b4i {
        spec_lpf(b1, inner, tap, adv, 4, t.mblim, t.lim, t.hev_thr, 8)
    } else {
        b1
    }
}

/// `filter_selectively_vert` / `_horiz` over the first `n` 8-pixel columns
/// of a row band at `pos`: vertical edges step down by `stride` with taps
/// along the row, horizontal edges step along the row with taps `stride`
/// apart; the internal 4×4 edge lies 4 pixels past the 8×8 edge.
pub open spec fn spec_sel(
    buf: Seq<u8>,
    stride: int,
    pos: int,
    m16: u32,
    m8: u32,
    m4: u32,
    m4i: u32,
    thr: Seq<LoopFilterThresh>,
    lfl: Seq<u8>,
    vertical: bool,
    n: int,
) -> Seq<u8>
    decreases n,
{
    if n <= 0 {
        buf
    } else {
        let b = spec_sel(buf, stride, pos, m16, m8, m4, m4i, thr, lfl, vertical, n - 1);
        let c = n - 1;
        let p = pos + c * 8;
        let tap = if vertical {
            1
        } else {
            stride
        };
        let adv = if vertical {
            stride
        } else {
            1
        };
        sel_step(b, p, p + 4 * tap, tap, adv, bit(m16, c), bit(m8, c), bit(m4, c), bit(m4i, c), thr[lfl[c] as int])
    }
}

/// What a selective pass needs of its band: every edge position stays in
/// the buffer, and a position with an 8×8-or-larger edge has eight taps
/// before it.
pub open spec fn sel_ok(
    len: int,
    stride: int,
    pos: int,
    m16: u32,
    m8: u32,
    m4: u32,
    num_cols: int,
    thr: Seq<LoopFilterThresh>,
    lfl: Seq<u8>,
    vertical: bool,
) -> bool {
    let tap = if vertical {
        1
    } else {
        stride
    };
    let adv = if vertical {
        stride
    } else {
        1
    };
    &&& thr.len() == MAX_LOOP_FILTER + 1
    &&& lfl.len() >= num_cols
    &&& forall|c: int| 0 <= c < num_cols ==> #[trigger] lfl[c] <= MAX_LOOP_FILTER
    &&& forall|c: int| 0 <= c < num_cols ==> pos + #[trigger] (c * 8) + 7 * adv + 7 * tap < len
    &&& forall|c: int| 0 <= c < num_cols ==> (bit(m16, c) || bit(m8, c) || bit(m4, c)) ==> pos + #[trigger] (c * 8) >= 8 * tap
}

proof fn lemma_shr_step(m: u32, c: u32)
    requires
        c < 31,
    ensures
        (m >> c) >> 1u32 == m >> ((c + 1) as u32),
        m >> 0u32 == m,
        (0u32 >> c) & 1u32 == 0u32,
{
    assert((m >> c) >> 1u32 == m >> ((c + 1) as u32) && m >> 0u32 == m && (0u32 >> c) & 1u32 == 0u32) by (bit_vector)
        requires
            c < 31,
    ;
}

/// `filter_selectively_vert` (`vertical`) or `filter_selectively_horiz`.
fn filter_selectively(
    buf: &mut [u8],
    stride: usize,
    pos: usize,
    mask16: u32,
    mask8: u32,
    mask4: u32,
    mask4i: u32,
    thr: &[LoopFilterThresh],
    lfl: &[u8],
    num_cols: usize,
    vertical: bool,
)
    requires
        num_cols <= 8,
        sel_ok(old(buf)@.len() as int, stride as int, pos as int, mask16, mask8, mask4, num_cols as int, thr@, lfl@, vertical),
    ensures
        final(buf)@ == spec_sel(old(buf)@, stride as int, pos as int, mask16, mask8, mask4, mask4i, thr@, lfl@, vertical, num_cols as int),
        final(buf)@.len() == old(buf)@.len(),
{
    let mut m16 = mask16;
    let mut m8 = mask8;
    let mut m4 = mask4;
    let mut m4i = mask4i;
    let tap: usize = if vertical {
        1
    } else {
        stride
    };
    let adv: usize = if vertical {
        stride
    } else {
        1
    };
    proof {
        lemma_shr_step(mask16, 0);
        lemma_shr_step(mask8, 0);
        lemma_shr_step(mask4, 0);
        lemma_shr_step(mask4i, 0);
    }
    let blen = buf.len();
    let mut c: usize = 0;
    while c < num_cols
        invariant
            c <= num_cols <= 8,
            blen == old(buf)@.len(),
            tap == (if vertical {
                1
            } else {
                stride
            }),
            adv == (if vertical {
                stride
            } else {
                1
            }),
            buf@.len() == old(buf)@.len(),
            sel_ok(old(buf)@.len() as int, stride as int, pos as int, mask16, mask8, mask4, num_cols as int, thr@, lfl@, vertical),
            m16 == mask16 >> (c as u32),
            m8 == mask8 >> (c as u32),
            m4 == mask4 >> (c as u32),
            m4i == mask4i >> (c as u32),
            buf@ == spec_sel(old(buf)@, stride as int, pos as int, mask16, mask8, mask4, mask4i, thr@, lfl@, vertical, c as int),
        decreases num_cols - c,
    {
        let ghost cc = c as int;
        assert(pos + cc * 8 + 7 * adv + 7 * tap < old(buf)@.len());
        assert(lfl@[cc] <= MAX_LOOP_FILTER);
        let p = pos + c * 8;
        assert(p + 7 * adv + 3 * tap < old(buf)@.len());
        assert(p + 4 * tap + 7 * adv + 3 * tap < old(buf)@.len());
        let t = thr[lfl[c] as usize];
        if m16 & 1 != 0 {
            assert(bit(mask16, cc));
            assert(p >= 8 * tap);
            lpf(buf, p, tap, adv, 16, t.mblim, t.lim, t.hev_thr);
        } else if m8 & 1 != 0 {
            assert(bit(mask8, cc));
            assert(p >= 8 * tap);
            lpf(buf, p, tap, adv, 8, t.mblim, t.lim, t.hev_thr);
        } else if m4 & 1 != 0 {
            assert(bit(mask4, cc));
            assert(p >= 8 * tap);
            lpf(buf, p, tap, adv, 4, t.mblim, t.lim, t.hev_thr);
        }
        if m4i & 1 != 0 {
            lpf(buf, p + 4 * tap, tap, adv, 4, t.mblim, t.lim, t.hev_thr);
        }
        proof {
            lemma_shr_step(mask16, c as u32);
            lemma_shr_step(mask8, c as u32);
            lemma_shr_step(mask4, c as u32);
            lemma_shr_step(mask4i, c as u32);
        }
        m16 = m16 >> 1;
        m8 = m8 >> 1;
        m4 = m4 >> 1;
        m4i = m4i >> 1;
        c += 1;
    }
}

/// Byte `r` of a luma mask: the positions of MI row `r`.
pub open spec fn byte_of(x: u64, r: int) -> u32 {
    ((x >> ((r * 8) as usize)) & 0xffu64) as u32
}

/// Nibble `r` of a chroma mask.
pub open spec fn nib_of(x: u16, r: int) -> u32 {
    ((x >> ((r * 4) as usize)) & 0xfu16) as u32
}

proof fn lemma_border_bits(y: u64, u: u16, r: usize)
    requires
        r < 8,
    ensures
        y & 0x0101_0101_0101_0101u64 == 0 ==> !bit(((y >> ((r * 8) as usize)) & 0xffu64) as u32, 0),
        r < 4 && u & 0x1111u16 == 0 ==> !bit(((u >> ((r * 4) as usize)) & 0xfu16) as u32, 0),
{
    assert(y & 0x0101_0101_0101_0101u64 == 0 ==> ((((y >> ((r * 8) as usize)) & 0xffu64) as u32) >> 0u32) & 1u32 == 0u32) by (bit_vector)
        requires
            r < 8,
    ;
    assert(r < 4 && u & 0x1111u16 == 0 ==> ((((u >> ((r * 4) as usize)) & 0xfu16) as u32) >> 0u32) & 1u32 == 0u32) by (bit_vector);
}

/// The luma vertical edges of the first `n` MI rows of a superblock.
pub open spec fn ss00_vert(buf: Seq<u8>, stride: int, base: int, m: MaskModel, thr: Seq<LoopFilterThresh>, n: int) -> Seq<u8>
    decreases n,
{
    if n <= 0 {
        buf
    } else {
        let r = n - 1;
        spec_sel(
            ss00_vert(buf, stride, base, m, thr, n - 1),
            stride,
            base + r * 8 * stride,
            byte_of(m.left_y[2], r),
            byte_of(m.left_y[1], r),
            byte_of(m.left_y[0], r),
            byte_of(m.int_4x4_y, r),
            thr,
            m.lfl_y.subrange(r * 8, r * 8 + 8),
            true,
            8,
        )
    }
}

/// The luma horizontal edges of the first `n` MI rows; the frame's top
/// edge is not filtered.
pub open spec fn ss00_horiz(buf: Seq<u8>, stride: int, base: int, sb_row: int, m: MaskModel, thr: Seq<LoopFilterThresh>, n: int) -> Seq<u8>
    decreases n,
{
    if n <= 0 {
        buf
    } else {
        let r = n - 1;
        let top = sb_row + r == 0;
        spec_sel(
            ss00_horiz(buf, stride, base, sb_row, m, thr, n - 1),
            stride,
            base + r * 8 * stride,
            if top {
                0
            } else {
                byte_of(m.above_y[2], r)
            },
            if top {
                0
            } else {
                byte_of(m.above_y[1], r)
            },
            if top {
                0
            } else {
                byte_of(m.above_y[0], r)
            },
            byte_of(m.int_4x4_y, r),
            thr,
            m.lfl_y.subrange(r * 8, r * 8 + 8),
            false,
            8,
        )
    }
}

/// MI rows of the superblock that lie in the frame.
pub open spec fn sb_rows_in(sb_row: int, mi_rows: int) -> int {
    if mi_rows - sb_row < 8 {
        mi_rows - sb_row
    } else {
        8
    }
}

/// `vp9_filter_block_plane_ss00`: all vertical luma edges of the
/// superblock, then all horizontal ones.
pub open spec fn spec_plane_ss00(buf: Seq<u8>, stride: int, base: int, sb_row: int, mi_rows: int, m: MaskModel, thr: Seq<LoopFilterThresh>) -> Seq<u8> {
    let n = sb_rows_in(sb_row, mi_rows);
    ss00_horiz(ss00_vert(buf, stride, base, m, thr, n), stride, base, sb_row, m, thr, n)
}

/// The levels in a mask are valid threshold indices.
pub open spec fn levels_ok(m: MaskModel) -> bool {
    &&& m.lfl_y.len() == 64
    &&& m.left_y.len() == 4
    &&& m.above_y.len() == 4
    &&& m.left_uv.len() == 4
    &&& m.above_uv.len() == 4
    &&& forall|j: int| 0 <= j < 64 ==> #[trigger] m.lfl_y[j] <= MAX_LOOP_FILTER
}

fn row_levels(lfm: &LoopFilterMask, r: usize) -> (l: [u8; 8])
    requires
        r < 8,
    ensures
        l@ == lfm@.lfl_y.subrange(r * 8, r * 8 + 8),
{
    let mut l = [0u8; 8];
    let mut c: usize = 0;
    while c < 8
        invariant
            r < 8,
            c <= 8,
            forall|k: int| 0 <= k < c ==> #[trigger] l@[k] == lfm.lfl_y@[r * 8 + k],
        decreases 8 - c,
    {
        l[c] = lfm.lfl_y[r * 8 + c];
        c += 1;
    }
    assert(l@ =~= lfm@.lfl_y.subrange(r * 8, r * 8 + 8));
    l
}

/// Luma (no subsampling): `vp9_filter_block_plane_ss00`.
fn filter_plane_ss00(
    buf: &mut [u8],
    stride: usize,
    base: usize,
    sb_row: usize,
    mi_rows: usize,
    lfm: &LoopFilterMask,
    thr: &[LoopFilterThresh],
)
    requires
        sb_row < mi_rows,
        thr@.len() == MAX_LOOP_FILTER + 1,
        levels_ok(lfm@),
        base + 63 * stride + 63 < old(buf)@.len(),
        base >= 8 || (forall|k: int| 0 <= k < 3 ==> #[trigger] lfm.left_y@[k] & 0x0101_0101_0101_0101u64 == 0),
        sb_row > 0 ==> base >= 8 * stride,
    ensures
        final(buf)@ == spec_plane_ss00(old(buf)@, stride as int, base as int, sb_row as int, mi_rows as int, lfm@, thr@),
        final(buf)@.len() == old(buf)@.len(),
{
    let ghost n = sb_rows_in(sb_row as int, mi_rows as int);
    let blen = buf.len();
    let mut r: usize = 0;
    while r < MI_BLOCK_SIZE
        invariant
            blen == old(buf)@.len(),
            r <= n,
            n == sb_rows_in(sb_row as int, mi_rows as int),
            sb_row < mi_rows,
            thr@.len() == MAX_LOOP_FILTER + 1,
            levels_ok(lfm@),
            base + 63 * stride + 63 < old(buf)@.len(),
            base >= 8 || (forall|k: int| 0 <= k < 3 ==> #[trigger] lfm.left_y@[k] & 0x0101_0101_0101_0101u64 == 0),
            buf@.len() == old(buf)@.len(),
            buf@ == ss00_vert(old(buf)@, stride as int, base as int, lfm@, thr@, r as int),
        ensures
            buf@ == ss00_vert(old(buf)@, stride as int, base as int, lfm@, thr@, n),
            buf@.len() == old(buf)@.len(),
        decreases MI_BLOCK_SIZE - r,
    {
        if sb_row + r >= mi_rows {
            break;
        }
        let m16 = ((lfm.left_y[2] >> (r * 8)) & 0xff) as u32;
        let m8 = ((lfm.left_y[1] >> (r * 8)) & 0xff) as u32;
        let m4 = ((lfm.left_y[0] >> (r * 8)) & 0xff) as u32;
        let m4i = ((lfm.int_4x4_y >> (r * 8)) & 0xff) as u32;
        assert(r * 8 * stride <= 56 * stride) by (nonlinear_arith)
            requires
                r < 8,
        ;
        let pos = base + r * 8 * stride;
        let lfl = row_levels(lfm, r);
        proof {
            lemma_border_bits(lfm.left_y@[2], 0, r);
            lemma_border_bits(lfm.left_y@[1], 0, r);
            lemma_border_bits(lfm.left_y@[0], 0, r);
            assert forall|c: int| 0 <= c < 8 implies #[trigger] lfl@[c] <= MAX_LOOP_FILTER by {
                assert(lfl@[c] == lfm@.lfl_y[r * 8 + c]);
            }
            assert forall|c: int| 0 <= c < 8 implies pos + #[trigger] (c * 8) + 7 * stride + 7 * 1 < old(buf)@.len() by {
            }
            assert forall|c: int| 0 <= c < 8 && (bit(m16, c) || bit(m8, c) || bit(m4, c)) implies pos + #[trigger] (c * 8) >= 8 * 1 by {
                if c == 0 && base < 8 {
                    assert(lfm.left_y@[2] & 0x0101_0101_0101_0101u64 == 0);
                    assert(lfm.left_y@[1] & 0x0101_0101_0101_0101u64 == 0);
                    assert(lfm.left_y@[0] & 0x0101_0101_0101_0101u64 == 0);
                }
            }
        }
        filter_selectively(buf, stride, pos, m16, m8, m4, m4i, thr, &lfl, 8, true);
        r += 1;
    }
    let ghost mid = buf@;
    let mut r: usize = 0;
    while r < MI_BLOCK_SIZE
        invariant
            blen == old(buf)@.len(),
            r <= n,
            n == sb_rows_in(sb_row as int, mi_rows as int),
            sb_row < mi_rows,
            thr@.len() == MAX_LOOP_FILTER + 1,
            levels_ok(lfm@),
            base + 63 * stride + 63 < old(buf)@.len(),
            sb_row > 0 ==> base >= 8 * stride,
            buf@.len() == old(buf)@.len(),
            mid == ss00_vert(old(buf)@, stride as int, base as int, lfm@, thr@, n),
            buf@ == ss00_horiz(mid, stride as int, base as int, sb_row as int, lfm@, thr@, r as int),
        ensures
            buf@ == ss00_horiz(mid, stride as int, base as int, sb_row as int, lfm@, thr@, n),
            buf@.len() == old(buf)@.len(),
        decreases MI_BLOCK_SIZE - r,
    {
        if sb_row + r >= mi_rows {
            break;
        }
        let top = sb_row + r == 0;
        let m16 = if top {
            0
        } else {
            ((lfm.above_y[2] >> (r * 8)) & 0xff) as u32
        };
        let m8 = if top {
            0
        } else {
            ((lfm.above_y[1] >> (r * 8)) & 0xff) as u32
        };
        let m4 = if top {
            0
        } else {
            ((lfm.above_y[0] >> (r * 8)) & 0xff) as u32
        };
        let m4i = ((lfm.int_4x4_y >> (r * 8)) & 0xff) as u32;
        assert(r * 8 * stride <= 56 * stride) by (nonlinear_arith)
            requires
                r < 8,
        ;
        let pos = base + r * 8 * stride;
        let lfl = row_levels(lfm, r);
        proof {
            assert forall|c: int| 0 <= c < 8 implies #[trigger] lfl@[c] <= MAX_LOOP_FILTER by {
                assert(lfl@[c] == lfm@.lfl_y[r * 8 + c]);
            }
            assert forall|c: int| 0 <= c < 8 implies pos + #[trigger] (c * 8) + 7 * 1 + 7 * stride < old(buf)@.len() by {
            }
            assert forall|c: int| 0 <= c < 8 && (bit(m16, c) || bit(m8, c) || bit(m4, c)) implies pos + #[trigger] (c * 8) >= 8 * stride by {
                if top {
                    lemma_shr_step(0, c as u32);
                } else if r == 0 {
                    assert(sb_row > 0);
                } else {
                    assert(r * 8 * stride >= 8 * stride) by (nonlinear_arith)
                        requires
                            r >= 1,
                    ;
                }
            }
        }
        filter_selectively(buf, stride, pos, m16, m8, m4, m4i, thr, &lfl, 8, false);
        r += 1;
    }
}

/// The levels of the four chroma 8×8 columns of chroma row `r`: those of
/// the top-left luma MI of each 16×16.
pub open spec fn uv_levels(m: MaskModel, r: int) -> Seq<u8> {
    Seq::new(4, |c: int| m.lfl_y[2 * r * 8 + 2 * c])
}

/// The chroma vertical edges of the first `n` chroma rows.
pub open spec fn ss11_vert(buf: Seq<u8>, stride: int, base: int, m: MaskModel, thr: Seq<LoopFilterThresh>, n: int) -> Seq<u8>
    decreases n,
{
    if n <= 0 {
        buf
    } else {
        let r = n - 1;
        spec_sel(
            ss11_vert(buf, stride, base, m, thr, n - 1),
            stride,
            base + r * 8 * stride,
            nib_of(m.left_uv[2], r),
            nib_of(m.left_uv[1], r),
            nib_of(m.left_uv[0], r),
            nib_of(m.int_4x4_uv, r),
            thr,
            uv_levels(m, r),
            true,
            4,
        )
    }
}

/// The chroma horizontal edges of the first `n` chroma rows; no edge on
/// the frame's top border, and no internal 4×4 edge in the last MI row.
pub open spec fn ss11_horiz(
    buf: Seq<u8>,
    stride: int,
    base: int,
    sb_row: int,
    mi_rows: int,
    m: MaskModel,
    thr: Seq<LoopFilterThresh>,
    n: int,
) -> Seq<u8>
    decreases n,
{
    if n <= 0 {
        buf
    } else {
        let r = n - 1;
        let top = sb_row + 2 * r == 0;
        let last = sb_row + 2 * r == mi_rows - 1;
        spec_sel(
            ss11_horiz(buf, stride, base, sb_row, mi_rows, m, thr, n - 1),
            stride,
            base + r * 8 * stride,
            if top {
                0
            } else {
                nib_of(m.above_uv[2], r)
            },
            if top {
                0
            } else {
                nib_of(m.above_uv[1], r)
            },
            if top {
                0
            } else {
                nib_of(m.above_uv[0], r)
            },
            if last {
                0
            } else {
                nib_of(m.int_4x4_uv, r)
            },
            thr,
            uv_levels(m, r),
            false,
            4,
        )
    }
}

/// Chroma rows of the superblock whose MI row lies in the frame.
pub open spec fn sb_uv_rows_in(sb_row: int, mi_rows: int) -> int {
    let k = (mi_rows - sb_row + 1) / 2;
    if k < 4 {
        k
    } else {
        4
    }
}

/// `vp9_filter_block_plane_ss11`: all vertical chroma edges of the
/// superblock, then all horizontal ones.
pub open spec fn spec_plane_ss11(buf: Seq<u8>, stride: int, base: int, sb_row: int, mi_rows: int, m: MaskModel, thr: Seq<LoopFilterThresh>) -> Seq<u8> {
    let n = sb_uv_rows_in(sb_row, mi_rows);
    ss11_horiz(ss11_vert(buf, stride, base, m, thr, n), stride, base, sb_row, mi_rows, m, thr, n)
}

fn uv_row_levels(lfm: &LoopFilterMask, r: usize) -> (l: [u8; 4])
    requires
        r < 4,
    ensures
        l@ == uv_levels(lfm@, r as int),
{
    let mi_r = r * 2;
    let mut l = [0u8; 4];
    let mut c: usize = 0;
    while c < 4
        invariant
            r < 4,
            mi_r == r * 2,
            c <= 4,
            forall|k: int| 0 <= k < c ==> #[trigger] l@[k] == lfm.lfl_y@[2 * r * 8 + 2 * k],
        decreases 4 - c,
    {
        l[c] = lfm.lfl_y[mi_r * 8 + c * 2];
        c += 1;
    }
    assert(l@ =~= uv_levels(lfm@, r as int));
    l
}

/// 4:2:0 chroma: `vp9_filter_block_plane_ss11`.
fn filter_plane_ss11(
    buf: &mut [u8],
    stride: usize,
    base: usize,
    sb_row: usize,
    mi_rows: usize,
    lfm: &LoopFilterMask,
    thr: &[LoopFilterThresh],
)
    requires
        sb_row < mi_rows <= 0x1000_0000,
        thr@.len() == MAX_LOOP_FILTER + 1,
        levels_ok(lfm@),
        base + 31 * stride + 31 < old(buf)@.len(),
        base >= 8 || (forall|k: int| 0 <= k < 3 ==> #[trigger] lfm.left_uv@[k] & 0x1111u16 == 0),
        sb_row > 0 ==> base >= 8 * stride,
    ensures
        final(buf)@ == spec_plane_ss11(old(buf)@, stride as int, base as int, sb_row as int, mi_rows as int, lfm@, thr@),
        final(buf)@.len() == old(buf)@.len(),
{
    let ghost n = sb_uv_rows_in(sb_row as int, mi_rows as int);
    let blen = buf.len();
    let mut r_uv: usize = 0;
    while r_uv < 4
        invariant
            blen == old(buf)@.len(),
            r_uv <= n,
            n == sb_uv_rows_in(sb_row as int, mi_rows as int),
            sb_row < mi_rows <= 0x1000_0000,
            thr@.len() == MAX_LOOP_FILTER + 1,
            levels_ok(lfm@),
            base + 31 * stride + 31 < old(buf)@.len(),
            base >= 8 || (forall|k: int| 0 <= k < 3 ==> #[trigger] lfm.left_uv@[k] & 0x1111u16 == 0),
            buf@.len() == old(buf)@.len(),
            buf@ == ss11_vert(old(buf)@, stride as int, base as int, lfm@, thr@, r_uv as int),
        ensures
            buf@ == ss11_vert(old(buf)@, stride as int, base as int, lfm@, thr@, n),
            buf@.len() == old(buf)@.len(),
        decreases 4 - r_uv,
    {
        let mi_r = r_uv * 2;
        if sb_row + mi_r >= mi_rows {
            break;
        }
        let m16 = ((lfm.left_uv[2] >> (r_uv * 4)) & 0xf) as u32;
        let m8 = ((lfm.left_uv[1] >> (r_uv * 4)) & 0xf) as u32;
        let m4 = ((lfm.left_uv[0] >> (r_uv * 4)) & 0xf) as u32;
        let m4i = ((lfm.int_4x4_uv >> (r_uv * 4)) & 0xf) as u32;
        let lfl_uv = uv_row_levels(lfm, r_uv);
        assert(r_uv * 8 * stride <= 24 * stride) by (nonlinear_arith)
            requires
                r_uv < 4,
        ;
        let pos = base + r_uv * 8 * stride;
        proof {
            lemma_border_bits(0, lfm.left_uv@[2], r_uv);
            lemma_border_bits(0, lfm.left_uv@[1], r_uv);
            lemma_border_bits(0, lfm.left_uv@[0], r_uv);
            assert forall|c: int| 0 <= c < 4 implies #[trigger] lfl_uv@[c] <= MAX_LOOP_FILTER by {
                assert(lfl_uv@[c] == lfm@.lfl_y[2 * r_uv * 8 + 2 * c]);
            }
            assert forall|c: int| 0 <= c < 4 implies pos + #[trigger] (c * 8) + 7 * stride + 7 * 1 < old(buf)@.len() by {
            }
            assert forall|c: int| 0 <= c < 4 && (bit(m16, c) || bit(m8, c) || bit(m4, c)) implies pos + #[trigger] (c * 8) >= 8 * 1 by {
                if c == 0 && base < 8 {
                    assert(lfm.left_uv@[2] & 0x1111u16 == 0);
                    assert(lfm.left_uv@[1] & 0x1111u16 == 0);
                    assert(lfm.left_uv@[0] & 0x1111u16 == 0);
                }
            }
        }
        filter_selectively(buf, stride, pos, m16, m8, m4, m4i, thr, &lfl_uv, 4, true);
        r_uv += 1;
    }
    let ghost mid = buf@;
    let mut r_uv: usize = 0;
    while r_uv < 4
        invariant
            blen == old(buf)@.len(),
            r_uv <= n,
            n == sb_uv_rows_in(sb_row as int, mi_rows as int),
            sb_row < mi_rows <= 0x1000_0000,
            thr@.len() == MAX_LOOP_FILTER + 1,
            levels_ok(lfm@),
            base + 31 * stride + 31 < old(buf)@.len(),
            sb_row > 0 ==> base >= 8 * stride,
            buf@.len() == old(buf)@.len(),
            mid == ss11_vert(old(buf)@, stride as int, base as int, lfm@, thr@, n),
            buf@ == ss11_horiz(mid, stride as int, base as int, sb_row as int, mi_rows as int, lfm@, thr@, r_uv as int),
        ensures
            buf@ == ss11_horiz(mid, stride as int, base as int, sb_row as int, mi_rows as int, lfm@, thr@, n),
            buf@.len() == old(buf)@.len(),
        decreases 4 - r_uv,
    {
        let mi_r = r_uv * 2;
        if sb_row + mi_r >= mi_rows {
            break;
        }
        let skip_border = sb_row + mi_r == mi_rows - 1;
        let m4i_full = ((lfm.int_4x4_uv >> (r_uv * 4)) & 0xf) as u32;
        let m4i = if skip_border {
            0
        } else {
            m4i_full
        };
        let top = sb_row + mi_r == 0;
        let m16 = if top {
            0
        } else {
            ((lfm.above_uv[2] >> (r_uv * 4)) & 0xf) as u32
        };
        let m8 = if top {
            0
        } else {
            ((lfm.above_uv[1] >> (r_uv * 4)) & 0xf) as u32
        };
        let m4 = if top {
            0
        } else {
            ((lfm.above_uv[0] >> (r_uv * 4)) & 0xf) as u32
        };
        let lfl_uv = uv_row_levels(lfm, r_uv);
        assert(r_uv * 8 * stride <= 24 * stride) by (nonlinear_arith)
            requires
                r_uv < 4,
        ;
        let pos = base + r_uv * 8 * stride;
        proof {
            assert forall|c: int| 0 <= c < 4 implies #[trigger] lfl_uv@[c] <= MAX_LOOP_FILTER by {
                assert(lfl_uv@[c] == lfm@.lfl_y[2 * r_uv * 8 + 2 * c]);
            }
            assert forall|c: int| 0 <= c < 4 implies pos + #[trigger] (c * 8) + 7 * 1 + 7 * stride < old(buf)@.len() by {
            }
            assert forall|c: int| 0 <= c < 4 && (bit(m16, c) || bit(m8, c) || bit(m4, c)) implies pos + #[trigger] (c * 8) >= 8 * stride by {
                if top {
                    lemma_shr_step(0, c as u32);
                } else if r_uv == 0 {
                    assert(sb_row > 0);
                } else {
                    assert(r_uv * 8 * stride >= 8 * stride) by (nonlinear_arith)
                        requires
                            r_uv >= 1,
                    ;
                }
            }
        }
        filter_selectively(buf, stride, pos, m16, m8, m4, m4i, thr, &lfl_uv, 4, false);
        r_uv += 1;
    }
}

/// Add one MI's block to the mask (only the top-left MI of a block).
pub open spec fn mask_step(m: MaskModel, e: LfMi, r: int, c: int) -> MaskModel {
    if !e.block_origin {
        m
    } else {
        spec_build_mask(m, e.level, e.is_inter, e.skip, e.tx_size_y, e.bsize_idx as int, e.bw_mi as int, e.bh_mi as int, r, c)
    }
}

/// The MI at `(row, col)`.
pub open spec fn mi_at(mi: Seq<LfMi>, mi_cols: int, row: int, col: int) -> LfMi {
    mi[row * mi_cols + col]
}

/// The first `nc` MIs of superblock row `r` added to the mask.
pub open spec fn mask_row(m: MaskModel, mi: Seq<LfMi>, mi_cols: int, sb_row: int, sb_col: int, r: int, nc: int) -> MaskModel
    decreases nc,
{
    if nc <= 0 {
        m
    } else {
        mask_step(mask_row(m, mi, mi_cols, sb_row, sb_col, r, nc - 1), mi_at(mi, mi_cols, sb_row + r, sb_col + nc - 1), r, nc - 1)
    }
}

/// The first `nr` superblock rows of MIs (each `nc` wide) added to the mask.
pub open spec fn mask_rows(mi: Seq<LfMi>, mi_cols: int, sb_row: int, sb_col: int, nr: int, nc: int) -> MaskModel
    decreases nr,
{
    if nr <= 0 {
        empty_mask()
    } else {
        mask_row(mask_rows(mi, mi_cols, sb_row, sb_col, nr - 1, nc), mi, mi_cols, sb_row, sb_col, nr - 1, nc)
    }
}

/// The loop-filter mask of the superblock at MI `(sb_row, sb_col)`.
pub open spec fn spec_sb_mask(mi: Seq<LfMi>, mi_rows: int, mi_cols: int, sb_row: int, sb_col: int) -> MaskModel {
    spec_adjust_mask(
        mask_rows(mi, mi_cols, sb_row, sb_col, sb_rows_in(sb_row, mi_rows), sb_rows_in(sb_col, mi_cols)),
        mi_rows,
        mi_cols,
        sb_row,
        sb_col,
    )
}

/// Superblocks across a frame `mi_cols` MIs wide.
pub open spec fn sb_count(mi: int) -> int {
    (mi + 7) / 8
}

/// The MI position of superblock `t` in raster order.
pub open spec fn sb_pos(t: int, mi_cols: int) -> (int, int) {
    ((t / sb_count(mi_cols)) * 8, (t % sb_count(mi_cols)) * 8)
}

/// The luma plane after filtering the first `t` superblocks.
pub open spec fn luma_after(y: Seq<u8>, y_stride: int, mi: Seq<LfMi>, mi_rows: int, mi_cols: int, thr: Seq<LoopFilterThresh>, t: int) -> Seq<u8>
    decreases t,
{
    if t <= 0 {
        y
    } else {
        let (sb_row, sb_col) = sb_pos(t - 1, mi_cols);
        spec_plane_ss00(
            luma_after(y, y_stride, mi, mi_rows, mi_cols, thr, t - 1),
            y_stride,
            sb_row * 8 * y_stride + sb_col * 8,
            sb_row,
            mi_rows,
            spec_sb_mask(mi, mi_rows, mi_cols, sb_row, sb_col),
            thr,
        )
    }
}

/// A chroma plane after filtering the first `t` superblocks.
pub open spec fn chroma_after(u: Seq<u8>, uv_stride: int, mi: Seq<LfMi>, mi_rows: int, mi_cols: int, thr: Seq<LoopFilterThresh>, t: int) -> Seq<u8>
    decreases t,
{
    if t <= 0 {
        u
    } else {
        let (sb_row, sb_col) = sb_pos(t - 1, mi_cols);
        spec_plane_ss11(
            chroma_after(u, uv_stride, mi, mi_rows, mi_cols, thr, t - 1),
            uv_stride,
            sb_row * 4 * uv_stride + sb_col * 4,
            sb_row,
            mi_rows,
            spec_sb_mask(mi, mi_rows, mi_cols, sb_row, sb_col),
            thr,
        )
    }
}

/// The MI records are usable: levels are threshold indices, and every
/// block that is filtered has a valid transform size and block size and
/// lies within its superblock.
pub open spec fn mi_ok(mi: Seq<LfMi>, mi_rows: int, mi_cols: int) -> bool {
    &&& mi.len() == mi_rows * mi_cols
    &&& forall|k: int| 0 <= k < mi.len() ==> (#[trigger] mi[k]).level <= MAX_LOOP_FILTER
    &&& forall|row: int, col: int|
        0 <= row < mi_rows && 0 <= col < mi_cols && (#[trigger] mi_at(mi, mi_cols, row, col)).block_origin
            && mi_at(mi, mi_cols, row, col).level != 0 ==> {
            let e = mi_at(mi, mi_cols, row, col);
            e.tx_size_y < 4 && e.bsize_idx < 13 && block_fits(e.bw_mi as int, e.bh_mi as int, row % 8, col % 8)
        }
}

/// The planes are padded to whole superblocks (64×64 luma, 32×32 chroma).
pub open spec fn planes_ok(
    y_len: int,
    y_stride: int,
    u_len: int,
    v_len: int,
    uv_stride: int,
    mi_rows: int,
    mi_cols: int,
) -> bool {
    &&& y_stride >= 64 * sb_count(mi_cols)
    &&& y_len >= 64 * sb_count(mi_rows) * y_stride
    &&& uv_stride >= 32 * sb_count(mi_cols)
    &&& u_len >= 32 * sb_count(mi_rows) * uv_stride
    &&& v_len >= 32 * sb_count(mi_rows) * uv_stride
}

proof fn lemma_left_clear(m: MaskModel)
    requires
        m.left_y.len() == 4,
        m.left_uv.len() == 4,
    ensures
        forall|k: int| 0 <= k < 3 ==> #[trigger] adjust_left(m).left_y[k] & 0x0101_0101_0101_0101u64 == 0,
        forall|k: int| 0 <= k < 3 ==> #[trigger] adjust_left(m).left_uv[k] & 0x1111u16 == 0,
{
    assert forall|x: u64, u: u16| #![auto] (x & 0xfefe_fefe_fefe_fefeu64) & 0x0101_0101_0101_0101u64 == 0 && (u & 0xeeeeu16) & 0x1111u16 == 0 by {
        assert((x & 0xfefe_fefe_fefe_fefeu64) & 0x0101_0101_0101_0101u64 == 0 && (u & 0xeeeeu16) & 0x1111u16 == 0) by (bit_vector);
    }
    let a = adjust_left(m);
    assert forall|k: int| 0 <= k < 3 implies #[trigger] a.left_y[k] & 0x0101_0101_0101_0101u64 == 0 by {
        assert(a.left_y[k] == m.left_y[k] & 0xfefe_fefe_fefe_fefeu64);
    }
    assert forall|k: int| 0 <= k < 3 implies #[trigger] a.left_uv[k] & 0x1111u16 == 0 by {
        assert(a.left_uv[k] == m.left_uv[k] & 0xeeeeu16);
    }
}

proof fn lemma_sb_extent(sb_row: int, sb_col: int, stride: int, len: int, nsbr: int, nsbc: int, k: int)
    requires
        k == 32 || k == 64,
        sb_row >= 0,
        sb_col >= 0,
        sb_row % 8 == 0,
        sb_col % 8 == 0,
        sb_row < 8 * nsbr,
        sb_col < 8 * nsbc,
        stride >= k * nsbc,
        len >= k * nsbr * stride,
    ensures
        sb_row * (k / 8) * stride + sb_col * (k / 8) + (k - 1) * stride + (k - 1) < len,
        sb_row > 0 ==> sb_row * (k / 8) * stride + sb_col * (k / 8) >= 8 * stride,
        sb_col > 0 ==> sb_row * (k / 8) * stride + sb_col * (k / 8) >= 8,
{
    let rr = sb_row / 8;
    let cc = sb_col / 8;
    assert(sb_row == 8 * rr && sb_col == 8 * cc);
    assert(rr + 1 <= nsbr && cc + 1 <= nsbc);
    assert(sb_row * (k / 8) * stride + sb_col * (k / 8) + (k - 1) * stride + (k - 1) < len) by (nonlinear_arith)
        requires
            k == 32 || k == 64,
            sb_row == 8 * rr,
            sb_col == 8 * cc,
            rr >= 0,
            cc >= 0,
            rr + 1 <= nsbr,
            cc + 1 <= nsbc,
            stride >= k * nsbc,
            len >= k * nsbr * stride,
    ;
    assert(sb_row > 0 ==> sb_row * (k / 8) * stride + sb_col * (k / 8) >= 8 * stride) by (nonlinear_arith)
        requires
            k == 32 || k == 64,
            sb_row == 8 * rr,
            sb_col >= 0,
            rr >= 0,
            stride >= 0,
    ;
    assert(sb_col > 0 ==> sb_row * (k / 8) * stride + sb_col * (k / 8) >= 8) by (nonlinear_arith)
        requires
            k == 32 || k == 64,
            sb_col == 8 * cc,
            sb_row >= 0,
            cc >= 0,
            stride >= 0,
    ;
}

proof fn lemma_sb_end(sb: int, mi: int)
    requires
        sb % 8 == 0,
        mi <= sb <= mi + 7,
        mi >= 0,
    ensures
        sb / 8 == sb_count(mi),
{
}

proof fn lemma_sb_index(t: int, sb_row: int, sb_col: int, nsbc: int)
    requires
        nsbc >= 1,
        sb_row % 8 == 0,
        sb_col % 8 == 0,
        sb_row >= 0,
        0 <= sb_col < 8 * nsbc,
        t == (sb_row / 8) * nsbc + sb_col / 8,
    ensures
        t / nsbc == sb_row / 8,
        t % nsbc == sb_col / 8,
        (t / nsbc) * 8 == sb_row,
        (t % nsbc) * 8 == sb_col,
{
    vstd::arithmetic::div_mod::lemma_fundamental_div_mod_converse(t, nsbc, sb_row / 8, sb_col / 8);
}

/// The loop-filter mask of the superblock at MI `(sb_row, sb_col)`: every
/// block origin in it is added with `vp9_build_mask`, then
/// `vp9_adjust_mask`.
fn build_sb_mask(mi: &[LfMi], mi_rows: usize, mi_cols: usize, sb_row: usize, sb_col: usize) -> (lfm: LoopFilterMask)
    requires
        0 < mi_rows <= 0x10_0000,
        0 < mi_cols <= 0x10_0000,
        mi_ok(mi@, mi_rows as int, mi_cols as int),
        sb_row % 8 == 0,
        sb_col % 8 == 0,
        sb_row < mi_rows,
        sb_col < mi_cols,
    ensures
        lfm@ == spec_sb_mask(mi@, mi_rows as int, mi_cols as int, sb_row as int, sb_col as int),
        levels_ok(lfm@),
        sb_col == 0 ==> (forall|k: int| 0 <= k < 3 ==> #[trigger] lfm.left_y@[k] & 0x0101_0101_0101_0101u64 == 0),
        sb_col == 0 ==> (forall|k: int| 0 <= k < 3 ==> #[trigger] lfm.left_uv@[k] & 0x1111u16 == 0),
{
    let ghost nc = sb_rows_in(sb_col as int, mi_cols as int);
    let ghost nr = sb_rows_in(sb_row as int, mi_rows as int);
    let mut lfm = LoopFilterMask::new();
    let mut r: usize = 0;
    while r < MI_BLOCK_SIZE
        invariant
            0 < mi_rows <= 0x10_0000,
            0 < mi_cols <= 0x10_0000,
            mi_ok(mi@, mi_rows as int, mi_cols as int),
            sb_row % 8 == 0,
            sb_col % 8 == 0,
            sb_row < mi_rows,
            sb_col < mi_cols,
            nc == sb_rows_in(sb_col as int, mi_cols as int),
            nr == sb_rows_in(sb_row as int, mi_rows as int),
            r <= nr,
            levels_ok(lfm@),
            lfm@ == mask_rows(mi@, mi_cols as int, sb_row as int, sb_col as int, r as int, nc),
        ensures
            levels_ok(lfm@),
            lfm@ == mask_rows(mi@, mi_cols as int, sb_row as int, sb_col as int, nr, nc),
        decreases MI_BLOCK_SIZE - r,
    {
        let row = sb_row + r;
        if row >= mi_rows {
            break;
        }
        let ghost before = lfm@;
        let mut c: usize = 0;
        while c < MI_BLOCK_SIZE
            invariant
                0 < mi_rows <= 0x10_0000,
                0 < mi_cols <= 0x10_0000,
                mi_ok(mi@, mi_rows as int, mi_cols as int),
                sb_row % 8 == 0,
                sb_col % 8 == 0,
                row == sb_row + r,
                row < mi_rows,
                r < 8,
                sb_col < mi_cols,
                nc == sb_rows_in(sb_col as int, mi_cols as int),
                c <= nc,
                levels_ok(lfm@),
                lfm@ == mask_row(before, mi@, mi_cols as int, sb_row as int, sb_col as int, r as int, c as int),
            ensures
                levels_ok(lfm@),
                lfm@ == mask_row(before, mi@, mi_cols as int, sb_row as int, sb_col as int, r as int, nc),
            decreases MI_BLOCK_SIZE - c,
        {
            let col = sb_col + c;
            if col >= mi_cols {
                break;
            }
            assert(row * mi_cols + col < mi_rows * mi_cols) by (nonlinear_arith)
                requires
                    row < mi_rows,
                    col < mi_cols,
            ;
            assert(row * mi_cols + col <= 0x100_0000_0000) by (nonlinear_arith)
                requires
                    row < mi_rows <= 0x10_0000,
                    col < mi_cols <= 0x10_0000,
            ;
            assert(row * mi_cols + col < mi.len());
            let e = mi[row * mi_cols + col];
            proof {
                assert(e == mi_at(mi@, mi_cols as int, row as int, col as int));
                assert((row as int) % 8 == r && (col as int) % 8 == c);
                assert(e.level <= MAX_LOOP_FILTER);
            }
            if e.block_origin {
                build_mask(
                    e.level,
                    e.is_inter,
                    e.skip,
                    e.tx_size_y,
                    e.bsize_idx,
                    e.bw_mi as usize,
                    e.bh_mi as usize,
                    r,
                    c,
                    &mut lfm,
                );
            }
            c += 1;
        }
        r += 1;
    }
    let ghost built = lfm@;
    adjust_mask(mi_rows, mi_cols, sb_row, sb_col, &mut lfm);
    proof {
        let m1 = adjust_merge(built);
        let m2 = if sb_row + 8 > mi_rows {
            adjust_rows(m1, (mi_rows - sb_row) as u32)
        } else {
            m1
        };
        let m3 = if sb_col + 8 > mi_cols {
            adjust_cols(m2, (mi_cols - sb_col) as u32)
        } else {
            m2
        };
        assert(built.left_y.len() == 4 && built.left_uv.len() == 4);
        assert(m3.left_y.len() == 4 && m3.left_uv.len() == 4);
        if sb_col == 0 {
            lemma_left_clear(m3);
            assert(lfm.left_y@ == adjust_left(m3).left_y);
            assert(lfm.left_uv@ == adjust_left(m3).left_uv);
        }
    }
    lfm
}

/// Filter one superblock of all three planes.
fn filter_superblock(
    y: &mut [u8],
    y_stride: usize,
    u: &mut [u8],
    v: &mut [u8],
    uv_stride: usize,
    mi: &[LfMi],
    mi_rows: usize,
    mi_cols: usize,
    sb_row: usize,
    sb_col: usize,
    thr: &[LoopFilterThresh],
)
    requires
        0 < mi_rows <= 0x10_0000,
        0 < mi_cols <= 0x10_0000,
        mi_ok(mi@, mi_rows as int, mi_cols as int),
        planes_ok(old(y)@.len() as int, y_stride as int, old(u)@.len() as int, old(v)@.len() as int, uv_stride as int, mi_rows as int, mi_cols as int),
        thr@.len() == MAX_LOOP_FILTER + 1,
        sb_row % 8 == 0,
        sb_col % 8 == 0,
        sb_row < mi_rows,
        sb_col < mi_cols,
    ensures
        final(y)@ == spec_plane_ss00(old(y)@, y_stride as int, sb_row * 8 * y_stride + sb_col * 8, sb_row as int, mi_rows as int, spec_sb_mask(mi@, mi_rows as int, mi_cols as int, sb_row as int, sb_col as int), thr@),
        final(u)@ == spec_plane_ss11(old(u)@, uv_stride as int, sb_row * 4 * uv_stride + sb_col * 4, sb_row as int, mi_rows as int, spec_sb_mask(mi@, mi_rows as int, mi_cols as int, sb_row as int, sb_col as int), thr@),
        final(v)@ == spec_plane_ss11(old(v)@, uv_stride as int, sb_row * 4 * uv_stride + sb_col * 4, sb_row as int, mi_rows as int, spec_sb_mask(mi@, mi_rows as int, mi_cols as int, sb_row as int, sb_col as int), thr@),
        final(y)@.len() == old(y)@.len(),
        final(u)@.len() == old(u)@.len(),
        final(v)@.len() == old(v)@.len(),
{
    let lfm = build_sb_mask(mi, mi_rows, mi_cols, sb_row, sb_col);
    let ylen = y.len();
    let ulen = u.len();
    let vlen = v.len();
    proof {
        let nsbr = sb_count(mi_rows as int);
        let nsbc = sb_count(mi_cols as int);
        lemma_sb_extent(sb_row as int, sb_col as int, y_stride as int, ylen as int, nsbr, nsbc, 64);
        lemma_sb_extent(sb_row as int, sb_col as int, uv_stride as int, ulen as int, nsbr, nsbc, 32);
        lemma_sb_extent(sb_row as int, sb_col as int, uv_stride as int, vlen as int, nsbr, nsbc, 32);
    }
    assert(sb_row * 8 * y_stride + sb_col * 8 + 63 * y_stride + 63 < ylen);
    assert(sb_row * 4 * uv_stride + sb_col * 4 + 31 * uv_stride + 31 < ulen);
    let y_base = sb_row * 8 * y_stride + sb_col * 8;
    filter_plane_ss00(y, y_stride, y_base, sb_row, mi_rows, &lfm, thr);
    let uv_base = sb_row * 4 * uv_stride + sb_col * 4;
    filter_plane_ss11(u, uv_stride, uv_base, sb_row, mi_rows, &lfm, thr);
    filter_plane_ss11(v, uv_stride, uv_base, sb_row, mi_rows, &lfm, thr);
}

/// Apply in-loop deblocking to a 4:2:0 frame in place.
///
/// `mi` is row-major, `mi_rows * mi_cols` entries, one per 8×8 MI. Whole
/// 64×64 superblocks are filtered, so the planes must be padded to whole
/// superblocks. A `filter_level` of 0 (or an empty frame) leaves the planes
/// unchanged; otherwise every superblock, in raster order, has its luma
/// plane filtered and then both chroma planes, each vertical edges first.
pub fn loop_filter_frame(
    y: &mut [u8],
    y_stride: usize,
    u: &mut [u8],
    v: &mut [u8],
    uv_stride: usize,
    _width: usize,
    _height: usize,
    mi: &[LfMi],
    mi_rows: usize,
    mi_cols: usize,
    filter_level: u8,
    sharpness: u8,
)
    requires
        mi_rows <= 0x10_0000,
        mi_cols <= 0x10_0000,
        filter_level != 0 && mi_rows != 0 && mi_cols != 0 ==> mi_ok(mi@, mi_rows as int, mi_cols as int)
            && planes_ok(
            old(y)@.len() as int,
            y_stride as int,
            old(u)@.len() as int,
            old(v)@.len() as int,
            uv_stride as int,
            mi_rows as int,
            mi_cols as int,
        ),
    ensures
        final(y)@.len() == old(y)@.len(),
        final(u)@.len() == old(u)@.len(),
        final(v)@.len() == old(v)@.len(),
        filter_level == 0 || mi_rows == 0 || mi_cols == 0 ==> final(y)@ == old(y)@ && final(u)@ == old(u)@
            && final(v)@ == old(v)@,
        filter_level != 0 && mi_rows != 0 && mi_cols != 0 ==> {
            let thr = Seq::new((MAX_LOOP_FILTER + 1) as nat, |l: int| spec_thresh(sharpness, l));
            let n = sb_count(mi_rows as int) * sb_count(mi_cols as int);
            &&& final(y)@ == luma_after(old(y)@, y_stride as int, mi@, mi_rows as int, mi_cols as int, thr, n)
            &&& final(u)@ == chroma_after(old(u)@, uv_stride as int, mi@, mi_rows as int, mi_cols as int, thr, n)
            &&& final(v)@ == chroma_after(old(v)@, uv_stride as int, mi@, mi_rows as int, mi_cols as int, thr, n)
        },
{
    if filter_level == 0 || mi_rows == 0 || mi_cols == 0 {
        return;
    }
    let thresholds = build_thresholds(sharpness);
    let ghost thr = Seq::new((MAX_LOOP_FILTER + 1) as nat, |l: int| spec_thresh(sharpness, l));
    assert(thresholds@ =~= thr);
    let ghost nsbc = sb_count(mi_cols as int);
    let ghost nsbr = sb_count(mi_rows as int);
    let ghost y0 = y@;
    let ghost u0 = u@;
    let ghost v0 = v@;
    let mut sb_row: usize = 0;
    assert((sb_row / 8) * nsbc == 0) by (nonlinear_arith)
        requires
            sb_row == 0,
    ;
    assert(luma_after(y0, y_stride as int, mi@, mi_rows as int, mi_cols as int, thr, 0) == y0);
    assert(chroma_after(u0, uv_stride as int, mi@, mi_rows as int, mi_cols as int, thr, 0) == u0);
    assert(chroma_after(v0, uv_stride as int, mi@, mi_rows as int, mi_cols as int, thr, 0) == v0);
    loop
        invariant
            0 < mi_rows <= 0x10_0000,
            0 < mi_cols <= 0x10_0000,
            nsbc == sb_count(mi_cols as int),
            nsbr == sb_count(mi_rows as int),
            mi_ok(mi@, mi_rows as int, mi_cols as int),
            planes_ok(y0.len() as int, y_stride as int, u0.len() as int, v0.len() as int, uv_stride as int, mi_rows as int, mi_cols as int),
            thresholds@ == thr,
            thr.len() == MAX_LOOP_FILTER + 1,
            sb_row % 8 == 0,
            sb_row <= mi_rows + 7,
            y@.len() == y0.len(),
            u@.len() == u0.len(),
            v@.len() == v0.len(),
            y@ == luma_after(y0, y_stride as int, mi@, mi_rows as int, mi_cols as int, thr, (sb_row / 8) * nsbc),
            u@ == chroma_after(u0, uv_stride as int, mi@, mi_rows as int, mi_cols as int, thr, (sb_row / 8) * nsbc),
            v@ == chroma_after(v0, uv_stride as int, mi@, mi_rows as int, mi_cols as int, thr, (sb_row / 8) * nsbc),
        ensures
            y@ == luma_after(y0, y_stride as int, mi@, mi_rows as int, mi_cols as int, thr, nsbr * nsbc),
            u@ == chroma_after(u0, uv_stride as int, mi@, mi_rows as int, mi_cols as int, thr, nsbr * nsbc),
            v@ == chroma_after(v0, uv_stride as int, mi@, mi_rows as int, mi_cols as int, thr, nsbr * nsbc),
        decreases mi_rows + 8 - sb_row,
    {
        if sb_row >= mi_rows {
            proof {
                lemma_sb_end(sb_row as int, mi_rows as int);
            }
            break;
        }
        let mut sb_col: usize = 0;
        loop
            invariant
                0 < mi_rows <= 0x10_0000,
                0 < mi_cols <= 0x10_0000,
                nsbc == sb_count(mi_cols as int),
                mi_ok(mi@, mi_rows as int, mi_cols as int),
                planes_ok(y0.len() as int, y_stride as int, u0.len() as int, v0.len() as int, uv_stride as int, mi_rows as int, mi_cols as int),
                thresholds@ == thr,
                thr.len() == MAX_LOOP_FILTER + 1,
                sb_row % 8 == 0,
                sb_row < mi_rows,
                sb_col % 8 == 0,
                sb_col <= mi_cols + 7,
                y@.len() == y0.len(),
                u@.len() == u0.len(),
                v@.len() == v0.len(),
                y@ == luma_after(y0, y_stride as int, mi@, mi_rows as int, mi_cols as int, thr, (sb_row / 8) * nsbc + sb_col / 8),
                u@ == chroma_after(u0, uv_stride as int, mi@, mi_rows as int, mi_cols as int, thr, (sb_row / 8) * nsbc + sb_col / 8),
                v@ == chroma_after(v0, uv_stride as int, mi@, mi_rows as int, mi_cols as int, thr, (sb_row / 8) * nsbc + sb_col / 8),
            ensures
                y@ == luma_after(y0, y_stride as int, mi@, mi_rows as int, mi_cols as int, thr, (sb_row / 8) * nsbc + nsbc),
                u@ == chroma_after(u0, uv_stride as int, mi@, mi_rows as int, mi_cols as int, thr, (sb_row / 8) * nsbc + nsbc),
                v@ == chroma_after(v0, uv_stride as int, mi@, mi_rows as int, mi_cols as int, thr, (sb_row / 8) * nsbc + nsbc),
            decreases mi_cols + 8 - sb_col,
        {
            if sb_col >= mi_cols {
                proof {
                    lemma_sb_end(sb_col as int, mi_cols as int);
                }
                break;
            }
            let ghost t = (sb_row / 8) * nsbc + sb_col / 8;
            proof {
                lemma_sb_index(t, sb_row as int, sb_col as int, nsbc);
                assert(sb_pos(t, mi_cols as int) == (sb_row as int, sb_col as int));
            }
            filter_superblock(y, y_stride, u, v, uv_stride, mi, mi_rows, mi_cols, sb_row, sb_col, thresholds.as_slice());
            sb_col += MI_BLOCK_SIZE;
        }
        assert((sb_row / 8) * nsbc + nsbc == ((sb_row + 8) / 8) * nsbc) by (nonlinear_arith)
            requires
                sb_row % 8 == 0,
        ;
        sb_row += MI_BLOCK_SIZE;
    }
}


/// A mask with no edge bits (its levels may be anything).
pub open spec fn no_edges(m: MaskModel) -> bool {
    &&& m.left_y.len() == 4
    &&& m.above_y.len() == 4
    &&& m.left_uv.len() == 4
    &&& m.above_uv.len() == 4
    &&& forall|i: int| 0 <= i < 4 ==> #[trigger] m.left_y[i] == 0u64 && m.above_y[i] == 0u64
    &&& forall|i: int| 0 <= i < 4 ==> #[trigger] m.left_uv[i] == 0u16 && m.above_uv[i] == 0u16
    &&& m.int_4x4_y == 0u64
    &&& m.int_4x4_uv == 0u16
}

/// No block of the grid is filtered: each is not a block origin or has
/// level 0.
pub open spec fn no_filtered_blocks(mi: Seq<LfMi>, mi_rows: int, mi_cols: int) -> bool {
    forall|row: int, col: int|
        0 <= row < mi_rows && 0 <= col < mi_cols ==> !(#[trigger] mi_at(mi, mi_cols, row, col)).block_origin
            || mi_at(mi, mi_cols, row, col).level == 0
}

proof fn lemma_sel_no_bits(
    buf: Seq<u8>,
    stride: int,
    pos: int,
    thr: Seq<LoopFilterThresh>,
    lfl: Seq<u8>,
    vertical: bool,
    n: int,
)
    ensures
        spec_sel(buf, stride, pos, 0, 0, 0, 0, thr, lfl, vertical, n) == buf,
    decreases n,
{
    if n > 0 {
        lemma_sel_no_bits(buf, stride, pos, thr, lfl, vertical, n - 1);
        let c = n - 1;
        assert(!bit(0u32, c)) by {
            let cc = c as u32;
            assert((0u32 >> cc) & 1u32 == 0u32) by (bit_vector);
        }
    }
}

proof fn lemma_zero_parts()
    ensures
        forall|r: int| #[trigger] byte_of(0u64, r) == 0u32,
        forall|r: int| #[trigger] nib_of(0u16, r) == 0u32,
{
    assert forall|r: int| #[trigger] byte_of(0u64, r) == 0u32 by {
        let sh = (r * 8) as usize;
        assert(((0u64 >> sh) & 0xffu64) == 0u64) by (bit_vector);
    }
    assert forall|r: int| #[trigger] nib_of(0u16, r) == 0u32 by {
        let sh = (r * 4) as usize;
        assert(((0u16 >> sh) & 0xfu16) == 0u16) by (bit_vector);
    }
}

proof fn lemma_planes_no_edges(buf: Seq<u8>, stride: int, base: int, sb_row: int, mi_rows: int, m: MaskModel, thr: Seq<LoopFilterThresh>, n: int)
    requires
        no_edges(m),
    ensures
        ss00_vert(buf, stride, base, m, thr, n) == buf,
        ss00_horiz(buf, stride, base, sb_row, m, thr, n) == buf,
        ss11_vert(buf, stride, base, m, thr, n) == buf,
        ss11_horiz(buf, stride, base, sb_row, mi_rows, m, thr, n) == buf,
    decreases n,
{
    if n > 0 {
        lemma_planes_no_edges(buf, stride, base, sb_row, mi_rows, m, thr, n - 1);
        lemma_zero_parts();
        let r = n - 1;
        assert(m.left_y[0] == 0u64 && m.left_y[1] == 0u64 && m.left_y[2] == 0u64);
        assert(m.above_y[0] == 0u64 && m.above_y[1] == 0u64 && m.above_y[2] == 0u64);
        assert(m.left_uv[0] == 0u16 && m.left_uv[1] == 0u16 && m.left_uv[2] == 0u16);
        assert(m.above_uv[0] == 0u16 && m.above_uv[1] == 0u16 && m.above_uv[2] == 0u16);
        lemma_sel_no_bits(buf, stride, base + r * 8 * stride, thr, m.lfl_y.subrange(r * 8, r * 8 + 8), true, 8);
        lemma_sel_no_bits(buf, stride, base + r * 8 * stride, thr, m.lfl_y.subrange(r * 8, r * 8 + 8), false, 8);
        lemma_sel_no_bits(buf, stride, base + r * 8 * stride, thr, uv_levels(m, r), true, 4);
        lemma_sel_no_bits(buf, stride, base + r * 8 * stride, thr, uv_levels(m, r), false, 4);
    }
}

proof fn lemma_adjust_no_edges(m: MaskModel, mi_rows: int, mi_cols: int, sb_row: int, sb_col: int)
    requires
        no_edges(m),
    ensures
        no_edges(spec_adjust_mask(m, mi_rows, mi_cols, sb_row, sb_col)),
{
    assert(forall|x: u64| (0u64 | 0u64) == 0u64 && (0u64 & x) == 0u64) by (bit_vector);
    assert(forall|x: u16| (0u16 | 0u16) == 0u16 && (0u16 & x) == 0u16) by (bit_vector);
    assert(m.left_y[0] == 0u64 && m.left_y[1] == 0u64 && m.left_y[2] == 0u64 && m.left_y[3] == 0u64);
    assert(m.above_y[0] == 0u64 && m.above_y[1] == 0u64 && m.above_y[2] == 0u64 && m.above_y[3] == 0u64);
    assert(m.left_uv[0] == 0u16 && m.left_uv[1] == 0u16 && m.left_uv[2] == 0u16 && m.left_uv[3] == 0u16);
    assert(m.above_uv[0] == 0u16 && m.above_uv[1] == 0u16 && m.above_uv[2] == 0u16 && m.above_uv[3] == 0u16);
    let m1 = adjust_merge(m);
    assert(no_edges(m1));
    let m2 = if sb_row + 8 > mi_rows { adjust_rows(m1, (mi_rows - sb_row) as u32) } else { m1 };
    assert(no_edges(m2));
    let m3 = if sb_col + 8 > mi_cols { adjust_cols(m2, (mi_cols - sb_col) as u32) } else { m2 };
    assert(no_edges(m3));
    assert(no_edges(adjust_left(m3)));
}

proof fn lemma_mask_rows_empty(mi: Seq<LfMi>, mi_rows: int, mi_cols: int, sb_row: int, sb_col: int, nr: int, nc: int)
    requires
        no_filtered_blocks(mi, mi_rows, mi_cols),
        0 <= sb_row,
        0 <= sb_col,
        sb_row + nr <= mi_rows,
        sb_col + nc <= mi_cols,
    ensures
        mask_rows(mi, mi_cols, sb_row, sb_col, nr, nc) == empty_mask(),
    decreases nr,
{
    if nr > 0 {
        lemma_mask_rows_empty(mi, mi_rows, mi_cols, sb_row, sb_col, nr - 1, nc);
        lemma_mask_row_same(empty_mask(), mi, mi_rows, mi_cols, sb_row, sb_col, nr - 1, nc);
    }
}

proof fn lemma_mask_row_same(m: MaskModel, mi: Seq<LfMi>, mi_rows: int, mi_cols: int, sb_row: int, sb_col: int, r: int, nc: int)
    requires
        no_filtered_blocks(mi, mi_rows, mi_cols),
        0 <= sb_row + r < mi_rows,
        0 <= sb_col,
        sb_col + nc <= mi_cols,
    ensures
        mask_row(m, mi, mi_cols, sb_row, sb_col, r, nc) == m,
    decreases nc,
{
    if nc > 0 {
        lemma_mask_row_same(m, mi, mi_rows, mi_cols, sb_row, sb_col, r, nc - 1);
        let e = mi_at(mi, mi_cols, sb_row + r, sb_col + nc - 1);
        assert(!e.block_origin || e.level == 0);
    }
}

proof fn lemma_sb_mask_no_edges(mi: Seq<LfMi>, mi_rows: int, mi_cols: int, sb_row: int, sb_col: int)
    requires
        no_filtered_blocks(mi, mi_rows, mi_cols),
        0 <= sb_row,
        0 <= sb_col,
    ensures
        no_edges(spec_sb_mask(mi, mi_rows, mi_cols, sb_row, sb_col)),
{
    let nr = sb_rows_in(sb_row, mi_rows);
    let nc = sb_rows_in(sb_col, mi_cols);
    if nr > 0 && nc > 0 {
        lemma_mask_rows_empty(mi, mi_rows, mi_cols, sb_row, sb_col, nr, nc);
    } else if nr <= 0 {
        assert(mask_rows(mi, mi_cols, sb_row, sb_col, nr, nc) == empty_mask());
    } else {
        lemma_mask_rows_no_cols(mi, mi_cols, sb_row, sb_col, nr, nc);
    }
    assert(no_edges(empty_mask()));
    lemma_adjust_no_edges(
        mask_rows(mi, mi_cols, sb_row, sb_col, nr, nc),
        mi_rows,
        mi_cols,
        sb_row,
        sb_col,
    );
}

proof fn lemma_mask_rows_no_cols(mi: Seq<LfMi>, mi_cols: int, sb_row: int, sb_col: int, nr: int, nc: int)
    requires
        nc <= 0,
    ensures
        mask_rows(mi, mi_cols, sb_row, sb_col, nr, nc) == empty_mask(),
    decreases nr,
{
    if nr > 0 {
        lemma_mask_rows_no_cols(mi, mi_cols, sb_row, sb_col, nr - 1, nc);
    }
}

/// With no filtered block in the grid (every block has level 0 or is not
/// a block origin), deblocking leaves the luma and chroma planes unchanged,
/// whatever the thresholds and however many superblocks are filtered.
pub proof fn law_no_filtered_blocks_is_identity(
    y: Seq<u8>,
    y_stride: int,
    u: Seq<u8>,
    uv_stride: int,
    mi: Seq<LfMi>,
    mi_rows: int,
    mi_cols: int,
    thr: Seq<LoopFilterThresh>,
    t: int,
)
    requires
        no_filtered_blocks(mi, mi_rows, mi_cols),
        1 <= mi_cols,
    ensures
        luma_after(y, y_stride, mi, mi_rows, mi_cols, thr, t) == y,
        chroma_after(u, uv_stride, mi, mi_rows, mi_cols, thr, t) == u,
    decreases t,
{
    if t > 0 {
        law_no_filtered_blocks_is_identity(y, y_stride, u, uv_stride, mi, mi_rows, mi_cols, thr, t - 1);
        let (sb_row, sb_col) = sb_pos(t - 1, mi_cols);
        let sbc = sb_count(mi_cols);
        assert(sbc >= 1);
        assert(0 <= (t - 1) / sbc && 0 <= (t - 1) % sbc);
        assert(sb_row >= 0 && sb_col >= 0);
        lemma_sb_mask_no_edges(mi, mi_rows, mi_cols, sb_row, sb_col);
        let m = spec_sb_mask(mi, mi_rows, mi_cols, sb_row, sb_col);
        let n0 = sb_rows_in(sb_row, mi_rows);
        let n1 = sb_uv_rows_in(sb_row, mi_rows);
        lemma_planes_no_edges(y, y_stride, sb_row * 8 * y_stride + sb_col * 8, sb_row, mi_rows, m, thr, n0);
        lemma_planes_no_edges(u, uv_stride, sb_row * 4 * uv_stride + sb_col * 4, sb_row, mi_rows, m, thr, n1);
    }
}

} // verus!
