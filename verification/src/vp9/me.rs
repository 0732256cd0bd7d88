//! Per-block motion estimation for VP9 inter (SAD, even Q3 MVs): a full-pel
//! window search, then a half-pel refinement around the best candidate. Ties
//! go to the shorter vector (L1 norm), then to the lexicographically smaller.
use vstd::prelude::*;
use crate::vp9::mc::{
    InterpFilter, clampi, plane_ok, predict_inter, spec_inter_pixel, spec_sample, lin,
};
use crate::vp9::mv::Mv;
use crate::vp9::intra::abs_diff;

verus! {

/// Default full-pel search radius (± pels).
pub const DEFAULT_RANGE_PEL: i16 = 8;

/// L1 length of a vector.
pub open spec fn mv_l1(m: Mv) -> int {
    (if m.row < 0 {
        -(m.row as int)
    } else {
        m.row as int
    }) + (if m.col < 0 {
        -(m.col as int)
    } else {
        m.col as int
    })
}

/// `a` is preferred over `b`: shorter, or equally long and lexicographically
/// smaller `(row, col)`.
pub open spec fn spec_mv_prefer(a: Mv, b: Mv) -> bool {
    mv_l1(a) < mv_l1(b) || (mv_l1(a) == mv_l1(b) && (a.row < b.row || (a.row == b.row && a.col
        < b.col)))
}

fn mv_prefer(a: Mv, b: Mv) -> (p: bool)
    ensures
        p == spec_mv_prefer(a, b),
{
    let ar = a.row as i32;
    let ac = a.col as i32;
    let br = b.row as i32;
    let bc = b.col as i32;
    let da = (if ar < 0 {
        -ar
    } else {
        ar
    }) + (if ac < 0 {
        -ac
    } else {
        ac
    });
    let db = (if br < 0 {
        -br
    } else {
        br
    }) + (if bc < 0 {
        -bc
    } else {
        bc
    });
    da < db || (da == db && (a.row < b.row || (a.row == b.row && a.col < b.col)))
}

/// The search inputs: source block at `(x, y)` of size `bw × bh` in `src`
/// (stride `src_stride`), and the reference plane.
pub struct SearchCtx {
    pub src: Seq<u8>,
    pub src_stride: int,
    pub reference: Seq<u8>,
    pub ref_stride: int,
    pub ref_w: int,
    pub ref_h: int,
    pub x: int,
    pub y: int,
    pub bw: int,
    pub bh: int,
}

/// The inputs are consistent and small enough for the `u32` SAD and the
/// `i32` coordinate arithmetic.
pub open spec fn ctx_ok(g: SearchCtx) -> bool {
    &&& plane_ok(g.reference, g.ref_stride, g.ref_w, g.ref_h)
    &&& g.bw >= 1 && g.bh >= 1
    &&& (g.y + g.bh - 1) * g.src_stride + g.x + g.bw <= g.src.len()
    &&& g.src_stride >= g.bw
    &&& 255 * g.bw * g.bh <= u32::MAX
    &&& g.x >= 0 && g.y >= 0
    &&& g.x + g.bw + 4200 <= 0x4000_0000
    &&& g.y + g.bh + 4200 <= 0x4000_0000
    &&& (g.bh + 7) * g.bw <= usize::MAX
}

/// The source sample at row `r`, column `c` of the block.
pub open spec fn src_at(g: SearchCtx, r: int, c: int) -> u8 {
    g.src[(g.y + r) * g.src_stride + g.x + c]
}

/// SAD over the first `n` samples (raster order) of the block against the
/// reference displaced by whole pels `(dy, dx)` with edge clamping.
pub open spec fn sad_fp_partial(g: SearchCtx, dy: int, dx: int, n: int) -> int
    decreases n,
{
    if n <= 0 {
        0
    } else {
        let r = (n - 1) / g.bw;
        let c = (n - 1) % g.bw;
        sad_fp_partial(g, dy, dx, n - 1) + abs_diff(
            src_at(g, r, c),
            spec_sample(g.reference, g.ref_stride, g.ref_w, g.ref_h, g.x + c + dx, g.y + r + dy),
        )
    }
}

/// Full-pel SAD of the block at displacement `(dy, dx)`.
pub open spec fn spec_sad_fullpel(g: SearchCtx, dy: int, dx: int) -> int {
    sad_fp_partial(g, dy, dx, g.bw * g.bh)
}

/// SAD over the first `n` samples against the (sub-pel, 8-tap) prediction
/// under `mv`.
pub open spec fn sad_mv_partial(g: SearchCtx, mv: Mv, n: int) -> int
    decreases n,
{
    if n <= 0 {
        0
    } else {
        let r = (n - 1) / g.bw;
        let c = (n - 1) % g.bw;
        sad_mv_partial(g, mv, n - 1) + abs_diff(
            src_at(g, r, c),
            spec_inter_pixel(
                g.reference,
                g.ref_stride,
                g.ref_w,
                g.ref_h,
                g.x,
                g.y,
                mv.row,
                mv.col,
                false,
                InterpFilter::EightTap,
                r,
                c,
            ),
        )
    }
}

/// SAD of the block under `mv` with EIGHTTAP interpolation.
pub open spec fn spec_sad_mv(g: SearchCtx, mv: Mv) -> int {
    sad_mv_partial(g, mv, g.bw * g.bh)
}

proof fn lemma_partial_bounds(g: SearchCtx, dy: int, dx: int, mv: Mv, n: int)
    ensures
        0 <= sad_fp_partial(g, dy, dx, n) <= 255 * (if n < 0 { 0 } else { n }),
        0 <= sad_mv_partial(g, mv, n) <= 255 * (if n < 0 { 0 } else { n }),
    decreases n,
{
    if n > 0 {
        lemma_partial_bounds(g, dy, dx, mv, n - 1);
    }
}

proof fn lemma_block_index(g: SearchCtx, r: int, c: int)
    requires
        ctx_ok(g),
        0 <= r < g.bh,
        0 <= c < g.bw,
    ensures
        0 <= (g.y + r) * g.src_stride + g.x + c < g.src.len(),
        0 <= r * g.bw + c < g.bw * g.bh,
        (r * g.bw + c) / g.bw == r,
        (r * g.bw + c) % g.bw == c,
{
    assert(0 <= (g.y + r) * g.src_stride + g.x + c < g.src.len()) by (nonlinear_arith)
        requires
            0 <= r < g.bh,
            0 <= c < g.bw,
            g.src_stride >= 0,
            g.y >= 0,
            g.x >= 0,
            (g.y + g.bh - 1) * g.src_stride + g.x + g.bw <= g.src.len(),
    ;
    assert(0 <= r * g.bw + c < g.bw * g.bh) by (nonlinear_arith)
        requires
            0 <= r < g.bh,
            0 <= c < g.bw,
    ;
    assert((r * g.bw + c) / g.bw == r && (r * g.bw + c) % g.bw == c) by (nonlinear_arith)
        requires
            0 <= c < g.bw,
    ;
}

/// The search context of the exec arguments.
pub open spec fn mk_ctx(
    src: Seq<u8>,
    src_stride: usize,
    reference: Seq<u8>,
    ref_stride: usize,
    ref_w: usize,
    ref_h: usize,
    x: usize,
    y: usize,
    bw: usize,
    bh: usize,
) -> SearchCtx {
    SearchCtx {
        src,
        src_stride: src_stride as int,
        reference,
        ref_stride: ref_stride as int,
        ref_w: ref_w as int,
        ref_h: ref_h as int,
        x: x as int,
        y: y as int,
        bw: bw as int,
        bh: bh as int,
    }
}

fn sad_fullpel(
    src: &[u8],
    src_stride: usize,
    reference: &[u8],
    ref_stride: usize,
    ref_w: usize,
    ref_h: usize,
    x: usize,
    y: usize,
    bw: usize,
    bh: usize,
    dy_pel: i16,
    dx_pel: i16,
) -> (s: u32)
    requires
        ctx_ok(mk_ctx(src@, src_stride, reference@, ref_stride, ref_w, ref_h, x, y, bw, bh)),
    ensures
        s == spec_sad_fullpel(
            mk_ctx(src@, src_stride, reference@, ref_stride, ref_w, ref_h, x, y, bw, bh),
            dy_pel as int,
            dx_pel as int,
        ),
{
    let ghost g = mk_ctx(src@, src_stride, reference@, ref_stride, ref_w, ref_h, x, y, bw, bh);
    let slen = src.len();
    let rlen = reference.len();
    let mut sad: u32 = 0;
    let mut r: usize = 0;
    while r < bh
        invariant
            slen == src@.len(),
            rlen == reference@.len(),
            g == mk_ctx(src@, src_stride, reference@, ref_stride, ref_w, ref_h, x, y, bw, bh),
            ctx_ok(g),
            r <= bh,
            sad == sad_fp_partial(g, dy_pel as int, dx_pel as int, r * bw),
        decreases bh - r,
    {
        let mut c: usize = 0;
        while c < bw
            invariant
                slen == src@.len(),
                rlen == reference@.len(),
                g == mk_ctx(src@, src_stride, reference@, ref_stride, ref_w, ref_h, x, y, bw, bh),
                ctx_ok(g),
                r < bh,
                c <= bw,
                sad == sad_fp_partial(g, dy_pel as int, dx_pel as int, r * bw + c),
            decreases bw - c,
        {
            proof {
                lemma_block_index(g, r as int, c as int);
                lemma_partial_bounds(g, dy_pel as int, dx_pel as int, Mv { row: 0, col: 0 }, r * bw + c);
                assert(255 * (r * bw + c) + 255 <= 255 * bw * bh) by (nonlinear_arith)
                    requires
                        r * bw + c < bw * bh,
                ;
            }
            let h1 = ref_h as i32 - 1;
            let w1 = ref_w as i32 - 1;
            let ty = y as i32 + r as i32 + dy_pel as i32;
            let tx = x as i32 + c as i32 + dx_pel as i32;
            let sy = if ty < 0 {
                0
            } else if ty > h1 {
                h1
            } else {
                ty
            };
            let sx = if tx < 0 {
                0
            } else if tx > w1 {
                w1
            } else {
                tx
            };
            proof {
                assert((sy as int) * ref_stride + sx <= (ref_h - 1) * ref_stride + ref_w - 1) by (nonlinear_arith)
                    requires
                        0 <= sy <= ref_h - 1,
                        0 <= sx <= ref_w - 1,
                        ref_stride >= 0,
                ;
            }
            let s = src[(y + r) * src_stride + x + c];
            let p = reference[sy as usize * ref_stride + sx as usize];
            let d: u32 = if s >= p {
                (s - p) as u32
            } else {
                (p - s) as u32
            };
            sad = sad + d;
            c += 1;
        }
        proof {
            assert(r * bw + bw == (r + 1) * bw) by (nonlinear_arith);
        }
        r += 1;
    }
    proof {
        assert(bh * bw == bw * bh) by (nonlinear_arith);
    }
    sad
}

/// SAD of a `bw × bh` block under `mv` (EIGHTTAP when sub-pel).
pub fn sad_mv(
    src: &[u8],
    src_stride: usize,
    reference: &[u8],
    ref_stride: usize,
    ref_w: usize,
    ref_h: usize,
    x: usize,
    y: usize,
    bw: usize,
    bh: usize,
    mv: Mv,
) -> (s: u32)
    requires
        ctx_ok(mk_ctx(src@, src_stride, reference@, ref_stride, ref_w, ref_h, x, y, bw, bh)),
    ensures
        s == spec_sad_mv(mk_ctx(src@, src_stride, reference@, ref_stride, ref_w, ref_h, x, y, bw, bh), mv),
{
    let ghost g = mk_ctx(src@, src_stride, reference@, ref_stride, ref_w, ref_h, x, y, bw, bh);
    proof {
        assert(bw * bh <= (bh + 7) * bw) by (nonlinear_arith)
            requires
                bw >= 1,
        ;
    }
    let mut pred: Vec<u8> = vec![0u8; bw * bh];
    predict_inter(
        reference,
        ref_stride,
        ref_w,
        ref_h,
        x,
        y,
        bw,
        bh,
        mv.row,
        mv.col,
        false,
        InterpFilter::EightTap,
        pred.as_mut_slice(),
    );
    let slen = src.len();
    let mut sad: u32 = 0;
    let mut r: usize = 0;
    while r < bh
        invariant
            slen == src@.len(),
            g == mk_ctx(src@, src_stride, reference@, ref_stride, ref_w, ref_h, x, y, bw, bh),
            ctx_ok(g),
            r <= bh,
            pred@.len() == bw * bh,
            forall|rr: int, cc: int|
                0 <= rr < bh && 0 <= cc < bw ==> #[trigger] pred@[lin(rr, bw as int, cc)] == spec_inter_pixel(
                    reference@, ref_stride as int, ref_w as int, ref_h as int, x as int, y as int,
                    mv.row, mv.col, false, InterpFilter::EightTap, rr, cc),
            sad == sad_mv_partial(g, mv, r * bw),
        decreases bh - r,
    {
        let mut c: usize = 0;
        while c < bw
            invariant
                slen == src@.len(),
                g == mk_ctx(src@, src_stride, reference@, ref_stride, ref_w, ref_h, x, y, bw, bh),
                ctx_ok(g),
                r < bh,
                c <= bw,
                pred@.len() == bw * bh,
                forall|rr: int, cc: int|
                    0 <= rr < bh && 0 <= cc < bw ==> #[trigger] pred@[lin(rr, bw as int, cc)] == spec_inter_pixel(
                        reference@, ref_stride as int, ref_w as int, ref_h as int, x as int, y as int,
                        mv.row, mv.col, false, InterpFilter::EightTap, rr, cc),
                sad == sad_mv_partial(g, mv, r * bw + c),
            decreases bw - c,
        {
            proof {
                lemma_block_index(g, r as int, c as int);
                lemma_partial_bounds(g, 0, 0, mv, r * bw + c);
                assert(255 * (r * bw + c) + 255 <= 255 * bw * bh) by (nonlinear_arith)
                    requires
                        r * bw + c < bw * bh,
                ;
                assert(pred@[lin(r as int, bw as int, c as int)] == spec_inter_pixel(
                    reference@, ref_stride as int, ref_w as int, ref_h as int, x as int, y as int,
                    mv.row, mv.col, false, InterpFilter::EightTap, r as int, c as int));
            }
            let s = src[(y + r) * src_stride + x + c];
            let p = pred[r * bw + c];
            let d: u32 = if s >= p {
                (s - p) as u32
            } else {
                (p - s) as u32
            };
            sad = sad + d;
            c += 1;
        }
        proof {
            assert(r * bw + bw == (r + 1) * bw) by (nonlinear_arith);
        }
        r += 1;
    }
    proof {
        assert(bh * bw == bw * bh) by (nonlinear_arith);
    }
    sad
}

/// `v` saturated into the `i16` range.
pub open spec fn sat16(v: int) -> i16 {
    clampi(v, i16::MIN as int, i16::MAX as int) as i16
}

fn is_odd16(v: i16) -> (b: bool)
    ensures
        b == (v % 2 != 0),
{
    v % 2 != 0
}

fn sat16_exec(v: i32) -> (r: i16)
    ensures
        r == sat16(v as int),
{
    if v < -32768 {
        -32768
    } else if v > 32767 {
        32767
    } else {
        v as i16
    }
}

/// Whether candidate `(cand, sad)` replaces the current best.
pub open spec fn improves(cand: Mv, sad: int, best: (Mv, int)) -> bool {
    sad < best.1 || (sad == best.1 && spec_mv_prefer(cand, best.0))
}

/// Best `(mv, sad)` after the first `n` points of the full-pel window
/// (raster order over `dy`, then `dx`, both in `-range..=range`; `(0, 0)` is
/// the starting point and is not revisited).
pub open spec fn spec_phase1(g: SearchCtx, range: int, n: int) -> (Mv, int)
    decreases n,
{
    if n <= 0 {
        (Mv { row: 0, col: 0 }, spec_sad_fullpel(g, 0, 0))
    } else {
        let st = spec_phase1(g, range, n - 1);
        let w = 2 * range + 1;
        let dy = -range + (n - 1) / w;
        let dx = -range + (n - 1) % w;
        if dy == 0 && dx == 0 {
            st
        } else {
            let cand = Mv { row: sat16(8 * dy), col: sat16(8 * dx) };
            let s = spec_sad_fullpel(g, dy, dx);
            if improves(cand, s, st) {
                (cand, s)
            } else {
                st
            }
        }
    }
}

/// The half-pel refinement offsets, in the order they are tried.
pub open spec fn refine_offset(j: int) -> (int, int) {
    if j == 0 {
        (0, 0)
    } else if j == 1 {
        (0, 4)
    } else if j == 2 {
        (0, -4)
    } else if j == 3 {
        (4, 0)
    } else if j == 4 {
        (-4, 0)
    } else if j == 5 {
        (4, 4)
    } else if j == 6 {
        (4, -4)
    } else if j == 7 {
        (-4, 4)
    } else {
        (-4, -4)
    }
}

/// Best `(mv, sad)` after the first `n` refinement offsets around `base`,
/// starting from `start`; candidates with an odd component, or equal to the
/// current best, are skipped.
pub open spec fn spec_phase2(g: SearchCtx, base: Mv, start: (Mv, int), n: int) -> (Mv, int)
    decreases n,
{
    if n <= 0 {
        start
    } else {
        let st = spec_phase2(g, base, start, n - 1);
        let off = refine_offset(n - 1);
        let cand = Mv { row: sat16(base.row + off.0), col: sat16(base.col + off.1) };
        if cand.row % 2 != 0 || cand.col % 2 != 0 || cand == st.0 {
            st
        } else {
            let s = spec_sad_mv(g, cand);
            if improves(cand, s, st) {
                (cand, s)
            } else {
                st
            }
        }
    }
}

/// The MV chosen by the two-phase search with radius `range_pel` (negative
/// radii act as 0).
pub open spec fn spec_search_mv(g: SearchCtx, range_pel: i16) -> Mv {
    let range = if range_pel < 0 {
        0
    } else {
        range_pel as int
    };
    let w = 2 * range + 1;
    let p1 = spec_phase1(g, range, w * w);
    spec_phase2(g, p1.0, p1, 9).0
}

/// Pick an even-Q3 MV for a `bw × bh` luma block at `(x, y)`.
pub fn search_mv(
    src: &[u8],
    src_stride: usize,
    reference: &[u8],
    ref_stride: usize,
    ref_w: usize,
    ref_h: usize,
    x: usize,
    y: usize,
    bw: usize,
    bh: usize,
    range_pel: i16,
) -> (best: Mv)
    requires
        ctx_ok(mk_ctx(src@, src_stride, reference@, ref_stride, ref_w, ref_h, x, y, bw, bh)),
    ensures
        best == spec_search_mv(
            mk_ctx(src@, src_stride, reference@, ref_stride, ref_w, ref_h, x, y, bw, bh),
            range_pel,
        ),
{
    let ghost g = mk_ctx(src@, src_stride, reference@, ref_stride, ref_w, ref_h, x, y, bw, bh);
    let mut best = Mv { row: 0, col: 0 };
    let mut best_sad = sad_fullpel(
        src, src_stride, reference, ref_stride, ref_w, ref_h, x, y, bw, bh, 0, 0,
    );
    let range: i32 = if range_pel < 0 {
        0
    } else {
        range_pel as i32
    };
    let ghost w = 2 * range + 1;
    let mut dy: i32 = -range;
    while dy <= range
        invariant
            g == mk_ctx(src@, src_stride, reference@, ref_stride, ref_w, ref_h, x, y, bw, bh),
            ctx_ok(g),
            0 <= range <= 32767,
            w == 2 * range + 1,
            -range <= dy <= range + 1,
            (best, best_sad as int) == spec_phase1(g, range as int, (dy + range) * w),
        decreases range + 1 - dy,
    {
        let mut dx: i32 = -range;
        while dx <= range
            invariant
                g == mk_ctx(src@, src_stride, reference@, ref_stride, ref_w, ref_h, x, y, bw, bh),
                ctx_ok(g),
                0 <= range <= 32767,
                w == 2 * range + 1,
                -range <= dy <= range,
                -range <= dx <= range + 1,
                (best, best_sad as int) == spec_phase1(g, range as int, (dy + range) * w + (dx + range)),
            decreases range + 1 - dx,
        {
            let ghost k = (dy + range) * w + (dx + range);
            proof {
                assert(k / w == dy + range && k % w == dx + range) by (nonlinear_arith)
                    requires
                        k == (dy + range) * w + (dx + range),
                        0 <= dx + range < w,
                        w > 0,
                ;
            }
            if !(dx == 0 && dy == 0) {
                let sad = sad_fullpel(
                    src, src_stride, reference, ref_stride, ref_w, ref_h, x, y, bw, bh, dy as i16,
                    dx as i16,
                );
                let cand = Mv { row: sat16_exec(dy * 8), col: sat16_exec(dx * 8) };
                if sad < best_sad || (sad == best_sad && mv_prefer(cand, best)) {
                    best_sad = sad;
                    best = cand;
                }
            }
            dx += 1;
        }
        proof {
            assert((dy + range) * w + (range + 1 + range) == (dy + 1 + range) * w) by (nonlinear_arith)
                requires
                    w == 2 * range + 1,
            ;
        }
        dy += 1;
    }
    let base = best;
    let ghost p1 = (best, best_sad as int);
    let offs: [(i16, i16); 9] = [
        (0, 0),
        (0, 4),
        (0, -4),
        (4, 0),
        (-4, 0),
        (4, 4),
        (4, -4),
        (-4, 4),
        (-4, -4),
    ];
    let mut j: usize = 0;
    while j < 9
        invariant
            g == mk_ctx(src@, src_stride, reference@, ref_stride, ref_w, ref_h, x, y, bw, bh),
            ctx_ok(g),
            j <= 9,
            forall|i: int| 0 <= i < 9 ==> #[trigger] offs[i] == (refine_offset(i).0 as i16, refine_offset(i).1 as i16),
            (best, best_sad as int) == spec_phase2(g, base, p1, j as int),
            p1 == spec_phase1(g, (if range_pel < 0 { 0 } else { range_pel as int }), w * w),
        decreases 9 - j,
    {
        let (dr, dc) = offs[j];
        let cand = Mv {
            row: sat16_exec(base.row as i32 + dr as i32),
            col: sat16_exec(base.col as i32 + dc as i32),
        };
        let ghost st = spec_phase2(g, base, p1, j as int);
        proof {
            assert(offs[j as int] == (refine_offset(j as int).0 as i16, refine_offset(j as int).1 as i16));
            assert(cand == Mv { row: sat16(base.row + refine_offset(j as int).0), col: sat16(base.col + refine_offset(j as int).1) });
        }
        let skip = is_odd16(cand.row) || is_odd16(cand.col) || cand == best;
        if skip {
        } else {
            let sad = sad_mv(src, src_stride, reference, ref_stride, ref_w, ref_h, x, y, bw, bh, cand);
            if sad < best_sad || (sad == best_sad && mv_prefer(cand, best)) {
                best_sad = sad;
                best = cand;
            }
        }
        j += 1;
    }
    best
}

/// Pick an even-Q3 MV for an 8×8 luma block.
pub fn search_mv_8x8(
    src: &[u8],
    src_stride: usize,
    reference: &[u8],
    ref_stride: usize,
    ref_w: usize,
    ref_h: usize,
    x: usize,
    y: usize,
    range_pel: i16,
) -> (best: Mv)
    requires
        ctx_ok(mk_ctx(src@, src_stride, reference@, ref_stride, ref_w, ref_h, x, y, 8, 8)),
    ensures
        best == spec_search_mv(
            mk_ctx(src@, src_stride, reference@, ref_stride, ref_w, ref_h, x, y, 8, 8),
            range_pel,
        ),
{
    search_mv(src, src_stride, reference, ref_stride, ref_w, ref_h, x, y, 8, 8, range_pel)
}


/// Whole-pel motion: the 8-tap SAD equals the clamped-copy SAD.
proof fn lemma_fullpel_sad(g: SearchCtx, dy: int, dx: int, n: int)
    requires
        i16::MIN <= 8 * dy <= i16::MAX,
        i16::MIN <= 8 * dx <= i16::MAX,
    ensures
        sad_mv_partial(g, Mv { row: (8 * dy) as i16, col: (8 * dx) as i16 }, n) == sad_fp_partial(g, dy, dx, n),
    decreases n,
{
    if n > 0 {
        lemma_fullpel_sad(g, dy, dx, n - 1);
        let m = Mv { row: (8 * dy) as i16, col: (8 * dx) as i16 };
        let r = (n - 1) / g.bw;
        let c = (n - 1) % g.bw;
        crate::vp9::mc::law_fullpel_is_copy(
            g.reference,
            g.ref_stride,
            g.ref_w,
            g.ref_h,
            g.x,
            g.y,
            m.row,
            m.col,
            InterpFilter::EightTap,
            r,
            c,
        );
        assert(m.row / 8 == dy && m.col / 8 == dx);
    }
}

/// The full-pel phase keeps the least SAD seen so far, at a whole-pel
/// vector inside the window.
proof fn lemma_phase1(g: SearchCtx, range: int, n: int)
    requires
        0 <= range <= 4095,
        0 <= n <= (2 * range + 1) * (2 * range + 1),
    ensures
        ({
            let st = spec_phase1(g, range, n);
            let w = 2 * range + 1;
            &&& st.0.row % 8 == 0 && st.0.col % 8 == 0
            &&& -8 * range <= st.0.row <= 8 * range
            &&& -8 * range <= st.0.col <= 8 * range
            &&& st.1 == spec_sad_fullpel(g, st.0.row / 8, st.0.col / 8)
            &&& st.1 <= spec_sad_fullpel(g, 0, 0)
            &&& forall|j: int| 0 <= j < n ==> st.1 <= #[trigger] spec_sad_fullpel(g, -range + j / w, -range + j % w)
        }),
    decreases n,
{
    let w = 2 * range + 1;
    if n > 0 {
        lemma_phase1(g, range, n - 1);
        let st = spec_phase1(g, range, n - 1);
        let q = (n - 1) / w;
        let dy = -range + q;
        let dx = -range + (n - 1) % w;
        assert(0 <= (n - 1) % w < w);
        assert(0 <= q < w) by (nonlinear_arith)
            requires
                0 <= n - 1 < w * w,
                w > 0,
                q == (n - 1) / w,
        ;
        assert(-range <= dy <= range && -range <= dx <= range);
        let nx = spec_phase1(g, range, n);
        if !(dy == 0 && dx == 0) {
            let cand = Mv { row: sat16(8 * dy), col: sat16(8 * dx) };
            assert(cand.row == 8 * dy && cand.col == 8 * dx);
            assert(cand.row / 8 == dy && cand.col / 8 == dx);
            let sc = spec_sad_fullpel(g, dy, dx);
            if improves(cand, sc, st) {
                assert(nx == (cand, sc));
                assert(sc <= st.1);
            } else {
                assert(nx == st);
                assert(st.1 <= sc);
            }
        } else {
            assert(nx == st);
        }
        assert forall|j: int| 0 <= j < n implies nx.1 <= #[trigger] spec_sad_fullpel(g, -range + j / w, -range + j % w) by {
            if j < n - 1 {
                assert(st.1 <= spec_sad_fullpel(g, -range + j / w, -range + j % w));
            }
        }
    }
}


/// The half-pel phase never raises the SAD, keeps it equal to the 8-tap
/// SAD of the vector it holds, and only moves to even vectors within 4 of
/// `base`.
proof fn lemma_phase2(g: SearchCtx, base: Mv, start: (Mv, int), bound: int, n: int)
    requires
        0 <= bound <= 8 * 4095,
        -bound <= base.row <= bound,
        -bound <= base.col <= bound,
        start.0.row % 2 == 0 && start.0.col % 2 == 0,
        -(bound + 4) <= start.0.row <= bound + 4,
        -(bound + 4) <= start.0.col <= bound + 4,
        start.1 == spec_sad_mv(g, start.0),
        0 <= n,
    ensures
        ({
            let st = spec_phase2(g, base, start, n);
            &&& st.1 <= start.1
            &&& st.1 == spec_sad_mv(g, st.0)
            &&& st.0.row % 2 == 0 && st.0.col % 2 == 0
            &&& -(bound + 4) <= st.0.row <= bound + 4
            &&& -(bound + 4) <= st.0.col <= bound + 4
        }),
    decreases n,
{
    if n > 0 {
        lemma_phase2(g, base, start, bound, n - 1);
        let st = spec_phase2(g, base, start, n - 1);
        let off = refine_offset(n - 1);
        assert(-4 <= off.0 <= 4 && -4 <= off.1 <= 4);
        let cand = Mv { row: sat16(base.row + off.0), col: sat16(base.col + off.1) };
        assert(cand.row == base.row + off.0 && cand.col == base.col + off.1);
    }
}

/// The search radius: negative radii act as 0.
pub open spec fn search_radius(range_pel: i16) -> int {
    if range_pel < 0 {
        0
    } else {
        range_pel as int
    }
}

/// The vector the search picks has even components within `8R + 4` of
/// zero, and its SAD (8-tap, as `sad_mv` measures it) is no larger than
/// that of any whole-pel vector `(8·dy, 8·dx)` of the `±R` window, `R` being
/// the search radius; a whole-pel vector's SAD is the plain clamped-copy
/// SAD.
pub proof fn law_search_mv_optimal(g: SearchCtx, range_pel: i16, dy: int, dx: int)
    requires
        range_pel <= 4095,
        -search_radius(range_pel) <= dy <= search_radius(range_pel),
        -search_radius(range_pel) <= dx <= search_radius(range_pel),
    ensures
        ({
            let m = spec_search_mv(g, range_pel);
            let b = 8 * search_radius(range_pel) + 4;
            &&& m.row % 2 == 0 && m.col % 2 == 0
            &&& -b <= m.row <= b
            &&& -b <= m.col <= b
            &&& spec_sad_mv(g, m) <= spec_sad_mv(g, Mv { row: (8 * dy) as i16, col: (8 * dx) as i16 })
            &&& spec_sad_mv(g, Mv { row: (8 * dy) as i16, col: (8 * dx) as i16 }) == spec_sad_fullpel(g, dy, dx)
        }),
{
    let r = search_radius(range_pel);
    let w = 2 * r + 1;
    let p1 = spec_phase1(g, r, w * w);
    lemma_phase1(g, r, w * w);
    let j = (dy + r) * w + (dx + r);
    assert(0 <= j < w * w) by (nonlinear_arith)
        requires
            0 <= dy + r < w,
            0 <= dx + r < w,
            j == (dy + r) * w + (dx + r),
    ;
    vstd::arithmetic::div_mod::lemma_fundamental_div_mod_converse(j, w, dy + r, dx + r);
    assert(p1.1 <= spec_sad_fullpel(g, -r + j / w, -r + j % w));
    lemma_fullpel_sad(g, dy, dx, g.bw * g.bh);
    let py = p1.0.row / 8;
    let px = p1.0.col / 8;
    lemma_fullpel_sad(g, py, px, g.bw * g.bh);
    assert(Mv { row: (8 * py) as i16, col: (8 * px) as i16 } == p1.0);
    lemma_phase2(g, p1.0, p1, 8 * r, 9);
}

} // verus!
