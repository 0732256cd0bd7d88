//! Choice of reference frame(s), inter mode and motion vector(s) for one
//! block: each available reference is motion-searched, the searched vector
//! is coded with the cheapest mode, and the lowest luma SAD wins.
use vstd::prelude::*;
use crate::vp9::encoder::Reconstruction;
use crate::vp9::intra::abs_diff;
use crate::vp9::inter::{
    RefMode, avg2, avg_bytes, compound_ok, pick_inter_mode, sad_compound, sad_compound_partial,
    spec_pick_inter_mode,
};
use crate::vp9::mc::{InterpFilter, lin, plane_ok, predict_inter, spec_inter_pixel};
use crate::vp9::skip_frame::lemma_plane_index;
use crate::vp9::me::{DEFAULT_RANGE_PEL, SearchCtx, ctx_ok, mk_ctx, sad_mv, search_mv, spec_sad_mv, spec_search_mv};
use crate::vp9::mi_context::{MiGrid, MiGridView, MvSearch, mvs_negatable, spec_mv_ref_neighbors, spec_ref_mvs};
use crate::vp9::mv::Mv;
use crate::vp9::tables::{
    ALTREF_FRAME, GOLDEN_FRAME, INTRA_FRAME, LAST_FRAME, NEARESTMV, NEARMV, NEWMV, PARTITION_HORZ, PARTITION_NONE,
    PARTITION_SPLIT, PARTITION_VERT, ZEROMV,
};

verus! {

/// The references, mode and vectors chosen for a block; `second_ref` is
/// `INTRA_FRAME` for a single-reference block.
#[derive(Clone, Copy, Debug, PartialEq, Eq, Structural)]
pub struct InterPick {
    pub mv: Mv,
    pub mv1: Mv,
    pub mode: i8,
    pub ref_frame: i8,
    pub second_ref: i8,
}

/// Search inputs for a `bw × bh` luma block at `(px, py)` of a `w × h`
/// frame against the reference luma `ref_y`.
pub open spec fn luma_ctx(
    src_y: Seq<u8>,
    ref_y: Seq<u8>,
    w: usize,
    h: usize,
    px: usize,
    py: usize,
    bw: usize,
    bh: usize,
) -> SearchCtx {
    mk_ctx(src_y, w, ref_y, w, w, h, px, py, bw, bh)
}

/// The block whose reference vectors are looked up.
pub open spec fn mv_query(mi_row: usize, mi_col: usize, bw_px: u32, bh_px: u32) -> MvSearch {
    MvSearch { row: mi_row as int, col: mi_col as int, bw_mi: (bw_px / 8) as int, bh_mi: (bh_px / 8) as int }
}

/// Single-reference candidate: the searched vector coded with the
/// cheapest mode against the reference's nearest/near vectors, and its SAD.
pub open spec fn single_cand(g: MiGridView, q: MvSearch, nbrs: Seq<(i32, i32)>, c: SearchCtx, ref_frame: i8) -> (
    InterPick,
    int,
) {
    let (nearest, near) = spec_ref_mvs(g, q, nbrs, ref_frame);
    let (mv, mode) = spec_pick_inter_mode(spec_search_mv(c, DEFAULT_RANGE_PEL), nearest, near);
    (InterPick { mv, mv1: Mv { row: 0, col: 0 }, mode, ref_frame, second_ref: INTRA_FRAME }, spec_sad_mv(c, mv))
}

/// One compound candidate (`var_ref` + ALTREF) with its averaged SAD.
pub open spec fn comp_entry(c: SearchCtx, alt_y: Seq<u8>, mv0: Mv, mv1: Mv, mode: i8, var_ref: i8) -> (InterPick, int) {
    (
        InterPick { mv: mv0, mv1, mode, ref_frame: var_ref, second_ref: ALTREF_FRAME },
        sad_compound_partial(c, alt_y, c.src_stride, mv0, mv1, c.bw * c.bh),
    )
}

/// `b` replaces `a` only when strictly cheaper.
pub open spec fn cheaper(a: (InterPick, int), b: (InterPick, int)) -> (InterPick, int) {
    if b.1 < a.1 {
        b
    } else {
        a
    }
}

/// Best compound candidate with `var_ref` as the first reference and ALTREF
/// as the second: ZEROMV, NEARESTMV, NEARMV, then both searched vectors as
/// NEWMV; the first of the cheapest wins.
pub open spec fn comp_cand(
    g: MiGridView,
    q: MvSearch,
    nbrs: Seq<(i32, i32)>,
    c: SearchCtx,
    ca: SearchCtx,
    var_ref: i8,
) -> (InterPick, int) {
    let (n0, near0) = spec_ref_mvs(g, q, nbrs, var_ref);
    let (n1, near1) = spec_ref_mvs(g, q, nbrs, ALTREF_FRAME);
    let s0 = spec_search_mv(c, DEFAULT_RANGE_PEL);
    let s1 = spec_search_mv(ca, DEFAULT_RANGE_PEL);
    let zero = Mv { row: 0, col: 0 };
    let b0 = comp_entry(c, ca.reference, zero, zero, ZEROMV, var_ref);
    let b1 = cheaper(b0, comp_entry(c, ca.reference, n0, n1, NEARESTMV, var_ref));
    let b2 = cheaper(b1, comp_entry(c, ca.reference, near0, near1, NEARMV, var_ref));
    cheaper(b2, comp_entry(c, ca.reference, s0, s1, NEWMV, var_ref))
}

/// `b` replaces `a` when no more expensive.
pub open spec fn no_worse(a: (InterPick, int), b: (InterPick, int)) -> (InterPick, int) {
    if b.1 <= a.1 {
        b
    } else {
        a
    }
}

/// The pick for a block. Single references are tried LAST, GOLDEN, ALTREF
/// (a later one wins ties). Compound mode tries LAST + ALTREF then
/// GOLDEN + ALTREF (strictly cheaper wins); select mode also tries them
/// and takes one only when strictly cheaper than the best single pick.
pub open spec fn spec_pick_ref_and_mode(
    g: MiGridView,
    q: MvSearch,
    nbrs: Seq<(i32, i32)>,
    src_y: Seq<u8>,
    last: Seq<u8>,
    golden: Option<Seq<u8>>,
    altref: Option<Seq<u8>>,
    ref_mode: RefMode,
    w: usize,
    h: usize,
    px: usize,
    py: usize,
    bw: usize,
    bh: usize,
) -> InterPick {
    let ctx = |r: Seq<u8>| luma_ctx(src_y, r, w, h, px, py, bw, bh);
    let s0 = single_cand(g, q, nbrs, ctx(last), LAST_FRAME);
    let s1 = match golden {
        Some(gy) => no_worse(s0, single_cand(g, q, nbrs, ctx(gy), GOLDEN_FRAME)),
        None => s0,
    };
    let single = match altref {
        Some(ay) => no_worse(s1, single_cand(g, q, nbrs, ctx(ay), ALTREF_FRAME)),
        None => s1,
    };
    match altref {
        Some(ay) => {
            let lc = comp_cand(g, q, nbrs, ctx(last), ctx(ay), LAST_FRAME);
            if ref_mode == RefMode::Compound {
                match golden {
                    Some(gy) => cheaper(lc, comp_cand(g, q, nbrs, ctx(gy), ctx(ay), GOLDEN_FRAME)).0,
                    None => lc.0,
                }
            } else if ref_mode == RefMode::Select {
                let b = cheaper(single, lc);
                match golden {
                    Some(gy) => cheaper(b, comp_cand(g, q, nbrs, ctx(gy), ctx(ay), GOLDEN_FRAME)).0,
                    None => b.0,
                }
            } else {
                single.0
            }
        },
        None => single.0,
    }
}

/// What the pick reads of the mode-info grid: a valid grid and a block
/// inside its reach.
pub open spec fn grid_query_ok(g: MiGridView, mi_row: usize, mi_col: usize, bw_px: u32, bh_px: u32) -> bool {
    &&& g.wf()
    &&& mvs_negatable(g)
    &&& mi_row <= 0x10_0000
    &&& mi_col <= 0x10_0000
    &&& bw_px / 8 <= g.mi_cols + 4
    &&& bh_px / 8 <= g.mi_rows + 4
}

/// Both references searchable for the same block give a valid compound
/// prediction.
proof fn lemma_compound_ok(c: SearchCtx, ca: SearchCtx)
    requires
        ctx_ok(c),
        ctx_ok(ca),
        ca == (SearchCtx { reference: ca.reference, ..c }),
        c.ref_stride == c.src_stride,
    ensures
        compound_ok(c, ca.reference, c.src_stride),
{
    assert(255 * c.bw * c.bh <= u64::MAX);
}

/// Search one reference and code the found vector with the cheapest mode.
fn try_single(
    grid: &MiGrid,
    src_y: &[u8],
    recon: &Reconstruction,
    ref_frame: i8,
    mi_row: usize,
    mi_col: usize,
    bw_px: u32,
    bh_px: u32,
    px: usize,
    py: usize,
    bw: usize,
    bh: usize,
    w: usize,
    h: usize,
) -> (r: (InterPick, u64))
    requires
        grid_query_ok(grid@, mi_row, mi_col, bw_px, bh_px),
        ctx_ok(luma_ctx(src_y@, recon.y@, w, h, px, py, bw, bh)),
    ensures
        (r.0, r.1 as int) == single_cand(
            grid@,
            mv_query(mi_row, mi_col, bw_px, bh_px),
            spec_mv_ref_neighbors(bw_px, bh_px),
            luma_ctx(src_y@, recon.y@, w, h, px, py, bw, bh),
            ref_frame,
        ),
{
    let (nearest, near) = grid.ref_mvs(mi_row, mi_col, bw_px, bh_px, ref_frame);
    let searched = search_mv(src_y, w, recon.y.as_slice(), w, w, h, px, py, bw, bh, DEFAULT_RANGE_PEL);
    let (mv, mode) = pick_inter_mode(searched, nearest, near);
    let sad = sad_mv(src_y, w, recon.y.as_slice(), w, w, h, px, py, bw, bh, mv);
    (InterPick { mv, mv1: Mv { row: 0, col: 0 }, mode, ref_frame, second_ref: INTRA_FRAME }, sad as u64)
}

/// Score one compound candidate.
fn comp_score(
    src_y: &[u8],
    var_y: &[u8],
    alt_y: &[u8],
    w: usize,
    h: usize,
    px: usize,
    py: usize,
    bw: usize,
    bh: usize,
    mv0: Mv,
    mv1: Mv,
    mode: i8,
    var_ref: i8,
) -> (r: (InterPick, u64))
    requires
        compound_ok(luma_ctx(src_y@, var_y@, w, h, px, py, bw, bh), alt_y@, w as int),
    ensures
        (r.0, r.1 as int) == comp_entry(luma_ctx(src_y@, var_y@, w, h, px, py, bw, bh), alt_y@, mv0, mv1, mode, var_ref),
{
    let sad = sad_compound(src_y, w, var_y, w, alt_y, w, w, h, px, py, bw, bh, mv0, mv1);
    (InterPick { mv: mv0, mv1, mode, ref_frame: var_ref, second_ref: ALTREF_FRAME }, sad)
}

/// Keep `best` unless `cand` is strictly cheaper.
fn keep_cheaper(best: (InterPick, u64), cand: (InterPick, u64)) -> (r: (InterPick, u64))
    ensures
        (r.0, r.1 as int) == cheaper((best.0, best.1 as int), (cand.0, cand.1 as int)),
{
    if cand.1 < best.1 {
        cand
    } else {
        best
    }
}

/// Best compound pick with `var_recon` (as `var_ref`) and ALTREF.
fn try_compound(
    grid: &MiGrid,
    src_y: &[u8],
    var_recon: &Reconstruction,
    alt: &Reconstruction,
    var_ref: i8,
    mi_row: usize,
    mi_col: usize,
    bw_px: u32,
    bh_px: u32,
    px: usize,
    py: usize,
    bw: usize,
    bh: usize,
    w: usize,
    h: usize,
) -> (r: (InterPick, u64))
    requires
        grid_query_ok(grid@, mi_row, mi_col, bw_px, bh_px),
        ctx_ok(luma_ctx(src_y@, var_recon.y@, w, h, px, py, bw, bh)),
        ctx_ok(luma_ctx(src_y@, alt.y@, w, h, px, py, bw, bh)),
    ensures
        (r.0, r.1 as int) == comp_cand(
            grid@,
            mv_query(mi_row, mi_col, bw_px, bh_px),
            spec_mv_ref_neighbors(bw_px, bh_px),
            luma_ctx(src_y@, var_recon.y@, w, h, px, py, bw, bh),
            luma_ctx(src_y@, alt.y@, w, h, px, py, bw, bh),
            var_ref,
        ),
{
    proof {
        lemma_compound_ok(
            luma_ctx(src_y@, var_recon.y@, w, h, px, py, bw, bh),
            luma_ctx(src_y@, alt.y@, w, h, px, py, bw, bh),
        );
    }
    let (n0, near0) = grid.ref_mvs(mi_row, mi_col, bw_px, bh_px, var_ref);
    let (n1, near1) = grid.ref_mvs(mi_row, mi_col, bw_px, bh_px, ALTREF_FRAME);
    let s0 = search_mv(src_y, w, var_recon.y.as_slice(), w, w, h, px, py, bw, bh, DEFAULT_RANGE_PEL);
    let s1 = search_mv(src_y, w, alt.y.as_slice(), w, w, h, px, py, bw, bh, DEFAULT_RANGE_PEL);
    let var_y = var_recon.y.as_slice();
    let alt_y = alt.y.as_slice();
    let zero = Mv { row: 0, col: 0 };
    let b = comp_score(src_y, var_y, alt_y, w, h, px, py, bw, bh, zero, zero, ZEROMV, var_ref);
    let c = comp_score(src_y, var_y, alt_y, w, h, px, py, bw, bh, n0, n1, NEARESTMV, var_ref);
    let b = keep_cheaper(b, c);
    let c = comp_score(src_y, var_y, alt_y, w, h, px, py, bw, bh, near0, near1, NEARMV, var_ref);
    let b = keep_cheaper(b, c);
    let c = comp_score(src_y, var_y, alt_y, w, h, px, py, bw, bh, s0, s1, NEWMV, var_ref);
    keep_cheaper(b, c)
}

/// The luma view of an optional reference.
pub open spec fn opt_luma(r: Option<&Reconstruction>) -> Option<Seq<u8>> {
    match r {
        Some(x) => Some(x.y@),
        None => None,
    }
}

/// Every reference present can be searched for the block.
pub open spec fn refs_searchable(
    src_y: Seq<u8>,
    last: &Reconstruction,
    golden: Option<&Reconstruction>,
    altref: Option<&Reconstruction>,
    w: usize,
    h: usize,
    px: usize,
    py: usize,
    bw: usize,
    bh: usize,
) -> bool {
    &&& ctx_ok(luma_ctx(src_y, last.y@, w, h, px, py, bw, bh))
    &&& (golden matches Some(gr) ==> ctx_ok(luma_ctx(src_y, gr.y@, w, h, px, py, bw, bh)))
    &&& (altref matches Some(ar) ==> ctx_ok(luma_ctx(src_y, ar.y@, w, h, px, py, bw, bh)))
}

/// Choose the reference(s), mode and vector(s) of the `bw × bh` block at
/// pixel `(px, py)` (MI `(mi_row, mi_col)`, `bw_px × bh_px`) of a `w × h`
/// frame with luma `src_y`; compound mode needs an ALTREF.
pub fn pick_ref_and_mode(
    grid: &MiGrid,
    src_y: &[u8],
    last: &Reconstruction,
    golden: Option<&Reconstruction>,
    altref: Option<&Reconstruction>,
    ref_mode: RefMode,
    mi_row: usize,
    mi_col: usize,
    bw_px: u32,
    bh_px: u32,
    px: usize,
    py: usize,
    bw: usize,
    bh: usize,
    w: usize,
    h: usize,
) -> (p: InterPick)
    requires
        grid_query_ok(grid@, mi_row, mi_col, bw_px, bh_px),
        refs_searchable(src_y@, last, golden, altref, w, h, px, py, bw, bh),
        ref_mode == RefMode::Compound ==> altref is Some,
    ensures
        p == spec_pick_ref_and_mode(
            grid@,
            mv_query(mi_row, mi_col, bw_px, bh_px),
            spec_mv_ref_neighbors(bw_px, bh_px),
            src_y@,
            last.y@,
            opt_luma(golden),
            opt_luma(altref),
            ref_mode,
            w,
            h,
            px,
            py,
            bw,
            bh,
        ),
{
    if ref_mode == RefMode::Compound {
        if let Some(ar) = altref {
            let mut b = try_compound(grid, src_y, last, ar, LAST_FRAME, mi_row, mi_col, bw_px, bh_px, px, py, bw, bh, w, h);
            if let Some(gr) = golden {
                let gold_c = try_compound(grid, src_y, gr, ar, GOLDEN_FRAME, mi_row, mi_col, bw_px, bh_px, px, py, bw, bh, w, h);
                b = keep_cheaper(b, gold_c);
            }
            return b.0;
        }
    }
    let mut best = try_single(grid, src_y, last, LAST_FRAME, mi_row, mi_col, bw_px, bh_px, px, py, bw, bh, w, h);
    if let Some(gr) = golden {
        let gold = try_single(grid, src_y, gr, GOLDEN_FRAME, mi_row, mi_col, bw_px, bh_px, px, py, bw, bh, w, h);
        if gold.1 <= best.1 {
            best = gold;
        }
    }
    if let Some(ar) = altref {
        let alt = try_single(grid, src_y, ar, ALTREF_FRAME, mi_row, mi_col, bw_px, bh_px, px, py, bw, bh, w, h);
        if alt.1 <= best.1 {
            best = alt;
        }
    }
    if ref_mode == RefMode::Select {
        if let Some(ar) = altref {
            let last_c = try_compound(grid, src_y, last, ar, LAST_FRAME, mi_row, mi_col, bw_px, bh_px, px, py, bw, bh, w, h);
            best = keep_cheaper(best, last_c);
            if let Some(gr) = golden {
                let gold_c = try_compound(grid, src_y, gr, ar, GOLDEN_FRAME, mi_row, mi_col, bw_px, bh_px, px, py, bw, bh, w, h);
                best = keep_cheaper(best, gold_c);
            }
        }
    }
    best.0
}

/// The reconstruction a reference frame is predicted from: GOLDEN and
/// ALTREF fall back to LAST when absent.
pub fn recon_for<'a>(
    last: &'a Reconstruction,
    golden: Option<&'a Reconstruction>,
    altref: Option<&'a Reconstruction>,
    ref_frame: i8,
) -> (r: &'a Reconstruction)
    ensures
        r == (if ref_frame == GOLDEN_FRAME {
            match golden {
                Some(g) => g,
                None => last,
            }
        } else if ref_frame == ALTREF_FRAME {
            match altref {
                Some(a) => a,
                None => last,
            }
        } else {
            last
        }),
{
    if ref_frame == GOLDEN_FRAME {
        match golden {
            Some(g) => g,
            None => last,
        }
    } else if ref_frame == ALTREF_FRAME {
        match altref {
            Some(a) => a,
            None => last,
        }
    } else {
        last
    }
}

/// SAD of the `bw`-wide block at `(x, y)` of `src` (stride `stride`)
/// against the first `n` samples of the raster prediction `pred`.
pub open spec fn pred_sad(src: Seq<u8>, stride: int, x: int, y: int, bw: int, pred: Seq<u8>, n: int) -> int
    decreases n,
{
    if n <= 0 {
        0
    } else {
        let r = (n - 1) / bw;
        let c = (n - 1) % bw;
        pred_sad(src, stride, x, y, bw, pred, n - 1) + abs_diff(src[(y + r) * stride + x + c], pred[n - 1])
    }
}

proof fn lemma_pred_sad_bound(src: Seq<u8>, stride: int, x: int, y: int, bw: int, pred: Seq<u8>, n: int)
    ensures
        0 <= pred_sad(src, stride, x, y, bw, pred, n) <= 255 * (if n < 0 {
            0
        } else {
            n
        }),
    decreases n,
{
    if n > 0 {
        lemma_pred_sad_bound(src, stride, x, y, bw, pred, n - 1);
    }
}

/// SAD of a source block against a raster prediction of its size.
fn block_sad(src: &[u8], stride: usize, x: usize, y: usize, bw: usize, bh: usize, pred: &Vec<u8>) -> (s: u32)
    requires
        bw >= 1,
        pred@.len() == bw * bh,
        stride >= bw,
        (y + bh - 1) * stride + x + bw <= src@.len() || bh == 0,
        255 * bw * bh <= u32::MAX,
    ensures
        s == pred_sad(src@, stride as int, x as int, y as int, bw as int, pred@, bw * bh),
{
    let slen = src.len();
    let mut sad: u32 = 0;
    let mut r: usize = 0;
    while r < bh
        invariant
            slen == src@.len(),
            bw >= 1,
            r <= bh,
            pred@.len() == bw * bh,
            stride >= bw,
            (y + bh - 1) * stride + x + bw <= src@.len() || bh == 0,
            255 * bw * bh <= u32::MAX,
            sad == pred_sad(src@, stride as int, x as int, y as int, bw as int, pred@, r * bw),
        decreases bh - r,
    {
        let mut c: usize = 0;
        while c < bw
            invariant
                slen == src@.len(),
                bw >= 1,
                r < bh,
                c <= bw,
                pred@.len() == bw * bh,
                stride >= bw,
                (y + bh - 1) * stride + x + bw <= src@.len(),
                255 * bw * bh <= u32::MAX,
                sad == pred_sad(src@, stride as int, x as int, y as int, bw as int, pred@, r * bw + c),
            decreases bw - c,
        {
            proof {
                let n = r * bw + c;
                assert(0 <= (y + r) * stride + x + c < src@.len()) by (nonlinear_arith)
                    requires
                        r < bh,
                        c < bw,
                        (y + bh - 1) * stride + x + bw <= src@.len(),
                ;
                assert(y + r <= (y + r) * stride) by (nonlinear_arith)
                    requires
                        stride >= 1,
                ;
                assert(0 <= n < bw * bh) by (nonlinear_arith)
                    requires
                        n == r * bw + c,
                        r < bh,
                        c < bw,
                ;
                assert((n + 1 - 1) / (bw as int) == r && (n + 1 - 1) % (bw as int) == c) by (nonlinear_arith)
                    requires
                        n == r * bw + c,
                        0 <= c < bw,
                ;
                lemma_pred_sad_bound(src@, stride as int, x as int, y as int, bw as int, pred@, n as int);
                assert(255 * n + 255 <= 255 * bw * bh) by (nonlinear_arith)
                    requires
                        n < bw * bh,
                ;
            }
            let s = src[(y + r) * stride + x + c];
            let p = pred[r * bw + c];
            let d: u32 = if s >= p {
                (s - p) as u32
            } else {
                (p - s) as u32
            };
            sad = sad + d;
            c += 1;
        }
        proof {
            assert(r * bw + bw == (r + 1) * bw) by (nonlinear_arith);
        }
        r += 1;
    }
    assert(r * bw == bw * bh) by (nonlinear_arith)
        requires
            r == bh,
    ;
    sad
}

/// The luma prediction of a `bw × bh` block at `(px, py)` of a `w × h`
/// frame with filter `f`: from `ref0` under `mv`, averaged with `ref1`
/// under `mv1` when compound.
pub open spec fn filter_pred(
    ref0: Seq<u8>,
    ref1: Seq<u8>,
    w: int,
    h: int,
    px: int,
    py: int,
    bw: int,
    bh: int,
    mv: Mv,
    mv1: Mv,
    compound: bool,
    f: InterpFilter,
) -> Seq<u8> {
    Seq::new(
        (bw * bh) as nat,
        |k: int|
            {
                let a = spec_inter_pixel(ref0, w, w, h, px, py, mv.row, mv.col, false, f, k / bw, k % bw);
                if compound {
                    avg2(a, spec_inter_pixel(ref1, w, w, h, px, py, mv1.row, mv1.col, false, f, k / bw, k % bw))
                } else {
                    a
                }
            },
    )
}

fn predict_block(
    ref0: &[u8],
    ref1: &[u8],
    w: usize,
    h: usize,
    px: usize,
    py: usize,
    bw: usize,
    bh: usize,
    mv: Mv,
    mv1: Mv,
    compound: bool,
    f: InterpFilter,
) -> (pred: Vec<u8>)
    requires
        bw >= 1,
        plane_ok(ref0@, w as int, w as int, h as int),
        compound ==> plane_ok(ref1@, w as int, w as int, h as int),
        px + bw + 4200 <= 0x4000_0000,
        py + bh + 4200 <= 0x4000_0000,
        (bh + 7) * bw <= usize::MAX,
    ensures
        pred@ == filter_pred(ref0@, ref1@, w as int, h as int, px as int, py as int, bw as int, bh as int, mv, mv1, compound, f),
{
    assert(bw * bh <= (bh + 7) * bw) by (nonlinear_arith);
    let n = bw * bh;
    let mut pred = vec![0u8; n];
    if compound {
        let mut a = vec![0u8; n];
        let mut b = vec![0u8; n];
        predict_inter(ref0, w, w, h, px, py, bw, bh, mv.row, mv.col, false, f, a.as_mut_slice());
        predict_inter(ref1, w, w, h, px, py, bw, bh, mv1.row, mv1.col, false, f, b.as_mut_slice());
        avg_bytes(a.as_slice(), b.as_slice(), pred.as_mut_slice());
        assert forall|k: int| 0 <= k < n implies pred@[k] == filter_pred(
            ref0@, ref1@, w as int, h as int, px as int, py as int, bw as int, bh as int, mv, mv1, compound, f)[k] by {
            lemma_plane_index(k, bw as int, bh as int);
            assert(a@[lin(k / bw as int, bw as int, k % bw as int)] == spec_inter_pixel(
                ref0@, w as int, w as int, h as int, px as int, py as int, mv.row, mv.col, false, f, k / bw as int, k % bw as int));
            assert(b@[lin(k / bw as int, bw as int, k % bw as int)] == spec_inter_pixel(
                ref1@, w as int, w as int, h as int, px as int, py as int, mv1.row, mv1.col, false, f, k / bw as int, k % bw as int));
        }
    } else {
        predict_inter(ref0, w, w, h, px, py, bw, bh, mv.row, mv.col, false, f, pred.as_mut_slice());
        assert forall|k: int| 0 <= k < n implies pred@[k] == filter_pred(
            ref0@, ref1@, w as int, h as int, px as int, py as int, bw as int, bh as int, mv, mv1, compound, f)[k] by {
            lemma_plane_index(k, bw as int, bh as int);
            assert(pred@[lin(k / bw as int, bw as int, k % bw as int)] == spec_inter_pixel(
                ref0@, w as int, w as int, h as int, px as int, py as int, mv.row, mv.col, false, f, k / bw as int, k % bw as int));
        }
    }
    assert(pred@ =~= filter_pred(ref0@, ref1@, w as int, h as int, px as int, py as int, bw as int, bh as int, mv, mv1, compound, f));
    pred
}

/// Whether either vector of the block points between whole pels.
pub open spec fn is_subpel(mv: Mv, mv1: Mv, compound: bool) -> bool {
    (mv.row & 7) != 0 || (mv.col & 7) != 0 || (compound && ((mv1.row & 7) != 0 || (mv1.col & 7) != 0))
}

/// The luma SAD of the block under filter `f`.
pub open spec fn filter_sad(
    src_y: Seq<u8>,
    ref0: Seq<u8>,
    ref1: Seq<u8>,
    w: int,
    h: int,
    px: int,
    py: int,
    bw: int,
    bh: int,
    mv: Mv,
    mv1: Mv,
    compound: bool,
    f: InterpFilter,
) -> int {
    pred_sad(src_y, w, px, py, bw, filter_pred(ref0, ref1, w, h, px, py, bw, bh, mv, mv1, compound, f), bw * bh)
}

/// The filter of a block: EIGHTTAP for whole-pel vectors, else the
/// cheapest of EIGHTTAP, SMOOTH and SHARP by luma SAD (the earlier on ties).
pub open spec fn spec_pick_interp_filter(
    src_y: Seq<u8>,
    ref0: Seq<u8>,
    ref1: Seq<u8>,
    w: int,
    h: int,
    px: int,
    py: int,
    bw: int,
    bh: int,
    mv: Mv,
    mv1: Mv,
    compound: bool,
) -> InterpFilter {
    if !is_subpel(mv, mv1, compound) {
        InterpFilter::EightTap
    } else {
        let s0 = filter_sad(src_y, ref0, ref1, w, h, px, py, bw, bh, mv, mv1, compound, InterpFilter::EightTap);
        let s1 = filter_sad(src_y, ref0, ref1, w, h, px, py, bw, bh, mv, mv1, compound, InterpFilter::EightTapSmooth);
        let s2 = filter_sad(src_y, ref0, ref1, w, h, px, py, bw, bh, mv, mv1, compound, InterpFilter::EightTapSharp);
        let (b1, m1) = if s1 < s0 {
            (InterpFilter::EightTapSmooth, s1)
        } else {
            (InterpFilter::EightTap, s0)
        };
        if s2 < m1 {
            InterpFilter::EightTapSharp
        } else {
            b1
        }
    }
}

/// Pick the interpolation filter of the `bw × bh` block at `(px, py)` of a
/// `w × h` frame predicted from `ref_frame` (and `second_ref` when
/// compound) under `mv` (and `mv1`).
pub fn pick_interp_filter(
    src_y: &[u8],
    last: &Reconstruction,
    golden: Option<&Reconstruction>,
    altref: Option<&Reconstruction>,
    px: usize,
    py: usize,
    bw: usize,
    bh: usize,
    w: usize,
    h: usize,
    mv: Mv,
    mv1: Mv,
    ref_frame: i8,
    second_ref: i8,
) -> (f: InterpFilter)
    requires
        is_subpel(mv, mv1, second_ref > INTRA_FRAME) ==> ctx_ok(
            luma_ctx(src_y@, recon_of(last, golden, altref, ref_frame).y@, w, h, px, py, bw, bh),
        ),
        is_subpel(mv, mv1, second_ref > INTRA_FRAME) && second_ref > INTRA_FRAME ==> ctx_ok(
            luma_ctx(src_y@, recon_of(last, golden, altref, second_ref).y@, w, h, px, py, bw, bh),
        ),
    ensures
        f == spec_pick_interp_filter(
            src_y@,
            recon_of(last, golden, altref, ref_frame).y@,
            recon_of(last, golden, altref, second_ref).y@,
            w as int,
            h as int,
            px as int,
            py as int,
            bw as int,
            bh as int,
            mv,
            mv1,
            second_ref > INTRA_FRAME,
        ),
{
    let compound = second_ref > INTRA_FRAME;
    let subpel = (mv.row & 7) != 0 || (mv.col & 7) != 0 || (compound && ((mv1.row & 7) != 0 || (mv1.col & 7) != 0));
    if !subpel {
        return InterpFilter::EightTap;
    }
    let ref0 = recon_for(last, golden, altref, ref_frame);
    let ref1 = recon_for(last, golden, altref, second_ref);
    let mut best = InterpFilter::EightTap;
    let mut best_sad = u32::MAX;
    let s0 = sad_for_filter(src_y, ref0, ref1, px, py, bw, bh, w, h, mv, mv1, compound, InterpFilter::EightTap);
    if s0 < best_sad || (s0 == best_sad && filter_rank(InterpFilter::EightTap) < filter_rank(best)) {
        best_sad = s0;
        best = InterpFilter::EightTap;
    }
    let s1 = sad_for_filter(src_y, ref0, ref1, px, py, bw, bh, w, h, mv, mv1, compound, InterpFilter::EightTapSmooth);
    if s1 < best_sad || (s1 == best_sad && filter_rank(InterpFilter::EightTapSmooth) < filter_rank(best)) {
        best_sad = s1;
        best = InterpFilter::EightTapSmooth;
    }
    let s2 = sad_for_filter(src_y, ref0, ref1, px, py, bw, bh, w, h, mv, mv1, compound, InterpFilter::EightTapSharp);
    if s2 < best_sad || (s2 == best_sad && filter_rank(InterpFilter::EightTapSharp) < filter_rank(best)) {
        best = InterpFilter::EightTapSharp;
    }
    best
}

/// The luma SAD of the block predicted with filter `f`.
fn sad_for_filter(
    src_y: &[u8],
    ref0: &Reconstruction,
    ref1: &Reconstruction,
    px: usize,
    py: usize,
    bw: usize,
    bh: usize,
    w: usize,
    h: usize,
    mv: Mv,
    mv1: Mv,
    compound: bool,
    f: InterpFilter,
) -> (s: u32)
    requires
        ctx_ok(luma_ctx(src_y@, ref0.y@, w, h, px, py, bw, bh)),
        compound ==> ctx_ok(luma_ctx(src_y@, ref1.y@, w, h, px, py, bw, bh)),
    ensures
        s == filter_sad(src_y@, ref0.y@, ref1.y@, w as int, h as int, px as int, py as int, bw as int, bh as int, mv, mv1, compound, f),
{
    let pred = predict_block(ref0.y.as_slice(), ref1.y.as_slice(), w, h, px, py, bw, bh, mv, mv1, compound, f);
    block_sad(src_y, w, px, py, bw, bh, &pred)
}

/// The reconstruction `recon_for` returns.
pub open spec fn recon_of<'a>(
    last: &'a Reconstruction,
    golden: Option<&'a Reconstruction>,
    altref: Option<&'a Reconstruction>,
    ref_frame: i8,
) -> &'a Reconstruction {
    if ref_frame == GOLDEN_FRAME {
        match golden {
            Some(g) => g,
            None => last,
        }
    } else if ref_frame == ALTREF_FRAME {
        match altref {
            Some(a) => a,
            None => last,
        }
    } else {
        last
    }
}

/// A filter's number: 0 EIGHTTAP, 1 SMOOTH, 2 SHARP, 3 BILINEAR.
fn filter_rank(f: InterpFilter) -> (r: u8)
    ensures
        f == InterpFilter::EightTap ==> r == 0,
        f == InterpFilter::EightTapSmooth ==> r == 1,
        f == InterpFilter::EightTapSharp ==> r == 2,
        f == InterpFilter::Bilinear ==> r == 3,
{
    match f {
        InterpFilter::EightTap => 0,
        InterpFilter::EightTapSmooth => 1,
        InterpFilter::EightTapSharp => 2,
        InterpFilter::Bilinear => 3,
    }
}

/// The SAD of the best vector found for the `sw × sh` sub-block at offset
/// `(dx, dy)` of the block at `(px, py)`.
pub open spec fn sub_score(
    src_y: Seq<u8>,
    ref_y: Seq<u8>,
    w: usize,
    h: usize,
    px: usize,
    py: usize,
    dx: usize,
    dy: usize,
    sw: usize,
    sh: usize,
) -> int {
    let g = luma_ctx(src_y, ref_y, w, h, (px + dx) as usize, (py + dy) as usize, sw, sh);
    spec_sad_mv(g, spec_search_mv(g, DEFAULT_RANGE_PEL))
}

/// `a + b` saturated at `u32::MAX`.
pub open spec fn sat_add(a: int, b: int) -> int {
    if a + b > u32::MAX {
        u32::MAX as int
    } else {
        a + b
    }
}

/// The partition of a `bsize × bsize` block at MI `(mi_row, mi_col)`: each
/// shape's cost is the summed best-vector SAD of its parts (saturating),
/// plus a bias for the mode/vector cost of extra blocks (half for HORZ and
/// VERT, whole for SPLIT; 256/1024/4096 for 16/32/64 pixels, else 256);
/// the cheapest wins, the earlier of NONE, HORZ, VERT, SPLIT on ties.
pub open spec fn spec_pick_partition(
    src_y: Seq<u8>,
    ref_y: Seq<u8>,
    w: usize,
    h: usize,
    mi_row: usize,
    mi_col: usize,
    bsize_px: u32,
) -> i8 {
    let px = (mi_col * 8) as usize;
    let py = (mi_row * 8) as usize;
    let bw = bsize_px as usize;
    let hw = (bw / 2) as usize;
    let none = sub_score(src_y, ref_y, w, h, px, py, 0, 0, bw, bw);
    let horz = sat_add(
        sub_score(src_y, ref_y, w, h, px, py, 0, 0, bw, hw),
        sub_score(src_y, ref_y, w, h, px, py, 0, hw, bw, hw),
    );
    let vert = sat_add(
        sub_score(src_y, ref_y, w, h, px, py, 0, 0, hw, bw),
        sub_score(src_y, ref_y, w, h, px, py, hw, 0, hw, bw),
    );
    let split = sat_add(
        sat_add(
            sat_add(
                sub_score(src_y, ref_y, w, h, px, py, 0, 0, hw, hw),
                sub_score(src_y, ref_y, w, h, px, py, hw, 0, hw, hw),
            ),
            sub_score(src_y, ref_y, w, h, px, py, 0, hw, hw, hw),
        ),
        sub_score(src_y, ref_y, w, h, px, py, hw, hw, hw, hw),
    );
    let bias: int = if bsize_px == 16 {
        256
    } else if bsize_px == 32 {
        1024
    } else if bsize_px == 64 {
        4096
    } else {
        256
    };
    let c1 = sat_add(horz, bias / 2);
    let c2 = sat_add(vert, bias / 2);
    let c3 = sat_add(split, bias);
    let (b1, m1) = if c1 < none {
        (PARTITION_HORZ, c1)
    } else {
        (PARTITION_NONE, none)
    };
    let (b2, m2) = if c2 < m1 {
        (PARTITION_VERT, c2)
    } else {
        (b1, m1)
    };
    if c3 < m2 {
        PARTITION_SPLIT
    } else {
        b2
    }
}

/// A sub-block of a searchable block is searchable.
proof fn lemma_sub_ctx(src_y: Seq<u8>, ref_y: Seq<u8>, w: usize, h: usize, px: usize, py: usize, bw: usize, dx: usize, dy: usize, sw: usize, sh: usize)
    requires
        ctx_ok(luma_ctx(src_y, ref_y, w, h, px, py, bw, bw)),
        1 <= sw,
        1 <= sh,
        dx + sw <= bw,
        dy + sh <= bw,
    ensures
        ctx_ok(luma_ctx(src_y, ref_y, w, h, (px + dx) as usize, (py + dy) as usize, sw, sh)),
        px + dx <= 0x4000_0000,
        py + dy <= 0x4000_0000,
{
    let g = luma_ctx(src_y, ref_y, w, h, px, py, bw, bw);
    assert((py + dy + sh - 1) * w + px + dx + sw <= (py + bw - 1) * w + px + bw) by (nonlinear_arith)
        requires
            dx + sw <= bw,
            dy + sh <= bw,
            1 <= sh,
            w >= 0,
    ;
    assert(255 * sw * sh <= 255 * bw * bw) by (nonlinear_arith)
        requires
            1 <= sw <= bw,
            1 <= sh <= bw,
    ;
    assert((sh + 7) * sw <= (bw + 7) * bw) by (nonlinear_arith)
        requires
            1 <= sw <= bw,
            1 <= sh <= bw,
    ;
}

/// Best-vector SAD of one sub-block.
fn score_sub(
    src_y: &[u8],
    ref_y: &[u8],
    w: usize,
    h: usize,
    px: usize,
    py: usize,
    dx: usize,
    dy: usize,
    sw: usize,
    sh: usize,
) -> (s: u32)
    requires
        px + dx <= 0x4000_0000,
        py + dy <= 0x4000_0000,
        ctx_ok(luma_ctx(src_y@, ref_y@, w, h, (px + dx) as usize, (py + dy) as usize, sw, sh)),
    ensures
        s == sub_score(src_y@, ref_y@, w, h, px, py, dx, dy, sw, sh),
{
    let mv = search_mv(src_y, w, ref_y, w, w, h, px + dx, py + dy, sw, sh, DEFAULT_RANGE_PEL);
    sad_mv(src_y, w, ref_y, w, w, h, px + dx, py + dy, sw, sh, mv)
}

/// Pick the partition of the `bsize × bsize` block at MI `(mi_row, mi_col)`
/// of a `w × h` frame with luma `src_y`, by motion search against `ref_y`.
pub fn pick_partition(src_y: &[u8], ref_y: &[u8], w: usize, h: usize, mi_row: usize, mi_col: usize, bsize_px: u32) -> (p: i8)
    requires
        bsize_px >= 2,
        mi_row * 8 <= usize::MAX,
        mi_col * 8 <= usize::MAX,
        ctx_ok(luma_ctx(src_y@, ref_y@, w, h, (mi_col * 8) as usize, (mi_row * 8) as usize, bsize_px as usize, bsize_px as usize)),
    ensures
        p == spec_pick_partition(src_y@, ref_y@, w, h, mi_row, mi_col, bsize_px),
{
    let px = mi_col * 8;
    let py = mi_row * 8;
    let bw = bsize_px as usize;
    let hw = bw / 2;
    proof {
        lemma_sub_ctx(src_y@, ref_y@, w, h, px, py, bw, 0, 0, bw, hw);
        lemma_sub_ctx(src_y@, ref_y@, w, h, px, py, bw, 0, hw, bw, hw);
        lemma_sub_ctx(src_y@, ref_y@, w, h, px, py, bw, 0, 0, hw, bw);
        lemma_sub_ctx(src_y@, ref_y@, w, h, px, py, bw, hw, 0, hw, bw);
        lemma_sub_ctx(src_y@, ref_y@, w, h, px, py, bw, 0, 0, hw, hw);
        lemma_sub_ctx(src_y@, ref_y@, w, h, px, py, bw, hw, 0, hw, hw);
        lemma_sub_ctx(src_y@, ref_y@, w, h, px, py, bw, 0, hw, hw, hw);
        lemma_sub_ctx(src_y@, ref_y@, w, h, px, py, bw, hw, hw, hw, hw);
        assert((px + 0) as usize == px && (py + 0) as usize == py);
    }
    let sad_none = score_sub(src_y, ref_y, w, h, px, py, 0, 0, bw, bw);
    let sad_horz = score_sub(src_y, ref_y, w, h, px, py, 0, 0, bw, hw).saturating_add(
        score_sub(src_y, ref_y, w, h, px, py, 0, hw, bw, hw),
    );
    let sad_vert = score_sub(src_y, ref_y, w, h, px, py, 0, 0, hw, bw).saturating_add(
        score_sub(src_y, ref_y, w, h, px, py, hw, 0, hw, bw),
    );
    let sad_split = score_sub(src_y, ref_y, w, h, px, py, 0, 0, hw, hw).saturating_add(
        score_sub(src_y, ref_y, w, h, px, py, hw, 0, hw, hw),
    ).saturating_add(score_sub(src_y, ref_y, w, h, px, py, 0, hw, hw, hw)).saturating_add(
        score_sub(src_y, ref_y, w, h, px, py, hw, hw, hw, hw),
    );
    let bias: u32 = match bsize_px {
        16 => 256,
        32 => 1024,
        64 => 4096,
        _ => 256,
    };
    let c1 = sad_horz.saturating_add(bias / 2);
    let c2 = sad_vert.saturating_add(bias / 2);
    let c3 = sad_split.saturating_add(bias);
    let mut best = PARTITION_NONE;
    let mut best_cost = sad_none;
    if c1 < best_cost {
        best = PARTITION_HORZ;
        best_cost = c1;
    }
    if c2 < best_cost {
        best = PARTITION_VERT;
        best_cost = c2;
    }
    if c3 < best_cost {
        best = PARTITION_SPLIT;
    }
    best
}

} // verus!
