//! Residual-coded inter frames: every block picks its reference(s), mode,
//! vector(s) and interpolation filter, is predicted by motion compensation,
//! chooses between its largest transform and the next smaller one by
//! coefficient cost, is skipped when every level is zero, and otherwise has
//! each transform block quantized and reconstructed as a decoder rebuilds it.
//! The tile's symbols come out in coding order: bools with their
//! probabilities and transform blocks of levels with their token context.
use vstd::prelude::*;
use crate::vp9::bool_coder::{lemma_put_bools_log, BoolEncoder};
use crate::vp9::encoder::{
    apply_loop_filter, crop_plane, deblocked_chroma, loop_filtered_luma, pad_plane, sb_align, Reconstruction,
};
use crate::vp9::inter::{
    avg2, avg_bytes, choose_log2_tile_cols, FILTER_LEVEL, is_inter_mode, qindex_for_segment, segment_id_for_mi_col,
    spec_choose_log2_tile_cols, spec_tile_mi_col_range, tile_mi_col_range, RefMode,
};
use crate::vp9::intra_frame::{bools_model, frame_ok, syms_model, SymModel, TileSym, TxLevels, Yuv420Frame};
use crate::vp9::loopfilter::{block_fits, mi_at, mi_ok, LfMi};
use crate::vp9::mc::{lin, plane_ok, predict_inter, spec_inter_pixel, InterpFilter};
use crate::vp9::mi_context::{
    in_block, lf_mi_from_residual, mvs_negatable, sizes_coded, spec_lf_mi, spec_mv_ref_neighbors, MiGrid, MiGridView,
    ResidualMi,
};
use crate::vp9::mode_info::{block_query, mv_codable, spec_inter_mode_bits_ops, write_inter_mode_bits};
use crate::vp9::mv::Mv;
use crate::vp9::partition::{model_partition_ops, model_update, PartitionContext, PartitionModel};
use crate::vp9::plane_tx::{
    in_rect, lemma_ptx_tile, lemma_small_tile_quantizable, lemma_tile_res_small, mk_ptx, prepare_plane_tx, ptx_any,
    ptx_cols, ptx_cost, ptx_lx, ptx_ly, ptx_ok, ptx_res, ptx_rows, pred_tile, score_block_tx, store_plane, tile_dqs,
    tile_levels, tile_prepared, tx_side, PlaneTx, TxTile,
};
use crate::vp9::ref_pick::{
    luma_ctx, mv_query, opt_luma, pick_interp_filter, pick_partition, pick_ref_and_mode, recon_for, recon_of,
    spec_pick_interp_filter, spec_pick_partition, spec_pick_ref_and_mode, InterPick,
};
use crate::vp9::tree::{spec_tree_path, tree_has, tree_wf};
use crate::vp9::skip_frame::{lemma_log2_choice, lemma_plane_index, lemma_tile_range};
use crate::vp9::tables::{
    max_tx_size_wh, spec_max_tx_size_wh, spec_partition_ctx_index_wh, spec_uv_tx_size_wh, uv_tx_size_wh, INTRA_FRAME,
    LAST_FRAME, NEWMV, TX_16X16, TX_32X32, TX_4X4, TX_8X8, ZEROMV, is_square_bsize, PARTITION_HORZ, PARTITION_NONE,
    PARTITION_SPLIT, PARTITION_TREE, PARTITION_VERT,
};
use crate::vp9::token_context::{any_set, any_set_wrapping, b2u, covered_wrapping, EntPlane, TokenContext};
use crate::vp9::transform::{inverse_add, spec_add_block, spec_inverse_residual, within, Inv1d};

verus! {

/// What coding a plane's transform blocks changes: that plane's above and
/// left token flags, the symbols, and the block's reconstruction.
pub struct EmitState {
    pub above: Seq<u8>,
    pub left: Seq<u8>,
    pub syms: Seq<SymModel>,
    pub blk: Seq<u8>,
}

/// Levels of tile `t` as coded.
pub open spec fn levels_of(g: PlaneTx, t: int) -> Seq<i32> {
    let n = tx_side(g.tx);
    Seq::new((n * n) as nat, |i: int| tile_levels(ptx_res(g, t), g.tx, g.qindex)[i] as i32)
}

/// Dequantized coefficients of tile `t`.
pub open spec fn dqs_of(g: PlaneTx, t: int) -> Seq<i32> {
    let n = tx_side(g.tx);
    Seq::new((n * n) as nat, |i: int| tile_dqs(ptx_res(g, t), g.tx, g.qindex)[i] as i32)
}

/// 1 when some level is non-zero (the block has an end of block), else 0.
pub open spec fn has_levels(l: Seq<i32>) -> u8 {
    if exists|i: int| 0 <= i < l.len() && #[trigger] l[i] != 0 {
        1
    } else {
        0
    }
}

/// The inverse DCT of a transform size.
pub open spec fn inv_kind(tx: u8) -> Inv1d {
    if tx == TX_4X4 {
        Inv1d::Idct4
    } else if tx == TX_8X8 {
        Inv1d::Idct8
    } else if tx == TX_16X16 {
        Inv1d::Idct16
    } else {
        Inv1d::Idct32
    }
}

/// The final rounding shift of the inverse transform of a size.
pub open spec fn inv_shift(tx: u8) -> nat {
    if tx == TX_4X4 {
        4
    } else if tx == TX_8X8 {
        5
    } else {
        6
    }
}

/// Reconstruction of tile `t`: its prediction plus the inverse transform
/// of its dequantized coefficients.
pub open spec fn tile_recon(g: PlaneTx, t: int) -> Seq<u8> {
    let n = tx_side(g.tx);
    spec_add_block(
        pred_tile(g.pred, g.bw, ptx_lx(g, t), ptx_ly(g, t), n),
        n,
        n,
        spec_inverse_residual(dqs_of(g, t), n, inv_kind(g.tx), inv_kind(g.tx), inv_shift(g.tx)),
    )
}

/// `blk` (stride `bw`) with the `n × n` raster block `b` written at `(lx, ly)`.
pub open spec fn put_tile(blk: Seq<u8>, bw: int, lx: int, ly: int, n: int, b: Seq<u8>) -> Seq<u8> {
    Seq::new(blk.len(), |k: int| if in_rect(k, bw, lx, ly, n, n) {
        b[(k / bw - ly) * n + k % bw - lx]
    } else {
        blk[k]
    })
}

/// Coding the first `t` transform blocks of a plane, in raster order: each
/// takes its token context from the flags above and left, is emitted, sets
/// those flags to whether it has a non-zero level, and is reconstructed.
pub open spec fn emit_tiles(g: PlaneTx, is_y: bool, lrows: int, st: EmitState, t: int) -> EmitState
    decreases t,
{
    if t <= 0 {
        st
    } else {
        let p = emit_tiles(g, is_y, lrows, st, t - 1);
        let i = t - 1;
        let n = tx_side(g.tx);
        let n4 = n / 4;
        let x = g.ox + ptx_lx(g, i);
        let y = g.oy + ptx_ly(g, i);
        let ctx = b2u(any_set(p.above, x / 4, n4)) + b2u(any_set_wrapping(p.left, y / 4, n4, lrows));
        let lv = levels_of(g, i);
        let has = has_levels(lv);
        EmitState {
            above: Seq::new(p.above.len(), |j: int| if x / 4 <= j < x / 4 + n4 {
                has
            } else {
                p.above[j]
            }),
            left: Seq::new(p.left.len(), |k: int| if covered_wrapping(k, y / 4, n4, lrows) {
                has
            } else {
                p.left[k]
            }),
            syms: p.syms.push(SymModel::Levels(lv, is_y, ctx as usize, g.tx, g.qindex)),
            blk: put_tile(p.blk, g.bw, ptx_lx(g, i), ptx_ly(g, i), n, tile_recon(g, i)),
        }
    }
}

/// The token flags of a plane.
pub open spec fn plane_state(ent: &TokenContext, plane: EntPlane, syms: Seq<SymModel>, blk: Seq<u8>) -> EmitState {
    EmitState { above: ent.above_of(plane), left: ent.left_of(plane), syms, blk }
}

#[verifier::spinoff_prover]
proof fn lemma_tile_pos(g: PlaneTx, t: int)
    requires
        ptx_ok(g),
        0 <= t < ptx_rows(g) * ptx_cols(g),
    ensures
        0 <= ptx_lx(g, t),
        0 <= ptx_ly(g, t),
        ptx_lx(g, t) + tx_side(g.tx) <= g.bw,
        ptx_ly(g, t) + tx_side(g.tx) <= g.bh,
{
    let n = tx_side(g.tx);
    let cols = ptx_cols(g);
    let rows = ptx_rows(g);
    assert(cols >= 1 && rows >= 1) by (nonlinear_arith)
        requires
            0 <= t < rows * cols,
            rows >= 0,
            cols >= 0,
    ;
    let ty = t / cols;
    let tc = t % cols;
    assert(0 <= ty < rows && 0 <= tc < cols && t == ty * cols + tc) by (nonlinear_arith)
        requires
            0 <= t < rows * cols,
            cols >= 1,
            ty == t / cols,
            tc == t % cols,
    ;
    lemma_ptx_tile(g, ty, tc);
    assert((tc + 1) * n <= g.bw && (ty + 1) * n <= g.bh) by (nonlinear_arith)
        requires
            tc < cols,
            ty < rows,
            cols == g.bw / n,
            rows == g.bh / n,
            n > 0,
            g.bw >= 0,
            g.bh >= 0,
    ;
}

fn any_level(q: &Vec<i32>) -> (b: bool)
    ensures
        b == (has_levels(q@) == 1),
{
    let mut i: usize = 0;
    while i < q.len()
        invariant
            i <= q@.len(),
            forall|k: int| 0 <= k < i ==> q@[k] == 0,
        decreases q@.len() - i,
    {
        if q[i] != 0 {
            assert(q@[i as int] != 0);
            return true;
        }
        i += 1;
    }
    assert(!(exists|k: int| 0 <= k < q@.len() && #[trigger] q@[k] != 0));
    false
}

/// Emit and reconstruct every transform block of one plane of a block
/// (see `emit_tiles`).
#[verifier::rlimit(60)]
#[verifier::spinoff_prover]
fn emit_plane_tx(
    ent: &mut TokenContext,
    plane: EntPlane,
    syms: &mut Vec<TileSym>,
    blk: &mut Vec<u8>,
    tiles: &Vec<TxTile>,
    pred: &[u8],
    bw: usize,
    bh: usize,
    src: &[u8],
    stride: usize,
    ox: usize,
    oy: usize,
    tx: u8,
    qindex: usize,
    pw: usize,
)
    requires
        old(ent).wf(),
        ptx_ok(mk_ptx(pred@, bw, bh, src@, stride, ox, oy, tx, qindex)),
        tiles@.len() == ptx_rows(mk_ptx(pred@, bw, bh, src@, stride, ox, oy, tx, qindex)) * ptx_cols(
            mk_ptx(pred@, bw, bh, src@, stride, ox, oy, tx, qindex),
        ),
        forall|t: int|
            0 <= t < tiles@.len() ==> tile_prepared(
                mk_ptx(pred@, bw, bh, src@, stride, ox, oy, tx, qindex),
                t,
                #[trigger] tiles@[t],
            ),
        old(blk)@.len() == bw * bh,
        old(ent).above_of(plane).len() == pw / 4,
        ox + bw <= pw,
        oy + bh <= 0x10_0000,
        tx <= TX_32X32,
    ensures
        final(ent).wf(),
        final(ent).mi_cols == old(ent).mi_cols,
        final(ent).mi_rows == old(ent).mi_rows,
        final(blk)@.len() == old(blk)@.len(),
        forall|p: EntPlane|
            p != plane ==> final(ent).above_of(p) == old(ent).above_of(p) && final(ent).left_of(p) == old(
                ent,
            ).left_of(p),
        plane_state(final(ent), plane, syms_model(final(syms)@), final(blk)@) == emit_tiles(
            mk_ptx(pred@, bw, bh, src@, stride, ox, oy, tx, qindex),
            plane == EntPlane::Y,
            TokenContext::left_rows(plane),
            plane_state(old(ent), plane, syms_model(old(syms)@), old(blk)@),
            tiles@.len() as int,
        ),
{
    let ghost g = mk_ptx(pred@, bw, bh, src@, stride, ox, oy, tx, qindex);
    let ghost st0 = plane_state(ent, plane, syms_model(syms@), blk@);
    let ghost lrows = TokenContext::left_rows(plane);
    let n: usize = if tx == TX_4X4 {
        4
    } else if tx == TX_8X8 {
        8
    } else if tx == TX_16X16 {
        16
    } else {
        32
    };
    let n4 = n / 4;
    let is_y = match plane {
        EntPlane::Y => true,
        _ => false,
    };
    let kind = if tx == TX_4X4 {
        Inv1d::Idct4
    } else if tx == TX_8X8 {
        Inv1d::Idct8
    } else if tx == TX_16X16 {
        Inv1d::Idct16
    } else {
        Inv1d::Idct32
    };
    let shift: u32 = if tx == TX_4X4 {
        4
    } else if tx == TX_8X8 {
        5
    } else {
        6
    };
    let mut t: usize = 0;
    while t < tiles.len()
        invariant
            ptx_ok(g),
            g == mk_ptx(pred@, bw, bh, src@, stride, ox, oy, tx, qindex),
            tiles@.len() == ptx_rows(g) * ptx_cols(g),
            forall|t: int| 0 <= t < tiles@.len() ==> tile_prepared(g, t, #[trigger] tiles@[t]),
            t <= tiles@.len(),
            n == tx_side(tx),
            n4 == n / 4,
            is_y == (plane == EntPlane::Y),
            kind == inv_kind(tx),
            shift == inv_shift(tx),
            lrows == TokenContext::left_rows(plane),
            ent.wf(),
            ent.mi_cols == old(ent).mi_cols,
            ent.mi_rows == old(ent).mi_rows,
            ent.above_of(plane).len() == pw / 4,
            ox + bw <= pw,
            oy + bh <= 0x10_0000,
            blk@.len() == bw * bh,
            forall|p: EntPlane| p != plane ==> ent.above_of(p) == old(ent).above_of(p) && ent.left_of(p) == old(ent).left_of(p),
            st0 == plane_state(old(ent), plane, syms_model(old(syms)@), old(blk)@),
            plane_state(ent, plane, syms_model(syms@), blk@) == emit_tiles(g, is_y, lrows, st0, t as int),
        decreases tiles@.len() - t,
    {
        let ghost p = emit_tiles(g, is_y, lrows, st0, t as int);
        proof {
            lemma_tile_pos(g, t as int);
        }
        let tile = &tiles[t];
        assert(tile_prepared(g, t as int, *tile));
        assert(tile.x / 4 + n4 <= pw / 4) by {
            assert(tile.x + n <= pw);
        }
        let ctx = ent.ent_ctx(plane, tile.x, tile.y, n4);
        let has = any_level(&tile.q);
        let levels = tile.q.clone();
        assert(levels@ == tile.q@);
        assert(levels@ =~= levels_of(g, t as int));
        let ghost sm = syms_model(syms@);
        syms.push(TileSym::Levels(TxLevels { levels, is_y, ctx, tx, qindex }));
        assert(syms_model(syms@) =~= sm.push(SymModel::Levels(levels_of(g, t as int), is_y, ctx, tx, qindex)));
        let hb: u8 = if has { 1 } else { 0 };
        let ghost e0 = plane_state(ent, plane, syms_model(syms@), blk@);
        ent.set_ent(plane, tile.x, tile.y, n4, hb);
        let mut b = tile.pred.clone();
        assert(b@ == tile.pred@);
        assert(tile.dq@ =~= dqs_of(g, t as int));
        assert((n - 1) * n + n == n * n) by (nonlinear_arith);
        inverse_add(tile.dq.as_slice(), b.as_mut_slice(), n, n, kind, kind, shift);
        assert(b@ =~= tile_recon(g, t as int));
        proof {
            assert((tile.ly + n) * bw <= bw * bh) by (nonlinear_arith)
                requires
                    tile.ly + n <= bh,
            ;
        }
        store_plane(blk.as_mut_slice(), bw, tile.lx, tile.ly, n, n, b.as_slice());
        proof {
            let q = emit_tiles(g, is_y, lrows, st0, t + 1);
            assert(ent.above_of(plane) =~= q.above);
            assert(ent.left_of(plane) =~= q.left);
            assert(blk@ =~= q.blk);
            assert(syms_model(syms@) == q.syms);
        }
        t += 1;
    }
}

/// The frame being coded and how: the references (GOLDEN and ALTREF when
/// present), the frame's reference mode, whether each block is searched,
/// and otherwise the vector every block takes (`newmv`) or the zero vector.
pub struct InterCfg<'a> {
    pub src: &'a Yuv420Frame,
    pub last: &'a Reconstruction,
    pub golden: Option<&'a Reconstruction>,
    pub altref: Option<&'a Reconstruction>,
    pub ref_mode: RefMode,
    pub search: bool,
    pub mv: Mv,
    pub newmv: bool,
}

/// A reconstruction of the frame's size with planes of that size.
pub open spec fn ref_ok(r: &Reconstruction, f: &Yuv420Frame) -> bool {
    &&& r.width == f.width
    &&& r.height == f.height
    &&& r.y@.len() == f.width * f.height
    &&& r.u@.len() == (f.width / 2) * (f.height / 2)
    &&& r.v@.len() == (f.width / 2) * (f.height / 2)
}

/// A valid frame, references of its size, and an ALTREF for compound.
pub open spec fn cfg_ok(cfg: InterCfg) -> bool {
    &&& frame_ok(cfg.src)
    &&& ref_ok(cfg.last, cfg.src)
    &&& (cfg.golden matches Some(g) ==> ref_ok(g, cfg.src))
    &&& (cfg.altref matches Some(a) ==> ref_ok(a, cfg.src))
    &&& (cfg.ref_mode == RefMode::Compound ==> cfg.altref is Some)
}

/// The token flags as sequences.
pub struct EntModel {
    pub ay: Seq<u8>,
    pub ly: Seq<u8>,
    pub au: Seq<u8>,
    pub lu: Seq<u8>,
    pub av: Seq<u8>,
    pub lv: Seq<u8>,
}

pub open spec fn ent_model(t: &TokenContext) -> EntModel {
    EntModel {
        ay: t.above_ent_y@,
        ly: t.left_ent_y@,
        au: t.above_ent_u@,
        lu: t.left_ent_u@,
        av: t.above_ent_v@,
        lv: t.left_ent_v@,
    }
}

/// The encoder's state between blocks: the mode-info grid, the token and
/// partition contexts, the reconstructed planes, the symbols so far, and
/// whether every block so far could be coded.
pub struct ResidualModel {
    pub grid: MiGridView,
    pub ent: EntModel,
    pub part: PartitionModel,
    pub y: Seq<u8>,
    pub u: Seq<u8>,
    pub v: Seq<u8>,
    pub syms: Seq<SymModel>,
    pub ok: bool,
}

/// The prediction of a `bw × bh` block at `(x, y)` of a `pw × ph` plane:
/// from `ref0` under `mv`, averaged with `ref1` under `mv1` when compound.
pub open spec fn plane_pred(
    ref0: Seq<u8>,
    ref1: Seq<u8>,
    pw: int,
    ph: int,
    x: int,
    y: int,
    bw: int,
    bh: int,
    mv: Mv,
    mv1: Mv,
    compound: bool,
    chroma: bool,
    f: InterpFilter,
) -> Seq<u8> {
    Seq::new(
        (bw * bh) as nat,
        |k: int|
            {
                let a = spec_inter_pixel(ref0, pw, pw, ph, x, y, mv.row, mv.col, chroma, f, k / bw, k % bw);
                if compound {
                    avg2(a, spec_inter_pixel(ref1, pw, pw, ph, x, y, mv1.row, mv1.col, chroma, f, k / bw, k % bw))
                } else {
                    a
                }
            },
    )
}

#[verifier::rlimit(40)]
#[verifier::spinoff_prover]
fn predict_plane(
    ref0: &[u8],
    ref1: &[u8],
    pw: usize,
    ph: usize,
    x: usize,
    y: usize,
    bw: usize,
    bh: usize,
    mv: Mv,
    mv1: Mv,
    compound: bool,
    chroma: bool,
    f: InterpFilter,
) -> (pred: Vec<u8>)
    requires
        bw >= 1,
        bh <= 64,
        bw <= 64,
        plane_ok(ref0@, pw as int, pw as int, ph as int),
        compound ==> plane_ok(ref1@, pw as int, pw as int, ph as int),
        x + bw + 4200 <= 0x4000_0000,
        y + bh + 4200 <= 0x4000_0000,
    ensures
        pred@ == plane_pred(ref0@, ref1@, pw as int, ph as int, x as int, y as int, bw as int, bh as int, mv, mv1, compound, chroma, f),
{
    assert(bw * bh <= 4096 && (bh + 7) * bw <= 4544) by (nonlinear_arith)
        requires
            1 <= bw <= 64,
            bh <= 64,
    ;
    let n = bw * bh;
    let mut pred = vec![0u8; n];
    if compound {
        let mut a = vec![0u8; n];
        let mut b = vec![0u8; n];
        predict_inter(ref0, pw, pw, ph, x, y, bw, bh, mv.row, mv.col, chroma, f, a.as_mut_slice());
        predict_inter(ref1, pw, pw, ph, x, y, bw, bh, mv1.row, mv1.col, chroma, f, b.as_mut_slice());
        avg_bytes(a.as_slice(), b.as_slice(), pred.as_mut_slice());
        assert forall|k: int| 0 <= k < n implies pred@[k] == plane_pred(
            ref0@, ref1@, pw as int, ph as int, x as int, y as int, bw as int, bh as int, mv, mv1, compound, chroma, f)[k] by {
            lemma_plane_index(k, bw as int, bh as int);
            assert(a@[lin(k / bw as int, bw as int, k % bw as int)] == spec_inter_pixel(
                ref0@, pw as int, pw as int, ph as int, x as int, y as int, mv.row, mv.col, chroma, f, k / bw as int, k % bw as int));
            assert(b@[lin(k / bw as int, bw as int, k % bw as int)] == spec_inter_pixel(
                ref1@, pw as int, pw as int, ph as int, x as int, y as int, mv1.row, mv1.col, chroma, f, k / bw as int, k % bw as int));
        }
    } else {
        predict_inter(ref0, pw, pw, ph, x, y, bw, bh, mv.row, mv.col, chroma, f, pred.as_mut_slice());
        assert forall|k: int| 0 <= k < n implies pred@[k] == plane_pred(
            ref0@, ref1@, pw as int, ph as int, x as int, y as int, bw as int, bh as int, mv, mv1, compound, chroma, f)[k] by {
            lemma_plane_index(k, bw as int, bh as int);
            assert(pred@[lin(k / bw as int, bw as int, k % bw as int)] == spec_inter_pixel(
                ref0@, pw as int, pw as int, ph as int, x as int, y as int, mv.row, mv.col, chroma, f, k / bw as int, k % bw as int));
        }
    }
    assert(pred@ =~= plane_pred(ref0@, ref1@, pw as int, ph as int, x as int, y as int, bw as int, bh as int, mv, mv1, compound, chroma, f));
    pred
}

/// The block sizes an inter frame codes.
pub open spec fn block_size_ok(bw_px: u32, bh_px: u32) -> bool {
    spec_partition_ctx_index_wh(bw_px, bh_px) is Some
}

/// The references, mode and vectors of block `(r, c)`: searched, or the
/// configured NEWMV vector, or ZEROMV, all from LAST.
pub open spec fn block_pick(cfg: InterCfg, g: MiGridView, r: int, c: int, bw_px: u32, bh_px: u32) -> InterPick {
    if cfg.search {
        spec_pick_ref_and_mode(
            g,
            mv_query(r as usize, c as usize, bw_px, bh_px),
            spec_mv_ref_neighbors(bw_px, bh_px),
            cfg.src.y@,
            cfg.last.y@,
            opt_luma(cfg.golden),
            opt_luma(cfg.altref),
            cfg.ref_mode,
            cfg.src.width as usize,
            cfg.src.height as usize,
            (c * 8) as usize,
            (r * 8) as usize,
            bw_px as usize,
            bh_px as usize,
        )
    } else if cfg.newmv {
        InterPick { mv: cfg.mv, mv1: Mv { row: 0, col: 0 }, mode: NEWMV, ref_frame: LAST_FRAME, second_ref: INTRA_FRAME }
    } else {
        InterPick {
            mv: Mv { row: 0, col: 0 },
            mv1: Mv { row: 0, col: 0 },
            mode: ZEROMV,
            ref_frame: LAST_FRAME,
            second_ref: INTRA_FRAME,
        }
    }
}

/// The interpolation filter of the block under its pick.
pub open spec fn block_filter(cfg: InterCfg, p: InterPick, r: int, c: int, bw_px: u32, bh_px: u32) -> InterpFilter {
    spec_pick_interp_filter(
        cfg.src.y@,
        recon_of(cfg.last, cfg.golden, cfg.altref, p.ref_frame).y@,
        recon_of(cfg.last, cfg.golden, cfg.altref, p.second_ref).y@,
        cfg.src.width as int,
        cfg.src.height as int,
        c * 8,
        r * 8,
        bw_px as int,
        bh_px as int,
        p.mv,
        p.mv1,
        p.second_ref > INTRA_FRAME,
    )
}

/// Whether the pick can be coded as mode info: an inter mode, a reference
/// mode the frame allows, vectors whose negation fits, and NEWMV vectors
/// within an `i16` of their reference vectors.
pub open spec fn block_codable(cfg: InterCfg, g: MiGridView, r: int, c: int, bw_px: u32, bh_px: u32, p: InterPick) -> bool {
    let q = block_query(r, c, bw_px, bh_px);
    let nbrs = spec_mv_ref_neighbors(bw_px, bh_px);
    &&& is_inter_mode(p.mode)
    &&& (cfg.ref_mode == RefMode::Compound ==> p.second_ref > INTRA_FRAME)
    &&& (cfg.ref_mode == RefMode::Single ==> p.second_ref <= INTRA_FRAME)
    &&& p.mv.row > i16::MIN && p.mv.col > i16::MIN && p.mv1.row > i16::MIN && p.mv1.col > i16::MIN
    &&& (p.mode == NEWMV ==> mv_codable(g, q, nbrs, p.ref_frame, p.mv))
    &&& (p.mode == NEWMV && p.second_ref > INTRA_FRAME ==> mv_codable(g, q, nbrs, p.second_ref, p.mv1))
}

/// The coefficient cost (saturating at `u32::MAX`) and whether any level is
/// non-zero when the block is coded with luma transform `tx`.
pub open spec fn tx_score(
    cfg: InterCfg,
    yp: Seq<u8>,
    up: Seq<u8>,
    vp: Seq<u8>,
    r: int,
    c: int,
    bw_px: u32,
    bh_px: u32,
    tx: u8,
    qindex: usize,
) -> (int, bool) {
    let w = cfg.src.width as usize;
    let cw = (cfg.src.width / 2) as usize;
    let uv_tx = spec_uv_tx_size_wh(bw_px, bh_px, tx);
    let gy = mk_ptx(yp, bw_px as usize, bh_px as usize, cfg.src.y@, w, (c * 8) as usize, (r * 8) as usize, tx, qindex);
    let gu = mk_ptx(up, (bw_px / 2) as usize, (bh_px / 2) as usize, cfg.src.u@, cw, (c * 4) as usize, (r * 4) as usize, uv_tx, qindex);
    let gv = mk_ptx(vp, (bw_px / 2) as usize, (bh_px / 2) as usize, cfg.src.v@, cw, (c * 4) as usize, (r * 4) as usize, uv_tx, qindex);
    let total = ptx_cost(gy, ptx_rows(gy) * ptx_cols(gy)) + ptx_cost(gu, ptx_rows(gu) * ptx_cols(gu)) + ptx_cost(
        gv,
        ptx_rows(gv) * ptx_cols(gv),
    );
    (
        if total < u32::MAX { total } else { u32::MAX as int },
        ptx_any(gy, ptx_rows(gy) * ptx_cols(gy)) || ptx_any(gu, ptx_rows(gu) * ptx_cols(gu)) || ptx_any(gv, ptx_rows(gv) * ptx_cols(gv)),
    )
}

/// Whether a candidate beats the best so far: all-zero beats coded;
/// otherwise the lower cost, and on a tie the smaller transform.
pub open spec fn better(cost: int, any: bool, tx: u8, best_cost: int, best_any: bool, best_tx: u8) -> bool {
    (!any && best_any) || (any == best_any && (cost < best_cost || (cost == best_cost && tx < best_tx)))
}

/// The chosen transform and whether it has a non-zero level, from the
/// scores of the largest transform and the next smaller one.
pub open spec fn choose_tx(s0: (int, bool), s1: (int, bool), maxtx: u8) -> (u8, bool) {
    let small = (maxtx - 1) as u8;
    let (t1, c1, a1) = if better(s0.0, s0.1, maxtx, u32::MAX as int, true, maxtx) {
        (maxtx, s0.0, s0.1)
    } else {
        (maxtx, u32::MAX as int, true)
    };
    if better(s1.0, s1.1, small, c1, a1, t1) {
        (small, s1.1)
    } else {
        (t1, a1)
    }
}

/// `dst` (stride `stride`) with the `bw × bh` raster block `b` at `(x, y)`.
pub open spec fn stored(dst: Seq<u8>, stride: int, x: int, y: int, bw: int, bh: int, b: Seq<u8>) -> Seq<u8> {
    Seq::new(dst.len(), |k: int| if in_rect(k, stride, x, y, bw, bh) {
        b[(k / stride - y) * bw + k % stride - x]
    } else {
        dst[k]
    })
}

/// The grid with every unit of the `bw_mi × bh_mi` block at `(r0, c0)`
/// set to `info`, the top-left one marked as the block's origin.
pub open spec fn stored_grid(g: MiGridView, r0: int, c0: int, bw_mi: int, bh_mi: int, info: ResidualMi) -> MiGridView {
    MiGridView {
        mi: Seq::new(g.mi.len(), |k: int| {
            let r = k / (g.mi_cols as int);
            let c = k % (g.mi_cols as int);
            if in_block(r, c, r0, c0, bw_mi, bh_mi) {
                ResidualMi { block_origin: r == r0 && c == c0, ..info }
            } else {
                g.mi[k]
            }
        }),
        ..g
    }
}

/// Token flags after a skipped block clears its part of the contexts.
pub open spec fn clear_model(m: EntModel, mi_cols: int, mi_rows: int, r: int, c: int, bw_mi: int, bh_mi: int) -> EntModel {
    let nc = if c >= mi_cols { 0 } else if c + bw_mi <= mi_cols { bw_mi } else { mi_cols - c };
    let nr = if r >= mi_rows { 0 } else if r + bh_mi <= mi_rows { bh_mi } else { mi_rows - r };
    EntModel {
        ay: Seq::new(m.ay.len(), |j: int| if 2 * c <= j < 2 * (c + nc) { 0u8 } else { m.ay[j] }),
        au: Seq::new(m.au.len(), |j: int| if c <= j < c + nc { 0u8 } else { m.au[j] }),
        av: Seq::new(m.av.len(), |j: int| if c <= j < c + nc { 0u8 } else { m.av[j] }),
        ly: Seq::new(m.ly.len(), |k: int| if covered_wrapping(k, 2 * (r % 8), 2 * nr, 16) { 0u8 } else { m.ly[k] }),
        lu: Seq::new(m.lu.len(), |k: int| if covered_wrapping(k, r, nr, 8) { 0u8 } else { m.lu[k] }),
        lv: Seq::new(m.lv.len(), |k: int| if covered_wrapping(k, r, nr, 8) { 0u8 } else { m.lv[k] }),
    }
}

/// The tilings of the three planes of a block coded with luma transform `tx`.
pub open spec fn block_tilings(cfg: InterCfg, yp: Seq<u8>, up: Seq<u8>, vp: Seq<u8>, r: int, c: int, bw_px: u32, bh_px: u32, tx: u8, qindex: usize) -> (PlaneTx, PlaneTx, PlaneTx) {
    let w = cfg.src.width as usize;
    let cw = (cfg.src.width / 2) as usize;
    let uv_tx = spec_uv_tx_size_wh(bw_px, bh_px, tx);
    (
        mk_ptx(yp, bw_px as usize, bh_px as usize, cfg.src.y@, w, (c * 8) as usize, (r * 8) as usize, tx, qindex),
        mk_ptx(up, (bw_px / 2) as usize, (bh_px / 2) as usize, cfg.src.u@, cw, (c * 4) as usize, (r * 4) as usize, uv_tx, qindex),
        mk_ptx(vp, (bw_px / 2) as usize, (bh_px / 2) as usize, cfg.src.v@, cw, (c * 4) as usize, (r * 4) as usize, uv_tx, qindex),
    )
}

/// All transform blocks of the three planes: token flags, symbols and the
/// block reconstructions.
pub open spec fn emit_block(ts: (PlaneTx, PlaneTx, PlaneTx), m: EntModel, syms: Seq<SymModel>) -> (EntModel, Seq<SymModel>, Seq<u8>, Seq<u8>, Seq<u8>) {
    let (gy, gu, gv) = ts;
    let ey = emit_tiles(gy, true, 16, EmitState { above: m.ay, left: m.ly, syms, blk: gy.pred }, ptx_rows(gy) * ptx_cols(gy));
    let eu = emit_tiles(gu, false, 8, EmitState { above: m.au, left: m.lu, syms: ey.syms, blk: gu.pred }, ptx_rows(gu) * ptx_cols(gu));
    let ev = emit_tiles(gv, false, 8, EmitState { above: m.av, left: m.lv, syms: eu.syms, blk: gv.pred }, ptx_rows(gv) * ptx_cols(gv));
    (EntModel { ay: ey.above, ly: ey.left, au: eu.above, lu: eu.left, av: ev.above, lv: ev.left }, ev.syms, ey.blk, eu.blk, ev.blk)
}

/// Coding the `bw_px × bh_px` block at MI `(r, c)`: pick references, mode,
/// vectors and filter; predict the three planes; choose the transform by
/// coefficient cost; skip when every level is zero; emit the mode info
/// and, unless skipped, every transform block; write the reconstruction
/// and the block's mode info. A block whose pick cannot be coded stops the
/// frame (`ok` false) and every later block leaves the state as it is.
#[verifier::opaque]
pub open spec fn residual_block_step(cfg: InterCfg, s: ResidualModel, r: int, c: int, bw_px: u32, bh_px: u32) -> ResidualModel {
    let p = block_pick(cfg, s.grid, r, c, bw_px, bh_px);
    if !s.ok {
        s
    } else if !block_codable(cfg, s.grid, r, c, bw_px, bh_px, p) {
        ResidualModel { ok: false, ..s }
    } else {
        let w = cfg.src.width as int;
        let h = cfg.src.height as int;
        let f = block_filter(cfg, p, r, c, bw_px, bh_px);
        let comp = p.second_ref > INTRA_FRAME;
        let r0 = recon_of(cfg.last, cfg.golden, cfg.altref, p.ref_frame);
        let r1 = recon_of(cfg.last, cfg.golden, cfg.altref, p.second_ref);
        let (bw, bh) = (bw_px as int, bh_px as int);
        let yp = plane_pred(r0.y@, r1.y@, w, h, c * 8, r * 8, bw, bh, p.mv, p.mv1, comp, false, f);
        let up = plane_pred(r0.u@, r1.u@, w / 2, h / 2, c * 4, r * 4, bw / 2, bh / 2, p.mv, p.mv1, comp, true, f);
        let vp = plane_pred(r0.v@, r1.v@, w / 2, h / 2, c * 4, r * 4, bw / 2, bh / 2, p.mv, p.mv1, comp, true, f);
        let seg: u8 = if c >= s.grid.mi_cols / 2 { 1 } else { 0 };
        let q: usize = if seg == 1 { 160 } else { 128 };
        let maxtx = spec_max_tx_size_wh(bw_px, bh_px);
        let (best_tx, any) = choose_tx(
            tx_score(cfg, yp, up, vp, r, c, bw_px, bh_px, maxtx, q),
            tx_score(cfg, yp, up, vp, r, c, bw_px, bh_px, (maxtx - 1) as u8, q),
            maxtx,
        );
        let skip = !any;
        let tx = if skip { maxtx } else { best_tx };
        block_tail(cfg, s, r, c, bw_px, bh_px, p, f, yp, up, vp, seg, q, skip, tx)
    }
}

/// The mode-info bools, then the cleared token flags of a skipped block or
/// its transform blocks: the token flags, symbols and plane reconstructions.
pub open spec fn tail_coefs(
    cfg: InterCfg,
    g: MiGridView,
    ent: EntModel,
    syms: Seq<SymModel>,
    r: int,
    c: int,
    bw_px: u32,
    bh_px: u32,
    p: InterPick,
    f: InterpFilter,
    yp: Seq<u8>,
    up: Seq<u8>,
    vp: Seq<u8>,
    seg: u8,
    q: usize,
    skip: bool,
    tx: u8,
) -> (EntModel, Seq<SymModel>, Seq<u8>, Seq<u8>, Seq<u8>) {
    let (bw, bh) = (bw_px as int, bh_px as int);
    let ops = spec_inter_mode_bits_ops(g, cfg.ref_mode, r, c, bw_px, bh_px, skip, tx, p.mode, p.ref_frame, p.second_ref, p.mv, p.mv1, f, seg);
    let syms1 = syms + bools_model(ops);
    if skip {
        (clear_model(ent, g.mi_cols as int, g.mi_rows as int, r, c, bw / 8, bh / 8), syms1, yp, up, vp)
    } else {
        emit_block(block_tilings(cfg, yp, up, vp, r, c, bw_px, bh_px, tx, q), ent, syms1)
    }
}

/// The rest of coding a block once its pick, filter, predictions, segment,
/// quantizer and transform are known: the mode info, then either the
/// cleared token flags of a skipped block or its transform blocks, then the
/// reconstruction and the block's mode info in the grid.
#[verifier::opaque]
pub open spec fn block_tail(
    cfg: InterCfg,
    s: ResidualModel,
    r: int,
    c: int,
    bw_px: u32,
    bh_px: u32,
    p: InterPick,
    f: InterpFilter,
    yp: Seq<u8>,
    up: Seq<u8>,
    vp: Seq<u8>,
    seg: u8,
    q: usize,
    skip: bool,
    tx: u8,
) -> ResidualModel {
    let w = cfg.src.width as int;
    let (bw, bh) = (bw_px as int, bh_px as int);
    let (ent, syms, yb, ub, vb) = tail_coefs(cfg, s.grid, s.ent, s.syms, r, c, bw_px, bh_px, p, f, yp, up, vp, seg, q, skip, tx);
    let info = ResidualMi {
        skip,
        is_inter: true,
        ref_frame: p.ref_frame,
        second_ref: p.second_ref,
        mode: p.mode,
        mv: p.mv,
        mv1: p.mv1,
        bw_px,
        bh_px,
        block_origin: true,
        tx_size: tx,
        interp_filter: f,
    };
    ResidualModel {
        grid: stored_grid(s.grid, r, c, bw / 8, bh / 8, info),
        ent,
        part: s.part,
        y: stored(s.y, w, c * 8, r * 8, bw, bh, yb),
        u: stored(s.u, w / 2, c * 4, r * 4, bw / 2, bh / 2, ub),
        v: stored(s.v, w / 2, c * 4, r * 4, bw / 2, bh / 2, vb),
        syms,
        ok: true,
    }
}

/// A block of the frame: inside it, of a coded size.
pub open spec fn block_in_frame(f: &Yuv420Frame, r: int, c: int, bw_px: u32, bh_px: u32) -> bool {
    &&& 0 <= r
    &&& 0 <= c
    &&& block_size_ok(bw_px, bh_px)
    &&& (r + bh_px / 8) * 8 <= f.height
    &&& (c + bw_px / 8) * 8 <= f.width
    &&& r % 8 + bh_px / 8 <= 8
    &&& c % 8 + bw_px / 8 <= 8
}

proof fn lemma_size_ok(bw_px: u32, bh_px: u32)
    requires
        block_size_ok(bw_px, bh_px),
    ensures
        8 <= bw_px <= 64,
        8 <= bh_px <= 64,
        bw_px % 8 == 0,
        bh_px % 8 == 0,
        bw_px / 8 <= 8,
        bh_px / 8 <= 8,
        spec_max_tx_size_wh(bw_px, bh_px) >= 1,
        spec_max_tx_size_wh(bw_px, bh_px) <= 3,
        spec_uv_tx_size_wh(bw_px, bh_px, spec_max_tx_size_wh(bw_px, bh_px)) <= 3,
        spec_uv_tx_size_wh(bw_px, bh_px, (spec_max_tx_size_wh(bw_px, bh_px) - 1) as u8) <= 3,
{
}

/// A luma block of a frame is searchable against a reference of its size.
#[verifier::spinoff_prover]
proof fn lemma_ctx_ok(src: &Yuv420Frame, rf: &Reconstruction, px: usize, py: usize, bw: usize, bh: usize)
    requires
        frame_ok(src),
        ref_ok(rf, src),
        1 <= bw <= 64,
        1 <= bh <= 64,
        px + bw <= src.width,
        py + bh <= src.height,
    ensures
        ctx_ok_of(src, rf, px, py, bw, bh),
{
    let w = src.width as int;
    let h = src.height as int;
    assert((h - 1) * w + w == h * w && h * w == w * h) by (nonlinear_arith);
    assert((py + bh - 1) * w + px + bw <= h * w) by (nonlinear_arith)
        requires
            py + bh <= h,
            px + bw <= w,
            w >= 0,
            py + bh >= 1,
    ;
    assert(255 * bw * bh <= 255 * 64 * 64 && (bh + 7) * bw <= 71 * 64) by (nonlinear_arith)
        requires
            1 <= bw <= 64,
            1 <= bh <= 64,
    ;
}

pub open spec fn ctx_ok_of(src: &Yuv420Frame, rf: &Reconstruction, px: usize, py: usize, bw: usize, bh: usize) -> bool {
    crate::vp9::me::ctx_ok(luma_ctx(src.y@, rf.y@, src.width as usize, src.height as usize, px, py, bw, bh))
}

/// Every reference a block can be predicted from has the frame's size.
proof fn lemma_recon_of_ok(cfg: InterCfg, rf: i8)
    requires
        cfg_ok(cfg),
    ensures
        ref_ok(recon_of(cfg.last, cfg.golden, cfg.altref, rf), cfg.src),
{
}

/// A block plane's tiling reads inside its prediction and source and
/// quantizes without overflow.
#[verifier::spinoff_prover]
proof fn lemma_block_ptx_ok(pred: Seq<u8>, bw: usize, bh: usize, src: Seq<u8>, stride: usize, ox: usize, oy: usize, tx: u8, qindex: usize, ph: int)
    requires
        1 <= bw <= 64,
        bh <= 64,
        pred.len() == bw * bh,
        ox + bw <= stride,
        oy + bh <= ph,
        src.len() == stride * ph,
        tx <= 3,
    ensures
        ptx_ok(mk_ptx(pred, bw, bh, src, stride, ox, oy, tx, qindex)),
{
    let g = mk_ptx(pred, bw, bh, src, stride, ox, oy, tx, qindex);
    let n = tx_side(tx);
    let rows = ptx_rows(g);
    let cols = ptx_cols(g);
    assert(rows * n <= bh && cols * n <= bw && rows >= 0 && cols >= 0) by (nonlinear_arith)
        requires
            rows == bh as int / n,
            cols == bw as int / n,
            n >= 4,
            bh >= 0,
            bw >= 0,
    ;
    if rows >= 1 && cols >= 1 {
        assert((oy + rows * n - 1) * stride + ox + cols * n <= src.len()) by (nonlinear_arith)
            requires
                rows * n <= bh,
                cols * n <= bw,
                rows >= 1,
                n >= 4,
                oy + bh <= ph,
                ox + bw <= stride,
                src.len() == stride * ph,
        ;
    }
    assert forall|t: int| 0 <= t < rows * cols implies crate::vp9::plane_tx::tile_quantizable(#[trigger] ptx_res(g, t), tx, qindex) by {
        let x = g.ox + ptx_lx(g, t);
        let y = g.oy + ptx_ly(g, t);
        lemma_tile_res_small(pred, bw as int, src, stride as int, x, y, ptx_lx(g, t), ptx_ly(g, t), n);
        lemma_small_tile_quantizable(ptx_res(g, t), tx, qindex);
    }
}

/// A grid whose every unit equals the stored block's or the old one is the
/// stored grid.
#[verifier::spinoff_prover]
proof fn lemma_grid_stored(old_g: MiGridView, new_g: MiGridView, r0: int, c0: int, bw: int, bh: int, info: ResidualMi)
    requires
        old_g.wf(),
        new_g.wf(),
        new_g.mi_cols == old_g.mi_cols,
        new_g.mi_rows == old_g.mi_rows,
        new_g.tile_col_start == old_g.tile_col_start,
        new_g.tile_col_end == old_g.tile_col_end,
        forall|r: int, c: int|
            old_g.pos_ok(r, c) ==> #[trigger] new_g.at(r, c) == if in_block(r, c, r0, c0, bw, bh) {
                ResidualMi { block_origin: r == r0 && c == c0, ..info }
            } else {
                old_g.at(r, c)
            },
    ensures
        new_g == stored_grid(old_g, r0, c0, bw, bh, info),
{
    let cols = old_g.mi_cols as int;
    let sg = stored_grid(old_g, r0, c0, bw, bh, info);
    assert forall|k: int| 0 <= k < new_g.mi.len() implies new_g.mi[k] == sg.mi[k] by {
        let r = k / cols;
        let c = k % cols;
        assert(0 <= r < old_g.mi_rows && 0 <= c < cols && r * cols + c == k) by (nonlinear_arith)
            requires
                0 <= k < old_g.mi_rows * cols,
                r == k / cols,
                c == k % cols,
                cols >= 0,
        ;
        assert(old_g.pos_ok(r, c));
        assert(new_g.at(r, c) == new_g.mi[k]);
    }
    assert(new_g.mi =~= sg.mi);
}

/// Every block origin of the grid records a transform size and a block
/// inside its superblock, as the loop filter needs.
pub open spec fn lf_ready(g: MiGridView) -> bool {
    forall|k: int|
        0 <= k < g.mi.len() && (#[trigger] g.mi[k]).block_origin ==> g.mi[k].tx_size < 4 && block_fits(
            (g.mi[k].bw_px / 8) as int,
            (g.mi[k].bh_px / 8) as int,
            (k / (g.mi_cols as int)) % 8,
            (k % (g.mi_cols as int)) % 8,
        )
}

/// The running state of a residual inter frame encode.
struct ResidualEnc {
    grid: MiGrid,
    ent: TokenContext,
    part: PartitionContext,
    recon_y: Vec<u8>,
    recon_u: Vec<u8>,
    recon_v: Vec<u8>,
    syms: Vec<TileSym>,
    ok: bool,
}

impl ResidualEnc {
    spec fn model(&self) -> ResidualModel {
        ResidualModel {
            grid: self.grid@,
            ent: ent_model(&self.ent),
            part: self.part@,
            y: self.recon_y@,
            u: self.recon_u@,
            v: self.recon_v@,
            syms: syms_model(self.syms@),
            ok: self.ok,
        }
    }

    spec fn inv(&self, cfg: InterCfg) -> bool {
        let w = cfg.src.width;
        let h = cfg.src.height;
        &&& cfg_ok(cfg)
        &&& self.grid.wf()
        &&& self.grid.mi_cols == w / 8
        &&& self.grid.mi_rows == h / 8
        &&& (self.ok ==> mvs_negatable(self.grid@))
        &&& sizes_coded(self.grid.mi@)
        &&& lf_ready(self.grid@)
        &&& self.ent.wf()
        &&& self.ent.mi_cols == w / 8
        &&& self.ent.mi_rows == h / 8
        &&& self.part.wf()
        &&& self.part.mi_cols == w / 8
        &&& self.recon_y@.len() == w * h
        &&& self.recon_u@.len() == (w / 2) * (h / 2)
        &&& self.recon_v@.len() == (w / 2) * (h / 2)
    }
}

/// Choose the references, mode and vectors of a block (see `block_pick`).
#[verifier::spinoff_prover]
fn pick_block(grid: &MiGrid, cfg: &InterCfg, r: usize, c: usize, bw_px: u32, bh_px: u32) -> (p: InterPick)
    requires
        cfg_ok(*cfg),
        grid.wf(),
        mvs_negatable(grid@),
        grid.mi_cols == cfg.src.width / 8,
        grid.mi_rows == cfg.src.height / 8,
        block_in_frame(cfg.src, r as int, c as int, bw_px, bh_px),
    ensures
        p == block_pick(*cfg, grid@, r as int, c as int, bw_px, bh_px),
{
    if cfg.search {
        let w = cfg.src.width as usize;
        let h = cfg.src.height as usize;
        let px = c * 8;
        let py = r * 8;
        proof {
            lemma_size_ok(bw_px, bh_px);
            lemma_ctx_ok(cfg.src, cfg.last, px, py, bw_px as usize, bh_px as usize);
            if let Some(g) = cfg.golden {
                lemma_ctx_ok(cfg.src, g, px, py, bw_px as usize, bh_px as usize);
            }
            if let Some(a) = cfg.altref {
                lemma_ctx_ok(cfg.src, a, px, py, bw_px as usize, bh_px as usize);
            }
        }
        pick_ref_and_mode(
            grid,
            cfg.src.y.as_slice(),
            cfg.last,
            cfg.golden,
            cfg.altref,
            cfg.ref_mode,
            r,
            c,
            bw_px,
            bh_px,
            c * 8,
            r * 8,
            bw_px as usize,
            bh_px as usize,
            w,
            h,
        )
    } else if cfg.newmv {
        InterPick { mv: cfg.mv, mv1: Mv { row: 0, col: 0 }, mode: NEWMV, ref_frame: LAST_FRAME, second_ref: INTRA_FRAME }
    } else {
        InterPick {
            mv: Mv { row: 0, col: 0 },
            mv1: Mv { row: 0, col: 0 },
            mode: ZEROMV,
            ref_frame: LAST_FRAME,
            second_ref: INTRA_FRAME,
        }
    }
}

/// The vector `mv` differs from the nearest reference vector of `rf` by an `i16`.
#[verifier::spinoff_prover]
fn vector_codable(grid: &MiGrid, r: usize, c: usize, bw_px: u32, bh_px: u32, rf: i8, mv: Mv) -> (b: bool)
    requires
        grid.wf(),
        mvs_negatable(grid@),
        r <= 0x10_0000,
        c <= 0x10_0000,
        bw_px / 8 <= grid.mi_cols + 4,
        bh_px / 8 <= grid.mi_rows + 4,
    ensures
        b == mv_codable(grid@, block_query(r as int, c as int, bw_px, bh_px), spec_mv_ref_neighbors(bw_px, bh_px), rf, mv),
{
    let (nearest, _near) = grid.ref_mvs(r, c, bw_px, bh_px, rf);
    let dr = mv.row as i32 - nearest.row as i32;
    let dc = mv.col as i32 - nearest.col as i32;
    -32768 <= dr && dr <= 32767 && -32768 <= dc && dc <= 32767
}

/// Whether the pick can be coded (see `block_codable`).
#[verifier::spinoff_prover]
fn check_codable(grid: &MiGrid, cfg: &InterCfg, r: usize, c: usize, bw_px: u32, bh_px: u32, p: InterPick) -> (b: bool)
    requires
        grid.wf(),
        mvs_negatable(grid@),
        r <= 0x10_0000,
        c <= 0x10_0000,
        bw_px / 8 <= grid.mi_cols + 4,
        bh_px / 8 <= grid.mi_rows + 4,
    ensures
        b == block_codable(*cfg, grid@, r as int, c as int, bw_px, bh_px, p),
{
    let mode_ok = p.mode == crate::vp9::tables::NEARESTMV || p.mode == crate::vp9::tables::NEARMV || p.mode == ZEROMV
        || p.mode == NEWMV;
    let refs_ok = match cfg.ref_mode {
        RefMode::Compound => p.second_ref > INTRA_FRAME,
        RefMode::Single => p.second_ref <= INTRA_FRAME,
        RefMode::Select => true,
    };
    let neg_ok = p.mv.row > i16::MIN && p.mv.col > i16::MIN && p.mv1.row > i16::MIN && p.mv1.col > i16::MIN;
    if !(mode_ok && refs_ok && neg_ok) {
        return false;
    }
    if p.mode == NEWMV {
        if !vector_codable(grid, r, c, bw_px, bh_px, p.ref_frame, p.mv) {
            return false;
        }
        if p.second_ref > INTRA_FRAME {
            return vector_codable(grid, r, c, bw_px, bh_px, p.second_ref, p.mv1);
        }
    }
    true
}

/// Append the decisions after the first of `d` as bool symbols.
#[verifier::spinoff_prover]
fn push_decisions(syms: &mut Vec<TileSym>, d: &Vec<(u8, bool)>)
    requires
        d@.len() >= 1,
    ensures
        syms_model(final(syms)@) == syms_model(old(syms)@) + bools_model(d@.subrange(1, d@.len() as int)),
{
    let ghost s0 = syms_model(syms@);
    let mut i: usize = 1;
    while i < d.len()
        invariant
            1 <= i <= d@.len(),
            syms_model(syms@) == s0 + bools_model(d@.subrange(1, i as int)),
        decreases d@.len() - i,
    {
        let (pr, bit) = d[i];
        let ghost before = syms@;
        syms.push(TileSym::Bool(pr, bit));
        assert(syms_model(syms@) =~= syms_model(before).push(SymModel::Bool(pr, bit)));
        assert(d@.subrange(1, i + 1) =~= d@.subrange(1, i as int).push(d@[i as int]));
        assert(bools_model(d@.subrange(1, i + 1)) =~= bools_model(d@.subrange(1, i as int)).push(SymModel::Bool(pr, bit)));
        assert(syms_model(syms@) =~= s0 + bools_model(d@.subrange(1, i + 1)));
        i += 1;
    }
}

/// The three plane predictions of a block under its pick and filter.
#[verifier::spinoff_prover]
#[verifier::rlimit(40)]
fn block_preds(cfg: &InterCfg, p: InterPick, f: InterpFilter, r: usize, c: usize, bw_px: u32, bh_px: u32) -> (res: (
    Vec<u8>,
    Vec<u8>,
    Vec<u8>,
))
    requires
        cfg_ok(*cfg),
        block_in_frame(cfg.src, r as int, c as int, bw_px, bh_px),
    ensures
        ({
            let w = cfg.src.width as int;
            let h = cfg.src.height as int;
            let comp = p.second_ref > INTRA_FRAME;
            let r0 = recon_of(cfg.last, cfg.golden, cfg.altref, p.ref_frame);
            let r1 = recon_of(cfg.last, cfg.golden, cfg.altref, p.second_ref);
            let (bw, bh) = (bw_px as int, bh_px as int);
            &&& res.0@ == plane_pred(r0.y@, r1.y@, w, h, c * 8, r * 8, bw, bh, p.mv, p.mv1, comp, false, f)
            &&& res.1@ == plane_pred(r0.u@, r1.u@, w / 2, h / 2, c * 4, r * 4, bw / 2, bh / 2, p.mv, p.mv1, comp, true, f)
            &&& res.2@ == plane_pred(r0.v@, r1.v@, w / 2, h / 2, c * 4, r * 4, bw / 2, bh / 2, p.mv, p.mv1, comp, true, f)
        }),
{
    proof {
        lemma_size_ok(bw_px, bh_px);
        lemma_recon_of_ok(*cfg, p.ref_frame);
        lemma_recon_of_ok(*cfg, p.second_ref);
    }
    let w = cfg.src.width as usize;
    let h = cfg.src.height as usize;
    let cw = w / 2;
    let ch = h / 2;
    let ref0 = recon_for(cfg.last, cfg.golden, cfg.altref, p.ref_frame);
    let ref1 = recon_for(cfg.last, cfg.golden, cfg.altref, p.second_ref);
    let comp = p.second_ref > INTRA_FRAME;
    let bw = bw_px as usize;
    let bh = bh_px as usize;
    proof {
        assert((h - 1) * w + w == w * h) by (nonlinear_arith);
        assert((ch - 1) * cw + cw == cw * ch) by (nonlinear_arith);
    }
    let yp = predict_plane(ref0.y.as_slice(), ref1.y.as_slice(), w, h, c * 8, r * 8, bw, bh, p.mv, p.mv1, comp, false, f);
    let up = predict_plane(ref0.u.as_slice(), ref1.u.as_slice(), cw, ch, c * 4, r * 4, bw / 2, bh / 2, p.mv, p.mv1, comp, true, f);
    let vp = predict_plane(ref0.v.as_slice(), ref1.v.as_slice(), cw, ch, c * 4, r * 4, bw / 2, bh / 2, p.mv, p.mv1, comp, true, f);
    (yp, up, vp)
}

/// Choose the luma transform of a block and whether any level is
/// non-zero (see `choose_tx`).
#[verifier::spinoff_prover]
#[verifier::rlimit(40)]
fn block_tx(cfg: &InterCfg, yp: &Vec<u8>, up: &Vec<u8>, vp: &Vec<u8>, r: usize, c: usize, bw_px: u32, bh_px: u32, q: usize) -> (res: (u8, bool))
    requires
        cfg_ok(*cfg),
        block_in_frame(cfg.src, r as int, c as int, bw_px, bh_px),
        yp@.len() == bw_px * bh_px,
        up@.len() == (bw_px / 2) * (bh_px / 2),
        vp@.len() == (bw_px / 2) * (bh_px / 2),
    ensures
        res == choose_tx(
            tx_score(*cfg, yp@, up@, vp@, r as int, c as int, bw_px, bh_px, spec_max_tx_size_wh(bw_px, bh_px), q),
            tx_score(*cfg, yp@, up@, vp@, r as int, c as int, bw_px, bh_px, (spec_max_tx_size_wh(bw_px, bh_px) - 1) as u8, q),
            spec_max_tx_size_wh(bw_px, bh_px),
        ),
{
    proof {
        lemma_size_ok(bw_px, bh_px);
    }
    let w = cfg.src.width as usize;
    let h = cfg.src.height as usize;
    let cw = w / 2;
    let ch = h / 2;
    let px = c * 8;
    let py = r * 8;
    let bw = bw_px as usize;
    let bh = bh_px as usize;
    let maxtx = max_tx_size_wh(bw_px, bh_px);
    let small = maxtx - 1;
    proof {
        lemma_block_ptx_ok(yp@, bw, bh, cfg.src.y@, w, px, py, maxtx, q, h as int);
        lemma_block_ptx_ok(up@, bw / 2, bh / 2, cfg.src.u@, cw, px / 2, py / 2, spec_uv_tx_size_wh(bw_px, bh_px, maxtx), q, ch as int);
        lemma_block_ptx_ok(vp@, bw / 2, bh / 2, cfg.src.v@, cw, px / 2, py / 2, spec_uv_tx_size_wh(bw_px, bh_px, maxtx), q, ch as int);
        lemma_block_ptx_ok(yp@, bw, bh, cfg.src.y@, w, px, py, small, q, h as int);
        lemma_block_ptx_ok(up@, bw / 2, bh / 2, cfg.src.u@, cw, px / 2, py / 2, spec_uv_tx_size_wh(bw_px, bh_px, small), q, ch as int);
        lemma_block_ptx_ok(vp@, bw / 2, bh / 2, cfg.src.v@, cw, px / 2, py / 2, spec_uv_tx_size_wh(bw_px, bh_px, small), q, ch as int);
    }
    let (c0, a0) = score_block_tx(
        bw_px, bh_px, maxtx, yp.as_slice(), up.as_slice(), vp.as_slice(), cfg.src.y.as_slice(), cfg.src.u.as_slice(),
        cfg.src.v.as_slice(), w, cw, px, py, px / 2, py / 2, q);
    let (c1, a1) = score_block_tx(
        bw_px, bh_px, small, yp.as_slice(), up.as_slice(), vp.as_slice(), cfg.src.y.as_slice(), cfg.src.u.as_slice(),
        cfg.src.v.as_slice(), w, cw, px, py, px / 2, py / 2, q);
    let mut best_tx = maxtx;
    let mut best_cost = u32::MAX;
    let mut best_any = true;
    if (!a0 && best_any) || (a0 == best_any && (c0 < best_cost || (c0 == best_cost && maxtx < best_tx))) {
        best_tx = maxtx;
        best_cost = c0;
        best_any = a0;
    }
    if (!a1 && best_any) || (a1 == best_any && (c1 < best_cost || (c1 == best_cost && small < best_tx))) {
        best_tx = small;
        best_any = a1;
    }
    (best_tx, best_any)
}

/// Append the mode-info bools of a block.
#[verifier::spinoff_prover]
fn push_mode_bits(
    grid: &MiGrid,
    syms: &mut Vec<TileSym>,
    cfg: &InterCfg,
    r: usize,
    c: usize,
    bw_px: u32,
    bh_px: u32,
    skip: bool,
    tx: u8,
    p: InterPick,
    f: InterpFilter,
    seg: u8,
)
    requires
        grid.wf(),
        mvs_negatable(grid@),
        grid.pos_ok(r as int, c as int),
        bw_px / 8 <= grid.mi_cols + 4,
        bh_px / 8 <= grid.mi_rows + 4,
        block_codable(*cfg, grid@, r as int, c as int, bw_px, bh_px, p),
        f != InterpFilter::Bilinear,
    ensures
        syms_model(final(syms)@) == syms_model(old(syms)@) + bools_model(
            spec_inter_mode_bits_ops(grid@, cfg.ref_mode, r as int, c as int, bw_px, bh_px, skip, tx, p.mode, p.ref_frame, p.second_ref, p.mv, p.mv1, f, seg),
        ),
{
    let mut e = BoolEncoder::new();
    let ghost e0 = e@;
    write_inter_mode_bits(grid, &mut e, cfg.ref_mode, r, c, bw_px, bh_px, skip, tx, p.mode, p.ref_frame, p.second_ref, p.mv, p.mv1, f, seg);
    let ghost ops = spec_inter_mode_bits_ops(grid@, cfg.ref_mode, r as int, c as int, bw_px, bh_px, skip, tx, p.mode, p.ref_frame, p.second_ref, p.mv, p.mv1, f, seg);
    proof {
        lemma_put_bools_log(e0, ops);
        assert(e0.log =~= seq![(128u8, false)]);
    }
    let d = e.decisions();
    assert(d@.subrange(1, d@.len() as int) =~= ops);
    push_decisions(syms, d);
}

/// Emit every transform block of the three planes and reconstruct them
/// (see `emit_block`).
#[verifier::spinoff_prover]
#[verifier::rlimit(60)]
fn residual_planes(
    ent: &mut TokenContext,
    syms: &mut Vec<TileSym>,
    cfg: &InterCfg,
    yp: &Vec<u8>,
    up: &Vec<u8>,
    vp: &Vec<u8>,
    r: usize,
    c: usize,
    bw_px: u32,
    bh_px: u32,
    tx: u8,
    q: usize,
) -> (res: (Vec<u8>, Vec<u8>, Vec<u8>))
    requires
        cfg_ok(*cfg),
        block_in_frame(cfg.src, r as int, c as int, bw_px, bh_px),
        old(ent).wf(),
        old(ent).mi_cols == cfg.src.width / 8,
        yp@.len() == bw_px * bh_px,
        up@.len() == (bw_px / 2) * (bh_px / 2),
        vp@.len() == (bw_px / 2) * (bh_px / 2),
        tx <= 3,
    ensures
        final(ent).wf(),
        final(ent).mi_cols == old(ent).mi_cols,
        final(ent).mi_rows == old(ent).mi_rows,
        res.0@.len() == yp@.len(),
        res.1@.len() == up@.len(),
        res.2@.len() == vp@.len(),
        (ent_model(final(ent)), syms_model(final(syms)@), res.0@, res.1@, res.2@) == emit_block(
            block_tilings(*cfg, yp@, up@, vp@, r as int, c as int, bw_px, bh_px, tx, q),
            ent_model(old(ent)),
            syms_model(old(syms)@),
        ),
{
    proof {
        lemma_size_ok(bw_px, bh_px);
    }
    let w = cfg.src.width as usize;
    let h = cfg.src.height as usize;
    let cw = w / 2;
    let ch = h / 2;
    let px = c * 8;
    let py = r * 8;
    let bw = bw_px as usize;
    let bh = bh_px as usize;
    let uv_tx = uv_tx_size_wh(bw_px, bh_px, tx);
    proof {
        lemma_block_ptx_ok(yp@, bw, bh, cfg.src.y@, w, px, py, tx, q, h as int);
        lemma_block_ptx_ok(up@, bw / 2, bh / 2, cfg.src.u@, cw, px / 2, py / 2, uv_tx, q, ch as int);
        lemma_block_ptx_ok(vp@, bw / 2, bh / 2, cfg.src.v@, cw, px / 2, py / 2, uv_tx, q, ch as int);
    }
    let y_tiles = prepare_plane_tx(yp.as_slice(), bw, bh, cfg.src.y.as_slice(), w, px, py, tx, q);
    let u_tiles = prepare_plane_tx(up.as_slice(), bw / 2, bh / 2, cfg.src.u.as_slice(), cw, px / 2, py / 2, uv_tx, q);
    let v_tiles = prepare_plane_tx(vp.as_slice(), bw / 2, bh / 2, cfg.src.v.as_slice(), cw, px / 2, py / 2, uv_tx, q);
    let ghost m0 = ent_model(ent);
    let ghost s0 = syms_model(syms@);
    let mut yb = yp.clone();
    let mut ub = up.clone();
    let mut vb = vp.clone();
    assert(yb@ == yp@ && ub@ == up@ && vb@ == vp@);
    emit_plane_tx(ent, EntPlane::Y, syms, &mut yb, &y_tiles, yp.as_slice(), bw, bh, cfg.src.y.as_slice(), w, px, py, tx, q, w);
    let ghost m1 = ent_model(ent);
    emit_plane_tx(ent, EntPlane::U, syms, &mut ub, &u_tiles, up.as_slice(), bw / 2, bh / 2, cfg.src.u.as_slice(), cw, px / 2, py / 2, uv_tx, q, cw);
    let ghost m2 = ent_model(ent);
    emit_plane_tx(ent, EntPlane::V, syms, &mut vb, &v_tiles, vp.as_slice(), bw / 2, bh / 2, cfg.src.v.as_slice(), cw, px / 2, py / 2, uv_tx, q, cw);
    proof {
        assert(m1.au == m0.au && m1.lu == m0.lu && m1.av == m0.av && m1.lv == m0.lv) by {
            assert(ent_model(ent).au == ent_model(ent).au);
        }
    }
    (yb, ub, vb)
}

/// Clear the token flags of a skipped block (see `clear_model`).
fn clear_block(ent: &mut TokenContext, r: usize, c: usize, bw_mi: usize, bh_mi: usize)
    requires
        old(ent).wf(),
        bw_mi <= 8,
        bh_mi <= 8,
        r <= 0x10_0000,
    ensures
        final(ent).wf(),
        final(ent).mi_cols == old(ent).mi_cols,
        final(ent).mi_rows == old(ent).mi_rows,
        ent_model(final(ent)) == clear_model(
            ent_model(old(ent)),
            old(ent).mi_cols as int,
            old(ent).mi_rows as int,
            r as int,
            c as int,
            bw_mi as int,
            bh_mi as int,
        ),
{
    let ghost m0 = ent_model(ent);
    ent.clear_ent_block(r, c, bw_mi, bh_mi);
    let ghost m = clear_model(m0, ent.mi_cols as int, ent.mi_rows as int, r as int, c as int, bw_mi as int, bh_mi as int);
    assert(ent.above_ent_y@ =~= m.ay);
    assert(ent.above_ent_u@ =~= m.au);
    assert(ent.above_ent_v@ =~= m.av);
    assert(ent.left_ent_y@ =~= m.ly);
    assert(ent.left_ent_u@ =~= m.lu);
    assert(ent.left_ent_v@ =~= m.lv);
}

/// Write a block's reconstruction into a plane (see `stored`).
fn store_block(plane: &mut Vec<u8>, stride: usize, x: usize, y: usize, bw: usize, bh: usize, b: &Vec<u8>)
    requires
        x + bw <= stride,
        (y + bh) * stride <= old(plane)@.len(),
        bw * bh <= b@.len(),
    ensures
        final(plane)@ == stored(old(plane)@, stride as int, x as int, y as int, bw as int, bh as int, b@),
{
    let ghost p0 = plane@;
    store_plane(plane.as_mut_slice(), stride, x, y, bw, bh, b.as_slice());
    assert(plane@ =~= stored(p0, stride as int, x as int, y as int, bw as int, bh as int, b@));
}

impl ResidualEnc {
    /// Code the `bw_px × bh_px` block at MI `(r, c)` (see `residual_block_step`).
    #[verifier::spinoff_prover]
    #[verifier::rlimit(100)]
    fn encode_block(&mut self, cfg: &InterCfg, r: usize, c: usize, bw_px: u32, bh_px: u32)
        requires
            old(self).inv(*cfg),
            block_in_frame(cfg.src, r as int, c as int, bw_px, bh_px),
        ensures
            final(self).inv(*cfg),
            final(self).model() == residual_block_step(*cfg, old(self).model(), r as int, c as int, bw_px, bh_px),
    {
        let ghost s = self.model();
        proof {
            lemma_size_ok(bw_px, bh_px);
        }
        if !self.ok {
            proof {
                reveal(residual_block_step);
            }
            return;
        }
        let p = pick_block(&self.grid, cfg, r, c, bw_px, bh_px);
        if !check_codable(&self.grid, cfg, r, c, bw_px, bh_px, p) {
            self.ok = false;
            proof {
                reveal(residual_block_step);
            }
            return;
        }
        let w = cfg.src.width as usize;
        let h = cfg.src.height as usize;
        let cw = w / 2;
        let ch = h / 2;
        let px = c * 8;
        let py = r * 8;
        let bw = bw_px as usize;
        let bh = bh_px as usize;
        proof {
            lemma_recon_of_ok(*cfg, p.ref_frame);
            lemma_recon_of_ok(*cfg, p.second_ref);
            lemma_ctx_ok(cfg.src, recon_of(cfg.last, cfg.golden, cfg.altref, p.ref_frame), px, py, bw, bh);
            lemma_ctx_ok(cfg.src, recon_of(cfg.last, cfg.golden, cfg.altref, p.second_ref), px, py, bw, bh);
        }
        let f = pick_interp_filter(
            cfg.src.y.as_slice(), cfg.last, cfg.golden, cfg.altref, px, py, bw, bh, w, h, p.mv, p.mv1, p.ref_frame, p.second_ref);
        assert(f == block_filter(*cfg, p, r as int, c as int, bw_px, bh_px));
        let (yp, up, vp) = block_preds(cfg, p, f, r, c, bw_px, bh_px);
        let seg = segment_id_for_mi_col(c, self.grid.mi_cols);
        let q = qindex_for_segment(seg);
        let (best_tx, any) = block_tx(cfg, &yp, &up, &vp, r, c, bw_px, bh_px, q);
        let skip = !any;
        let maxtx = max_tx_size_wh(bw_px, bh_px);
        let tx = if skip {
            maxtx
        } else {
            best_tx
        };
        self.finish_block(cfg, r, c, bw_px, bh_px, p, f, yp, up, vp, seg, q, skip, tx);
        proof {
            reveal(residual_block_step);
        }
    }
}

/// Record a block's mode info in the grid (see `stored_grid`).
#[verifier::spinoff_prover]
fn store_block_mi(grid: &mut MiGrid, r: usize, c: usize, bw_mi: usize, bh_mi: usize, info: ResidualMi)
    requires
        old(grid).wf(),
        mvs_negatable(old(grid)@),
        sizes_coded(old(grid).mi@),
        r <= 0x10_0000,
        c <= 0x10_0000,
        bw_mi <= 8,
        bh_mi <= 8,
        info.mv.row > i16::MIN && info.mv.col > i16::MIN && info.mv1.row > i16::MIN && info.mv1.col > i16::MIN,
        spec_partition_ctx_index_wh(info.bw_px, info.bh_px) is Some,
        lf_ready(old(grid)@),
        info.tx_size < 4,
        info.bw_px / 8 == bw_mi,
        info.bh_px / 8 == bh_mi,
        r % 8 + bh_mi <= 8,
        c % 8 + bw_mi <= 8,
    ensures
        lf_ready(final(grid)@),
        final(grid).wf(),
        final(grid).mi_cols == old(grid).mi_cols,
        final(grid).mi_rows == old(grid).mi_rows,
        mvs_negatable(final(grid)@),
        sizes_coded(final(grid).mi@),
        final(grid)@ == stored_grid(old(grid)@, r as int, c as int, bw_mi as int, bh_mi as int, info),
{
    let ghost g0 = grid@;
    grid.store_mi(r, c, bw_mi, bh_mi, info);
    proof {
        assert forall|rr: int, cc: int| g0.pos_ok(rr, cc) implies #[trigger] grid@.at(rr, cc) == if in_block(
            rr,
            cc,
            r as int,
            c as int,
            bw_mi as int,
            bh_mi as int,
        ) {
            ResidualMi { block_origin: rr == r && cc == c, ..info }
        } else {
            g0.at(rr, cc)
        } by {
            assert(grid.at(rr, cc) == grid@.at(rr, cc));
        }
        lemma_grid_stored(g0, grid@, r as int, c as int, bw_mi as int, bh_mi as int, info);
        let ng = grid@;
        assert forall|k: int| 0 <= k < ng.mi.len() implies (#[trigger] ng.mi[k]).mv.row > i16::MIN && ng.mi[k].mv.col
            > i16::MIN && ng.mi[k].mv1.row > i16::MIN && ng.mi[k].mv1.col > i16::MIN by {}
        assert forall|k: int| 0 <= k < ng.mi.len() implies spec_partition_ctx_index_wh(
            (#[trigger] ng.mi[k]).bw_px,
            ng.mi[k].bh_px,
        ) is Some by {}
        assert forall|k: int| 0 <= k < ng.mi.len() && (#[trigger] ng.mi[k]).block_origin implies ng.mi[k].tx_size < 4
            && block_fits(
            (ng.mi[k].bw_px / 8) as int,
            (ng.mi[k].bh_px / 8) as int,
            (k / (ng.mi_cols as int)) % 8,
            (k % (ng.mi_cols as int)) % 8,
        ) by {
            let cols = g0.mi_cols as int;
            let rr = k / cols;
            let cc = k % cols;
            if in_block(rr, cc, r as int, c as int, bw_mi as int, bh_mi as int) {
                if rr == r && cc == c {
                    assert(block_fits(bw_mi as int, bh_mi as int, rr % 8, cc % 8)) by (nonlinear_arith)
                        requires
                            rr % 8 + bh_mi <= 8,
                            cc % 8 + bw_mi <= 8,
                            rr % 8 >= 0,
                            cc % 8 >= 0,
                            bw_mi >= 0,
                            bh_mi >= 0,
                    ;
                }
            }
        }
    }
}

/// The mode-info bools and the coefficients of a block (see `tail_coefs`).
#[verifier::spinoff_prover]
#[verifier::rlimit(60)]
fn code_coefs(
    grid: &MiGrid,
    ent: &mut TokenContext,
    syms: &mut Vec<TileSym>,
    cfg: &InterCfg,
    r: usize,
    c: usize,
    bw_px: u32,
    bh_px: u32,
    p: InterPick,
    f: InterpFilter,
    yp: Vec<u8>,
    up: Vec<u8>,
    vp: Vec<u8>,
    seg: u8,
    q: usize,
    skip: bool,
    tx: u8,
) -> (res: (Vec<u8>, Vec<u8>, Vec<u8>))
    requires
        cfg_ok(*cfg),
        grid.wf(),
        mvs_negatable(grid@),
        grid.mi_cols == cfg.src.width / 8,
        grid.mi_rows == cfg.src.height / 8,
        block_in_frame(cfg.src, r as int, c as int, bw_px, bh_px),
        block_codable(*cfg, grid@, r as int, c as int, bw_px, bh_px, p),
        f != InterpFilter::Bilinear,
        tx <= 3,
        old(ent).wf(),
        old(ent).mi_cols == grid.mi_cols,
        old(ent).mi_rows == grid.mi_rows,
        yp@.len() == bw_px * bh_px,
        up@.len() == (bw_px / 2) * (bh_px / 2),
        vp@.len() == (bw_px / 2) * (bh_px / 2),
    ensures
        final(ent).wf(),
        final(ent).mi_cols == old(ent).mi_cols,
        final(ent).mi_rows == old(ent).mi_rows,
        res.0@.len() == yp@.len(),
        res.1@.len() == up@.len(),
        res.2@.len() == vp@.len(),
        (ent_model(final(ent)), syms_model(final(syms)@), res.0@, res.1@, res.2@) == tail_coefs(
            *cfg,
            grid@,
            ent_model(old(ent)),
            syms_model(old(syms)@),
            r as int,
            c as int,
            bw_px,
            bh_px,
            p,
            f,
            yp@,
            up@,
            vp@,
            seg,
            q,
            skip,
            tx,
        ),
{
    proof {
        lemma_size_ok(bw_px, bh_px);
    }
    let bw = bw_px as usize;
    let bh = bh_px as usize;
        let ghost g0 = grid@;
        let ghost syms1 = syms_model(old(syms)@) + bools_model(
            spec_inter_mode_bits_ops(g0, cfg.ref_mode, r as int, c as int, bw_px, bh_px, skip, tx, p.mode, p.ref_frame, p.second_ref, p.mv, p.mv1, f, seg),
        );
        push_mode_bits(grid, syms, cfg, r, c, bw_px, bh_px, skip, tx, p, f, seg);
        assert(syms_model(syms@) == syms1);
        let ghost ent0 = ent_model(ent);
        let (yb, ub, vb) = if skip {
            clear_block(ent, r, c, bw / 8, bh / 8);
            (yp, up, vp)
        } else {
            residual_planes(ent, syms, cfg, &yp, &up, &vp, r, c, bw_px, bh_px, tx, q)
        };
    (yb, ub, vb)
}


impl ResidualEnc {
    /// The rest of coding a block (see `block_tail`).
    #[verifier::spinoff_prover]
    #[verifier::rlimit(100)]
    fn finish_block(
        &mut self,
        cfg: &InterCfg,
        r: usize,
        c: usize,
        bw_px: u32,
        bh_px: u32,
        p: InterPick,
        f: InterpFilter,
        yp: Vec<u8>,
        up: Vec<u8>,
        vp: Vec<u8>,
        seg: u8,
        q: usize,
        skip: bool,
        tx: u8,
    )
        requires
            old(self).inv(*cfg),
            old(self).ok,
            block_in_frame(cfg.src, r as int, c as int, bw_px, bh_px),
            block_codable(*cfg, old(self).grid@, r as int, c as int, bw_px, bh_px, p),
            f != InterpFilter::Bilinear,
            tx <= 3,
            yp@.len() == bw_px * bh_px,
            up@.len() == (bw_px / 2) * (bh_px / 2),
            vp@.len() == (bw_px / 2) * (bh_px / 2),
        ensures
            final(self).inv(*cfg),
            final(self).model() == block_tail(*cfg, old(self).model(), r as int, c as int, bw_px, bh_px, p, f, yp@, up@, vp@, seg, q, skip, tx),
    {
        let ghost s = self.model();
        proof {
            lemma_size_ok(bw_px, bh_px);
        }
        let w = cfg.src.width as usize;
        let h = cfg.src.height as usize;
        let cw = w / 2;
        let ch = h / 2;
        let px = c * 8;
        let py = r * 8;
        let bw = bw_px as usize;
        let bh = bh_px as usize;
        let (yb, ub, vb) = code_coefs(&self.grid, &mut self.ent, &mut self.syms, cfg, r, c, bw_px, bh_px, p, f, yp, up, vp, seg, q, skip, tx);
        assert((ent_model(&self.ent), syms_model(self.syms@), yb@, ub@, vb@) == tail_coefs(*cfg, s.grid, s.ent, s.syms, r as int, c as int, bw_px, bh_px, p, f, yp@, up@, vp@, seg, q, skip, tx));
        proof {
            assert((py + bh) * w <= w * h) by (nonlinear_arith)
                requires
                    py + bh <= h,
            ;
            assert((py / 2 + bh / 2) * cw <= cw * ch) by (nonlinear_arith)
                requires
                    py / 2 + bh / 2 <= ch,
            ;
        }
        store_block(&mut self.recon_y, w, px, py, bw, bh, &yb);
        store_block(&mut self.recon_u, cw, px / 2, py / 2, bw / 2, bh / 2, &ub);
        store_block(&mut self.recon_v, cw, px / 2, py / 2, bw / 2, bh / 2, &vb);
        let info = ResidualMi {
            skip,
            is_inter: true,
            ref_frame: p.ref_frame,
            second_ref: p.second_ref,
            mode: p.mode,
            mv: p.mv,
            mv1: p.mv1,
            bw_px,
            bh_px,
            block_origin: true,
            tx_size: tx,
            interp_filter: f,
        };
        store_block_mi(&mut self.grid, r, c, bw / 8, bh / 8, info);
        proof {
            reveal(block_tail);
        }
    }
}

/// The partition of the `bsize` block at `(r, c)`: NONE at 8×8; chosen by
/// SAD when searching and the block lies inside the frame; else SPLIT.
pub open spec fn res_partition(cfg: InterCfg, r: int, c: int, bsize: u32) -> i8 {
    let mi_rows = (cfg.src.height / 8) as int;
    let mi_cols = (cfg.src.width / 8) as int;
    let bs = (bsize / 8) as int;
    if bsize == 8 {
        PARTITION_NONE
    } else if cfg.search && r + bs <= mi_rows && c + bs <= mi_cols {
        spec_pick_partition(cfg.src.y@, cfg.last.y@, cfg.src.width as usize, cfg.src.height as usize, r as usize, c as usize, bsize)
    } else {
        PARTITION_SPLIT
    }
}

/// The state with the partition contexts updated for a coded block.
pub open spec fn with_part(s: ResidualModel, r: int, c: int, sub_bw: u32, sub_bh: u32, bsize: u32) -> ResidualModel {
    ResidualModel { part: model_update(s.part, r, c, sub_bw, sub_bh, bsize, bsize), ..s }
}

/// Coding the `bsize` block at `(r, c)`: nothing outside the frame; else its
/// partition bools, then the block (NONE), its two halves (HORZ, VERT)
/// with the partition contexts updated, or its four quarters (SPLIT).
#[verifier::opaque]
pub open spec fn res_part_step(cfg: InterCfg, st: ResidualModel, r: int, c: int, bsize: u32) -> ResidualModel
    decreases bsize,
{
    let mi_rows = (cfg.src.height / 8) as int;
    let mi_cols = (cfg.src.width / 8) as int;
    if r >= mi_rows || c >= mi_cols || !is_square_bsize(bsize) {
        st
    } else {
        let half = (bsize / 8 / 2) as int;
        let partition = res_partition(cfg, r, c, bsize);
        let ops = model_partition_ops(st.part, r, c, bsize, r + half < mi_rows, c + half < mi_cols, partition);
        let st1 = ResidualModel { syms: st.syms + bools_model(ops), ..st };
        if partition == PARTITION_NONE {
            with_part(residual_block_step(cfg, st1, r, c, bsize, bsize), r, c, bsize, bsize, bsize)
        } else if partition == PARTITION_HORZ {
            let a = residual_block_step(cfg, st1, r, c, bsize, bsize / 2);
            with_part(residual_block_step(cfg, a, r + half, c, bsize, bsize / 2), r, c, bsize, bsize / 2, bsize)
        } else if partition == PARTITION_VERT {
            let a = residual_block_step(cfg, st1, r, c, bsize / 2, bsize);
            with_part(residual_block_step(cfg, a, r, c + half, bsize / 2, bsize), r, c, bsize / 2, bsize, bsize)
        } else {
            let sub = bsize / 2;
            let a = res_part_step(cfg, st1, r, c, sub);
            let b = res_part_step(cfg, a, r, c + half, sub);
            let d = res_part_step(cfg, b, r + half, c, sub);
            res_part_step(cfg, d, r + half, c + half, sub)
        }
    }
}

proof fn lemma_partition_tokens()
    ensures
        tree_wf(PARTITION_TREE@),
        tree_has(PARTITION_TREE@, PARTITION_NONE),
        tree_has(PARTITION_TREE@, PARTITION_HORZ),
        tree_has(PARTITION_TREE@, PARTITION_VERT),
        tree_has(PARTITION_TREE@, PARTITION_SPLIT),
{
    crate::vp9::keyframe::lemma_kf_trees();
    let t = seq![0i8, 2i8, -1i8, 4i8, -2i8, -3i8];
    assert(PARTITION_TREE@ =~= t);
    assert(spec_tree_path(t, 4, 3i8) is Some);
    assert(spec_tree_path(t, 2, 3i8) is Some);
    assert(spec_tree_path(t, 4, 2i8) is Some);
    assert(spec_tree_path(t, 2, 2i8) is Some);
    assert(spec_tree_path(t, 2, 1i8) is Some);
    assert(spec_tree_path(t, 0, 0i8) is Some);
    assert(tree_has(t, 3i8));
    assert(tree_has(t, 2i8));
    assert(tree_has(t, 1i8));
    assert(tree_has(t, 0i8));
}

/// Append the partition bools of a block.
#[verifier::spinoff_prover]
fn push_partition(part: &PartitionContext, syms: &mut Vec<TileSym>, r: usize, c: usize, bsize: u32, has_rows: bool, has_cols: bool, partition: i8)
    requires
        part.wf(),
        c < part.mi_cols,
        is_square_bsize(bsize),
        0 <= partition <= 3,
    ensures
        syms_model(final(syms)@) == syms_model(old(syms)@) + bools_model(
            model_partition_ops(part@, r as int, c as int, bsize, has_rows, has_cols, partition),
        ),
{
    proof {
        lemma_partition_tokens();
    }
    let mut e = BoolEncoder::new();
    let ghost e0 = e@;
    part.write_partition(&mut e, r, c, bsize, has_rows, has_cols, partition);
    let ghost ops = model_partition_ops(part@, r as int, c as int, bsize, has_rows, has_cols, partition);
    proof {
        lemma_put_bools_log(e0, ops);
        assert(e0.log =~= seq![(128u8, false)]);
    }
    let d = e.decisions();
    assert(d@.subrange(1, d@.len() as int) =~= ops);
    push_decisions(syms, d);
}

impl ResidualEnc {
    /// Code the `bsize` block at `(r, c)` (see `res_part_step`).
    #[verifier::spinoff_prover]
    #[verifier::rlimit(60)]
    fn encode_partition(&mut self, cfg: &InterCfg, r: usize, c: usize, bsize: u32)
        requires
            old(self).inv(*cfg),
            is_square_bsize(bsize),
            r % 8 + bsize / 8 <= 8,
            c % 8 + bsize / 8 <= 8,
            r <= 0x10_0000,
            c <= 0x10_0000,
        ensures
            final(self).inv(*cfg),
            final(self).model() == res_part_step(*cfg, old(self).model(), r as int, c as int, bsize),
        decreases bsize,
    {
        proof {
            reveal(res_part_step);
        }
        let mi_rows = self.grid.mi_rows;
        let mi_cols = self.grid.mi_cols;
        if r >= mi_rows || c >= mi_cols {
            return;
        }
        let half = (bsize / 8 / 2) as usize;
        let bs = (bsize / 8) as usize;
        let has_rows = r + half < mi_rows;
        let has_cols = c + half < mi_cols;
        let partition = if bsize == 8 {
            PARTITION_NONE
        } else if cfg.search && r + bs <= mi_rows && c + bs <= mi_cols {
            proof {
                lemma_ctx_ok(cfg.src, cfg.last, (c * 8) as usize, (r * 8) as usize, bsize as usize, bsize as usize);
            }
            pick_partition(
                cfg.src.y.as_slice(), cfg.last.y.as_slice(), cfg.src.width as usize, cfg.src.height as usize, r, c, bsize)
        } else {
            PARTITION_SPLIT
        };
        assert(partition == res_partition(*cfg, r as int, c as int, bsize));
        push_partition(&self.part, &mut self.syms, r, c, bsize, has_rows, has_cols, partition);
        if partition == PARTITION_NONE {
            self.encode_block(cfg, r, c, bsize, bsize);
            self.part.update_partition_context(r, c, bsize, bsize, bsize, bsize);
        } else if partition == PARTITION_HORZ {
            self.encode_block(cfg, r, c, bsize, bsize / 2);
            self.encode_block(cfg, r + half, c, bsize, bsize / 2);
            self.part.update_partition_context(r, c, bsize, bsize / 2, bsize, bsize);
        } else if partition == PARTITION_VERT {
            self.encode_block(cfg, r, c, bsize / 2, bsize);
            self.encode_block(cfg, r, c + half, bsize / 2, bsize);
            self.part.update_partition_context(r, c, bsize / 2, bsize, bsize, bsize);
        } else {
            let sub = bsize / 2;
            self.encode_partition(cfg, r, c, sub);
            self.encode_partition(cfg, r, c + half, sub);
            self.encode_partition(cfg, r + half, c, sub);
            self.encode_partition(cfg, r + half, c + half, sub);
        }
    }
}

/// Left contexts cleared at the start of a superblock row of a tile.
pub open spec fn reset_left(st: ResidualModel) -> ResidualModel {
    ResidualModel {
        ent: EntModel {
            ly: Seq::new(16, |i: int| 0u8),
            lu: Seq::new(8, |i: int| 0u8),
            lv: Seq::new(8, |i: int| 0u8),
            ..st.ent
        },
        part: PartitionModel { left: Seq::new(8, |i: int| 0u8), ..st.part },
        ..st
    }
}

/// The first `n` superblocks of superblock row `r` from column `c0`.
#[verifier::opaque]
pub open spec fn res_sb_row(cfg: InterCfg, st: ResidualModel, r: int, c0: int, n: int) -> ResidualModel
    decreases n,
{
    if n <= 0 {
        st
    } else {
        res_part_step(cfg, res_sb_row(cfg, st, r, c0, n - 1), r, c0 + (n - 1) * 8, 64)
    }
}

/// The first `n` superblock rows of the tile of `nsb` superblock columns
/// from column `c0`.
#[verifier::opaque]
pub open spec fn res_tile_rows(cfg: InterCfg, st: ResidualModel, c0: int, nsb: int, n: int) -> ResidualModel
    decreases n,
{
    if n <= 0 {
        st
    } else {
        res_sb_row(cfg, reset_left(res_tile_rows(cfg, st, c0, nsb, n - 1)), (n - 1) * 8, c0, nsb)
    }
}

/// The state at the start of a tile from column `a` to `b`: the grid's
/// tile bounds set, no symbols yet.
pub open spec fn start_tile(st: ResidualModel, a: int, b: int) -> ResidualModel {
    ResidualModel {
        grid: MiGridView { tile_col_start: a as usize, tile_col_end: b as usize, ..st.grid },
        syms: Seq::empty(),
        ..st
    }
}

/// Superblock rows of the frame.
pub open spec fn res_sb_rows(cfg: InterCfg) -> int {
    ((cfg.src.height / 8) as int + 7) / 8
}

/// The first `k` tile columns, each with its symbols.
#[verifier::opaque]
pub open spec fn res_tiles(cfg: InterCfg, st: ResidualModel, l2: nat, k: int) -> (Seq<Seq<SymModel>>, ResidualModel)
    decreases k,
{
    if k <= 0 {
        (Seq::empty(), st)
    } else {
        let prev = res_tiles(cfg, st, l2, k - 1);
        let (a, b) = spec_tile_mi_col_range((cfg.src.width / 8) as int, l2, k - 1);
        let done = res_tile_rows(cfg, start_tile(prev.1, a, b), a, (b - a + 7) / 8, res_sb_rows(cfg));
        (prev.0.push(done.syms), ResidualModel { syms: Seq::empty(), ..done })
    }
}

impl ResidualEnc {
    /// Code the current tile from column `start` to `end`, superblock row by row.
    #[verifier::spinoff_prover]
    #[verifier::rlimit(40)]
    fn encode_tile(&mut self, cfg: &InterCfg, start: usize, end: usize)
        requires
            old(self).inv(*cfg),
            start <= end <= old(self).grid.mi_cols,
            start % 8 == 0 || start == end,
        ensures
            final(self).inv(*cfg),
            final(self).model() == res_tile_rows(*cfg, old(self).model(), start as int, (end - start + 7) / 8, res_sb_rows(*cfg)),
    {
        let ghost st0 = self.model();
        let ghost nsb = (end - start + 7) / 8;
        let mut mi_row: usize = 0;
        let ghost mut k: int = 0;
        assert(res_tile_rows(*cfg, st0, start as int, nsb, 0) == st0) by {
            reveal(res_tile_rows);
        }
        while mi_row < self.grid.mi_rows
            invariant
                self.inv(*cfg),
                start <= end <= self.grid.mi_cols,
                start % 8 == 0 || start == end,
                nsb == (end - start + 7) / 8,
                0 <= k,
                mi_row == 8 * k,
                8 * k < self.grid.mi_rows + 8,
                self.model() == res_tile_rows(*cfg, st0, start as int, nsb, k),
            decreases self.grid.mi_rows + 8 - mi_row,
        {
            self.ent.left_ent_y = [0u8; 16];
            self.ent.left_ent_u = [0u8; 8];
            self.ent.left_ent_v = [0u8; 8];
            self.part.left = [0u8; 8];
            let ghost st_r = self.model();
            proof {
                let rl = reset_left(res_tile_rows(*cfg, st0, start as int, nsb, k));
                assert(st_r.ent.ly =~= rl.ent.ly);
                assert(st_r.ent.lu =~= rl.ent.lu);
                assert(st_r.ent.lv =~= rl.ent.lv);
                assert(st_r.part.left =~= rl.part.left);
                assert(st_r == rl);
            }
            let mut mi_col: usize = start;
            let ghost mut j: int = 0;
            assert(res_sb_row(*cfg, st_r, mi_row as int, start as int, 0) == st_r) by {
                reveal(res_sb_row);
            }
            while mi_col < end
                invariant
                    self.inv(*cfg),
                    start <= end <= self.grid.mi_cols,
                    start % 8 == 0 || start == end,
                    0 <= j,
                    mi_col == start + 8 * j,
                    mi_col < end + 8,
                    mi_row < self.grid.mi_rows,
                    mi_row % 8 == 0,
                    self.model() == res_sb_row(*cfg, st_r, mi_row as int, start as int, j),
                decreases end + 8 - mi_col,
            {
                self.encode_partition(cfg, mi_row, mi_col, 64);
                proof {
                    assert(res_sb_row(*cfg, st_r, mi_row as int, start as int, j + 1) == res_part_step(
                        *cfg,
                        res_sb_row(*cfg, st_r, mi_row as int, start as int, j),
                        mi_row as int,
                        start + j * 8,
                        64,
                    )) by {
                        reveal(res_sb_row);
                    }
                }
                mi_col += 8;
                proof {
                    j = j + 1;
                }
            }
            assert(j == nsb);
            assert(res_tile_rows(*cfg, st0, start as int, nsb, k + 1) == res_sb_row(
                *cfg,
                reset_left(res_tile_rows(*cfg, st0, start as int, nsb, k)),
                k * 8,
                start as int,
                nsb,
            )) by {
                reveal(res_tile_rows);
            }
            mi_row += 8;
            proof {
                k = k + 1;
            }
        }
        assert(k == res_sb_rows(*cfg));
    }
}

/// The mode info every unit holds before it is coded.
pub open spec fn initial_mi(cfg: InterCfg) -> ResidualMi {
    ResidualMi {
        skip: true,
        is_inter: true,
        ref_frame: LAST_FRAME,
        second_ref: INTRA_FRAME,
        mode: if cfg.newmv { NEWMV } else { ZEROMV },
        mv: cfg.mv,
        mv1: Mv { row: 0, col: 0 },
        bw_px: 8,
        bh_px: 8,
        block_origin: true,
        tx_size: TX_8X8,
        interp_filter: InterpFilter::EightTap,
    }
}

/// The state a frame starts from: black luma, mid-grey chroma, every unit
/// a skipped 8×8 LAST block with the configured vector, contexts clear, no
/// symbols; a configured vector whose negation overflows stops the frame.
#[verifier::opaque]
pub open spec fn initial_model(cfg: InterCfg) -> ResidualModel {
    let w = cfg.src.width as int;
    let h = cfg.src.height as int;
    let mi_cols = w / 8;
    let mi_rows = h / 8;
    let cn = ((w / 2) * (h / 2)) as nat;
    ResidualModel {
        grid: MiGridView {
            mi: Seq::new((mi_cols * mi_rows) as nat, |i: int| initial_mi(cfg)),
            mi_cols: mi_cols as usize,
            mi_rows: mi_rows as usize,
            tile_col_start: 0,
            tile_col_end: mi_cols as usize,
        },
        ent: EntModel {
            ay: Seq::new((2 * mi_cols) as nat, |i: int| 0u8),
            ly: Seq::new(16, |i: int| 0u8),
            au: Seq::new(mi_cols as nat, |i: int| 0u8),
            lu: Seq::new(8, |i: int| 0u8),
            av: Seq::new(mi_cols as nat, |i: int| 0u8),
            lv: Seq::new(8, |i: int| 0u8),
        },
        part: PartitionModel { above: Seq::new(mi_cols as nat, |i: int| 0u8), left: Seq::new(8, |i: int| 0u8) },
        y: Seq::new((w * h) as nat, |i: int| 0u8),
        u: Seq::new(cn, |i: int| 128u8),
        v: Seq::new(cn, |i: int| 128u8),
        syms: Seq::empty(),
        ok: cfg.mv.row > i16::MIN && cfg.mv.col > i16::MIN,
    }
}

/// The whole frame: every tile column, each with its symbols, and the
/// final state.
pub open spec fn spec_residual_frame(cfg: InterCfg) -> (Seq<Seq<SymModel>>, ResidualModel) {
    let l2 = spec_choose_log2_tile_cols(cfg.src.width) as nat;
    res_tiles(cfg, initial_model(cfg), l2, vstd::arithmetic::power2::pow2(l2) as int)
}

/// The loop-filter records of a grid.
pub open spec fn lf_grid(g: MiGridView) -> Seq<LfMi> {
    Seq::new(g.mi.len(), |k: int| spec_lf_mi(g.mi[k], FILTER_LEVEL))
}

/// A `w × h` frame's chroma plane deblocked as `apply_loop_filter` does it.
pub open spec fn loop_filtered_chroma(p: Seq<u8>, w: int, h: int, mi: Seq<LfMi>, mi_rows: int, mi_cols: int) -> Seq<u8> {
    let (sw, sh) = (sb_align(w), sb_align(h));
    crop_plane(deblocked_chroma(pad_plane(p, w / 2, h / 2, sw / 2, sh / 2), sw / 2, mi, mi_rows, mi_cols), w / 2, h / 2, sw / 2)
}

/// The tiles' symbols as the contracts see them.
pub open spec fn tiles_model(v: Seq<Vec<TileSym>>) -> Seq<Seq<SymModel>> {
    v.map_values(|t: Vec<TileSym>| syms_model(t@))
}

/// The coding configuration of the arguments.
pub open spec fn mk_cfg<'a>(
    src: &'a Yuv420Frame,
    last: &'a Reconstruction,
    golden: Option<&'a Reconstruction>,
    altref: Option<&'a Reconstruction>,
    ref_mode: RefMode,
    search: bool,
    mv: Mv,
    newmv: bool,
) -> InterCfg<'a> {
    InterCfg { src, last, golden, altref, ref_mode, search, mv, newmv }
}

proof fn lemma_lf_ready(g: MiGridView)
    requires
        g.wf(),
        lf_ready(g),
        sizes_coded(g.mi),
        g.mi_rows >= 1,
        g.mi_cols >= 1,
    ensures
        mi_ok(lf_grid(g), g.mi_rows as int, g.mi_cols as int),
{
    let cols = g.mi_cols as int;
    let rows = g.mi_rows as int;
    let lf = lf_grid(g);
    assert(lf.len() == rows * cols) by (nonlinear_arith)
        requires
            lf.len() == g.mi.len(),
            g.mi.len() == g.mi_rows * g.mi_cols,
            rows == g.mi_rows,
            cols == g.mi_cols,
    ;
    assert forall|row: int, col: int|
        0 <= row < rows && 0 <= col < cols && (#[trigger] mi_at(lf, cols, row, col)).block_origin && mi_at(lf, cols, row, col).level != 0 implies {
        let e = mi_at(lf, cols, row, col);
        e.tx_size_y < 4 && e.bsize_idx < 13 && block_fits(e.bw_mi as int, e.bh_mi as int, row % 8, col % 8)
    } by {
        let k = row * cols + col;
        assert(0 <= k < rows * cols && k / cols == row && k % cols == col) by (nonlinear_arith)
            requires
                0 <= row < rows,
                0 <= col < cols,
                k == row * cols + col,
        ;
        assert(g.mi[k].block_origin);
        assert(spec_partition_ctx_index_wh(g.mi[k].bw_px, g.mi[k].bh_px) is Some);
    }
}

impl ResidualEnc {
    /// The state of a fresh frame.
    #[verifier::spinoff_prover]
    #[verifier::rlimit(40)]
    fn new(cfg: &InterCfg) -> (e: Self)
        requires
            cfg_ok(*cfg),
        ensures
            e.inv(*cfg),
            e.model() == initial_model(*cfg),
    {
        let w = cfg.src.width as usize;
        let h = cfg.src.height as usize;
        let mi_cols = w / 8;
        let mi_rows = h / 8;
        let cw = w / 2;
        let ch = h / 2;
        proof {
            assert(mi_cols * mi_rows <= w * h && cw * ch <= w * h) by (nonlinear_arith)
                requires
                    mi_cols * 8 <= w,
                    mi_rows * 8 <= h,
                    cw * 2 <= w,
                    ch * 2 <= h,
            ;
            assert(mi_cols * mi_rows == mi_rows * mi_cols) by (nonlinear_arith);
        }
        let n = mi_cols * mi_rows;
        let mode = if cfg.newmv {
            NEWMV
        } else {
            ZEROMV
        };
        let m0 = ResidualMi {
            skip: true,
            is_inter: true,
            ref_frame: LAST_FRAME,
            second_ref: INTRA_FRAME,
            mode,
            mv: cfg.mv,
            mv1: Mv { row: 0, col: 0 },
            bw_px: 8,
            bh_px: 8,
            block_origin: true,
            tx_size: TX_8X8,
            interp_filter: InterpFilter::EightTap,
        };
        let e = ResidualEnc {
            grid: MiGrid { mi: vec![m0; n], mi_cols, mi_rows, tile_col_start: 0, tile_col_end: mi_cols },
            ent: TokenContext {
                above_ent_y: vec![0u8; 2 * mi_cols],
                left_ent_y: [0u8; 16],
                above_ent_u: vec![0u8; mi_cols],
                left_ent_u: [0u8; 8],
                above_ent_v: vec![0u8; mi_cols],
                left_ent_v: [0u8; 8],
                mi_cols,
                mi_rows,
            },
            part: PartitionContext::new(mi_cols),
            recon_y: vec![0u8; w * h],
            recon_u: vec![128u8; cw * ch],
            recon_v: vec![128u8; cw * ch],
            syms: Vec::new(),
            ok: cfg.mv.row > i16::MIN && cfg.mv.col > i16::MIN,
        };
        proof {
            reveal(initial_model);
            let m = initial_model(*cfg);
            assert(e.grid.mi@ =~= m.grid.mi);
            assert(e.model().ent.ay =~= m.ent.ay);
            assert(e.model().ent.ly =~= m.ent.ly);
            assert(e.model().ent.au =~= m.ent.au);
            assert(e.model().ent.lu =~= m.ent.lu);
            assert(e.model().ent.av =~= m.ent.av);
            assert(e.model().ent.lv =~= m.ent.lv);
            assert(e.part@.above =~= m.part.above);
            assert(e.part@.left =~= m.part.left);
            assert(e.recon_y@ =~= m.y);
            assert(e.recon_u@ =~= m.u);
            assert(e.recon_v@ =~= m.v);
            assert(syms_model(e.syms@) =~= m.syms);
            let g = e.grid@;
            assert forall|k: int| 0 <= k < g.mi.len() && (#[trigger] g.mi[k]).block_origin implies g.mi[k].tx_size < 4
                && block_fits(
                (g.mi[k].bw_px / 8) as int,
                (g.mi[k].bh_px / 8) as int,
                (k / (g.mi_cols as int)) % 8,
                (k % (g.mi_cols as int)) % 8,
            ) by {}
            assert(sizes_coded(e.grid.mi@));
            assert(e.ok ==> mvs_negatable(g));
        }
        e
    }
}

/// Code a residual inter frame: per tile column, the symbols in coding
/// order (bools with their probabilities, transform blocks of levels with
/// their token contexts), and the deblocked reconstruction a decoder builds
/// from them (`spec_residual_frame`). `None` exactly when some block's pick
/// cannot be coded as mode info (`block_codable`) or the configured vector
/// has an `i16::MIN` component.
#[verifier::rlimit(40)]
pub fn encode_inter_residual_frame(
    src: &Yuv420Frame,
    last: &Reconstruction,
    golden: Option<&Reconstruction>,
    altref: Option<&Reconstruction>,
    ref_mode: RefMode,
    search: bool,
    mv: Mv,
    newmv: bool,
) -> (r: Option<(Vec<Vec<TileSym>>, Reconstruction)>)
    requires
        cfg_ok(mk_cfg(src, last, golden, altref, ref_mode, search, mv, newmv)),
        (src.width + 64) * (src.height + 64) <= usize::MAX,
    ensures
        ({
            let (tiles, st) = spec_residual_frame(mk_cfg(src, last, golden, altref, ref_mode, search, mv, newmv));
            let w = src.width as int;
            let h = src.height as int;
            let lf = lf_grid(st.grid);
            &&& (r is Some <==> st.ok)
            &&& (r matches Some(x) ==> {
                &&& tiles_model(x.0@) == tiles
                &&& x.1.width == src.width
                &&& x.1.height == src.height
                &&& x.1.y@ == loop_filtered_luma(st.y, w, h, lf, h / 8, w / 8)
                &&& x.1.u@ == loop_filtered_chroma(st.u, w, h, lf, h / 8, w / 8)
                &&& x.1.v@ == loop_filtered_chroma(st.v, w, h, lf, h / 8, w / 8)
            })
        }),
{
    let cfg = InterCfg { src, last, golden, altref, ref_mode, search, mv, newmv };
    let ghost c0 = mk_cfg(src, last, golden, altref, ref_mode, search, mv, newmv);
    assert(cfg == c0);
    let mut enc = ResidualEnc::new(&cfg);
    let l2 = choose_log2_tile_cols(src.width);
    let ghost gl2 = l2 as nat;
    let ghost init = initial_model(cfg);
    proof {
        lemma_log2_choice(src.width);
        vstd::arithmetic::power2::lemma2_to64();
        if l2 < 11 {
            vstd::arithmetic::power2::lemma_pow2_strictly_increases(gl2, 11);
        }
        vstd::bits::lemma_u32_shl_is_mul(1, l2);
    }
    let n_tiles: u32 = 1u32 << l2;
    let mut tiles: Vec<Vec<TileSym>> = Vec::new();
    let mut t: u32 = 0;
    assert(res_tiles(cfg, init, gl2, 0) == (Seq::<Seq<SymModel>>::empty(), init)) by {
        reveal(res_tiles);
    }
    assert(tiles_model(tiles@) =~= Seq::<Seq<SymModel>>::empty());
    while t < n_tiles
        invariant
            enc.inv(cfg),
            cfg == c0,
            l2 <= 11,
            gl2 == l2,
            n_tiles <= 2048,
            n_tiles == vstd::arithmetic::power2::pow2(gl2),
            t <= n_tiles,
            init == initial_model(cfg),
            l2 == spec_choose_log2_tile_cols(src.width),
            tiles_model(tiles@) == res_tiles(cfg, init, gl2, t as int).0,
            enc.model() == res_tiles(cfg, init, gl2, t as int).1,
        decreases n_tiles - t,
    {
        let (a, b) = tile_mi_col_range(enc.grid.mi_cols, l2, t);
        proof {
            lemma_tile_range(enc.grid.mi_cols as int, gl2, t as int);
        }
        let ghost prev = res_tiles(cfg, init, gl2, t as int);
        enc.grid.tile_col_start = a;
        enc.grid.tile_col_end = b;
        enc.syms = Vec::new();
        proof {
            assert(syms_model(enc.syms@) =~= Seq::<SymModel>::empty());
            assert(enc.model() == start_tile(prev.1, a as int, b as int));
        }
        enc.encode_tile(&cfg, a, b);
        let mut ts: Vec<TileSym> = Vec::new();
        std::mem::swap(&mut ts, &mut enc.syms);
        let ghost before = tiles@;
        tiles.push(ts);
        proof {
            reveal(res_tiles);
            assert(tiles_model(tiles@) =~= tiles_model(before).push(syms_model(ts@)));
            assert(syms_model(enc.syms@) =~= Seq::<SymModel>::empty());
        }
        t += 1;
    }
    if !enc.ok {
        return None;
    }
    let mi_rows = enc.grid.mi_rows;
    let mi_cols = enc.grid.mi_cols;
    proof {
        lemma_lf_ready(enc.grid@);
    }
    let lf = lf_mi_from_residual(enc.grid.mi.as_slice());
    assert(lf@ =~= lf_grid(enc.grid@));
    let mut recon = Reconstruction { width: src.width, height: src.height, y: enc.recon_y, u: enc.recon_u, v: enc.recon_v };
    proof {
        assert(sb_align(src.width as int) * sb_align(src.height as int) <= (src.width + 64) * (src.height + 64)) by (nonlinear_arith)
            requires
                sb_align(src.width as int) <= src.width + 64,
                sb_align(src.height as int) <= src.height + 64,
                sb_align(src.width as int) >= 0,
                sb_align(src.height as int) >= 0,
        ;
    }
    apply_loop_filter(&mut recon, lf.as_slice(), mi_rows, mi_cols);
    Some((tiles, recon))
}

/// The result contract of coding `src` under a configuration.
pub open spec fn residual_result(cfg: InterCfg, r: Option<(Vec<Vec<TileSym>>, Reconstruction)>) -> bool {
    let (tiles, st) = spec_residual_frame(cfg);
    let w = cfg.src.width as int;
    let h = cfg.src.height as int;
    let lf = lf_grid(st.grid);
    &&& (r is Some <==> st.ok)
    &&& (r matches Some(x) ==> {
        &&& tiles_model(x.0@) == tiles
        &&& x.1.width == cfg.src.width
        &&& x.1.height == cfg.src.height
        &&& x.1.y@ == loop_filtered_luma(st.y, w, h, lf, h / 8, w / 8)
        &&& x.1.u@ == loop_filtered_chroma(st.u, w, h, lf, h / 8, w / 8)
        &&& x.1.v@ == loop_filtered_chroma(st.v, w, h, lf, h / 8, w / 8)
    })
}

/// A frame this encoder takes, with a LAST reference of its size.
pub open spec fn residual_inputs_ok(src: &Yuv420Frame, last: &Reconstruction) -> bool {
    &&& frame_ok(src)
    &&& ref_ok(last, src)
    &&& (src.width + 64) * (src.height + 64) <= usize::MAX
}

/// ZEROMV from LAST for every block, residual coded.
pub fn encode_inter_residual(src: &Yuv420Frame, reference: &Reconstruction) -> (r: Option<(Vec<Vec<TileSym>>, Reconstruction)>)
    requires
        residual_inputs_ok(src, reference),
    ensures
        residual_result(mk_cfg(src, reference, None, None, RefMode::Single, false, Mv { row: 0, col: 0 }, false), r),
{
    encode_inter_residual_frame(src, reference, None, None, RefMode::Single, false, Mv { row: 0, col: 0 }, false)
}

/// NEWMV from LAST with the vector `(mv_row_q3, mv_col_q3)` (1/8 luma
/// pel, even, not zero) for every block, residual coded.
pub fn encode_inter_newmv_residual(src: &Yuv420Frame, reference: &Reconstruction, mv_row_q3: i16, mv_col_q3: i16) -> (r: Option<
    (Vec<Vec<TileSym>>, Reconstruction),
>)
    requires
        residual_inputs_ok(src, reference),
        mv_row_q3 % 2 == 0,
        mv_col_q3 % 2 == 0,
        mv_row_q3 != 0 || mv_col_q3 != 0,
    ensures
        residual_result(mk_cfg(src, reference, None, None, RefMode::Single, false, Mv { row: mv_row_q3, col: mv_col_q3 }, true), r),
{
    encode_inter_residual_frame(src, reference, None, None, RefMode::Single, false, Mv { row: mv_row_q3, col: mv_col_q3 }, true)
}

/// Every block motion-searched against LAST, residual coded.
pub fn encode_inter_frame(src: &Yuv420Frame, last: &Reconstruction) -> (r: Option<(Vec<Vec<TileSym>>, Reconstruction)>)
    requires
        residual_inputs_ok(src, last),
    ensures
        residual_result(mk_cfg(src, last, None, None, RefMode::Single, true, Mv { row: 0, col: 0 }, false), r),
{
    encode_inter_residual_frame(src, last, None, None, RefMode::Single, true, Mv { row: 0, col: 0 }, false)
}

/// Like `encode_inter_frame`, each block may also predict from GOLDEN.
pub fn encode_inter_frame_golden(src: &Yuv420Frame, last: &Reconstruction, golden: &Reconstruction) -> (r: Option<
    (Vec<Vec<TileSym>>, Reconstruction),
>)
    requires
        residual_inputs_ok(src, last),
        ref_ok(golden, src),
    ensures
        residual_result(mk_cfg(src, last, Some(golden), None, RefMode::Single, true, Mv { row: 0, col: 0 }, false), r),
{
    encode_inter_residual_frame(src, last, Some(golden), None, RefMode::Single, true, Mv { row: 0, col: 0 }, false)
}

/// Like `encode_inter_frame_golden`, also ALTREF, and compound prediction
/// chosen per block.
pub fn encode_inter_frame_altref(src: &Yuv420Frame, last: &Reconstruction, golden: &Reconstruction, altref: &Reconstruction) -> (r: Option<
    (Vec<Vec<TileSym>>, Reconstruction),
>)
    requires
        residual_inputs_ok(src, last),
        ref_ok(golden, src),
        ref_ok(altref, src),
    ensures
        residual_result(mk_cfg(src, last, Some(golden), Some(altref), RefMode::Select, true, Mv { row: 0, col: 0 }, false), r),
{
    encode_inter_residual_frame(src, last, Some(golden), Some(altref), RefMode::Select, true, Mv { row: 0, col: 0 }, false)
}

/// Every block compound: LAST or GOLDEN averaged with ALTREF.
pub fn encode_inter_frame_compound(src: &Yuv420Frame, last: &Reconstruction, golden: &Reconstruction, altref: &Reconstruction) -> (r: Option<
    (Vec<Vec<TileSym>>, Reconstruction),
>)
    requires
        residual_inputs_ok(src, last),
        ref_ok(golden, src),
        ref_ok(altref, src),
    ensures
        residual_result(mk_cfg(src, last, Some(golden), Some(altref), RefMode::Compound, true, Mv { row: 0, col: 0 }, false), r),
{
    encode_inter_residual_frame(src, last, Some(golden), Some(altref), RefMode::Compound, true, Mv { row: 0, col: 0 }, false)
}

/// Like `encode_inter_frame`; `refresh_frame_flags` names the reference
/// slots the frame header refreshes (bit `i` for slot `i`), which the
/// symbols and the reconstruction do not depend on.
pub fn encode_inter_frame_refresh(src: &Yuv420Frame, last: &Reconstruction, refresh_frame_flags: u8) -> (r: Option<
    (Vec<Vec<TileSym>>, Reconstruction),
>)
    requires
        residual_inputs_ok(src, last),
    ensures
        residual_result(mk_cfg(src, last, None, None, RefMode::Single, true, Mv { row: 0, col: 0 }, false), r),
{
    encode_inter_residual_frame(src, last, None, None, RefMode::Single, true, Mv { row: 0, col: 0 }, false)
}

/// A block is skipped exactly when one of its two candidate transforms
/// quantizes every coefficient of every plane to zero.
pub proof fn law_skip_iff_some_candidate_zero(s0: (int, bool), s1: (int, bool), maxtx: u8)
    requires
        1 <= maxtx <= 3,
        s0.0 <= u32::MAX,
        s1.0 <= u32::MAX,
    ensures
        !choose_tx(s0, s1, maxtx).1 <==> (!s0.1 || !s1.1),
        choose_tx(s0, s1, maxtx).0 == maxtx || choose_tx(s0, s1, maxtx).0 == maxtx - 1,
{
}

/// A skipped block is reconstructed as its prediction, clears its token
/// flags and codes no transform block: only its mode-info bools follow.
pub proof fn law_skipped_block_is_prediction(
    cfg: InterCfg,
    s: ResidualModel,
    r: int,
    c: int,
    bw_px: u32,
    bh_px: u32,
    p: InterPick,
    f: InterpFilter,
    yp: Seq<u8>,
    up: Seq<u8>,
    vp: Seq<u8>,
    seg: u8,
    q: usize,
    tx: u8,
)
    ensures
        ({
            let t = block_tail(cfg, s, r, c, bw_px, bh_px, p, f, yp, up, vp, seg, q, true, tx);
            let w = cfg.src.width as int;
            let (bw, bh) = (bw_px as int, bh_px as int);
            &&& t.y == stored(s.y, w, c * 8, r * 8, bw, bh, yp)
            &&& t.u == stored(s.u, w / 2, c * 4, r * 4, bw / 2, bh / 2, up)
            &&& t.v == stored(s.v, w / 2, c * 4, r * 4, bw / 2, bh / 2, vp)
            &&& t.ent == clear_model(s.ent, s.grid.mi_cols as int, s.grid.mi_rows as int, r, c, bw / 8, bh / 8)
            &&& t.syms == s.syms + bools_model(
                spec_inter_mode_bits_ops(s.grid, cfg.ref_mode, r, c, bw_px, bh_px, true, tx, p.mode, p.ref_frame, p.second_ref, p.mv, p.mv1, f, seg),
            )
        }),
{
    reveal(block_tail);
}

/// A frame that has stopped stays stopped: every later block leaves the
/// state unchanged.
pub proof fn law_stopped_frame_is_unchanged(cfg: InterCfg, s: ResidualModel, r: int, c: int, bw_px: u32, bh_px: u32)
    requires
        !s.ok,
    ensures
        residual_block_step(cfg, s, r, c, bw_px, bh_px) == s,
{
    reveal(residual_block_step);
}

} // verus!
