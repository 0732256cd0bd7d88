//! Intra keyframe coding: every 64×64 superblock is split down to 8×8
//! blocks; each block takes the DC/V/H luma and chroma modes of least SAD,
//! and each 4×4 transform block is predicted, transformed with the hybrid
//! transform that matches its mode, quantized and reconstructed exactly as
//! a decoder rebuilds it. The tile's symbols come out in coding order:
//! bools with their probabilities, and coefficient blocks as quantized
//! levels with their token context and transform type (this crate has no
//! coefficient token coder).
use vstd::prelude::*;
use crate::vp9::encoder::{
    above_y, idx4, left_y, neighbors_y, residual_packed4, store_4x4, store_local4, stored4,
    Reconstruction,
};
use crate::vp9::intra::{
    first_min_mode, gather_above, gather_left, mode_sad, pick_mode, pick_uv_mode, pred_block,
    predicted, spec_gather_above, spec_gather_left,
};
use crate::vp9::quant::{lemma_quant_step_range, quant_step, quantizable, quantize, spec_qcoeff};
use crate::vp9::partition::{model_context, model_update, PartitionContext, PartitionModel};
use crate::vp9::tables::{
    is_square_bsize, DC_PRED, DEFAULT_SKIP_PROBS, H_PRED, INTRA_MODE_TREE, KF_PARTITION_PROBS, KF_UV_MODE_PROB,
    KF_Y_MODE_PROB, PARTITION_NONE, PARTITION_SPLIT, PARTITION_TREE, V_PRED,
};
use crate::vp9::tree::{lemma_path_in_tree, path_in_tree, path_ops, spec_tree_path, tree_has, tree_ops, tree_path, tree_wf};
use crate::vp9::transform::{
    col_is_adst, fht4_mid, fht4x4, iht4x4_add, inv4_kind, row_is_adst, spec_add_block, spec_fht4x4,
    spec_fwd4, spec_inverse_residual, tx_type_from_mode, TxType,
};

verus! {

/// Quantizer index of intra keyframes (`base_q_idx` of their header).
pub const KF_QINDEX: usize = 128;

/// A 4:2:0 frame: `width × height` luma samples, chroma planes of half the
/// width and height (rounded up), all tightly packed.
pub struct Yuv420Frame {
    pub width: u32,
    pub height: u32,
    pub y: Vec<u8>,
    pub u: Vec<u8>,
    pub v: Vec<u8>,
}

impl Yuv420Frame {
    /// An all-zero frame.
    pub fn new(width: u32, height: u32) -> (f: Self)
        requires
            (width as int) * (height as int) <= usize::MAX,
        ensures
            f.width == width,
            f.height == height,
            f.y@ == Seq::new((width * height) as nat, |i: int| 0u8),
            f.u@ == Seq::new((((width + 1) / 2) * ((height + 1) / 2)) as nat, |i: int| 0u8),
            f.v@ == f.u@,
    {
        let n = (width as usize) * (height as usize);
        let cw = (width / 2 + width % 2) as usize;
        let ch = (height / 2 + height % 2) as usize;
        assert(cw * ch <= n) by (nonlinear_arith)
            requires
                n == width * height,
                cw == (width + 1) / 2,
                ch == (height + 1) / 2,
        ;
        let y = vec![0u8; n];
        let u = vec![0u8; cw * ch];
        let v = vec![0u8; cw * ch];
        assert(y@ =~= Seq::new((width * height) as nat, |i: int| 0u8));
        assert(u@ =~= Seq::new((((width + 1) / 2) * ((height + 1) / 2)) as nat, |i: int| 0u8));
        assert(v@ =~= u@);
        Yuv420Frame { width, height, y, u, v }
    }
}

/// The frames the intra encoder takes: both sides multiples of 8, from 8 up
/// to 65536, planes of the sizes their dimensions give.
pub open spec fn frame_ok(f: &Yuv420Frame) -> bool {
    &&& 8 <= f.width <= 65536
    &&& 8 <= f.height <= 65536
    &&& f.width % 8 == 0
    &&& f.height % 8 == 0
    &&& f.width * f.height <= usize::MAX
    &&& f.y@.len() == f.width * f.height
    &&& f.u@.len() == (f.width / 2) * (f.height / 2)
    &&& f.v@.len() == (f.width / 2) * (f.height / 2)
}

/// A quantized 4×4 coefficient block waiting for token coding: raster-order
/// levels, the plane (luma or chroma), the token context (number of
/// neighbouring blocks with coefficients) and the transform type.
#[derive(Clone, Copy, Debug)]
pub struct CoefBlock {
    pub coeffs: [i32; 16],
    pub is_y: bool,
    pub ctx: usize,
    pub tx_type: TxType,
}

/// A quantized transform block of any size waiting for token coding:
/// raster-order levels, the plane (luma or chroma), the token context, the
/// transform size and the quantizer index.
#[derive(Clone, Debug)]
pub struct TxLevels {
    pub levels: Vec<i32>,
    pub is_y: bool,
    pub ctx: usize,
    pub tx: u8,
    pub qindex: usize,
}

/// One symbol of a tile: a bool coded with a probability, a 4×4 block of
/// intra coefficient tokens, or an inter transform block of tokens.
#[derive(Clone, Debug)]
pub enum TileSym {
    Bool(u8, bool),
    Coefs(CoefBlock),
    Levels(TxLevels),
}

/// The transform type a luma intra mode selects.
pub open spec fn mode_tx(mode: i8) -> TxType {
    if mode == V_PRED {
        TxType::AdstDct
    } else if mode == H_PRED {
        TxType::DctAdst
    } else if mode == DC_PRED {
        TxType::DctDct
    } else {
        TxType::AdstAdst
    }
}

/// Source minus prediction of the 4×4 block at `(x, y)`.
pub open spec fn resid4(src: Seq<u8>, stride: int, x: int, y: int, pred: Seq<u8>) -> Seq<i16> {
    Seq::new(16, |k: int| (src[idx4(stride, x, y, k)] - pred[k]) as i16)
}

/// Quantized levels of the transformed residual.
pub open spec fn q4(resid: Seq<i16>, t: TxType) -> Seq<i32> {
    Seq::new(16, |i: int| spec_qcoeff(spec_fht4x4(resid, t)[i] as int, quant_step(KF_QINDEX, i)) as i32)
}

/// Dequantized coefficients of quantized levels.
pub open spec fn dq4(q: Seq<i32>) -> Seq<i32> {
    Seq::new(16, |i: int| (q[i] * quant_step(KF_QINDEX, i)) as i32)
}

/// Prediction plus the inverse-transformed dequantized residual.
pub open spec fn recon4(pred: Seq<u8>, dq: Seq<i32>, t: TxType) -> Seq<u8> {
    spec_add_block(
        pred,
        4,
        4,
        spec_inverse_residual(dq, 4, inv4_kind(row_is_adst(t)), inv4_kind(col_is_adst(t)), 4),
    )
}

/// Whether any level is nonzero.
pub open spec fn nonzero(q: Seq<i32>) -> bool {
    exists|i: int| 0 <= i < 16 && q[i] != 0
}

/// Every forward 4×4 transform output is a quarter of an `i32` (give or
/// take one), far inside what the quantizer's rounding can take.
proof fn lemma_fht_quantizable(resid: Seq<i16>, t: TxType)
    ensures
        forall|i: int| 0 <= i < 16 ==> quantizable(#[trigger] spec_fht4x4(resid, t)[i] as int, quant_step(KF_QINDEX, i)),
{
    assert forall|i: int| 0 <= i < 16 implies quantizable(#[trigger] spec_fht4x4(resid, t)[i] as int, quant_step(KF_QINDEX, i)) by {
        lemma_quant_step_range(KF_QINDEX, i);
        let mid = fht4_mid(resid, t);
        let row = spec_fwd4(row_is_adst(t), mid.subrange(i / 4 * 4, i / 4 * 4 + 4));
        let r = row[i % 4];
        assert(i32::MIN <= r <= i32::MAX);
        assert(spec_fht4x4(resid, t)[i] == ((r as int + 1) / 4) as i32);
    }
}

/// Copy a 16-sample vector into an array.
fn arr16(v: &Vec<u8>) -> (a: [u8; 16])
    requires
        v@.len() == 16,
    ensures
        a@ == v@,
{
    let mut a = [0u8; 16];
    let mut i: usize = 0;
    while i < 16
        invariant
            i <= 16,
            v@.len() == 16,
            forall|j: int| 0 <= j < i ==> a@[j] == v@[j],
        decreases 16 - i,
    {
        a[i] = v[i];
        i += 1;
    }
    assert(a@ =~= v@);
    a
}

/// Whether any level of a block is nonzero.
fn any_nonzero(q: &[i32; 16]) -> (b: bool)
    ensures
        b == nonzero(q@),
{
    let mut i: usize = 0;
    while i < 16
        invariant
            i <= 16,
            forall|j: int| 0 <= j < i ==> q@[j] == 0,
        decreases 16 - i,
    {
        if q[i] != 0 {
            return true;
        }
        i += 1;
    }
    false
}

/// Transform and quantize a 4×4 residual; returns `(levels, dequantized)`.
fn quant4(residual: &[i16; 16], t: TxType) -> (r: ([i32; 16], [i32; 16]))
    ensures
        r.0@ == q4(residual@, t),
        r.1@ == dq4(r.0@),
{
    let mut coeff = [0i32; 16];
    fht4x4(residual, &mut coeff, t);
    proof {
        lemma_fht_quantizable(residual@, t);
    }
    let (q, dq) = quantize(&coeff, KF_QINDEX);
    assert(q@ =~= q4(residual@, t));
    assert(dq@ =~= dq4(q@));
    (q, dq)
}

/// Add the inverse-transformed residual to a 4×4 prediction.
fn add_residual4(pred: &Vec<u8>, dq: &[i32; 16], t: TxType) -> (b: [u8; 16])
    requires
        pred@.len() == 16,
    ensures
        b@ == recon4(pred@, dq@, t),
{
    let mut block = pred.clone();
    assert(block@ == pred@);
    iht4x4_add(dq, &mut block, 4, t);
    arr16(&block)
}


/// A tile symbol as the contracts see it.
pub enum SymModel {
    Bool(u8, bool),
    Coefs(Seq<i32>, bool, usize, TxType),
    Levels(Seq<i32>, bool, usize, u8, usize),
}

pub open spec fn sym_model(t: TileSym) -> SymModel {
    match t {
        TileSym::Bool(p, b) => SymModel::Bool(p, b),
        TileSym::Coefs(cb) => SymModel::Coefs(cb.coeffs@, cb.is_y, cb.ctx, cb.tx_type),
        TileSym::Levels(b) => SymModel::Levels(b.levels@, b.is_y, b.ctx, b.tx, b.qindex),
    }
}

pub open spec fn syms_model(v: Seq<TileSym>) -> Seq<SymModel> {
    v.map_values(|t: TileSym| sym_model(t))
}

/// Coded bools as symbols.
pub open spec fn bools_model(ops: Seq<(u8, bool)>) -> Seq<SymModel> {
    ops.map_values(|o: (u8, bool)| SymModel::Bool(o.0, o.1))
}

/// The encoder's state between blocks: the reconstructed planes, the mode
/// and skip flag of every 8×8 block, the token contexts (two above per
/// 8×8 column and two left per 8×8 row of the superblock for luma, one each
/// for chroma) and the symbols so far.
pub struct IntraModel {
    pub y: Seq<u8>,
    pub u: Seq<u8>,
    pub v: Seq<u8>,
    pub modes: Seq<i8>,
    pub skips: Seq<bool>,
    pub ae_y: Seq<u8>,
    pub le_y: Seq<u8>,
    pub ae_u: Seq<u8>,
    pub le_u: Seq<u8>,
    pub ae_v: Seq<u8>,
    pub le_v: Seq<u8>,
    pub syms: Seq<SymModel>,
}

/// A luma intra mode this encoder picks.
pub open spec fn mode_ok(m: i8) -> bool {
    m == DC_PRED || m == V_PRED || m == H_PRED
}

/// State of the sizes a frame gives.
pub open spec fn model_ok(f: &Yuv420Frame, s: IntraModel) -> bool {
    let mi_cols = f.width / 8;
    let mi_rows = f.height / 8;
    &&& s.y.len() == f.width * f.height
    &&& s.u.len() == (f.width / 2) * (f.height / 2)
    &&& s.v.len() == (f.width / 2) * (f.height / 2)
    &&& s.modes.len() == mi_cols * mi_rows
    &&& s.skips.len() == mi_cols * mi_rows
    &&& forall|i: int| 0 <= i < s.modes.len() ==> mode_ok(#[trigger] s.modes[i])
    &&& s.ae_y.len() == 2 * mi_cols
    &&& s.le_y.len() == 16
    &&& s.ae_u.len() == mi_cols
    &&& s.le_u.len() == 8
    &&& s.ae_v.len() == mi_cols
    &&& s.le_v.len() == 8
}

/// The luma mode of block `(r, c)`: least SAD of DC, V and H over the 8×8
/// block, from the reconstructed neighbours.
#[verifier::opaque]
pub open spec fn luma_mode(f: &Yuv420Frame, s: IntraModel, r: int, c: int) -> i8 {
    let w = f.width as int;
    let a = spec_gather_above(s.y, w, c * 8, r * 8, 8, r > 0);
    let l = spec_gather_left(s.y, w, f.height as int, c * 8, r * 8, 8, c > 0);
    let src = f.y@.subrange(r * 8 * w + c * 8, f.y@.len() as int);
    first_min_mode(
        mode_sad(DC_PRED, 8, r > 0, c > 0, a, l, src, w),
        mode_sad(V_PRED, 8, r > 0, c > 0, a, l, src, w),
        mode_sad(H_PRED, 8, r > 0, c > 0, a, l, src, w),
    )
}

/// SAD of one chroma mode, U and V together.
pub open spec fn uv_cost(f: &Yuv420Frame, s: IntraModel, r: int, c: int, mode: i8) -> int {
    let cw = (f.width / 2) as int;
    let ch = (f.height / 2) as int;
    mode_sad(
        mode,
        4,
        r > 0,
        c > 0,
        spec_gather_above(s.u, cw, c * 4, r * 4, 4, r > 0),
        spec_gather_left(s.u, cw, ch, c * 4, r * 4, 4, c > 0),
        f.u@.subrange(r * 4 * cw + c * 4, f.u@.len() as int),
        cw,
    ) + mode_sad(
        mode,
        4,
        r > 0,
        c > 0,
        spec_gather_above(s.v, cw, c * 4, r * 4, 4, r > 0),
        spec_gather_left(s.v, cw, ch, c * 4, r * 4, 4, c > 0),
        f.v@.subrange(r * 4 * cw + c * 4, f.v@.len() as int),
        cw,
    )
}

/// The chroma mode of block `(r, c)`.
#[verifier::opaque]
pub open spec fn chroma_mode(f: &Yuv420Frame, s: IntraModel, r: int, c: int) -> i8 {
    first_min_mode(uv_cost(f, s, r, c, DC_PRED), uv_cost(f, s, r, c, V_PRED), uv_cost(f, s, r, c, H_PRED))
}

/// Prediction of luma transform block `ti` (raster order in the 8×8) in
/// the first pass, reading earlier transform blocks from `local`.
pub open spec fn p1_pred(f: &Yuv420Frame, s: IntraModel, r: int, c: int, mode: i8, local: Seq<u8>, ti: int) -> Seq<u8> {
    let w = f.width as int;
    let tx = ti % 2;
    let ty = ti / 2;
    let ha = r > 0 || ty > 0;
    let hl = c > 0 || tx > 0;
    pred_block(
        mode,
        4,
        ha,
        hl,
        Seq::new(4, |i: int| above_y(s.y, local, w, c * 8, r * 8, tx, ty, ha, i)),
        Seq::new(4, |i: int| left_y(s.y, local, w, c * 8, r * 8, tx, ty, hl, i)),
    )
}

/// Levels of luma transform block `ti` given the first-pass scratch block.
pub open spec fn p1_q(f: &Yuv420Frame, s: IntraModel, r: int, c: int, mode: i8, local: Seq<u8>, ti: int) -> Seq<i32> {
    q4(
        resid4(f.y@, f.width as int, c * 8 + ti % 2 * 4, r * 8 + ti / 2 * 4, p1_pred(f, s, r, c, mode, local, ti)),
        mode_tx(mode),
    )
}

/// The first-pass 8×8 scratch block after `n` transform blocks.
pub open spec fn p1_local(f: &Yuv420Frame, s: IntraModel, r: int, c: int, mode: i8, n: int) -> Seq<u8>
    decreases n,
{
    if n <= 0 {
        Seq::new(64, |k: int| 0u8)
    } else {
        let l = p1_local(f, s, r, c, mode, n - 1);
        let ti = n - 1;
        stored4(
            l,
            8,
            ti % 2 * 4,
            ti / 2 * 4,
            recon4(p1_pred(f, s, r, c, mode, l, ti), dq4(p1_q(f, s, r, c, mode, l, ti)), mode_tx(mode)),
            16,
        )
    }
}

/// Levels of luma transform block `ti`.
#[verifier::opaque]
pub open spec fn luma_q(f: &Yuv420Frame, s: IntraModel, r: int, c: int, mode: i8, ti: int) -> Seq<i32> {
    p1_q(f, s, r, c, mode, p1_local(f, s, r, c, mode, ti), ti)
}

/// Prediction of the chroma block of `(r, c)` from a plane.
pub open spec fn uv_pred(plane: Seq<u8>, cw: int, ch: int, r: int, c: int, mode: i8) -> Seq<u8> {
    pred_block(
        mode,
        4,
        r > 0,
        c > 0,
        spec_gather_above(plane, cw, c * 4, r * 4, 4, r > 0),
        spec_gather_left(plane, cw, ch, c * 4, r * 4, 4, c > 0),
    )
}

/// Levels of the chroma block of `(r, c)` (always DCT/DCT).
#[verifier::opaque]
pub open spec fn uv_q(src: Seq<u8>, plane: Seq<u8>, cw: int, ch: int, r: int, c: int, mode: i8) -> Seq<i32> {
    q4(resid4(src, cw, c * 4, r * 4, uv_pred(plane, cw, ch, r, c, mode)), TxType::DctDct)
}

/// Token context: how many of the two neighbouring context bytes are set.
pub open spec fn ent_ctx(a: u8, l: u8) -> int {
    (if a != 0 { 1int } else { 0int }) + (if l != 0 { 1int } else { 0int })
}

/// Whether the block's levels make its context byte `1`.
pub open spec fn has_byte(q: Seq<i32>) -> u8 {
    if nonzero(q) { 1u8 } else { 0u8 }
}

/// Second pass of luma transform block `ti`: predict from the plane, add
/// the residual unless the block is skipped, store; a coded block also
/// emits its levels and sets its contexts.
#[verifier::opaque]
pub open spec fn luma_step(f: &Yuv420Frame, s: IntraModel, r: int, c: int, ti: int, mode: i8, skip: bool, q: Seq<i32>) -> IntraModel {
    let w = f.width as int;
    let x = c * 8 + ti % 2 * 4;
    let y = r * 8 + ti / 2 * 4;
    let ha = r > 0 || ti / 2 > 0;
    let hl = c > 0 || ti % 2 > 0;
    let pred = pred_block(
        mode,
        4,
        ha,
        hl,
        spec_gather_above(s.y, w, x, y, 4, ha),
        spec_gather_left(s.y, w, f.height as int, x, y, 4, hl),
    );
    let block = if skip { pred } else { recon4(pred, dq4(q), mode_tx(mode)) };
    let y2 = stored4(s.y, w, x, y, block, 16);
    if skip {
        IntraModel { y: y2, ..s }
    } else {
        let ai = c * 2 + ti % 2;
        let li = (r % 8) * 2 + ti / 2;
        IntraModel {
            y: y2,
            ae_y: s.ae_y.update(ai, has_byte(q)),
            le_y: s.le_y.update(li, has_byte(q)),
            syms: s.syms.push(SymModel::Coefs(q, true, ent_ctx(s.ae_y[ai], s.le_y[li]) as usize, mode_tx(mode))),
            ..s
        }
    }
}

/// Second pass of a chroma block: `(plane, above ctx, left ctx, symbols)`
/// after it.
#[verifier::opaque]
pub open spec fn uv_after(
    plane: Seq<u8>,
    ae: Seq<u8>,
    le: Seq<u8>,
    syms: Seq<SymModel>,
    cw: int,
    ch: int,
    r: int,
    c: int,
    mode: i8,
    skip: bool,
    q: Seq<i32>,
) -> (Seq<u8>, Seq<u8>, Seq<u8>, Seq<SymModel>) {
    let pred = uv_pred(plane, cw, ch, r, c, mode);
    let block = if skip { pred } else { recon4(pred, dq4(q), TxType::DctDct) };
    let p2 = stored4(plane, cw, c * 4, r * 4, block, 16);
    if skip {
        (p2, ae, le, syms)
    } else {
        (
            p2,
            ae.update(c, has_byte(q)),
            le.update(r % 8, has_byte(q)),
            syms.push(SymModel::Coefs(q, false, ent_ctx(ae[c], le[r % 8]) as usize, TxType::DctDct)),
        )
    }
}


/// 1 when some of the 16 levels is non-zero, else 0.
pub open spec fn flag_of(q: Seq<i32>) -> u8 {
    if exists|i: int| 0 <= i < 16 && #[trigger] q[i] != 0 { 1 } else { 0 }
}

/// The token context of a chroma block: the number of its two neighbours
/// (the block above, by the above flag of its column; the block to the
/// left, by the left flag of its row) whose flag is set. A coded block
/// emits its levels with that context and sets both flags to whether it
/// has a non-zero level; a skipped block emits nothing and leaves them.
pub proof fn law_chroma_token_context(
    plane: Seq<u8>,
    ae: Seq<u8>,
    le: Seq<u8>,
    syms: Seq<SymModel>,
    cw: int,
    ch: int,
    r: int,
    c: int,
    mode: i8,
    skip: bool,
    q: Seq<i32>,
)
    requires
        0 <= c < ae.len(),
        0 <= r,
        le.len() == 8,
    ensures
        ({
            let o = uv_after(plane, ae, le, syms, cw, ch, r, c, mode, skip, q);
            let ctx = (if ae[c] != 0 { 1int } else { 0int }) + (if le[r % 8] != 0 { 1int } else { 0int });
            &&& skip ==> o.1 == ae && o.2 == le && o.3 == syms
            &&& !skip ==> o.3 == syms.push(SymModel::Coefs(q, false, ctx as usize, TxType::DctDct))
            &&& !skip ==> o.1 == ae.update(c, flag_of(q)) && o.2 == le.update(r % 8, flag_of(q))
        }),
{
    reveal(uv_after);
}

/// Two chroma blocks coded one after the other in a superblock row: the
/// second's context counts the first as its left neighbour exactly when
/// the first had a non-zero level.
pub proof fn law_chroma_left_neighbour(
    plane: Seq<u8>,
    ae: Seq<u8>,
    le: Seq<u8>,
    syms: Seq<SymModel>,
    cw: int,
    ch: int,
    r: int,
    c: int,
    m1: i8,
    m2: i8,
    q1: Seq<i32>,
    q2: Seq<i32>,
)
    requires
        0 <= c,
        c + 1 < ae.len(),
        0 <= r,
        le.len() == 8,
    ensures
        ({
            let a = uv_after(plane, ae, le, syms, cw, ch, r, c, m1, false, q1);
            let b = uv_after(a.0, a.1, a.2, a.3, cw, ch, r, c + 1, m2, false, q2);
            let ctx2 = (if ae[c + 1] != 0 { 1int } else { 0int }) + (flag_of(q1) as int);
            b.3 == syms.push(SymModel::Coefs(q1, false, ((if ae[c] != 0 { 1int } else { 0int }) + (if le[r % 8] != 0 {
                1int
            } else {
                0int
            })) as usize, TxType::DctDct)).push(SymModel::Coefs(q2, false, ctx2 as usize, TxType::DctDct))
        }),
{
    law_chroma_token_context(plane, ae, le, syms, cw, ch, r, c, m1, false, q1);
    let a = uv_after(plane, ae, le, syms, cw, ch, r, c, m1, false, q1);
    law_chroma_token_context(a.0, a.1, a.2, a.3, cw, ch, r, c + 1, m2, false, q2);
}

/// The token context of luma transform block `ti` (raster order in its 8×8
/// block) counts its above and left neighbours whose flags are set; a
/// coded block emits its levels with that context and sets both flags to
/// whether it has a non-zero level; a skipped block emits nothing.
pub proof fn law_luma_token_context(f: &Yuv420Frame, s: IntraModel, r: int, c: int, ti: int, mode: i8, skip: bool, q: Seq<i32>)
    requires
        0 <= ti < 4,
        0 <= r,
        0 <= c,
    ensures
        ({
            let o = luma_step(f, s, r, c, ti, mode, skip, q);
            let ai = c * 2 + ti % 2;
            let li = (r % 8) * 2 + ti / 2;
            let ctx = (if s.ae_y[ai] != 0 { 1int } else { 0int }) + (if s.le_y[li] != 0 { 1int } else { 0int });
            &&& skip ==> o.ae_y == s.ae_y && o.le_y == s.le_y && o.syms == s.syms
            &&& !skip ==> o.syms == s.syms.push(SymModel::Coefs(q, true, ctx as usize, mode_tx(mode)))
            &&& !skip ==> o.ae_y == s.ae_y.update(ai, flag_of(q)) && o.le_y == s.le_y.update(li, flag_of(q))
        }),
{
    reveal(luma_step);
}

/// `0 ≤ a·w + b < w·h` for a position inside a `w × h` plane.
proof fn lemma_idx_in(a: int, b: int, w: int, h: int)
    requires
        0 <= a < h,
        0 <= b < w,
    ensures
        0 <= a * w + b < w * h,
        a * w + b < h * w,
        0 <= a * w,
{
    assert(0 <= a * w + b < w * h && a * w + b < h * w && 0 <= a * w) by (nonlinear_arith)
        requires
            0 <= a < h,
            0 <= b < w,
    ;
}

/// Transform and quantize the chroma block of `(r, c)`.
fn uv_quant(plane: &[u8], src: &[u8], cw: usize, ch: usize, r: usize, c: usize, mode: i8) -> (res: ([i32; 16], [i32; 16]))
    requires
        mode_ok(mode),
        c * 4 + 4 <= cw,
        r * 4 + 4 <= ch,
        plane@.len() == cw * ch,
        src@.len() == cw * ch,
        cw * ch <= usize::MAX,
    ensures
        res.0@ == uv_q(src@, plane@, cw as int, ch as int, r as int, c as int, mode),
        res.1@ == dq4(res.0@),
{
    let x = c * 4;
    let y = r * 4;
    proof {
        if r > 0 {
            lemma_idx_in(y - 1, cw - 1, cw as int, ch as int);
        }
        lemma_idx_in(ch - 1, x as int, cw as int, ch as int);
        lemma_idx_in(y + 3, x + 3, cw as int, ch as int);
    }
    let a = gather_above(plane, cw, x, y, 4, r > 0);
    let l = gather_left(plane, cw, ch, x, y, 4, c > 0);
    let pred = predicted(mode, 4, r > 0, c > 0, a.as_slice(), l.as_slice());
    let pa = arr16(&pred);
    let residual = residual_packed4(&pa, src, cw, x, y);
    assert(residual@ =~= resid4(src@, cw as int, x as int, y as int, pred@));
    proof {
        reveal(uv_q);
    }
    quant4(&residual, TxType::DctDct)
}

/// Append the bools that code `token` through `tree`.
fn push_tree(syms: &mut Vec<TileSym>, tree: &[i8], probs: &[u8], token: i8)
    requires
        tree_wf(tree@),
        tree@.len() <= 2 * probs@.len(),
        tree_has(tree@, token),
    ensures
        syms_model(final(syms)@) == syms_model(old(syms)@) + bools_model(tree_ops(tree@, probs@, token)),
{
    proof {
        lemma_path_in_tree(tree@, 0, token);
    }
    let path = match tree_path(tree, 0, token) {
        Some(p) => p,
        None => {
            return;
        },
    };
    let ghost ops = tree_ops(tree@, probs@, token);
    let n0 = syms.len();
    let mut k: usize = 0;
    while k < path.len()
        invariant
            k <= path@.len(),
            path@ == spec_tree_path(tree@, 0, token).unwrap(),
            path_in_tree(path@, tree@.len() as int),
            tree@.len() <= 2 * probs@.len(),
            ops == path_ops(path@, probs@),
            n0 == old(syms)@.len(),
            syms@.len() == n0 + k,
            forall|j: int| 0 <= j < n0 ==> syms@[j] == old(syms)@[j],
            forall|j: int| 0 <= j < k ==> syms@[n0 + j] == TileSym::Bool(ops[j].0, ops[j].1),
        decreases path@.len() - k,
    {
        let (node, bit) = path[k];
        assert(path@[k as int].0 < tree@.len());
        syms.push(TileSym::Bool(probs[node / 2], bit));
        k += 1;
    }
    assert(syms_model(syms@) =~= syms_model(old(syms)@) + bools_model(ops));
}

proof fn lemma_intra_tree()
    ensures
        tree_wf(INTRA_MODE_TREE@),
        tree_has(INTRA_MODE_TREE@, DC_PRED),
        tree_has(INTRA_MODE_TREE@, V_PRED),
        tree_has(INTRA_MODE_TREE@, H_PRED),
{
    crate::vp9::keyframe::lemma_kf_trees();
    let t = seq![
        0i8, 2i8, -9i8, 4i8, -1i8, 6i8, 8i8, 12i8, -2i8, 10i8, -4i8, -5i8, -3i8, 14i8, -8i8,
        16i8, -6i8, -7i8,
    ];
    assert(INTRA_MODE_TREE@ =~= t);
    assert(spec_tree_path(t, 4, 1i8) is Some);
    assert(spec_tree_path(t, 2, 1i8) is Some);
    assert(tree_has(t, 1i8));
    assert(spec_tree_path(t, 8, 2i8) is Some);
    assert(spec_tree_path(t, 6, 2i8) is Some);
    assert(spec_tree_path(t, 4, 2i8) is Some);
    assert(spec_tree_path(t, 2, 2i8) is Some);
    assert(tree_has(t, 2i8));
}

/// The bools of a block's mode info: the skip flag (context: skipped
/// neighbours above and left), the luma mode (probabilities by the modes
/// above and left) and the chroma mode (by the luma mode).
#[verifier::opaque]
pub open spec fn mode_syms(f: &Yuv420Frame, s: IntraModel, r: int, c: int, skip: bool, ym: i8, uvm: i8) -> Seq<SymModel> {
    let mi_cols = (f.width / 8) as int;
    let am = if r > 0 { s.modes[(r - 1) * mi_cols + c] } else { DC_PRED };
    let lm = if c > 0 { s.modes[r * mi_cols + c - 1] } else { DC_PRED };
    let sctx = (if r > 0 && s.skips[(r - 1) * mi_cols + c] { 1int } else { 0int }) + (if c > 0 && s.skips[r
        * mi_cols + c - 1] { 1int } else { 0int });
    seq![SymModel::Bool(DEFAULT_SKIP_PROBS[sctx], skip)] + bools_model(
        tree_ops(INTRA_MODE_TREE@, KF_Y_MODE_PROB[am as int][lm as int]@, ym),
    ) + bools_model(tree_ops(INTRA_MODE_TREE@, KF_UV_MODE_PROB[ym as int]@, uvm))
}

/// Clear the token contexts of a skipped block.
#[verifier::opaque]
pub open spec fn clear_ctx(s: IntraModel, r: int, c: int) -> IntraModel {
    IntraModel {
        ae_y: s.ae_y.update(c * 2, 0u8).update(c * 2 + 1, 0u8),
        le_y: s.le_y.update((r % 8) * 2, 0u8).update((r % 8) * 2 + 1, 0u8),
        ae_u: s.ae_u.update(c, 0u8),
        le_u: s.le_u.update(r % 8, 0u8),
        ae_v: s.ae_v.update(c, 0u8),
        le_v: s.le_v.update(r % 8, 0u8),
        ..s
    }
}

/// Coding 8×8 block `(r, c)`: choose the modes, quantize every transform
/// block, skip the block when every level is zero, emit the mode info and
/// the coefficient blocks, and reconstruct luma, then U, then V.
#[verifier::opaque]
pub open spec fn block_step(f: &Yuv420Frame, s: IntraModel, r: int, c: int) -> IntraModel {
    let mi_cols = (f.width / 8) as int;
    let cw = (f.width / 2) as int;
    let ch = (f.height / 2) as int;
    let ym = luma_mode(f, s, r, c);
    let uvm = chroma_mode(f, s, r, c);
    let q0 = luma_q(f, s, r, c, ym, 0);
    let q1 = luma_q(f, s, r, c, ym, 1);
    let q2 = luma_q(f, s, r, c, ym, 2);
    let q3 = luma_q(f, s, r, c, ym, 3);
    let qu = uv_q(f.u@, s.u, cw, ch, r, c, uvm);
    let qv = uv_q(f.v@, s.v, cw, ch, r, c, uvm);
    let skip = !(nonzero(q0) || nonzero(q1) || nonzero(q2) || nonzero(q3) || nonzero(qu) || nonzero(qv));
    let s1 = IntraModel { syms: s.syms + mode_syms(f, s, r, c, skip, ym, uvm), ..s };
    let s2 = luma_step(f, s1, r, c, 0, ym, skip, q0);
    let s3 = luma_step(f, s2, r, c, 1, ym, skip, q1);
    let s4 = luma_step(f, s3, r, c, 2, ym, skip, q2);
    let s5 = luma_step(f, s4, r, c, 3, ym, skip, q3);
    let cu = uv_after(s5.u, s5.ae_u, s5.le_u, s5.syms, cw, ch, r, c, uvm, skip, qu);
    let cv = uv_after(s5.v, s5.ae_v, s5.le_v, cu.3, cw, ch, r, c, uvm, skip, qv);
    let s7 = IntraModel { u: cu.0, ae_u: cu.1, le_u: cu.2, v: cv.0, ae_v: cv.1, le_v: cv.2, syms: cv.3, ..s5 };
    let s8 = if skip { clear_ctx(s7, r, c) } else { s7 };
    IntraModel {
        modes: s8.modes.update(r * mi_cols + c, ym),
        skips: s8.skips.update(r * mi_cols + c, skip),
        ..s8
    }
}

/// Second pass of a chroma block, on one plane and its contexts.
#[verifier::rlimit(40)]
fn uv_tx2(
    plane: &mut Vec<u8>,
    ae: &mut Vec<u8>,
    le: &mut [u8; 8],
    syms: &mut Vec<TileSym>,
    cw: usize,
    ch: usize,
    r: usize,
    c: usize,
    mode: i8,
    skip: bool,
    q: &[i32; 16],
    dq: &[i32; 16],
)
    requires
        mode_ok(mode),
        c * 4 + 4 <= cw,
        r * 4 + 4 <= ch,
        old(plane)@.len() == cw * ch,
        cw * ch <= usize::MAX,
        c < old(ae)@.len(),
        dq@ == dq4(q@),
    ensures
        final(plane)@.len() == old(plane)@.len(),
        final(ae)@.len() == old(ae)@.len(),
        (final(plane)@, final(ae)@, final(le)@, syms_model(final(syms)@)) == uv_after(
            old(plane)@,
            old(ae)@,
            old(le)@,
            syms_model(old(syms)@),
            cw as int,
            ch as int,
            r as int,
            c as int,
            mode,
            skip,
            q@,
        ),
{
    let x = c * 4;
    let y = r * 4;
    proof {
        if r > 0 {
            lemma_idx_in(y - 1, cw - 1, cw as int, ch as int);
        }
        lemma_idx_in(ch - 1, x as int, cw as int, ch as int);
        lemma_idx_in(y + 3, x + 3, cw as int, ch as int);
    }
    let a = gather_above(plane.as_slice(), cw, x, y, 4, r > 0);
    let l = gather_left(plane.as_slice(), cw, ch, x, y, 4, c > 0);
    let pred = predicted(mode, 4, r > 0, c > 0, a.as_slice(), l.as_slice());
    assert(pred@ == uv_pred(old(plane)@, cw as int, ch as int, r as int, c as int, mode));
    proof {
        reveal(uv_after);
    }
    let block = if skip {
        arr16(&pred)
    } else {
        let ri = r % 8;
        let ctx: usize = (if ae[c] != 0 { 1 } else { 0 }) + (if le[ri] != 0 { 1 } else { 0 });
        let has: u8 = if any_nonzero(q) { 1 } else { 0 };
        syms.push(TileSym::Coefs(CoefBlock { coeffs: *q, is_y: false, ctx, tx_type: TxType::DctDct }));
        ae.set(c, has);
        le[ri] = has;
        add_residual4(&pred, dq, TxType::DctDct)
    };
    store_4x4(plane, cw, x, y, &block);
    proof {
        crate::vp9::encoder::lemma_stored4_len(old(plane)@, cw as int, x as int, y as int, block@, 16);
        reveal(uv_after);
        let ghost sm = syms_model(old(syms)@);
        if !skip {
            assert(syms_model(syms@) =~= sm.push(SymModel::Coefs(q@, false, ent_ctx(old(ae)@[c as int], old(le)@[(r % 8) as int]) as usize, TxType::DctDct)));
        } else {
            assert(syms_model(syms@) =~= sm);
        }
    }
}


/// The running state of an intra frame encode.
struct IntraEnc {
    mi_cols: usize,
    mi_rows: usize,
    recon_y: Vec<u8>,
    recon_u: Vec<u8>,
    recon_v: Vec<u8>,
    modes: Vec<i8>,
    skips: Vec<bool>,
    above_ent_y: Vec<u8>,
    left_ent_y: [u8; 16],
    above_ent_u: Vec<u8>,
    left_ent_u: [u8; 8],
    above_ent_v: Vec<u8>,
    left_ent_v: [u8; 8],
    syms: Vec<TileSym>,
}

impl IntraEnc {
    spec fn model(&self) -> IntraModel {
        IntraModel {
            y: self.recon_y@,
            u: self.recon_u@,
            v: self.recon_v@,
            modes: self.modes@,
            skips: self.skips@,
            ae_y: self.above_ent_y@,
            le_y: self.left_ent_y@,
            ae_u: self.above_ent_u@,
            le_u: self.left_ent_u@,
            ae_v: self.above_ent_v@,
            le_v: self.left_ent_v@,
            syms: syms_model(self.syms@),
        }
    }

    spec fn inv(&self, f: &Yuv420Frame) -> bool {
        &&& frame_ok(f)
        &&& self.mi_cols == f.width / 8
        &&& self.mi_rows == f.height / 8
        &&& model_ok(f, self.model())
    }

    /// First pass over the four luma transform blocks: predict (earlier
    /// blocks from the scratch 8×8), transform, quantize, reconstruct into
    /// the scratch block. Returns the levels and dequantized coefficients.
    fn luma_pass1(&self, f: &Yuv420Frame, r: usize, c: usize, mode: i8) -> (res: (Vec<[i32; 16]>, Vec<[i32; 16]>))
        requires
            self.inv(f),
            r < self.mi_rows,
            c < self.mi_cols,
            mode_ok(mode),
        ensures
            res.0@.len() == 4,
            res.1@.len() == 4,
            forall|ti: int| 0 <= ti < 4 ==> #[trigger] res.0@[ti]@ == luma_q(f, self.model(), r as int, c as int, mode, ti),
            forall|ti: int| 0 <= ti < 4 ==> #[trigger] res.1@[ti]@ == dq4(res.0@[ti]@),
    {
        let w = f.width as usize;
        let h = f.height as usize;
        let px = c * 8;
        let py = r * 8;
        let ghost s = self.model();
        let t = tx_type_from_mode(mode);
        let mut local = [0u8; 64];
        let mut qs: Vec<[i32; 16]> = Vec::new();
        let mut dqs: Vec<[i32; 16]> = Vec::new();
        assert(local@ =~= p1_local(f, s, r as int, c as int, mode, 0));
        let mut ti: usize = 0;
        while ti < 4
            invariant
                ti <= 4,
                self.inv(f),
                s == self.model(),
                r < self.mi_rows,
                c < self.mi_cols,
                mode_ok(mode),
                t == mode_tx(mode),
                w == f.width,
                h == f.height,
                px == c * 8,
                py == r * 8,
                local@ == p1_local(f, s, r as int, c as int, mode, ti as int),
                qs@.len() == ti,
                dqs@.len() == ti,
                forall|j: int| 0 <= j < ti ==> #[trigger] qs@[j]@ == p1_q(f, s, r as int, c as int, mode, p1_local(f, s, r as int, c as int, mode, j), j),
                forall|j: int| 0 <= j < ti ==> #[trigger] dqs@[j]@ == dq4(qs@[j]@),
            decreases 4 - ti,
        {
            let tx = ti % 2;
            let ty = ti / 2;
            let have_a = r > 0 || ty > 0;
            let have_l = c > 0 || tx > 0;
            proof {
                assert(px + 8 <= w && py + 8 <= h);
                if py > 0 {
                    lemma_idx_in(py - 1, px + tx * 4 + 3, w as int, h as int);
                }
                if px > 0 {
                    lemma_idx_in(py + ty * 4 + 3, px - 1, w as int, h as int);
                }
                lemma_idx_in(py + ty * 4 + 3, px + tx * 4 + 3, w as int, h as int);
            }
            let (above, left) = neighbors_y(self.recon_y.as_slice(), &local, w, px, py, tx, ty, have_a, have_l);
            let pred = predicted(mode, 4, have_a, have_l, above.as_slice(), left.as_slice());
            assert(pred@ == p1_pred(f, s, r as int, c as int, mode, local@, ti as int)) by {
                assert(above@ =~= Seq::new(4, |i: int| above_y(s.y, local@, w as int, px as int, py as int, tx as int, ty as int, have_a, i)));
                assert(left@ =~= Seq::new(4, |i: int| left_y(s.y, local@, w as int, px as int, py as int, tx as int, ty as int, have_l, i)));
            }
            let pa = arr16(&pred);
            let residual = residual_packed4(&pa, f.y.as_slice(), w, px + tx * 4, py + ty * 4);
            assert(residual@ =~= resid4(f.y@, w as int, (px + tx * 4) as int, (py + ty * 4) as int, pred@));
            let (q, dq) = quant4(&residual, t);
            let block = add_residual4(&pred, &dq, t);
            store_local4(&mut local, tx, ty, &block);
            qs.push(q);
            dqs.push(dq);
            ti += 1;
        }
        proof {
            reveal(luma_q);
        }
        (qs, dqs)
    }

    /// Second pass of luma transform block `ti`.
    #[verifier::rlimit(40)]
    fn luma_tx2(&mut self, f: &Yuv420Frame, r: usize, c: usize, ti: usize, mode: i8, skip: bool, q: &[i32; 16], dq: &[i32; 16])
        requires
            old(self).inv(f),
            r < old(self).mi_rows,
            c < old(self).mi_cols,
            ti < 4,
            mode_ok(mode),
            dq@ == dq4(q@),
        ensures
            final(self).inv(f),
            final(self).model() == luma_step(f, old(self).model(), r as int, c as int, ti as int, mode, skip, q@),
    {
        let ghost s = self.model();
        let w = f.width as usize;
        let h = f.height as usize;
        let tx = ti % 2;
        let ty = ti / 2;
        let x = c * 8 + tx * 4;
        let y = r * 8 + ty * 4;
        let have_a = r > 0 || ty > 0;
        let have_l = c > 0 || tx > 0;
        proof {
            assert(c * 8 + 8 <= w && r * 8 + 8 <= h);
            if y > 0 {
                lemma_idx_in(y - 1, w - 1, w as int, h as int);
            }
            if x > 0 {
                lemma_idx_in(h - 1, x - 1, w as int, h as int);
            }
            lemma_idx_in(y + 3, x + 3, w as int, h as int);
        }
        let a = gather_above(self.recon_y.as_slice(), w, x, y, 4, have_a);
        let l = gather_left(self.recon_y.as_slice(), w, h, x, y, 4, have_l);
        let pred = predicted(mode, 4, have_a, have_l, a.as_slice(), l.as_slice());
        let t = tx_type_from_mode(mode);
        let block = if skip {
            arr16(&pred)
        } else {
            let ai = c * 2 + tx;
            let li = (r % 8) * 2 + ty;
            let ctx: usize = (if self.above_ent_y[ai] != 0 { 1 } else { 0 }) + (if self.left_ent_y[li] != 0 { 1 } else { 0 });
            let has: u8 = if any_nonzero(q) { 1 } else { 0 };
            self.syms.push(TileSym::Coefs(CoefBlock { coeffs: *q, is_y: true, ctx, tx_type: t }));
            self.above_ent_y.set(ai, has);
            self.left_ent_y[li] = has;
            add_residual4(&pred, dq, t)
        };
        store_4x4(&mut self.recon_y, w, x, y, &block);
        proof {
            crate::vp9::encoder::lemma_stored4_len(s.y, w as int, x as int, y as int, block@, 16);
            reveal(luma_step);
            let ghost m = luma_step(f, s, r as int, c as int, ti as int, mode, skip, q@);
            if !skip {
                assert(syms_model(self.syms@) =~= m.syms);
            } else {
                assert(syms_model(self.syms@) =~= m.syms);
            }
            assert(self.model().y =~= m.y);
            assert(self.model().ae_y =~= m.ae_y);
            assert(self.model().le_y =~= m.le_y);
        }
    }

    /// Append the mode-info bools of block `(r, c)`.
    #[verifier::rlimit(40)]
    fn push_mode_syms(&mut self, f: &Yuv420Frame, r: usize, c: usize, skip: bool, ym: i8, uvm: i8)
        requires
            old(self).inv(f),
            r < old(self).mi_rows,
            c < old(self).mi_cols,
            mode_ok(ym),
            mode_ok(uvm),
        ensures
            final(self).inv(f),
            final(self).model() == (IntraModel {
                syms: old(self).model().syms + mode_syms(f, old(self).model(), r as int, c as int, skip, ym, uvm),
                ..old(self).model()
            }),
    {
        let ghost s = self.model();
        let mi_cols = self.mi_cols;
        let n_mi = self.modes.len();
        proof {
            if r > 0 {
                lemma_idx_in(r - 1, c as int, mi_cols as int, self.mi_rows as int);
                assert((r - 1) * mi_cols + c < self.modes@.len());
            }
            lemma_idx_in(r as int, c as int, mi_cols as int, self.mi_rows as int);
            assert(r * mi_cols + c < self.modes@.len());
        }
        let am = if r > 0 { self.modes[(r - 1) * mi_cols + c] } else { DC_PRED };
        let lm = if c > 0 { self.modes[r * mi_cols + c - 1] } else { DC_PRED };
        let sctx: usize = (if r > 0 && self.skips[(r - 1) * mi_cols + c] { 1 } else { 0 }) + (if c > 0 && self.skips[r
            * mi_cols + c - 1] { 1 } else { 0 });
        self.syms.push(TileSym::Bool(DEFAULT_SKIP_PROBS[sctx], skip));
        let ghost s1 = syms_model(self.syms@);
        assert(s1 =~= s.syms + seq![SymModel::Bool(DEFAULT_SKIP_PROBS[sctx as int], skip)]);
        proof {
            lemma_intra_tree();
        }
        let yp = KF_Y_MODE_PROB[am as usize][lm as usize];
        push_tree(&mut self.syms, &INTRA_MODE_TREE, &yp, ym);
        let ghost a = bools_model(tree_ops(INTRA_MODE_TREE@, yp@, ym));
        let uvp = KF_UV_MODE_PROB[ym as usize];
        push_tree(&mut self.syms, &INTRA_MODE_TREE, &uvp, uvm);
        let ghost b = bools_model(tree_ops(INTRA_MODE_TREE@, uvp@, uvm));
        proof {
            reveal(mode_syms);
            let ghost ms = mode_syms(f, s, r as int, c as int, skip, ym, uvm);
            assert(yp@ == KF_Y_MODE_PROB[am as int][lm as int]@);
            assert(uvp@ == KF_UV_MODE_PROB[ym as int]@);
            assert(ms == seq![SymModel::Bool(DEFAULT_SKIP_PROBS[sctx as int], skip)] + a + b);
            assert(syms_model(self.syms@) == s.syms + seq![SymModel::Bool(DEFAULT_SKIP_PROBS[sctx as int], skip)] + a + b);
            assert(syms_model(self.syms@) =~= s.syms + ms);
        }
    }

    /// The luma and chroma modes of block `(r, c)`.
    #[verifier::rlimit(40)]
    fn pick_modes(&self, f: &Yuv420Frame, r: usize, c: usize) -> (m: (i8, i8))
        requires
            self.inv(f),
            r < self.mi_rows,
            c < self.mi_cols,
        ensures
            m.0 == luma_mode(f, self.model(), r as int, c as int),
            m.1 == chroma_mode(f, self.model(), r as int, c as int),
            mode_ok(m.0),
            mode_ok(m.1),
    {
        let w = f.width as usize;
        let h = f.height as usize;
        let cw = w / 2;
        let ch = h / 2;
        let px = c * 8;
        let py = r * 8;
        let cx = c * 4;
        let cy = r * 4;
        let mi_above = r > 0;
        let mi_left = c > 0;
        proof {
            assert(px + 8 <= w && py + 8 <= h && cx + 4 <= cw && cy + 4 <= ch);
            assert(cw * ch <= w * h) by (nonlinear_arith)
                requires
                    cw * 2 <= w,
                    ch * 2 <= h,
            ;
            if py > 0 {
                lemma_idx_in(py - 1, w - 1, w as int, h as int);
                lemma_idx_in(cy - 1, cw - 1, cw as int, ch as int);
            }
            if px > 0 {
                lemma_idx_in(h - 1, px - 1, w as int, h as int);
                lemma_idx_in(ch - 1, cx - 1, cw as int, ch as int);
            }
            lemma_idx_in(py + 7, px + 7, w as int, h as int);
            lemma_idx_in(py as int, px as int, w as int, h as int);
            assert((py + 7) * w == py * w + 7 * w) by (nonlinear_arith);
            lemma_idx_in(cy + 3, cx + 3, cw as int, ch as int);
            lemma_idx_in(cy as int, cx as int, cw as int, ch as int);
            assert((cy + 3) * cw == cy * cw + 3 * cw) by (nonlinear_arith);
        }
        let above8 = gather_above(self.recon_y.as_slice(), w, px, py, 8, mi_above);
        let left8 = gather_left(self.recon_y.as_slice(), w, h, px, py, 8, mi_left);
        let src_y = vstd::slice::slice_subrange(f.y.as_slice(), py * w + px, f.y.len());
        let best_y = pick_mode(8, mi_above, mi_left, above8.as_slice(), left8.as_slice(), src_y, w);
        let au = gather_above(self.recon_u.as_slice(), cw, cx, cy, 4, mi_above);
        let lu = gather_left(self.recon_u.as_slice(), cw, ch, cx, cy, 4, mi_left);
        let av = gather_above(self.recon_v.as_slice(), cw, cx, cy, 4, mi_above);
        let lv = gather_left(self.recon_v.as_slice(), cw, ch, cx, cy, 4, mi_left);
        let src_u = vstd::slice::slice_subrange(f.u.as_slice(), cy * cw + cx, f.u.len());
        let src_v = vstd::slice::slice_subrange(f.v.as_slice(), cy * cw + cx, f.v.len());
        let best_uv = pick_uv_mode(
            4,
            mi_above,
            mi_left,
            au.as_slice(),
            lu.as_slice(),
            av.as_slice(),
            lv.as_slice(),
            src_u,
            src_v,
            cw,
        );
        proof {
            reveal(luma_mode);
            reveal(chroma_mode);
        }
        (best_y, best_uv)
    }

    /// Clear the token contexts of skipped block `(r, c)`.
    #[verifier::rlimit(40)]
    fn clear_block_ctx(&mut self, f: &Yuv420Frame, r: usize, c: usize)
        requires
            old(self).inv(f),
            r < old(self).mi_rows,
            c < old(self).mi_cols,
        ensures
            final(self).inv(f),
            final(self).model() == clear_ctx(old(self).model(), r as int, c as int),
    {
        let ri = r % 8;
        self.above_ent_y.set(c * 2, 0);
        self.above_ent_y.set(c * 2 + 1, 0);
        self.left_ent_y[ri * 2] = 0;
        self.left_ent_y[ri * 2 + 1] = 0;
        self.above_ent_u.set(c, 0);
        self.left_ent_u[ri] = 0;
        self.above_ent_v.set(c, 0);
        self.left_ent_v[ri] = 0;
        proof {
            reveal(clear_ctx);
            let ghost cl = clear_ctx(old(self).model(), r as int, c as int);
            assert(self.model().ae_y =~= cl.ae_y);
            assert(self.model().le_y =~= cl.le_y);
            assert(self.model().ae_u =~= cl.ae_u);
            assert(self.model().le_u =~= cl.le_u);
            assert(self.model().ae_v =~= cl.ae_v);
            assert(self.model().le_v =~= cl.le_v);
        }
    }

    /// Record block `(r, c)`'s luma mode and skip flag.
    #[verifier::rlimit(40)]
    fn set_mode(&mut self, f: &Yuv420Frame, r: usize, c: usize, mode: i8, skip: bool)
        requires
            old(self).inv(f),
            r < old(self).mi_rows,
            c < old(self).mi_cols,
            mode_ok(mode),
        ensures
            final(self).inv(f),
            final(self).model() == (IntraModel {
                modes: old(self).model().modes.update(r * (f.width / 8) + c, mode),
                skips: old(self).model().skips.update(r * (f.width / 8) + c, skip),
                ..old(self).model()
            }),
    {
        let n_mi = self.modes.len();
        proof {
            lemma_idx_in(r as int, c as int, self.mi_cols as int, self.mi_rows as int);
        }
        let idx = r * self.mi_cols + c;
        self.modes.set(idx, mode);
        self.skips.set(idx, skip);
        assert(forall|i: int| 0 <= i < self.modes@.len() ==> mode_ok(#[trigger] self.modes@[i]));
    }

    /// Code 8×8 block `(r, c)` (see `block_step`).
    #[verifier::rlimit(60)]
    fn encode_block(&mut self, f: &Yuv420Frame, r: usize, c: usize)
        requires
            old(self).inv(f),
            r < old(self).mi_rows,
            c < old(self).mi_cols,
        ensures
            final(self).inv(f),
            final(self).model() == block_step(f, old(self).model(), r as int, c as int),
    {
        let ghost s = self.model();
        let w = f.width as usize;
        let h = f.height as usize;
        let cw = w / 2;
        let ch = h / 2;
        proof {
            assert(c * 4 + 4 <= cw && r * 4 + 4 <= ch);
            assert(cw * ch <= w * h) by (nonlinear_arith)
                requires
                    cw * 2 <= w,
                    ch * 2 <= h,
            ;
        }
        let (best_y, best_uv) = self.pick_modes(f, r, c);
        let (yq, ydq) = self.luma_pass1(f, r, c, best_y);
        let (uq, udq) = uv_quant(self.recon_u.as_slice(), f.u.as_slice(), cw, ch, r, c, best_uv);
        let (vq, vdq) = uv_quant(self.recon_v.as_slice(), f.v.as_slice(), cw, ch, r, c, best_uv);
        let any = any_nonzero(&yq[0]) || any_nonzero(&yq[1]) || any_nonzero(&yq[2]) || any_nonzero(&yq[3])
            || any_nonzero(&uq) || any_nonzero(&vq);
        let skip = !any;
        self.push_mode_syms(f, r, c, skip, best_y, best_uv);
        self.luma_tx2(f, r, c, 0, best_y, skip, &yq[0], &ydq[0]);
        self.luma_tx2(f, r, c, 1, best_y, skip, &yq[1], &ydq[1]);
        self.luma_tx2(f, r, c, 2, best_y, skip, &yq[2], &ydq[2]);
        self.luma_tx2(f, r, c, 3, best_y, skip, &yq[3], &ydq[3]);
        let ghost s5 = self.model();
        uv_tx2(
            &mut self.recon_u,
            &mut self.above_ent_u,
            &mut self.left_ent_u,
            &mut self.syms,
            cw,
            ch,
            r,
            c,
            best_uv,
            skip,
            &uq,
            &udq,
        );
        uv_tx2(
            &mut self.recon_v,
            &mut self.above_ent_v,
            &mut self.left_ent_v,
            &mut self.syms,
            cw,
            ch,
            r,
            c,
            best_uv,
            skip,
            &vq,
            &vdq,
        );
        let ghost s7 = self.model();
        proof {
            let ghost cu = uv_after(s5.u, s5.ae_u, s5.le_u, s5.syms, cw as int, ch as int, r as int, c as int, best_uv, skip, uq@);
            let ghost cv = uv_after(s5.v, s5.ae_v, s5.le_v, cu.3, cw as int, ch as int, r as int, c as int, best_uv, skip, vq@);
            assert(s7 == (IntraModel { u: cu.0, ae_u: cu.1, le_u: cu.2, v: cv.0, ae_v: cv.1, le_v: cv.2, syms: cv.3, ..s5 }));
        }
        if skip {
            self.clear_block_ctx(f, r, c);
        }
        self.set_mode(f, r, c, best_y, skip);
        proof {
            reveal(block_step);
        }
    }
}


/// Encoder state together with the partition contexts.
pub struct FrameState {
    pub enc: IntraModel,
    pub part: PartitionModel,
}

/// The partition bools of a keyframe block: the full tree when both halves
/// are inside the frame, a split bool when only one is, nothing when neither is.
pub open spec fn kf_partition_syms(
    m: PartitionModel,
    r: int,
    c: int,
    bsize: u32,
    has_rows: bool,
    has_cols: bool,
    partition: i8,
) -> Seq<SymModel> {
    let probs = KF_PARTITION_PROBS[model_context(m, r, c, bsize)];
    if has_rows && has_cols {
        bools_model(tree_ops(PARTITION_TREE@, probs@, partition))
    } else if !has_rows && has_cols {
        seq![SymModel::Bool(probs[1], partition == PARTITION_SPLIT)]
    } else if has_rows && !has_cols {
        seq![SymModel::Bool(probs[2], partition == PARTITION_SPLIT)]
    } else {
        Seq::empty()
    }
}

/// Coding the `bsize` block at `(r, c)`: nothing outside the frame; else
/// its partition (NONE at 8×8, SPLIT above), then the 8×8 block or the four
/// quarters in raster order.
#[verifier::opaque]
pub open spec fn part_step(f: &Yuv420Frame, st: FrameState, r: int, c: int, bsize: u32) -> FrameState
    decreases bsize,
{
    let mi_rows = (f.height / 8) as int;
    let mi_cols = (f.width / 8) as int;
    if r >= mi_rows || c >= mi_cols || !is_square_bsize(bsize) {
        st
    } else {
        let half = (bsize / 8 / 2) as int;
        let partition = if bsize == 8 { PARTITION_NONE } else { PARTITION_SPLIT };
        let syms = st.enc.syms + kf_partition_syms(st.part, r, c, bsize, r + half < mi_rows, c + half < mi_cols, partition);
        let st1 = FrameState { enc: IntraModel { syms, ..st.enc }, ..st };
        if bsize == 8 {
            FrameState { enc: block_step(f, st1.enc, r, c), part: model_update(st1.part, r, c, 8, 8, 8, 8) }
        } else {
            let sub = bsize / 2;
            let a = part_step(f, st1, r, c, sub);
            let b = part_step(f, a, r, c + half, sub);
            let d = part_step(f, b, r + half, c, sub);
            part_step(f, d, r + half, c + half, sub)
        }
    }
}

/// The first `n` superblocks of superblock row `r`.
#[verifier::opaque]
pub open spec fn sb_row(f: &Yuv420Frame, st: FrameState, r: int, n: int) -> FrameState
    decreases n,
{
    if n <= 0 {
        st
    } else {
        part_step(f, sb_row(f, st, r, n - 1), r, (n - 1) * 8, 64)
    }
}

/// Left contexts cleared at the start of a superblock row.
#[verifier::opaque]
pub open spec fn reset_left(st: FrameState) -> FrameState {
    FrameState {
        enc: IntraModel {
            le_y: Seq::new(16, |i: int| 0u8),
            le_u: Seq::new(8, |i: int| 0u8),
            le_v: Seq::new(8, |i: int| 0u8),
            ..st.enc
        },
        part: PartitionModel { left: Seq::new(8, |i: int| 0u8), ..st.part },
    }
}

/// Superblock columns of a frame.
pub open spec fn sb_cols(f: &Yuv420Frame) -> int {
    ((f.width / 8) as int + 7) / 8
}

/// Superblock rows of a frame.
pub open spec fn sb_rows(f: &Yuv420Frame) -> int {
    ((f.height / 8) as int + 7) / 8
}

/// The first `n` superblock rows.
#[verifier::opaque]
pub open spec fn tile_rows(f: &Yuv420Frame, st: FrameState, n: int) -> FrameState
    decreases n,
{
    if n <= 0 {
        st
    } else {
        sb_row(f, reset_left(tile_rows(f, st, n - 1)), (n - 1) * 8, sb_cols(f))
    }
}

/// The state a frame starts from: black luma, mid-grey chroma, every block
/// DC and skipped, contexts clear, no symbols.
#[verifier::opaque]
pub open spec fn initial_state(f: &Yuv420Frame) -> FrameState {
    let mi_cols = (f.width / 8) as int;
    let mi_rows = (f.height / 8) as int;
    let cn = ((f.width / 2) * (f.height / 2)) as nat;
    FrameState {
        enc: IntraModel {
            y: Seq::new((f.width * f.height) as nat, |i: int| 0u8),
            u: Seq::new(cn, |i: int| 128u8),
            v: Seq::new(cn, |i: int| 128u8),
            modes: Seq::new((mi_cols * mi_rows) as nat, |i: int| DC_PRED),
            skips: Seq::new((mi_cols * mi_rows) as nat, |i: int| true),
            ae_y: Seq::new((2 * mi_cols) as nat, |i: int| 0u8),
            le_y: Seq::new(16, |i: int| 0u8),
            ae_u: Seq::new(mi_cols as nat, |i: int| 0u8),
            le_u: Seq::new(8, |i: int| 0u8),
            ae_v: Seq::new(mi_cols as nat, |i: int| 0u8),
            le_v: Seq::new(8, |i: int| 0u8),
            syms: Seq::empty(),
        },
        part: PartitionModel { above: Seq::new(mi_cols as nat, |i: int| 0u8), left: Seq::new(8, |i: int| 0u8) },
    }
}

/// The whole intra frame: every superblock row in turn.
#[verifier::opaque]
pub open spec fn spec_intra_frame(f: &Yuv420Frame) -> FrameState {
    tile_rows(f, initial_state(f), sb_rows(f))
}

proof fn lemma_partition_tree_kf()
    ensures
        tree_wf(PARTITION_TREE@),
        tree_has(PARTITION_TREE@, PARTITION_NONE),
        tree_has(PARTITION_TREE@, PARTITION_SPLIT),
{
    crate::vp9::keyframe::lemma_kf_trees();
    let t = seq![0i8, 2i8, -1i8, 4i8, -2i8, -3i8];
    assert(PARTITION_TREE@ =~= t);
    assert(spec_tree_path(t, 4, 3i8) is Some);
    assert(spec_tree_path(t, 2, 3i8) is Some);
    assert(tree_has(t, 3i8));
}

/// Append the partition bools of a block.
fn push_partition_syms(
    syms: &mut Vec<TileSym>,
    part: &PartitionContext,
    r: usize,
    c: usize,
    bsize: u32,
    has_rows: bool,
    has_cols: bool,
    partition: i8,
)
    requires
        part.wf(),
        c < part.mi_cols,
        is_square_bsize(bsize),
        partition == PARTITION_NONE || partition == PARTITION_SPLIT,
    ensures
        syms_model(final(syms)@) == syms_model(old(syms)@) + kf_partition_syms(
            part@,
            r as int,
            c as int,
            bsize,
            has_rows,
            has_cols,
            partition,
        ),
{
    let ctx = part.partition_context(r, c, bsize);
    let probs = KF_PARTITION_PROBS[ctx];
    proof {
        lemma_partition_tree_kf();
    }
    let ghost sm = syms_model(old(syms)@);
    if has_rows && has_cols {
        push_tree(syms, &PARTITION_TREE, &probs, partition);
    } else if !has_rows && has_cols {
        syms.push(TileSym::Bool(probs[1], partition == PARTITION_SPLIT));
        assert(syms_model(syms@) =~= sm + seq![SymModel::Bool(probs[1], partition == PARTITION_SPLIT)]);
    } else if has_rows && !has_cols {
        syms.push(TileSym::Bool(probs[2], partition == PARTITION_SPLIT));
        assert(syms_model(syms@) =~= sm + seq![SymModel::Bool(probs[2], partition == PARTITION_SPLIT)]);
    } else {
        assert(syms_model(syms@) =~= sm + Seq::empty());
    }
}


impl IntraEnc {
    /// The state of a fresh frame.
    fn new(f: &Yuv420Frame) -> (e: Self)
        requires
            frame_ok(f),
        ensures
            e.inv(f),
            e.model() == initial_state(f).enc,
    {
        let w = f.width as usize;
        let h = f.height as usize;
        let mi_cols = w / 8;
        let mi_rows = h / 8;
        let cw = w / 2;
        let ch = h / 2;
        proof {
            assert(mi_cols * mi_rows <= w * h && cw * ch <= w * h) by (nonlinear_arith)
                requires
                    mi_cols * 8 <= w,
                    mi_rows * 8 <= h,
                    cw * 2 <= w,
                    ch * 2 <= h,
            ;
        }
        let n = mi_cols * mi_rows;
        let e = IntraEnc {
            mi_cols,
            mi_rows,
            recon_y: vec![0u8; w * h],
            recon_u: vec![128u8; cw * ch],
            recon_v: vec![128u8; cw * ch],
            modes: vec![DC_PRED; n],
            skips: vec![true; n],
            above_ent_y: vec![0u8; 2 * mi_cols],
            left_ent_y: [0u8; 16],
            above_ent_u: vec![0u8; mi_cols],
            left_ent_u: [0u8; 8],
            above_ent_v: vec![0u8; mi_cols],
            left_ent_v: [0u8; 8],
            syms: Vec::new(),
        };
        proof {
            reveal(initial_state);
            let ghost m = initial_state(f).enc;
            assert(e.model().y =~= m.y);
            assert(e.model().u =~= m.u);
            assert(e.model().v =~= m.v);
            assert(e.model().modes =~= m.modes);
            assert(e.model().skips =~= m.skips);
            assert(e.model().ae_y =~= m.ae_y);
            assert(e.model().le_y =~= m.le_y);
            assert(e.model().ae_u =~= m.ae_u);
            assert(e.model().le_u =~= m.le_u);
            assert(e.model().ae_v =~= m.ae_v);
            assert(e.model().le_v =~= m.le_v);
            assert(e.model().syms =~= m.syms);
        }
        e
    }

    /// Code the `bsize` block at `(r, c)` (see `part_step`).
    #[verifier::rlimit(40)]
    fn encode_partition(&mut self, part: &mut PartitionContext, f: &Yuv420Frame, r: usize, c: usize, bsize: u32)
        requires
            old(self).inv(f),
            old(part).wf(),
            old(part).mi_cols == old(self).mi_cols,
            is_square_bsize(bsize),
            r <= 20000,
            c <= 20000,
        ensures
            final(self).inv(f),
            final(part).wf(),
            final(part).mi_cols == old(part).mi_cols,
            (FrameState { enc: final(self).model(), part: final(part)@ }) == part_step(
                f,
                FrameState { enc: old(self).model(), part: old(part)@ },
                r as int,
                c as int,
                bsize,
            ),
        decreases bsize,
    {
        proof {
            reveal(part_step);
        }
        if r >= self.mi_rows || c >= self.mi_cols {
            return;
        }
        let ghost st = FrameState { enc: self.model(), part: part@ };
        let mi_half = (bsize / 8 / 2) as usize;
        let has_rows = r + mi_half < self.mi_rows;
        let has_cols = c + mi_half < self.mi_cols;
        let partition = if bsize == 8 { PARTITION_NONE } else { PARTITION_SPLIT };
        push_partition_syms(&mut self.syms, part, r, c, bsize, has_rows, has_cols, partition);
        let ghost st1 = FrameState { enc: self.model(), part: part@ };
        assert(st1 == FrameState {
            enc: IntraModel {
                syms: st.enc.syms + kf_partition_syms(st.part, r as int, c as int, bsize, has_rows, has_cols, partition),
                ..st.enc
            },
            ..st
        });
        if bsize == 8 {
            self.encode_block(f, r, c);
            part.update_partition_context(r, c, 8, 8, 8, 8);
            return;
        }
        let sub = bsize / 2;
        self.encode_partition(part, f, r, c, sub);
        self.encode_partition(part, f, r, c + mi_half, sub);
        self.encode_partition(part, f, r + mi_half, c, sub);
        self.encode_partition(part, f, r + mi_half, c + mi_half, sub);
    }

    /// Code every superblock of the frame, row by row.
    #[verifier::rlimit(40)]
    fn encode_tile(&mut self, part: &mut PartitionContext, f: &Yuv420Frame)
        requires
            old(self).inv(f),
            old(part).wf(),
            old(part).mi_cols == old(self).mi_cols,
        ensures
            final(self).inv(f),
            (FrameState { enc: final(self).model(), part: final(part)@ }) == tile_rows(
                f,
                FrameState { enc: old(self).model(), part: old(part)@ },
                sb_rows(f),
            ),
    {
        let ghost st0 = FrameState { enc: self.model(), part: part@ };
        let mut mi_row: usize = 0;
        let ghost mut k: int = 0;
        assert(tile_rows(f, st0, 0) == st0) by {
            reveal(tile_rows);
        }
        while mi_row < self.mi_rows
            invariant
                self.inv(f),
                part.wf(),
                part.mi_cols == self.mi_cols,
                0 <= k,
                mi_row == 8 * k,
                8 * k < self.mi_rows + 8,
                (FrameState { enc: self.model(), part: part@ }) == tile_rows(f, st0, k),
            decreases self.mi_rows + 8 - mi_row,
        {
            self.left_ent_y = [0u8; 16];
            self.left_ent_u = [0u8; 8];
            self.left_ent_v = [0u8; 8];
            part.left = [0u8; 8];
            let ghost st_r = FrameState { enc: self.model(), part: part@ };
            proof {
                reveal(reset_left);
                let ghost rl = reset_left(tile_rows(f, st0, k));
                assert(st_r.enc.le_y =~= rl.enc.le_y);
                assert(st_r.enc.le_u =~= rl.enc.le_u);
                assert(st_r.enc.le_v =~= rl.enc.le_v);
                assert(st_r.part.left =~= rl.part.left);
                assert(st_r == rl);
            }
            let mut mi_col: usize = 0;
            let ghost mut j: int = 0;
            assert(sb_row(f, st_r, mi_row as int, 0) == st_r) by {
                reveal(sb_row);
            }
            while mi_col < self.mi_cols
                invariant
                    self.inv(f),
                    part.wf(),
                    part.mi_cols == self.mi_cols,
                    0 <= j,
                    mi_col == 8 * j,
                    8 * j < self.mi_cols + 8,
                    mi_row < self.mi_rows,
                    (FrameState { enc: self.model(), part: part@ }) == sb_row(f, st_r, mi_row as int, j),
                decreases self.mi_cols + 8 - mi_col,
            {
                let ghost before = FrameState { enc: self.model(), part: part@ };
                self.encode_partition(part, f, mi_row, mi_col, 64);
                proof {
                    assert(sb_row(f, st_r, mi_row as int, j + 1) == part_step(f, sb_row(f, st_r, mi_row as int, j), mi_row as int, j * 8, 64)) by {
                        reveal(sb_row);
                    }
                }
                mi_col += 8;
                proof {
                    j = j + 1;
                }
            }
            assert(j == sb_cols(f));
            assert(tile_rows(f, st0, k + 1) == sb_row(f, reset_left(tile_rows(f, st0, k)), k * 8, sb_cols(f))) by {
                reveal(tile_rows);
            }
            mi_row += 8;
            proof {
                k = k + 1;
            }
        }
        assert(k == sb_rows(f));
    }
}

/// Code an intra keyframe: returns the tile's symbols in coding order
/// (bools with their probabilities, coefficient blocks for the token coder)
/// and the reconstruction a decoder builds from them (`spec_intra_frame`).
pub fn encode_intra_frame(frame: &Yuv420Frame) -> (r: (Vec<TileSym>, Reconstruction))
    requires
        frame_ok(frame),
    ensures
        syms_model(r.0@) == spec_intra_frame(frame).enc.syms,
        r.1.width == frame.width,
        r.1.height == frame.height,
        r.1.y@ == spec_intra_frame(frame).enc.y,
        r.1.u@ == spec_intra_frame(frame).enc.u,
        r.1.v@ == spec_intra_frame(frame).enc.v,
{
    let mut enc = IntraEnc::new(frame);
    let mut part = PartitionContext::new(enc.mi_cols);
    assert(part@ == initial_state(frame).part) by {
        reveal(initial_state);
        assert(part@.above =~= initial_state(frame).part.above);
        assert(part@.left =~= initial_state(frame).part.left);
    }
    enc.encode_tile(&mut part, frame);
    proof {
        reveal(spec_intra_frame);
    }
    let syms = enc.syms;
    let recon = Reconstruction { width: frame.width, height: frame.height, y: enc.recon_y, u: enc.recon_u, v: enc.recon_v };
    (syms, recon)
}

} // verus!
