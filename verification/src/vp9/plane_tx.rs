//! Transform tiles of a predicted block: residual against the source,
//! forward transform and quantization per tile, the cost of a transform
//! size (sum of quantized magnitudes), the tiles kept for coding, and
//! copying a block into a plane.
use vstd::prelude::*;
use crate::vp9::quant::{
    lemma_quant_step_range, quant_step, quantizable, quantize, quantize_16x16, quantize_32x32, quantize_8x8, spec_qcoeff,
};
use crate::vp9::tables::{TX_16X16, TX_32X32, TX_4X4, TX_8X8, spec_uv_tx_size_wh, uv_tx_size_wh};
use crate::vp9::transform::{
    lemma_fdct16x16_small, within, fdct8_mid, fdct32_mid, fht4_mid, spec_fdct8, spec_fdct32, spec_fwd4, row_is_adst, trunc_div2, round_row32, TxType, fdct16x16, fdct32x32, fdct8x8, fht4x4, spec_fdct16x16, spec_fdct32x32, spec_fdct8x8, spec_fht4x4,
};

verus! {

/// Side of a transform size in pixels: 4, 8, 16, otherwise 32.
pub open spec fn tx_side(tx: u8) -> int {
    if tx == TX_4X4 {
        4
    } else if tx == TX_8X8 {
        8
    } else if tx == TX_16X16 {
        16
    } else {
        32
    }
}

/// The residual (source minus prediction, raster order) of the `n × n`
/// tile at plane position `(x, y)` of `src` (stride `stride`) and block
/// position `(lx, ly)` of the `bw`-wide prediction `pred`.
pub open spec fn tile_res(
    pred: Seq<u8>,
    bw: int,
    src: Seq<u8>,
    stride: int,
    x: int,
    y: int,
    lx: int,
    ly: int,
    n: int,
) -> Seq<i16> {
    Seq::new(
        (n * n) as nat,
        |k: int| (src[(y + k / n) * stride + x + k % n] as int - pred[(ly + k / n) * bw + lx + k % n] as int) as i16,
    )
}

/// Forward transform of a residual tile (DCT in both directions).
pub open spec fn fwd_tx(res: Seq<i16>, tx: u8) -> Seq<i32> {
    if tx == TX_4X4 {
        spec_fht4x4(res, TxType::DctDct)
    } else if tx == TX_8X8 {
        spec_fdct8x8(res)
    } else if tx == TX_16X16 {
        spec_fdct16x16(res)
    } else {
        spec_fdct32x32(res)
    }
}

/// Quantized level of coefficient `i` of a tile.
pub open spec fn tile_level(res: Seq<i16>, tx: u8, qindex: usize, i: int) -> int {
    spec_qcoeff(fwd_tx(res, tx)[i] as int, quant_step(qindex, i))
}

/// Dequantized coefficient `i` (halved for 32×32).
pub open spec fn tile_dq(res: Seq<i16>, tx: u8, qindex: usize, i: int) -> int {
    if tx == TX_4X4 || tx == TX_8X8 || tx == TX_16X16 {
        tile_level(res, tx, qindex, i) * quant_step(qindex, i)
    } else {
        (tile_level(res, tx, qindex, i) * quant_step(qindex, i)) / 2
    }
}

/// Every coefficient of the tile quantizes without overflow.
pub open spec fn tile_quantizable(res: Seq<i16>, tx: u8, qindex: usize) -> bool {
    forall|i: int| 0 <= i < tx_side(tx) * tx_side(tx) ==> quantizable(#[trigger] fwd_tx(res, tx)[i] as int, quant_step(qindex, i))
}

/// The tile reads stay inside the prediction and the source.
pub open spec fn tile_inside(pred_len: int, bw: int, src_len: int, stride: int, x: int, y: int, lx: int, ly: int, n: int) -> bool {
    &&& 1 <= bw
    &&& 1 <= stride
    &&& (ly + n - 1) * bw + lx + n <= pred_len
    &&& (y + n - 1) * stride + x + n <= src_len
}

/// Residual, transform and quantization of one 4×4 tile.
fn fwd_quant_tile_4(
    pred: &[u8],
    bw: usize,
    src: &[u8],
    stride: usize,
    x: usize,
    y: usize,
    lx: usize,
    ly: usize,
    qindex: usize,
) -> (r: ([i32; 16], [i32; 16]))
    requires
        tile_inside(pred@.len() as int, bw as int, src@.len() as int, stride as int, x as int, y as int, lx as int, ly as int, 4),
        tile_quantizable(tile_res(pred@, bw as int, src@, stride as int, x as int, y as int, lx as int, ly as int, 4), TX_4X4, qindex),
    ensures
        forall|i: int| 0 <= i < 16 ==> r.0[i] == tile_level(
            tile_res(pred@, bw as int, src@, stride as int, x as int, y as int, lx as int, ly as int, 4),
            TX_4X4,
            qindex,
            i,
        ),
        forall|i: int| 0 <= i < 16 ==> r.1[i] == tile_dq(
            tile_res(pred@, bw as int, src@, stride as int, x as int, y as int, lx as int, ly as int, 4),
            TX_4X4,
            qindex,
            i,
        ),
{
    let ghost tr = tile_res(pred@, bw as int, src@, stride as int, x as int, y as int, lx as int, ly as int, 4);
    let plen = pred.len();
    let slen = src.len();
    let mut res = [0i16; 16];
    let mut r: usize = 0;
    while r < 4
        invariant
            plen == pred@.len(),
            slen == src@.len(),
            r <= 4,
            tile_inside(plen as int, bw as int, slen as int, stride as int, x as int, y as int, lx as int, ly as int, 4),
            tr == tile_res(pred@, bw as int, src@, stride as int, x as int, y as int, lx as int, ly as int, 4),
            forall|k: int| 0 <= k < r * 4 ==> #[trigger] res[k] == tr[k],
        decreases 4 - r,
    {
        let mut c: usize = 0;
        while c < 4
            invariant
                plen == pred@.len(),
                slen == src@.len(),
                r < 4,
                c <= 4,
                tile_inside(plen as int, bw as int, slen as int, stride as int, x as int, y as int, lx as int, ly as int, 4),
                tr == tile_res(pred@, bw as int, src@, stride as int, x as int, y as int, lx as int, ly as int, 4),
                forall|k: int| 0 <= k < r * 4 + c ==> #[trigger] res[k] == tr[k],
            decreases 4 - c,
        {
            proof {
                lemma_tile_index(pred@.len() as int, bw as int, src@.len() as int, stride as int, x as int, y as int, lx as int, ly as int, 4, r as int, c as int);
            }
            let s = src[(y + r) * stride + x + c] as i16;
            let p = pred[(ly + r) * bw + lx + c] as i16;
            res[r * 4 + c] = s - p;
            c += 1;
        }
        r += 1;
    }
    assert(res@ =~= tr);
    let mut coeff = [0i32; 16];
    fht4x4(&res, &mut coeff, TxType::DctDct);
    assert(coeff@ == fwd_tx(tr, TX_4X4));
    quantize(&coeff, qindex)
}

/// Residual, transform and quantization of one 8×8 tile.
fn fwd_quant_tile_8(
    pred: &[u8],
    bw: usize,
    src: &[u8],
    stride: usize,
    x: usize,
    y: usize,
    lx: usize,
    ly: usize,
    qindex: usize,
) -> (r: ([i32; 64], [i32; 64]))
    requires
        tile_inside(pred@.len() as int, bw as int, src@.len() as int, stride as int, x as int, y as int, lx as int, ly as int, 8),
        tile_quantizable(tile_res(pred@, bw as int, src@, stride as int, x as int, y as int, lx as int, ly as int, 8), TX_8X8, qindex),
    ensures
        forall|i: int| 0 <= i < 64 ==> r.0[i] == tile_level(
            tile_res(pred@, bw as int, src@, stride as int, x as int, y as int, lx as int, ly as int, 8),
            TX_8X8,
            qindex,
            i,
        ),
        forall|i: int| 0 <= i < 64 ==> r.1[i] == tile_dq(
            tile_res(pred@, bw as int, src@, stride as int, x as int, y as int, lx as int, ly as int, 8),
            TX_8X8,
            qindex,
            i,
        ),
{
    let ghost tr = tile_res(pred@, bw as int, src@, stride as int, x as int, y as int, lx as int, ly as int, 8);
    let plen = pred.len();
    let slen = src.len();
    let mut res = [0i16; 64];
    let mut r: usize = 0;
    while r < 8
        invariant
            plen == pred@.len(),
            slen == src@.len(),
            r <= 8,
            tile_inside(plen as int, bw as int, slen as int, stride as int, x as int, y as int, lx as int, ly as int, 8),
            tr == tile_res(pred@, bw as int, src@, stride as int, x as int, y as int, lx as int, ly as int, 8),
            forall|k: int| 0 <= k < r * 8 ==> #[trigger] res[k] == tr[k],
        decreases 8 - r,
    {
        let mut c: usize = 0;
        while c < 8
            invariant
                plen == pred@.len(),
                slen == src@.len(),
                r < 8,
                c <= 8,
                tile_inside(plen as int, bw as int, slen as int, stride as int, x as int, y as int, lx as int, ly as int, 8),
                tr == tile_res(pred@, bw as int, src@, stride as int, x as int, y as int, lx as int, ly as int, 8),
                forall|k: int| 0 <= k < r * 8 + c ==> #[trigger] res[k] == tr[k],
            decreases 8 - c,
        {
            proof {
                lemma_tile_index(pred@.len() as int, bw as int, src@.len() as int, stride as int, x as int, y as int, lx as int, ly as int, 8, r as int, c as int);
            }
            let s = src[(y + r) * stride + x + c] as i16;
            let p = pred[(ly + r) * bw + lx + c] as i16;
            res[r * 8 + c] = s - p;
            c += 1;
        }
        r += 1;
    }
    assert(res@ =~= tr);
    let mut coeff = [0i32; 64];
    fdct8x8(&res, &mut coeff);
    assert(coeff@ == fwd_tx(tr, TX_8X8));
    quantize_8x8(&coeff, qindex)
}

/// Residual, transform and quantization of one 16×16 tile.
fn fwd_quant_tile_16(
    pred: &[u8],
    bw: usize,
    src: &[u8],
    stride: usize,
    x: usize,
    y: usize,
    lx: usize,
    ly: usize,
    qindex: usize,
) -> (r: ([i32; 256], [i32; 256]))
    requires
        tile_inside(pred@.len() as int, bw as int, src@.len() as int, stride as int, x as int, y as int, lx as int, ly as int, 16),
        tile_quantizable(tile_res(pred@, bw as int, src@, stride as int, x as int, y as int, lx as int, ly as int, 16), TX_16X16, qindex),
    ensures
        forall|i: int| 0 <= i < 256 ==> r.0[i] == tile_level(
            tile_res(pred@, bw as int, src@, stride as int, x as int, y as int, lx as int, ly as int, 16),
            TX_16X16,
            qindex,
            i,
        ),
        forall|i: int| 0 <= i < 256 ==> r.1[i] == tile_dq(
            tile_res(pred@, bw as int, src@, stride as int, x as int, y as int, lx as int, ly as int, 16),
            TX_16X16,
            qindex,
            i,
        ),
{
    let ghost tr = tile_res(pred@, bw as int, src@, stride as int, x as int, y as int, lx as int, ly as int, 16);
    let plen = pred.len();
    let slen = src.len();
    let mut res = [0i16; 256];
    let mut r: usize = 0;
    while r < 16
        invariant
            plen == pred@.len(),
            slen == src@.len(),
            r <= 16,
            tile_inside(plen as int, bw as int, slen as int, stride as int, x as int, y as int, lx as int, ly as int, 16),
            tr == tile_res(pred@, bw as int, src@, stride as int, x as int, y as int, lx as int, ly as int, 16),
            forall|k: int| 0 <= k < r * 16 ==> #[trigger] res[k] == tr[k],
        decreases 16 - r,
    {
        let mut c: usize = 0;
        while c < 16
            invariant
                plen == pred@.len(),
                slen == src@.len(),
                r < 16,
                c <= 16,
                tile_inside(plen as int, bw as int, slen as int, stride as int, x as int, y as int, lx as int, ly as int, 16),
                tr == tile_res(pred@, bw as int, src@, stride as int, x as int, y as int, lx as int, ly as int, 16),
                forall|k: int| 0 <= k < r * 16 + c ==> #[trigger] res[k] == tr[k],
            decreases 16 - c,
        {
            proof {
                lemma_tile_index(pred@.len() as int, bw as int, src@.len() as int, stride as int, x as int, y as int, lx as int, ly as int, 16, r as int, c as int);
            }
            let s = src[(y + r) * stride + x + c] as i16;
            let p = pred[(ly + r) * bw + lx + c] as i16;
            res[r * 16 + c] = s - p;
            c += 1;
        }
        r += 1;
    }
    assert(res@ =~= tr);
    let mut coeff = [0i32; 256];
    fdct16x16(&res, &mut coeff);
    assert(coeff@ == fwd_tx(tr, TX_16X16));
    quantize_16x16(&coeff, qindex)
}

/// Residual, transform and quantization of one 32×32 tile.
fn fwd_quant_tile_32(
    pred: &[u8],
    bw: usize,
    src: &[u8],
    stride: usize,
    x: usize,
    y: usize,
    lx: usize,
    ly: usize,
    qindex: usize,
) -> (r: ([i32; 1024], [i32; 1024]))
    requires
        tile_inside(pred@.len() as int, bw as int, src@.len() as int, stride as int, x as int, y as int, lx as int, ly as int, 32),
        tile_quantizable(tile_res(pred@, bw as int, src@, stride as int, x as int, y as int, lx as int, ly as int, 32), TX_32X32, qindex),
    ensures
        forall|i: int| 0 <= i < 1024 ==> r.0[i] == tile_level(
            tile_res(pred@, bw as int, src@, stride as int, x as int, y as int, lx as int, ly as int, 32),
            TX_32X32,
            qindex,
            i,
        ),
        forall|i: int| 0 <= i < 1024 ==> r.1[i] == tile_dq(
            tile_res(pred@, bw as int, src@, stride as int, x as int, y as int, lx as int, ly as int, 32),
            TX_32X32,
            qindex,
            i,
        ),
{
    let ghost tr = tile_res(pred@, bw as int, src@, stride as int, x as int, y as int, lx as int, ly as int, 32);
    let plen = pred.len();
    let slen = src.len();
    let mut res = [0i16; 1024];
    let mut r: usize = 0;
    while r < 32
        invariant
            plen == pred@.len(),
            slen == src@.len(),
            r <= 32,
            tile_inside(plen as int, bw as int, slen as int, stride as int, x as int, y as int, lx as int, ly as int, 32),
            tr == tile_res(pred@, bw as int, src@, stride as int, x as int, y as int, lx as int, ly as int, 32),
            forall|k: int| 0 <= k < r * 32 ==> #[trigger] res[k] == tr[k],
        decreases 32 - r,
    {
        let mut c: usize = 0;
        while c < 32
            invariant
                plen == pred@.len(),
                slen == src@.len(),
                r < 32,
                c <= 32,
                tile_inside(plen as int, bw as int, slen as int, stride as int, x as int, y as int, lx as int, ly as int, 32),
                tr == tile_res(pred@, bw as int, src@, stride as int, x as int, y as int, lx as int, ly as int, 32),
                forall|k: int| 0 <= k < r * 32 + c ==> #[trigger] res[k] == tr[k],
            decreases 32 - c,
        {
            proof {
                lemma_tile_index(pred@.len() as int, bw as int, src@.len() as int, stride as int, x as int, y as int, lx as int, ly as int, 32, r as int, c as int);
            }
            let s = src[(y + r) * stride + x + c] as i16;
            let p = pred[(ly + r) * bw + lx + c] as i16;
            res[r * 32 + c] = s - p;
            c += 1;
        }
        r += 1;
    }
    assert(res@ =~= tr);
    let mut coeff = [0i32; 1024];
    fdct32x32(&res, &mut coeff);
    assert(coeff@ == fwd_tx(tr, TX_32X32));
    quantize_32x32(&coeff, qindex)
}

/// Index arithmetic of tile sample `(r, c)`.
proof fn lemma_tile_index(pred_len: int, bw: int, src_len: int, stride: int, x: int, y: int, lx: int, ly: int, n: int, r: int, c: int)
    requires
        tile_inside(pred_len, bw, src_len, stride, x, y, lx, ly, n),
        0 <= r < n,
        0 <= c < n,
        0 <= x,
        0 <= y,
        0 <= lx,
        0 <= ly,
    ensures
        0 <= (y + r) * stride + x + c < src_len,
        0 <= (ly + r) * bw + lx + c < pred_len,
        y + r <= (y + r) * stride,
        ly + r <= (ly + r) * bw,
        0 <= r * n + c < n * n,
        (r * n + c) / n == r,
        (r * n + c) % n == c,
{
    assert(0 <= (y + r) * stride + x + c < src_len) by (nonlinear_arith)
        requires
            (y + n - 1) * stride + x + n <= src_len,
            0 <= r < n,
            0 <= c < n,
            0 <= stride,
            0 <= x,
            0 <= y,
    ;
    assert(0 <= (ly + r) * bw + lx + c < pred_len) by (nonlinear_arith)
        requires
            (ly + n - 1) * bw + lx + n <= pred_len,
            0 <= r < n,
            0 <= c < n,
            0 <= bw,
            0 <= lx,
            0 <= ly,
    ;
    assert(y + r <= (y + r) * stride) by (nonlinear_arith)
        requires
            0 <= y + r,
            1 <= stride,
    ;
    assert(ly + r <= (ly + r) * bw) by (nonlinear_arith)
        requires
            0 <= ly + r,
            1 <= bw,
    ;
    assert(0 <= r * n + c < n * n) by (nonlinear_arith)
        requires
            0 <= r < n,
            0 <= c < n,
    ;
    assert((r * n + c) / n == r && (r * n + c) % n == c) by (nonlinear_arith)
        requires
            0 <= c < n,
            0 <= r,
    ;
}

fn slice_to_vec_i32(a: &[i32]) -> (v: Vec<i32>)
    ensures
        v@ == a@,
{
    let mut v: Vec<i32> = Vec::new();
    let n = a.len();
    let mut i: usize = 0;
    while i < n
        invariant
            n == a@.len(),
            i <= n,
            v@ == a@.take(i as int),
        decreases n - i,
    {
        v.push(a[i]);
        i += 1;
        assert(v@ =~= a@.take(i as int));
    }
    assert(a@.take(n as int) =~= a@);
    v
}

/// The quantized levels of a tile, in raster order.
pub open spec fn tile_levels(res: Seq<i16>, tx: u8, qindex: usize) -> Seq<int> {
    Seq::new((tx_side(tx) * tx_side(tx)) as nat, |i: int| tile_level(res, tx, qindex, i))
}

/// The dequantized coefficients of a tile, in raster order.
pub open spec fn tile_dqs(res: Seq<i16>, tx: u8, qindex: usize) -> Seq<int> {
    Seq::new((tx_side(tx) * tx_side(tx)) as nat, |i: int| tile_dq(res, tx, qindex, i))
}

/// Levels and dequantized coefficients of one tile of transform size `tx`.
fn fwd_quant_tile(
    tx: u8,
    pred: &[u8],
    bw: usize,
    src: &[u8],
    stride: usize,
    x: usize,
    y: usize,
    lx: usize,
    ly: usize,
    qindex: usize,
) -> (r: (Vec<i32>, Vec<i32>))
    requires
        tile_inside(pred@.len() as int, bw as int, src@.len() as int, stride as int, x as int, y as int, lx as int, ly as int, tx_side(tx)),
        tile_quantizable(tile_res(pred@, bw as int, src@, stride as int, x as int, y as int, lx as int, ly as int, tx_side(tx)), tx, qindex),
    ensures
        ({
            let res = tile_res(pred@, bw as int, src@, stride as int, x as int, y as int, lx as int, ly as int, tx_side(tx));
            &&& r.0@.len() == tx_side(tx) * tx_side(tx)
            &&& r.1@.len() == tx_side(tx) * tx_side(tx)
            &&& forall|i: int| 0 <= i < r.0@.len() ==> r.0@[i] as int == tile_levels(res, tx, qindex)[i]
            &&& forall|i: int| 0 <= i < r.1@.len() ==> r.1@[i] as int == tile_dqs(res, tx, qindex)[i]
        }),
{
    if tx == TX_4X4 {
        let (q, dq) = fwd_quant_tile_4(pred, bw, src, stride, x, y, lx, ly, qindex);
        (slice_to_vec_i32(q.as_slice()), slice_to_vec_i32(dq.as_slice()))
    } else if tx == TX_8X8 {
        let (q, dq) = fwd_quant_tile_8(pred, bw, src, stride, x, y, lx, ly, qindex);
        (slice_to_vec_i32(q.as_slice()), slice_to_vec_i32(dq.as_slice()))
    } else if tx == TX_16X16 {
        let (q, dq) = fwd_quant_tile_16(pred, bw, src, stride, x, y, lx, ly, qindex);
        (slice_to_vec_i32(q.as_slice()), slice_to_vec_i32(dq.as_slice()))
    } else {
        let (q, dq) = fwd_quant_tile_32(pred, bw, src, stride, x, y, lx, ly, qindex);
        (slice_to_vec_i32(q.as_slice()), slice_to_vec_i32(dq.as_slice()))
    }
}

/// The transform tiling of a `bw × bh` block prediction at plane origin
/// `(ox, oy)` of the source plane `src` (stride `stride`).
pub struct PlaneTx {
    pub pred: Seq<u8>,
    pub bw: int,
    pub bh: int,
    pub src: Seq<u8>,
    pub stride: int,
    pub ox: int,
    pub oy: int,
    pub tx: u8,
    pub qindex: usize,
}

/// Tiles per row and per column.
pub open spec fn ptx_cols(g: PlaneTx) -> int {
    g.bw / tx_side(g.tx)
}

pub open spec fn ptx_rows(g: PlaneTx) -> int {
    g.bh / tx_side(g.tx)
}

/// Block-local origin of tile `t` (raster order over the tiling).
pub open spec fn ptx_lx(g: PlaneTx, t: int) -> int {
    (t % ptx_cols(g)) * tx_side(g.tx)
}

pub open spec fn ptx_ly(g: PlaneTx, t: int) -> int {
    (t / ptx_cols(g)) * tx_side(g.tx)
}

/// Residual of tile `t`.
pub open spec fn ptx_res(g: PlaneTx, t: int) -> Seq<i16> {
    tile_res(g.pred, g.bw, g.src, g.stride, g.ox + ptx_lx(g, t), g.oy + ptx_ly(g, t), ptx_lx(g, t), ptx_ly(g, t), tx_side(g.tx))
}

/// `|v|` summed over the first `m` entries.
pub open spec fn abs_sum(s: Seq<int>, m: int) -> int
    decreases m,
{
    if m <= 0 {
        0
    } else {
        abs_sum(s, m - 1) + (if s[m - 1] < 0 {
            -s[m - 1]
        } else {
            s[m - 1]
        })
    }
}

/// Sum of quantized magnitudes over the first `t` tiles.
pub open spec fn ptx_cost(g: PlaneTx, t: int) -> int
    decreases t,
{
    if t <= 0 {
        0
    } else {
        let n = tx_side(g.tx);
        ptx_cost(g, t - 1) + abs_sum(tile_levels(ptx_res(g, t - 1), g.tx, g.qindex), n * n)
    }
}

/// Some level of the first `t` tiles is non-zero.
pub open spec fn ptx_any(g: PlaneTx, t: int) -> bool {
    exists|k: int, i: int|
        0 <= k < t && 0 <= i < tx_side(g.tx) * tx_side(g.tx) && #[trigger] tile_levels(ptx_res(g, k), g.tx, g.qindex)[i] != 0
}

/// The tiling reads inside the prediction and the source, and every
/// tile quantizes without overflow.
pub open spec fn ptx_ok(g: PlaneTx) -> bool {
    let n = tx_side(g.tx);
    &&& g.bw >= 1
    &&& g.bh >= 0
    &&& g.stride >= 1
    &&& g.ox >= 0
    &&& g.oy >= 0
    &&& g.pred.len() >= g.bw * g.bh
    &&& (ptx_rows(g) >= 1 && ptx_cols(g) >= 1 ==> (g.oy + ptx_rows(g) * n - 1) * g.stride + g.ox + ptx_cols(g) * n
        <= g.src.len())
    &&& forall|t: int| 0 <= t < ptx_rows(g) * ptx_cols(g) ==> tile_quantizable(#[trigger] ptx_res(g, t), g.tx, g.qindex)
}

/// The plane geometry of the exec arguments.
pub open spec fn mk_ptx(
    pred: Seq<u8>,
    bw: usize,
    bh: usize,
    src: Seq<u8>,
    stride: usize,
    ox: usize,
    oy: usize,
    tx: u8,
    qindex: usize,
) -> PlaneTx {
    PlaneTx { pred, bw: bw as int, bh: bh as int, src, stride: stride as int, ox: ox as int, oy: oy as int, tx, qindex }
}

/// Tile `t = ty * cols + tc` of a valid tiling reads inside its inputs.
pub(crate) proof fn lemma_ptx_tile(g: PlaneTx, ty: int, tc: int)
    requires
        ptx_ok(g),
        0 <= ty < ptx_rows(g),
        0 <= tc < ptx_cols(g),
    ensures
        ({
            let t = ty * ptx_cols(g) + tc;
            let n = tx_side(g.tx);
            &&& 0 <= t < ptx_rows(g) * ptx_cols(g)
            &&& ptx_lx(g, t) == tc * n
            &&& ptx_ly(g, t) == ty * n
            &&& tile_inside(g.pred.len() as int, g.bw, g.src.len() as int, g.stride, g.ox + tc * n, g.oy + ty * n, tc * n, ty * n, n)
            &&& tc * n <= g.bw
            &&& ty * n <= g.bh
            &&& g.ox + tc * n <= g.src.len()
            &&& g.oy + ty * n <= g.src.len()
        }),
{
    let n = tx_side(g.tx);
    let cols = ptx_cols(g);
    let rows = ptx_rows(g);
    let t = ty * cols + tc;
    assert(0 <= t < rows * cols) by (nonlinear_arith)
        requires
            0 <= ty < rows,
            0 <= tc < cols,
            t == ty * cols + tc,
    ;
    assert(t / cols == ty && t % cols == tc) by (nonlinear_arith)
        requires
            t == ty * cols + tc,
            0 <= tc < cols,
            0 <= ty,
    ;
    assert(cols * n <= g.bw && rows * n <= g.bh) by (nonlinear_arith)
        requires
            cols == g.bw / n,
            rows == g.bh / n,
            n > 0,
            g.bw >= 0,
            g.bh >= 0,
    ;
    assert((ty * n + n - 1) * g.bw + tc * n + n <= g.bw * g.bh) by (nonlinear_arith)
        requires
            0 <= ty < rows,
            0 <= tc < cols,
            cols * n <= g.bw,
            rows * n <= g.bh,
            n > 0,
    ;
    assert((g.oy + ty * n + n - 1) * g.stride + g.ox + tc * n + n <= (g.oy + rows * n - 1) * g.stride + g.ox + cols * n)
        by (nonlinear_arith)
        requires
            0 <= ty < rows,
            0 <= tc < cols,
            n > 0,
            g.stride >= 1,
    ;
    assert(tc * n <= cols * n && ty * n <= rows * n) by (nonlinear_arith)
        requires
            0 <= ty < rows,
            0 <= tc < cols,
            n > 0,
    ;
    assert(g.oy + ty * n <= (g.oy + ty * n + n - 1) * g.stride) by (nonlinear_arith)
        requires
            g.oy >= 0,
            ty >= 0,
            n > 0,
            g.stride >= 1,
    ;
}

/// Add the magnitudes of `q` to a saturating cost whose exact value so
/// far is `total`, and note a non-zero level.
fn add_levels(cost: u32, any: bool, q: &Vec<i32>, Ghost(total): Ghost<int>, Ghost(lv): Ghost<Seq<int>>) -> (r: (u32, bool))
    requires
        total >= 0,
        cost == (if total < u32::MAX { total } else { u32::MAX as int }),
        q@.len() == lv.len(),
        forall|i: int| 0 <= i < lv.len() ==> q@[i] as int == lv[i],
    ensures
        ({
            let t2 = total + abs_sum(lv, lv.len() as int);
            r.0 == (if t2 < u32::MAX { t2 } else { u32::MAX as int })
        }),
        r.1 == (any || exists|i: int| 0 <= i < lv.len() && lv[i] != 0),
{
    let mut cost = cost;
    let mut any = any;
    let ghost any0 = any;
    let n = q.len();
    let mut i: usize = 0;
    while i < n
        invariant
            n == q@.len(),
            n == lv.len(),
            i <= n,
            total >= 0,
            forall|j: int| 0 <= j < lv.len() ==> q@[j] as int == lv[j],
            ({
                let t2 = total + abs_sum(lv, i as int);
                cost == (if t2 < u32::MAX { t2 } else { u32::MAX as int })
            }),
            any == (any0 || exists|j: int| 0 <= j < i && lv[j] != 0),
            abs_sum(lv, i as int) >= 0,
        decreases n - i,
    {
        let v = q[i];
        let a: u32 = if v < 0 {
            (0i64 - v as i64) as u32
        } else {
            v as u32
        };
        cost = cost.saturating_add(a);
        if v != 0 {
            any = true;
        }
        proof {
            assert(exists|j: int| 0 <= j < i + 1 && lv[j] != 0 <==> (exists|j: int| 0 <= j < i && lv[j] != 0)
                || lv[i as int] != 0) by {
                if lv[i as int] != 0 {
                    assert(0 <= i < i + 1 && lv[i as int] != 0);
                }
                if exists|j: int| 0 <= j < i + 1 && lv[j] != 0 {
                    let j = choose|j: int| 0 <= j < i + 1 && lv[j] != 0;
                    if j < i {
                        assert(0 <= j < i && lv[j] != 0);
                    }
                }
            }
        }
        i += 1;
    }
    (cost, any)
}

/// The cost of coding a block plane with transform size `tx`: the summed
/// magnitudes of all quantized levels (saturating at `u32::MAX`), and
/// whether any level is non-zero.
pub fn score_plane_tx(
    pred: &[u8],
    bw: usize,
    bh: usize,
    src: &[u8],
    stride: usize,
    ox: usize,
    oy: usize,
    tx: u8,
    qindex: usize,
) -> (r: (u32, bool))
    requires
        ptx_ok(mk_ptx(pred@, bw, bh, src@, stride, ox, oy, tx, qindex)),
    ensures
        ({
            let g = mk_ptx(pred@, bw, bh, src@, stride, ox, oy, tx, qindex);
            let total = ptx_cost(g, ptx_rows(g) * ptx_cols(g));
            &&& r.0 == (if total < u32::MAX { total } else { u32::MAX as int })
            &&& r.1 == ptx_any(g, ptx_rows(g) * ptx_cols(g))
        }),
{
    let ghost g = mk_ptx(pred@, bw, bh, src@, stride, ox, oy, tx, qindex);
    let n: usize = if tx == TX_4X4 {
        4
    } else if tx == TX_8X8 {
        8
    } else if tx == TX_16X16 {
        16
    } else {
        32
    };
    let n_w = bw / n;
    let n_h = bh / n;
    let slen = src.len();
    let mut cost: u32 = 0;
    let mut any = false;
    let mut ty: usize = 0;
    while ty < n_h
        invariant
            ptx_ok(g),
            g == mk_ptx(pred@, bw, bh, src@, stride, ox, oy, tx, qindex),
            slen == src@.len(),
            n == tx_side(tx),
            n_w == ptx_cols(g),
            n_h == ptx_rows(g),
            ty <= n_h,
            ({
                let total = ptx_cost(g, ty * n_w);
                &&& total >= 0
                &&& cost == (if total < u32::MAX { total } else { u32::MAX as int })
                &&& any == ptx_any(g, ty * n_w)
            }),
        decreases n_h - ty,
    {
        let mut tc: usize = 0;
        while tc < n_w
            invariant
                ptx_ok(g),
                g == mk_ptx(pred@, bw, bh, src@, stride, ox, oy, tx, qindex),
                slen == src@.len(),
                n == tx_side(tx),
                n_w == ptx_cols(g),
                n_h == ptx_rows(g),
                ty < n_h,
                tc <= n_w,
                ({
                    let total = ptx_cost(g, ty * n_w + tc);
                    &&& total >= 0
                    &&& cost == (if total < u32::MAX { total } else { u32::MAX as int })
                    &&& any == ptx_any(g, ty * n_w + tc)
                }),
            decreases n_w - tc,
        {
            let ghost t = ty * n_w + tc;
            proof {
                lemma_ptx_tile(g, ty as int, tc as int);
                assert(ptx_res(g, t) == tile_res(pred@, bw as int, src@, stride as int, ox + tc * n, oy + ty * n, tc * n, ty * n, n as int));
                assert(tile_quantizable(ptx_res(g, t), tx, qindex));
            }
            let (q, _) = fwd_quant_tile(tx, pred, bw, src, stride, ox + tc * n, oy + ty * n, tc * n, ty * n, qindex);
            let ghost lv = tile_levels(ptx_res(g, t), tx, qindex);
            proof {
                lemma_abs_sum_nonneg(lv, lv.len() as int);
            }
            let r = add_levels(cost, any, &q, Ghost(ptx_cost(g, t)), Ghost(lv));
            cost = r.0;
            any = r.1;
            proof {
                assert(ptx_any(g, t + 1) == (ptx_any(g, t) || exists|i: int| 0 <= i < lv.len() && lv[i] != 0)) by {
                    if exists|i: int| 0 <= i < lv.len() && lv[i] != 0 {
                        let i = choose|i: int| 0 <= i < lv.len() && lv[i] != 0;
                        assert(tile_levels(ptx_res(g, t), g.tx, g.qindex)[i] != 0);
                    }
                    if ptx_any(g, t + 1) {
                        let (k, i) = choose|k: int, i: int|
                            0 <= k < t + 1 && 0 <= i < tx_side(g.tx) * tx_side(g.tx) && #[trigger] tile_levels(
                                ptx_res(g, k),
                                g.tx,
                                g.qindex,
                            )[i] != 0;
                        if k < t {
                            assert(0 <= k < t && 0 <= i < tx_side(g.tx) * tx_side(g.tx) && tile_levels(ptx_res(g, k), g.tx, g.qindex)[i] != 0);
                        }
                    }
                    if ptx_any(g, t) {
                        let (k, i) = choose|k: int, i: int|
                            0 <= k < t && 0 <= i < tx_side(g.tx) * tx_side(g.tx) && #[trigger] tile_levels(
                                ptx_res(g, k),
                                g.tx,
                                g.qindex,
                            )[i] != 0;
                        assert(0 <= k < t + 1 && 0 <= i < tx_side(g.tx) * tx_side(g.tx) && tile_levels(ptx_res(g, k), g.tx, g.qindex)[i] != 0);
                    }
                }
            }
            tc += 1;
        }
        proof {
            assert(ty * n_w + n_w == (ty + 1) * n_w) by (nonlinear_arith);
        }
        ty += 1;
    }
    (cost, any)
}

proof fn lemma_abs_sum_nonneg(s: Seq<int>, m: int)
    ensures
        abs_sum(s, m) >= 0,
    decreases m,
{
    if m > 0 {
        lemma_abs_sum_nonneg(s, m - 1);
    }
}

/// A transform tile kept for coding: its plane origin, block-local
/// origin, quantized levels, dequantized coefficients and prediction.
pub struct TxTile {
    pub x: usize,
    pub y: usize,
    pub lx: usize,
    pub ly: usize,
    pub q: Vec<i32>,
    pub dq: Vec<i32>,
    pub pred: Vec<u8>,
}

/// The `n × n` prediction samples at block position `(lx, ly)`.
pub open spec fn pred_tile(pred: Seq<u8>, bw: int, lx: int, ly: int, n: int) -> Seq<u8> {
    Seq::new((n * n) as nat, |k: int| pred[(ly + k / n) * bw + lx + k % n])
}

/// `tile` holds tile `t` of the tiling `g`.
pub open spec fn tile_prepared(g: PlaneTx, t: int, tile: TxTile) -> bool {
    let n = tx_side(g.tx);
    let res = ptx_res(g, t);
    &&& tile.x == g.ox + ptx_lx(g, t)
    &&& tile.y == g.oy + ptx_ly(g, t)
    &&& tile.lx == ptx_lx(g, t)
    &&& tile.ly == ptx_ly(g, t)
    &&& tile.q@.len() == n * n
    &&& tile.dq@.len() == n * n
    &&& forall|i: int| 0 <= i < n * n ==> tile.q@[i] as int == #[trigger] tile_levels(res, g.tx, g.qindex)[i]
    &&& forall|i: int| 0 <= i < n * n ==> tile.dq@[i] as int == #[trigger] tile_dqs(res, g.tx, g.qindex)[i]
    &&& tile.pred@ == pred_tile(g.pred, g.bw, ptx_lx(g, t), ptx_ly(g, t), n)
}

fn copy_tile(pred: &[u8], bw: usize, lx: usize, ly: usize, n: usize) -> (out: Vec<u8>)
    requires
        bw >= 1,
        n >= 1,
        (ly + n - 1) * bw + lx + n <= pred@.len(),
    ensures
        out@ == pred_tile(pred@, bw as int, lx as int, ly as int, n as int),
{
    let plen = pred.len();
    let mut out: Vec<u8> = Vec::new();
    let mut r: usize = 0;
    while r < n
        invariant
            plen == pred@.len(),
            bw >= 1,
            n >= 1,
            r <= n,
            (ly + n - 1) * bw + lx + n <= plen,
            out@.len() == r * n,
            forall|k: int| 0 <= k < r * n ==> #[trigger] out@[k] == pred_tile(pred@, bw as int, lx as int, ly as int, n as int)[k],
        decreases n - r,
    {
        let mut c: usize = 0;
        while c < n
            invariant
                plen == pred@.len(),
                bw >= 1,
                r < n,
                c <= n,
                (ly + n - 1) * bw + lx + n <= plen,
                out@.len() == r * n + c,
                forall|k: int| 0 <= k < r * n + c ==> #[trigger] out@[k] == pred_tile(pred@, bw as int, lx as int, ly as int, n as int)[k],
            decreases n - c,
        {
            proof {
                assert(0 <= (ly + r) * bw + lx + c < plen) by (nonlinear_arith)
                    requires
                        (ly + n - 1) * bw + lx + n <= plen,
                        r < n,
                        c < n,
                        bw >= 1,
                ;
                assert(ly + r <= (ly + r) * bw) by (nonlinear_arith)
                    requires
                        bw >= 1,
                ;
                assert(0 <= r * n + c < n * n) by (nonlinear_arith)
                    requires
                        r < n,
                        c < n,
                ;
                assert((r * n + c) / (n as int) == r && (r * n + c) % (n as int) == c) by (nonlinear_arith)
                    requires
                        c < n,
                ;
            }
            out.push(pred[(ly + r) * bw + lx + c]);
            c += 1;
        }
        proof {
            assert(r * n + n == (r + 1) * n) by (nonlinear_arith);
        }
        r += 1;
    }
    assert(out@ =~= pred_tile(pred@, bw as int, lx as int, ly as int, n as int));
    out
}

/// Transform and quantize every tile of a block plane, raster order, and
/// keep each tile's prediction for the reconstruction.
pub fn prepare_plane_tx(
    pred: &[u8],
    bw: usize,
    bh: usize,
    src: &[u8],
    stride: usize,
    ox: usize,
    oy: usize,
    tx: u8,
    qindex: usize,
) -> (tiles: Vec<TxTile>)
    requires
        ptx_ok(mk_ptx(pred@, bw, bh, src@, stride, ox, oy, tx, qindex)),
    ensures
        ({
            let g = mk_ptx(pred@, bw, bh, src@, stride, ox, oy, tx, qindex);
            &&& tiles@.len() == ptx_rows(g) * ptx_cols(g)
            &&& forall|t: int| 0 <= t < tiles@.len() ==> tile_prepared(g, t, #[trigger] tiles@[t])
        }),
{
    let ghost g = mk_ptx(pred@, bw, bh, src@, stride, ox, oy, tx, qindex);
    let n: usize = if tx == TX_4X4 {
        4
    } else if tx == TX_8X8 {
        8
    } else if tx == TX_16X16 {
        16
    } else {
        32
    };
    let n_w = bw / n;
    let n_h = bh / n;
    let slen = src.len();
    let mut tiles: Vec<TxTile> = Vec::new();
    let mut ty: usize = 0;
    while ty < n_h
        invariant
            ptx_ok(g),
            g == mk_ptx(pred@, bw, bh, src@, stride, ox, oy, tx, qindex),
            slen == src@.len(),
            n == tx_side(tx),
            n_w == ptx_cols(g),
            n_h == ptx_rows(g),
            ty <= n_h,
            tiles@.len() == ty * n_w,
            forall|t: int| 0 <= t < tiles@.len() ==> tile_prepared(g, t, #[trigger] tiles@[t]),
        decreases n_h - ty,
    {
        let mut tc: usize = 0;
        while tc < n_w
            invariant
                ptx_ok(g),
                g == mk_ptx(pred@, bw, bh, src@, stride, ox, oy, tx, qindex),
                slen == src@.len(),
                n == tx_side(tx),
                n_w == ptx_cols(g),
                n_h == ptx_rows(g),
                ty < n_h,
                tc <= n_w,
                tiles@.len() == ty * n_w + tc,
                forall|t: int| 0 <= t < tiles@.len() ==> tile_prepared(g, t, #[trigger] tiles@[t]),
            decreases n_w - tc,
        {
            let ghost t = ty * n_w + tc;
            proof {
                lemma_ptx_tile(g, ty as int, tc as int);
                assert(ptx_res(g, t) == tile_res(pred@, bw as int, src@, stride as int, ox + tc * n, oy + ty * n, tc * n, ty * n, n as int));
                assert(tile_quantizable(ptx_res(g, t), tx, qindex));
            }
            let x = ox + tc * n;
            let y = oy + ty * n;
            let (q, dq) = fwd_quant_tile(tx, pred, bw, src, stride, x, y, tc * n, ty * n, qindex);
            let tile_pred = copy_tile(pred, bw, tc * n, ty * n, n);
            let tile = TxTile { x, y, lx: tc * n, ly: ty * n, q, dq, pred: tile_pred };
            assert(tile_prepared(g, t, tile));
            tiles.push(tile);
            tc += 1;
        }
        proof {
            assert(ty * n_w + n_w == (ty + 1) * n_w) by (nonlinear_arith);
        }
        ty += 1;
    }
    tiles
}

/// Whether plane index `k` (stride `stride`) lies in the `bw × bh` block
/// at `(x, y)`.
pub open spec fn in_rect(k: int, stride: int, x: int, y: int, bw: int, bh: int) -> bool {
    y <= k / stride < y + bh && x <= k % stride < x + bw
}

/// The first `r` rows and `c` more samples of the block are written.
pub open spec fn stored_so_far(k: int, stride: int, x: int, y: int, bw: int, r: int, c: int) -> bool {
    in_rect(k, stride, x, y, bw, r) || (k / stride == y + r && x <= k % stride < x + c)
}

/// Copy a `bw × bh` raster block into a plane at `(x, y)`; the rest of the
/// plane is unchanged.
pub fn store_plane(dst: &mut [u8], stride: usize, x: usize, y: usize, bw: usize, bh: usize, src: &[u8])
    requires
        x + bw <= stride,
        (y + bh) * stride <= old(dst)@.len(),
        bw * bh <= src@.len(),
    ensures
        final(dst)@.len() == old(dst)@.len(),
        forall|k: int|
            0 <= k < old(dst)@.len() ==> #[trigger] final(dst)@[k] == if in_rect(
                k,
                stride as int,
                x as int,
                y as int,
                bw as int,
                bh as int,
            ) {
                src@[(k / stride as int - y) * bw + k % stride as int - x]
            } else {
                old(dst)@[k]
            },
{
    let ghost d0 = dst@;
    let dlen = dst.len();
    let slen = src.len();
    if bw == 0 {
        assert forall|k: int| 0 <= k < d0.len() implies !in_rect(k, stride as int, x as int, y as int, bw as int, bh as int) by {}
        return;
    }
    let mut r: usize = 0;
    while r < bh
        invariant
            dlen == dst@.len(),
            slen == src@.len(),
            dst@.len() == d0.len(),
            bw >= 1,
            x + bw <= stride,
            (y + bh) * stride <= d0.len(),
            bw * bh <= src@.len(),
            r <= bh,
            forall|k: int|
                0 <= k < d0.len() ==> #[trigger] dst@[k] == if in_rect(k, stride as int, x as int, y as int, bw as int, r as int) {
                    src@[(k / stride as int - y) * bw + k % stride as int - x]
                } else {
                    d0[k]
                },
        decreases bh - r,
    {
        let mut c: usize = 0;
        while c < bw
            invariant
                dlen == dst@.len(),
                slen == src@.len(),
                dst@.len() == d0.len(),
                bw >= 1,
                x + bw <= stride,
                (y + bh) * stride <= d0.len(),
                bw * bh <= src@.len(),
                r < bh,
                c <= bw,
                forall|k: int|
                    0 <= k < d0.len() ==> #[trigger] dst@[k] == if stored_so_far(k, stride as int, x as int, y as int, bw as int, r as int, c as int) {
                        src@[(k / stride as int - y) * bw + k % stride as int - x]
                    } else {
                        d0[k]
                    },
            decreases bw - c,
        {
            proof {
                let i = (y + r) * stride + x + c;
                assert(0 <= i < d0.len()) by (nonlinear_arith)
                    requires
                        i == (y + r) * stride + x + c,
                        x + c < stride,
                        r < bh,
                        (y + bh) * stride <= d0.len(),
                ;
                assert(i / (stride as int) == y + r && i % (stride as int) == x + c) by (nonlinear_arith)
                    requires
                        i == (y + r) * stride + x + c,
                        x + c < stride,
                ;
                assert(0 <= r * bw + c < bw * bh) by (nonlinear_arith)
                    requires
                        r < bh,
                        c < bw,
                ;
                assert(y + r <= (y + r) * stride) by (nonlinear_arith)
                    requires
                        stride >= 1,
                ;
            }
            let v = src[r * bw + c];
            dst[(y + r) * stride + x + c] = v;
            proof {
                let i = (y + r) * stride + x + c;
                assert forall|k: int| 0 <= k < d0.len() && k != i implies stored_so_far(
                    k,
                    stride as int,
                    x as int,
                    y as int,
                    bw as int,
                    r as int,
                    c + 1,
                ) == stored_so_far(k, stride as int, x as int, y as int, bw as int, r as int, c as int) by {
                    if k / stride as int == y + r && k % stride as int == x + c {
                        assert(k == (k / stride as int) * stride + k % stride as int) by (nonlinear_arith)
                            requires
                                stride >= 1,
                        ;
                    }
                }
                assert(stored_so_far(i, stride as int, x as int, y as int, bw as int, r as int, c + 1));
            }
            c += 1;
        }
        r += 1;
    }
}

/// Cost of coding a block with luma transform `y_tx` (chroma uses the
/// matching chroma transform): the three planes' costs summed, saturating
/// at `u32::MAX`, and whether any plane has a non-zero level.
pub fn score_block_tx(
    bw_px: u32,
    bh_px: u32,
    y_tx: u8,
    y_pred: &[u8],
    u_pred: &[u8],
    v_pred: &[u8],
    src_y: &[u8],
    src_u: &[u8],
    src_v: &[u8],
    w: usize,
    cw: usize,
    px: usize,
    py: usize,
    cpx: usize,
    cpy: usize,
    qindex: usize,
) -> (r: (u32, bool))
    requires
        ptx_ok(mk_ptx(y_pred@, bw_px as usize, bh_px as usize, src_y@, w, px, py, y_tx, qindex)),
        ptx_ok(
            mk_ptx(u_pred@, (bw_px / 2) as usize, (bh_px / 2) as usize, src_u@, cw, cpx, cpy, spec_uv_tx_size_wh(bw_px, bh_px, y_tx), qindex),
        ),
        ptx_ok(
            mk_ptx(v_pred@, (bw_px / 2) as usize, (bh_px / 2) as usize, src_v@, cw, cpx, cpy, spec_uv_tx_size_wh(bw_px, bh_px, y_tx), qindex),
        ),
    ensures
        ({
            let uv_tx = spec_uv_tx_size_wh(bw_px, bh_px, y_tx);
            let gy = mk_ptx(y_pred@, bw_px as usize, bh_px as usize, src_y@, w, px, py, y_tx, qindex);
            let gu = mk_ptx(u_pred@, (bw_px / 2) as usize, (bh_px / 2) as usize, src_u@, cw, cpx, cpy, uv_tx, qindex);
            let gv = mk_ptx(v_pred@, (bw_px / 2) as usize, (bh_px / 2) as usize, src_v@, cw, cpx, cpy, uv_tx, qindex);
            let total = ptx_cost(gy, ptx_rows(gy) * ptx_cols(gy)) + ptx_cost(gu, ptx_rows(gu) * ptx_cols(gu)) + ptx_cost(
                gv,
                ptx_rows(gv) * ptx_cols(gv),
            );
            &&& r.0 == (if total < u32::MAX { total } else { u32::MAX as int })
            &&& r.1 == (ptx_any(gy, ptx_rows(gy) * ptx_cols(gy)) || ptx_any(gu, ptx_rows(gu) * ptx_cols(gu)) || ptx_any(
                gv,
                ptx_rows(gv) * ptx_cols(gv),
            ))
        }),
{
    let bw = bw_px as usize;
    let bh = bh_px as usize;
    let uv_tx = uv_tx_size_wh(bw_px, bh_px, y_tx);
    let (cost, any) = score_plane_tx(y_pred, bw, bh, src_y, w, px, py, y_tx, qindex);
    let cw_blk = bw / 2;
    let ch_blk = bh / 2;
    let (cu, au) = score_plane_tx(u_pred, cw_blk, ch_blk, src_u, cw, cpx, cpy, uv_tx, qindex);
    let (cv, av) = score_plane_tx(v_pred, cw_blk, ch_blk, src_v, cw, cpx, cpy, uv_tx, qindex);
    proof {
        let gy = mk_ptx(y_pred@, bw, bh, src_y@, w, px, py, y_tx, qindex);
        let gu = mk_ptx(u_pred@, cw_blk, ch_blk, src_u@, cw, cpx, cpy, uv_tx, qindex);
        let gv = mk_ptx(v_pred@, cw_blk, ch_blk, src_v@, cw, cpx, cpy, uv_tx, qindex);
        lemma_ptx_cost_nonneg(gy, ptx_rows(gy) * ptx_cols(gy));
        lemma_ptx_cost_nonneg(gu, ptx_rows(gu) * ptx_cols(gu));
        lemma_ptx_cost_nonneg(gv, ptx_rows(gv) * ptx_cols(gv));
    }
    let cost = cost.saturating_add(cu).saturating_add(cv);
    (cost, any || au || av)
}

proof fn lemma_ptx_cost_nonneg(g: PlaneTx, t: int)
    ensures
        ptx_cost(g, t) >= 0,
    decreases t,
{
    if t > 0 {
        lemma_ptx_cost_nonneg(g, t - 1);
        let n = tx_side(g.tx);
        lemma_abs_sum_nonneg(tile_levels(ptx_res(g, t - 1), g.tx, g.qindex), n * n);
    }
}


/// A residual tile of pixel differences (within ±255) transforms to
/// coefficients the quantizer takes without overflow, at every size.
pub proof fn lemma_small_tile_quantizable(res: Seq<i16>, tx: u8, qindex: usize)
    requires
        res.len() == tx_side(tx) * tx_side(tx),
        forall|i: int| 0 <= i < res.len() ==> within(#[trigger] res[i] as int, 255),
    ensures
        tile_quantizable(res, tx, qindex),
{
    let n = tx_side(tx);
    if tx == TX_16X16 {
        lemma_fdct16x16_small(res);
    }
    assert forall|i: int| 0 <= i < n * n implies quantizable(#[trigger] fwd_tx(res, tx)[i] as int, quant_step(qindex, i)) by {
        lemma_quant_step_range(qindex, i);
        if tx == TX_4X4 {
            let t = TxType::DctDct;
            let mid = fht4_mid(res, t);
            let row = spec_fwd4(row_is_adst(t), mid.subrange(i / 4 * 4, i / 4 * 4 + 4));
            let r = row[i % 4];
            assert(i32::MIN <= r <= i32::MAX);
            assert(fwd_tx(res, tx)[i] == ((r as int + 1) / 4) as i32);
        } else if tx == TX_8X8 {
            let mid = fdct8_mid(res);
            let r = spec_fdct8(Seq::new(8, |j: int| mid[j * 8 + i / 8] as i64))[i % 8];
            assert(i32::MIN <= r <= i32::MAX);
            assert(fwd_tx(res, tx)[i] == trunc_div2(r as int) as i32);
        } else if tx == TX_16X16 {
            assert(within(spec_fdct16x16(res)[i] as int, 0x10_0000));
        } else {
            let mid = fdct32_mid(res);
            let r = spec_fdct32(Seq::new(32, |j: int| mid[j + i / 32 * 32] as i64), false)[i % 32];
            assert(i32::MIN <= r <= i32::MAX);
            assert(fwd_tx(res, tx)[i] == round_row32(r as int) as i32);
        }
    }
}

/// Every residual tile of a prediction against a source is a pixel
/// difference, so every tiling of real planes quantizes without overflow.
pub proof fn lemma_tile_res_small(pred: Seq<u8>, bw: int, src: Seq<u8>, stride: int, x: int, y: int, lx: int, ly: int, n: int)
    requires
        n >= 0,
    ensures
        forall|i: int| 0 <= i < n * n ==> within(#[trigger] tile_res(pred, bw, src, stride, x, y, lx, ly, n)[i] as int, 255),
{
    assert forall|i: int| 0 <= i < n * n implies within(#[trigger] tile_res(pred, bw, src, stride, x, y, lx, ly, n)[i] as int, 255) by {
        let a = src[(y + i / n) * stride + x + i % n] as int;
        let b = pred[(ly + i / n) * bw + lx + i % n] as int;
        assert(-255 <= a - b <= 255);
    }
}

} // verus!
