//! VP9 intra prediction (8-bit) for DC / V / H, and the block SAD used to
//! choose among them. Unavailable above samples are `127`, unavailable left
//! samples `129` (VP9 spec §8.5.1); DC uses the availability flags directly.
use vstd::prelude::*;
use crate::vp9::tables::{DC_PRED, H_PRED, V_PRED};

verus! {

/// Sum of a byte sequence.
pub open spec fn sum_bytes(s: Seq<u8>) -> int
    decreases s.len(),
{
    if s.len() == 0 {
        0
    } else {
        sum_bytes(s.drop_last()) + s.last() as int
    }
}

/// The DC prediction value (libvpx `dc_pred[left][above]`): the rounded
/// mean of the available neighbours, `128` when there are none.
pub open spec fn spec_dc_value(bs: int, have_above: bool, have_left: bool, above: Seq<u8>, left: Seq<u8>) -> int {
    if have_left && have_above {
        (sum_bytes(above) + sum_bytes(left) + bs) / (2 * bs)
    } else if have_left {
        (sum_bytes(left) + bs / 2) / bs
    } else if have_above {
        (sum_bytes(above) + bs / 2) / bs
    } else {
        128
    }
}

/// The predicted sample at raster position `k` of a `bs × bs` block.
pub open spec fn spec_predict_at(
    mode: i8,
    bs: int,
    have_above: bool,
    have_left: bool,
    above: Seq<u8>,
    left: Seq<u8>,
    k: int,
) -> u8 {
    if mode == V_PRED {
        above[k % bs]
    } else if mode == H_PRED {
        left[k / bs]
    } else {
        spec_dc_value(bs, have_above, have_left, above, left) as u8
    }
}

proof fn lemma_sum_bytes_bound(s: Seq<u8>)
    ensures
        0 <= sum_bytes(s) <= 255 * s.len(),
    decreases s.len(),
{
    if s.len() > 0 {
        lemma_sum_bytes_bound(s.drop_last());
    }
}

/// Sum of `s` as a `u32`.
fn sum_u32(s: &[u8]) -> (r: u32)
    requires
        255 * s@.len() <= u32::MAX,
    ensures
        r == sum_bytes(s@),
{
    let mut acc: u32 = 0;
    let mut i: usize = 0;
    while i < s.len()
        invariant
            i <= s@.len(),
            255 * s@.len() <= u32::MAX,
            acc == sum_bytes(s@.take(i as int)),
        decreases s@.len() - i,
    {
        proof {
            assert(s@.take(i + 1).drop_last() =~= s@.take(i as int));
            lemma_sum_bytes_bound(s@.take(i as int));
        }
        acc = acc + s[i] as u32;
        i += 1;
    }
    assert(s@.take(s@.len() as int) =~= s@);
    acc
}

fn dc(bs: usize, have_above: bool, have_left: bool, above: &[u8], left: &[u8]) -> (v: u8)
    requires
        bs > 0,
        above@.len() == bs,
        left@.len() == bs,
        510 * bs + bs <= u32::MAX,
    ensures
        v as int == spec_dc_value(bs as int, have_above, have_left, above@, left@),
{
    proof {
        lemma_sum_bytes_bound(above@);
        lemma_sum_bytes_bound(left@);
    }
    let n = bs as u32;
    if have_left && have_above {
        let sum = sum_u32(above) + sum_u32(left);
        let count = 2 * n;
        proof {
            assert((sum as int + count as int / 2) / (count as int) <= 255) by (nonlinear_arith)
                requires
                    sum <= 510 * n,
                    count == 2 * n,
                    n > 0,
            ;
        }
        ((sum + (count / 2)) / count) as u8
    } else if have_left {
        let sum = sum_u32(left);
        proof {
            assert((sum as int + n as int / 2) / (n as int) <= 255) by (nonlinear_arith)
                requires
                    sum <= 255 * n,
                    n > 0,
            ;
        }
        ((sum + (n / 2)) / n) as u8
    } else if have_above {
        let sum = sum_u32(above);
        proof {
            assert((sum as int + n as int / 2) / (n as int) <= 255) by (nonlinear_arith)
                requires
                    sum <= 255 * n,
                    n > 0,
            ;
        }
        ((sum + (n / 2)) / n) as u8
    } else {
        128
    }
}

/// Fill `dst` (row-major `bs × bs`) with the intra prediction for `mode`
/// (DC, V or H). `above`/`left` are the `bs` neighbouring samples (or the
/// 127/129 fills when unavailable).
pub fn predict(
    mode: i8,
    bs: usize,
    have_above: bool,
    have_left: bool,
    above: &[u8],
    left: &[u8],
    dst: &mut [u8],
)
    requires
        mode == DC_PRED || mode == V_PRED || mode == H_PRED,
        above@.len() == bs,
        left@.len() == bs,
        old(dst)@.len() == bs * bs,
        mode == DC_PRED ==> 510 * bs + bs <= u32::MAX,
    ensures
        final(dst)@.len() == bs * bs,
        forall|k: int|
            0 <= k < bs * bs ==> #[trigger] final(dst)@[k] == spec_predict_at(
                mode,
                bs as int,
                have_above,
                have_left,
                above@,
                left@,
                k,
            ),
{
    let dcv: u8 = if mode == DC_PRED && bs > 0 {
        dc(bs, have_above, have_left, above, left)
    } else {
        0
    };
    let n = dst.len();
    let mut r: usize = 0;
    while r < bs
        invariant
            r <= bs,
            dst@.len() == bs * bs,
            n == bs * bs,
            above@.len() == bs,
            left@.len() == bs,
            mode == DC_PRED || mode == V_PRED || mode == H_PRED,
            mode == DC_PRED && bs > 0 ==> dcv as int == spec_dc_value(
                bs as int,
                have_above,
                have_left,
                above@,
                left@,
            ),
            forall|k: int|
                0 <= k < r * bs ==> #[trigger] dst@[k] == spec_predict_at(
                    mode,
                    bs as int,
                    have_above,
                    have_left,
                    above@,
                    left@,
                    k,
                ),
        decreases bs - r,
    {
        let mut c: usize = 0;
        while c < bs
            invariant
                r < bs,
                c <= bs,
                dst@.len() == bs * bs,
                n == bs * bs,
                above@.len() == bs,
                left@.len() == bs,
                mode == DC_PRED || mode == V_PRED || mode == H_PRED,
                mode == DC_PRED && bs > 0 ==> dcv as int == spec_dc_value(
                    bs as int,
                    have_above,
                    have_left,
                    above@,
                    left@,
                ),
                forall|k: int|
                    0 <= k < r * bs + c ==> #[trigger] dst@[k] == spec_predict_at(
                        mode,
                        bs as int,
                        have_above,
                        have_left,
                        above@,
                        left@,
                        k,
                    ),
            decreases bs - c,
        {
            proof {
                assert((r + 1) * bs <= bs * bs) by (nonlinear_arith)
                    requires
                        r < bs,
                ;
                assert(r * bs + c < bs * bs) by (nonlinear_arith)
                    requires
                        r < bs,
                        c < bs,
                ;
                assert((r * bs + c) % (bs as int) == c && (r * bs + c) / (bs as int) == r) by (
                nonlinear_arith)
                    requires
                        c < bs,
                ;
            }
            let v = if mode == V_PRED {
                above[c]
            } else if mode == H_PRED {
                left[r]
            } else {
                dcv
            };
            dst[r * bs + c] = v;
            c += 1;
        }
        proof {
            assert(r * bs + bs == (r + 1) * bs) by (nonlinear_arith);
        }
        r += 1;
    }
}

/// Absolute difference of two bytes.
pub open spec fn abs_diff(a: u8, b: u8) -> int {
    if a >= b {
        a - b
    } else {
        b - a
    }
}

/// SAD of the first `n` samples of row `r` of `src` (stride `stride`)
/// against row `r` of the packed `bs`-wide `pred`.
pub open spec fn row_sad(src: Seq<u8>, stride: int, pred: Seq<u8>, bs: int, r: int, n: int) -> int
    decreases n,
{
    if n <= 0 {
        0
    } else {
        row_sad(src, stride, pred, bs, r, n - 1) + abs_diff(
            src[r * stride + n - 1],
            pred[r * bs + n - 1],
        )
    }
}

/// SAD of the first `nrows` rows of a `bs × bs` block.
pub open spec fn block_sad(src: Seq<u8>, stride: int, pred: Seq<u8>, bs: int, nrows: int) -> int
    decreases nrows,
{
    if nrows <= 0 {
        0
    } else {
        block_sad(src, stride, pred, bs, nrows - 1) + row_sad(src, stride, pred, bs, nrows - 1, bs)
    }
}

proof fn lemma_row_sad_bound(src: Seq<u8>, stride: int, pred: Seq<u8>, bs: int, r: int, n: int)
    ensures
        0 <= row_sad(src, stride, pred, bs, r, n) <= 255 * (if n < 0 { 0 } else { n }),
    decreases n,
{
    if n > 0 {
        lemma_row_sad_bound(src, stride, pred, bs, r, n - 1);
    }
}

proof fn lemma_block_sad_bound(src: Seq<u8>, stride: int, pred: Seq<u8>, bs: int, nrows: int)
    requires
        bs >= 0,
    ensures
        0 <= block_sad(src, stride, pred, bs, nrows) <= 255 * bs * (if nrows < 0 { 0 } else { nrows }),
    decreases nrows,
{
    if nrows > 0 {
        lemma_block_sad_bound(src, stride, pred, bs, nrows - 1);
        lemma_row_sad_bound(src, stride, pred, bs, nrows - 1, bs);
        assert(255 * bs * (nrows - 1) + 255 * bs == 255 * bs * nrows) by (nonlinear_arith);
    }
}

/// Sum of absolute differences between `src` (stride `src_stride`) and a
/// tightly packed `bs × bs` prediction `pred`.
pub fn sad(src: &[u8], src_stride: usize, pred: &[u8], bs: usize) -> (s: u32)
    requires
        bs > 0 ==> (bs - 1) * src_stride + bs <= src@.len(),
        bs * bs <= pred@.len(),
        255 * bs * bs <= u32::MAX,
    ensures
        s == block_sad(src@, src_stride as int, pred@, bs as int, bs as int),
{
    let src_len = src.len();
    let pred_len = pred.len();
    let mut s: u32 = 0;
    let mut r: usize = 0;
    while r < bs
        invariant
            r <= bs,
            src_len == src@.len(),
            pred_len == pred@.len(),
            bs > 0 ==> (bs - 1) * src_stride + bs <= src@.len(),
            bs * bs <= pred@.len(),
            255 * bs * bs <= u32::MAX,
            s == block_sad(src@, src_stride as int, pred@, bs as int, r as int),
        decreases bs - r,
    {
        let mut c: usize = 0;
        while c < bs
            invariant
                r < bs,
                c <= bs,
                src_len == src@.len(),
                pred_len == pred@.len(),
            pred_len == pred@.len(),
                bs > 0 ==> (bs - 1) * src_stride + bs <= src@.len(),
                bs * bs <= pred@.len(),
                255 * bs * bs <= u32::MAX,
                s == block_sad(src@, src_stride as int, pred@, bs as int, r as int) + row_sad(
                    src@,
                    src_stride as int,
                    pred@,
                    bs as int,
                    r as int,
                    c as int,
                ),
            decreases bs - c,
        {
            proof {
                assert(r * src_stride + c < src@.len()) by (nonlinear_arith)
                    requires
                        r < bs,
                        c < bs,
                        (bs - 1) * src_stride + bs <= src@.len(),
                ;
                assert(r * bs + c < bs * bs) by (nonlinear_arith)
                    requires
                        r < bs,
                        c < bs,
                ;
                lemma_block_sad_bound(src@, src_stride as int, pred@, bs as int, r as int);
                lemma_row_sad_bound(src@, src_stride as int, pred@, bs as int, r as int, c as int);
                assert(255 * bs * r + 255 * c + 255 <= 255 * bs * bs) by (nonlinear_arith)
                    requires
                        r < bs,
                        c < bs,
                ;
            }
            let a = src[r * src_stride + c];
            let b = pred[r * bs + c];
            let d: u32 = if a >= b {
                (a - b) as u32
            } else {
                (b - a) as u32
            };
            s = s + d;
            c += 1;
        }
        r += 1;
    }
    s
}

/// The whole `bs × bs` prediction for `mode`.
pub open spec fn pred_block(mode: i8, bs: int, have_above: bool, have_left: bool, above: Seq<u8>, left: Seq<u8>) -> Seq<u8> {
    Seq::new((bs * bs) as nat, |k: int| spec_predict_at(mode, bs, have_above, have_left, above, left, k))
}

/// SAD of one candidate mode against the source block.
pub open spec fn mode_sad(
    mode: i8,
    bs: int,
    have_above: bool,
    have_left: bool,
    above: Seq<u8>,
    left: Seq<u8>,
    src: Seq<u8>,
    stride: int,
) -> int {
    block_sad(src, stride, pred_block(mode, bs, have_above, have_left, above, left), bs, bs)
}

/// The first of DC, V, H (in that order) with the least cost.
pub open spec fn first_min_mode(dc: int, v: int, h: int) -> i8 {
    let (m1, c1) = if v < dc {
        (V_PRED, v)
    } else {
        (DC_PRED, dc)
    };
    if h < c1 {
        H_PRED
    } else {
        m1
    }
}

/// A block whose sources and neighbours fit the prediction and SAD routines.
pub open spec fn pick_ok(bs: int, above: Seq<u8>, left: Seq<u8>, src: Seq<u8>, stride: int) -> bool {
    &&& above.len() == bs
    &&& left.len() == bs
    &&& bs > 0 ==> (bs - 1) * stride + bs <= src.len()
    &&& 2 * 255 * bs * bs <= u32::MAX
}

/// The `bs × bs` intra prediction of `mode` as a fresh vector.
pub fn predicted(
    mode: i8,
    bs: usize,
    have_above: bool,
    have_left: bool,
    above: &[u8],
    left: &[u8],
) -> (p: Vec<u8>)
    requires
        mode == DC_PRED || mode == V_PRED || mode == H_PRED,
        above@.len() == bs,
        left@.len() == bs,
        2 * 255 * bs * bs <= u32::MAX,
    ensures
        p@ == pred_block(mode, bs as int, have_above, have_left, above@, left@),
{
    assert(510 * bs + bs <= u32::MAX) by (nonlinear_arith)
        requires
            2 * 255 * bs * bs <= u32::MAX,
    ;
    assert(bs * bs <= u32::MAX) by (nonlinear_arith)
        requires
            2 * 255 * bs * bs <= u32::MAX,
    ;
    let mut p = vec![0u8; bs * bs];
    predict(mode, bs, have_above, have_left, above, left, &mut p);
    assert(p@ =~= pred_block(mode, bs as int, have_above, have_left, above@, left@));
    p
}

/// Choose the luma intra mode (DC, V or H) with the least SAD; ties keep
/// the earlier mode.
pub fn pick_mode(
    bs: usize,
    have_above: bool,
    have_left: bool,
    above: &[u8],
    left: &[u8],
    src: &[u8],
    src_stride: usize,
) -> (m: i8)
    requires
        pick_ok(bs as int, above@, left@, src@, src_stride as int),
    ensures
        m == first_min_mode(
            mode_sad(DC_PRED, bs as int, have_above, have_left, above@, left@, src@, src_stride as int),
            mode_sad(V_PRED, bs as int, have_above, have_left, above@, left@, src@, src_stride as int),
            mode_sad(H_PRED, bs as int, have_above, have_left, above@, left@, src@, src_stride as int),
        ),
{
    assert(255 * bs * bs <= u32::MAX && bs * bs <= 255 * bs * bs) by (nonlinear_arith)
        requires
            2 * 255 * bs * bs <= u32::MAX,
    ;
    let pd = predicted(DC_PRED, bs, have_above, have_left, above, left);
    let sd = sad(src, src_stride, pd.as_slice(), bs);
    let pv = predicted(V_PRED, bs, have_above, have_left, above, left);
    let sv = sad(src, src_stride, pv.as_slice(), bs);
    let ph = predicted(H_PRED, bs, have_above, have_left, above, left);
    let sh = sad(src, src_stride, ph.as_slice(), bs);
    let mut best_mode = DC_PRED;
    let mut best_sad = sd;
    if sv < best_sad {
        best_sad = sv;
        best_mode = V_PRED;
    }
    if sh < best_sad {
        best_mode = H_PRED;
    }
    best_mode
}

/// Choose the chroma intra mode by the summed U and V SAD; ties keep the
/// earlier mode.
pub fn pick_uv_mode(
    bs: usize,
    have_above: bool,
    have_left: bool,
    above_u: &[u8],
    left_u: &[u8],
    above_v: &[u8],
    left_v: &[u8],
    src_u: &[u8],
    src_v: &[u8],
    stride: usize,
) -> (m: i8)
    requires
        pick_ok(bs as int, above_u@, left_u@, src_u@, stride as int),
        pick_ok(bs as int, above_v@, left_v@, src_v@, stride as int),
    ensures
        m == first_min_mode(
            mode_sad(DC_PRED, bs as int, have_above, have_left, above_u@, left_u@, src_u@, stride as int)
                + mode_sad(DC_PRED, bs as int, have_above, have_left, above_v@, left_v@, src_v@, stride as int),
            mode_sad(V_PRED, bs as int, have_above, have_left, above_u@, left_u@, src_u@, stride as int)
                + mode_sad(V_PRED, bs as int, have_above, have_left, above_v@, left_v@, src_v@, stride as int),
            mode_sad(H_PRED, bs as int, have_above, have_left, above_u@, left_u@, src_u@, stride as int)
                + mode_sad(H_PRED, bs as int, have_above, have_left, above_v@, left_v@, src_v@, stride as int),
        ),
{
    assert(255 * bs * bs <= u32::MAX && bs * bs <= 255 * bs * bs) by (nonlinear_arith)
        requires
            2 * 255 * bs * bs <= u32::MAX,
    ;
    let mut costs: [u32; 3] = [0, 0, 0];
    let modes: [i8; 3] = [DC_PRED, V_PRED, H_PRED];
    let mut k: usize = 0;
    while k < 3
        invariant
            k <= 3,
            modes@ == seq![DC_PRED, V_PRED, H_PRED],
            255 * bs * bs <= u32::MAX,
            bs * bs <= 255 * bs * bs,
            2 * 255 * bs * bs <= u32::MAX,
            pick_ok(bs as int, above_u@, left_u@, src_u@, stride as int),
            pick_ok(bs as int, above_v@, left_v@, src_v@, stride as int),
            forall|j: int|
                0 <= j < k ==> costs[j] == mode_sad(modes@[j], bs as int, have_above, have_left, above_u@, left_u@, src_u@, stride as int)
                    + mode_sad(modes@[j], bs as int, have_above, have_left, above_v@, left_v@, src_v@, stride as int),
        decreases 3 - k,
    {
        let mode = modes[k];
        let pu = predicted(mode, bs, have_above, have_left, above_u, left_u);
        let pv = predicted(mode, bs, have_above, have_left, above_v, left_v);
        let su = sad(src_u, stride, pu.as_slice(), bs);
        let sv = sad(src_v, stride, pv.as_slice(), bs);
        proof {
            lemma_block_sad_bound(src_u@, stride as int, pu@, bs as int, bs as int);
            lemma_block_sad_bound(src_v@, stride as int, pv@, bs as int, bs as int);
            assert(255 * bs * bs + 255 * bs * bs == 2 * 255 * bs * bs) by (nonlinear_arith);
        }
        costs[k] = su + sv;
        k += 1;
    }
    let mut best_mode = DC_PRED;
    let mut best_sad = costs[0];
    if costs[1] < best_sad {
        best_sad = costs[1];
        best_mode = V_PRED;
    }
    if costs[2] < best_sad {
        best_mode = H_PRED;
    }
    best_mode
}

/// The `bs` samples above a block at `(x, y)` (clamped to the row's
/// last column), or `127`s when unavailable.
pub open spec fn spec_gather_above(plane: Seq<u8>, stride: int, x: int, y: int, bs: int, have: bool) -> Seq<u8> {
    Seq::new(
        bs as nat,
        |i: int|
            if have && y > 0 {
                plane[(y - 1) * stride + (if x + i < stride - 1 { x + i } else { stride - 1 })]
            } else {
                127u8
            },
    )
}

/// Collect the above neighbours of a block.
pub fn gather_above(plane: &[u8], stride: usize, x: usize, y: usize, bs: usize, have: bool) -> (a: Vec<u8>)
    requires
        x + bs <= usize::MAX,
        have && y > 0 && bs > 0 ==> stride >= 1 && (y - 1) * stride + (if x + bs - 1 < stride - 1 {
            x + bs - 1
        } else {
            stride - 1
        }) < plane@.len(),
    ensures
        a@ == spec_gather_above(plane@, stride as int, x as int, y as int, bs as int, have),
{
    let mut above = vec![127u8; bs];
    if have && y > 0 && bs > 0 {
        let n = plane.len();
        let base = (y - 1) * stride;
        let mut i: usize = 0;
        while i < bs
            invariant
                i <= bs,
                bs > 0,
                have,
                y > 0,
                x + bs <= usize::MAX,
                n == plane@.len(),
                stride >= 1,
                base == (y - 1) * stride,
                base + (if x + bs - 1 < stride - 1 { x + bs - 1 } else { stride - 1 }) < n,
                above@.len() == bs,
                forall|j: int| 0 <= j < i ==> above@[j] == spec_gather_above(plane@, stride as int, x as int, y as int, bs as int, have)[j],
                forall|j: int| i <= j < bs ==> above@[j] == 127u8,
            decreases bs - i,
        {
            let col = if x + i < stride - 1 {
                x + i
            } else {
                stride - 1
            };
            above.set(i, plane[base + col]);
            assert(above@[i as int] == spec_gather_above(plane@, stride as int, x as int, y as int, bs as int, have)[i as int]);
            i += 1;
        }
    }
    assert(above@ =~= spec_gather_above(plane@, stride as int, x as int, y as int, bs as int, have));
    above
}

/// The `bs` samples left of a block at `(x, y)` (rows clamped to the
/// plane's last row), or `129`s when unavailable.
pub open spec fn spec_gather_left(plane: Seq<u8>, stride: int, height: int, x: int, y: int, bs: int, have: bool) -> Seq<u8> {
    Seq::new(
        bs as nat,
        |i: int|
            if have && x > 0 {
                plane[(if y + i < height - 1 { y + i } else { height - 1 }) * stride + (x - 1)]
            } else {
                129u8
            },
    )
}

/// Collect the left neighbours of a block.
pub fn gather_left(
    plane: &[u8],
    stride: usize,
    height: usize,
    x: usize,
    y: usize,
    bs: usize,
    have: bool,
) -> (l: Vec<u8>)
    requires
        y + bs <= usize::MAX,
        have && x > 0 && bs > 0 ==> height >= 1 && (if y + bs - 1 < height - 1 {
            y + bs - 1
        } else {
            height - 1
        }) * stride + (x - 1) < plane@.len(),
    ensures
        l@ == spec_gather_left(plane@, stride as int, height as int, x as int, y as int, bs as int, have),
{
    let mut left = vec![129u8; bs];
    if have && x > 0 && bs > 0 {
        let n = plane.len();
        let last = if y + bs - 1 < height - 1 {
            y + bs - 1
        } else {
            height - 1
        };
        let mut i: usize = 0;
        while i < bs
            invariant
                i <= bs,
                bs > 0,
                have,
                x > 0,
                y + bs <= usize::MAX,
                height >= 1,
                n == plane@.len(),
                last == (if y + bs - 1 < height - 1 { y + bs - 1 } else { height - 1 }),
                last * stride + (x - 1) < n,
                left@.len() == bs,
                forall|j: int| 0 <= j < i ==> left@[j] == spec_gather_left(plane@, stride as int, height as int, x as int, y as int, bs as int, have)[j],
                forall|j: int| i <= j < bs ==> left@[j] == 129u8,
            decreases bs - i,
        {
            let yy = if y + i < height - 1 {
                y + i
            } else {
                height - 1
            };
            assert(yy <= last);
            assert(yy * stride <= last * stride) by (nonlinear_arith)
                requires
                    yy <= last,
            ;
            left.set(i, plane[yy * stride + (x - 1)]);
            assert(left@[i as int] == spec_gather_left(plane@, stride as int, height as int, x as int, y as int, bs as int, have)[i as int]);
            i += 1;
        }
    }
    assert(left@ =~= spec_gather_left(plane@, stride as int, height as int, x as int, y as int, bs as int, have));
    left
}


/// `V_PRED` copies the row above into every row and `H_PRED` the column to
/// the left into every column, whatever the availability flags; `DC_PRED`
/// fills the block with the single value `spec_dc_value`.
pub proof fn law_predict_directional(
    bs: int,
    have_above: bool,
    have_left: bool,
    above: Seq<u8>,
    left: Seq<u8>,
    r: int,
    c: int,
)
    requires
        0 <= r < bs,
        0 <= c < bs,
    ensures
        spec_predict_at(V_PRED, bs, have_above, have_left, above, left, r * bs + c) == above[c],
        spec_predict_at(H_PRED, bs, have_above, have_left, above, left, r * bs + c) == left[r],
        spec_predict_at(DC_PRED, bs, have_above, have_left, above, left, r * bs + c) == spec_dc_value(
            bs,
            have_above,
            have_left,
            above,
            left,
        ) as u8,
{
    vstd::arithmetic::div_mod::lemma_fundamental_div_mod_converse(r * bs + c, bs, r, c);
}

proof fn lemma_row_sad_zero(src: Seq<u8>, stride: int, pred: Seq<u8>, bs: int, r: int, n: int)
    requires
        n >= 0,
    ensures
        (row_sad(src, stride, pred, bs, r, n) == 0) <==> (forall|c: int|
            0 <= c < n ==> #[trigger] src[r * stride + c] == pred[r * bs + c]),
    decreases n,
{
    if n > 0 {
        lemma_row_sad_zero(src, stride, pred, bs, r, n - 1);
        lemma_row_sad_bound(src, stride, pred, bs, r, n - 1);
        let d = abs_diff(src[r * stride + n - 1], pred[r * bs + n - 1]);
        assert(d >= 0);
        if row_sad(src, stride, pred, bs, r, n) == 0 {
            assert forall|c: int| 0 <= c < n implies #[trigger] src[r * stride + c] == pred[r * bs + c] by {
                if c == n - 1 {
                    assert(d == 0);
                }
            }
        } else {
            if forall|c: int| 0 <= c < n ==> #[trigger] src[r * stride + c] == pred[r * bs + c] {
                assert(src[r * stride + (n - 1)] == pred[r * bs + (n - 1)]);
                assert forall|c: int| 0 <= c < n - 1 implies #[trigger] src[r * stride + c] == pred[r * bs + c] by {
                    assert(src[r * stride + c] == pred[r * bs + c]);
                }
                assert(false);
            }
        }
    }
}

proof fn lemma_block_sad_zero(src: Seq<u8>, stride: int, pred: Seq<u8>, bs: int, nrows: int)
    requires
        nrows >= 0,
        bs >= 0,
    ensures
        (block_sad(src, stride, pred, bs, nrows) == 0) <==> (forall|r: int, c: int|
            0 <= r < nrows && 0 <= c < bs ==> #[trigger] src[r * stride + c] == pred[r * bs + c]),
    decreases nrows,
{
    if nrows > 0 {
        lemma_block_sad_zero(src, stride, pred, bs, nrows - 1);
        lemma_block_sad_bound(src, stride, pred, bs, nrows - 1);
        lemma_row_sad_bound(src, stride, pred, bs, nrows - 1, bs);
        lemma_row_sad_zero(src, stride, pred, bs, nrows - 1, bs);
        if block_sad(src, stride, pred, bs, nrows) == 0 {
            assert forall|r: int, c: int| 0 <= r < nrows && 0 <= c < bs implies #[trigger] src[r * stride + c]
                == pred[r * bs + c] by {
                if r == nrows - 1 {
                    assert(src[(nrows - 1) * stride + c] == pred[(nrows - 1) * bs + c]);
                } else {
                    assert(src[r * stride + c] == pred[r * bs + c]);
                }
            }
        } else {
            if forall|r: int, c: int| 0 <= r < nrows && 0 <= c < bs ==> #[trigger] src[r * stride + c] == pred[r * bs + c] {
                assert forall|c: int| 0 <= c < bs implies #[trigger] src[(nrows - 1) * stride + c] == pred[(nrows - 1)
                    * bs + c] by {
                    assert(src[(nrows - 1) * stride + c] == pred[(nrows - 1) * bs + c]);
                }
                assert forall|r: int, c: int| 0 <= r < nrows - 1 && 0 <= c < bs implies #[trigger] src[r * stride
                    + c] == pred[r * bs + c] by {
                    assert(src[r * stride + c] == pred[r * bs + c]);
                }
                assert(false);
            }
        }
    }
}

/// The SAD of a block is zero exactly when the `bs × bs` window of the
/// source equals the prediction.
pub proof fn law_sad_zero_iff_equal(src: Seq<u8>, stride: int, pred: Seq<u8>, bs: int)
    requires
        bs >= 0,
    ensures
        (block_sad(src, stride, pred, bs, bs) == 0) <==> (forall|r: int, c: int|
            0 <= r < bs && 0 <= c < bs ==> #[trigger] src[r * stride + c] == pred[r * bs + c]),
{
    lemma_block_sad_zero(src, stride, pred, bs, bs);
}

/// The DC prediction is the mean of the available neighbours, rounded to
/// nearest (halves up): over the `n` samples used (`2·bs` with both rows,
/// `bs` with one, none gives mid-grey 128), their sum `S` and the value `v`
/// satisfy `n·v ≤ S + n/2 < n·(v + 1)`.
pub proof fn law_dc_rounded_mean(bs: int, have_above: bool, have_left: bool, above: Seq<u8>, left: Seq<u8>)
    requires
        bs >= 1,
    ensures
        ({
            let v = spec_dc_value(bs, have_above, have_left, above, left);
            let n = (if have_above { bs } else { 0 }) + (if have_left { bs } else { 0 });
            let sum = (if have_above { sum_bytes(above) } else { 0 }) + (if have_left { sum_bytes(left) } else { 0 });
            &&& n == 0 ==> v == 128
            &&& n > 0 ==> n * v <= sum + n / 2 < n * (v + 1)
        }),
{
    let v = spec_dc_value(bs, have_above, have_left, above, left);
    let n = (if have_above { bs } else { 0 }) + (if have_left { bs } else { 0 });
    let sum = (if have_above { sum_bytes(above) } else { 0 }) + (if have_left { sum_bytes(left) } else { 0 });
    if n > 0 {
        assert((2 * bs) / 2 == bs);
        assert(n * v <= sum + n / 2 < n * (v + 1)) by (nonlinear_arith)
            requires
                n >= 1,
                v == (sum + n / 2) / n,
        ;
    }
}

} // verus!
