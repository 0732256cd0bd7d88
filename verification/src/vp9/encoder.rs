//! The decoder-side reconstruction of a coded frame, and in-loop
//! deblocking of it.
use vstd::prelude::*;
use crate::vp9::inter::{FILTER_LEVEL, FILTER_SHARPNESS};
use crate::vp9::loopfilter::{
    LfMi, MAX_LOOP_FILTER, chroma_after, loop_filter_frame, luma_after, mi_ok, sb_count, spec_thresh,
};

verus! {

/// Reconstruction a conformant decoder produces: 4:2:0 planes, tightly
/// packed.
#[derive(Clone, Debug)]
pub struct Reconstruction {
    pub width: u32,
    pub height: u32,
    pub y: Vec<u8>,
    pub u: Vec<u8>,
    pub v: Vec<u8>,
}

/// `v` clamped to the last index below `n`.
pub open spec fn edge(v: int, n: int) -> int {
    if v < n - 1 {
        v
    } else {
        n - 1
    }
}

/// The sample of a `w × h` plane at `(r, c)`, replicating the last row and
/// column beyond the edges.
pub open spec fn padded_at(p: Seq<u8>, w: int, h: int, r: int, c: int) -> u8 {
    p[edge(r, h) * w + edge(c, w)]
}

/// A `w × h` plane padded by edge replication to `sw × sh`.
pub open spec fn pad_plane(p: Seq<u8>, w: int, h: int, sw: int, sh: int) -> Seq<u8> {
    Seq::new((sw * sh) as nat, |k: int| padded_at(p, w, h, k / sw, k % sw))
}

/// The top-left `w × h` of a plane with stride `sw`.
pub open spec fn crop_plane(f: Seq<u8>, w: int, h: int, sw: int) -> Seq<u8> {
    Seq::new((w * h) as nat, |k: int| f[(k / w) * sw + k % w])
}

/// `n` rounded up to whole 64-sample superblocks.
pub open spec fn sb_align(n: int) -> int {
    (n + 63) / 64 * 64
}

fn pad(p: &Vec<u8>, w: usize, h: usize, sw: usize, sh: usize) -> (out: Vec<u8>)
    requires
        1 <= w <= sw,
        1 <= h <= sh,
        p@.len() == w * h,
        sw * sh <= usize::MAX,
    ensures
        out@ == pad_plane(p@, w as int, h as int, sw as int, sh as int),
{
    let mut out: Vec<u8> = Vec::new();
    let plen = p.len();
    let mut r: usize = 0;
    assert(w * h <= sw * sh) by (nonlinear_arith)
        requires
            1 <= w <= sw,
            1 <= h <= sh,
    ;
    while r < sh
        invariant
            r <= sh,
            1 <= w <= sw,
            1 <= h <= sh,
            plen == p@.len(),
            p@.len() == w * h,
            sw * sh <= usize::MAX,
            out@.len() == r * sw,
            forall|k: int| 0 <= k < out@.len() ==> #[trigger] out@[k] == padded_at(p@, w as int, h as int, k / sw as int, k % sw as int),
        decreases sh - r,
    {
        let rr = if r < h - 1 {
            r
        } else {
            h - 1
        };
        let mut c: usize = 0;
        while c < sw
            invariant
                r < sh,
                c <= sw,
                1 <= w <= sw,
                1 <= h <= sh,
                plen == p@.len(),
                p@.len() == w * h,
                sw * sh <= usize::MAX,
                rr == edge(r as int, h as int),
                out@.len() == r * sw + c,
                forall|k: int| 0 <= k < out@.len() ==> #[trigger] out@[k] == padded_at(p@, w as int, h as int, k / sw as int, k % sw as int),
            decreases sw - c,
        {
            let cc = if c < w - 1 {
                c
            } else {
                w - 1
            };
            assert(rr * w + cc < w * h) by (nonlinear_arith)
                requires
                    rr < h,
                    cc < w,
            ;
            let k = out.len();
            proof {
                vstd::arithmetic::div_mod::lemma_fundamental_div_mod_converse(k as int, sw as int, r as int, c as int);
                assert(r * sw + c < sw * sh) by (nonlinear_arith)
                    requires
                        r < sh,
                        c < sw,
                ;
            }
            out.push(p[rr * w + cc]);
            c += 1;
        }
        assert((r + 1) * sw == r * sw + sw) by (nonlinear_arith);
        r += 1;
    }
    assert(sh * sw == sw * sh) by (nonlinear_arith);
    assert(out@ =~= pad_plane(p@, w as int, h as int, sw as int, sh as int));
    out
}

fn crop(f: &Vec<u8>, w: usize, h: usize, sw: usize) -> (out: Vec<u8>)
    requires
        1 <= w <= sw,
        h * sw <= f@.len(),
    ensures
        out@ == crop_plane(f@, w as int, h as int, sw as int),
{
    let mut out: Vec<u8> = Vec::new();
    let flen = f.len();
    let mut r: usize = 0;
    while r < h
        invariant
            r <= h,
            flen == f@.len(),
            1 <= w <= sw,
            h * sw <= f@.len(),
            out@.len() == r * w,
            forall|k: int| 0 <= k < out@.len() ==> #[trigger] out@[k] == f@[(k / w as int) * sw + k % w as int],
        decreases h - r,
    {
        let mut c: usize = 0;
        while c < w
            invariant
                r < h,
                c <= w,
                flen == f@.len(),
                1 <= w <= sw,
                h * sw <= f@.len(),
                out@.len() == r * w + c,
                forall|k: int| 0 <= k < out@.len() ==> #[trigger] out@[k] == f@[(k / w as int) * sw + k % w as int],
            decreases w - c,
        {
            let k = out.len();
            proof {
                vstd::arithmetic::div_mod::lemma_fundamental_div_mod_converse(k as int, w as int, r as int, c as int);
                assert(r * sw + c < h * sw) by (nonlinear_arith)
                    requires
                        r < h,
                        c < w <= sw,
                ;
            }
            out.push(f[r * sw + c]);
            c += 1;
        }
        assert((r + 1) * w == r * w + w) by (nonlinear_arith);
        r += 1;
    }
    assert(h * w == w * h) by (nonlinear_arith);
    assert(out@ =~= crop_plane(f@, w as int, h as int, sw as int));
    out
}

/// The thresholds the frame filter level and sharpness select.
pub open spec fn frame_thresholds() -> Seq<crate::vp9::loopfilter::LoopFilterThresh> {
    Seq::new((MAX_LOOP_FILTER + 1) as nat, |l: int| spec_thresh(FILTER_SHARPNESS, l))
}

/// A padded luma plane after deblocking (unchanged with an empty grid).
pub open spec fn deblocked_luma(y: Seq<u8>, sw: int, mi: Seq<LfMi>, mi_rows: int, mi_cols: int) -> Seq<u8> {
    if mi_rows == 0 || mi_cols == 0 {
        y
    } else {
        luma_after(y, sw, mi, mi_rows, mi_cols, frame_thresholds(), sb_count(mi_rows) * sb_count(mi_cols))
    }
}

/// A padded chroma plane after deblocking (unchanged with an empty grid).
pub open spec fn deblocked_chroma(u: Seq<u8>, sw: int, mi: Seq<LfMi>, mi_rows: int, mi_cols: int) -> Seq<u8> {
    if mi_rows == 0 || mi_cols == 0 {
        u
    } else {
        chroma_after(u, sw, mi, mi_rows, mi_cols, frame_thresholds(), sb_count(mi_rows) * sb_count(mi_cols))
    }
}

/// A `w × h` luma plane deblocked as `apply_loop_filter` does it: padded to
/// whole superblocks, filtered with the grid `mi`, cropped back.
pub open spec fn loop_filtered_luma(y: Seq<u8>, w: int, h: int, mi: Seq<LfMi>, mi_rows: int, mi_cols: int) -> Seq<u8> {
    crop_plane(deblocked_luma(pad_plane(y, w, h, sb_align(w), sb_align(h)), sb_align(w), mi, mi_rows, mi_cols), w, h, sb_align(w))
}

/// Deblock a reconstruction in place: pad each plane to whole superblocks
/// by replicating its last row and column, filter at the frame level, and
/// keep the visible part.
pub fn apply_loop_filter(recon: &mut Reconstruction, lf_mi: &[LfMi], mi_rows: usize, mi_cols: usize)
    requires
        2 <= old(recon).width,
        2 <= old(recon).height,
        sb_align(old(recon).width as int) * sb_align(old(recon).height as int) <= usize::MAX,
        old(recon).y@.len() == old(recon).width * old(recon).height,
        old(recon).u@.len() == (old(recon).width / 2) * (old(recon).height / 2),
        old(recon).v@.len() == (old(recon).width / 2) * (old(recon).height / 2),
        mi_rows <= 0x10_0000,
        mi_cols <= 0x10_0000,
        sb_count(mi_cols as int) <= (old(recon).width + 63) / 64,
        sb_count(mi_rows as int) <= (old(recon).height + 63) / 64,
        mi_rows != 0 && mi_cols != 0 ==> mi_ok(lf_mi@, mi_rows as int, mi_cols as int),
    ensures
        ({
            let w = old(recon).width as int;
            let h = old(recon).height as int;
            let (sw, sh) = (sb_align(w), sb_align(h));
            let (cw, ch) = (w / 2, h / 2);
            &&& final(recon).width == old(recon).width
            &&& final(recon).height == old(recon).height
            &&& final(recon).y@ == loop_filtered_luma(old(recon).y@, w, h, lf_mi@, mi_rows as int, mi_cols as int)
            &&& final(recon).y@ == crop_plane(
                deblocked_luma(pad_plane(old(recon).y@, w, h, sw, sh), sw, lf_mi@, mi_rows as int, mi_cols as int),
                w,
                h,
                sw,
            )
            &&& final(recon).u@ == crop_plane(
                deblocked_chroma(pad_plane(old(recon).u@, cw, ch, sw / 2, sh / 2), sw / 2, lf_mi@, mi_rows as int, mi_cols as int),
                cw,
                ch,
                sw / 2,
            )
            &&& final(recon).v@ == crop_plane(
                deblocked_chroma(pad_plane(old(recon).v@, cw, ch, sw / 2, sh / 2), sw / 2, lf_mi@, mi_rows as int, mi_cols as int),
                cw,
                ch,
                sw / 2,
            )
        }),
{
    let w = recon.width as usize;
    let h = recon.height as usize;
    proof {
        let aw = sb_align(w as int);
        let ah = sb_align(h as int);
        assert(ah >= 64);
        assert(aw * 64 <= aw * ah) by (nonlinear_arith)
            requires
                ah >= 64,
                aw >= 0,
        ;
        assert(aw >= w);
        assert(ah * 64 <= aw * ah) by (nonlinear_arith)
            requires
                aw >= 64,
                ah >= 0,
        ;
    }
    let sb_w = (w + 63) / 64 * 64;
    let sb_h = (h + 63) / 64 * 64;
    let cw = w / 2;
    let ch = h / 2;
    let sb_cw = sb_w / 2;
    let sb_ch = sb_h / 2;
    proof {
        assert(sb_cw * sb_ch <= sb_w * sb_h) by (nonlinear_arith)
            requires
                sb_cw <= sb_w,
                sb_ch <= sb_h,
        ;
        assert(cw <= sb_cw && ch <= sb_ch);
        assert(sb_w * sb_h == 64 * ((h + 63) / 64) * sb_w) by (nonlinear_arith)
            requires
                sb_h == (h + 63) / 64 * 64,
        ;
        assert(sb_cw * sb_ch == 32 * ((h + 63) / 64) * sb_cw) by (nonlinear_arith)
            requires
                sb_ch == (h + 63) / 64 * 32,
        ;
        assert(64 * sb_count(mi_rows as int) * sb_w <= 64 * ((h + 63) / 64) * sb_w) by (nonlinear_arith)
            requires
                sb_count(mi_rows as int) <= (h + 63) / 64,
                sb_w >= 0,
        ;
        assert(32 * sb_count(mi_rows as int) * sb_cw <= 32 * ((h + 63) / 64) * sb_cw) by (nonlinear_arith)
            requires
                sb_count(mi_rows as int) <= (h + 63) / 64,
                sb_cw >= 0,
        ;
    }
    let mut y = pad(&recon.y, w, h, sb_w, sb_h);
    let mut u = pad(&recon.u, cw, ch, sb_cw, sb_ch);
    let mut v = pad(&recon.v, cw, ch, sb_cw, sb_ch);
    loop_filter_frame(
        &mut y,
        sb_w,
        &mut u,
        &mut v,
        sb_cw,
        w,
        h,
        lf_mi,
        mi_rows,
        mi_cols,
        FILTER_LEVEL,
        FILTER_SHARPNESS,
    );
    assert(h * sb_w <= sb_w * sb_h && ch * sb_cw <= sb_cw * sb_ch) by (nonlinear_arith)
        requires
            h <= sb_h,
            ch <= sb_ch,
    ;
    recon.y = crop(&y, w, h, sb_w);
    recon.u = crop(&u, cw, ch, sb_cw);
    recon.v = crop(&v, cw, ch, sb_cw);
}

/// Position `k` (`0..16`) of a 4×4 block at `(x, y)` in a plane of
/// stride `stride`.
pub open spec fn idx4(stride: int, x: int, y: int, k: int) -> int {
    (y + k / 4) * stride + x + k % 4
}

/// The plane after writing the first `k` samples of `block` (row-major)
/// at `(x, y)`.
pub open spec fn stored4(p: Seq<u8>, stride: int, x: int, y: int, block: Seq<u8>, k: int) -> Seq<u8>
    decreases k,
{
    if k <= 0 {
        p
    } else {
        stored4(p, stride, x, y, block, k - 1).update(idx4(stride, x, y, k - 1), block[k - 1])
    }
}

pub proof fn lemma_stored4_len(p: Seq<u8>, stride: int, x: int, y: int, block: Seq<u8>, k: int)
    requires
        k <= 16,
        stride >= 0,
        x >= 0,
        y >= 0,
        last4(stride, x, y) < p.len(),
    ensures
        stored4(p, stride, x, y, block, k).len() == p.len(),
    decreases k,
{
    if k > 0 {
        lemma_stored4_len(p, stride, x, y, block, k - 1);
        lemma_idx4_bound(stride, x, y, k - 1);
    }
}

/// The last sample a 4×4 block at `(x, y)` touches.
pub open spec fn last4(stride: int, x: int, y: int) -> int {
    (y + 3) * stride + x + 3
}

proof fn lemma_idx4_bound(stride: int, x: int, y: int, k: int)
    requires
        0 <= k < 16,
        stride >= 0,
        x >= 0,
        y >= 0,
    ensures
        0 <= idx4(stride, x, y, k) <= last4(stride, x, y),
{
    assert(0 <= k / 4 <= 3 && 0 <= k % 4 <= 3);
    assert((y + k / 4) * stride <= (y + 3) * stride) by (nonlinear_arith)
        requires
            k / 4 <= 3,
            stride >= 0,
    ;
    assert(0 <= (y + k / 4) * stride) by (nonlinear_arith)
        requires
            0 <= k / 4,
            y >= 0,
            stride >= 0,
    ;
}

/// Write a 4×4 block into a plane at `(x, y)`.
pub fn store_4x4(plane: &mut [u8], stride: usize, x: usize, y: usize, block: &[u8; 16])
    requires
        y + 4 <= usize::MAX,
        last4(stride as int, x as int, y as int) < old(plane)@.len(),
    ensures
        final(plane)@ == stored4(old(plane)@, stride as int, x as int, y as int, block@, 16),
{
    let n = plane.len();
    let mut k: usize = 0;
    while k < 16
        invariant
            k <= 16,
            n == plane@.len(),
            n == old(plane)@.len(),
            last4(stride as int, x as int, y as int) < n,
            y + 4 <= usize::MAX,
            plane@ == stored4(old(plane)@, stride as int, x as int, y as int, block@, k as int),
        decreases 16 - k,
    {
        proof {
            lemma_idx4_bound(stride as int, x as int, y as int, k as int);
            lemma_stored4_len(old(plane)@, stride as int, x as int, y as int, block@, k as int);
        }
        let i = (y + k / 4) * stride + x + k % 4;
        plane[i] = block[k];
        k += 1;
    }
}

/// Write a 4×4 block into the 8×8 scratch block at transform position
/// `(tx, ty)`.
pub fn store_local4(local: &mut [u8; 64], tx: usize, ty: usize, block: &[u8; 16])
    requires
        tx < 2,
        ty < 2,
    ensures
        final(local)@ == stored4(old(local)@, 8, (tx * 4) as int, (ty * 4) as int, block@, 16),
{
    let mut k: usize = 0;
    while k < 16
        invariant
            k <= 16,
            tx < 2,
            ty < 2,
            local@ == stored4(old(local)@, 8, (tx * 4) as int, (ty * 4) as int, block@, k as int),
        decreases 16 - k,
    {
        proof {
            lemma_idx4_bound(8, (tx * 4) as int, (ty * 4) as int, k as int);
            lemma_stored4_len(old(local)@, 8, (tx * 4) as int, (ty * 4) as int, block@, k as int);
        }
        let i = (ty * 4 + k / 4) * 8 + tx * 4 + k % 4;
        local[i] = block[k];
        k += 1;
    }
}

/// Source minus prediction for a 4×4 block at `(x, y)` of the source.
pub fn residual_packed4(pred: &[u8; 16], src: &[u8], src_stride: usize, x: usize, y: usize) -> (r: [i16; 16])
    requires
        y + 4 <= usize::MAX,
        last4(src_stride as int, x as int, y as int) < src@.len(),
    ensures
        forall|k: int| 0 <= k < 16 ==> #[trigger] r@[k] == src@[idx4(src_stride as int, x as int, y as int, k)] - pred@[k],
{
    let n = src.len();
    let mut r = [0i16; 16];
    let mut k: usize = 0;
    while k < 16
        invariant
            k <= 16,
            n == src@.len(),
            last4(src_stride as int, x as int, y as int) < n,
            y + 4 <= usize::MAX,
            forall|j: int| 0 <= j < k ==> #[trigger] r@[j] == src@[idx4(src_stride as int, x as int, y as int, j)] - pred@[j],
        decreases 16 - k,
    {
        proof {
            lemma_idx4_bound(src_stride as int, x as int, y as int, k as int);
        }
        let i = (y + k / 4) * src_stride + x + k % 4;
        r[k] = src[i] as i16 - pred[k] as i16;
        k += 1;
    }
    r
}

/// Above neighbour `i` of the 4×4 luma block `(tx, ty)` of the 8×8 block at
/// `(px, py)`: from the reconstructed row above for the top transform row,
/// else from the scratch block; `127` when unavailable.
pub open spec fn above_y(recon: Seq<u8>, local: Seq<u8>, stride: int, px: int, py: int, tx: int, ty: int, have_a: bool, i: int) -> u8 {
    if have_a {
        if ty == 0 {
            if py > 0 {
                recon[(py - 1) * stride + px + tx * 4 + i]
            } else {
                127u8
            }
        } else {
            local[(ty * 4 - 1) * 8 + tx * 4 + i]
        }
    } else {
        127u8
    }
}

/// Left neighbour `i` of the 4×4 luma block `(tx, ty)`: from the
/// reconstructed column to the left for the left transform column, else
/// from the scratch block; `129` when unavailable.
pub open spec fn left_y(recon: Seq<u8>, local: Seq<u8>, stride: int, px: int, py: int, tx: int, ty: int, have_l: bool, i: int) -> u8 {
    if have_l {
        if tx == 0 {
            if px > 0 {
                recon[(py + ty * 4 + i) * stride + px - 1]
            } else {
                129u8
            }
        } else {
            local[(ty * 4 + i) * 8 + tx * 4 - 1]
        }
    } else {
        129u8
    }
}

/// Neighbours of a 4×4 luma transform block inside an 8×8 block, reading
/// earlier transform blocks from the 8×8 scratch `local`.
pub fn neighbors_y(
    recon: &[u8],
    local: &[u8; 64],
    stride: usize,
    px: usize,
    py: usize,
    tx: usize,
    ty: usize,
    have_a: bool,
    have_l: bool,
) -> (r: ([u8; 4], [u8; 4]))
    requires
        tx < 2,
        ty < 2,
        py + 8 <= usize::MAX,
        px + 8 <= usize::MAX,
        have_a && ty == 0 && py > 0 ==> (py - 1) * stride + px + tx * 4 + 3 < recon@.len(),
        have_l && tx == 0 && px > 0 ==> (py + ty * 4 + 3) * stride + px - 1 < recon@.len(),
    ensures
        forall|i: int| 0 <= i < 4 ==> #[trigger] r.0@[i] == above_y(recon@, local@, stride as int, px as int, py as int, tx as int, ty as int, have_a, i),
        forall|i: int| 0 <= i < 4 ==> #[trigger] r.1@[i] == left_y(recon@, local@, stride as int, px as int, py as int, tx as int, ty as int, have_l, i),
{
    let n = recon.len();
    let mut above = [127u8; 4];
    let mut left = [129u8; 4];
    let mut i: usize = 0;
    while i < 4
        invariant
            i <= 4,
            n == recon@.len(),
            tx < 2,
            ty < 2,
            py + 8 <= usize::MAX,
            px + 8 <= usize::MAX,
            have_a && ty == 0 && py > 0 ==> (py - 1) * stride + px + tx * 4 + 3 < n,
            have_l && tx == 0 && px > 0 ==> (py + ty * 4 + 3) * stride + px - 1 < n,
            forall|j: int| 0 <= j < i ==> #[trigger] above@[j] == above_y(recon@, local@, stride as int, px as int, py as int, tx as int, ty as int, have_a, j),
            forall|j: int| 0 <= j < i ==> #[trigger] left@[j] == left_y(recon@, local@, stride as int, px as int, py as int, tx as int, ty as int, have_l, j),
            forall|j: int| i <= j < 4 ==> above@[j] == 127u8 && left@[j] == 129u8,
        decreases 4 - i,
    {
        if have_a {
            if ty == 0 {
                if py > 0 {
                    above[i] = recon[(py - 1) * stride + px + tx * 4 + i];
                }
            } else {
                above[i] = local[(ty * 4 - 1) * 8 + tx * 4 + i];
            }
        }
        if have_l {
            if tx == 0 {
                if px > 0 {
                    assert((py + ty * 4 + i) * stride <= (py + ty * 4 + 3) * stride) by (nonlinear_arith)
                        requires
                            i <= 3,
                    ;
                    left[i] = recon[(py + ty * 4 + i) * stride + px - 1];
                }
            } else {
                left[i] = local[(ty * 4 + i) * 8 + tx * 4 - 1];
            }
        }
        i += 1;
    }
    (above, left)
}

} // verus!
