//! VP9 inter prediction (`vpx_convolve8` with the switchable 8-tap kernels).
//!
//! Motion vectors are in 1/8-pel luma units (Q3). Convolution works in Q4
//! (1/16-pel): luma MVs are doubled, chroma (4:2:0) keeps the Q3 value as Q4
//! of chroma pixels. Reads outside the reference are clamped to its edge.
use vstd::prelude::*;

verus! {

/// Frame / block interpolation filter (`INTERP_FILTER`).
#[derive(Clone, Copy, Debug, PartialEq, Eq, Structural)]
pub enum InterpFilter {
    EightTap,
    EightTapSmooth,
    EightTapSharp,
    /// Not used under `SWITCHABLE` (only the three 8-tap filters switch).
    Bilinear,
}

/// The filter a frame-header value denotes: 1 smooth, 2 sharp, 3 bilinear,
/// anything else the regular 8-tap.
pub open spec fn spec_filter_from_u8(v: u8) -> InterpFilter {
    if v == 1 {
        InterpFilter::EightTapSmooth
    } else if v == 2 {
        InterpFilter::EightTapSharp
    } else if v == 3 {
        InterpFilter::Bilinear
    } else {
        InterpFilter::EightTap
    }
}

/// Number of switchable filters.
pub const SWITCHABLE_FILTERS: u8 = 3;

impl InterpFilter {
    /// Decode a filter value.
    pub fn from_u8(v: u8) -> (f: Self)
        ensures
            f == spec_filter_from_u8(v),
    {
        match v {
            1 => InterpFilter::EightTapSmooth,
            2 => InterpFilter::EightTapSharp,
            3 => InterpFilter::Bilinear,
            _ => InterpFilter::EightTap,
        }
    }
}

pub const EIGHTTAP: [[i16; 8]; 16] = [
    [0, 0, 0, 128, 0, 0, 0, 0],
    [0, 1, -5, 126, 8, -3, 1, 0],
    [-1, 3, -10, 122, 18, -6, 2, 0],
    [-1, 4, -13, 118, 27, -9, 3, -1],
    [-1, 4, -16, 112, 37, -11, 4, -1],
    [-1, 5, -18, 105, 48, -14, 4, -1],
    [-1, 5, -19, 97, 58, -16, 5, -1],
    [-1, 6, -19, 88, 68, -18, 5, -1],
    [-1, 6, -19, 78, 78, -19, 6, -1],
    [-1, 5, -18, 68, 88, -19, 6, -1],
    [-1, 5, -16, 58, 97, -19, 5, -1],
    [-1, 4, -14, 48, 105, -18, 5, -1],
    [-1, 4, -11, 37, 112, -16, 4, -1],
    [-1, 3, -9, 27, 118, -13, 4, -1],
    [0, 2, -6, 18, 122, -10, 3, -1],
    [0, 1, -3, 8, 126, -5, 1, 0],
];

pub const EIGHTTAP_SMOOTH: [[i16; 8]; 16] = [
    [0, 0, 0, 128, 0, 0, 0, 0],
    [-3, -1, 32, 64, 38, 1, -3, 0],
    [-2, -2, 29, 63, 41, 2, -3, 0],
    [-2, -2, 26, 63, 43, 4, -4, 0],
    [-2, -3, 24, 62, 46, 5, -4, 0],
    [-2, -3, 21, 60, 49, 7, -4, 0],
    [-1, -4, 18, 59, 51, 9, -4, 0],
    [-1, -4, 16, 57, 53, 12, -4, -1],
    [-1, -4, 14, 55, 55, 14, -4, -1],
    [-1, -4, 12, 53, 57, 16, -4, -1],
    [0, -4, 9, 51, 59, 18, -4, -1],
    [0, -4, 7, 49, 60, 21, -3, -2],
    [0, -4, 5, 46, 62, 24, -3, -2],
    [0, -4, 4, 43, 63, 26, -2, -2],
    [0, -3, 2, 41, 63, 29, -2, -2],
    [0, -3, 1, 38, 64, 32, -1, -3],
];

pub const EIGHTTAP_SHARP: [[i16; 8]; 16] = [
    [0, 0, 0, 128, 0, 0, 0, 0],
    [-1, 3, -7, 127, 8, -3, 1, 0],
    [-2, 5, -13, 125, 17, -6, 3, -1],
    [-3, 7, -17, 121, 27, -10, 5, -2],
    [-4, 9, -20, 115, 37, -13, 6, -2],
    [-4, 10, -23, 108, 48, -16, 8, -3],
    [-4, 10, -24, 100, 59, -19, 9, -3],
    [-4, 11, -24, 90, 70, -21, 10, -4],
    [-4, 11, -23, 80, 80, -23, 11, -4],
    [-4, 10, -21, 70, 90, -24, 11, -4],
    [-3, 9, -19, 59, 100, -24, 10, -4],
    [-3, 8, -16, 48, 108, -23, 10, -4],
    [-2, 6, -13, 37, 115, -20, 9, -4],
    [-2, 5, -10, 27, 121, -17, 7, -3],
    [-1, 3, -6, 17, 125, -13, 5, -2],
    [0, 1, -3, 8, 127, -7, 3, -1],
];

pub const BILINEAR: [[i16; 8]; 16] = [
    [0, 0, 0, 128, 0, 0, 0, 0],
    [0, 0, 0, 120, 8, 0, 0, 0],
    [0, 0, 0, 112, 16, 0, 0, 0],
    [0, 0, 0, 104, 24, 0, 0, 0],
    [0, 0, 0, 96, 32, 0, 0, 0],
    [0, 0, 0, 88, 40, 0, 0, 0],
    [0, 0, 0, 80, 48, 0, 0, 0],
    [0, 0, 0, 72, 56, 0, 0, 0],
    [0, 0, 0, 64, 64, 0, 0, 0],
    [0, 0, 0, 56, 72, 0, 0, 0],
    [0, 0, 0, 48, 80, 0, 0, 0],
    [0, 0, 0, 40, 88, 0, 0, 0],
    [0, 0, 0, 32, 96, 0, 0, 0],
    [0, 0, 0, 24, 104, 0, 0, 0],
    [0, 0, 0, 16, 112, 0, 0, 0],
    [0, 0, 0, 8, 120, 0, 0, 0],
];

/// The kernel table of a filter.
pub open spec fn spec_kernel(filter: InterpFilter) -> [[i16; 8]; 16] {
    match filter {
        InterpFilter::EightTap => EIGHTTAP,
        InterpFilter::EightTapSmooth => EIGHTTAP_SMOOTH,
        InterpFilter::EightTapSharp => EIGHTTAP_SHARP,
        InterpFilter::Bilinear => BILINEAR,
    }
}

fn kernel(filter: InterpFilter) -> (k: &'static [[i16; 8]; 16])
    ensures
        *k == spec_kernel(filter),
{
    match filter {
        InterpFilter::EightTap => &EIGHTTAP,
        InterpFilter::EightTapSmooth => &EIGHTTAP_SMOOTH,
        InterpFilter::EightTapSharp => &EIGHTTAP_SHARP,
        InterpFilter::Bilinear => &BILINEAR,
    }
}

/// `v` clamped into `lo..=hi`.
pub open spec fn clampi(v: int, lo: int, hi: int) -> int {
    if v < lo {
        lo
    } else if v > hi {
        hi
    } else {
        v
    }
}

/// `clip_pixel(round_pow2(sum, 7))`.
pub open spec fn spec_round_bits(sum: int) -> u8 {
    clampi((sum + 64) / 128, 0, 255) as u8
}

proof fn lemma_i32_shr7(x: i32)
    ensures
        (x >> 7i32) as int == (x as int) / 128,
{
    assert((x >> 7i32) as int == (x as int) / 128) by (bit_vector);
}

fn round_bits(sum: i32) -> (p: u8)
    requires
        -0x1000_0000 <= sum <= 0x1000_0000,
    ensures
        p == spec_round_bits(sum as int),
{
    let t = sum + 64;
    proof {
        lemma_i32_shr7(t);
    }
    let v = t >> 7;
    let c = if v < 0 {
        0
    } else if v > 255 {
        255
    } else {
        v
    };
    c as u8
}

/// A reference plane: `ref_h` rows of `ref_w` samples with row stride `stride`
/// (rows may overlap when the stride is shorter than the width).
pub open spec fn plane_ok(plane: Seq<u8>, stride: int, width: int, height: int) -> bool {
    &&& 1 <= width <= 0x1000_0000
    &&& 1 <= height <= 0x1000_0000
    &&& 0 <= stride
    &&& (height - 1) * stride + width <= plane.len()
}

/// The sample at `(x, y)`, coordinates clamped into the plane.
pub open spec fn spec_sample(plane: Seq<u8>, stride: int, width: int, height: int, x: int, y: int) -> u8 {
    plane[clampi(y, 0, height - 1) * stride + clampi(x, 0, width - 1)]
}

fn sample(plane: &[u8], stride: usize, width: usize, height: usize, x: i32, y: i32) -> (s: u8)
    requires
        plane_ok(plane@, stride as int, width as int, height as int),
    ensures
        s == spec_sample(plane@, stride as int, width as int, height as int, x as int, y as int),
{
    let plen = plane.len();
    let w1 = width as i32 - 1;
    let h1 = height as i32 - 1;
    let sx = if x < 0 {
        0
    } else if x > w1 {
        w1
    } else {
        x
    };
    let sy = if y < 0 {
        0
    } else if y > h1 {
        h1
    } else {
        y
    };
    proof {
        assert((sy as int) * (stride as int) + sx <= (height - 1) * stride + width - 1) by (nonlinear_arith)
            requires
                0 <= sy <= height - 1,
                0 <= sx <= width - 1,
                stride >= 0,
        ;
    }
    plane[sy as usize * stride + sx as usize]
}

/// `sum_{k < n} sample(x0 + k - 3, y0) * f[k]` (horizontal taps) or, with
/// `vertical`, `sum_{k < n} sample(x0, y0 + k - 3) * f[k]`.
pub open spec fn spec_taps(
    plane: Seq<u8>,
    stride: int,
    width: int,
    height: int,
    x0: int,
    y0: int,
    f: [i16; 8],
    vertical: bool,
    n: int,
) -> int
    decreases n,
{
    if n <= 0 {
        0
    } else {
        let k = n - 1;
        let s = if vertical {
            spec_sample(plane, stride, width, height, x0, y0 + k - 3)
        } else {
            spec_sample(plane, stride, width, height, x0 + k - 3, y0)
        };
        spec_taps(plane, stride, width, height, x0, y0, f, vertical, n - 1) + s as int * f[k] as int
    }
}

proof fn lemma_tap_term(s: u8, f: i16)
    ensures
        -255 * 32768 <= s as int * f as int <= 255 * 32767,
{
    assert(-255 * 32768 <= s as int * f as int <= 255 * 32767) by (nonlinear_arith)
        requires
            0 <= s <= 255,
            -32768 <= f <= 32767,
    ;
}

fn taps(
    plane: &[u8],
    stride: usize,
    width: usize,
    height: usize,
    x0: i32,
    y0: i32,
    f: &[i16; 8],
    vertical: bool,
) -> (sum: i32)
    requires
        plane_ok(plane@, stride as int, width as int, height as int),
        -0x4000_0000 <= x0 <= 0x4000_0000,
        -0x4000_0000 <= y0 <= 0x4000_0000,
    ensures
        sum == spec_taps(plane@, stride as int, width as int, height as int, x0 as int, y0 as int, *f, vertical, 8),
        -8 * 255 * 32768 <= sum <= 8 * 255 * 32767,
{
    let mut sum: i32 = 0;
    let mut k: usize = 0;
    while k < 8
        invariant
            k <= 8,
            plane_ok(plane@, stride as int, width as int, height as int),
            -0x4000_0000 <= x0 <= 0x4000_0000,
            -0x4000_0000 <= y0 <= 0x4000_0000,
            sum == spec_taps(plane@, stride as int, width as int, height as int, x0 as int, y0 as int, *f, vertical, k as int),
            -(k as int) * 255 * 32768 <= sum <= (k as int) * 255 * 32767,
        decreases 8 - k,
    {
        let s = if vertical {
            sample(plane, stride, width, height, x0, y0 + k as i32 - 3)
        } else {
            sample(plane, stride, width, height, x0 + k as i32 - 3, y0)
        };
        proof {
            lemma_tap_term(s, f[k as int]);
        }
        sum = sum + (s as i32) * (f[k] as i32);
        k += 1;
    }
    sum
}

/// Raster index of row `r`, column `c` with row length `w`.
pub open spec fn lin(r: int, w: int, c: int) -> int {
    r * w + c
}

/// The MV in Q4 units: luma doubles the Q3 value, chroma keeps it.
pub open spec fn spec_mv_q4(mv_q3: i16, chroma: bool) -> int {
    if chroma {
        mv_q3 as int
    } else {
        2 * mv_q3 as int
    }
}

/// One output of the two-dimensional path's horizontal pass: row `r2` of the
/// intermediate block (which starts three rows above the block).
pub open spec fn spec_tmp(
    plane: Seq<u8>,
    stride: int,
    width: int,
    height: int,
    base_x: int,
    base_y: int,
    fx: [i16; 8],
    r2: int,
    c: int,
) -> u8 {
    spec_round_bits(spec_taps(plane, stride, width, height, base_x + c, base_y + r2 - 3, fx, false, 8))
}

/// The vertical pass of the two-dimensional path over the intermediate block.
pub open spec fn spec_tmp_taps(
    plane: Seq<u8>,
    stride: int,
    width: int,
    height: int,
    base_x: int,
    base_y: int,
    fx: [i16; 8],
    fy: [i16; 8],
    r: int,
    c: int,
    n: int,
) -> int
    decreases n,
{
    if n <= 0 {
        0
    } else {
        spec_tmp_taps(plane, stride, width, height, base_x, base_y, fx, fy, r, c, n - 1)
            + spec_tmp(plane, stride, width, height, base_x, base_y, fx, r + n - 1, c) as int
            * fy[n - 1] as int
    }
}

/// The predicted sample at row `r`, column `c` of the block.
pub open spec fn spec_inter_pixel(
    plane: Seq<u8>,
    stride: int,
    width: int,
    height: int,
    x: int,
    y: int,
    mv_row_q3: i16,
    mv_col_q3: i16,
    chroma: bool,
    filter: InterpFilter,
    r: int,
    c: int,
) -> u8 {
    let qr = spec_mv_q4(mv_row_q3, chroma);
    let qc = spec_mv_q4(mv_col_q3, chroma);
    let sub_y = qr % 16;
    let sub_x = qc % 16;
    let base_y = y + qr / 16;
    let base_x = x + qc / 16;
    let t = spec_kernel(filter);
    if sub_x == 0 && sub_y == 0 {
        spec_sample(plane, stride, width, height, base_x + c, base_y + r)
    } else if sub_y == 0 {
        spec_round_bits(spec_taps(plane, stride, width, height, base_x + c, base_y + r, t[sub_x], false, 8))
    } else if sub_x == 0 {
        spec_round_bits(spec_taps(plane, stride, width, height, base_x + c, base_y + r, t[sub_y], true, 8))
    } else {
        spec_round_bits(spec_tmp_taps(plane, stride, width, height, base_x, base_y, t[sub_x], t[sub_y], r, c, 8))
    }
}

/// Whole-pel luma motion copies the reference sample (clamped at the
/// plane's edges), whichever interpolation filter is selected.
pub proof fn law_fullpel_is_copy(
    plane: Seq<u8>,
    stride: int,
    width: int,
    height: int,
    x: int,
    y: int,
    mv_row_q3: i16,
    mv_col_q3: i16,
    filter: InterpFilter,
    r: int,
    c: int,
)
    requires
        mv_row_q3 % 8 == 0,
        mv_col_q3 % 8 == 0,
    ensures
        spec_inter_pixel(plane, stride, width, height, x, y, mv_row_q3, mv_col_q3, false, filter, r, c)
            == spec_sample(plane, stride, width, height, x + c + mv_col_q3 / 8, y + r + mv_row_q3 / 8),
{
    let kr = mv_row_q3 / 8;
    let kc = mv_col_q3 / 8;
    assert(mv_row_q3 == 8 * kr);
    assert(mv_col_q3 == 8 * kc);
    assert(spec_mv_q4(mv_row_q3, false) == 16 * kr);
    assert(spec_mv_q4(mv_col_q3, false) == 16 * kc);
    assert((16 * kr) % 16 == 0 && (16 * kr) / 16 == kr);
    assert((16 * kc) % 16 == 0 && (16 * kc) / 16 == kc);
}

proof fn lemma_q4_split(v: i32)
    ensures
        (v & 15i32) as int == (v as int) % 16,
        (v >> 4i32) as int == (v as int) / 16,
{
    assert((v & 15i32) as int == (v as int) % 16) by (bit_vector);
    assert((v >> 4i32) as int == (v as int) / 16) by (bit_vector);
}

/// Predict a `w × h` block at plane position `(x, y)` from `reference`,
/// displaced by the Q3 motion vector (`chroma` for 4:2:0 chroma planes).
pub fn predict_inter(
    reference: &[u8],
    ref_stride: usize,
    ref_w: usize,
    ref_h: usize,
    x: usize,
    y: usize,
    w: usize,
    h: usize,
    mv_row_q3: i16,
    mv_col_q3: i16,
    chroma: bool,
    filter: InterpFilter,
    out: &mut [u8],
)
    requires
        plane_ok(reference@, ref_stride as int, ref_w as int, ref_h as int),
        old(out)@.len() == w * h,
        x + w + 4200 <= 0x4000_0000,
        y + h + 4200 <= 0x4000_0000,
        (h + 7) * w <= usize::MAX,
    ensures
        final(out)@.len() == w * h,
        forall|r: int, c: int|
            0 <= r < h && 0 <= c < w ==> #[trigger] final(out)@[lin(r, w as int, c)] == spec_inter_pixel(
                reference@,
                ref_stride as int,
                ref_w as int,
                ref_h as int,
                x as int,
                y as int,
                mv_row_q3,
                mv_col_q3,
                chroma,
                filter,
                r,
                c,
            ),
{
    let qr: i32 = if chroma {
        mv_row_q3 as i32
    } else {
        2 * (mv_row_q3 as i32)
    };
    let qc: i32 = if chroma {
        mv_col_q3 as i32
    } else {
        2 * (mv_col_q3 as i32)
    };
    proof {
        lemma_q4_split(qr);
        lemma_q4_split(qc);
    }
    let subpel_y = qr & 15;
    let subpel_x = qc & 15;
    let int_y = qr >> 4;
    let int_x = qc >> 4;
    let base_y = y as i32 + int_y;
    let base_x = x as i32 + int_x;
    let taps_tab = kernel(filter);
    let ghost t = spec_kernel(filter);
    let ghost pl = reference@;
    let ghost st = ref_stride as int;
    let ghost rw = ref_w as int;
    let ghost rh = ref_h as int;
    let olen = out.len();
    if subpel_x == 0 && subpel_y == 0 || subpel_y == 0 || subpel_x == 0 {
        let mut r: usize = 0;
        while r < h
            invariant
                r <= h,
                olen == w * h,
                out@.len() == w * h,
                base_x == x + qc / 16,
                base_y == y + qr / 16,
                subpel_x == qc % 16,
                subpel_y == qr % 16,
                subpel_x == 0 || subpel_y == 0,
                -4100 <= qr / 16 <= 4100,
                -4100 <= qc / 16 <= 4100,
                *taps_tab == t,
                t == spec_kernel(filter),
                qr == spec_mv_q4(mv_row_q3, chroma),
                qc == spec_mv_q4(mv_col_q3, chroma),
                plane_ok(reference@, ref_stride as int, ref_w as int, ref_h as int),
                x + w + 4200 <= 0x4000_0000,
                y + h + 4200 <= 0x4000_0000,
                forall|rr: int, cc: int|
                    0 <= rr < r && 0 <= cc < w ==> #[trigger] out@[lin(rr, w as int, cc)] == spec_inter_pixel(
                        reference@, ref_stride as int, ref_w as int, ref_h as int, x as int, y as int,
                        mv_row_q3, mv_col_q3, chroma, filter, rr, cc),
            decreases h - r,
        {
            let mut c: usize = 0;
            while c < w
                invariant
                    r < h,
                    c <= w,
                    olen == w * h,
                    out@.len() == w * h,
                    base_x == x + qc / 16,
                    base_y == y + qr / 16,
                    subpel_x == qc % 16,
                    subpel_y == qr % 16,
                    subpel_x == 0 || subpel_y == 0,
                    -4100 <= qr / 16 <= 4100,
                    -4100 <= qc / 16 <= 4100,
                    *taps_tab == t,
                    t == spec_kernel(filter),
                    qr == spec_mv_q4(mv_row_q3, chroma),
                    qc == spec_mv_q4(mv_col_q3, chroma),
                    plane_ok(reference@, ref_stride as int, ref_w as int, ref_h as int),
                    x + w + 4200 <= 0x4000_0000,
                    y + h + 4200 <= 0x4000_0000,
                    forall|rr: int, cc: int|
                        (0 <= rr < r && 0 <= cc < w) || (rr == r && 0 <= cc < c) ==> #[trigger] out@[lin(rr, w as int, cc)] == spec_inter_pixel(
                            reference@, ref_stride as int, ref_w as int, ref_h as int, x as int, y as int,
                            mv_row_q3, mv_col_q3, chroma, filter, rr, cc),
                decreases w - c,
            {
                let px = base_x + c as i32;
                let py = base_y + r as i32;
                let v = if subpel_x == 0 && subpel_y == 0 {
                    sample(reference, ref_stride, ref_w, ref_h, px, py)
                } else if subpel_y == 0 {
                    round_bits(taps(reference, ref_stride, ref_w, ref_h, px, py, &taps_tab[subpel_x as usize], false))
                } else {
                    round_bits(taps(reference, ref_stride, ref_w, ref_h, px, py, &taps_tab[subpel_y as usize], true))
                };
                assert(v == spec_inter_pixel(reference@, ref_stride as int, ref_w as int, ref_h as int, x as int, y as int,
                    mv_row_q3, mv_col_q3, chroma, filter, r as int, c as int));
                proof {
                    assert(r * w + c < w * h) by (nonlinear_arith)
                        requires
                            r < h,
                            c < w,
                    ;
                }
                let ghost before = out@;
                out[r * w + c] = v;
                proof {
                    assert(out@ == before.update(lin(r as int, w as int, c as int), v));
                    assert forall|rr: int, cc: int|
                        (0 <= rr < r && 0 <= cc < w) || (rr == r && 0 <= cc < c + 1) implies #[trigger] out@[lin(rr, w as int, cc)] == spec_inter_pixel(
                            reference@, ref_stride as int, ref_w as int, ref_h as int, x as int, y as int,
                            mv_row_q3, mv_col_q3, chroma, filter, rr, cc) by {
                        assert(0 <= rr * w + cc < w * h) by (nonlinear_arith)
                            requires
                                (0 <= rr < r && 0 <= cc < w) || (rr == r && 0 <= cc <= c),
                                c < w,
                                r < h,
                        ;
                        if rr != r || cc != c {
                            assert(rr * w + cc != r * w + c) by (nonlinear_arith)
                                requires
                                    (0 <= rr < r && 0 <= cc < w) || (rr == r && 0 <= cc < c),
                                    c < w,
                            ;
                            assert(before[lin(rr, w as int, cc)] == spec_inter_pixel(
                                reference@, ref_stride as int, ref_w as int, ref_h as int, x as int, y as int,
                                mv_row_q3, mv_col_q3, chroma, filter, rr, cc));
                        }
                    }
                }
                c += 1;
            }
            r += 1;
        }
        return;
    }
    let x_filter = &taps_tab[subpel_x as usize];
    let y_filter = &taps_tab[subpel_y as usize];
    let tmp_h = h + 7;
    let mut tmp: Vec<u8> = vec![0u8; tmp_h * w];
    let mut r: usize = 0;
    while r < tmp_h
        invariant
            r <= tmp_h,
            tmp_h == h + 7,
            (h + 7) * w <= usize::MAX,
            tmp@.len() == tmp_h * w,
            base_x == x + qc / 16,
            base_y == y + qr / 16,
            -4100 <= qr / 16 <= 4100,
            -4100 <= qc / 16 <= 4100,
            *x_filter == t[(qc as int) % 16],
            plane_ok(reference@, ref_stride as int, ref_w as int, ref_h as int),
            x + w + 4200 <= 0x4000_0000,
            y + h + 4200 <= 0x4000_0000,
            forall|rr: int, cc: int|
                0 <= rr < r && 0 <= cc < w ==> #[trigger] tmp@[lin(rr, w as int, cc)] == spec_tmp(
                    reference@, ref_stride as int, ref_w as int, ref_h as int, base_x as int, base_y as int,
                    t[(qc as int) % 16], rr, cc),
        decreases tmp_h - r,
    {
        let sy = base_y + r as i32 - 3;
        let mut c: usize = 0;
        while c < w
            invariant
                r < tmp_h,
                c <= w,
                tmp_h == h + 7,
                (h + 7) * w <= usize::MAX,
                tmp@.len() == tmp_h * w,
                base_x == x + qc / 16,
                base_y == y + qr / 16,
                sy == base_y + r - 3,
                -4100 <= qr / 16 <= 4100,
                -4100 <= qc / 16 <= 4100,
                *x_filter == t[(qc as int) % 16],
                plane_ok(reference@, ref_stride as int, ref_w as int, ref_h as int),
                x + w + 4200 <= 0x4000_0000,
                y + h + 4200 <= 0x4000_0000,
                forall|rr: int, cc: int|
                    (0 <= rr < r && 0 <= cc < w) || (rr == r && 0 <= cc < c) ==> #[trigger] tmp@[lin(rr, w as int, cc)] == spec_tmp(
                        reference@, ref_stride as int, ref_w as int, ref_h as int, base_x as int, base_y as int,
                        t[(qc as int) % 16], rr, cc),
            decreases w - c,
        {
            let v = round_bits(taps(reference, ref_stride, ref_w, ref_h, base_x + c as i32, sy, x_filter, false));
            proof {
                assert(r * w + c < tmp_h * w) by (nonlinear_arith)
                    requires
                        r < tmp_h,
                        c < w,
                ;
            }
            let ghost before = tmp@;
            tmp.set(r * w + c, v);
            proof {
                assert forall|rr: int, cc: int|
                    (0 <= rr < r && 0 <= cc < w) || (rr == r && 0 <= cc < c + 1) implies #[trigger] tmp@[lin(rr, w as int, cc)] == spec_tmp(
                        reference@, ref_stride as int, ref_w as int, ref_h as int, base_x as int, base_y as int,
                        t[(qc as int) % 16], rr, cc) by {
                    assert(0 <= rr * w + cc < tmp_h * w) by (nonlinear_arith)
                        requires
                            (0 <= rr < r && 0 <= cc < w) || (rr == r && 0 <= cc <= c),
                            c < w,
                            r < tmp_h,
                    ;
                    if rr != r || cc != c {
                        assert(rr * w + cc != r * w + c) by (nonlinear_arith)
                            requires
                                (0 <= rr < r && 0 <= cc < w) || (rr == r && 0 <= cc < c),
                                c < w,
                        ;
                        assert(before[lin(rr, w as int, cc)] == spec_tmp(
                            reference@, ref_stride as int, ref_w as int, ref_h as int, base_x as int, base_y as int,
                            t[(qc as int) % 16], rr, cc));
                    }
                }
            }
            c += 1;
        }
        r += 1;
    }
    let mut r: usize = 0;
    while r < h
        invariant
            r <= h,
            tmp_h == h + 7,
            (h + 7) * w <= usize::MAX,
            olen == w * h,
            out@.len() == w * h,
            tmp@.len() == tmp_h * w,
            base_x == x + qc / 16,
            base_y == y + qr / 16,
            subpel_x == qc % 16,
            subpel_y == qr % 16,
            subpel_x != 0 && subpel_y != 0,
            *x_filter == t[(qc as int) % 16],
            *y_filter == t[(qr as int) % 16],
            t == spec_kernel(filter),
            qr == spec_mv_q4(mv_row_q3, chroma),
            qc == spec_mv_q4(mv_col_q3, chroma),
            forall|rr: int, cc: int|
                0 <= rr < tmp_h && 0 <= cc < w ==> #[trigger] tmp@[lin(rr, w as int, cc)] == spec_tmp(
                    reference@, ref_stride as int, ref_w as int, ref_h as int, base_x as int, base_y as int,
                    t[(qc as int) % 16], rr, cc),
            forall|rr: int, cc: int|
                0 <= rr < r && 0 <= cc < w ==> #[trigger] out@[lin(rr, w as int, cc)] == spec_inter_pixel(
                    reference@, ref_stride as int, ref_w as int, ref_h as int, x as int, y as int,
                    mv_row_q3, mv_col_q3, chroma, filter, rr, cc),
        decreases h - r,
    {
        let mut c: usize = 0;
        while c < w
            invariant
                r < h,
                c <= w,
                tmp_h == h + 7,
                (h + 7) * w <= usize::MAX,
                olen == w * h,
                out@.len() == w * h,
                tmp@.len() == tmp_h * w,
                base_x == x + qc / 16,
                base_y == y + qr / 16,
                subpel_x == qc % 16,
                subpel_y == qr % 16,
                subpel_x != 0 && subpel_y != 0,
                *x_filter == t[(qc as int) % 16],
                *y_filter == t[(qr as int) % 16],
                t == spec_kernel(filter),
                qr == spec_mv_q4(mv_row_q3, chroma),
                qc == spec_mv_q4(mv_col_q3, chroma),
                forall|rr: int, cc: int|
                    0 <= rr < tmp_h && 0 <= cc < w ==> #[trigger] tmp@[lin(rr, w as int, cc)] == spec_tmp(
                        reference@, ref_stride as int, ref_w as int, ref_h as int, base_x as int, base_y as int,
                        t[(qc as int) % 16], rr, cc),
                forall|rr: int, cc: int|
                    (0 <= rr < r && 0 <= cc < w) || (rr == r && 0 <= cc < c) ==> #[trigger] out@[lin(rr, w as int, cc)] == spec_inter_pixel(
                        reference@, ref_stride as int, ref_w as int, ref_h as int, x as int, y as int,
                        mv_row_q3, mv_col_q3, chroma, filter, rr, cc),
            decreases w - c,
        {
            let mut sum: i32 = 0;
            let mut k: usize = 0;
            while k < 8
                invariant
                    r < h,
                    c < w,
                    k <= 8,
                    tmp_h == h + 7,
                    (h + 7) * w <= usize::MAX,
                    tmp@.len() == tmp_h * w,
                    sum == spec_tmp_taps(reference@, ref_stride as int, ref_w as int, ref_h as int,
                        base_x as int, base_y as int, t[(qc as int) % 16], t[(qr as int) % 16], r as int, c as int, k as int),
                    -(k as int) * 255 * 32768 <= sum <= (k as int) * 255 * 32767,
                    *y_filter == t[(qr as int) % 16],
                    forall|rr: int, cc: int|
                        0 <= rr < tmp_h && 0 <= cc < w ==> #[trigger] tmp@[lin(rr, w as int, cc)] == spec_tmp(
                            reference@, ref_stride as int, ref_w as int, ref_h as int, base_x as int, base_y as int,
                            t[(qc as int) % 16], rr, cc),
                decreases 8 - k,
            {
                proof {
                    assert((r + k) * w + c < tmp_h * w) by (nonlinear_arith)
                        requires
                            r + k < tmp_h,
                            c < w,
                    ;
                }
                let tv = tmp[(r + k) * w + c];
                proof {
                    assert(tv == spec_tmp(reference@, ref_stride as int, ref_w as int, ref_h as int, base_x as int, base_y as int,
                        t[(qc as int) % 16], r + k, c as int)) by {
                        assert(tmp@[lin(r + k, w as int, c as int)] == spec_tmp(reference@, ref_stride as int, ref_w as int, ref_h as int, base_x as int, base_y as int,
                            t[(qc as int) % 16], r + k, c as int));
                    }
                    lemma_tap_term(tv, y_filter[k as int]);
                }
                sum = sum + (tv as i32) * (y_filter[k] as i32);
                k += 1;
            }
            let v = round_bits(sum);
            proof {
                assert(r * w + c < w * h) by (nonlinear_arith)
                    requires
                        r < h,
                        c < w,
                ;
                assert(v == spec_inter_pixel(reference@, ref_stride as int, ref_w as int, ref_h as int, x as int, y as int,
                    mv_row_q3, mv_col_q3, chroma, filter, r as int, c as int));
            }
            let ghost before = out@;
            out[r * w + c] = v;
            proof {
                assert(out@ == before.update(lin(r as int, w as int, c as int), v));
                assert forall|rr: int, cc: int|
                    (0 <= rr < r && 0 <= cc < w) || (rr == r && 0 <= cc < c + 1) implies #[trigger] out@[lin(rr, w as int, cc)] == spec_inter_pixel(
                        reference@, ref_stride as int, ref_w as int, ref_h as int, x as int, y as int,
                        mv_row_q3, mv_col_q3, chroma, filter, rr, cc) by {
                    assert(0 <= rr * w + cc < w * h) by (nonlinear_arith)
                        requires
                            (0 <= rr < r && 0 <= cc < w) || (rr == r && 0 <= cc <= c),
                            c < w,
                            r < h,
                    ;
                    if rr != r || cc != c {
                        assert(rr * w + cc != r * w + c) by (nonlinear_arith)
                            requires
                                (0 <= rr < r && 0 <= cc < w) || (rr == r && 0 <= cc < c),
                                c < w,
                        ;
                        assert(before[lin(rr, w as int, cc)] == spec_inter_pixel(
                            reference@, ref_stride as int, ref_w as int, ref_h as int, x as int, y as int,
                            mv_row_q3, mv_col_q3, chroma, filter, rr, cc));
                    }
                }
            }
            c += 1;
        }
        r += 1;
    }
}


/// Sum of the first `n` taps of a kernel phase.
pub open spec fn tap_sum(f: [i16; 8], n: int) -> int
    decreases n,
{
    if n <= 0 {
        0
    } else {
        tap_sum(f, n - 1) + f[n - 1] as int
    }
}

proof fn lemma_row_sum_128(f: [i16; 8])
    requires
        f[0] as int + f[1] as int + f[2] as int + f[3] as int + f[4] as int + f[5] as int + f[6] as int + f[7] as int == 128,
    ensures
        tap_sum(f, 8) == 128,
{
    reveal_with_fuel(tap_sum, 9);
}

/// Every phase of every interpolation kernel sums to 128.
proof fn lemma_kernel_sums(filter: InterpFilter, p: int)
    requires
        0 <= p < 16,
    ensures
        tap_sum(spec_kernel(filter)[p], 8) == 128,
{
    let t = spec_kernel(filter);
    let f = t[p];
    assert(p == 0 || p == 1 || p == 2 || p == 3 || p == 4 || p == 5 || p == 6 || p == 7 || p == 8 || p == 9 || p
        == 10 || p == 11 || p == 12 || p == 13 || p == 14 || p == 15);
    assert(f[0] as int + f[1] as int + f[2] as int + f[3] as int + f[4] as int + f[5] as int + f[6] as int + f[7] as int
        == 128);
    lemma_row_sum_128(f);
}

/// Inside a constant plane every clamped sample is the constant.
proof fn lemma_const_sample(plane: Seq<u8>, stride: int, width: int, height: int, k: u8, x: int, y: int)
    requires
        plane_ok(plane, stride, width, height),
        forall|i: int| 0 <= i < plane.len() ==> plane[i] == k,
    ensures
        spec_sample(plane, stride, width, height, x, y) == k,
{
    let sy = clampi(y, 0, height - 1);
    let sx = clampi(x, 0, width - 1);
    assert(0 <= sy * stride + sx <= (height - 1) * stride + width - 1) by (nonlinear_arith)
        requires
            0 <= sy <= height - 1,
            0 <= sx <= width - 1,
            stride >= 0,
    ;
}

proof fn lemma_const_taps(
    plane: Seq<u8>,
    stride: int,
    width: int,
    height: int,
    k: u8,
    x0: int,
    y0: int,
    f: [i16; 8],
    vertical: bool,
    n: int,
)
    requires
        plane_ok(plane, stride, width, height),
        forall|i: int| 0 <= i < plane.len() ==> plane[i] == k,
    ensures
        spec_taps(plane, stride, width, height, x0, y0, f, vertical, n) == k as int * tap_sum(f, n),
    decreases n,
{
    if n > 0 {
        lemma_const_taps(plane, stride, width, height, k, x0, y0, f, vertical, n - 1);
        lemma_const_sample(plane, stride, width, height, k, x0, y0 + n - 1 - 3);
        lemma_const_sample(plane, stride, width, height, k, x0 + n - 1 - 3, y0);
        assert(k as int * tap_sum(f, n - 1) + k as int * f[n - 1] as int == k as int * tap_sum(f, n)) by (nonlinear_arith)
            requires
                tap_sum(f, n) == tap_sum(f, n - 1) + f[n - 1] as int,
        ;
    }
}

proof fn lemma_round_128(k: u8)
    ensures
        spec_round_bits(k as int * 128) == k,
{
    assert((k as int * 128 + 64) / 128 == k as int);
}

proof fn lemma_const_tmp_taps(
    plane: Seq<u8>,
    stride: int,
    width: int,
    height: int,
    k: u8,
    base_x: int,
    base_y: int,
    fx: [i16; 8],
    fy: [i16; 8],
    r: int,
    c: int,
    n: int,
)
    requires
        plane_ok(plane, stride, width, height),
        forall|i: int| 0 <= i < plane.len() ==> plane[i] == k,
        tap_sum(fx, 8) == 128,
    ensures
        spec_tmp_taps(plane, stride, width, height, base_x, base_y, fx, fy, r, c, n) == k as int * tap_sum(fy, n),
    decreases n,
{
    if n > 0 {
        lemma_const_tmp_taps(plane, stride, width, height, k, base_x, base_y, fx, fy, r, c, n - 1);
        lemma_const_taps(plane, stride, width, height, k, base_x + c, base_y + (r + n - 1) - 3, fx, false, 8);
        lemma_round_128(k);
        assert(spec_tmp(plane, stride, width, height, base_x, base_y, fx, r + n - 1, c) == k);
        assert(k as int * tap_sum(fy, n - 1) + k as int * fy[n - 1] as int == k as int * tap_sum(fy, n)) by (nonlinear_arith)
            requires
                tap_sum(fy, n) == tap_sum(fy, n - 1) + fy[n - 1] as int,
        ;
    }
}

/// A constant reference predicts the constant: every phase of every
/// kernel sums to 128, so each filtering pass (and its rounding) gives the
/// constant back, for every position, vector, plane and filter.
pub proof fn law_constant_reference_predicts_constant(
    plane: Seq<u8>,
    stride: int,
    width: int,
    height: int,
    k: u8,
    x: int,
    y: int,
    mv_row_q3: i16,
    mv_col_q3: i16,
    chroma: bool,
    filter: InterpFilter,
    r: int,
    c: int,
)
    requires
        plane_ok(plane, stride, width, height),
        forall|i: int| 0 <= i < plane.len() ==> plane[i] == k,
    ensures
        spec_inter_pixel(plane, stride, width, height, x, y, mv_row_q3, mv_col_q3, chroma, filter, r, c) == k,
{
    let qr = spec_mv_q4(mv_row_q3, chroma);
    let qc = spec_mv_q4(mv_col_q3, chroma);
    let sub_y = qr % 16;
    let sub_x = qc % 16;
    let base_y = y + qr / 16;
    let base_x = x + qc / 16;
    let t = spec_kernel(filter);
    lemma_kernel_sums(filter, sub_x);
    lemma_kernel_sums(filter, sub_y);
    lemma_round_128(k);
    lemma_const_sample(plane, stride, width, height, k, base_x + c, base_y + r);
    lemma_const_taps(plane, stride, width, height, k, base_x + c, base_y + r, t[sub_x], false, 8);
    lemma_const_taps(plane, stride, width, height, k, base_x + c, base_y + r, t[sub_y], true, 8);
    lemma_const_tmp_taps(plane, stride, width, height, k, base_x, base_y, t[sub_x], t[sub_y], r, c, 8);
}

/// Tap `j` of phase `p` of a filter.
pub open spec fn tap(filter: InterpFilter, p: int, j: int) -> int {
    spec_kernel(filter)[p][j] as int
}

/// The shapes of the four interpolation filters, phase by phase:
/// - phase 0 of every filter copies the sample;
/// - every phase sums to 128, and phase `16 − p` is phase `p` mirrored;
/// - bilinear mixes the two nearest samples linearly: `128 − 8p` and `8p`;
/// - the smooth (low-pass) filter weighs the second-nearest samples
///   positively, with no tap below −4;
/// - the regular and sharp filters weigh them negatively, the sharp one at
///   least as strongly, and at half-pel the sharp one weighs the nearest
///   samples at least as much as the regular one.
pub proof fn law_filter_shapes(filter: InterpFilter, p: int)
    requires
        0 <= p < 16,
    ensures
        tap(filter, 0, 3) == 128,
        forall|j: int| 0 <= j < 8 && j != 3 ==> #[trigger] tap(filter, 0, j) == 0,
        tap(filter, p, 0) + tap(filter, p, 1) + tap(filter, p, 2) + tap(filter, p, 3) + tap(filter, p, 4) + tap(filter, p, 5)
            + tap(filter, p, 6) + tap(filter, p, 7) == 128,
        1 <= p ==> forall|j: int| 0 <= j < 8 ==> #[trigger] tap(filter, p, j) == tap(filter, 16 - p, 7 - j),
        tap(InterpFilter::Bilinear, p, 3) == 128 - 8 * p,
        tap(InterpFilter::Bilinear, p, 4) == 8 * p,
        forall|j: int| 0 <= j < 8 && j != 3 && j != 4 ==> #[trigger] tap(InterpFilter::Bilinear, p, j) == 0,
        1 <= p ==> tap(InterpFilter::EightTapSmooth, p, 2) > 0 && tap(InterpFilter::EightTapSmooth, p, 5) > 0,
        forall|j: int| 0 <= j < 8 ==> #[trigger] tap(InterpFilter::EightTapSmooth, p, j) >= -4,
        1 <= p ==> tap(InterpFilter::EightTapSharp, p, 2) <= tap(InterpFilter::EightTap, p, 2) < 0,
        1 <= p ==> tap(InterpFilter::EightTapSharp, p, 5) <= tap(InterpFilter::EightTap, p, 5) < 0,
        tap(InterpFilter::EightTapSharp, 8, 3) >= tap(InterpFilter::EightTap, 8, 3),
        tap(InterpFilter::EightTapSharp, 8, 2) < tap(InterpFilter::EightTap, 8, 2),
{
    assert(p == 0 || p == 1 || p == 2 || p == 3 || p == 4 || p == 5 || p == 6 || p == 7 || p == 8 || p == 9 || p
        == 10 || p == 11 || p == 12 || p == 13 || p == 14 || p == 15);
    lemma_kernel_sums(filter, p);
    let f = spec_kernel(filter)[p];
    assert(tap_sum(f, 8) == f[0] as int + f[1] as int + f[2] as int + f[3] as int + f[4] as int + f[5] as int + f[6] as int
        + f[7] as int) by {
        reveal_with_fuel(tap_sum, 9);
    }
}

} // verus!
