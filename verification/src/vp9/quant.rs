//! VP9 8-bit quantizer tables and coefficient quantization (libvpx
//! `vp9_quant_common.c`, QINDEX_RANGE = 256). Quantization rounds half up
//! away from zero; the decoder inverts it with `dqcoeff = qcoeff * quant`
//! (halved for 32×32).
use vstd::prelude::*;

verus! {

/// libvpx `dc_qlookup` (8-bit), indexed by `qindex` in `0..256`.
pub const DC_QLOOKUP: [i16; 256] = [
    4, 8, 8, 9, 10, 11, 12, 12, 13, 14, 15, 16, 17, 18, 19, 19, 20, 21, 22, 23, 24, 25, 26, 26, 27,
    28, 29, 30, 31, 32, 32, 33, 34, 35, 36, 37, 38, 38, 39, 40, 41, 42, 43, 43, 44, 45, 46, 47, 48,
    48, 49, 50, 51, 52, 53, 53, 54, 55, 56, 57, 57, 58, 59, 60, 61, 62, 62, 63, 64, 65, 66, 66, 67,
    68, 69, 70, 70, 71, 72, 73, 74, 74, 75, 76, 77, 78, 78, 79, 80, 81, 81, 82, 83, 84, 85, 85, 87,
    88, 90, 92, 93, 95, 96, 98, 99, 101, 102, 104, 105, 107, 108, 110, 111, 113, 114, 116, 117,
    118, 120, 121, 123, 125, 127, 129, 131, 134, 136, 138, 140, 142, 144, 146, 148, 150, 152, 154,
    156, 158, 161, 164, 166, 169, 172, 174, 177, 180, 182, 185, 187, 190, 192, 195, 199, 202, 205,
    208, 211, 214, 217, 220, 223, 226, 230, 233, 237, 240, 243, 247, 250, 253, 257, 261, 265, 269,
    272, 276, 280, 284, 288, 292, 296, 300, 304, 309, 313, 317, 322, 326, 330, 335, 340, 344, 349,
    354, 359, 364, 369, 374, 379, 384, 389, 395, 400, 406, 411, 417, 423, 429, 435, 441, 447, 454,
    461, 467, 475, 482, 489, 497, 505, 513, 522, 530, 539, 549, 559, 569, 579, 590, 602, 614, 626,
    640, 654, 668, 684, 700, 717, 736, 755, 775, 796, 819, 843, 869, 896, 925, 955, 988, 1022,
    1058, 1098, 1139, 1184, 1232, 1282, 1336,
];

/// libvpx `ac_qlookup` (8-bit), indexed by `qindex` in `0..256`.
pub const AC_QLOOKUP: [i16; 256] = [
    4, 8, 9, 10, 11, 12, 13, 14, 15, 16, 17, 18, 19, 20, 21, 22, 23, 24, 25, 26, 27, 28, 29, 30,
    31, 32, 33, 34, 35, 36, 37, 38, 39, 40, 41, 42, 43, 44, 45, 46, 47, 48, 49, 50, 51, 52, 53, 54,
    55, 56, 57, 58, 59, 60, 61, 62, 63, 64, 65, 66, 67, 68, 69, 70, 71, 72, 73, 74, 75, 76, 77, 78,
    79, 80, 81, 82, 83, 84, 85, 86, 87, 88, 89, 90, 91, 92, 93, 94, 95, 96, 97, 98, 99, 100, 101,
    102, 104, 106, 108, 110, 112, 114, 116, 118, 120, 122, 124, 126, 128, 130, 132, 134, 136, 138,
    140, 142, 144, 146, 148, 150, 152, 155, 158, 161, 164, 167, 170, 173, 176, 179, 182, 185, 188,
    191, 194, 197, 200, 203, 207, 211, 215, 219, 223, 227, 231, 235, 239, 243, 247, 251, 255, 260,
    265, 270, 275, 280, 285, 290, 295, 300, 305, 311, 317, 323, 329, 335, 341, 347, 353, 359, 366,
    373, 380, 387, 394, 401, 408, 416, 424, 432, 440, 448, 456, 465, 474, 483, 492, 501, 510, 520,
    530, 540, 550, 560, 571, 582, 593, 604, 615, 627, 639, 651, 663, 676, 689, 702, 715, 729, 743,
    757, 771, 786, 801, 816, 832, 848, 864, 881, 898, 915, 933, 951, 969, 988, 1007, 1026, 1046,
    1066, 1087, 1108, 1129, 1151, 1173, 1196, 1219, 1243, 1267, 1292, 1317, 1343, 1369, 1396, 1423,
    1451, 1479, 1508, 1537, 1567, 1597, 1628, 1660, 1692, 1725, 1759, 1793, 1828,
];

/// `qindex` clamped into the table range.
pub open spec fn clamp_qindex(qindex: usize) -> int {
    if qindex < 255 {
        qindex as int
    } else {
        255
    }
}

/// Every quantizer step in both tables lies in `4..=1828`.
pub open spec fn quant_in_range(q: int) -> bool {
    4 <= q <= 1828
}

proof fn lemma_tables_in_range()
    ensures
        forall|i: int| 0 <= i < 256 ==> quant_in_range(#[trigger] DC_QLOOKUP[i] as int),
        forall|i: int| 0 <= i < 256 ==> quant_in_range(#[trigger] AC_QLOOKUP[i] as int),
{
    assert(forall|i: int| 0 <= i < 256 ==> quant_in_range(#[trigger] DC_QLOOKUP[i] as int)) by {
        reveal_with_fuel(vstd::seq::Seq::spec_index, 1);
    }
    assert(forall|i: int| 0 <= i < 256 ==> quant_in_range(#[trigger] AC_QLOOKUP[i] as int));
}

/// DC quantizer step for 8-bit video (`vp9_dc_quant`, delta 0); indices past
/// 255 use the last entry.
pub fn dc_quant(qindex: usize) -> (q: i32)
    ensures
        q == DC_QLOOKUP[clamp_qindex(qindex)] as int,
        quant_in_range(q as int),
{
    proof {
        lemma_tables_in_range();
    }
    let i = if qindex < 255 {
        qindex
    } else {
        255
    };
    DC_QLOOKUP[i] as i32
}

/// AC quantizer step for 8-bit video (`vp9_ac_quant`, delta 0).
pub fn ac_quant(qindex: usize) -> (q: i32)
    ensures
        q == AC_QLOOKUP[clamp_qindex(qindex)] as int,
        quant_in_range(q as int),
{
    proof {
        lemma_tables_in_range();
    }
    let i = if qindex < 255 {
        qindex
    } else {
        255
    };
    AC_QLOOKUP[i] as i32
}

/// Quantized level of one coefficient: `round(|c| / quant)` (halves round up),
/// carrying the sign of `c`.
pub open spec fn spec_qcoeff(coeff: int, quant: int) -> int {
    let abs_c = if coeff < 0 {
        -coeff
    } else {
        coeff
    };
    let abs_q = (abs_c + quant / 2) / quant;
    if coeff < 0 {
        -abs_q
    } else {
        abs_q
    }
}

/// Quantizing `k` whole steps gives back `k`, so dequantizing the level
/// (`level * quant`) reproduces the coefficient exactly.
pub proof fn lemma_quantize_multiple_roundtrip(k: int, quant: int)
    requires
        quant > 0,
    ensures
        spec_qcoeff(k * quant, quant) == k,
        spec_qcoeff(k * quant, quant) * quant == k * quant,
{
    let a = if k < 0 {
        -k
    } else {
        k
    };
    assert(if k * quant < 0 {
        -(k * quant)
    } else {
        k * quant
    } == a * quant) by (nonlinear_arith)
        requires
            quant > 0,
            a == (if k < 0 {
                -k
            } else {
                k
            }),
    ;
    assert(k * quant < 0 <==> k < 0) by (nonlinear_arith)
        requires
            quant > 0,
    ;
    vstd::arithmetic::div_mod::lemma_fundamental_div_mod_converse(a * quant + quant / 2, quant, a, quant / 2);
}

/// A zero coefficient quantizes to level zero at every step size.
pub proof fn lemma_quantize_zero(quant: int)
    requires
        quant > 0,
    ensures
        spec_qcoeff(0, quant) == 0,
{
    vstd::arithmetic::div_mod::lemma_fundamental_div_mod_converse(quant / 2, quant, 0, quant / 2);
}

/// Quantize one coefficient: `(qcoeff, qcoeff * quant)`.
pub fn quantize_coeff(coeff: i32, quant: i32) -> (r: (i32, i32))
    requires
        quant > 0,
        coeff > i32::MIN,
        (if coeff < 0 {
            -coeff
        } else {
            coeff as int
        }) + quant / 2 <= i32::MAX,
    ensures
        r.0 == spec_qcoeff(coeff as int, quant as int),
        r.1 == r.0 * quant,
{
    let abs_c: i32 = if coeff < 0 {
        -coeff
    } else {
        coeff
    };
    let abs_q = (abs_c + (quant / 2)) / quant;
    proof {
        assert(abs_q * quant <= abs_c + quant / 2) by (nonlinear_arith)
            requires
                abs_q as int == (abs_c as int + quant as int / 2) / (quant as int),
                quant > 0,
                abs_c >= 0,
        ;
        assert(abs_q >= 0) by (nonlinear_arith)
            requires
                abs_q as int == (abs_c as int + quant as int / 2) / (quant as int),
                quant > 0,
                abs_c >= 0,
        ;
    }
    let qcoeff = if coeff < 0 {
        -abs_q
    } else {
        abs_q
    };
    proof {
        assert(-(i32::MAX as int) <= qcoeff * quant <= i32::MAX) by (nonlinear_arith)
            requires
                qcoeff == abs_q || qcoeff == -abs_q,
                abs_q * quant <= abs_c + quant / 2,
                abs_c + quant / 2 <= i32::MAX,
                abs_q >= 0,
                quant > 0,
        ;
    }
    (qcoeff, qcoeff * quant)
}

/// The quantizer step of raster position `i`: DC at position 0, AC elsewhere.
pub open spec fn quant_step(qindex: usize, i: int) -> int {
    if i == 0 {
        DC_QLOOKUP[clamp_qindex(qindex)] as int
    } else {
        AC_QLOOKUP[clamp_qindex(qindex)] as int
    }
}

/// Every quantizer step lies in `4..=1828`.
pub proof fn lemma_quant_step_range(qindex: usize, i: int)
    ensures
        quant_in_range(quant_step(qindex, i)),
{
    lemma_tables_in_range();
    assert(0 <= clamp_qindex(qindex) < 256);
}

/// `|coeff| + quant / 2` fits in `i32`, so rounding cannot overflow.
pub open spec fn quantizable(coeff: int, quant: int) -> bool {
    &&& coeff > i32::MIN
    &&& (if coeff < 0 {
        -coeff
    } else {
        coeff
    }) + quant / 2 <= i32::MAX
}

proof fn lemma_i32_half(x: i32)
    ensures
        (x >> 1i32) as int == (x as int) / 2,
{
    assert((x >> 1i32) as int == (x as int) / 2) by (bit_vector);
}

/// `x >> 1` (floor halving).
fn half_floor(x: i32) -> (r: i32)
    ensures
        r as int == (x as int) / 2,
{
    proof {
        lemma_i32_half(x);
    }
    x >> 1
}

/// Quantize a 4×4 coefficient block in raster order: position 0 (DC) uses
/// `dc_quant(qindex)`, the rest `ac_quant(qindex)`. Returns `(qcoeff, dqcoeff)`.
pub fn quantize(coeff: &[i32; 16], qindex: usize) -> (r: ([i32; 16], [i32; 16]))
    requires
        forall|i: int| 0 <= i < 16 ==> quantizable(coeff[i] as int, quant_step(qindex, i)),
    ensures
        forall|i: int|
            0 <= i < 16 ==> r.0[i] == spec_qcoeff(#[trigger] coeff[i] as int, quant_step(qindex, i)),
        forall|i: int| 0 <= i < 16 ==> #[trigger] r.1[i] == r.0[i] * quant_step(qindex, i),
{
    let dc = dc_quant(qindex);
    let ac = ac_quant(qindex);
    let mut qcoeff = [0i32; 16];
    let mut dqcoeff = [0i32; 16];
    let mut i: usize = 0;
    while i < 16
        invariant
            i <= 16,
            dc == quant_step(qindex, 0),
            ac == quant_step(qindex, 1),
            quant_in_range(dc as int),
            quant_in_range(ac as int),
            forall|j: int| 0 <= j < 16 ==> quantizable(coeff[j] as int, quant_step(qindex, j)),
            forall|j: int|
                0 <= j < i ==> qcoeff[j] == spec_qcoeff(#[trigger] coeff[j] as int, quant_step(qindex, j)),
            forall|j: int| 0 <= j < i ==> #[trigger] dqcoeff[j] == qcoeff[j] * quant_step(qindex, j),
        decreases 16 - i,
    {
        let q = if i == 0 {
            dc
        } else {
            ac
        };
        assert(q == quant_step(qindex, i as int));
        let (qc, dqc) = quantize_coeff(coeff[i], q);
        qcoeff[i] = qc;
        dqcoeff[i] = dqc;
        i += 1;
    }
    (qcoeff, dqcoeff)
}

/// Quantize an 8×8 coefficient block (same deadzone as 4×4).
pub fn quantize_8x8(coeff: &[i32; 64], qindex: usize) -> (r: ([i32; 64], [i32; 64]))
    requires
        forall|i: int| 0 <= i < 64 ==> quantizable(coeff[i] as int, quant_step(qindex, i)),
    ensures
        forall|i: int|
            0 <= i < 64 ==> r.0[i] == spec_qcoeff(#[trigger] coeff[i] as int, quant_step(qindex, i)),
        forall|i: int| 0 <= i < 64 ==> #[trigger] r.1[i] == r.0[i] * quant_step(qindex, i),
{
    let dc = dc_quant(qindex);
    let ac = ac_quant(qindex);
    let mut qcoeff = [0i32; 64];
    let mut dqcoeff = [0i32; 64];
    let mut i: usize = 0;
    while i < 64
        invariant
            i <= 64,
            dc == quant_step(qindex, 0),
            ac == quant_step(qindex, 1),
            quant_in_range(dc as int),
            quant_in_range(ac as int),
            forall|j: int| 0 <= j < 64 ==> quantizable(coeff[j] as int, quant_step(qindex, j)),
            forall|j: int|
                0 <= j < i ==> qcoeff[j] == spec_qcoeff(#[trigger] coeff[j] as int, quant_step(qindex, j)),
            forall|j: int| 0 <= j < i ==> #[trigger] dqcoeff[j] == qcoeff[j] * quant_step(qindex, j),
        decreases 64 - i,
    {
        let q = if i == 0 {
            dc
        } else {
            ac
        };
        assert(q == quant_step(qindex, i as int));
        let (qc, dqc) = quantize_coeff(coeff[i], q);
        qcoeff[i] = qc;
        dqcoeff[i] = dqc;
        i += 1;
    }
    (qcoeff, dqcoeff)
}

/// Quantize a 16×16 coefficient block (same deadzone as 4×4).
pub fn quantize_16x16(coeff: &[i32; 256], qindex: usize) -> (r: ([i32; 256], [i32; 256]))
    requires
        forall|i: int| 0 <= i < 256 ==> quantizable(coeff[i] as int, quant_step(qindex, i)),
    ensures
        forall|i: int|
            0 <= i < 256 ==> r.0[i] == spec_qcoeff(#[trigger] coeff[i] as int, quant_step(qindex, i)),
        forall|i: int| 0 <= i < 256 ==> #[trigger] r.1[i] == r.0[i] * quant_step(qindex, i),
{
    let dc = dc_quant(qindex);
    let ac = ac_quant(qindex);
    let mut qcoeff = [0i32; 256];
    let mut dqcoeff = [0i32; 256];
    let mut i: usize = 0;
    while i < 256
        invariant
            i <= 256,
            dc == quant_step(qindex, 0),
            ac == quant_step(qindex, 1),
            quant_in_range(dc as int),
            quant_in_range(ac as int),
            forall|j: int| 0 <= j < 256 ==> quantizable(coeff[j] as int, quant_step(qindex, j)),
            forall|j: int|
                0 <= j < i ==> qcoeff[j] == spec_qcoeff(#[trigger] coeff[j] as int, quant_step(qindex, j)),
            forall|j: int| 0 <= j < i ==> #[trigger] dqcoeff[j] == qcoeff[j] * quant_step(qindex, j),
        decreases 256 - i,
    {
        let q = if i == 0 {
            dc
        } else {
            ac
        };
        assert(q == quant_step(qindex, i as int));
        let (qc, dqc) = quantize_coeff(coeff[i], q);
        qcoeff[i] = qc;
        dqcoeff[i] = dqc;
        i += 1;
    }
    (qcoeff, dqcoeff)
}

/// Quantize a 32×32 coefficient block; `dqcoeff = (qcoeff * quant) >> 1`.
pub fn quantize_32x32(coeff: &[i32; 1024], qindex: usize) -> (r: ([i32; 1024], [i32; 1024]))
    requires
        forall|i: int| 0 <= i < 1024 ==> quantizable(coeff[i] as int, quant_step(qindex, i)),
    ensures
        forall|i: int|
            0 <= i < 1024 ==> r.0[i] == spec_qcoeff(#[trigger] coeff[i] as int, quant_step(qindex, i)),
        forall|i: int| 0 <= i < 1024 ==> #[trigger] r.1[i] == (r.0[i] * quant_step(qindex, i)) / 2,
{
    let dc = dc_quant(qindex);
    let ac = ac_quant(qindex);
    let mut qcoeff = [0i32; 1024];
    let mut dqcoeff = [0i32; 1024];
    let mut i: usize = 0;
    while i < 1024
        invariant
            i <= 1024,
            dc == quant_step(qindex, 0),
            ac == quant_step(qindex, 1),
            quant_in_range(dc as int),
            quant_in_range(ac as int),
            forall|j: int| 0 <= j < 1024 ==> quantizable(coeff[j] as int, quant_step(qindex, j)),
            forall|j: int|
                0 <= j < i ==> qcoeff[j] == spec_qcoeff(#[trigger] coeff[j] as int, quant_step(qindex, j)),
            forall|j: int| 0 <= j < i ==> #[trigger] dqcoeff[j] == (qcoeff[j] * quant_step(qindex, j)) / 2,
        decreases 1024 - i,
    {
        let q = if i == 0 {
            dc
        } else {
            ac
        };
        assert(q == quant_step(qindex, i as int));
        let (qc, dqc) = quantize_coeff(coeff[i], q);
        qcoeff[i] = qc;
        dqcoeff[i] = half_floor(qc * q);
        i += 1;
    }
    (qcoeff, dqcoeff)
}

/// Quantization rounds to the nearest multiple of the step, halves away
/// from zero, symmetrically about zero: for `c ≥ 0` the level `l` is the
/// one with `l·q ≤ c + ⌊q/2⌋ < (l + 1)·q`, so `|c − l·q| ≤ q/2`; a negative
/// coefficient gives the negated level of its magnitude.
pub proof fn law_qcoeff_nearest(coeff: int, quant: int)
    requires
        quant >= 1,
    ensures
        spec_qcoeff(-coeff, quant) == -spec_qcoeff(coeff, quant) || coeff == 0,
        coeff >= 0 ==> spec_qcoeff(coeff, quant) >= 0,
        coeff >= 0 ==> spec_qcoeff(coeff, quant) * quant <= coeff + quant / 2 < (spec_qcoeff(coeff, quant) + 1) * quant,
        coeff >= 0 ==> 2 * (coeff - spec_qcoeff(coeff, quant) * quant) <= quant,
        coeff >= 0 ==> 2 * (spec_qcoeff(coeff, quant) * quant - coeff) <= quant,
{
    if coeff >= 0 {
        let l = (coeff + quant / 2) / quant;
        assert(l * quant <= coeff + quant / 2 < (l + 1) * quant && l >= 0) by (nonlinear_arith)
            requires
                quant >= 1,
                coeff >= 0,
                l == (coeff + quant / 2) / quant,
        ;
        assert(2 * (quant / 2) <= quant && quant <= 2 * (quant / 2) + 1);
        assert((l + 1) * quant == l * quant + quant) by (nonlinear_arith);
    }
}

} // verus!
