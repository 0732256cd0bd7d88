//! Forward and inverse transforms of VP9, bit-exact with libvpx: 4×4 DCT and
//! ADST (hybrid), 8×8, 16×16 and 32×32 DCT. The forward transforms work in
//! 64-bit intermediates with `as i32` truncation where libvpx stores to
//! `tran_low_t`; the inverse transforms wrap every stage to 16 bits
//! (`WRAPLOW` with `CONFIG_EMULATE_HARDWARE`).
use vstd::prelude::*;
use crate::vp9::tables::{DC_PRED, H_PRED, V_PRED};

verus! {

pub const DCT_CONST_BITS: u32 = 14;

pub const COSPI_1_64: i64 = 16364;
pub const COSPI_2_64: i64 = 16305;
pub const COSPI_3_64: i64 = 16207;
pub const COSPI_4_64: i64 = 16069;
pub const COSPI_5_64: i64 = 15893;
pub const COSPI_6_64: i64 = 15679;
pub const COSPI_7_64: i64 = 15426;
pub const COSPI_8_64: i64 = 15137;
pub const COSPI_9_64: i64 = 14811;
pub const COSPI_10_64: i64 = 14449;
pub const COSPI_11_64: i64 = 14053;
pub const COSPI_12_64: i64 = 13623;
pub const COSPI_13_64: i64 = 13160;
pub const COSPI_14_64: i64 = 12665;
pub const COSPI_15_64: i64 = 12140;
pub const COSPI_16_64: i64 = 11585;
pub const COSPI_17_64: i64 = 11003;
pub const COSPI_18_64: i64 = 10394;
pub const COSPI_19_64: i64 = 9760;
pub const COSPI_20_64: i64 = 9102;
pub const COSPI_21_64: i64 = 8423;
pub const COSPI_22_64: i64 = 7723;
pub const COSPI_23_64: i64 = 7005;
pub const COSPI_24_64: i64 = 6270;
pub const COSPI_25_64: i64 = 5520;
pub const COSPI_26_64: i64 = 4756;
pub const COSPI_27_64: i64 = 3981;
pub const COSPI_28_64: i64 = 3196;
pub const COSPI_29_64: i64 = 2404;
pub const COSPI_30_64: i64 = 1606;
pub const COSPI_31_64: i64 = 804;

pub const SINPI_1_9: i64 = 5283;
pub const SINPI_2_9: i64 = 9929;
pub const SINPI_3_9: i64 = 13377;
pub const SINPI_4_9: i64 = 15212;

/// VP9 `TX_TYPE` of the 4×4 hybrid transforms.
#[derive(Clone, Copy, Debug, PartialEq, Eq, Structural)]
pub enum TxType {
    DctDct,
    /// ADST vertical, DCT horizontal (used by `V_PRED`).
    AdstDct,
    /// DCT vertical, ADST horizontal (used by `H_PRED`).
    DctAdst,
    AdstAdst,
}

/// Whether the vertical (column) 1-D transform is the ADST.
pub open spec fn col_is_adst(tx: TxType) -> bool {
    tx == TxType::AdstDct || tx == TxType::AdstAdst
}

/// Whether the horizontal (row) 1-D transform is the ADST.
pub open spec fn row_is_adst(tx: TxType) -> bool {
    tx == TxType::DctAdst || tx == TxType::AdstAdst
}

/// `intra_mode_to_tx_type_lookup` for the modes this encoder uses:
/// `V_PRED` → ADST/DCT, `H_PRED` → DCT/ADST, `DC_PRED` → DCT/DCT, every
/// other mode → ADST/ADST.
pub fn tx_type_from_mode(mode: i8) -> (t: TxType)
    ensures
        t == (if mode == V_PRED {
            TxType::AdstDct
        } else if mode == H_PRED {
            TxType::DctAdst
        } else if mode == DC_PRED {
            TxType::DctDct
        } else {
            TxType::AdstAdst
        }),
{
    if mode == V_PRED {
        TxType::AdstDct
    } else if mode == H_PRED {
        TxType::DctAdst
    } else if mode == DC_PRED {
        TxType::DctDct
    } else {
        TxType::AdstAdst
    }
}

/// `round_power_of_two(v, n)`: `v / 2^n` rounded half up (floor of
/// `(v + 2^(n-1)) / 2^n`).
pub open spec fn round_pow2(v: int, n: nat) -> int {
    (v + vstd::arithmetic::power2::pow2((n - 1) as nat)) / (vstd::arithmetic::power2::pow2(n) as int)
}

/// `dct_const_round_shift` / `fdct_round_shift`: round away the 14 fraction
/// bits of a cosine product, then store as `i32`.
pub open spec fn dct_round(v: int) -> i32 {
    round_pow2(v, 14) as i32
}

/// `WRAPLOW`: keep the low 16 bits, sign-extended.
pub open spec fn wrap_low(x: int) -> i32 {
    (x as i16) as i32
}

pub proof fn lemma_i64_shr(y: i64, n: u32)
    requires
        1 <= n <= 14,
    ensures
        (y >> n) as int == y as int / (vstd::arithmetic::power2::pow2(n as nat) as int),
        (1i64 << ((n - 1) as u32)) as int == vstd::arithmetic::power2::pow2((n - 1) as nat),
{
    let p: i64 = 1i64 << n;
    assert(p > 0 && (y >> n) * p <= y && y < (y >> n) * p + p) by (bit_vector)
        requires
            1 <= n <= 14,
            p == 1i64 << n,
    ;
    vstd::arithmetic::power2::lemma2_to64();
    assert(p as int == vstd::arithmetic::power2::pow2(n as nat)) by {
        assert((1i64 << n) as u64 == 1u64 << n) by (bit_vector)
            requires
                1 <= n <= 14,
        ;
        if n < 14 {
            vstd::arithmetic::power2::lemma_pow2_strictly_increases(n as nat, 14);
        }
        vstd::bits::lemma_u64_shl_is_mul(1, n as u64);
    }
    let m: u32 = (n - 1) as u32;
    assert((1i64 << m) as u64 == 1u64 << m && (1i64 << m) > 0) by (bit_vector)
        requires
            m <= 13,
    ;
    assert((1i64 << m) as int == ((1i64 << m) as u64) as int);
    vstd::arithmetic::power2::lemma_pow2_strictly_increases(m as nat, 14);
    vstd::bits::lemma_u64_shl_is_mul(1, m as u64);
    let q = (y >> n) as int;
    vstd::arithmetic::div_mod::lemma_fundamental_div_mod_converse(y as int, p as int, q, y - q * p);
}

/// `(value + 2^(n-1)) >> n`.
pub fn round_power_of_two(value: i64, n: u32) -> (r: i64)
    requires
        1 <= n <= 14,
        -0x4000_0000_0000_0000 <= value <= 0x4000_0000_0000_0000,
    ensures
        r == round_pow2(value as int, n as nat),
{
    proof {
        lemma_i64_shr(0, n);
        vstd::arithmetic::power2::lemma2_to64();
        vstd::arithmetic::power2::lemma_pow2_strictly_increases((n - 1) as nat, 14);
    }
    let half: i64 = 1i64 << (n - 1);
    let t = value + half;
    proof {
        lemma_i64_shr(t, n);
    }
    t >> n
}

/// Round a forward-transform product (`fdct_round_shift`).
pub fn fdct_round_shift(input: i64) -> (r: i32)
    requires
        -0x4000_0000_0000_0000 <= input <= 0x4000_0000_0000_0000,
    ensures
        r == dct_round(input as int),
{
    round_power_of_two(input, DCT_CONST_BITS) as i32
}

/// Round an inverse-transform product (`dct_const_round_shift`).
pub fn dct_const_round_shift(input: i64) -> (r: i32)
    requires
        -0x4000_0000_0000_0000 <= input <= 0x4000_0000_0000_0000,
    ensures
        r == dct_round(input as int),
{
    round_power_of_two(input, DCT_CONST_BITS) as i32
}

/// Wrap to signed 16 bits (`WRAPLOW`, hardware-emulating).
pub fn wraplow(x: i32) -> (r: i32)
    ensures
        r == wrap_low(x as int),
{
    (x as i16) as i32
}

/// `(x + 1) >> 2`, floor division.
pub fn half_round_shift(x: i32) -> (r: i32)
    ensures
        r as int == (x as int + 1) / 4,
{
    let t = x as i64 + 1;
    proof {
        lemma_i64_shr(t, 2);
        vstd::arithmetic::power2::lemma2_to64();
    }
    (t >> 2) as i32
}

/// 1-D forward DCT4 (libvpx `fdct4`).
#[verifier::opaque]
pub open spec fn spec_fdct4(x: Seq<i32>) -> Seq<i32> {
    let s0 = x[0] + x[3];
    let s1 = x[1] + x[2];
    let s2 = x[1] - x[2];
    let s3 = x[0] - x[3];
    seq![
        dct_round((s0 + s1) * COSPI_16_64),
        dct_round(s2 * COSPI_24_64 + s3 * COSPI_8_64),
        dct_round((s0 - s1) * COSPI_16_64),
        dct_round(-s2 * COSPI_8_64 + s3 * COSPI_24_64),
    ]
}

/// 1-D forward DCT4.
pub fn fdct4(input: &[i32; 4], output: &mut [i32; 4])
    ensures
        final(output)@ == spec_fdct4(input@),
{
    let step0 = input[0] as i64 + input[3] as i64;
    let step1 = input[1] as i64 + input[2] as i64;
    let step2 = input[1] as i64 - input[2] as i64;
    let step3 = input[0] as i64 - input[3] as i64;
    let temp1 = (step0 + step1) * COSPI_16_64;
    let temp2 = (step0 - step1) * COSPI_16_64;
    let o0 = fdct_round_shift(temp1);
    let o2 = fdct_round_shift(temp2);
    let temp1 = step2 * COSPI_24_64 + step3 * COSPI_8_64;
    let temp2 = -step2 * COSPI_8_64 + step3 * COSPI_24_64;
    let o1 = fdct_round_shift(temp1);
    let o3 = fdct_round_shift(temp2);
    *output = [o0, o1, o2, o3];
    assert(output@ =~= spec_fdct4(input@)) by {
        reveal(spec_fdct4);
    }
}

/// 1-D forward ADST4 (libvpx `fadst4`); an all-zero input gives zeros.
#[verifier::opaque]
pub open spec fn spec_fadst4(x: Seq<i32>) -> Seq<i32> {
    if x[0] == 0 && x[1] == 0 && x[2] == 0 && x[3] == 0 {
        seq![0i32, 0i32, 0i32, 0i32]
    } else {
        let s0 = SINPI_1_9 * x[0];
        let s1 = SINPI_4_9 * x[0];
        let s2 = SINPI_2_9 * x[1];
        let s3 = SINPI_1_9 * x[1];
        let s4 = SINPI_3_9 * x[2];
        let s5 = SINPI_4_9 * x[3];
        let s6 = SINPI_2_9 * x[3];
        let s7 = x[0] + x[1] - x[3];
        let x0 = s0 + s2 + s5;
        let x1 = SINPI_3_9 * s7;
        let x2 = s1 - s3 + s6;
        let x3 = s4;
        seq![
            wrap_low(dct_round(x0 + x3) as int),
            wrap_low(dct_round(x1) as int),
            wrap_low(dct_round(x2 - x3) as int),
            wrap_low(dct_round(x2 - x0 + x3) as int),
        ]
    }
}

/// 1-D forward ADST4.
pub fn fadst4(input: &[i32; 4], output: &mut [i32; 4])
    ensures
        final(output)@ == spec_fadst4(input@),
{
    let x0 = input[0] as i64;
    let x1 = input[1] as i64;
    let x2 = input[2] as i64;
    let x3 = input[3] as i64;
    if x0 == 0 && x1 == 0 && x2 == 0 && x3 == 0 {
        *output = [0; 4];
        assert(output@ =~= spec_fadst4(input@)) by {
        reveal(spec_fadst4);
    }
        return;
    }
    let s0 = SINPI_1_9 * x0;
    let s1 = SINPI_4_9 * x0;
    let s2 = SINPI_2_9 * x1;
    let s3 = SINPI_1_9 * x1;
    let s4 = SINPI_3_9 * x2;
    let s5 = SINPI_4_9 * x3;
    let s6 = SINPI_2_9 * x3;
    let s7 = x0 + x1 - x3;
    let x0 = s0 + s2 + s5;
    let x1 = SINPI_3_9 * s7;
    let x2 = s1 - s3 + s6;
    let x3 = s4;
    let s0 = x0 + x3;
    let s1 = x1;
    let s2 = x2 - x3;
    let s3 = x2 - x0 + x3;
    *output = [
        wraplow(fdct_round_shift(s0)),
        wraplow(fdct_round_shift(s1)),
        wraplow(fdct_round_shift(s2)),
        wraplow(fdct_round_shift(s3)),
    ];
    assert(output@ =~= spec_fadst4(input@)) by {
        reveal(spec_fadst4);
    }
}

/// The forward 4-point transform of one column or row.
pub open spec fn spec_fwd4(adst: bool, x: Seq<i32>) -> Seq<i32> {
    if adst {
        spec_fadst4(x)
    } else {
        spec_fdct4(x)
    }
}

fn fwd4(adst: bool, input: &[i32; 4], output: &mut [i32; 4])
    ensures
        final(output)@ == spec_fwd4(adst, input@),
{
    if adst {
        fadst4(input, output);
    } else {
        fdct4(input, output);
    }
}

/// Column `i` of a 4×4 residual as fed to the vertical transform: scaled by
/// 16, with the DC input nudged up by one when nonzero.
pub open spec fn fht4_col_in(input: Seq<i16>, i: int) -> Seq<i32> {
    Seq::new(4, |j: int| {
        let v = input[j * 4 + i] as int * 16;
        (if i == 0 && j == 0 && v != 0 {
            v + 1
        } else {
            v
        }) as i32
    })
}

/// The 4×4 block after the vertical pass (row-major).
pub open spec fn fht4_mid(input: Seq<i16>, tx: TxType) -> Seq<i32> {
    Seq::new(16, |k: int| spec_fwd4(col_is_adst(tx), fht4_col_in(input, k % 4))[k / 4])
}

/// Forward 4×4 hybrid transform (`vp9_fht4x4_c`): vertical 1-D transforms,
/// then horizontal ones, each output then `(v + 1) >> 2`.
pub open spec fn spec_fht4x4(input: Seq<i16>, tx: TxType) -> Seq<i32> {
    let mid = fht4_mid(input, tx);
    Seq::new(16, |k: int| {
        let row = spec_fwd4(row_is_adst(tx), mid.subrange(k / 4 * 4, k / 4 * 4 + 4));
        ((row[k % 4] as int + 1) / 4) as i32
    })
}

/// Forward 4×4 hybrid transform of a row-major residual block.
pub fn fht4x4(input: &[i16; 16], output: &mut [i32; 16], tx_type: TxType)
    ensures
        final(output)@ == spec_fht4x4(input@, tx_type),
{
    let col_adst = tx_type == TxType::AdstDct || tx_type == TxType::AdstAdst;
    let row_adst = tx_type == TxType::DctAdst || tx_type == TxType::AdstAdst;
    let ghost mid = fht4_mid(input@, tx_type);
    let mut out = [0i32; 16];
    let mut i: usize = 0;
    while i < 4
        invariant
            i <= 4,
            col_adst == col_is_adst(tx_type),
            mid == fht4_mid(input@, tx_type),
            forall|k: int| 0 <= k < 16 && k % 4 < i ==> #[trigger] out@[k] == mid[k],
        decreases 4 - i,
    {
        let mut temp_in = [
            input[i] as i32 * 16,
            input[4 + i] as i32 * 16,
            input[8 + i] as i32 * 16,
            input[12 + i] as i32 * 16,
        ];
        if i == 0 && temp_in[0] != 0 {
            temp_in[0] = temp_in[0] + 1;
        }
        assert(temp_in@ =~= fht4_col_in(input@, i as int));
        let mut temp_out = [0i32; 4];
        fwd4(col_adst, &temp_in, &mut temp_out);
        out[i] = temp_out[0];
        out[4 + i] = temp_out[1];
        out[8 + i] = temp_out[2];
        out[12 + i] = temp_out[3];
        assert forall|k: int| 0 <= k < 16 && k % 4 < i + 1 implies #[trigger] out@[k] == mid[k] by {
            if k % 4 == i {
                assert(k == (k / 4) * 4 + i);
            }
        }
        i += 1;
    }
    assert(out@ =~= mid) by {
        assert forall|k: int| 0 <= k < 16 implies out@[k] == mid[k] by {
            assert(k % 4 < 4);
        }
    }
    let mut i: usize = 0;
    while i < 4
        invariant
            i <= 4,
            row_adst == row_is_adst(tx_type),
            out@ == fht4_mid(input@, tx_type),
            forall|k: int| 0 <= k < 4 * i ==> #[trigger] output@[k] == spec_fht4x4(input@, tx_type)[k],
        decreases 4 - i,
    {
        let temp_in = [out[i * 4], out[i * 4 + 1], out[i * 4 + 2], out[i * 4 + 3]];
        assert(temp_in@ =~= out@.subrange(i * 4, i * 4 + 4));
        let mut temp_out = [0i32; 4];
        fwd4(row_adst, &temp_in, &mut temp_out);
        let mut j: usize = 0;
        while j < 4
            invariant
                i < 4,
                j <= 4,
                temp_out@ == spec_fwd4(row_is_adst(tx_type), out@.subrange(i * 4, i * 4 + 4)),
                out@ == fht4_mid(input@, tx_type),
                forall|k: int| 0 <= k < 4 * i + j ==> #[trigger] output@[k] == spec_fht4x4(input@, tx_type)[k],
            decreases 4 - j,
        {
            let v = temp_out[j];
            output[i * 4 + j] = half_round_shift(v);
            proof {
                let k = (i * 4 + j) as int;
                assert(k / 4 == i && k % 4 == j);
                assert(spec_fht4x4(input@, tx_type)[k] == ((temp_out@[j as int] as int + 1) / 4) as i32);
            }
            j += 1;
        }
        i += 1;
    }
    assert(output@ =~= spec_fht4x4(input@, tx_type));
}

/// Forward 4×4 DCT (`vpx_fdct4x4_c`).
pub fn fdct4x4(input: &[i16; 16], output: &mut [i32; 16])
    ensures
        final(output)@ == spec_fht4x4(input@, TxType::DctDct),
{
    fht4x4(input, output, TxType::DctDct);
}

/// An input coefficient of an inverse transform, wrapped to 16 bits.
pub open spec fn in16(v: i32) -> int {
    (v as i16) as int
}

/// 1-D inverse DCT4 (libvpx `idct4_c`).
#[verifier::opaque]
pub open spec fn spec_idct4(x: Seq<i32>) -> Seq<i32> {
    let i0 = in16(x[0]);
    let i1 = in16(x[1]);
    let i2 = in16(x[2]);
    let i3 = in16(x[3]);
    let step0 = wrap_low(dct_round((i0 + i2) * COSPI_16_64) as int) as int;
    let step1 = wrap_low(dct_round((i0 - i2) * COSPI_16_64) as int) as int;
    let step2 = wrap_low(dct_round(i1 * COSPI_24_64 - i3 * COSPI_8_64) as int) as int;
    let step3 = wrap_low(dct_round(i1 * COSPI_8_64 + i3 * COSPI_24_64) as int) as int;
    seq![
        wrap_low(step0 + step3),
        wrap_low(step1 + step2),
        wrap_low(step1 - step2),
        wrap_low(step0 - step3),
    ]
}

/// 1-D inverse DCT4.
pub fn idct4(input: &[i32; 4], output: &mut [i32; 4])
    ensures
        final(output)@ == spec_idct4(input@),
{
    let i0 = input[0] as i16 as i64;
    let i1 = input[1] as i16 as i64;
    let i2 = input[2] as i16 as i64;
    let i3 = input[3] as i16 as i64;
    let temp1 = (i0 + i2) * COSPI_16_64;
    let temp2 = (i0 - i2) * COSPI_16_64;
    let step0 = wraplow(dct_const_round_shift(temp1));
    let step1 = wraplow(dct_const_round_shift(temp2));
    let temp1 = i1 * COSPI_24_64 - i3 * COSPI_8_64;
    let temp2 = i1 * COSPI_8_64 + i3 * COSPI_24_64;
    let step2 = wraplow(dct_const_round_shift(temp1));
    let step3 = wraplow(dct_const_round_shift(temp2));
    *output = [
        wraplow(step0 + step3),
        wraplow(step1 + step2),
        wraplow(step1 - step2),
        wraplow(step0 - step3),
    ];
    assert(output@ =~= spec_idct4(input@)) by {
        reveal(spec_idct4);
    }
}

/// 1-D inverse ADST4 (libvpx `iadst4_c`); an all-zero input gives zeros.
#[verifier::opaque]
pub open spec fn spec_iadst4(x: Seq<i32>) -> Seq<i32> {
    let x0 = in16(x[0]);
    let x1 = in16(x[1]);
    let x2 = in16(x[2]);
    let x3 = in16(x[3]);
    if x0 == 0 && x1 == 0 && x2 == 0 && x3 == 0 {
        seq![0i32, 0i32, 0i32, 0i32]
    } else {
        let s0 = SINPI_1_9 * x0;
        let s1 = SINPI_2_9 * x0;
        let s2 = SINPI_3_9 * x1;
        let s3 = SINPI_4_9 * x2;
        let s4 = SINPI_1_9 * x2;
        let s5 = SINPI_2_9 * x3;
        let s6 = SINPI_4_9 * x3;
        let s7 = wrap_low(x0 - x2 + x3) as int;
        let t0 = s0 + s3 + s5;
        let t1 = s1 - s4 - s6;
        let t3 = s2;
        let t2 = SINPI_3_9 * s7;
        seq![
            wrap_low(dct_round(t0 + t3) as int),
            wrap_low(dct_round(t1 + t3) as int),
            wrap_low(dct_round(t2) as int),
            wrap_low(dct_round(t0 + t1 - t3) as int),
        ]
    }
}

/// 1-D inverse ADST4.
pub fn iadst4(input: &[i32; 4], output: &mut [i32; 4])
    ensures
        final(output)@ == spec_iadst4(input@),
{
    let x0 = input[0] as i16 as i32;
    let x1 = input[1] as i16 as i32;
    let x2 = input[2] as i16 as i32;
    let x3 = input[3] as i16 as i32;
    if x0 == 0 && x1 == 0 && x2 == 0 && x3 == 0 {
        *output = [0; 4];
        assert(output@ =~= spec_iadst4(input@)) by {
        reveal(spec_iadst4);
    }
        return;
    }
    let s0 = SINPI_1_9 * x0 as i64;
    let s1 = SINPI_2_9 * x0 as i64;
    let s2 = SINPI_3_9 * x1 as i64;
    let s3 = SINPI_4_9 * x2 as i64;
    let s4 = SINPI_1_9 * x2 as i64;
    let s5 = SINPI_2_9 * x3 as i64;
    let s6 = SINPI_4_9 * x3 as i64;
    let s7 = wraplow(x0 - x2 + x3) as i64;
    let s0 = s0 + s3 + s5;
    let s1 = s1 - s4 - s6;
    let s3 = s2;
    let s2 = SINPI_3_9 * s7;
    *output = [
        wraplow(dct_const_round_shift(s0 + s3)),
        wraplow(dct_const_round_shift(s1 + s3)),
        wraplow(dct_const_round_shift(s2)),
        wraplow(dct_const_round_shift(s0 + s1 - s3)),
    ];
    assert(output@ =~= spec_iadst4(input@)) by {
        reveal(spec_iadst4);
    }
}

/// `clip_pixel`: clamp into `[0, 255]`.
pub open spec fn spec_clip_pixel(v: int) -> u8 {
    (if v < 0 {
        0
    } else if v > 255 {
        255
    } else {
        v
    }) as u8
}

/// `clip_pixel_add`: add a 16-bit-wrapped residual to a pixel and clamp.
pub open spec fn spec_clip_pixel_add(dest: u8, trans: i32) -> u8 {
    spec_clip_pixel(dest as int + wrap_low(trans as int) as int)
}

/// Clamp into `[0, 255]`.
pub fn clip_pixel(val: i32) -> (r: u8)
    ensures
        r == spec_clip_pixel(val as int),
{
    if val < 0 {
        0
    } else if val > 255 {
        255
    } else {
        val as u8
    }
}

/// Add a residual to a pixel with clamping.
pub fn clip_pixel_add(dest: u8, trans: i32) -> (r: u8)
    ensures
        r == spec_clip_pixel_add(dest, trans),
{
    clip_pixel(dest as i32 + wraplow(trans))
}

/// A 1-D inverse transform.
#[derive(Clone, Copy, PartialEq, Eq, Structural)]
pub enum Inv1d {
    Idct4,
    Iadst4,
    Idct8,
    Idct16,
    Idct32,
}

/// Its length.
pub open spec fn inv1d_len(k: Inv1d) -> nat {
    match k {
        Inv1d::Idct4 => 4,
        Inv1d::Iadst4 => 4,
        Inv1d::Idct8 => 8,
        Inv1d::Idct16 => 16,
        Inv1d::Idct32 => 32,
    }
}

/// Its output on `x`.
pub open spec fn spec_inv1d(k: Inv1d, x: Seq<i32>) -> Seq<i32> {
    match k {
        Inv1d::Idct4 => spec_idct4(x),
        Inv1d::Iadst4 => spec_iadst4(x),
        Inv1d::Idct8 => spec_idct8(x),
        Inv1d::Idct16 => spec_idct16(x),
        Inv1d::Idct32 => spec_idct32(x),
    }
}

proof fn lemma_inv1d_len(k: Inv1d, x: Seq<i32>)
    requires
        x.len() == inv1d_len(k),
    ensures
        spec_inv1d(k, x).len() == inv1d_len(k),
{
    reveal(spec_idct4);
    reveal(spec_iadst4);
    reveal(idct8_s4);
    reveal(idct16_s7);
    reveal(idct32_s8);
}

fn copy_to_vec(a: &[i32]) -> (v: Vec<i32>)
    ensures
        v@ == a@,
{
    let mut v: Vec<i32> = Vec::new();
    let mut k: usize = 0;
    while k < a.len()
        invariant
            k <= a@.len(),
            v@ == a@.subrange(0, k as int),
        decreases a@.len() - k,
    {
        v.push(a[k]);
        assert(v@ =~= a@.subrange(0, k + 1));
        k += 1;
    }
    assert(v@ =~= a@);
    v
}

fn all_zero(v: &[i32]) -> (b: bool)
    ensures
        b == (v@ == zeros(v@.len())),
{
    let mut k: usize = 0;
    while k < v.len()
        invariant
            k <= v@.len(),
            forall|j: int| 0 <= j < k ==> #[trigger] v@[j] == 0,
        decreases v@.len() - k,
    {
        if v[k] != 0 {
            assert(v@[k as int] != zeros(v@.len())[k as int]);
            return false;
        }
        k += 1;
    }
    assert(v@ =~= zeros(v@.len()));
    true
}

fn copy_into(src: &[i32], dst: &mut [i32])
    requires
        src@.len() == old(dst)@.len(),
    ensures
        final(dst)@ == src@,
{
    let n = src.len();
    let mut k: usize = 0;
    while k < n
        invariant
            k <= n,
            n == src@.len(),
            dst@.len() == n,
            forall|j: int| 0 <= j < k ==> #[trigger] dst@[j] == src@[j],
        decreases n - k,
    {
        dst[k] = src[k];
        k += 1;
    }
    assert(dst@ =~= src@);
}

fn inv1d(k: Inv1d, input: &[i32]) -> (out: Vec<i32>)
    requires
        input@.len() == inv1d_len(k),
    ensures
        out@ == spec_inv1d(k, input@),
{
    match k {
        Inv1d::Idct4 => {
            let a = [input[0], input[1], input[2], input[3]];
            assert(a@ =~= input@);
            let mut o = [0i32; 4];
            idct4(&a, &mut o);
            copy_to_vec(&o)
        },
        Inv1d::Iadst4 => {
            let a = [input[0], input[1], input[2], input[3]];
            assert(a@ =~= input@);
            let mut o = [0i32; 4];
            iadst4(&a, &mut o);
            copy_to_vec(&o)
        },
        Inv1d::Idct8 => {
            let mut a = [0i32; 8];
            copy_into(input, &mut a);
            let mut o = [0i32; 8];
            idct8(&a, &mut o);
            copy_to_vec(&o)
        },
        Inv1d::Idct16 => {
            let mut a = [0i32; 16];
            copy_into(input, &mut a);
            let mut o = [0i32; 16];
            idct16(&a, &mut o);
            copy_to_vec(&o)
        },
        Inv1d::Idct32 => {
            let mut a = [0i32; 32];
            copy_into(input, &mut a);
            let mut o = [0i32; 32];
            idct32(&a, &mut o);
            copy_to_vec(&o)
        },
    }
}

/// The block after the row (horizontal) pass, row-major `n × n`.
pub open spec fn inv_rows(input: Seq<i32>, n: int, rk: Inv1d) -> Seq<i32> {
    Seq::new((n * n) as nat, |k: int| spec_inv1d(rk, input.subrange(k / n * n, k / n * n + n))[k % n])
}

/// Column `i` after the column (vertical) pass.
pub open spec fn inv_col(mid: Seq<i32>, n: int, ck: Inv1d, i: int) -> Seq<i32> {
    spec_inv1d(ck, Seq::new(n as nat, |j: int| mid[j * n + i]))
}

/// The residual of a 2-D inverse transform (rows, then columns, then
/// `round_power_of_two(., shift)`), row-major `n × n`.
pub open spec fn spec_inverse_residual(input: Seq<i32>, n: int, rk: Inv1d, ck: Inv1d, shift: nat) -> Seq<i32> {
    let mid = inv_rows(input, n, rk);
    Seq::new((n * n) as nat, |k: int| round_pow2(inv_col(mid, n, ck, k % n)[k / n] as int, shift) as i32)
}

/// Position `k` of a plane with the given stride lies in the top-left
/// `n × n` block.
pub open spec fn in_block(k: int, stride: int, n: int) -> bool {
    k / stride < n && k % stride < n
}

/// `dest` with the `n × n` residual `res` added (clamped) at its top-left.
pub open spec fn spec_add_block(dest: Seq<u8>, stride: int, n: int, res: Seq<i32>) -> Seq<u8> {
    Seq::new(dest.len(), |k: int| if in_block(k, stride, n) {
        spec_clip_pixel_add(dest[k], res[(k / stride) * n + k % stride])
    } else {
        dest[k]
    })
}

proof fn lemma_block_pos(j: int, i: int, stride: int, n: int)
    requires
        0 <= j < n,
        0 <= i < n,
        n <= stride,
    ensures
        (j * stride + i) / stride == j,
        (j * stride + i) % stride == i,
        j * stride + i <= (n - 1) * stride + n - 1,
        j * n + i < n * n,
        0 <= j * n + i,
{
    assert((j * stride + i) / stride == j && (j * stride + i) % stride == i) by (nonlinear_arith)
        requires
            0 <= i < stride,
            0 <= j,
    ;
    assert(j * stride + i <= (n - 1) * stride + n - 1) by (nonlinear_arith)
        requires
            0 <= j < n,
            0 <= i < n,
            0 <= stride,
    ;
    assert(j * n + i < n * n && 0 <= j * n + i) by (nonlinear_arith)
        requires
            0 <= j < n,
            0 <= i < n,
    ;
}

/// Apply a 2-D inverse transform (rows, then columns) to `input` and add the
/// residual, rounded by `shift` bits, into the top-left `n × n` block of
/// `dest`.
pub(crate) fn inverse_add(input: &[i32], dest: &mut [u8], stride: usize, n: usize, rk: Inv1d, ck: Inv1d, shift: u32)
    requires
        n <= 32,
        n == inv1d_len(rk),
        n == inv1d_len(ck),
        input@.len() == n * n,
        stride >= n,
        (n - 1) * stride + n <= old(dest)@.len(),
        4 <= shift <= 6,
    ensures
        final(dest)@ == spec_add_block(
            old(dest)@,
            stride as int,
            n as int,
            spec_inverse_residual(input@, n as int, rk, ck, shift as nat),
        ),
{
    let ghost mid_spec = inv_rows(input@, n as int, rk);
    let mut mid: Vec<i32> = Vec::new();
    let mut i: usize = 0;
    while i < n
        invariant
            n == inv1d_len(rk),
            input@.len() == n * n,
            n <= 32,
            i <= n,
            mid@.len() == i * n,
            mid_spec == inv_rows(input@, n as int, rk),
            forall|k: int| 0 <= k < i * n ==> #[trigger] mid@[k] == mid_spec[k],
        decreases n - i,
    {
        proof {
            assert((i + 1) * n <= n * n) by (nonlinear_arith)
                requires
                    i < n,
            ;
            assert((i + 1) * n == i * n + n) by (nonlinear_arith);
        }
        let mut row: Vec<i32> = Vec::new();
        let mut c: usize = 0;
        while c < n
            invariant
                i < n,
                c <= n,
                n <= 32,
                input@.len() == n * n,
                (i + 1) * n <= n * n,
                (i + 1) * n == i * n + n,
                row@ == input@.subrange((i * n) as int, (i * n + c) as int),
            decreases n - c,
        {
            assert(i * n + c < n * n) by (nonlinear_arith)
                requires
                    i < n,
                    c < n,
            ;
            assert(n * n <= 1024) by (nonlinear_arith)
                requires
                    n <= 32,
            ;
            row.push(input[i * n + c]);
            assert(row@ =~= input@.subrange((i * n) as int, (i * n + c + 1) as int));
            c += 1;
        }
        let out = if rk == Inv1d::Idct32 && all_zero(row.as_slice()) {
            proof {
                lemma_idct32_zero();
                assert(row@ =~= zeros(32));
            }
            let z: Vec<i32> = vec![0i32; 32];
            assert(z@ =~= zeros(32));
            z
        } else {
            inv1d(rk, row.as_slice())
        };
        proof {
            lemma_inv1d_len(rk, row@);
        }
        let mut c: usize = 0;
        while c < n
            invariant
                i < n,
                c <= n,
                n == inv1d_len(rk),
                input@.len() == n * n,
                out@ == spec_inv1d(rk, input@.subrange((i * n) as int, (i * n + n) as int)),
                out@.len() == n,
                mid@.len() == i * n + c,
                mid_spec == inv_rows(input@, n as int, rk),
                forall|k: int| 0 <= k < i * n + c ==> #[trigger] mid@[k] == mid_spec[k],
            decreases n - c,
        {
            proof {
                let k = (i * n + c) as int;
                lemma_block_pos(i as int, c as int, n as int, n as int);
                assert(k / (n as int) == i && k % (n as int) == c);
                assert(mid_spec[k] == out@[c as int]);
            }
            mid.push(out[c]);
            c += 1;
        }
        i += 1;
    }
    let ghost res = spec_inverse_residual(input@, n as int, rk, ck, shift as nat);
    let ghost d0 = dest@;
    let dlen = dest.len();
    let mut i: usize = 0;
    while i < n
        invariant
            n == inv1d_len(ck),
            n <= 32,
            dlen == d0.len(),
            i <= n,
            stride >= n,
            (n - 1) * stride + n <= d0.len(),
            dest@.len() == d0.len(),
            4 <= shift <= 6,
            mid@.len() == n * n,
            forall|k: int| 0 <= k < n * n ==> #[trigger] mid@[k] == mid_spec[k],
            mid_spec == inv_rows(input@, n as int, rk),
            res == spec_inverse_residual(input@, n as int, rk, ck, shift as nat),
            forall|k: int| 0 <= k < d0.len() ==> #[trigger] dest@[k] == (if in_block(k, stride as int, n as int) && k % (stride as int) < i {
                spec_clip_pixel_add(d0[k], res[(k / (stride as int)) * n + k % (stride as int)])
            } else {
                d0[k]
            }),
        decreases n - i,
    {
        let mut col: Vec<i32> = Vec::new();
        let mut j: usize = 0;
        while j < n
            invariant
                i < n,
                j <= n,
                n <= 32,
                mid@.len() == n * n,
                forall|k: int| 0 <= k < n * n ==> #[trigger] mid@[k] == mid_spec[k],
                col@ == Seq::new(j as nat, |r: int| mid_spec[r * n + i]),
            decreases n - j,
        {
            proof {
                lemma_block_pos(j as int, i as int, n as int, n as int);
                assert(n * n <= 1024) by (nonlinear_arith)
                    requires
                        n <= 32,
                ;
            }
            col.push(mid[j * n + i]);
            assert(col@ =~= Seq::new((j + 1) as nat, |r: int| mid_spec[r * n + i]));
            j += 1;
        }
        let out = inv1d(ck, col.as_slice());
        proof {
            lemma_inv1d_len(ck, col@);
            assert(out@ == inv_col(mid_spec, n as int, ck, i as int));
        }
        let mut j: usize = 0;
        while j < n
            invariant
                i < n,
                j <= n,
                n <= 32,
                dlen == d0.len(),
                stride >= n,
                (n - 1) * stride + n <= d0.len(),
                dest@.len() == d0.len(),
                4 <= shift <= 6,
                out@ == inv_col(mid_spec, n as int, ck, i as int),
                out@.len() == n,
                mid_spec == inv_rows(input@, n as int, rk),
                res == spec_inverse_residual(input@, n as int, rk, ck, shift as nat),
                forall|k: int| 0 <= k < d0.len() ==> #[trigger] dest@[k] == (if in_block(k, stride as int, n as int) && (k % (stride as int) < i || (k % (stride as int) == i && k / (stride as int) < j)) {
                    spec_clip_pixel_add(d0[k], res[(k / (stride as int)) * n + k % (stride as int)])
                } else {
                    d0[k]
                }),
            decreases n - j,
        {
            proof {
                lemma_block_pos(j as int, i as int, stride as int, n as int);
            }
            let idx = j * stride + i;
            let add = round_power_of_two(out[j] as i64, shift) as i32;
            let ghost before = dest@;
            dest[idx] = clip_pixel_add(dest[idx], add);
            proof {
                let jj = j as int;
                let ii = i as int;
                lemma_block_pos(jj, ii, n as int, n as int);
                assert(res[jj * n + ii] == add) by {
                    let kk = jj * n + ii;
                    assert(kk / (n as int) == jj && kk % (n as int) == ii);
                    assert(0 <= kk < n * n);
                    assert(res[kk] == round_pow2(inv_col(mid_spec, n as int, ck, ii)[jj] as int, shift as nat) as i32);
                    assert(out@[jj] == inv_col(mid_spec, n as int, ck, ii)[jj]);
                }
                assert(before[idx as int] == d0[idx as int]);
                assert forall|k: int| 0 <= k < d0.len() implies #[trigger] dest@[k] == (if in_block(k, stride as int, n as int) && (k % (stride as int) < i || (k % (stride as int) == i && k / (stride as int) < j + 1)) {
                    spec_clip_pixel_add(d0[k], res[(k / (stride as int)) * n + k % (stride as int)])
                } else {
                    d0[k]
                }) by {
                    if k == idx as int {
                    } else {
                        assert(before[k] == dest@[k]);
                        if in_block(k, stride as int, n as int) && k % (stride as int) == i && k / (stride as int) == j {
                            assert(k == (k / (stride as int)) * (stride as int) + k % (stride as int)) by (nonlinear_arith)
                                requires
                                    stride > 0,
                            ;
                        }
                    }
                }
            }
            j += 1;
        }
        i += 1;
    }
    assert(dest@ =~= spec_add_block(d0, stride as int, n as int, res));
}

/// The 1-D inverse transform of a row or column of a 4×4 hybrid block.
pub open spec fn inv4_kind(adst: bool) -> Inv1d {
    if adst {
        Inv1d::Iadst4
    } else {
        Inv1d::Idct4
    }
}

/// Inverse 4×4 hybrid transform and add (`vp9_iht4x4_16_add_c`): rows
/// first, then columns, residual rounded by 4 bits.
pub fn iht4x4_add(input: &[i32; 16], dest: &mut [u8], stride: usize, tx_type: TxType)
    requires
        old(dest)@.len() >= 3 * stride + 4,
        stride >= 4,
    ensures
        final(dest)@ == spec_add_block(
            old(dest)@,
            stride as int,
            4,
            spec_inverse_residual(input@, 4, inv4_kind(row_is_adst(tx_type)), inv4_kind(col_is_adst(tx_type)), 4),
        ),
{
    let row_kind = if tx_type == TxType::DctAdst || tx_type == TxType::AdstAdst {
        Inv1d::Iadst4
    } else {
        Inv1d::Idct4
    };
    let col_kind = if tx_type == TxType::AdstDct || tx_type == TxType::AdstAdst {
        Inv1d::Iadst4
    } else {
        Inv1d::Idct4
    };
    inverse_add(input, dest, stride, 4, row_kind, col_kind, 4);
}

/// Inverse 4×4 DCT and add (`vpx_idct4x4_16_add_c`).
pub fn idct4x4_add(input: &[i32; 16], dest: &mut [u8], stride: usize)
    requires
        old(dest)@.len() >= 3 * stride + 4,
        stride >= 4,
    ensures
        final(dest)@ == spec_add_block(
            old(dest)@,
            stride as int,
            4,
            spec_inverse_residual(input@, 4, Inv1d::Idct4, Inv1d::Idct4, 4),
        ),
{
    iht4x4_add(input, dest, stride, TxType::DctDct);
}

/// Every entry fits in 16 bits (the state between inverse-transform stages).
pub open spec fn wrapped16(s: Seq<i32>) -> bool {
    forall|k: int| 0 <= k < s.len() ==> -32768 <= #[trigger] s[k] <= 32767
}

/// Stage 1 of the 1-D inverse DCT8.
#[verifier::opaque]
pub open spec fn idct8_s1(s: Seq<i32>) -> Seq<i32> {
    seq![
        (s[0] as i16) as i32,
        (s[2] as i16) as i32,
        (s[4] as i16) as i32,
        (s[6] as i16) as i32,
        wrap_low(dct_round(s[1] as i16 * COSPI_28_64 - s[7] as i16 * COSPI_4_64) as int),
        wrap_low(dct_round(s[5] as i16 * COSPI_12_64 - s[3] as i16 * COSPI_20_64) as int),
        wrap_low(dct_round(s[5] as i16 * COSPI_20_64 + s[3] as i16 * COSPI_12_64) as int),
        wrap_low(dct_round(s[1] as i16 * COSPI_4_64 + s[7] as i16 * COSPI_28_64) as int),
    ]
}

fn idct8_stage1(s: &[i32; 8]) -> (r: [i32; 8])
    ensures
        r@ == idct8_s1(s@),
        wrapped16(r@),
{
    let r = [
        s[0] as i16 as i32,
        s[2] as i16 as i32,
        s[4] as i16 as i32,
        s[6] as i16 as i32,
        wraplow(dct_const_round_shift(s[1] as i16 as i64 * COSPI_28_64 - s[7] as i16 as i64 * COSPI_4_64)),
        wraplow(dct_const_round_shift(s[5] as i16 as i64 * COSPI_12_64 - s[3] as i16 as i64 * COSPI_20_64)),
        wraplow(dct_const_round_shift(s[5] as i16 as i64 * COSPI_20_64 + s[3] as i16 as i64 * COSPI_12_64)),
        wraplow(dct_const_round_shift(s[1] as i16 as i64 * COSPI_4_64 + s[7] as i16 as i64 * COSPI_28_64)),
    ];
    assert(r@ =~= idct8_s1(s@)) by {
        reveal(idct8_s1);
    }
    r
}

/// Stage 2 of the 1-D inverse DCT8.
#[verifier::opaque]
pub open spec fn idct8_s2(s: Seq<i32>) -> Seq<i32> {
    seq![
        wrap_low(dct_round((s[0] + s[2]) * COSPI_16_64) as int),
        wrap_low(dct_round((s[0] - s[2]) * COSPI_16_64) as int),
        wrap_low(dct_round(s[1] * COSPI_24_64 - s[3] * COSPI_8_64) as int),
        wrap_low(dct_round(s[1] * COSPI_8_64 + s[3] * COSPI_24_64) as int),
        wrap_low(s[4] + s[5]),
        wrap_low(s[4] - s[5]),
        wrap_low(-s[6] + s[7]),
        wrap_low(s[6] + s[7]),
    ]
}

fn idct8_stage2(s: &[i32; 8]) -> (r: [i32; 8])
    requires
        wrapped16(s@),
    ensures
        r@ == idct8_s2(s@),
        wrapped16(r@),
{
    let r = [
        wraplow(dct_const_round_shift((s[0] as i64 + s[2] as i64) * COSPI_16_64)),
        wraplow(dct_const_round_shift((s[0] as i64 - s[2] as i64) * COSPI_16_64)),
        wraplow(dct_const_round_shift(s[1] as i64 * COSPI_24_64 - s[3] as i64 * COSPI_8_64)),
        wraplow(dct_const_round_shift(s[1] as i64 * COSPI_8_64 + s[3] as i64 * COSPI_24_64)),
        wraplow(s[4] + s[5]),
        wraplow(s[4] - s[5]),
        wraplow(-s[6] + s[7]),
        wraplow(s[6] + s[7]),
    ];
    assert(r@ =~= idct8_s2(s@)) by {
        reveal(idct8_s2);
    }
    r
}

/// Stage 3 of the 1-D inverse DCT8.
#[verifier::opaque]
pub open spec fn idct8_s3(s: Seq<i32>) -> Seq<i32> {
    seq![
        wrap_low(s[0] + s[3]),
        wrap_low(s[1] + s[2]),
        wrap_low(s[1] - s[2]),
        wrap_low(s[0] - s[3]),
        s[4],
        wrap_low(dct_round((s[6] - s[5]) * COSPI_16_64) as int),
        wrap_low(dct_round((s[5] + s[6]) * COSPI_16_64) as int),
        s[7],
    ]
}

fn idct8_stage3(s: &[i32; 8]) -> (r: [i32; 8])
    requires
        wrapped16(s@),
    ensures
        r@ == idct8_s3(s@),
        wrapped16(r@),
{
    let r = [
        wraplow(s[0] + s[3]),
        wraplow(s[1] + s[2]),
        wraplow(s[1] - s[2]),
        wraplow(s[0] - s[3]),
        s[4],
        wraplow(dct_const_round_shift((s[6] as i64 - s[5] as i64) * COSPI_16_64)),
        wraplow(dct_const_round_shift((s[5] as i64 + s[6] as i64) * COSPI_16_64)),
        s[7],
    ];
    assert(r@ =~= idct8_s3(s@)) by {
        reveal(idct8_s3);
    }
    r
}

/// Stage 4 of the 1-D inverse DCT8.
#[verifier::opaque]
pub open spec fn idct8_s4(s: Seq<i32>) -> Seq<i32> {
    seq![
        wrap_low(s[0] + s[7]),
        wrap_low(s[1] + s[6]),
        wrap_low(s[2] + s[5]),
        wrap_low(s[3] + s[4]),
        wrap_low(s[3] - s[4]),
        wrap_low(s[2] - s[5]),
        wrap_low(s[1] - s[6]),
        wrap_low(s[0] - s[7]),
    ]
}

fn idct8_stage4(s: &[i32; 8]) -> (r: [i32; 8])
    requires
        wrapped16(s@),
    ensures
        r@ == idct8_s4(s@),
        wrapped16(r@),
{
    let r = [
        wraplow(s[0] + s[7]),
        wraplow(s[1] + s[6]),
        wraplow(s[2] + s[5]),
        wraplow(s[3] + s[4]),
        wraplow(s[3] - s[4]),
        wraplow(s[2] - s[5]),
        wraplow(s[1] - s[6]),
        wraplow(s[0] - s[7]),
    ];
    assert(r@ =~= idct8_s4(s@)) by {
        reveal(idct8_s4);
    }
    r
}

/// 1-D inverse DCT8 (libvpx `idct8_c`): 4 butterfly stages, each wrapped to 16 bits.
pub open spec fn spec_idct8(x: Seq<i32>) -> Seq<i32> {
    let t1 = idct8_s1(x);
    let t2 = idct8_s2(t1);
    let t3 = idct8_s3(t2);
    let t4 = idct8_s4(t3);
    t4
}

/// 1-D inverse DCT8.
pub fn idct8(input: &[i32; 8], output: &mut [i32; 8])
    ensures
        final(output)@ == spec_idct8(input@),
{
    let t1 = idct8_stage1(input);
    let t2 = idct8_stage2(&t1);
    let t3 = idct8_stage3(&t2);
    let t4 = idct8_stage4(&t3);
    *output = t4;
}

/// Stage 1 of the 1-D inverse DCT16.
#[verifier::opaque]
pub open spec fn idct16_s1(s: Seq<i32>) -> Seq<i32> {
    seq![
        (s[0] as i16) as i32,
        (s[8] as i16) as i32,
        (s[4] as i16) as i32,
        (s[12] as i16) as i32,
        (s[2] as i16) as i32,
        (s[10] as i16) as i32,
        (s[6] as i16) as i32,
        (s[14] as i16) as i32,
        (s[1] as i16) as i32,
        (s[9] as i16) as i32,
        (s[5] as i16) as i32,
        (s[13] as i16) as i32,
        (s[3] as i16) as i32,
        (s[11] as i16) as i32,
        (s[7] as i16) as i32,
        (s[15] as i16) as i32,
    ]
}

fn idct16_stage1(s: &[i32; 16]) -> (r: [i32; 16])
    ensures
        r@ == idct16_s1(s@),
        wrapped16(r@),
{
    let r = [
        s[0] as i16 as i32,
        s[8] as i16 as i32,
        s[4] as i16 as i32,
        s[12] as i16 as i32,
        s[2] as i16 as i32,
        s[10] as i16 as i32,
        s[6] as i16 as i32,
        s[14] as i16 as i32,
        s[1] as i16 as i32,
        s[9] as i16 as i32,
        s[5] as i16 as i32,
        s[13] as i16 as i32,
        s[3] as i16 as i32,
        s[11] as i16 as i32,
        s[7] as i16 as i32,
        s[15] as i16 as i32,
    ];
    assert(r@ =~= idct16_s1(s@)) by {
        reveal(idct16_s1);
    }
    r
}

/// Stage 2 of the 1-D inverse DCT16.
#[verifier::opaque]
pub open spec fn idct16_s2(s: Seq<i32>) -> Seq<i32> {
    seq![
        s[0],
        s[1],
        s[2],
        s[3],
        s[4],
        s[5],
        s[6],
        s[7],
        wrap_low(dct_round(s[8] * COSPI_30_64 - s[15] * COSPI_2_64) as int),
        wrap_low(dct_round(s[9] * COSPI_14_64 - s[14] * COSPI_18_64) as int),
        wrap_low(dct_round(s[10] * COSPI_22_64 - s[13] * COSPI_10_64) as int),
        wrap_low(dct_round(s[11] * COSPI_6_64 - s[12] * COSPI_26_64) as int),
        wrap_low(dct_round(s[11] * COSPI_26_64 + s[12] * COSPI_6_64) as int),
        wrap_low(dct_round(s[10] * COSPI_10_64 + s[13] * COSPI_22_64) as int),
        wrap_low(dct_round(s[9] * COSPI_18_64 + s[14] * COSPI_14_64) as int),
        wrap_low(dct_round(s[8] * COSPI_2_64 + s[15] * COSPI_30_64) as int),
    ]
}

fn idct16_stage2(s: &[i32; 16]) -> (r: [i32; 16])
    requires
        wrapped16(s@),
    ensures
        r@ == idct16_s2(s@),
        wrapped16(r@),
{
    let r = [
        s[0],
        s[1],
        s[2],
        s[3],
        s[4],
        s[5],
        s[6],
        s[7],
        wraplow(dct_const_round_shift(s[8] as i64 * COSPI_30_64 - s[15] as i64 * COSPI_2_64)),
        wraplow(dct_const_round_shift(s[9] as i64 * COSPI_14_64 - s[14] as i64 * COSPI_18_64)),
        wraplow(dct_const_round_shift(s[10] as i64 * COSPI_22_64 - s[13] as i64 * COSPI_10_64)),
        wraplow(dct_const_round_shift(s[11] as i64 * COSPI_6_64 - s[12] as i64 * COSPI_26_64)),
        wraplow(dct_const_round_shift(s[11] as i64 * COSPI_26_64 + s[12] as i64 * COSPI_6_64)),
        wraplow(dct_const_round_shift(s[10] as i64 * COSPI_10_64 + s[13] as i64 * COSPI_22_64)),
        wraplow(dct_const_round_shift(s[9] as i64 * COSPI_18_64 + s[14] as i64 * COSPI_14_64)),
        wraplow(dct_const_round_shift(s[8] as i64 * COSPI_2_64 + s[15] as i64 * COSPI_30_64)),
    ];
    assert(r@ =~= idct16_s2(s@)) by {
        reveal(idct16_s2);
    }
    r
}

/// Stage 3 of the 1-D inverse DCT16.
#[verifier::opaque]
pub open spec fn idct16_s3(s: Seq<i32>) -> Seq<i32> {
    seq![
        s[0],
        s[1],
        s[2],
        s[3],
        wrap_low(dct_round(s[4] * COSPI_28_64 - s[7] * COSPI_4_64) as int),
        wrap_low(dct_round(s[5] * COSPI_12_64 - s[6] * COSPI_20_64) as int),
        wrap_low(dct_round(s[5] * COSPI_20_64 + s[6] * COSPI_12_64) as int),
        wrap_low(dct_round(s[4] * COSPI_4_64 + s[7] * COSPI_28_64) as int),
        wrap_low(s[8] + s[9]),
        wrap_low(s[8] - s[9]),
        wrap_low(-s[10] + s[11]),
        wrap_low(s[10] + s[11]),
        wrap_low(s[12] + s[13]),
        wrap_low(s[12] - s[13]),
        wrap_low(-s[14] + s[15]),
        wrap_low(s[14] + s[15]),
    ]
}

fn idct16_stage3(s: &[i32; 16]) -> (r: [i32; 16])
    requires
        wrapped16(s@),
    ensures
        r@ == idct16_s3(s@),
        wrapped16(r@),
{
    let r = [
        s[0],
        s[1],
        s[2],
        s[3],
        wraplow(dct_const_round_shift(s[4] as i64 * COSPI_28_64 - s[7] as i64 * COSPI_4_64)),
        wraplow(dct_const_round_shift(s[5] as i64 * COSPI_12_64 - s[6] as i64 * COSPI_20_64)),
        wraplow(dct_const_round_shift(s[5] as i64 * COSPI_20_64 + s[6] as i64 * COSPI_12_64)),
        wraplow(dct_const_round_shift(s[4] as i64 * COSPI_4_64 + s[7] as i64 * COSPI_28_64)),
        wraplow(s[8] + s[9]),
        wraplow(s[8] - s[9]),
        wraplow(-s[10] + s[11]),
        wraplow(s[10] + s[11]),
        wraplow(s[12] + s[13]),
        wraplow(s[12] - s[13]),
        wraplow(-s[14] + s[15]),
        wraplow(s[14] + s[15]),
    ];
    assert(r@ =~= idct16_s3(s@)) by {
        reveal(idct16_s3);
    }
    r
}

/// Stage 4 of the 1-D inverse DCT16.
#[verifier::opaque]
pub open spec fn idct16_s4(s: Seq<i32>) -> Seq<i32> {
    seq![
        wrap_low(dct_round((s[0] + s[1]) * COSPI_16_64) as int),
        wrap_low(dct_round((s[0] - s[1]) * COSPI_16_64) as int),
        wrap_low(dct_round(s[2] * COSPI_24_64 - s[3] * COSPI_8_64) as int),
        wrap_low(dct_round(s[2] * COSPI_8_64 + s[3] * COSPI_24_64) as int),
        wrap_low(s[4] + s[5]),
        wrap_low(s[4] - s[5]),
        wrap_low(-s[6] + s[7]),
        wrap_low(s[6] + s[7]),
        s[8],
        wrap_low(dct_round(-s[9] * COSPI_8_64 + s[14] * COSPI_24_64) as int),
        wrap_low(dct_round(-s[10] * COSPI_24_64 - s[13] * COSPI_8_64) as int),
        s[11],
        s[12],
        wrap_low(dct_round(-s[10] * COSPI_8_64 + s[13] * COSPI_24_64) as int),
        wrap_low(dct_round(s[9] * COSPI_24_64 + s[14] * COSPI_8_64) as int),
        s[15],
    ]
}

fn idct16_stage4(s: &[i32; 16]) -> (r: [i32; 16])
    requires
        wrapped16(s@),
    ensures
        r@ == idct16_s4(s@),
        wrapped16(r@),
{
    let r = [
        wraplow(dct_const_round_shift((s[0] as i64 + s[1] as i64) * COSPI_16_64)),
        wraplow(dct_const_round_shift((s[0] as i64 - s[1] as i64) * COSPI_16_64)),
        wraplow(dct_const_round_shift(s[2] as i64 * COSPI_24_64 - s[3] as i64 * COSPI_8_64)),
        wraplow(dct_const_round_shift(s[2] as i64 * COSPI_8_64 + s[3] as i64 * COSPI_24_64)),
        wraplow(s[4] + s[5]),
        wraplow(s[4] - s[5]),
        wraplow(-s[6] + s[7]),
        wraplow(s[6] + s[7]),
        s[8],
        wraplow(dct_const_round_shift((-s[9]) as i64 * COSPI_8_64 + s[14] as i64 * COSPI_24_64)),
        wraplow(dct_const_round_shift((-s[10]) as i64 * COSPI_24_64 - s[13] as i64 * COSPI_8_64)),
        s[11],
        s[12],
        wraplow(dct_const_round_shift((-s[10]) as i64 * COSPI_8_64 + s[13] as i64 * COSPI_24_64)),
        wraplow(dct_const_round_shift(s[9] as i64 * COSPI_24_64 + s[14] as i64 * COSPI_8_64)),
        s[15],
    ];
    assert(r@ =~= idct16_s4(s@)) by {
        reveal(idct16_s4);
    }
    r
}

/// Stage 5 of the 1-D inverse DCT16.
#[verifier::opaque]
pub open spec fn idct16_s5(s: Seq<i32>) -> Seq<i32> {
    seq![
        wrap_low(s[0] + s[3]),
        wrap_low(s[1] + s[2]),
        wrap_low(s[1] - s[2]),
        wrap_low(s[0] - s[3]),
        s[4],
        wrap_low(dct_round((s[6] - s[5]) * COSPI_16_64) as int),
        wrap_low(dct_round((s[5] + s[6]) * COSPI_16_64) as int),
        s[7],
        wrap_low(s[8] + s[11]),
        wrap_low(s[9] + s[10]),
        wrap_low(s[9] - s[10]),
        wrap_low(s[8] - s[11]),
        wrap_low(-s[12] + s[15]),
        wrap_low(-s[13] + s[14]),
        wrap_low(s[13] + s[14]),
        wrap_low(s[12] + s[15]),
    ]
}

fn idct16_stage5(s: &[i32; 16]) -> (r: [i32; 16])
    requires
        wrapped16(s@),
    ensures
        r@ == idct16_s5(s@),
        wrapped16(r@),
{
    let r = [
        wraplow(s[0] + s[3]),
        wraplow(s[1] + s[2]),
        wraplow(s[1] - s[2]),
        wraplow(s[0] - s[3]),
        s[4],
        wraplow(dct_const_round_shift((s[6] as i64 - s[5] as i64) * COSPI_16_64)),
        wraplow(dct_const_round_shift((s[5] as i64 + s[6] as i64) * COSPI_16_64)),
        s[7],
        wraplow(s[8] + s[11]),
        wraplow(s[9] + s[10]),
        wraplow(s[9] - s[10]),
        wraplow(s[8] - s[11]),
        wraplow(-s[12] + s[15]),
        wraplow(-s[13] + s[14]),
        wraplow(s[13] + s[14]),
        wraplow(s[12] + s[15]),
    ];
    assert(r@ =~= idct16_s5(s@)) by {
        reveal(idct16_s5);
    }
    r
}

/// Stage 6 of the 1-D inverse DCT16.
#[verifier::opaque]
pub open spec fn idct16_s6(s: Seq<i32>) -> Seq<i32> {
    seq![
        wrap_low(s[0] + s[7]),
        wrap_low(s[1] + s[6]),
        wrap_low(s[2] + s[5]),
        wrap_low(s[3] + s[4]),
        wrap_low(s[3] - s[4]),
        wrap_low(s[2] - s[5]),
        wrap_low(s[1] - s[6]),
        wrap_low(s[0] - s[7]),
        s[8],
        s[9],
        wrap_low(dct_round((-s[10] + s[13]) * COSPI_16_64) as int),
        wrap_low(dct_round((-s[11] + s[12]) * COSPI_16_64) as int),
        wrap_low(dct_round((s[11] + s[12]) * COSPI_16_64) as int),
        wrap_low(dct_round((s[10] + s[13]) * COSPI_16_64) as int),
        s[14],
        s[15],
    ]
}

fn idct16_stage6(s: &[i32; 16]) -> (r: [i32; 16])
    requires
        wrapped16(s@),
    ensures
        r@ == idct16_s6(s@),
        wrapped16(r@),
{
    let r = [
        wraplow(s[0] + s[7]),
        wraplow(s[1] + s[6]),
        wraplow(s[2] + s[5]),
        wraplow(s[3] + s[4]),
        wraplow(s[3] - s[4]),
        wraplow(s[2] - s[5]),
        wraplow(s[1] - s[6]),
        wraplow(s[0] - s[7]),
        s[8],
        s[9],
        wraplow(dct_const_round_shift((-s[10] + s[13]) as i64 * COSPI_16_64)),
        wraplow(dct_const_round_shift((-s[11] + s[12]) as i64 * COSPI_16_64)),
        wraplow(dct_const_round_shift((s[11] + s[12]) as i64 * COSPI_16_64)),
        wraplow(dct_const_round_shift((s[10] + s[13]) as i64 * COSPI_16_64)),
        s[14],
        s[15],
    ];
    assert(r@ =~= idct16_s6(s@)) by {
        reveal(idct16_s6);
    }
    r
}

/// Stage 7 of the 1-D inverse DCT16.
#[verifier::opaque]
pub open spec fn idct16_s7(s: Seq<i32>) -> Seq<i32> {
    seq![
        wrap_low(s[0] + s[15]),
        wrap_low(s[1] + s[14]),
        wrap_low(s[2] + s[13]),
        wrap_low(s[3] + s[12]),
        wrap_low(s[4] + s[11]),
        wrap_low(s[5] + s[10]),
        wrap_low(s[6] + s[9]),
        wrap_low(s[7] + s[8]),
        wrap_low(s[7] - s[8]),
        wrap_low(s[6] - s[9]),
        wrap_low(s[5] - s[10]),
        wrap_low(s[4] - s[11]),
        wrap_low(s[3] - s[12]),
        wrap_low(s[2] - s[13]),
        wrap_low(s[1] - s[14]),
        wrap_low(s[0] - s[15]),
    ]
}

fn idct16_stage7(s: &[i32; 16]) -> (r: [i32; 16])
    requires
        wrapped16(s@),
    ensures
        r@ == idct16_s7(s@),
        wrapped16(r@),
{
    let r = [
        wraplow(s[0] + s[15]),
        wraplow(s[1] + s[14]),
        wraplow(s[2] + s[13]),
        wraplow(s[3] + s[12]),
        wraplow(s[4] + s[11]),
        wraplow(s[5] + s[10]),
        wraplow(s[6] + s[9]),
        wraplow(s[7] + s[8]),
        wraplow(s[7] - s[8]),
        wraplow(s[6] - s[9]),
        wraplow(s[5] - s[10]),
        wraplow(s[4] - s[11]),
        wraplow(s[3] - s[12]),
        wraplow(s[2] - s[13]),
        wraplow(s[1] - s[14]),
        wraplow(s[0] - s[15]),
    ];
    assert(r@ =~= idct16_s7(s@)) by {
        reveal(idct16_s7);
    }
    r
}

/// 1-D inverse DCT16 (libvpx `idct16_c`): 7 butterfly stages, each wrapped to 16 bits.
pub open spec fn spec_idct16(x: Seq<i32>) -> Seq<i32> {
    let t1 = idct16_s1(x);
    let t2 = idct16_s2(t1);
    let t3 = idct16_s3(t2);
    let t4 = idct16_s4(t3);
    let t5 = idct16_s5(t4);
    let t6 = idct16_s6(t5);
    let t7 = idct16_s7(t6);
    t7
}

/// 1-D inverse DCT16.
pub fn idct16(input: &[i32; 16], output: &mut [i32; 16])
    ensures
        final(output)@ == spec_idct16(input@),
{
    let t1 = idct16_stage1(input);
    let t2 = idct16_stage2(&t1);
    let t3 = idct16_stage3(&t2);
    let t4 = idct16_stage4(&t3);
    let t5 = idct16_stage5(&t4);
    let t6 = idct16_stage6(&t5);
    let t7 = idct16_stage7(&t6);
    *output = t7;
}

/// Stage 1 of the 1-D inverse DCT32.
#[verifier::opaque]
pub open spec fn idct32_s1(s: Seq<i32>) -> Seq<i32> {
    seq![
        (s[0] as i16) as i32,
        (s[16] as i16) as i32,
        (s[8] as i16) as i32,
        (s[24] as i16) as i32,
        (s[4] as i16) as i32,
        (s[20] as i16) as i32,
        (s[12] as i16) as i32,
        (s[28] as i16) as i32,
        (s[2] as i16) as i32,
        (s[18] as i16) as i32,
        (s[10] as i16) as i32,
        (s[26] as i16) as i32,
        (s[6] as i16) as i32,
        (s[22] as i16) as i32,
        (s[14] as i16) as i32,
        (s[30] as i16) as i32,
        wrap_low(dct_round(s[1] as i16 * COSPI_31_64 - s[31] as i16 * COSPI_1_64) as int),
        wrap_low(dct_round(s[17] as i16 * COSPI_15_64 - s[15] as i16 * COSPI_17_64) as int),
        wrap_low(dct_round(s[9] as i16 * COSPI_23_64 - s[23] as i16 * COSPI_9_64) as int),
        wrap_low(dct_round(s[25] as i16 * COSPI_7_64 - s[7] as i16 * COSPI_25_64) as int),
        wrap_low(dct_round(s[5] as i16 * COSPI_27_64 - s[27] as i16 * COSPI_5_64) as int),
        wrap_low(dct_round(s[21] as i16 * COSPI_11_64 - s[11] as i16 * COSPI_21_64) as int),
        wrap_low(dct_round(s[13] as i16 * COSPI_19_64 - s[19] as i16 * COSPI_13_64) as int),
        wrap_low(dct_round(s[29] as i16 * COSPI_3_64 - s[3] as i16 * COSPI_29_64) as int),
        wrap_low(dct_round(s[29] as i16 * COSPI_29_64 + s[3] as i16 * COSPI_3_64) as int),
        wrap_low(dct_round(s[13] as i16 * COSPI_13_64 + s[19] as i16 * COSPI_19_64) as int),
        wrap_low(dct_round(s[21] as i16 * COSPI_21_64 + s[11] as i16 * COSPI_11_64) as int),
        wrap_low(dct_round(s[5] as i16 * COSPI_5_64 + s[27] as i16 * COSPI_27_64) as int),
        wrap_low(dct_round(s[25] as i16 * COSPI_25_64 + s[7] as i16 * COSPI_7_64) as int),
        wrap_low(dct_round(s[9] as i16 * COSPI_9_64 + s[23] as i16 * COSPI_23_64) as int),
        wrap_low(dct_round(s[17] as i16 * COSPI_17_64 + s[15] as i16 * COSPI_15_64) as int),
        wrap_low(dct_round(s[1] as i16 * COSPI_1_64 + s[31] as i16 * COSPI_31_64) as int),
    ]
}

fn idct32_stage1(s: &[i32; 32]) -> (r: [i32; 32])
    ensures
        r@ == idct32_s1(s@),
        wrapped16(r@),
{
    let r = [
        s[0] as i16 as i32,
        s[16] as i16 as i32,
        s[8] as i16 as i32,
        s[24] as i16 as i32,
        s[4] as i16 as i32,
        s[20] as i16 as i32,
        s[12] as i16 as i32,
        s[28] as i16 as i32,
        s[2] as i16 as i32,
        s[18] as i16 as i32,
        s[10] as i16 as i32,
        s[26] as i16 as i32,
        s[6] as i16 as i32,
        s[22] as i16 as i32,
        s[14] as i16 as i32,
        s[30] as i16 as i32,
        wraplow(dct_const_round_shift(s[1] as i16 as i64 * COSPI_31_64 - s[31] as i16 as i64 * COSPI_1_64)),
        wraplow(dct_const_round_shift(s[17] as i16 as i64 * COSPI_15_64 - s[15] as i16 as i64 * COSPI_17_64)),
        wraplow(dct_const_round_shift(s[9] as i16 as i64 * COSPI_23_64 - s[23] as i16 as i64 * COSPI_9_64)),
        wraplow(dct_const_round_shift(s[25] as i16 as i64 * COSPI_7_64 - s[7] as i16 as i64 * COSPI_25_64)),
        wraplow(dct_const_round_shift(s[5] as i16 as i64 * COSPI_27_64 - s[27] as i16 as i64 * COSPI_5_64)),
        wraplow(dct_const_round_shift(s[21] as i16 as i64 * COSPI_11_64 - s[11] as i16 as i64 * COSPI_21_64)),
        wraplow(dct_const_round_shift(s[13] as i16 as i64 * COSPI_19_64 - s[19] as i16 as i64 * COSPI_13_64)),
        wraplow(dct_const_round_shift(s[29] as i16 as i64 * COSPI_3_64 - s[3] as i16 as i64 * COSPI_29_64)),
        wraplow(dct_const_round_shift(s[29] as i16 as i64 * COSPI_29_64 + s[3] as i16 as i64 * COSPI_3_64)),
        wraplow(dct_const_round_shift(s[13] as i16 as i64 * COSPI_13_64 + s[19] as i16 as i64 * COSPI_19_64)),
        wraplow(dct_const_round_shift(s[21] as i16 as i64 * COSPI_21_64 + s[11] as i16 as i64 * COSPI_11_64)),
        wraplow(dct_const_round_shift(s[5] as i16 as i64 * COSPI_5_64 + s[27] as i16 as i64 * COSPI_27_64)),
        wraplow(dct_const_round_shift(s[25] as i16 as i64 * COSPI_25_64 + s[7] as i16 as i64 * COSPI_7_64)),
        wraplow(dct_const_round_shift(s[9] as i16 as i64 * COSPI_9_64 + s[23] as i16 as i64 * COSPI_23_64)),
        wraplow(dct_const_round_shift(s[17] as i16 as i64 * COSPI_17_64 + s[15] as i16 as i64 * COSPI_15_64)),
        wraplow(dct_const_round_shift(s[1] as i16 as i64 * COSPI_1_64 + s[31] as i16 as i64 * COSPI_31_64)),
    ];
    assert(r@ =~= idct32_s1(s@)) by {
        reveal(idct32_s1);
    }
    r
}

/// Stage 2 of the 1-D inverse DCT32.
#[verifier::opaque]
pub open spec fn idct32_s2(s: Seq<i32>) -> Seq<i32> {
    seq![
        s[0],
        s[1],
        s[2],
        s[3],
        s[4],
        s[5],
        s[6],
        s[7],
        wrap_low(dct_round(s[8] * COSPI_30_64 - s[15] * COSPI_2_64) as int),
        wrap_low(dct_round(s[9] * COSPI_14_64 - s[14] * COSPI_18_64) as int),
        wrap_low(dct_round(s[10] * COSPI_22_64 - s[13] * COSPI_10_64) as int),
        wrap_low(dct_round(s[11] * COSPI_6_64 - s[12] * COSPI_26_64) as int),
        wrap_low(dct_round(s[11] * COSPI_26_64 + s[12] * COSPI_6_64) as int),
        wrap_low(dct_round(s[10] * COSPI_10_64 + s[13] * COSPI_22_64) as int),
        wrap_low(dct_round(s[9] * COSPI_18_64 + s[14] * COSPI_14_64) as int),
        wrap_low(dct_round(s[8] * COSPI_2_64 + s[15] * COSPI_30_64) as int),
        wrap_low(s[16] + s[17]),
        wrap_low(s[16] - s[17]),
        wrap_low(-s[18] + s[19]),
        wrap_low(s[18] + s[19]),
        wrap_low(s[20] + s[21]),
        wrap_low(s[20] - s[21]),
        wrap_low(-s[22] + s[23]),
        wrap_low(s[22] + s[23]),
        wrap_low(s[24] + s[25]),
        wrap_low(s[24] - s[25]),
        wrap_low(-s[26] + s[27]),
        wrap_low(s[26] + s[27]),
        wrap_low(s[28] + s[29]),
        wrap_low(s[28] - s[29]),
        wrap_low(-s[30] + s[31]),
        wrap_low(s[30] + s[31]),
    ]
}

fn idct32_stage2(s: &[i32; 32]) -> (r: [i32; 32])
    requires
        wrapped16(s@),
    ensures
        r@ == idct32_s2(s@),
        wrapped16(r@),
{
    let r = [
        s[0],
        s[1],
        s[2],
        s[3],
        s[4],
        s[5],
        s[6],
        s[7],
        wraplow(dct_const_round_shift(s[8] as i64 * COSPI_30_64 - s[15] as i64 * COSPI_2_64)),
        wraplow(dct_const_round_shift(s[9] as i64 * COSPI_14_64 - s[14] as i64 * COSPI_18_64)),
        wraplow(dct_const_round_shift(s[10] as i64 * COSPI_22_64 - s[13] as i64 * COSPI_10_64)),
        wraplow(dct_const_round_shift(s[11] as i64 * COSPI_6_64 - s[12] as i64 * COSPI_26_64)),
        wraplow(dct_const_round_shift(s[11] as i64 * COSPI_26_64 + s[12] as i64 * COSPI_6_64)),
        wraplow(dct_const_round_shift(s[10] as i64 * COSPI_10_64 + s[13] as i64 * COSPI_22_64)),
        wraplow(dct_const_round_shift(s[9] as i64 * COSPI_18_64 + s[14] as i64 * COSPI_14_64)),
        wraplow(dct_const_round_shift(s[8] as i64 * COSPI_2_64 + s[15] as i64 * COSPI_30_64)),
        wraplow(s[16] + s[17]),
        wraplow(s[16] - s[17]),
        wraplow(-s[18] + s[19]),
        wraplow(s[18] + s[19]),
        wraplow(s[20] + s[21]),
        wraplow(s[20] - s[21]),
        wraplow(-s[22] + s[23]),
        wraplow(s[22] + s[23]),
        wraplow(s[24] + s[25]),
        wraplow(s[24] - s[25]),
        wraplow(-s[26] + s[27]),
        wraplow(s[26] + s[27]),
        wraplow(s[28] + s[29]),
        wraplow(s[28] - s[29]),
        wraplow(-s[30] + s[31]),
        wraplow(s[30] + s[31]),
    ];
    assert(r@ =~= idct32_s2(s@)) by {
        reveal(idct32_s2);
    }
    r
}

/// Stage 3 of the 1-D inverse DCT32.
#[verifier::opaque]
pub open spec fn idct32_s3(s: Seq<i32>) -> Seq<i32> {
    seq![
        s[0],
        s[1],
        s[2],
        s[3],
        wrap_low(dct_round(s[4] * COSPI_28_64 - s[7] * COSPI_4_64) as int),
        wrap_low(dct_round(s[5] * COSPI_12_64 - s[6] * COSPI_20_64) as int),
        wrap_low(dct_round(s[5] * COSPI_20_64 + s[6] * COSPI_12_64) as int),
        wrap_low(dct_round(s[4] * COSPI_4_64 + s[7] * COSPI_28_64) as int),
        wrap_low(s[8] + s[9]),
        wrap_low(s[8] - s[9]),
        wrap_low(-s[10] + s[11]),
        wrap_low(s[10] + s[11]),
        wrap_low(s[12] + s[13]),
        wrap_low(s[12] - s[13]),
        wrap_low(-s[14] + s[15]),
        wrap_low(s[14] + s[15]),
        s[16],
        wrap_low(dct_round(-s[17] * COSPI_4_64 + s[30] * COSPI_28_64) as int),
        wrap_low(dct_round(-s[18] * COSPI_28_64 - s[29] * COSPI_4_64) as int),
        s[19],
        s[20],
        wrap_low(dct_round(-s[21] * COSPI_20_64 + s[26] * COSPI_12_64) as int),
        wrap_low(dct_round(-s[22] * COSPI_12_64 - s[25] * COSPI_20_64) as int),
        s[23],
        s[24],
        wrap_low(dct_round(-s[22] * COSPI_20_64 + s[25] * COSPI_12_64) as int),
        wrap_low(dct_round(s[21] * COSPI_12_64 + s[26] * COSPI_20_64) as int),
        s[27],
        s[28],
        wrap_low(dct_round(-s[18] * COSPI_4_64 + s[29] * COSPI_28_64) as int),
        wrap_low(dct_round(s[17] * COSPI_28_64 + s[30] * COSPI_4_64) as int),
        s[31],
    ]
}

fn idct32_stage3(s: &[i32; 32]) -> (r: [i32; 32])
    requires
        wrapped16(s@),
    ensures
        r@ == idct32_s3(s@),
        wrapped16(r@),
{
    let r = [
        s[0],
        s[1],
        s[2],
        s[3],
        wraplow(dct_const_round_shift(s[4] as i64 * COSPI_28_64 - s[7] as i64 * COSPI_4_64)),
        wraplow(dct_const_round_shift(s[5] as i64 * COSPI_12_64 - s[6] as i64 * COSPI_20_64)),
        wraplow(dct_const_round_shift(s[5] as i64 * COSPI_20_64 + s[6] as i64 * COSPI_12_64)),
        wraplow(dct_const_round_shift(s[4] as i64 * COSPI_4_64 + s[7] as i64 * COSPI_28_64)),
        wraplow(s[8] + s[9]),
        wraplow(s[8] - s[9]),
        wraplow(-s[10] + s[11]),
        wraplow(s[10] + s[11]),
        wraplow(s[12] + s[13]),
        wraplow(s[12] - s[13]),
        wraplow(-s[14] + s[15]),
        wraplow(s[14] + s[15]),
        s[16],
        wraplow(dct_const_round_shift((-s[17]) as i64 * COSPI_4_64 + s[30] as i64 * COSPI_28_64)),
        wraplow(dct_const_round_shift((-s[18]) as i64 * COSPI_28_64 - s[29] as i64 * COSPI_4_64)),
        s[19],
        s[20],
        wraplow(dct_const_round_shift((-s[21]) as i64 * COSPI_20_64 + s[26] as i64 * COSPI_12_64)),
        wraplow(dct_const_round_shift((-s[22]) as i64 * COSPI_12_64 - s[25] as i64 * COSPI_20_64)),
        s[23],
        s[24],
        wraplow(dct_const_round_shift((-s[22]) as i64 * COSPI_20_64 + s[25] as i64 * COSPI_12_64)),
        wraplow(dct_const_round_shift(s[21] as i64 * COSPI_12_64 + s[26] as i64 * COSPI_20_64)),
        s[27],
        s[28],
        wraplow(dct_const_round_shift((-s[18]) as i64 * COSPI_4_64 + s[29] as i64 * COSPI_28_64)),
        wraplow(dct_const_round_shift(s[17] as i64 * COSPI_28_64 + s[30] as i64 * COSPI_4_64)),
        s[31],
    ];
    assert(r@ =~= idct32_s3(s@)) by {
        reveal(idct32_s3);
    }
    r
}

/// Stage 4 of the 1-D inverse DCT32.
#[verifier::opaque]
pub open spec fn idct32_s4(s: Seq<i32>) -> Seq<i32> {
    seq![
        wrap_low(dct_round((s[0] + s[1]) * COSPI_16_64) as int),
        wrap_low(dct_round((s[0] - s[1]) * COSPI_16_64) as int),
        wrap_low(dct_round(s[2] * COSPI_24_64 - s[3] * COSPI_8_64) as int),
        wrap_low(dct_round(s[2] * COSPI_8_64 + s[3] * COSPI_24_64) as int),
        wrap_low(s[4] + s[5]),
        wrap_low(s[4] - s[5]),
        wrap_low(-s[6] + s[7]),
        wrap_low(s[6] + s[7]),
        s[8],
        wrap_low(dct_round(-s[9] * COSPI_8_64 + s[14] * COSPI_24_64) as int),
        wrap_low(dct_round(-s[10] * COSPI_24_64 - s[13] * COSPI_8_64) as int),
        s[11],
        s[12],
        wrap_low(dct_round(-s[10] * COSPI_8_64 + s[13] * COSPI_24_64) as int),
        wrap_low(dct_round(s[9] * COSPI_24_64 + s[14] * COSPI_8_64) as int),
        s[15],
        wrap_low(s[16] + s[19]),
        wrap_low(s[17] + s[18]),
        wrap_low(s[17] - s[18]),
        wrap_low(s[16] - s[19]),
        wrap_low(-s[20] + s[23]),
        wrap_low(-s[21] + s[22]),
        wrap_low(s[21] + s[22]),
        wrap_low(s[20] + s[23]),
        wrap_low(s[24] + s[27]),
        wrap_low(s[25] + s[26]),
        wrap_low(s[25] - s[26]),
        wrap_low(s[24] - s[27]),
        wrap_low(-s[28] + s[31]),
        wrap_low(-s[29] + s[30]),
        wrap_low(s[29] + s[30]),
        wrap_low(s[28] + s[31]),
    ]
}

fn idct32_stage4(s: &[i32; 32]) -> (r: [i32; 32])
    requires
        wrapped16(s@),
    ensures
        r@ == idct32_s4(s@),
        wrapped16(r@),
{
    let r = [
        wraplow(dct_const_round_shift((s[0] as i64 + s[1] as i64) * COSPI_16_64)),
        wraplow(dct_const_round_shift((s[0] as i64 - s[1] as i64) * COSPI_16_64)),
        wraplow(dct_const_round_shift(s[2] as i64 * COSPI_24_64 - s[3] as i64 * COSPI_8_64)),
        wraplow(dct_const_round_shift(s[2] as i64 * COSPI_8_64 + s[3] as i64 * COSPI_24_64)),
        wraplow(s[4] + s[5]),
        wraplow(s[4] - s[5]),
        wraplow(-s[6] + s[7]),
        wraplow(s[6] + s[7]),
        s[8],
        wraplow(dct_const_round_shift((-s[9]) as i64 * COSPI_8_64 + s[14] as i64 * COSPI_24_64)),
        wraplow(dct_const_round_shift((-s[10]) as i64 * COSPI_24_64 - s[13] as i64 * COSPI_8_64)),
        s[11],
        s[12],
        wraplow(dct_const_round_shift((-s[10]) as i64 * COSPI_8_64 + s[13] as i64 * COSPI_24_64)),
        wraplow(dct_const_round_shift(s[9] as i64 * COSPI_24_64 + s[14] as i64 * COSPI_8_64)),
        s[15],
        wraplow(s[16] + s[19]),
        wraplow(s[17] + s[18]),
        wraplow(s[17] - s[18]),
        wraplow(s[16] - s[19]),
        wraplow(-s[20] + s[23]),
        wraplow(-s[21] + s[22]),
        wraplow(s[21] + s[22]),
        wraplow(s[20] + s[23]),
        wraplow(s[24] + s[27]),
        wraplow(s[25] + s[26]),
        wraplow(s[25] - s[26]),
        wraplow(s[24] - s[27]),
        wraplow(-s[28] + s[31]),
        wraplow(-s[29] + s[30]),
        wraplow(s[29] + s[30]),
        wraplow(s[28] + s[31]),
    ];
    assert(r@ =~= idct32_s4(s@)) by {
        reveal(idct32_s4);
    }
    r
}

/// Stage 5 of the 1-D inverse DCT32.
#[verifier::opaque]
pub open spec fn idct32_s5(s: Seq<i32>) -> Seq<i32> {
    seq![
        wrap_low(s[0] + s[3]),
        wrap_low(s[1] + s[2]),
        wrap_low(s[1] - s[2]),
        wrap_low(s[0] - s[3]),
        s[4],
        wrap_low(dct_round((s[6] - s[5]) * COSPI_16_64) as int),
        wrap_low(dct_round((s[5] + s[6]) * COSPI_16_64) as int),
        s[7],
        wrap_low(s[8] + s[11]),
        wrap_low(s[9] + s[10]),
        wrap_low(s[9] - s[10]),
        wrap_low(s[8] - s[11]),
        wrap_low(-s[12] + s[15]),
        wrap_low(-s[13] + s[14]),
        wrap_low(s[13] + s[14]),
        wrap_low(s[12] + s[15]),
        s[16],
        s[17],
        wrap_low(dct_round(-s[18] * COSPI_8_64 + s[29] * COSPI_24_64) as int),
        wrap_low(dct_round(-s[19] * COSPI_8_64 + s[28] * COSPI_24_64) as int),
        wrap_low(dct_round(-s[20] * COSPI_24_64 - s[27] * COSPI_8_64) as int),
        wrap_low(dct_round(-s[21] * COSPI_24_64 - s[26] * COSPI_8_64) as int),
        s[22],
        s[23],
        s[24],
        s[25],
        wrap_low(dct_round(-s[21] * COSPI_8_64 + s[26] * COSPI_24_64) as int),
        wrap_low(dct_round(-s[20] * COSPI_8_64 + s[27] * COSPI_24_64) as int),
        wrap_low(dct_round(s[19] * COSPI_24_64 + s[28] * COSPI_8_64) as int),
        wrap_low(dct_round(s[18] * COSPI_24_64 + s[29] * COSPI_8_64) as int),
        s[30],
        s[31],
    ]
}

fn idct32_stage5(s: &[i32; 32]) -> (r: [i32; 32])
    requires
        wrapped16(s@),
    ensures
        r@ == idct32_s5(s@),
        wrapped16(r@),
{
    let r = [
        wraplow(s[0] + s[3]),
        wraplow(s[1] + s[2]),
        wraplow(s[1] - s[2]),
        wraplow(s[0] - s[3]),
        s[4],
        wraplow(dct_const_round_shift((s[6] as i64 - s[5] as i64) * COSPI_16_64)),
        wraplow(dct_const_round_shift((s[5] as i64 + s[6] as i64) * COSPI_16_64)),
        s[7],
        wraplow(s[8] + s[11]),
        wraplow(s[9] + s[10]),
        wraplow(s[9] - s[10]),
        wraplow(s[8] - s[11]),
        wraplow(-s[12] + s[15]),
        wraplow(-s[13] + s[14]),
        wraplow(s[13] + s[14]),
        wraplow(s[12] + s[15]),
        s[16],
        s[17],
        wraplow(dct_const_round_shift((-s[18]) as i64 * COSPI_8_64 + s[29] as i64 * COSPI_24_64)),
        wraplow(dct_const_round_shift((-s[19]) as i64 * COSPI_8_64 + s[28] as i64 * COSPI_24_64)),
        wraplow(dct_const_round_shift((-s[20]) as i64 * COSPI_24_64 - s[27] as i64 * COSPI_8_64)),
        wraplow(dct_const_round_shift((-s[21]) as i64 * COSPI_24_64 - s[26] as i64 * COSPI_8_64)),
        s[22],
        s[23],
        s[24],
        s[25],
        wraplow(dct_const_round_shift((-s[21]) as i64 * COSPI_8_64 + s[26] as i64 * COSPI_24_64)),
        wraplow(dct_const_round_shift((-s[20]) as i64 * COSPI_8_64 + s[27] as i64 * COSPI_24_64)),
        wraplow(dct_const_round_shift(s[19] as i64 * COSPI_24_64 + s[28] as i64 * COSPI_8_64)),
        wraplow(dct_const_round_shift(s[18] as i64 * COSPI_24_64 + s[29] as i64 * COSPI_8_64)),
        s[30],
        s[31],
    ];
    assert(r@ =~= idct32_s5(s@)) by {
        reveal(idct32_s5);
    }
    r
}

/// Stage 6 of the 1-D inverse DCT32.
#[verifier::opaque]
pub open spec fn idct32_s6(s: Seq<i32>) -> Seq<i32> {
    seq![
        wrap_low(s[0] + s[7]),
        wrap_low(s[1] + s[6]),
        wrap_low(s[2] + s[5]),
        wrap_low(s[3] + s[4]),
        wrap_low(s[3] - s[4]),
        wrap_low(s[2] - s[5]),
        wrap_low(s[1] - s[6]),
        wrap_low(s[0] - s[7]),
        s[8],
        s[9],
        wrap_low(dct_round((-s[10] + s[13]) * COSPI_16_64) as int),
        wrap_low(dct_round((-s[11] + s[12]) * COSPI_16_64) as int),
        wrap_low(dct_round((s[11] + s[12]) * COSPI_16_64) as int),
        wrap_low(dct_round((s[10] + s[13]) * COSPI_16_64) as int),
        s[14],
        s[15],
        wrap_low(s[16] + s[23]),
        wrap_low(s[17] + s[22]),
        wrap_low(s[18] + s[21]),
        wrap_low(s[19] + s[20]),
        wrap_low(s[19] - s[20]),
        wrap_low(s[18] - s[21]),
        wrap_low(s[17] - s[22]),
        wrap_low(s[16] - s[23]),
        wrap_low(-s[24] + s[31]),
        wrap_low(-s[25] + s[30]),
        wrap_low(-s[26] + s[29]),
        wrap_low(-s[27] + s[28]),
        wrap_low(s[27] + s[28]),
        wrap_low(s[26] + s[29]),
        wrap_low(s[25] + s[30]),
        wrap_low(s[24] + s[31]),
    ]
}

fn idct32_stage6(s: &[i32; 32]) -> (r: [i32; 32])
    requires
        wrapped16(s@),
    ensures
        r@ == idct32_s6(s@),
        wrapped16(r@),
{
    let r = [
        wraplow(s[0] + s[7]),
        wraplow(s[1] + s[6]),
        wraplow(s[2] + s[5]),
        wraplow(s[3] + s[4]),
        wraplow(s[3] - s[4]),
        wraplow(s[2] - s[5]),
        wraplow(s[1] - s[6]),
        wraplow(s[0] - s[7]),
        s[8],
        s[9],
        wraplow(dct_const_round_shift(((-s[10]) as i64 + s[13] as i64) * COSPI_16_64)),
        wraplow(dct_const_round_shift(((-s[11]) as i64 + s[12] as i64) * COSPI_16_64)),
        wraplow(dct_const_round_shift((s[11] as i64 + s[12] as i64) * COSPI_16_64)),
        wraplow(dct_const_round_shift((s[10] as i64 + s[13] as i64) * COSPI_16_64)),
        s[14],
        s[15],
        wraplow(s[16] + s[23]),
        wraplow(s[17] + s[22]),
        wraplow(s[18] + s[21]),
        wraplow(s[19] + s[20]),
        wraplow(s[19] - s[20]),
        wraplow(s[18] - s[21]),
        wraplow(s[17] - s[22]),
        wraplow(s[16] - s[23]),
        wraplow(-s[24] + s[31]),
        wraplow(-s[25] + s[30]),
        wraplow(-s[26] + s[29]),
        wraplow(-s[27] + s[28]),
        wraplow(s[27] + s[28]),
        wraplow(s[26] + s[29]),
        wraplow(s[25] + s[30]),
        wraplow(s[24] + s[31]),
    ];
    assert(r@ =~= idct32_s6(s@)) by {
        reveal(idct32_s6);
    }
    r
}

/// Stage 7 of the 1-D inverse DCT32.
#[verifier::opaque]
pub open spec fn idct32_s7(s: Seq<i32>) -> Seq<i32> {
    seq![
        wrap_low(s[0] + s[15]),
        wrap_low(s[1] + s[14]),
        wrap_low(s[2] + s[13]),
        wrap_low(s[3] + s[12]),
        wrap_low(s[4] + s[11]),
        wrap_low(s[5] + s[10]),
        wrap_low(s[6] + s[9]),
        wrap_low(s[7] + s[8]),
        wrap_low(s[7] - s[8]),
        wrap_low(s[6] - s[9]),
        wrap_low(s[5] - s[10]),
        wrap_low(s[4] - s[11]),
        wrap_low(s[3] - s[12]),
        wrap_low(s[2] - s[13]),
        wrap_low(s[1] - s[14]),
        wrap_low(s[0] - s[15]),
        s[16],
        s[17],
        s[18],
        s[19],
        wrap_low(dct_round((-s[20] + s[27]) * COSPI_16_64) as int),
        wrap_low(dct_round((-s[21] + s[26]) * COSPI_16_64) as int),
        wrap_low(dct_round((-s[22] + s[25]) * COSPI_16_64) as int),
        wrap_low(dct_round((-s[23] + s[24]) * COSPI_16_64) as int),
        wrap_low(dct_round((s[23] + s[24]) * COSPI_16_64) as int),
        wrap_low(dct_round((s[22] + s[25]) * COSPI_16_64) as int),
        wrap_low(dct_round((s[21] + s[26]) * COSPI_16_64) as int),
        wrap_low(dct_round((s[20] + s[27]) * COSPI_16_64) as int),
        s[28],
        s[29],
        s[30],
        s[31],
    ]
}

fn idct32_stage7(s: &[i32; 32]) -> (r: [i32; 32])
    requires
        wrapped16(s@),
    ensures
        r@ == idct32_s7(s@),
        wrapped16(r@),
{
    let r = [
        wraplow(s[0] + s[15]),
        wraplow(s[1] + s[14]),
        wraplow(s[2] + s[13]),
        wraplow(s[3] + s[12]),
        wraplow(s[4] + s[11]),
        wraplow(s[5] + s[10]),
        wraplow(s[6] + s[9]),
        wraplow(s[7] + s[8]),
        wraplow(s[7] - s[8]),
        wraplow(s[6] - s[9]),
        wraplow(s[5] - s[10]),
        wraplow(s[4] - s[11]),
        wraplow(s[3] - s[12]),
        wraplow(s[2] - s[13]),
        wraplow(s[1] - s[14]),
        wraplow(s[0] - s[15]),
        s[16],
        s[17],
        s[18],
        s[19],
        wraplow(dct_const_round_shift(((-s[20]) as i64 + s[27] as i64) * COSPI_16_64)),
        wraplow(dct_const_round_shift(((-s[21]) as i64 + s[26] as i64) * COSPI_16_64)),
        wraplow(dct_const_round_shift(((-s[22]) as i64 + s[25] as i64) * COSPI_16_64)),
        wraplow(dct_const_round_shift(((-s[23]) as i64 + s[24] as i64) * COSPI_16_64)),
        wraplow(dct_const_round_shift((s[23] as i64 + s[24] as i64) * COSPI_16_64)),
        wraplow(dct_const_round_shift((s[22] as i64 + s[25] as i64) * COSPI_16_64)),
        wraplow(dct_const_round_shift((s[21] as i64 + s[26] as i64) * COSPI_16_64)),
        wraplow(dct_const_round_shift((s[20] as i64 + s[27] as i64) * COSPI_16_64)),
        s[28],
        s[29],
        s[30],
        s[31],
    ];
    assert(r@ =~= idct32_s7(s@)) by {
        reveal(idct32_s7);
    }
    r
}

/// Stage 8 of the 1-D inverse DCT32.
#[verifier::opaque]
pub open spec fn idct32_s8(s: Seq<i32>) -> Seq<i32> {
    seq![
        wrap_low(s[0] + s[31]),
        wrap_low(s[1] + s[30]),
        wrap_low(s[2] + s[29]),
        wrap_low(s[3] + s[28]),
        wrap_low(s[4] + s[27]),
        wrap_low(s[5] + s[26]),
        wrap_low(s[6] + s[25]),
        wrap_low(s[7] + s[24]),
        wrap_low(s[8] + s[23]),
        wrap_low(s[9] + s[22]),
        wrap_low(s[10] + s[21]),
        wrap_low(s[11] + s[20]),
        wrap_low(s[12] + s[19]),
        wrap_low(s[13] + s[18]),
        wrap_low(s[14] + s[17]),
        wrap_low(s[15] + s[16]),
        wrap_low(s[15] - s[16]),
        wrap_low(s[14] - s[17]),
        wrap_low(s[13] - s[18]),
        wrap_low(s[12] - s[19]),
        wrap_low(s[11] - s[20]),
        wrap_low(s[10] - s[21]),
        wrap_low(s[9] - s[22]),
        wrap_low(s[8] - s[23]),
        wrap_low(s[7] - s[24]),
        wrap_low(s[6] - s[25]),
        wrap_low(s[5] - s[26]),
        wrap_low(s[4] - s[27]),
        wrap_low(s[3] - s[28]),
        wrap_low(s[2] - s[29]),
        wrap_low(s[1] - s[30]),
        wrap_low(s[0] - s[31]),
    ]
}

fn idct32_stage8(s: &[i32; 32]) -> (r: [i32; 32])
    requires
        wrapped16(s@),
    ensures
        r@ == idct32_s8(s@),
        wrapped16(r@),
{
    let r = [
        wraplow(s[0] + s[31]),
        wraplow(s[1] + s[30]),
        wraplow(s[2] + s[29]),
        wraplow(s[3] + s[28]),
        wraplow(s[4] + s[27]),
        wraplow(s[5] + s[26]),
        wraplow(s[6] + s[25]),
        wraplow(s[7] + s[24]),
        wraplow(s[8] + s[23]),
        wraplow(s[9] + s[22]),
        wraplow(s[10] + s[21]),
        wraplow(s[11] + s[20]),
        wraplow(s[12] + s[19]),
        wraplow(s[13] + s[18]),
        wraplow(s[14] + s[17]),
        wraplow(s[15] + s[16]),
        wraplow(s[15] - s[16]),
        wraplow(s[14] - s[17]),
        wraplow(s[13] - s[18]),
        wraplow(s[12] - s[19]),
        wraplow(s[11] - s[20]),
        wraplow(s[10] - s[21]),
        wraplow(s[9] - s[22]),
        wraplow(s[8] - s[23]),
        wraplow(s[7] - s[24]),
        wraplow(s[6] - s[25]),
        wraplow(s[5] - s[26]),
        wraplow(s[4] - s[27]),
        wraplow(s[3] - s[28]),
        wraplow(s[2] - s[29]),
        wraplow(s[1] - s[30]),
        wraplow(s[0] - s[31]),
    ];
    assert(r@ =~= idct32_s8(s@)) by {
        reveal(idct32_s8);
    }
    r
}

/// 1-D inverse DCT32 (libvpx `idct32_c`): 8 butterfly stages, each wrapped to 16 bits.
pub open spec fn spec_idct32(x: Seq<i32>) -> Seq<i32> {
    let t1 = idct32_s1(x);
    let t2 = idct32_s2(t1);
    let t3 = idct32_s3(t2);
    let t4 = idct32_s4(t3);
    let t5 = idct32_s5(t4);
    let t6 = idct32_s6(t5);
    let t7 = idct32_s7(t6);
    let t8 = idct32_s8(t7);
    t8
}

/// 1-D inverse DCT32.
pub fn idct32(input: &[i32; 32], output: &mut [i32; 32])
    ensures
        final(output)@ == spec_idct32(input@),
{
    let t1 = idct32_stage1(input);
    let t2 = idct32_stage2(&t1);
    let t3 = idct32_stage3(&t2);
    let t4 = idct32_stage4(&t3);
    let t5 = idct32_stage5(&t4);
    let t6 = idct32_stage6(&t5);
    let t7 = idct32_stage7(&t6);
    let t8 = idct32_stage8(&t7);
    *output = t8;
}
/// Every entry lies within `[-b, b]`.
pub open spec fn bounded64(s: Seq<i64>, b: int) -> bool {
    forall|k: int| 0 <= k < s.len() ==> -b <= #[trigger] s[k] <= b
}

/// Round a DCT32 product (`dct_32_round`, the same rounding as
/// `fdct_round_shift`).
pub fn dct_32_round(input: i64) -> (r: i32)
    requires
        -0x4000_0000_0000_0000 <= input <= 0x4000_0000_0000_0000,
    ensures
        r == dct_round(input as int),
{
    fdct_round_shift(input)
}

/// Stage 1 of the 1-D forward DCT32.
#[verifier::opaque]
pub open spec fn fdct32_s1(s: Seq<i64>) -> Seq<i64> {
    seq![
        (s[0] + s[31]) as i64,
        (s[1] + s[30]) as i64,
        (s[2] + s[29]) as i64,
        (s[3] + s[28]) as i64,
        (s[4] + s[27]) as i64,
        (s[5] + s[26]) as i64,
        (s[6] + s[25]) as i64,
        (s[7] + s[24]) as i64,
        (s[8] + s[23]) as i64,
        (s[9] + s[22]) as i64,
        (s[10] + s[21]) as i64,
        (s[11] + s[20]) as i64,
        (s[12] + s[19]) as i64,
        (s[13] + s[18]) as i64,
        (s[14] + s[17]) as i64,
        (s[15] + s[16]) as i64,
        (-s[16] + s[15]) as i64,
        (-s[17] + s[14]) as i64,
        (-s[18] + s[13]) as i64,
        (-s[19] + s[12]) as i64,
        (-s[20] + s[11]) as i64,
        (-s[21] + s[10]) as i64,
        (-s[22] + s[9]) as i64,
        (-s[23] + s[8]) as i64,
        (-s[24] + s[7]) as i64,
        (-s[25] + s[6]) as i64,
        (-s[26] + s[5]) as i64,
        (-s[27] + s[4]) as i64,
        (-s[28] + s[3]) as i64,
        (-s[29] + s[2]) as i64,
        (-s[30] + s[1]) as i64,
        (-s[31] + s[0]) as i64,
    ]
}

fn fdct32_stage1(s: &[i64; 32]) -> (r: [i64; 32])
    requires
        bounded64(s@, 0x100_0000_0000),
    ensures
        r@ == fdct32_s1(s@),
        bounded64(r@, 0x200_0000_0000),
{
    let r = [
        s[0] + s[31],
        s[1] + s[30],
        s[2] + s[29],
        s[3] + s[28],
        s[4] + s[27],
        s[5] + s[26],
        s[6] + s[25],
        s[7] + s[24],
        s[8] + s[23],
        s[9] + s[22],
        s[10] + s[21],
        s[11] + s[20],
        s[12] + s[19],
        s[13] + s[18],
        s[14] + s[17],
        s[15] + s[16],
        -s[16] + s[15],
        -s[17] + s[14],
        -s[18] + s[13],
        -s[19] + s[12],
        -s[20] + s[11],
        -s[21] + s[10],
        -s[22] + s[9],
        -s[23] + s[8],
        -s[24] + s[7],
        -s[25] + s[6],
        -s[26] + s[5],
        -s[27] + s[4],
        -s[28] + s[3],
        -s[29] + s[2],
        -s[30] + s[1],
        -s[31] + s[0],
    ];
    assert(r@ =~= fdct32_s1(s@)) by {
        reveal(fdct32_s1);
    }
    r
}

/// Stage 2 of the 1-D forward DCT32.
#[verifier::opaque]
pub open spec fn fdct32_s2(s: Seq<i64>) -> Seq<i32> {
    seq![
        (s[0] + s[15]) as i32,
        (s[1] + s[14]) as i32,
        (s[2] + s[13]) as i32,
        (s[3] + s[12]) as i32,
        (s[4] + s[11]) as i32,
        (s[5] + s[10]) as i32,
        (s[6] + s[9]) as i32,
        (s[7] + s[8]) as i32,
        (-s[8] + s[7]) as i32,
        (-s[9] + s[6]) as i32,
        (-s[10] + s[5]) as i32,
        (-s[11] + s[4]) as i32,
        (-s[12] + s[3]) as i32,
        (-s[13] + s[2]) as i32,
        (-s[14] + s[1]) as i32,
        (-s[15] + s[0]) as i32,
        s[16] as i32,
        s[17] as i32,
        s[18] as i32,
        s[19] as i32,
        dct_round((-s[20] + s[27]) * COSPI_16_64),
        dct_round((-s[21] + s[26]) * COSPI_16_64),
        dct_round((-s[22] + s[25]) * COSPI_16_64),
        dct_round((-s[23] + s[24]) * COSPI_16_64),
        dct_round((s[24] + s[23]) * COSPI_16_64),
        dct_round((s[25] + s[22]) * COSPI_16_64),
        dct_round((s[26] + s[21]) * COSPI_16_64),
        dct_round((s[27] + s[20]) * COSPI_16_64),
        s[28] as i32,
        s[29] as i32,
        s[30] as i32,
        s[31] as i32,
    ]
}

fn fdct32_stage2(s: &[i64; 32]) -> (r: [i32; 32])
    requires
        bounded64(s@, 0x200_0000_0000),
    ensures
        r@ == fdct32_s2(s@),
{
    let r = [
        (s[0] + s[15]) as i32,
        (s[1] + s[14]) as i32,
        (s[2] + s[13]) as i32,
        (s[3] + s[12]) as i32,
        (s[4] + s[11]) as i32,
        (s[5] + s[10]) as i32,
        (s[6] + s[9]) as i32,
        (s[7] + s[8]) as i32,
        (-s[8] + s[7]) as i32,
        (-s[9] + s[6]) as i32,
        (-s[10] + s[5]) as i32,
        (-s[11] + s[4]) as i32,
        (-s[12] + s[3]) as i32,
        (-s[13] + s[2]) as i32,
        (-s[14] + s[1]) as i32,
        (-s[15] + s[0]) as i32,
        s[16] as i32,
        s[17] as i32,
        s[18] as i32,
        s[19] as i32,
        dct_32_round((-s[20] + s[27]) * COSPI_16_64),
        dct_32_round((-s[21] + s[26]) * COSPI_16_64),
        dct_32_round((-s[22] + s[25]) * COSPI_16_64),
        dct_32_round((-s[23] + s[24]) * COSPI_16_64),
        dct_32_round((s[24] + s[23]) * COSPI_16_64),
        dct_32_round((s[25] + s[22]) * COSPI_16_64),
        dct_32_round((s[26] + s[21]) * COSPI_16_64),
        dct_32_round((s[27] + s[20]) * COSPI_16_64),
        s[28] as i32,
        s[29] as i32,
        s[30] as i32,
        s[31] as i32,
    ];
    assert(r@ =~= fdct32_s2(s@)) by {
        reveal(fdct32_s2);
    }
    r
}

/// Stage 3 of the 1-D forward DCT32.
#[verifier::opaque]
pub open spec fn fdct32_s3(s: Seq<i32>) -> Seq<i64> {
    seq![
        (s[0] + s[7]) as i64,
        (s[1] + s[6]) as i64,
        (s[2] + s[5]) as i64,
        (s[3] + s[4]) as i64,
        (-s[4] + s[3]) as i64,
        (-s[5] + s[2]) as i64,
        (-s[6] + s[1]) as i64,
        (-s[7] + s[0]) as i64,
        s[8] as i64,
        s[9] as i64,
        dct_round((-s[10] + s[13]) * COSPI_16_64) as i64,
        dct_round((-s[11] + s[12]) * COSPI_16_64) as i64,
        dct_round((s[12] + s[11]) * COSPI_16_64) as i64,
        dct_round((s[13] + s[10]) * COSPI_16_64) as i64,
        s[14] as i64,
        s[15] as i64,
        (s[16] + s[23]) as i64,
        (s[17] + s[22]) as i64,
        (s[18] + s[21]) as i64,
        (s[19] + s[20]) as i64,
        (-s[20] + s[19]) as i64,
        (-s[21] + s[18]) as i64,
        (-s[22] + s[17]) as i64,
        (-s[23] + s[16]) as i64,
        (-s[24] + s[31]) as i64,
        (-s[25] + s[30]) as i64,
        (-s[26] + s[29]) as i64,
        (-s[27] + s[28]) as i64,
        (s[28] + s[27]) as i64,
        (s[29] + s[26]) as i64,
        (s[30] + s[25]) as i64,
        (s[31] + s[24]) as i64,
    ]
}

fn fdct32_stage3(s: &[i32; 32]) -> (r: [i64; 32])
    ensures
        r@ == fdct32_s3(s@),
        bounded64(r@, 0x200_0000_0000),
{
    let r = [
        s[0] as i64 + s[7] as i64,
        s[1] as i64 + s[6] as i64,
        s[2] as i64 + s[5] as i64,
        s[3] as i64 + s[4] as i64,
        -(s[4] as i64) + s[3] as i64,
        -(s[5] as i64) + s[2] as i64,
        -(s[6] as i64) + s[1] as i64,
        -(s[7] as i64) + s[0] as i64,
        s[8] as i64,
        s[9] as i64,
        dct_32_round((-(s[10] as i64) + s[13] as i64) * COSPI_16_64) as i64,
        dct_32_round((-(s[11] as i64) + s[12] as i64) * COSPI_16_64) as i64,
        dct_32_round((s[12] as i64 + s[11] as i64) * COSPI_16_64) as i64,
        dct_32_round((s[13] as i64 + s[10] as i64) * COSPI_16_64) as i64,
        s[14] as i64,
        s[15] as i64,
        s[16] as i64 + s[23] as i64,
        s[17] as i64 + s[22] as i64,
        s[18] as i64 + s[21] as i64,
        s[19] as i64 + s[20] as i64,
        -(s[20] as i64) + s[19] as i64,
        -(s[21] as i64) + s[18] as i64,
        -(s[22] as i64) + s[17] as i64,
        -(s[23] as i64) + s[16] as i64,
        -(s[24] as i64) + s[31] as i64,
        -(s[25] as i64) + s[30] as i64,
        -(s[26] as i64) + s[29] as i64,
        -(s[27] as i64) + s[28] as i64,
        s[28] as i64 + s[27] as i64,
        s[29] as i64 + s[26] as i64,
        s[30] as i64 + s[25] as i64,
        s[31] as i64 + s[24] as i64,
    ];
    assert(r@ =~= fdct32_s3(s@)) by {
        reveal(fdct32_s3);
    }
    r
}

/// Stage 4 of the 1-D forward DCT32.
#[verifier::opaque]
pub open spec fn fdct32_s4(s: Seq<i64>) -> Seq<i32> {
    seq![
        (s[0] + s[3]) as i32,
        (s[1] + s[2]) as i32,
        (-s[2] + s[1]) as i32,
        (-s[3] + s[0]) as i32,
        s[4] as i32,
        dct_round((-s[5] + s[6]) * COSPI_16_64),
        dct_round((s[6] + s[5]) * COSPI_16_64),
        s[7] as i32,
        (s[8] + s[11]) as i32,
        (s[9] + s[10]) as i32,
        (-s[10] + s[9]) as i32,
        (-s[11] + s[8]) as i32,
        (-s[12] + s[15]) as i32,
        (-s[13] + s[14]) as i32,
        (s[14] + s[13]) as i32,
        (s[15] + s[12]) as i32,
        s[16] as i32,
        s[17] as i32,
        dct_round(-(s[18] * COSPI_8_64) + s[29] * COSPI_24_64),
        dct_round(-(s[19] * COSPI_8_64) + s[28] * COSPI_24_64),
        dct_round(-(s[20] * COSPI_24_64) - s[27] * COSPI_8_64),
        dct_round(-(s[21] * COSPI_24_64) - s[26] * COSPI_8_64),
        s[22] as i32,
        s[23] as i32,
        s[24] as i32,
        s[25] as i32,
        dct_round(s[26] * COSPI_24_64 - s[21] * COSPI_8_64),
        dct_round(s[27] * COSPI_24_64 - s[20] * COSPI_8_64),
        dct_round(s[28] * COSPI_8_64 + s[19] * COSPI_24_64),
        dct_round(s[29] * COSPI_8_64 + s[18] * COSPI_24_64),
        s[30] as i32,
        s[31] as i32,
    ]
}

fn fdct32_stage4(s: &[i64; 32]) -> (r: [i32; 32])
    requires
        bounded64(s@, 0x200_0000_0000),
    ensures
        r@ == fdct32_s4(s@),
{
    let r = [
        (s[0] + s[3]) as i32,
        (s[1] + s[2]) as i32,
        (-s[2] + s[1]) as i32,
        (-s[3] + s[0]) as i32,
        s[4] as i32,
        dct_32_round((-s[5] + s[6]) * COSPI_16_64),
        dct_32_round((s[6] + s[5]) * COSPI_16_64),
        s[7] as i32,
        (s[8] + s[11]) as i32,
        (s[9] + s[10]) as i32,
        (-s[10] + s[9]) as i32,
        (-s[11] + s[8]) as i32,
        (-s[12] + s[15]) as i32,
        (-s[13] + s[14]) as i32,
        (s[14] + s[13]) as i32,
        (s[15] + s[12]) as i32,
        s[16] as i32,
        s[17] as i32,
        dct_32_round(-(s[18] * COSPI_8_64) + s[29] * COSPI_24_64),
        dct_32_round(-(s[19] * COSPI_8_64) + s[28] * COSPI_24_64),
        dct_32_round(-(s[20] * COSPI_24_64) - s[27] * COSPI_8_64),
        dct_32_round(-(s[21] * COSPI_24_64) - s[26] * COSPI_8_64),
        s[22] as i32,
        s[23] as i32,
        s[24] as i32,
        s[25] as i32,
        dct_32_round(s[26] * COSPI_24_64 - s[21] * COSPI_8_64),
        dct_32_round(s[27] * COSPI_24_64 - s[20] * COSPI_8_64),
        dct_32_round(s[28] * COSPI_8_64 + s[19] * COSPI_24_64),
        dct_32_round(s[29] * COSPI_8_64 + s[18] * COSPI_24_64),
        s[30] as i32,
        s[31] as i32,
    ];
    assert(r@ =~= fdct32_s4(s@)) by {
        reveal(fdct32_s4);
    }
    r
}

/// Stage 5 of the 1-D forward DCT32.
#[verifier::opaque]
pub open spec fn fdct32_s5(s: Seq<i32>) -> Seq<i64> {
    seq![
        dct_round((s[0] + s[1]) * COSPI_16_64) as i64,
        dct_round((-s[1] + s[0]) * COSPI_16_64) as i64,
        dct_round(s[2] * COSPI_24_64 + s[3] * COSPI_8_64) as i64,
        dct_round(s[3] * COSPI_24_64 - s[2] * COSPI_8_64) as i64,
        (s[4] + s[5]) as i64,
        (-s[5] + s[4]) as i64,
        (-s[6] + s[7]) as i64,
        (s[7] + s[6]) as i64,
        s[8] as i64,
        dct_round(-(s[9] * COSPI_8_64) + s[14] * COSPI_24_64) as i64,
        dct_round(-(s[10] * COSPI_24_64) - s[13] * COSPI_8_64) as i64,
        s[11] as i64,
        s[12] as i64,
        dct_round(s[13] * COSPI_24_64 - s[10] * COSPI_8_64) as i64,
        dct_round(s[14] * COSPI_8_64 + s[9] * COSPI_24_64) as i64,
        s[15] as i64,
        (s[16] + s[19]) as i64,
        (s[17] + s[18]) as i64,
        (-s[18] + s[17]) as i64,
        (-s[19] + s[16]) as i64,
        (-s[20] + s[23]) as i64,
        (-s[21] + s[22]) as i64,
        (s[22] + s[21]) as i64,
        (s[23] + s[20]) as i64,
        (s[24] + s[27]) as i64,
        (s[25] + s[26]) as i64,
        (-s[26] + s[25]) as i64,
        (-s[27] + s[24]) as i64,
        (-s[28] + s[31]) as i64,
        (-s[29] + s[30]) as i64,
        (s[30] + s[29]) as i64,
        (s[31] + s[28]) as i64,
    ]
}

fn fdct32_stage5(s: &[i32; 32]) -> (r: [i64; 32])
    ensures
        r@ == fdct32_s5(s@),
        bounded64(r@, 0x200_0000_0000),
{
    let r = [
        dct_32_round((s[0] as i64 + s[1] as i64) * COSPI_16_64) as i64,
        dct_32_round((-(s[1] as i64) + s[0] as i64) * COSPI_16_64) as i64,
        dct_32_round(s[2] as i64 * COSPI_24_64 + s[3] as i64 * COSPI_8_64) as i64,
        dct_32_round(s[3] as i64 * COSPI_24_64 - s[2] as i64 * COSPI_8_64) as i64,
        s[4] as i64 + s[5] as i64,
        -(s[5] as i64) + s[4] as i64,
        -(s[6] as i64) + s[7] as i64,
        s[7] as i64 + s[6] as i64,
        s[8] as i64,
        dct_32_round(-(s[9] as i64 * COSPI_8_64) + s[14] as i64 * COSPI_24_64) as i64,
        dct_32_round(-(s[10] as i64 * COSPI_24_64) - s[13] as i64 * COSPI_8_64) as i64,
        s[11] as i64,
        s[12] as i64,
        dct_32_round(s[13] as i64 * COSPI_24_64 - s[10] as i64 * COSPI_8_64) as i64,
        dct_32_round(s[14] as i64 * COSPI_8_64 + s[9] as i64 * COSPI_24_64) as i64,
        s[15] as i64,
        s[16] as i64 + s[19] as i64,
        s[17] as i64 + s[18] as i64,
        -(s[18] as i64) + s[17] as i64,
        -(s[19] as i64) + s[16] as i64,
        -(s[20] as i64) + s[23] as i64,
        -(s[21] as i64) + s[22] as i64,
        s[22] as i64 + s[21] as i64,
        s[23] as i64 + s[20] as i64,
        s[24] as i64 + s[27] as i64,
        s[25] as i64 + s[26] as i64,
        -(s[26] as i64) + s[25] as i64,
        -(s[27] as i64) + s[24] as i64,
        -(s[28] as i64) + s[31] as i64,
        -(s[29] as i64) + s[30] as i64,
        s[30] as i64 + s[29] as i64,
        s[31] as i64 + s[28] as i64,
    ];
    assert(r@ =~= fdct32_s5(s@)) by {
        reveal(fdct32_s5);
    }
    r
}

/// Stage 6 of the 1-D forward DCT32.
#[verifier::opaque]
pub open spec fn fdct32_s6(s: Seq<i64>) -> Seq<i32> {
    seq![
        s[0] as i32,
        s[1] as i32,
        s[2] as i32,
        s[3] as i32,
        dct_round(s[4] * COSPI_28_64 + s[7] * COSPI_4_64),
        dct_round(s[5] * COSPI_12_64 + s[6] * COSPI_20_64),
        dct_round(s[6] * COSPI_12_64 - s[5] * COSPI_20_64),
        dct_round(s[7] * COSPI_28_64 - s[4] * COSPI_4_64),
        (s[8] + s[9]) as i32,
        (-s[9] + s[8]) as i32,
        (-s[10] + s[11]) as i32,
        (s[11] + s[10]) as i32,
        (s[12] + s[13]) as i32,
        (-s[13] + s[12]) as i32,
        (-s[14] + s[15]) as i32,
        (s[15] + s[14]) as i32,
        s[16] as i32,
        dct_round(-(s[17] * COSPI_4_64) + s[30] * COSPI_28_64),
        dct_round(-(s[18] * COSPI_28_64) - s[29] * COSPI_4_64),
        s[19] as i32,
        s[20] as i32,
        dct_round(-(s[21] * COSPI_20_64) + s[26] * COSPI_12_64),
        dct_round(-(s[22] * COSPI_12_64) - s[25] * COSPI_20_64),
        s[23] as i32,
        s[24] as i32,
        dct_round(s[25] * COSPI_12_64 - s[22] * COSPI_20_64),
        dct_round(s[26] * COSPI_20_64 + s[21] * COSPI_12_64),
        s[27] as i32,
        s[28] as i32,
        dct_round(s[29] * COSPI_28_64 - s[18] * COSPI_4_64),
        dct_round(s[30] * COSPI_4_64 + s[17] * COSPI_28_64),
        s[31] as i32,
    ]
}

fn fdct32_stage6(s: &[i64; 32]) -> (r: [i32; 32])
    requires
        bounded64(s@, 0x200_0000_0000),
    ensures
        r@ == fdct32_s6(s@),
{
    let r = [
        s[0] as i32,
        s[1] as i32,
        s[2] as i32,
        s[3] as i32,
        dct_32_round(s[4] * COSPI_28_64 + s[7] * COSPI_4_64),
        dct_32_round(s[5] * COSPI_12_64 + s[6] * COSPI_20_64),
        dct_32_round(s[6] * COSPI_12_64 - s[5] * COSPI_20_64),
        dct_32_round(s[7] * COSPI_28_64 - s[4] * COSPI_4_64),
        (s[8] + s[9]) as i32,
        (-s[9] + s[8]) as i32,
        (-s[10] + s[11]) as i32,
        (s[11] + s[10]) as i32,
        (s[12] + s[13]) as i32,
        (-s[13] + s[12]) as i32,
        (-s[14] + s[15]) as i32,
        (s[15] + s[14]) as i32,
        s[16] as i32,
        dct_32_round(-(s[17] * COSPI_4_64) + s[30] * COSPI_28_64),
        dct_32_round(-(s[18] * COSPI_28_64) - s[29] * COSPI_4_64),
        s[19] as i32,
        s[20] as i32,
        dct_32_round(-(s[21] * COSPI_20_64) + s[26] * COSPI_12_64),
        dct_32_round(-(s[22] * COSPI_12_64) - s[25] * COSPI_20_64),
        s[23] as i32,
        s[24] as i32,
        dct_32_round(s[25] * COSPI_12_64 - s[22] * COSPI_20_64),
        dct_32_round(s[26] * COSPI_20_64 + s[21] * COSPI_12_64),
        s[27] as i32,
        s[28] as i32,
        dct_32_round(s[29] * COSPI_28_64 - s[18] * COSPI_4_64),
        dct_32_round(s[30] * COSPI_4_64 + s[17] * COSPI_28_64),
        s[31] as i32,
    ];
    assert(r@ =~= fdct32_s6(s@)) by {
        reveal(fdct32_s6);
    }
    r
}

/// Stage 7 of the 1-D forward DCT32.
#[verifier::opaque]
pub open spec fn fdct32_s7(s: Seq<i32>) -> Seq<i64> {
    seq![
        s[0] as i64,
        s[1] as i64,
        s[2] as i64,
        s[3] as i64,
        s[4] as i64,
        s[5] as i64,
        s[6] as i64,
        s[7] as i64,
        dct_round(s[8] * COSPI_30_64 + s[15] * COSPI_2_64) as i64,
        dct_round(s[9] * COSPI_14_64 + s[14] * COSPI_18_64) as i64,
        dct_round(s[10] * COSPI_22_64 + s[13] * COSPI_10_64) as i64,
        dct_round(s[11] * COSPI_6_64 + s[12] * COSPI_26_64) as i64,
        dct_round(s[12] * COSPI_6_64 - s[11] * COSPI_26_64) as i64,
        dct_round(s[13] * COSPI_22_64 - s[10] * COSPI_10_64) as i64,
        dct_round(s[14] * COSPI_14_64 - s[9] * COSPI_18_64) as i64,
        dct_round(s[15] * COSPI_30_64 - s[8] * COSPI_2_64) as i64,
        (s[16] + s[17]) as i64,
        (-s[17] + s[16]) as i64,
        (-s[18] + s[19]) as i64,
        (s[19] + s[18]) as i64,
        (s[20] + s[21]) as i64,
        (-s[21] + s[20]) as i64,
        (-s[22] + s[23]) as i64,
        (s[23] + s[22]) as i64,
        (s[24] + s[25]) as i64,
        (-s[25] + s[24]) as i64,
        (-s[26] + s[27]) as i64,
        (s[27] + s[26]) as i64,
        (s[28] + s[29]) as i64,
        (-s[29] + s[28]) as i64,
        (-s[30] + s[31]) as i64,
        (s[31] + s[30]) as i64,
    ]
}

fn fdct32_stage7(s: &[i32; 32]) -> (r: [i64; 32])
    ensures
        r@ == fdct32_s7(s@),
        bounded64(r@, 0x200_0000_0000),
{
    let r = [
        s[0] as i64,
        s[1] as i64,
        s[2] as i64,
        s[3] as i64,
        s[4] as i64,
        s[5] as i64,
        s[6] as i64,
        s[7] as i64,
        dct_32_round(s[8] as i64 * COSPI_30_64 + s[15] as i64 * COSPI_2_64) as i64,
        dct_32_round(s[9] as i64 * COSPI_14_64 + s[14] as i64 * COSPI_18_64) as i64,
        dct_32_round(s[10] as i64 * COSPI_22_64 + s[13] as i64 * COSPI_10_64) as i64,
        dct_32_round(s[11] as i64 * COSPI_6_64 + s[12] as i64 * COSPI_26_64) as i64,
        dct_32_round(s[12] as i64 * COSPI_6_64 - s[11] as i64 * COSPI_26_64) as i64,
        dct_32_round(s[13] as i64 * COSPI_22_64 - s[10] as i64 * COSPI_10_64) as i64,
        dct_32_round(s[14] as i64 * COSPI_14_64 - s[9] as i64 * COSPI_18_64) as i64,
        dct_32_round(s[15] as i64 * COSPI_30_64 - s[8] as i64 * COSPI_2_64) as i64,
        s[16] as i64 + s[17] as i64,
        -(s[17] as i64) + s[16] as i64,
        -(s[18] as i64) + s[19] as i64,
        s[19] as i64 + s[18] as i64,
        s[20] as i64 + s[21] as i64,
        -(s[21] as i64) + s[20] as i64,
        -(s[22] as i64) + s[23] as i64,
        s[23] as i64 + s[22] as i64,
        s[24] as i64 + s[25] as i64,
        -(s[25] as i64) + s[24] as i64,
        -(s[26] as i64) + s[27] as i64,
        s[27] as i64 + s[26] as i64,
        s[28] as i64 + s[29] as i64,
        -(s[29] as i64) + s[28] as i64,
        -(s[30] as i64) + s[31] as i64,
        s[31] as i64 + s[30] as i64,
    ];
    assert(r@ =~= fdct32_s7(s@)) by {
        reveal(fdct32_s7);
    }
    r
}

/// Stage 8 of the 1-D forward DCT32.
#[verifier::opaque]
pub open spec fn fdct32_s8(s: Seq<i64>) -> Seq<i32> {
    seq![
        s[0] as i32,
        dct_round(s[16] * COSPI_31_64 + s[31] * COSPI_1_64),
        s[8] as i32,
        dct_round(s[24] * COSPI_3_64 - s[23] * COSPI_29_64),
        s[4] as i32,
        dct_round(s[20] * COSPI_27_64 + s[27] * COSPI_5_64),
        s[12] as i32,
        dct_round(s[28] * COSPI_7_64 - s[19] * COSPI_25_64),
        s[2] as i32,
        dct_round(s[18] * COSPI_23_64 + s[29] * COSPI_9_64),
        s[10] as i32,
        dct_round(s[26] * COSPI_11_64 - s[21] * COSPI_21_64),
        s[6] as i32,
        dct_round(s[22] * COSPI_19_64 + s[25] * COSPI_13_64),
        s[14] as i32,
        dct_round(s[30] * COSPI_15_64 - s[17] * COSPI_17_64),
        s[1] as i32,
        dct_round(s[17] * COSPI_15_64 + s[30] * COSPI_17_64),
        s[9] as i32,
        dct_round(s[25] * COSPI_19_64 - s[22] * COSPI_13_64),
        s[5] as i32,
        dct_round(s[21] * COSPI_11_64 + s[26] * COSPI_21_64),
        s[13] as i32,
        dct_round(s[29] * COSPI_23_64 - s[18] * COSPI_9_64),
        s[3] as i32,
        dct_round(s[19] * COSPI_7_64 + s[28] * COSPI_25_64),
        s[11] as i32,
        dct_round(s[27] * COSPI_27_64 - s[20] * COSPI_5_64),
        s[7] as i32,
        dct_round(s[23] * COSPI_3_64 + s[24] * COSPI_29_64),
        s[15] as i32,
        dct_round(s[31] * COSPI_31_64 - s[16] * COSPI_1_64),
    ]
}

fn fdct32_stage8(s: &[i64; 32]) -> (r: [i32; 32])
    requires
        bounded64(s@, 0x200_0000_0000),
    ensures
        r@ == fdct32_s8(s@),
{
    let r = [
        s[0] as i32,
        dct_32_round(s[16] * COSPI_31_64 + s[31] * COSPI_1_64),
        s[8] as i32,
        dct_32_round(s[24] * COSPI_3_64 - s[23] * COSPI_29_64),
        s[4] as i32,
        dct_32_round(s[20] * COSPI_27_64 + s[27] * COSPI_5_64),
        s[12] as i32,
        dct_32_round(s[28] * COSPI_7_64 - s[19] * COSPI_25_64),
        s[2] as i32,
        dct_32_round(s[18] * COSPI_23_64 + s[29] * COSPI_9_64),
        s[10] as i32,
        dct_32_round(s[26] * COSPI_11_64 - s[21] * COSPI_21_64),
        s[6] as i32,
        dct_32_round(s[22] * COSPI_19_64 + s[25] * COSPI_13_64),
        s[14] as i32,
        dct_32_round(s[30] * COSPI_15_64 - s[17] * COSPI_17_64),
        s[1] as i32,
        dct_32_round(s[17] * COSPI_15_64 + s[30] * COSPI_17_64),
        s[9] as i32,
        dct_32_round(s[25] * COSPI_19_64 - s[22] * COSPI_13_64),
        s[5] as i32,
        dct_32_round(s[21] * COSPI_11_64 + s[26] * COSPI_21_64),
        s[13] as i32,
        dct_32_round(s[29] * COSPI_23_64 - s[18] * COSPI_9_64),
        s[3] as i32,
        dct_32_round(s[19] * COSPI_7_64 + s[28] * COSPI_25_64),
        s[11] as i32,
        dct_32_round(s[27] * COSPI_27_64 - s[20] * COSPI_5_64),
        s[7] as i32,
        dct_32_round(s[23] * COSPI_3_64 + s[24] * COSPI_29_64),
        s[15] as i32,
        dct_32_round(s[31] * COSPI_31_64 - s[16] * COSPI_1_64),
    ];
    assert(r@ =~= fdct32_s8(s@)) by {
        reveal(fdct32_s8);
    }
    r
}

/// `half_round_shift` applied to every entry.
pub open spec fn spec_half_round_all(o: Seq<i32>) -> Seq<i32> {
    Seq::new(o.len(), |k: int| ((o[k] as int + 1) / 4) as i32)
}

fn half_round_all(o: &[i32; 32]) -> (r: [i32; 32])
    ensures
        r@ == spec_half_round_all(o@),
{
    let mut r = *o;
    let mut k: usize = 0;
    while k < 32
        invariant
            k <= 32,
            r@.len() == 32,
            forall|j: int| 0 <= j < k ==> #[trigger] r@[j] == spec_half_round_all(o@)[j],
            forall|j: int| k <= j < 32 ==> #[trigger] r@[j] == o@[j],
        decreases 32 - k,
    {
        r[k] = half_round_shift(r[k]);
        k += 1;
    }
    assert(r@ =~= spec_half_round_all(o@));
    r
}

/// 1-D forward DCT32 (libvpx `vpx_fdct32`); with `round`, every value is
/// `half_round_shift`ed after the second stage.
pub open spec fn spec_fdct32(x: Seq<i64>, round: bool) -> Seq<i32> {
    let t1 = fdct32_s1(x);
    let t2 = fdct32_s2(t1);
    let t2r = if round {
        spec_half_round_all(t2)
    } else {
        t2
    };
    let t3 = fdct32_s3(t2r);
    let t4 = fdct32_s4(t3);
    let t5 = fdct32_s5(t4);
    let t6 = fdct32_s6(t5);
    let t7 = fdct32_s7(t6);
    fdct32_s8(t7)
}

/// 1-D forward DCT32.
pub fn fdct32(input: &[i64; 32], output: &mut [i32; 32], round: bool)
    requires
        bounded64(input@, 0x100_0000_0000),
    ensures
        final(output)@ == spec_fdct32(input@, round),
{
    let t1 = fdct32_stage1(input);
    let t2 = fdct32_stage2(&t1);
    let t2r = if round {
        half_round_all(&t2)
    } else {
        t2
    };
    let t3 = fdct32_stage3(&t2r);
    let t4 = fdct32_stage4(&t3);
    let t5 = fdct32_stage5(&t4);
    let t6 = fdct32_stage6(&t5);
    let t7 = fdct32_stage7(&t6);
    *output = fdct32_stage8(&t7);
}

/// `n` zeros.
pub open spec fn zeros(n: nat) -> Seq<i32> {
    Seq::new(n, |k: int| 0i32)
}

/// The inverse DCT32 of all-zero coefficients is all zero.
pub proof fn lemma_idct32_zero()
    ensures
        spec_idct32(zeros(32)) == zeros(32),
{
    vstd::arithmetic::power2::lemma2_to64();
    assert(dct_round(0) == 0);
    let z = zeros(32);
    reveal(idct32_s1);
    reveal(idct32_s2);
    reveal(idct32_s3);
    reveal(idct32_s4);
    reveal(idct32_s5);
    reveal(idct32_s6);
    reveal(idct32_s7);
    reveal(idct32_s8);
    assert(idct32_s1(z) =~= z);
    assert(idct32_s2(z) =~= z);
    assert(idct32_s3(z) =~= z);
    assert(idct32_s4(z) =~= z);
    assert(idct32_s5(z) =~= z);
    assert(idct32_s6(z) =~= z);
    assert(idct32_s7(z) =~= z);
    assert(idct32_s8(z) =~= z);
}

/// Inverse 8×8 DCT and add (`vpx_idct8x8_64_add_c`): rows, then columns, residual
/// rounded by 5 bits and added with clamping.
pub fn idct8x8_add(input: &[i32; 64], dest: &mut [u8], stride: usize)
    requires
        old(dest)@.len() >= 7 * stride + 8,
        stride >= 8,
    ensures
        final(dest)@ == spec_add_block(
            old(dest)@,
            stride as int,
            8,
            spec_inverse_residual(input@, 8, Inv1d::Idct8, Inv1d::Idct8, 5),
        ),
{
    inverse_add(input, dest, stride, 8, Inv1d::Idct8, Inv1d::Idct8, 5);
}

/// Inverse 16×16 DCT and add (`vpx_idct16x16_256_add_c`): rows, then columns, residual
/// rounded by 6 bits and added with clamping.
pub fn idct16x16_add(input: &[i32; 256], dest: &mut [u8], stride: usize)
    requires
        old(dest)@.len() >= 15 * stride + 16,
        stride >= 16,
    ensures
        final(dest)@ == spec_add_block(
            old(dest)@,
            stride as int,
            16,
            spec_inverse_residual(input@, 16, Inv1d::Idct16, Inv1d::Idct16, 6),
        ),
{
    inverse_add(input, dest, stride, 16, Inv1d::Idct16, Inv1d::Idct16, 6);
}

/// Inverse 32×32 DCT and add (`vpx_idct32x32_1024_add_c`): rows, then columns, residual
/// rounded by 6 bits and added with clamping.
pub fn idct32x32_add(input: &[i32; 1024], dest: &mut [u8], stride: usize)
    requires
        old(dest)@.len() >= 31 * stride + 32,
        stride >= 32,
    ensures
        final(dest)@ == spec_add_block(
            old(dest)@,
            stride as int,
            32,
            spec_inverse_residual(input@, 32, Inv1d::Idct32, Inv1d::Idct32, 6),
        ),
{
    inverse_add(input, dest, stride, 32, Inv1d::Idct32, Inv1d::Idct32, 6);
}

/// One 1-D forward DCT8 pass of `vpx_fdct8x8_c` on the (already scaled)
/// column `v`.
#[verifier::opaque]
pub open spec fn spec_fdct8(v: Seq<i64>) -> Seq<i32> {
    let s0 = v[0] + v[7];
    let s1 = v[1] + v[6];
    let s2 = v[2] + v[5];
    let s3 = v[3] + v[4];
    let s4 = v[3] - v[4];
    let s5 = v[2] - v[5];
    let s6 = v[1] - v[6];
    let s7 = v[0] - v[7];
    let x0 = s0 + s3;
    let x1 = s1 + s2;
    let x2 = s1 - s2;
    let x3 = s0 - s3;
    let t2 = dct_round((s6 - s5) * COSPI_16_64) as int;
    let t3 = dct_round((s6 + s5) * COSPI_16_64) as int;
    let y0 = s4 + t2;
    let y1 = s4 - t2;
    let y2 = s7 - t3;
    let y3 = s7 + t3;
    seq![
        dct_round((x0 + x1) * COSPI_16_64),
        dct_round(y0 * COSPI_28_64 + y3 * COSPI_4_64),
        dct_round(x2 * COSPI_24_64 + x3 * COSPI_8_64),
        dct_round(y2 * COSPI_12_64 - y1 * COSPI_20_64),
        dct_round((x0 - x1) * COSPI_16_64),
        dct_round(y1 * COSPI_12_64 + y2 * COSPI_20_64),
        dct_round(-x2 * COSPI_8_64 + x3 * COSPI_24_64),
        dct_round(y3 * COSPI_28_64 - y0 * COSPI_4_64),
    ]
}

fn fdct8_pass(v: &[i64; 8]) -> (out: [i32; 8])
    requires
        bounded64(v@, 0x4_0000_0000),
    ensures
        out@ == spec_fdct8(v@),
{
    assert(-0x4_0000_0000 <= v[0] <= 0x4_0000_0000);
    assert(-0x4_0000_0000 <= v[1] <= 0x4_0000_0000);
    assert(-0x4_0000_0000 <= v[2] <= 0x4_0000_0000);
    assert(-0x4_0000_0000 <= v[3] <= 0x4_0000_0000);
    assert(-0x4_0000_0000 <= v[4] <= 0x4_0000_0000);
    assert(-0x4_0000_0000 <= v[5] <= 0x4_0000_0000);
    assert(-0x4_0000_0000 <= v[6] <= 0x4_0000_0000);
    assert(-0x4_0000_0000 <= v[7] <= 0x4_0000_0000);
    let s0 = v[0] + v[7];
    let s1 = v[1] + v[6];
    let s2 = v[2] + v[5];
    let s3 = v[3] + v[4];
    let s4 = v[3] - v[4];
    let s5 = v[2] - v[5];
    let s6 = v[1] - v[6];
    let s7 = v[0] - v[7];
    let x0 = s0 + s3;
    let x1 = s1 + s2;
    let x2 = s1 - s2;
    let x3 = s0 - s3;
    let t0 = (x0 + x1) * COSPI_16_64;
    let t1 = (x0 - x1) * COSPI_16_64;
    let t2 = x2 * COSPI_24_64 + x3 * COSPI_8_64;
    let t3 = -x2 * COSPI_8_64 + x3 * COSPI_24_64;
    let d0 = fdct_round_shift(t0);
    let d2 = fdct_round_shift(t2);
    let d4 = fdct_round_shift(t1);
    let d6 = fdct_round_shift(t3);
    let t0 = (s6 - s5) * COSPI_16_64;
    let t1 = (s6 + s5) * COSPI_16_64;
    let t2 = fdct_round_shift(t0) as i64;
    let t3 = fdct_round_shift(t1) as i64;
    let x0 = s4 + t2;
    let x1 = s4 - t2;
    let x2 = s7 - t3;
    let x3 = s7 + t3;
    let t0 = x0 * COSPI_28_64 + x3 * COSPI_4_64;
    let t1 = x1 * COSPI_12_64 + x2 * COSPI_20_64;
    let t2 = x2 * COSPI_12_64 - x1 * COSPI_20_64;
    let t3 = x3 * COSPI_28_64 - x0 * COSPI_4_64;
    let out = [
        d0,
        fdct_round_shift(t0),
        d2,
        fdct_round_shift(t2),
        d4,
        fdct_round_shift(t1),
        d6,
        fdct_round_shift(t3),
    ];
    assert(out@ =~= spec_fdct8(v@)) by {
        reveal(spec_fdct8);
    }
    out
}

/// `v / 2` rounded toward zero (C division).
pub open spec fn trunc_div2(v: int) -> int {
    if v < 0 {
        -((-v) / 2)
    } else {
        v / 2
    }
}

fn div2_toward_zero(v: i32) -> (r: i32)
    ensures
        r as int == trunc_div2(v as int),
{
    let w = v as i64;
    proof {
        lemma_i64_shr(w, 1);
        lemma_i64_shr((-w) as i64, 1);
        vstd::arithmetic::power2::lemma2_to64();
    }
    if w < 0 {
        (-((-w) >> 1)) as i32
    } else {
        (w >> 1) as i32
    }
}

/// Column `i` of the 8×8 input, scaled by 4.
pub open spec fn fdct8_col_in(input: Seq<i16>, i: int) -> Seq<i64> {
    Seq::new(8, |k: int| (input[k * 8 + i] * 4) as i64)
}

/// After the first pass: row `i` holds the transform of input column `i`.
pub open spec fn fdct8_mid(input: Seq<i16>) -> Seq<i32> {
    Seq::new(64, |k: int| spec_fdct8(fdct8_col_in(input, k / 8))[k % 8])
}

/// Forward 8×8 DCT (`vpx_fdct8x8_c`): two transposing passes of the 1-D
/// DCT8 (the first on inputs scaled by 4), then every output halved
/// toward zero.
pub open spec fn spec_fdct8x8(input: Seq<i16>) -> Seq<i32> {
    let mid = fdct8_mid(input);
    Seq::new(64, |k: int| trunc_div2(
        spec_fdct8(Seq::new(8, |j: int| mid[j * 8 + k / 8] as i64))[k % 8] as int,
    ) as i32)
}

/// Forward 8×8 DCT of a row-major residual block.
pub fn fdct8x8(input: &[i16; 64], output: &mut [i32; 64])
    ensures
        final(output)@ == spec_fdct8x8(input@),
{
    let ghost mid = fdct8_mid(input@);
    let mut intermediate = [0i32; 64];
    let mut i: usize = 0;
    while i < 8
        invariant
            i <= 8,
            mid == fdct8_mid(input@),
            forall|k: int| 0 <= k < 8 * i ==> #[trigger] intermediate@[k] == mid[k],
        decreases 8 - i,
    {
        let v = [
            input[i] as i64 * 4,
            input[8 + i] as i64 * 4,
            input[16 + i] as i64 * 4,
            input[24 + i] as i64 * 4,
            input[32 + i] as i64 * 4,
            input[40 + i] as i64 * 4,
            input[48 + i] as i64 * 4,
            input[56 + i] as i64 * 4,
        ];
        assert(v@ =~= fdct8_col_in(input@, i as int));
        let d = fdct8_pass(&v);
        let mut j: usize = 0;
        while j < 8
            invariant
                i < 8,
                j <= 8,
                mid == fdct8_mid(input@),
                d@ == spec_fdct8(fdct8_col_in(input@, i as int)),
                forall|k: int| 0 <= k < 8 * i + j ==> #[trigger] intermediate@[k] == mid[k],
            decreases 8 - j,
        {
            intermediate[i * 8 + j] = d[j];
            proof {
                let k = (i * 8 + j) as int;
                assert(k / 8 == i && k % 8 == j);
            }
            j += 1;
        }
        i += 1;
    }
    let ghost res = spec_fdct8x8(input@);
    let mut i: usize = 0;
    while i < 8
        invariant
            i <= 8,
            mid == fdct8_mid(input@),
            res == spec_fdct8x8(input@),
            forall|k: int| 0 <= k < 64 ==> #[trigger] intermediate@[k] == mid[k],
            forall|k: int| 0 <= k < 8 * i ==> #[trigger] output@[k] == res[k],
        decreases 8 - i,
    {
        let v = [
            intermediate[i] as i64,
            intermediate[8 + i] as i64,
            intermediate[16 + i] as i64,
            intermediate[24 + i] as i64,
            intermediate[32 + i] as i64,
            intermediate[40 + i] as i64,
            intermediate[48 + i] as i64,
            intermediate[56 + i] as i64,
        ];
        assert(v@ =~= Seq::new(8, |j: int| mid[j * 8 + i] as i64));
        let d = fdct8_pass(&v);
        let mut j: usize = 0;
        while j < 8
            invariant
                i < 8,
                j <= 8,
                res == spec_fdct8x8(input@),
                d@ == spec_fdct8(Seq::new(8, |jj: int| mid[jj * 8 + i] as i64)),
                mid == fdct8_mid(input@),
                forall|k: int| 0 <= k < 8 * i + j ==> #[trigger] output@[k] == res[k],
            decreases 8 - j,
        {
            output[i * 8 + j] = div2_toward_zero(d[j]);
            proof {
                let k = (i * 8 + j) as int;
                assert(k / 8 == i && k % 8 == j);
            }
            j += 1;
        }
        i += 1;
    }
    assert(output@ =~= res);
}

/// One 1-D forward DCT16 pass of `vpx_fdct16x16_c`: `in_high` holds the
/// sums `col[k] + col[15 - k]`, `step1` the differences `col[7 - k] -
/// col[8 + k]`.
#[verifier::opaque]
pub open spec fn spec_fdct16_1d(in_high: Seq<i64>, step1: Seq<i64>) -> Seq<i32> {
    let s0 = in_high[0] + in_high[7];
    let s1 = in_high[1] + in_high[6];
    let s2 = in_high[2] + in_high[5];
    let s3 = in_high[3] + in_high[4];
    let s4 = in_high[3] - in_high[4];
    let s5 = in_high[2] - in_high[5];
    let s6 = in_high[1] - in_high[6];
    let s7 = in_high[0] - in_high[7];
    let x0 = s0 + s3;
    let x1 = s1 + s2;
    let x2 = s1 - s2;
    let x3 = s0 - s3;
    let t2 = dct_round((s6 - s5) * COSPI_16_64) as int;
    let t3 = dct_round((s6 + s5) * COSPI_16_64) as int;
    let y0 = s4 + t2;
    let y1 = s4 - t2;
    let y2 = s7 - t3;
    let y3 = s7 + t3;
    let a2 = dct_round((step1[5] - step1[2]) * COSPI_16_64) as int;
    let a3 = dct_round((step1[4] - step1[3]) * COSPI_16_64) as int;
    let a4 = dct_round((step1[4] + step1[3]) * COSPI_16_64) as int;
    let a5 = dct_round((step1[5] + step1[2]) * COSPI_16_64) as int;
    let b0 = step1[0] + a3;
    let b1 = step1[1] + a2;
    let b2 = step1[1] - a2;
    let b3 = step1[0] - a3;
    let b4 = step1[7] - a4;
    let b5 = step1[6] - a5;
    let b6 = step1[6] + a5;
    let b7 = step1[7] + a4;
    let c1 = dct_round(-(b1 * COSPI_8_64) + b6 * COSPI_24_64) as int;
    let c2 = dct_round(b2 * COSPI_24_64 + b5 * COSPI_8_64) as int;
    let c5 = dct_round(b2 * COSPI_8_64 - b5 * COSPI_24_64) as int;
    let c6 = dct_round(b1 * COSPI_24_64 + b6 * COSPI_8_64) as int;
    let d0 = b0 + c1;
    let d1 = b0 - c1;
    let d2 = b3 + c2;
    let d3 = b3 - c2;
    let d4 = b4 - c5;
    let d5 = b4 + c5;
    let d6 = b7 - c6;
    let d7 = b7 + c6;
    seq![
        dct_round((x0 + x1) * COSPI_16_64),
        dct_round(d0 * COSPI_30_64 + d7 * COSPI_2_64),
        dct_round(y0 * COSPI_28_64 + y3 * COSPI_4_64),
        dct_round(-(d3 * COSPI_26_64) + d4 * COSPI_6_64),
        dct_round(x3 * COSPI_8_64 + x2 * COSPI_24_64),
        dct_round(d2 * COSPI_22_64 + d5 * COSPI_10_64),
        dct_round(y2 * COSPI_12_64 - y1 * COSPI_20_64),
        dct_round(-(d1 * COSPI_18_64) + d6 * COSPI_14_64),
        dct_round((x0 - x1) * COSPI_16_64),
        dct_round(d1 * COSPI_14_64 + d6 * COSPI_18_64),
        dct_round(y1 * COSPI_12_64 + y2 * COSPI_20_64),
        dct_round(-(d2 * COSPI_10_64) + d5 * COSPI_22_64),
        dct_round(x3 * COSPI_24_64 - x2 * COSPI_8_64),
        dct_round(d3 * COSPI_6_64 + d4 * COSPI_26_64),
        dct_round(y3 * COSPI_28_64 - y0 * COSPI_4_64),
        dct_round(-(d0 * COSPI_2_64) + d7 * COSPI_30_64),
    ]
}

/// One 1-D forward DCT16 pass.
#[verifier::spinoff_prover]
#[verifier::rlimit(60)]
pub fn fdct16_1d(in_high: [i64; 8], step1: [i64; 8], out: &mut [i32; 16])
    requires
        bounded64(in_high@, 0x2_0000_0000),
        bounded64(step1@, 0x2_0000_0000),
    ensures
        final(out)@ == spec_fdct16_1d(in_high@, step1@),
{
    assert(-0x2_0000_0000 <= in_high[0] <= 0x2_0000_0000 && -0x2_0000_0000 <= step1[0] <= 0x2_0000_0000);
    assert(-0x2_0000_0000 <= in_high[1] <= 0x2_0000_0000 && -0x2_0000_0000 <= step1[1] <= 0x2_0000_0000);
    assert(-0x2_0000_0000 <= in_high[2] <= 0x2_0000_0000 && -0x2_0000_0000 <= step1[2] <= 0x2_0000_0000);
    assert(-0x2_0000_0000 <= in_high[3] <= 0x2_0000_0000 && -0x2_0000_0000 <= step1[3] <= 0x2_0000_0000);
    assert(-0x2_0000_0000 <= in_high[4] <= 0x2_0000_0000 && -0x2_0000_0000 <= step1[4] <= 0x2_0000_0000);
    assert(-0x2_0000_0000 <= in_high[5] <= 0x2_0000_0000 && -0x2_0000_0000 <= step1[5] <= 0x2_0000_0000);
    assert(-0x2_0000_0000 <= in_high[6] <= 0x2_0000_0000 && -0x2_0000_0000 <= step1[6] <= 0x2_0000_0000);
    assert(-0x2_0000_0000 <= in_high[7] <= 0x2_0000_0000 && -0x2_0000_0000 <= step1[7] <= 0x2_0000_0000);
    let s0 = in_high[0] + in_high[7];
    let s1 = in_high[1] + in_high[6];
    let s2 = in_high[2] + in_high[5];
    let s3 = in_high[3] + in_high[4];
    let s4 = in_high[3] - in_high[4];
    let s5 = in_high[2] - in_high[5];
    let s6 = in_high[1] - in_high[6];
    let s7 = in_high[0] - in_high[7];
    let x0 = s0 + s3;
    let x1 = s1 + s2;
    let x2 = s1 - s2;
    let x3 = s0 - s3;
    let o0 = fdct_round_shift((x0 + x1) * COSPI_16_64);
    let o4 = fdct_round_shift(x3 * COSPI_8_64 + x2 * COSPI_24_64);
    let o8 = fdct_round_shift((x0 - x1) * COSPI_16_64);
    let o12 = fdct_round_shift(x3 * COSPI_24_64 - x2 * COSPI_8_64);
    let t2 = fdct_round_shift((s6 - s5) * COSPI_16_64) as i64;
    let t3 = fdct_round_shift((s6 + s5) * COSPI_16_64) as i64;
    let y0 = s4 + t2;
    let y1 = s4 - t2;
    let y2 = s7 - t3;
    let y3 = s7 + t3;
    let o2 = fdct_round_shift(y0 * COSPI_28_64 + y3 * COSPI_4_64);
    let o6 = fdct_round_shift(y2 * COSPI_12_64 - y1 * COSPI_20_64);
    let o10 = fdct_round_shift(y1 * COSPI_12_64 + y2 * COSPI_20_64);
    let o14 = fdct_round_shift(y3 * COSPI_28_64 - y0 * COSPI_4_64);
    let a2 = fdct_round_shift((step1[5] - step1[2]) * COSPI_16_64) as i64;
    let a3 = fdct_round_shift((step1[4] - step1[3]) * COSPI_16_64) as i64;
    let a4 = fdct_round_shift((step1[4] + step1[3]) * COSPI_16_64) as i64;
    let a5 = fdct_round_shift((step1[5] + step1[2]) * COSPI_16_64) as i64;
    let b0 = step1[0] + a3;
    let b1 = step1[1] + a2;
    let b2 = step1[1] - a2;
    let b3 = step1[0] - a3;
    let b4 = step1[7] - a4;
    let b5 = step1[6] - a5;
    let b6 = step1[6] + a5;
    let b7 = step1[7] + a4;
    let c1 = fdct_round_shift(-(b1 * COSPI_8_64) + b6 * COSPI_24_64) as i64;
    let c2 = fdct_round_shift(b2 * COSPI_24_64 + b5 * COSPI_8_64) as i64;
    let c5 = fdct_round_shift(b2 * COSPI_8_64 - b5 * COSPI_24_64) as i64;
    let c6 = fdct_round_shift(b1 * COSPI_24_64 + b6 * COSPI_8_64) as i64;
    let d0 = b0 + c1;
    let d1 = b0 - c1;
    let d2 = b3 + c2;
    let d3 = b3 - c2;
    let d4 = b4 - c5;
    let d5 = b4 + c5;
    let d6 = b7 - c6;
    let d7 = b7 + c6;
    *out = [
        o0,
        fdct_round_shift(d0 * COSPI_30_64 + d7 * COSPI_2_64),
        o2,
        fdct_round_shift(-(d3 * COSPI_26_64) + d4 * COSPI_6_64),
        o4,
        fdct_round_shift(d2 * COSPI_22_64 + d5 * COSPI_10_64),
        o6,
        fdct_round_shift(-(d1 * COSPI_18_64) + d6 * COSPI_14_64),
        o8,
        fdct_round_shift(d1 * COSPI_14_64 + d6 * COSPI_18_64),
        o10,
        fdct_round_shift(-(d2 * COSPI_10_64) + d5 * COSPI_22_64),
        o12,
        fdct_round_shift(d3 * COSPI_6_64 + d4 * COSPI_26_64),
        o14,
        fdct_round_shift(-(d0 * COSPI_2_64) + d7 * COSPI_30_64),
    ];
    assert(out@ =~= spec_fdct16_1d(in_high@, step1@)) by {
        reveal(spec_fdct16_1d);
    }
}

/// The DCT16 of a 16-entry column after scaling by `scale`.
pub open spec fn spec_fdct16_col(col: Seq<int>, scale: int) -> Seq<i32> {
    spec_fdct16_1d(
        Seq::new(8, |k: int| ((col[k] + col[15 - k]) * scale) as i64),
        Seq::new(8, |k: int| ((col[7 - k] - col[8 + k]) * scale) as i64),
    )
}

fn fdct16_column(col: &[i64; 16], scale: i64) -> (out: [i32; 16])
    requires
        bounded64(col@, 0x4000_0000),
        scale == 1 || scale == 4,
    ensures
        out@ == spec_fdct16_col(Seq::new(16, |r: int| col@[r] as int), scale as int),
{
    let mut in_high = [0i64; 8];
    let mut step1 = [0i64; 8];
    let mut k: usize = 0;
    while k < 8
        invariant
            k <= 8,
            bounded64(col@, 0x4000_0000),
            scale == 1 || scale == 4,
            forall|j: int| 0 <= j < k ==> #[trigger] in_high@[j] == (col@[j] + col@[15 - j]) * scale,
            forall|j: int| 0 <= j < k ==> #[trigger] step1@[j] == (col@[7 - j] - col@[8 + j]) * scale,
        decreases 8 - k,
    {
        assert(-0x4000_0000 <= col@[k as int] <= 0x4000_0000);
        assert(-0x4000_0000 <= col@[15 - k] <= 0x4000_0000);
        assert(-0x4000_0000 <= col@[7 - k] <= 0x4000_0000);
        assert(-0x4000_0000 <= col@[8 + k] <= 0x4000_0000);
        in_high[k] = (col[k] + col[15 - k]) * scale;
        step1[k] = (col[7 - k] - col[8 + k]) * scale;
        k += 1;
    }
    let ghost c = Seq::new(16, |r: int| col@[r] as int);
    assert(in_high@ =~= Seq::new(8, |k: int| ((c[k] + c[15 - k]) * scale) as i64));
    assert(step1@ =~= Seq::new(8, |k: int| ((c[7 - k] - c[8 + k]) * scale) as i64));
    let mut out = [0i32; 16];
    fdct16_1d(in_high, step1, &mut out);
    out
}

/// After the first pass: row `i` holds the DCT16 of input column `i`
/// scaled by 4.
pub open spec fn fdct16_mid(input: Seq<i16>) -> Seq<i32> {
    Seq::new(256, |k: int| spec_fdct16_col(Seq::new(16, |r: int| input[r * 16 + k / 16] as int), 4)[k % 16])
}

/// Forward 16×16 DCT (`vpx_fdct16x16_c`): a transposing DCT16 pass on the
/// input scaled by 4, then a second one on `(v + 1) >> 2` of the first.
pub open spec fn spec_fdct16x16(input: Seq<i16>) -> Seq<i32> {
    let mid = fdct16_mid(input);
    Seq::new(256, |k: int| spec_fdct16_col(Seq::new(16, |r: int| (mid[r * 16 + k / 16] as int + 1) / 4), 1)[k % 16])
}

/// Forward 16×16 DCT of a row-major residual block.
pub fn fdct16x16(input: &[i16; 256], output: &mut [i32; 256])
    ensures
        final(output)@ == spec_fdct16x16(input@),
{
    let ghost mid = fdct16_mid(input@);
    let mut intermediate = [0i32; 256];
    let mut i: usize = 0;
    while i < 16
        invariant
            i <= 16,
            mid == fdct16_mid(input@),
            forall|k: int| 0 <= k < 16 * i ==> #[trigger] intermediate@[k] == mid[k],
        decreases 16 - i,
    {
        let mut col = [0i64; 16];
        let mut r: usize = 0;
        while r < 16
            invariant
                i < 16,
                r <= 16,
                forall|j: int| 0 <= j < r ==> #[trigger] col@[j] == input@[j * 16 + i],
                forall|j: int| r <= j < 16 ==> #[trigger] col@[j] == 0,
            decreases 16 - r,
        {
            col[r] = input[r * 16 + i] as i64;
            r += 1;
        }
        assert(Seq::new(16, |r: int| col@[r] as int) =~= Seq::new(16, |r: int| input@[r * 16 + i] as int));
        let d = fdct16_column(&col, 4);
        let mut j: usize = 0;
        while j < 16
            invariant
                i < 16,
                j <= 16,
                mid == fdct16_mid(input@),
                d@ == spec_fdct16_col(Seq::new(16, |r: int| input@[r * 16 + i] as int), 4),
                forall|k: int| 0 <= k < 16 * i + j ==> #[trigger] intermediate@[k] == mid[k],
            decreases 16 - j,
        {
            intermediate[i * 16 + j] = d[j];
            proof {
                let k = (i * 16 + j) as int;
                assert(k / 16 == i && k % 16 == j);
            }
            j += 1;
        }
        i += 1;
    }
    let ghost res = spec_fdct16x16(input@);
    let mut i: usize = 0;
    while i < 16
        invariant
            i <= 16,
            mid == fdct16_mid(input@),
            res == spec_fdct16x16(input@),
            forall|k: int| 0 <= k < 256 ==> #[trigger] intermediate@[k] == mid[k],
            forall|k: int| 0 <= k < 16 * i ==> #[trigger] output@[k] == res[k],
        decreases 16 - i,
    {
        let mut col = [0i64; 16];
        let mut r: usize = 0;
        while r < 16
            invariant
                i < 16,
                r <= 16,
                forall|k: int| 0 <= k < 256 ==> #[trigger] intermediate@[k] == mid[k],
                forall|j: int| 0 <= j < r ==> #[trigger] col@[j] == (mid[j * 16 + i] as int + 1) / 4,
                forall|j: int| r <= j < 16 ==> #[trigger] col@[j] == 0,
            decreases 16 - r,
        {
            col[r] = half_round_shift(intermediate[r * 16 + i]) as i64;
            r += 1;
        }
        assert(Seq::new(16, |r: int| col@[r] as int) =~= Seq::new(16, |r: int| (mid[r * 16 + i] as int + 1) / 4));
        let d = fdct16_column(&col, 1);
        let mut j: usize = 0;
        while j < 16
            invariant
                i < 16,
                j <= 16,
                res == spec_fdct16x16(input@),
                mid == fdct16_mid(input@),
                d@ == spec_fdct16_col(Seq::new(16, |r: int| (mid[r * 16 + i] as int + 1) / 4), 1),
                forall|k: int| 0 <= k < 16 * i + j ==> #[trigger] output@[k] == res[k],
            decreases 16 - j,
        {
            output[i * 16 + j] = d[j];
            proof {
                let k = (i * 16 + j) as int;
                assert(k / 16 == i && k % 16 == j);
            }
            j += 1;
        }
        i += 1;
    }
    assert(output@ =~= res);
}

/// `(v + 1 + (v > 0)) >> 2`: the column-pass rounding of `vpx_fdct32x32_c`.
pub open spec fn round_col32(v: int) -> int {
    (v + 1 + (if v > 0 {
        1int
    } else {
        0int
    })) / 4
}

/// `(v + 1 + (v < 0)) >> 2`: the row-pass rounding of `vpx_fdct32x32_c`.
pub open spec fn round_row32(v: int) -> int {
    (v + 1 + (if v < 0 {
        1int
    } else {
        0int
    })) / 4
}

fn shift2(t: i64) -> (r: i32)
    requires
        -0x1_0000_0000 <= t <= 0x1_0000_0000,
    ensures
        r as int == t as int / 4,
{
    proof {
        lemma_i64_shr(t, 2);
        vstd::arithmetic::power2::lemma2_to64();
    }
    (t >> 2) as i32
}

/// Column `i` of the 32×32 input, scaled by 4.
pub open spec fn fdct32_col_in(input: Seq<i16>, i: int) -> Seq<i64> {
    Seq::new(32, |j: int| (input[j * 32 + i] * 4) as i64)
}

/// After the column pass (stored in place, column by column).
pub open spec fn fdct32_mid(input: Seq<i16>) -> Seq<i32> {
    Seq::new(1024, |k: int| round_col32(spec_fdct32(fdct32_col_in(input, k % 32), false)[k / 32] as int) as i32)
}

/// Forward 32×32 DCT (`vpx_fdct32x32_c`): DCT32 of every column scaled by
/// 4, rounded by `round_col32`, then DCT32 of every row, rounded by
/// `round_row32`.
pub open spec fn spec_fdct32x32(input: Seq<i16>) -> Seq<i32> {
    let mid = fdct32_mid(input);
    Seq::new(1024, |k: int| round_row32(
        spec_fdct32(Seq::new(32, |j: int| mid[j + k / 32 * 32] as i64), false)[k % 32] as int,
    ) as i32)
}

/// Forward 32×32 DCT of a row-major residual block.
pub fn fdct32x32(input: &[i16; 1024], output: &mut [i32; 1024])
    ensures
        final(output)@ == spec_fdct32x32(input@),
{
    let ghost mid = fdct32_mid(input@);
    let mut intermediate = [0i32; 1024];
    let mut i: usize = 0;
    while i < 32
        invariant
            i <= 32,
            mid == fdct32_mid(input@),
            forall|k: int| 0 <= k < 1024 && k % 32 < i ==> #[trigger] intermediate@[k] == mid[k],
        decreases 32 - i,
    {
        let mut temp_in = [0i64; 32];
        let mut j: usize = 0;
        while j < 32
            invariant
                i < 32,
                j <= 32,
                forall|r: int| 0 <= r < j ==> #[trigger] temp_in@[r] == fdct32_col_in(input@, i as int)[r],
                forall|r: int| j <= r < 32 ==> #[trigger] temp_in@[r] == 0,
            decreases 32 - j,
        {
            temp_in[j] = input[j * 32 + i] as i64 * 4;
            j += 1;
        }
        assert(temp_in@ =~= fdct32_col_in(input@, i as int));
        let mut temp_out = [0i32; 32];
        fdct32(&temp_in, &mut temp_out, false);
        let mut j: usize = 0;
        while j < 32
            invariant
                i < 32,
                j <= 32,
                mid == fdct32_mid(input@),
                temp_out@ == spec_fdct32(fdct32_col_in(input@, i as int), false),
                forall|k: int| 0 <= k < 1024 && (k % 32 < i || (k % 32 == i && k / 32 < j)) ==> #[trigger] intermediate@[k] == mid[k],
            decreases 32 - j,
        {
            let v = temp_out[j];
            let t: i64 = v as i64 + 1 + if v > 0 {
                1i64
            } else {
                0i64
            };
            intermediate[j * 32 + i] = shift2(t);
            proof {
                let k = (j * 32 + i) as int;
                assert(k / 32 == j && k % 32 == i);
                assert forall|kk: int| 0 <= kk < 1024 && (kk % 32 < i || (kk % 32 == i && kk / 32 < j + 1)) implies #[trigger] intermediate@[kk] == mid[kk] by {
                    if kk % 32 == i && kk / 32 == j {
                        assert(kk == (kk / 32) * 32 + kk % 32);
                    }
                }
            }
            j += 1;
        }
        i += 1;
    }
    let ghost res = spec_fdct32x32(input@);
    let mut i: usize = 0;
    while i < 32
        invariant
            i <= 32,
            mid == fdct32_mid(input@),
            res == spec_fdct32x32(input@),
            forall|k: int| 0 <= k < 1024 ==> #[trigger] intermediate@[k] == mid[k],
            forall|k: int| 0 <= k < 32 * i ==> #[trigger] output@[k] == res[k],
        decreases 32 - i,
    {
        let mut temp_in = [0i64; 32];
        let mut j: usize = 0;
        while j < 32
            invariant
                i < 32,
                j <= 32,
                forall|k: int| 0 <= k < 1024 ==> #[trigger] intermediate@[k] == mid[k],
                forall|r: int| 0 <= r < j ==> #[trigger] temp_in@[r] == mid[r + i * 32] as i64,
                forall|r: int| j <= r < 32 ==> #[trigger] temp_in@[r] == 0,
            decreases 32 - j,
        {
            temp_in[j] = intermediate[j + i * 32] as i64;
            j += 1;
        }
        assert(temp_in@ =~= Seq::new(32, |r: int| mid[r + i * 32] as i64));
        let mut temp_out = [0i32; 32];
        fdct32(&temp_in, &mut temp_out, false);
        let mut j: usize = 0;
        while j < 32
            invariant
                i < 32,
                j <= 32,
                res == spec_fdct32x32(input@),
                mid == fdct32_mid(input@),
                temp_out@ == spec_fdct32(Seq::new(32, |r: int| mid[r + i * 32] as i64), false),
                forall|k: int| 0 <= k < 32 * i + j ==> #[trigger] output@[k] == res[k],
            decreases 32 - j,
        {
            let v = temp_out[j];
            let t: i64 = v as i64 + 1 + if v < 0 {
                1i64
            } else {
                0i64
            };
            output[j + i * 32] = shift2(t);
            proof {
                let k = (j + i * 32) as int;
                assert(k / 32 == i && k % 32 == j);
            }
            j += 1;
        }
        i += 1;
    }
    assert(output@ =~= res);
}


/// `|v| <= b`.
pub open spec fn within(v: int, b: int) -> bool {
    -b <= v <= b
}

proof fn lemma_dct_round_within(v: int, m: int)
    requires
        0 <= m <= 0x1000_0000,
        within(v, m * 16384),
    ensures
        within(dct_round(v) as int, m + 1),
{
    vstd::arithmetic::power2::lemma2_to64();
    let r = round_pow2(v, 14);
    assert(r == (v + 8192) / 16384);
    assert(within(r, m + 1));
}

/// One DCT16 pass at most multiplies the input magnitude by 20 (plus a
/// rounding slack).
#[verifier::spinoff_prover]
#[verifier::rlimit(100)]
proof fn lemma_fdct16_1d_within(a: Seq<i64>, b: Seq<i64>, m: int)
    requires
        a.len() == 8,
        b.len() == 8,
        0 <= m <= 0x10_0000,
        forall|k: int| 0 <= k < 8 ==> within(#[trigger] a[k] as int, m),
        forall|k: int| 0 <= k < 8 ==> within(#[trigger] b[k] as int, m),
    ensures
        forall|k: int| 0 <= k < 16 ==> within(#[trigger] spec_fdct16_1d(a, b)[k] as int, 20 * m + 20),
{
    assert(within(a[0] as int, m) && within(a[1] as int, m) && within(a[2] as int, m) && within(a[3] as int, m));
    assert(within(a[4] as int, m) && within(a[5] as int, m) && within(a[6] as int, m) && within(a[7] as int, m));
    assert(within(b[0] as int, m) && within(b[1] as int, m) && within(b[2] as int, m) && within(b[3] as int, m));
    assert(within(b[4] as int, m) && within(b[5] as int, m) && within(b[6] as int, m) && within(b[7] as int, m));
    reveal(spec_fdct16_1d);
    let s0 = a[0] + a[7];
    let s1 = a[1] + a[6];
    let s2 = a[2] + a[5];
    let s3 = a[3] + a[4];
    let s4 = a[3] - a[4];
    let s5 = a[2] - a[5];
    let s6 = a[1] - a[6];
    let s7 = a[0] - a[7];
    let x0 = s0 + s3;
    let x1 = s1 + s2;
    let x2 = s1 - s2;
    let x3 = s0 - s3;
    lemma_dct_round_within((s6 - s5) * COSPI_16_64, 3 * m);
    lemma_dct_round_within((s6 + s5) * COSPI_16_64, 3 * m);
    let t2 = dct_round((s6 - s5) * COSPI_16_64) as int;
    let t3 = dct_round((s6 + s5) * COSPI_16_64) as int;
    let y0 = s4 + t2;
    let y1 = s4 - t2;
    let y2 = s7 - t3;
    let y3 = s7 + t3;
    lemma_dct_round_within((b[5] - b[2]) * COSPI_16_64, 2 * m);
    lemma_dct_round_within((b[4] - b[3]) * COSPI_16_64, 2 * m);
    lemma_dct_round_within((b[4] + b[3]) * COSPI_16_64, 2 * m);
    lemma_dct_round_within((b[5] + b[2]) * COSPI_16_64, 2 * m);
    let a2 = dct_round((b[5] - b[2]) * COSPI_16_64) as int;
    let a3 = dct_round((b[4] - b[3]) * COSPI_16_64) as int;
    let a4 = dct_round((b[4] + b[3]) * COSPI_16_64) as int;
    let a5 = dct_round((b[5] + b[2]) * COSPI_16_64) as int;
    let b0 = b[0] + a3;
    let b1 = b[1] + a2;
    let b2 = b[1] - a2;
    let b3 = b[0] - a3;
    let b4 = b[7] - a4;
    let b5 = b[6] - a5;
    let b6 = b[6] + a5;
    let b7 = b[7] + a4;
    assert(within(b1, 3 * m + 1) && within(b2, 3 * m + 1) && within(b5, 3 * m + 1) && within(b6, 3 * m + 1));
    lemma_dct_round_within(-(b1 * COSPI_8_64) + b6 * COSPI_24_64, 6 * m + 2);
    lemma_dct_round_within(b2 * COSPI_24_64 + b5 * COSPI_8_64, 6 * m + 2);
    lemma_dct_round_within(b2 * COSPI_8_64 - b5 * COSPI_24_64, 6 * m + 2);
    lemma_dct_round_within(b1 * COSPI_24_64 + b6 * COSPI_8_64, 6 * m + 2);
    let c1 = dct_round(-(b1 * COSPI_8_64) + b6 * COSPI_24_64) as int;
    let c2 = dct_round(b2 * COSPI_24_64 + b5 * COSPI_8_64) as int;
    let c5 = dct_round(b2 * COSPI_8_64 - b5 * COSPI_24_64) as int;
    let c6 = dct_round(b1 * COSPI_24_64 + b6 * COSPI_8_64) as int;
    let d0 = b0 + c1;
    let d1 = b0 - c1;
    let d2 = b3 + c2;
    let d3 = b3 - c2;
    let d4 = b4 - c5;
    let d5 = b4 + c5;
    let d6 = b7 - c6;
    let d7 = b7 + c6;
    assert(within(d0, 9 * m + 4) && within(d1, 9 * m + 4) && within(d2, 9 * m + 4) && within(d3, 9 * m + 4));
    assert(within(d4, 9 * m + 4) && within(d5, 9 * m + 4) && within(d6, 9 * m + 4) && within(d7, 9 * m + 4));
    assert(within(y0, 5 * m + 1) && within(y1, 5 * m + 1) && within(y2, 5 * m + 1) && within(y3, 5 * m + 1));
    lemma_dct_round_within((x0 + x1) * COSPI_16_64, 8 * m);
    lemma_dct_round_within(d0 * COSPI_30_64 + d7 * COSPI_2_64, 2 * (9 * m + 4));
    lemma_dct_round_within(y0 * COSPI_28_64 + y3 * COSPI_4_64, 2 * (5 * m + 1));
    lemma_dct_round_within(-(d3 * COSPI_26_64) + d4 * COSPI_6_64, 2 * (9 * m + 4));
    lemma_dct_round_within(x3 * COSPI_8_64 + x2 * COSPI_24_64, 8 * m);
    lemma_dct_round_within(d2 * COSPI_22_64 + d5 * COSPI_10_64, 2 * (9 * m + 4));
    lemma_dct_round_within(y2 * COSPI_12_64 - y1 * COSPI_20_64, 2 * (5 * m + 1));
    lemma_dct_round_within(-(d1 * COSPI_18_64) + d6 * COSPI_14_64, 2 * (9 * m + 4));
    lemma_dct_round_within((x0 - x1) * COSPI_16_64, 8 * m);
    lemma_dct_round_within(d1 * COSPI_14_64 + d6 * COSPI_18_64, 2 * (9 * m + 4));
    lemma_dct_round_within(y1 * COSPI_12_64 + y2 * COSPI_20_64, 2 * (5 * m + 1));
    lemma_dct_round_within(-(d2 * COSPI_10_64) + d5 * COSPI_22_64, 2 * (9 * m + 4));
    lemma_dct_round_within(x3 * COSPI_24_64 - x2 * COSPI_8_64, 8 * m);
    lemma_dct_round_within(d3 * COSPI_6_64 + d4 * COSPI_26_64, 2 * (9 * m + 4));
    lemma_dct_round_within(y3 * COSPI_28_64 - y0 * COSPI_4_64, 2 * (5 * m + 1));
    lemma_dct_round_within(-(d0 * COSPI_2_64) + d7 * COSPI_30_64, 2 * (9 * m + 4));
}


/// The 16×16 forward DCT of a residual within ±255 stays within ±2^20.
pub proof fn lemma_fdct16x16_small(res: Seq<i16>)
    requires
        res.len() == 256,
        forall|i: int| 0 <= i < 256 ==> within(#[trigger] res[i] as int, 255),
    ensures
        forall|k: int| 0 <= k < 256 ==> within(#[trigger] spec_fdct16x16(res)[k] as int, 0x10_0000),
{
    let mid = fdct16_mid(res);
    assert forall|k: int| 0 <= k < 256 implies within(#[trigger] mid[k] as int, 40820) by {
        let col = Seq::new(16, |r: int| res[r * 16 + k / 16] as int);
        assert forall|r: int| 0 <= r < 16 implies within(#[trigger] col[r], 255) by {
            assert(0 <= r * 16 + k / 16 < 256);
        }
        let a = Seq::new(8, |j: int| ((col[j] + col[15 - j]) * 4) as i64);
        let b = Seq::new(8, |j: int| ((col[7 - j] - col[8 + j]) * 4) as i64);
        assert forall|j: int| 0 <= j < 8 implies within(#[trigger] a[j] as int, 2040) by {
            assert(within(col[j], 255) && within(col[15 - j], 255));
        }
        assert forall|j: int| 0 <= j < 8 implies within(#[trigger] b[j] as int, 2040) by {
            assert(within(col[7 - j], 255) && within(col[8 + j], 255));
        }
        lemma_fdct16_1d_within(a, b, 2040);
        assert(mid[k] == spec_fdct16_1d(a, b)[k % 16]);
    }
    assert forall|k: int| 0 <= k < 256 implies within(#[trigger] spec_fdct16x16(res)[k] as int, 0x10_0000) by {
        let col = Seq::new(16, |r: int| (mid[r * 16 + k / 16] as int + 1) / 4);
        assert forall|r: int| 0 <= r < 16 implies within(#[trigger] col[r], 10206) by {
            assert(0 <= r * 16 + k / 16 < 256);
            assert(within(mid[r * 16 + k / 16] as int, 40820));
        }
        let a = Seq::new(8, |j: int| ((col[j] + col[15 - j]) * 1) as i64);
        let b = Seq::new(8, |j: int| ((col[7 - j] - col[8 + j]) * 1) as i64);
        assert forall|j: int| 0 <= j < 8 implies within(#[trigger] a[j] as int, 20412) by {
            assert(within(col[j], 10206) && within(col[15 - j], 10206));
        }
        assert forall|j: int| 0 <= j < 8 implies within(#[trigger] b[j] as int, 20412) by {
            assert(within(col[7 - j], 10206) && within(col[8 + j], 10206));
        }
        lemma_fdct16_1d_within(a, b, 20412);
        assert(spec_fdct16x16(res)[k] == spec_fdct16_1d(a, b)[k % 16]);
    }
}

/// `16384 · cos(m·π/8)`, rounded, in the libvpx `cospi_*_64` units.
pub open spec fn cos_pi8(m: int) -> int {
    let r = m % 16;
    if r == 0 {
        16384
    } else if r == 1 || r == 15 {
        COSPI_8_64 as int
    } else if r == 2 || r == 14 {
        COSPI_16_64 as int
    } else if r == 3 || r == 13 {
        COSPI_24_64 as int
    } else if r == 4 || r == 12 {
        0
    } else if r == 5 || r == 11 {
        -COSPI_24_64
    } else if r == 6 || r == 10 {
        -COSPI_16_64
    } else if r == 7 || r == 9 {
        -COSPI_8_64
    } else {
        -16384
    }
}

/// The DCT-II basis of length 4: `cos((2n + 1)·k·π/8)`, with the DC row
/// scaled by `1/√2`.
pub open spec fn dct4_basis(k: int, n: int) -> int {
    if k == 0 {
        COSPI_16_64 as int
    } else {
        cos_pi8(k * (2 * n + 1))
    }
}

/// Every output of the 1-D forward DCT4 is its input's rounded dot product
/// with the matching DCT-II basis vector: output 1 weighs the outer samples
/// by `cos(π/8)`, output 3 by `cos(3π/8)`.
pub proof fn law_fdct4_is_dct_ii(x: Seq<i32>, k: int)
    requires
        x.len() == 4,
        0 <= k < 4,
    ensures
        spec_fdct4(x)[k] == dct_round(
            x[0] * dct4_basis(k, 0) + x[1] * dct4_basis(k, 1) + x[2] * dct4_basis(k, 2) + x[3] * dct4_basis(k, 3),
        ),
{
    reveal(spec_fdct4);
    lemma_dct4_basis();
    let (x0, x1, x2, x3) = (x[0] as int, x[1] as int, x[2] as int, x[3] as int);
    let c8 = COSPI_8_64 as int;
    let c16 = COSPI_16_64 as int;
    let c24 = COSPI_24_64 as int;
    if k == 0 {
        assert((x0 + x3 + (x1 + x2)) * c16 == x0 * c16 + x1 * c16 + x2 * c16 + x3 * c16) by (nonlinear_arith);
    } else if k == 1 {
        assert((x1 - x2) * c24 + (x0 - x3) * c8 == x0 * c8 + x1 * c24 + x2 * (-c24) + x3 * (-c8)) by (nonlinear_arith);
    } else if k == 2 {
        assert((x0 + x3 - (x1 + x2)) * c16 == x0 * c16 + x1 * (-c16) + x2 * (-c16) + x3 * c16) by (nonlinear_arith);
    } else {
        assert(-(x1 - x2) * c8 + (x0 - x3) * c24 == x0 * c24 + x1 * (-c8) + x2 * c8 + x3 * (-c24)) by (nonlinear_arith);
    }
}

/// The DCT-II basis of length 4, entry by entry.
proof fn lemma_dct4_basis()
    ensures
        dct4_basis(0, 0) == COSPI_16_64 && dct4_basis(0, 1) == COSPI_16_64 && dct4_basis(0, 2) == COSPI_16_64
            && dct4_basis(0, 3) == COSPI_16_64,
        dct4_basis(1, 0) == COSPI_8_64 && dct4_basis(1, 1) == COSPI_24_64 && dct4_basis(1, 2) == -COSPI_24_64
            && dct4_basis(1, 3) == -COSPI_8_64,
        dct4_basis(2, 0) == COSPI_16_64 && dct4_basis(2, 1) == -COSPI_16_64 && dct4_basis(2, 2) == -COSPI_16_64
            && dct4_basis(2, 3) == COSPI_16_64,
        dct4_basis(3, 0) == COSPI_24_64 && dct4_basis(3, 1) == -COSPI_8_64 && dct4_basis(3, 2) == COSPI_8_64
            && dct4_basis(3, 3) == -COSPI_24_64,
{
    assert(1int % 16 == 1 && 3int % 16 == 3 && 5int % 16 == 5 && 7int % 16 == 7 && 2int % 16 == 2 && 6int % 16 == 6);
    assert(10int % 16 == 10 && 14int % 16 == 14 && 9int % 16 == 9 && 15int % 16 == 15 && 21int % 16 == 5);
}

/// The 1-D inverse DCT4 of a single coefficient `a` at position `k`
/// rebuilds the rounded `k`-th DCT-II basis vector scaled by `a`: the even
/// ones directly, the odd ones from their first half, mirrored with the
/// sign flipped (they are antisymmetric).
pub proof fn law_idct4_impulse(a: i32, k: int)
    requires
        -16384 <= a <= 16383,
        0 <= k < 4,
    ensures
        ({
            let x = Seq::new(4, |i: int| if i == k { a } else { 0i32 });
            forall|n: int|
                0 <= n < 4 ==> #[trigger] spec_idct4(x)[n] as int == if k % 2 == 0 || n < 2 {
                    dct_round(a * dct4_basis(k, n)) as int
                } else {
                    -dct_round(a * dct4_basis(k, 3 - n))
                }
        }),
{
    reveal(spec_idct4);
    let x = Seq::new(4, |i: int| if i == k { a } else { 0i32 });
    assert(in16(a) == a);
    assert(in16(0i32) == 0);
    lemma_dct4_basis();
    let ai = a as int;
    let c8 = COSPI_8_64 as int;
    let c16 = COSPI_16_64 as int;
    let c24 = COSPI_24_64 as int;
    assert(-16384 * 16384 <= ai * c8 <= 16384 * 16384 && -16384 * 16384 <= ai * c16 <= 16384 * 16384
        && -16384 * 16384 <= ai * c24 <= 16384 * 16384) by (nonlinear_arith)
        requires
            -16384 <= ai <= 16383,
            c8 == 15137,
            c16 == 11585,
            c24 == 6270,
    ;
    lemma_dct_round_small(ai * c16);
    lemma_dct_round_small(-(ai * c16));
    lemma_dct_round_small(ai * c8);
    lemma_dct_round_small(-(ai * c8));
    lemma_dct_round_small(ai * c24);
    lemma_dct_round_small(-(ai * c24));
    lemma_dct_round_small(0);
    assert(x[0] == (if k == 0 { a } else { 0i32 }));
    assert(x[1] == (if k == 1 { a } else { 0i32 }));
    assert(x[2] == (if k == 2 { a } else { 0i32 }));
    assert(x[3] == (if k == 3 { a } else { 0i32 }));
    assert(ai * (-c8) == -(ai * c8) && ai * (-c16) == -(ai * c16) && ai * (-c24) == -(ai * c24)) by (nonlinear_arith);
    let i0 = in16(x[0]);
    let i1 = in16(x[1]);
    let i2 = in16(x[2]);
    let i3 = in16(x[3]);
    let e0 = (i0 + i2) * c16;
    let e1 = (i0 - i2) * c16;
    let e2 = i1 * c24 - i3 * c8;
    let e3 = i1 * c8 + i3 * c24;
    assert(e0 == (if k == 0 || k == 2 { ai * c16 } else { 0 }));
    assert(e1 == (if k == 0 { ai * c16 } else if k == 2 { -(ai * c16) } else { 0 }));
    assert(e2 == (if k == 1 { ai * c24 } else if k == 3 { -(ai * c8) } else { 0 }));
    assert(e3 == (if k == 1 { ai * c8 } else if k == 3 { ai * c24 } else { 0 }));
    let st0 = wrap_low(dct_round(e0) as int) as int;
    let st1 = wrap_low(dct_round(e1) as int) as int;
    let st2 = wrap_low(dct_round(e2) as int) as int;
    let st3 = wrap_low(dct_round(e3) as int) as int;
    assert(st0 == dct_round(e0) && st1 == dct_round(e1) && st2 == dct_round(e2) && st3 == dct_round(e3));
    assert(dct_round(0) == 0);
    let o = spec_idct4(x);
    assert(o[0] == wrap_low(st0 + st3) && o[1] == wrap_low(st1 + st2) && o[2] == wrap_low(st1 - st2) && o[3] == wrap_low(st0 - st3));
    assert(st0 + st3 == st0 || st0 + st3 == st3);
    assert(wrap_low(st0 + st3) == st0 + st3 && wrap_low(st1 + st2) == st1 + st2);
    assert(wrap_low(st1 - st2) == st1 - st2 && wrap_low(st0 - st3) == st0 - st3);
    assert forall|n: int| 0 <= n < 4 implies #[trigger] spec_idct4(x)[n] as int == if k % 2 == 0 || n < 2 {
        dct_round(a * dct4_basis(k, n)) as int
    } else {
        -dct_round(a * dct4_basis(k, 3 - n))
    } by {
        assert(ai * dct4_basis(k, n) == a * dct4_basis(k, n));
    }
}

/// A rounded cosine product of a coefficient within ±2^14 fits 16 bits.
proof fn lemma_dct_round_small(v: int)
    requires
        -16384 * 16384 <= v <= 16384 * 16384,
    ensures
        -16384 <= dct_round(v) <= 16384,
        dct_round(v) as int == round_pow2(v, 14),
        wrap_low(dct_round(v) as int) == dct_round(v),
        -(dct_round(v) as int) >= -16384,
        wrap_low(-(dct_round(v) as int)) == -(dct_round(v) as int),
        dct_round(0) == 0,
{
    vstd::arithmetic::power2::lemma2_to64();
    assert(vstd::arithmetic::power2::pow2(13) == 8192 && vstd::arithmetic::power2::pow2(14) == 16384);
    assert(round_pow2(0, 14) == 0);
}

/// `sinpi_*_9` units: the VP9 ADST scale `16384 · (2√2/3) · sin(m·π/9)`.
pub open spec fn sin_pi9(m: int) -> int {
    let r = m % 18;
    let (s1, s2, s3, s4) = (SINPI_1_9 as int, SINPI_2_9 as int, SINPI_3_9 as int, SINPI_4_9 as int);
    if r == 0 || r == 9 {
        0
    } else if r == 1 || r == 8 {
        s1
    } else if r == 2 || r == 7 {
        s2
    } else if r == 3 || r == 6 {
        s3
    } else if r == 4 || r == 5 {
        s4
    } else if r == 10 || r == 17 {
        -s1
    } else if r == 11 || r == 16 {
        -s2
    } else if r == 12 || r == 15 {
        -s3
    } else {
        -s4
    }
}

/// The VP9 ADST-4 basis: `sin((2k + 1)(n + 1)·π/9)`.
pub open spec fn adst4_basis(k: int, n: int) -> int {
    sin_pi9((2 * k + 1) * (n + 1))
}

proof fn lemma_adst4_basis()
    ensures
        adst4_basis(0, 0) == SINPI_1_9 && adst4_basis(0, 1) == SINPI_2_9 && adst4_basis(0, 2) == SINPI_3_9
            && adst4_basis(0, 3) == SINPI_4_9,
        adst4_basis(1, 0) == SINPI_3_9 && adst4_basis(1, 1) == SINPI_3_9 && adst4_basis(1, 2) == 0 && adst4_basis(1, 3)
            == -SINPI_3_9,
        adst4_basis(2, 0) == SINPI_4_9 && adst4_basis(2, 1) == -SINPI_1_9 && adst4_basis(2, 2) == -SINPI_3_9
            && adst4_basis(2, 3) == SINPI_2_9,
        adst4_basis(3, 0) == SINPI_2_9 && adst4_basis(3, 1) == -SINPI_4_9 && adst4_basis(3, 2) == SINPI_3_9
            && adst4_basis(3, 3) == -SINPI_1_9,
{
    assert(sin_pi9(1) == SINPI_1_9 && sin_pi9(2) == SINPI_2_9 && sin_pi9(3) == SINPI_3_9 && sin_pi9(4) == SINPI_4_9);
    assert(sin_pi9(6) == SINPI_3_9 && sin_pi9(9) == 0 && sin_pi9(12) == -SINPI_3_9);
    assert(sin_pi9(5) == SINPI_4_9 && sin_pi9(10) == -SINPI_1_9 && sin_pi9(15) == -SINPI_3_9 && sin_pi9(20) == SINPI_2_9);
    assert(sin_pi9(7) == SINPI_2_9 && sin_pi9(14) == -SINPI_4_9 && sin_pi9(21) == SINPI_3_9 && sin_pi9(28) == -SINPI_1_9);
    assert(adst4_basis(1, 0) == sin_pi9(3) && adst4_basis(1, 1) == sin_pi9(6) && adst4_basis(1, 2) == sin_pi9(9)
        && adst4_basis(1, 3) == sin_pi9(12));
    assert(adst4_basis(3, 0) == sin_pi9(7) && adst4_basis(3, 1) == sin_pi9(14) && adst4_basis(3, 2) == sin_pi9(21)
        && adst4_basis(3, 3) == sin_pi9(28));
}

/// Every output of the 1-D forward ADST4 is its input's rounded (16-bit
/// wrapped) dot product with the matching ADST basis vector.
pub proof fn law_fadst4_is_adst(x: Seq<i32>, k: int)
    requires
        x.len() == 4,
        0 <= k < 4,
    ensures
        spec_fadst4(x)[k] == wrap_low(
            dct_round(x[0] * adst4_basis(k, 0) + x[1] * adst4_basis(k, 1) + x[2] * adst4_basis(k, 2) + x[3] * adst4_basis(k, 3))
                as int,
        ),
{
    reveal(spec_fadst4);
    lemma_adst4_basis();
    lemma_dct_round_small(0);
    let (x0, x1, x2, x3) = (x[0] as int, x[1] as int, x[2] as int, x[3] as int);
    let (s1, s2, s3, s4) = (SINPI_1_9 as int, SINPI_2_9 as int, SINPI_3_9 as int, SINPI_4_9 as int);
    assert(s4 == s1 + s2);
    assert(x0 * 0 == 0 && x1 * 0 == 0 && x2 * 0 == 0 && x3 * 0 == 0);
    assert(wrap_low(0) == 0);
    if k == 0 {
        assert(s1 * x0 + s2 * x1 + s4 * x3 + s3 * x2 == x0 * s1 + x1 * s2 + x2 * s3 + x3 * s4) by (nonlinear_arith);
    } else if k == 1 {
        assert(s3 * (x0 + x1 - x3) == x0 * s3 + x1 * s3 + x2 * 0 + x3 * (-s3)) by (nonlinear_arith);
    } else if k == 2 {
        assert(s4 * x0 - s1 * x1 + s2 * x3 - s3 * x2 == x0 * s4 + x1 * (-s1) + x2 * (-s3) + x3 * s2) by (nonlinear_arith);
    } else {
        assert(s4 * x0 - s1 * x1 + s2 * x3 - (s1 * x0 + s2 * x1 + s4 * x3) + s3 * x2 == x0 * s2 + x1 * (-s4) + x2 * s3 + x3
            * (-s1)) by (nonlinear_arith)
            requires
                s4 == s1 + s2,
        ;
    }
}

/// For coefficients within ±10000, every output of the 1-D inverse ADST4
/// is the rounded (16-bit wrapped) dot product of the coefficients with the
/// ADST basis vectors at that position: the transpose of the forward one.
pub proof fn law_iadst4_is_transpose(x: Seq<i32>, n: int)
    requires
        x.len() == 4,
        0 <= n < 4,
        forall|i: int| 0 <= i < 4 ==> -10000 <= #[trigger] x[i] <= 10000,
    ensures
        spec_iadst4(x)[n] == wrap_low(
            dct_round(x[0] * adst4_basis(0, n) + x[1] * adst4_basis(1, n) + x[2] * adst4_basis(2, n) + x[3] * adst4_basis(3, n))
                as int,
        ),
{
    reveal(spec_iadst4);
    lemma_adst4_basis();
    lemma_dct_round_small(0);
    let (x0, x1, x2, x3) = (x[0] as int, x[1] as int, x[2] as int, x[3] as int);
    assert(-10000 <= x0 <= 10000 && -10000 <= x1 <= 10000 && -10000 <= x2 <= 10000 && -10000 <= x3 <= 10000);
    assert(in16(x[0]) == x0 && in16(x[1]) == x1 && in16(x[2]) == x2 && in16(x[3]) == x3);
    assert(wrap_low(x0 - x2 + x3) == x0 - x2 + x3);
    let (s1, s2, s3, s4) = (SINPI_1_9 as int, SINPI_2_9 as int, SINPI_3_9 as int, SINPI_4_9 as int);
    assert(s4 == s1 + s2);
    assert(x0 * 0 == 0 && x1 * 0 == 0 && x2 * 0 == 0 && x3 * 0 == 0);
    assert(wrap_low(0) == 0);
    if n == 0 {
        assert(s1 * x0 + s4 * x2 + s2 * x3 + s3 * x1 == x0 * s1 + x1 * s3 + x2 * s4 + x3 * s2) by (nonlinear_arith);
    } else if n == 1 {
        assert(s2 * x0 - s1 * x2 - s4 * x3 + s3 * x1 == x0 * s2 + x1 * s3 + x2 * (-s1) + x3 * (-s4)) by (nonlinear_arith);
    } else if n == 2 {
        assert(s3 * (x0 - x2 + x3) == x0 * s3 + x1 * 0 + x2 * (-s3) + x3 * s3) by (nonlinear_arith);
    } else {
        assert(s1 * x0 + s4 * x2 + s2 * x3 + (s2 * x0 - s1 * x2 - s4 * x3) - s3 * x1 == x0 * s4 + x1 * (-s3) + x2 * s2 + x3
            * (-s1)) by (nonlinear_arith)
            requires
                s4 == s1 + s2,
        ;
    }
}

} // verus!
