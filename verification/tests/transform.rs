use threers::vp9::tables::{DC_PRED, H_PRED, V_PRED};
use threers::vp9::transform::{
    clip_pixel, clip_pixel_add, fdct16x16, fdct32x32, fdct4x4, fdct8x8, fht4x4, idct16x16_add,
    idct32x32_add, idct4x4_add, idct8x8_add, iht4x4_add, round_power_of_two, tx_type_from_mode,
    wraplow, TxType,
};

struct Rng(u32);

impl Rng {
    fn next(&mut self) -> u32 {
        let mut x = self.0;
        x ^= x << 13;
        x ^= x >> 17;
        x ^= x << 5;
        self.0 = x;
        x
    }
}

#[test]
fn fdct_idct_roundtrip_small_residuals() {
    let mut rng = Rng(0xC0FF_EE42);
    for _ in 0..200 {
        let mut residual = [0i16; 16];
        for r in residual.iter_mut() {
            *r = (rng.next() % 31) as i16 - 15;
        }
        let mut coeffs = [0i32; 16];
        fdct4x4(&residual, &mut coeffs);

        let mut recon = [0u8; 16];
        recon.fill(128);
        idct4x4_add(&coeffs, &mut recon, 4);

        for i in 0..16 {
            let got = recon[i] as i32 - 128;
            let exp = residual[i] as i32;
            assert!(
                (got - exp).abs() <= 2,
                "pix {i}: got {got} expected {exp} (residual {:?}, coeffs {:?})",
                residual,
                coeffs
            );
        }
    }
}

#[test]
fn hybrid_roundtrip_all_tx_types() {
    let mut rng = Rng(0xAD57_4444);
    for &tx in &[
        TxType::DctDct,
        TxType::AdstDct,
        TxType::DctAdst,
        TxType::AdstAdst,
    ] {
        for _ in 0..80 {
            let mut residual = [0i16; 16];
            for r in residual.iter_mut() {
                *r = (rng.next() % 21) as i16 - 10;
            }
            let mut coeffs = [0i32; 16];
            fht4x4(&residual, &mut coeffs, tx);
            let mut recon = [128u8; 16];
            iht4x4_add(&coeffs, &mut recon, 4, tx);
            for i in 0..16 {
                let got = recon[i] as i32 - 128;
                let exp = residual[i] as i32;
                assert!(
                    (got - exp).abs() <= 3,
                    "tx={tx:?} pix {i}: got {got} expected {exp}"
                );
            }
        }
    }
}

#[test]
fn mode_to_tx_type_matches_libvpx() {
    assert_eq!(tx_type_from_mode(DC_PRED), TxType::DctDct);
    assert_eq!(tx_type_from_mode(V_PRED), TxType::AdstDct);
    assert_eq!(tx_type_from_mode(H_PRED), TxType::DctAdst);
}

#[test]
fn fdct_zero_is_zero() {
    let input = [0i16; 16];
    let mut out = [1i32; 16];
    fdct4x4(&input, &mut out);
    assert_eq!(out, [0i32; 16]);
}

#[test]
fn fdct8_idct8_roundtrip_small_residuals() {
    let mut residual = [0i16; 64];
    for i in 0..64 {
        residual[i] = ((i as i16 * 3) % 17) - 8;
    }
    let mut coeffs = [0i32; 64];
    fdct8x8(&residual, &mut coeffs);
    let mut dest = [128u8; 64];
    idct8x8_add(&coeffs, &mut dest, 8);
    for i in 0..64 {
        let exp = (128 + residual[i] as i32).clamp(0, 255) as u8;
        assert!(
            dest[i].abs_diff(exp) <= 2,
            "pix {i}: got {} expected {exp}",
            dest[i]
        );
    }
}

#[test]
fn fdct8_zero_is_zero() {
    let input = [0i16; 64];
    let mut out = [1i32; 64];
    fdct8x8(&input, &mut out);
    assert_eq!(out, [0i32; 64]);
}

#[test]
fn fdct16_zero_is_zero() {
    let input = [0i16; 256];
    let mut out = [1i32; 256];
    fdct16x16(&input, &mut out);
    assert_eq!(out, [0i32; 256]);
}

#[test]
fn fdct16_idct16_roundtrip_small_residuals() {
    let mut rng = Rng(0x16_16_BEEF);
    for _ in 0..100 {
        let mut residual = [0i16; 256];
        for r in residual.iter_mut() {
            *r = (rng.next() % 31) as i16 - 15;
        }
        let mut coeffs = [0i32; 256];
        fdct16x16(&residual, &mut coeffs);
        let mut dest = [128u8; 256];
        idct16x16_add(&coeffs, &mut dest, 16);
        for i in 0..256 {
            let exp = (128 + residual[i] as i32).clamp(0, 255) as u8;
            assert!(
                dest[i].abs_diff(exp) <= 2,
                "pix {i}: got {} expected {exp}",
                dest[i]
            );
        }
    }
}

#[test]
fn idct_add_onto_nonzero_base() {
    let residual = [4i16; 16];
    let mut coeffs = [0i32; 16];
    fdct4x4(&residual, &mut coeffs);
    let mut dest = [10u8; 16];
    idct4x4_add(&coeffs, &mut dest, 4);
    for &p in &dest {
        assert!((p as i32 - 14).abs() <= 2, "pixel {p}");
    }
}

#[test]
fn fdct32_zero_is_zero() {
    let input = [0i16; 1024];
    let mut out = [1i32; 1024];
    fdct32x32(&input, &mut out);
    assert_eq!(out, [0i32; 1024]);
}

#[test]
fn fdct32_idct32_roundtrip_small_residuals() {
    let mut rng = Rng(0x32_32_CAFE);
    for _ in 0..100 {
        let mut residual = [0i16; 1024];
        for r in residual.iter_mut() {
            *r = (rng.next() % 21) as i16 - 10;
        }
        let mut coeffs = [0i32; 1024];
        fdct32x32(&residual, &mut coeffs);
        let mut dest = [128u8; 1024];
        idct32x32_add(&coeffs, &mut dest, 32);
        for i in 0..1024 {
            let exp = (128 + residual[i] as i32).clamp(0, 255) as u8;
            assert!(
                dest[i].abs_diff(exp) <= 2,
                "pix {i}: got {} expected {exp}",
                dest[i]
            );
        }
    }
}

#[test]
fn wraplow_sign_extends_16() {
    assert_eq!(wraplow(0x0001_0001), 1);
    assert_eq!(wraplow(0x0000_FFFF_u32 as i32), -1);
    assert_eq!(wraplow(32768), -32768);
}

#[test]
fn round_power_of_two_rounds_half_up() {
    assert_eq!(round_power_of_two(5, 1), 3);
    assert_eq!(round_power_of_two(-5, 1), -2);
    assert_eq!(round_power_of_two(31, 4), 2);
}

#[test]
fn clip_pixel_saturates_both_ends() {
    assert_eq!(clip_pixel(-7), 0);
    assert_eq!(clip_pixel(300), 255);
    assert_eq!(clip_pixel(77), 77);
    assert_eq!(clip_pixel_add(250, 10), 255);
    assert_eq!(clip_pixel_add(5, -10), 0);
    assert_eq!(clip_pixel_add(100, -30), 70);
}

#[test]
fn dc_only_4x4_coefficient_is_sum_scaled() {
    // A flat block of 1s: the 4x4 DCT puts everything in the DC term.
    let input = [1i16; 16];
    let mut out = [0i32; 16];
    fdct4x4(&input, &mut out);
    assert!(out[0] > 0);
    assert!(out[1..].iter().all(|&c| c == 0));
}
