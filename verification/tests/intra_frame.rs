use threers::vp9::intra_frame::{encode_intra_frame, TileSym, Yuv420Frame};

fn coef_blocks(syms: &[TileSym]) -> usize {
    syms.iter().filter(|s| matches!(s, TileSym::Coefs(_))).count()
}

#[test]
fn busy_frame_uses_directional_modes() {
    // A strong horizontal ramp should prefer H_PRED over DC for interior blocks.
    let mut f = Yuv420Frame::new(64, 64);
    for j in 0..64u32 {
        for i in 0..64u32 {
            f.y[(j * 64 + i) as usize] = (i * 4).min(255) as u8;
        }
    }
    let (_, recon) = encode_intra_frame(&f);
    let mut err = 0u64;
    for (a, b) in f.y.iter().zip(&recon.y) {
        err += a.abs_diff(*b) as u64;
    }
    let flat: u64 = f.y.iter().map(|&x| x.abs_diff(128) as u64).sum();
    assert!(err < flat / 3, "H-friendly ramp err={err} flat={flat}");
}

#[test]
fn gray_frame_recons_to_mid_gray() {
    let mut f = Yuv420Frame::new(64, 64);
    f.y.fill(128);
    f.u.fill(128);
    f.v.fill(128);
    let (syms, recon) = encode_intra_frame(&f);
    assert!(!syms.is_empty());
    assert!(recon.y.iter().all(|&x| x == 128));
    assert!(recon.u.iter().all(|&x| x == 128));
    assert!(recon.v.iter().all(|&x| x == 128));
}

#[test]
fn partial_superblock_sizes_encode() {
    for &(w, h) in &[(8u32, 8), (16, 8), (80, 48), (96, 72), (128, 64)] {
        let mut f = Yuv420Frame::new(w, h);
        for j in 0..h {
            for i in 0..w {
                f.y[(j * w + i) as usize] = ((i + j) & 0xFF) as u8;
            }
        }
        let (syms, recon) = encode_intra_frame(&f);
        assert!(!syms.is_empty(), "{w}x{h} symbol stream empty");
        assert_eq!(recon.y.len(), (w * h) as usize);
        assert_eq!(recon.u.len(), (w * h / 4) as usize);
    }
}

#[test]
fn busy_frame_residual_beats_mid_gray() {
    let mut f = Yuv420Frame::new(64, 64);
    for j in 0..64u32 {
        for i in 0..64u32 {
            f.y[(j * 64 + i) as usize] = ((i.wrapping_mul(3) ^ j.wrapping_mul(5)) & 0xFF) as u8;
        }
    }
    let (syms, recon) = encode_intra_frame(&f);
    assert!(coef_blocks(&syms) > 0, "no coefficient blocks coded");
    let mut err = 0u64;
    for (a, b) in f.y.iter().zip(&recon.y) {
        err += a.abs_diff(*b) as u64;
    }
    let flat: u64 = f.y.iter().map(|&x| x.abs_diff(128) as u64).sum();
    assert!(err < flat / 2, "residual recon err={err} should beat flat={flat}");
    // Recon should use the full sample range, not just {127,128,129}.
    let min = *recon.y.iter().min().unwrap();
    let max = *recon.y.iter().max().unwrap();
    assert!(max - min > 10, "recon range too narrow: {min}..{max}");
}

#[test]
fn new_frame_is_zeroed_with_half_size_chroma() {
    let f = Yuv420Frame::new(16, 8);
    assert_eq!(f.y.len(), 128);
    assert_eq!(f.u.len(), 32);
    assert_eq!(f.v.len(), 32);
    assert!(f.y.iter().chain(&f.u).chain(&f.v).all(|&x| x == 0));
}

#[test]
fn gray_8x8_frame_codes_one_skipped_dc_block() {
    // One 8×8 block in a 64×64 superblock: SPLIT is forced (no bools) at 64,
    // 32 and 16, then NONE at 8×8 (partition tree, ctx 0 probs), then skip=1
    // (ctx 0, prob 192), DC luma and DC chroma; no coefficient blocks.
    let mut f = Yuv420Frame::new(8, 8);
    f.y.fill(128);
    f.u.fill(128);
    f.v.fill(128);
    let (syms, recon) = encode_intra_frame(&f);
    assert_eq!(coef_blocks(&syms), 0);
    let bools: Vec<(u8, bool)> = syms
        .iter()
        .map(|s| match s {
            TileSym::Bool(p, b) => (*p, *b),
            _ => panic!("unexpected coefficients"),
        })
        .collect();
    // partition NONE at 8×8 context 0: first node bool false with kf prob 158.
    assert_eq!(bools[0], (158, false));
    assert_eq!(bools[1], (192, true));
    // DC_PRED luma: first node of the intra mode tree, prob kf_y[DC][DC][0] = 137.
    assert_eq!(bools[2], (137, false));
    // DC_PRED chroma: kf_uv[DC][0] = 144.
    assert_eq!(bools[3], (144, false));
    assert_eq!(bools.len(), 4);
    assert!(recon.y.iter().all(|&x| x == 128));
}

#[test]
fn ramp_block_codes_coefficients_with_luma_contexts() {
    // A vertical edge inside the frame leaves nonzero residual: coded blocks
    // carry levels and contexts 0..=2.
    let mut f = Yuv420Frame::new(16, 16);
    for j in 0..16u32 {
        for i in 0..16u32 {
            f.y[(j * 16 + i) as usize] = if (i + j) % 3 == 0 { 250 } else { 5 };
        }
    }
    let (syms, _) = encode_intra_frame(&f);
    let mut luma = 0;
    for s in &syms {
        if let TileSym::Coefs(cb) = s {
            assert!(cb.ctx <= 2);
            if cb.is_y {
                luma += 1;
            }
        }
    }
    assert!(luma >= 4);
}
