use threers::vp9::encoder::Reconstruction;
use threers::vp9::intra_frame::{encode_intra_frame, TileSym, Yuv420Frame};
use threers::vp9::residual_frame::{
    encode_inter_frame, encode_inter_frame_altref, encode_inter_frame_compound, encode_inter_frame_golden,
    encode_inter_frame_refresh, encode_inter_newmv_residual, encode_inter_residual,
};

fn sym_count(tiles: &[Vec<TileSym>]) -> usize {
    tiles.iter().map(|t| t.len()).sum()
}

fn level_blocks(tiles: &[Vec<TileSym>]) -> usize {
    tiles.iter().flat_map(|t| t.iter()).filter(|s| matches!(s, TileSym::Levels(_))).count()
}

fn y_err(a: &[u8], b: &[u8]) -> u64 {
    a.iter().zip(b).map(|(x, y)| x.abs_diff(*y) as u64).sum()
}

fn ramp_key() -> Reconstruction {
    let mut key = Yuv420Frame::new(64, 64);
    for j in 0..64u32 {
        for i in 0..64u32 {
            key.y[(j * 64 + i) as usize] = ((i * 3 + j * 5) & 0xFF) as u8;
        }
    }
    encode_intra_frame(&key).1
}

fn shifted_luma(key_recon: &Reconstruction, left_only: bool) -> Yuv420Frame {
    let mut src = Yuv420Frame::new(64, 64);
    src.u.copy_from_slice(&key_recon.u);
    src.v.copy_from_slice(&key_recon.v);
    for j in 0..64usize {
        for i in 0..64usize {
            let sx = if left_only && i >= 32 { i } else { i.saturating_add(2).min(63) };
            src.y[j * 64 + i] = key_recon.y[j * 64 + sx];
        }
    }
    src
}

#[test]
fn residual_against_different_src_beats_skip_copy() {
    let mut key = Yuv420Frame::new(64, 64);
    key.y.fill(128);
    key.u.fill(128);
    key.v.fill(128);
    let (_, key_recon) = encode_intra_frame(&key);

    let mut src = Yuv420Frame::new(64, 64);
    for j in 0..64u32 {
        for i in 0..64u32 {
            src.y[(j * 64 + i) as usize] = ((i * 5 + j * 3) & 0xFF) as u8;
        }
    }
    let (tiles, recon) = encode_inter_residual(&src, &key_recon).unwrap();
    assert!(level_blocks(&tiles) > 0, "expected coded transform blocks");
    let err = y_err(&src.y, &recon.y);
    let copy_err: u64 = src.y.iter().map(|&x| x.abs_diff(128) as u64).sum();
    assert!(err < copy_err / 2, "residual err={err} should beat copy={copy_err}");
}

#[test]
fn newmv_residual_beats_zeromv_on_shifted_src() {
    let key_recon = ramp_key();
    let mut src = Yuv420Frame::new(64, 64);
    for j in 0..64usize {
        for i in 0..64usize {
            let sx = i.saturating_add(2).min(63);
            src.y[j * 64 + i] = key_recon.y[j * 64 + sx];
        }
    }
    for j in 0..32usize {
        for i in 0..32usize {
            let sx = i.saturating_add(1).min(31);
            src.u[j * 32 + i] = key_recon.u[j * 32 + sx];
            src.v[j * 32 + i] = key_recon.v[j * 32 + sx];
        }
    }
    let (_, z_recon) = encode_inter_residual(&src, &key_recon).unwrap();
    let (tiles, n_recon) = encode_inter_newmv_residual(&src, &key_recon, 0, 16).unwrap();
    assert!(sym_count(&tiles) > 0);
    let z_err = y_err(&src.y, &z_recon.y);
    let n_err = y_err(&src.y, &n_recon.y);
    assert!(n_err <= z_err, "NEWMV residual err={n_err} should beat ZEROMV err={z_err}");
    assert!(n_err < 5000, "shifted content should nearly skip: err={n_err}");
}

#[test]
fn me_frame_finds_mixed_block_mvs() {
    let key_recon = ramp_key();
    let src = shifted_luma(&key_recon, true);
    let (_, z_recon) = encode_inter_residual(&src, &key_recon).unwrap();
    let (tiles, me_recon) = encode_inter_frame(&src, &key_recon).unwrap();
    assert!(sym_count(&tiles) > 0, "P-frame has no symbols");
    let z_err = y_err(&src.y, &z_recon.y);
    let me_err = y_err(&src.y, &me_recon.y);
    assert!(me_err < z_err / 2, "ME residual err={me_err} should beat global ZEROMV err={z_err}");
    assert!(me_err < 800, "mixed-shift content should nearly skip: err={me_err}");
}

#[test]
fn golden_beats_last_when_src_matches_key() {
    let key_recon = ramp_key();
    let p1_src = shifted_luma(&key_recon, false);
    let (_, last) = encode_inter_frame(&p1_src, &key_recon).unwrap();

    let mut p2_src = Yuv420Frame::new(64, 64);
    p2_src.y.copy_from_slice(&key_recon.y);
    p2_src.u.copy_from_slice(&key_recon.u);
    p2_src.v.copy_from_slice(&key_recon.v);
    let (_, only_last) = encode_inter_frame(&p2_src, &last).unwrap();
    let (tiles, with_golden) = encode_inter_frame_golden(&p2_src, &last, &key_recon).unwrap();
    assert!(sym_count(&tiles) > 0);
    let last_err = y_err(&p2_src.y, &only_last.y);
    let gold_err = y_err(&p2_src.y, &with_golden.y);
    assert!(gold_err <= last_err, "golden err={gold_err} should beat last-only err={last_err}");
    assert!(gold_err < 500, "key-matched src should nearly skip via GOLDEN: err={gold_err}");
}

#[test]
fn altref_beats_last_when_src_matches_alt() {
    let key_recon = ramp_key();
    let p1_src = shifted_luma(&key_recon, false);
    let (_, alt) = encode_inter_frame_refresh(&p1_src, &key_recon, 0x04).unwrap();

    let mut p2_src = Yuv420Frame::new(64, 64);
    p2_src.y.copy_from_slice(&alt.y);
    p2_src.u.copy_from_slice(&alt.u);
    p2_src.v.copy_from_slice(&alt.v);
    let (_, only_last) = encode_inter_frame(&p2_src, &key_recon).unwrap();
    let (tiles, with_alt) = encode_inter_frame_altref(&p2_src, &key_recon, &key_recon, &alt).unwrap();
    assert!(sym_count(&tiles) > 0);
    let last_err = y_err(&p2_src.y, &only_last.y);
    let alt_err = y_err(&p2_src.y, &with_alt.y);
    assert!(alt_err <= last_err, "altref err={alt_err} should beat last-only err={last_err}");
    assert!(alt_err < 500, "alt-matched src should nearly skip via ALTREF: err={alt_err}");
}

#[test]
fn compound_zeromv_recon_is_avg() {
    let (w, h) = (64u32, 64u32);
    let mut key_src = Yuv420Frame::new(w, h);
    for j in 0..h {
        for i in 0..w {
            key_src.y[(j * w + i) as usize] = ((i.wrapping_mul(7) + j.wrapping_mul(11)) & 0xFF) as u8;
        }
    }
    key_src.u.fill(128);
    key_src.v.fill(128);
    let (_, key_recon) = encode_intra_frame(&key_src);
    let mut p1_src = Yuv420Frame::new(w, h);
    p1_src.u.copy_from_slice(&key_recon.u);
    p1_src.v.copy_from_slice(&key_recon.v);
    for j in 0..h as usize {
        for i in 0..w as usize {
            let sx = (i + 4).min(w as usize - 1);
            p1_src.y[j * w as usize + i] = key_recon.y[j * w as usize + sx];
        }
    }
    let (_, alt) = encode_inter_frame_refresh(&p1_src, &key_recon, 0x04).unwrap();
    let mut p2_src = Yuv420Frame::new(w, h);
    for i in 0..key_recon.y.len() {
        p2_src.y[i] = ((u16::from(key_recon.y[i]) + u16::from(alt.y[i]) + 1) >> 1) as u8;
    }
    p2_src.u.copy_from_slice(&key_recon.u);
    p2_src.v.copy_from_slice(&key_recon.v);
    let (_, p2) = encode_inter_frame_compound(&p2_src, &key_recon, &key_recon, &alt).unwrap();
    let match_avg = p2.y.iter().zip(&p2_src.y).filter(|(a, b)| a == b).count();
    assert!(match_avg > p2.y.len() / 2);
}

#[test]
fn residual_frame_reconstruction_has_frame_size() {
    let key_recon = ramp_key();
    let src = shifted_luma(&key_recon, false);
    let (tiles, recon) = encode_inter_frame(&src, &key_recon).unwrap();
    assert_eq!(recon.width, 64);
    assert_eq!(recon.height, 64);
    assert_eq!(recon.y.len(), 64 * 64);
    assert_eq!(recon.u.len(), 32 * 32);
    assert_eq!(tiles.len(), 1);
}

#[test]
fn residual_frame_same_source_skips_every_block() {
    // A source equal to its reference predicts exactly: every block skips,
    // so no transform block is coded.
    let key_recon = ramp_key();
    let mut src = Yuv420Frame::new(64, 64);
    src.y.copy_from_slice(&key_recon.y);
    src.u.copy_from_slice(&key_recon.u);
    src.v.copy_from_slice(&key_recon.v);
    let (tiles, _) = encode_inter_residual(&src, &key_recon).unwrap();
    assert_eq!(level_blocks(&tiles), 0);
    assert!(sym_count(&tiles) > 0);
}

#[test]
fn residual_frame_min_vector_is_refused() {
    let key_recon = ramp_key();
    let src = shifted_luma(&key_recon, false);
    assert!(encode_inter_newmv_residual(&src, &key_recon, i16::MIN, 0).is_none());
}
