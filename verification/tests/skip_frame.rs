use threers::vp9::encoder::{apply_loop_filter, Reconstruction};
use threers::vp9::inter::FILTER_LEVEL;
use threers::vp9::loopfilter::{lf_level_for_mi, LfMi};
use threers::vp9::mv::Mv;
use threers::vp9::skip_frame::{encode_inter_newmv_skip, encode_inter_zeromv_skip, motion_compensate};
use threers::vp9::tables::{partition_ctx_index_wh, LAST_FRAME, NEWMV, ZEROMV};

/// A `w × h` reconstruction whose luma is `f(i, j)` and chroma mid-gray.
fn frame(w: u32, h: u32, f: impl Fn(u32, u32) -> u8) -> Reconstruction {
    let mut y = vec![0u8; (w * h) as usize];
    for j in 0..h {
        for i in 0..w {
            y[(j * w + i) as usize] = f(i, j);
        }
    }
    let c = ((w / 2) * (h / 2)) as usize;
    Reconstruction { width: w, height: h, y, u: vec![128; c], v: vec![128; c] }
}

fn skip_lf(n: usize, mode: i8) -> Vec<LfMi> {
    (0..n)
        .map(|_| LfMi {
            skip: true,
            is_inter: true,
            tx_size_y: 1,
            bw_mi: 1,
            bh_mi: 1,
            bsize_idx: partition_ctx_index_wh(8, 8),
            block_origin: true,
            level: lf_level_for_mi(FILTER_LEVEL, LAST_FRAME, mode),
        })
        .collect()
}

#[test]
fn zeromv_skip_recon_equals_reference() {
    let key_recon = frame(64, 64, |i, j| ((i + j * 3) & 0xFF) as u8);
    let (bits, p_recon) = encode_inter_zeromv_skip(&key_recon);
    assert!(bits.len() > 12);
    // Post-LF recon: ZEROMV/skip still deblocks prediction edges.
    let mut expected = key_recon.clone();
    apply_loop_filter(&mut expected, &skip_lf(64, ZEROMV), 8, 8);
    assert_eq!(p_recon.y, expected.y);
}

#[test]
fn newmv_skip_shifts_recon() {
    let key_recon = frame(64, 64, |i, j| ((i * 3 + j) & 0xFF) as u8);
    let (bits, p_recon) = encode_inter_newmv_skip(&key_recon, 0, 16);
    assert!(bits.len() > 12);
    let mut expected = motion_compensate(&key_recon, Mv { row: 0, col: 16 });
    apply_loop_filter(&mut expected, &skip_lf(64, NEWMV), 8, 8);
    assert_eq!(p_recon.y, expected.y);
}

#[test]
fn newmv_halfpel_skip_uses_filter() {
    let key_recon = frame(64, 64, |i, _| (i * 4) as u8);
    let (bits, p_recon) = encode_inter_newmv_skip(&key_recon, 0, 4); // half-pel
    assert!(bits.len() > 12);
    // Pre-LF half-pel samples sit between neighbors; LF may nudge edges.
    let mc = motion_compensate(&key_recon, Mv { row: 0, col: 4 });
    let mut between = 0usize;
    let mut total = 0usize;
    for j in 8..56usize {
        for i in 8..55usize {
            let a = key_recon.y[j * 64 + i];
            let b = key_recon.y[j * 64 + i + 1];
            let p = mc.y[j * 64 + i];
            if a != b {
                total += 1;
                if p > a.min(b) && p < a.max(b) {
                    between += 1;
                }
            }
        }
    }
    assert!(between * 2 > total, "half-pel MC should interpolate: {between}/{total}");
    assert_ne!(p_recon.y, key_recon.y);
}

#[test]
fn skip_frame_header_marks_a_shown_inter_frame() {
    let key = frame(64, 64, |i, j| (i ^ j) as u8);
    let (bits, _) = encode_inter_zeromv_skip(&key);
    // frame_marker 0b10, profile 0, show_existing 0, non-key, shown, no error resilience.
    assert_eq!(bits[0], 0x86);
    // reset_frame_context 0, then refresh_frame_flags 0x01 begins.
    assert_eq!(bits[1], 0x00);
    assert!(bits.last().unwrap() & 0xe0 != 0xc0);
}

#[test]
fn zeromv_and_newmv_frames_differ_in_their_tiles() {
    let key = frame(64, 64, |i, j| (i * 2 + j) as u8);
    let (zero, _) = encode_inter_zeromv_skip(&key);
    let (moved, _) = encode_inter_newmv_skip(&key, 8, -8);
    assert_ne!(zero, moved);
}

#[test]
fn fullpel_newmv_recon_before_deblocking_is_a_shift() {
    let key = frame(64, 64, |i, j| (i * 3 + j * 5) as u8);
    let mc = motion_compensate(&key, Mv { row: 8, col: -16 });
    // One luma pixel down, two left: row j reads row j + 1, column i reads i - 2 (clamped).
    for j in 0..64usize {
        for i in 0..64usize {
            let sj = (j + 1).min(63);
            let si = i.saturating_sub(2);
            assert_eq!(mc.y[j * 64 + i], key.y[sj * 64 + si]);
        }
    }
}

#[test]
fn zeromv_motion_compensation_copies_every_plane() {
    let mut key = frame(16, 16, |i, j| (i * 7 + j * 13) as u8);
    for (k, u) in key.u.iter_mut().enumerate() {
        *u = (k * 3) as u8;
    }
    let mc = motion_compensate(&key, Mv { row: 0, col: 0 });
    assert_eq!(mc.y, key.y);
    assert_eq!(mc.u, key.u);
    assert_eq!(mc.v, key.v);
}

#[test]
fn wide_frame_skip_encodes_two_tiles() {
    // 512 px → two tile columns; the first tile carries a 4-byte size prefix.
    let key = frame(512, 16, |i, j| ((i + j) & 0xFF) as u8);
    let (bits, recon) = encode_inter_zeromv_skip(&key);
    assert!(bits.len() > 16);
    assert_eq!(recon.width, 512);
    assert_eq!(recon.y.len(), 512 * 16);
}
