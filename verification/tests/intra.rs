use threers::vp9::intra::{gather_above, gather_left, pick_mode, pick_uv_mode, predict, sad};
use threers::vp9::tables::{DC_PRED, H_PRED, V_PRED};

#[test]
fn dc_neither_is_mid_gray() {
    let mut dst = [0u8; 64];
    predict(DC_PRED, 8, false, false, &[0; 8], &[0; 8], &mut dst);
    assert!(dst.iter().all(|&x| x == 128));
}

#[test]
fn v_copies_above() {
    let above = [1u8, 2, 3, 4];
    let mut dst = [0u8; 16];
    predict(V_PRED, 4, true, false, &above, &[129; 4], &mut dst);
    assert_eq!(&dst[..4], &above);
    assert_eq!(&dst[4..8], &above);
}

#[test]
fn h_copies_left() {
    let left = [10u8, 20, 30, 40];
    let mut dst = [0u8; 16];
    predict(H_PRED, 4, false, true, &[127; 4], &left, &mut dst);
    assert_eq!(&dst[0..4], &[10, 10, 10, 10]);
    assert_eq!(&dst[12..16], &[40, 40, 40, 40]);
}

#[test]
fn dc_averages_both_edges_with_rounding() {
    // (4 * 10 + 4 * 21 + 4) / 8 = 16
    let mut dst = [0u8; 16];
    predict(DC_PRED, 4, true, true, &[10; 4], &[21; 4], &mut dst);
    assert!(dst.iter().all(|&x| x == 16));
}

#[test]
fn dc_uses_the_one_available_edge() {
    let mut dst = [0u8; 16];
    predict(DC_PRED, 4, true, false, &[1, 2, 3, 5], &[200; 4], &mut dst);
    // (11 + 2) / 4 = 3
    assert!(dst.iter().all(|&x| x == 3));
    predict(DC_PRED, 4, false, true, &[200; 4], &[7, 7, 7, 8], &mut dst);
    // (29 + 2) / 4 = 7
    assert!(dst.iter().all(|&x| x == 7));
}

#[test]
fn sad_sums_absolute_differences_with_stride() {
    let src = [10u8, 20, 99, 99, 30, 40, 99, 99];
    let pred = [12u8, 15, 30, 45];
    assert_eq!(sad(&src, 4, &pred, 2), 2 + 5 + 0 + 5);
    assert_eq!(sad(&src, 4, &[10, 20, 30, 40], 2), 0);
}

#[test]
fn pick_mode_prefers_the_exact_predictor() {
    let above = [1u8, 2, 3, 4];
    let left = [10u8, 20, 30, 40];
    let src_v: Vec<u8> = (0..16).map(|k| above[k % 4]).collect();
    assert_eq!(pick_mode(4, true, true, &above, &left, &src_v, 4), V_PRED);
    let src_h: Vec<u8> = (0..16).map(|k| left[k / 4]).collect();
    assert_eq!(pick_mode(4, true, true, &above, &left, &src_h, 4), H_PRED);
}

#[test]
fn pick_mode_ties_keep_dc() {
    let flat = [128u8; 16];
    assert_eq!(pick_mode(4, false, false, &[128; 4], &[128; 4], &flat, 4), DC_PRED);
    assert_eq!(
        pick_uv_mode(4, false, false, &[128; 4], &[128; 4], &[128; 4], &[128; 4], &flat, &flat, 4),
        DC_PRED
    );
}

#[test]
fn pick_uv_mode_sums_both_planes() {
    let above = [9u8, 50, 9, 50];
    let left = [9u8; 4];
    // U matches V prediction exactly; V is flat 9, matched by H everywhere
    // and by DC; the sum favours V overall.
    let src_u: Vec<u8> = (0..16).map(|k| above[k % 4]).collect();
    let src_v = [9u8; 16];
    let m = pick_uv_mode(4, true, true, &above, &left, &above, &left, &src_u, &src_v, 4);
    assert_eq!(m, V_PRED);
}

#[test]
fn gather_neighbours_clamp_and_fill() {
    let plane: Vec<u8> = (0..12).collect();
    assert_eq!(gather_above(&plane, 4, 2, 1, 4, true), vec![2, 3, 3, 3]);
    assert_eq!(gather_above(&plane, 4, 2, 0, 4, true), vec![127; 4]);
    assert_eq!(gather_above(&plane, 4, 2, 1, 4, false), vec![127; 4]);
    assert_eq!(gather_left(&plane, 4, 3, 1, 1, 4, true), vec![4, 8, 8, 8]);
    assert_eq!(gather_left(&plane, 4, 3, 0, 1, 4, true), vec![129; 4]);
}

#[test]
fn sad_is_zero_exactly_when_window_matches() {
    let src: Vec<u8> = (0..8 * 8).map(|i| (i * 11 % 256) as u8).collect();
    let mut pred = vec![0u8; 16];
    for r in 0..4 {
        for c in 0..4 {
            pred[r * 4 + c] = src[(2 + r) * 8 + 3 + c];
        }
    }
    assert_eq!(sad(&src[2 * 8 + 3..], 8, &pred, 4), 0);
    pred[5] ^= 1;
    assert_eq!(sad(&src[2 * 8 + 3..], 8, &pred, 4), 1);
}

#[test]
fn v_and_h_copy_their_edge_for_any_availability() {
    let above = [10u8, 20, 30, 40];
    let left = [50u8, 60, 70, 80];
    for ha in [false, true] {
        for hl in [false, true] {
            let mut v = [0u8; 16];
            predict(V_PRED, 4, ha, hl, &above, &left, &mut v);
            let mut h = [0u8; 16];
            predict(H_PRED, 4, ha, hl, &above, &left, &mut h);
            for r in 0..4 {
                for c in 0..4 {
                    assert_eq!(v[r * 4 + c], above[c]);
                    assert_eq!(h[r * 4 + c], left[r]);
                }
            }
        }
    }
}
