use threers::vp9::mc::{predict_inter, InterpFilter};

#[test]
fn fullpel_is_copy() {
    let mut plane = vec![0u8; 16 * 16];
    for i in 0..plane.len() {
        plane[i] = (i % 251) as u8;
    }
    let mut out = [0u8; 16];
    predict_inter(
        &plane,
        16,
        16,
        16,
        4,
        4,
        4,
        4,
        8,
        16,
        false,
        InterpFilter::EightTap,
        &mut out,
    );
    for r in 0..4 {
        for c in 0..4 {
            assert_eq!(out[r * 4 + c], plane[(5 + r) * 16 + (6 + c)]);
        }
    }
}

#[test]
fn phase0_matches_fullpel() {
    let mut plane = vec![40u8; 32 * 32];
    plane[8 * 32 + 8] = 200;
    let mut a = [0u8; 4];
    let mut b = [0u8; 4];
    predict_inter(
        &plane,
        32,
        32,
        32,
        8,
        8,
        2,
        2,
        0,
        0,
        false,
        InterpFilter::EightTap,
        &mut a,
    );
    predict_inter(
        &plane,
        32,
        32,
        32,
        8,
        8,
        2,
        2,
        0,
        0,
        false,
        InterpFilter::EightTapSmooth,
        &mut b,
    );
    assert_eq!(a, b);
}

#[test]
fn halfpel_is_between_neighbors() {
    let mut plane = vec![0u8; 16 * 16];
    for c in 0..16 {
        plane[4 * 16 + c] = 0;
        plane[5 * 16 + c] = 255;
    }
    let mut out = [0u8; 1];
    // Vertical half-pel (mv_row=4 → Q4 phase 8).
    predict_inter(
        &plane,
        16,
        16,
        16,
        4,
        4,
        1,
        1,
        4,
        0,
        false,
        InterpFilter::EightTap,
        &mut out,
    );
    let between = out[0] as u32;
    assert!(
        between > 32 && between < 224,
        "half-pel MC should interpolate: {between}"
    );
}

#[test]
fn smooth_differs_from_eighttap_at_halfpel() {
    let mut plane = vec![0u8; 16 * 16];
    for r in 0..16 {
        for c in 0..16 {
            plane[r * 16 + c] = if c < 8 { 0 } else { 255 };
        }
    }
    let mut a = [0u8; 4];
    let mut b = [0u8; 4];
    predict_inter(
        &plane,
        16,
        16,
        16,
        4,
        4,
        2,
        2,
        0,
        4,
        false,
        InterpFilter::EightTap,
        &mut a,
    );
    predict_inter(
        &plane,
        16,
        16,
        16,
        4,
        4,
        2,
        2,
        0,
        4,
        false,
        InterpFilter::EightTapSmooth,
        &mut b,
    );
    assert_ne!(a, b);
}

#[test]
fn sharp_filter_fullpel_is_copy_too() {
    let plane: Vec<u8> = (0..32 * 32).map(|i| (i * 7 % 256) as u8).collect();
    let mut out = [0u8; 9];
    predict_inter(&plane, 32, 32, 32, 10, 12, 3, 3, 0, 0, false, InterpFilter::EightTapSharp, &mut out);
    for r in 0..3 {
        for c in 0..3 {
            assert_eq!(out[r * 3 + c], plane[(12 + r) * 32 + (10 + c)]);
        }
    }
}

#[test]
fn out_of_frame_reads_clamp_to_the_border() {
    // A block placed far outside the plane sees only the replicated corner.
    let mut plane = vec![50u8; 8 * 8];
    plane[63] = 222;
    let mut out = [0u8; 4];
    predict_inter(&plane, 8, 8, 8, 40, 40, 2, 2, 0, 0, false, InterpFilter::EightTap, &mut out);
    assert_eq!(out, [222; 4]);
}

#[test]
fn constant_reference_predicts_the_constant_for_every_filter_and_phase() {
    let plane = vec![93u8; 16 * 16];
    let filters = [
        InterpFilter::EightTap,
        InterpFilter::EightTapSmooth,
        InterpFilter::EightTapSharp,
        InterpFilter::Bilinear,
    ];
    for &f in &filters {
        for mv_row in -9i16..=9 {
            for mv_col in [-7i16, -3, 0, 1, 5, 11] {
                for chroma in [false, true] {
                    let mut out = [0u8; 16];
                    predict_inter(&plane, 16, 16, 16, 4, 4, 4, 4, mv_row, mv_col, chroma, f, &mut out);
                    assert_eq!(out, [93u8; 16]);
                }
            }
        }
    }
}
