use threers::vp9::loopfilter::{lf_level_for_mi, loop_filter_frame, LfMi};

/// Buffers are padded to the enclosing 64x64-superblock grid; `w`/`h` here
/// are that padded (superblock-aligned) size.
fn make_step_frame(w: usize, h: usize) -> (Vec<u8>, usize) {
    let stride = w;
    let mut y = vec![0u8; stride * h];
    for row in 0..h {
        for col in 0..w {
            y[row * stride + col] = if col < w / 2 { 100 } else { 150 };
        }
    }
    (y, stride)
}

fn flat_mi(mi_rows: usize, mi_cols: usize, level: u8) -> Vec<LfMi> {
    (0..mi_rows * mi_cols)
        .map(|_| LfMi {
            skip: false,
            is_inter: false,
            tx_size_y: 0,
            bw_mi: 1,
            bh_mi: 1,
            bsize_idx: 3,
            block_origin: true,
            level,
        })
        .collect()
}

fn sb_align(n: usize) -> usize {
    (n + 63) / 64 * 64
}

#[test]
fn filter_level_zero_is_noop() {
    let (w, h) = (64, 64);
    let (mut y, y_stride) = make_step_frame(w, h);
    let y_orig = y.clone();
    let mut u = vec![128u8; (w / 2) * (h / 2)];
    let mut v = vec![128u8; (w / 2) * (h / 2)];
    let uv_stride = w / 2;
    let mi_rows = h / 8;
    let mi_cols = w / 8;
    let mi = flat_mi(mi_rows, mi_cols, 10);

    loop_filter_frame(
        &mut y, y_stride, &mut u, &mut v, uv_stride, w, h, &mi, mi_rows, mi_cols, 0, 0,
    );

    assert_eq!(y, y_orig, "filter_level=0 must not modify the luma plane");
}

#[test]
fn synthetic_edge_is_modified_when_level_positive() {
    let (w, h) = (64, 64);
    let (mut y, y_stride) = make_step_frame(w, h);
    let y_orig = y.clone();
    let mut u = vec![128u8; (w / 2) * (h / 2)];
    let mut v = vec![128u8; (w / 2) * (h / 2)];
    let uv_stride = w / 2;
    let mi_rows = h / 8;
    let mi_cols = w / 8;
    let mi = flat_mi(mi_rows, mi_cols, 63);

    loop_filter_frame(
        &mut y, y_stride, &mut u, &mut v, uv_stride, w, h, &mi, mi_rows, mi_cols, 63, 0,
    );

    assert_ne!(
        y, y_orig,
        "filter_level>0 should modify pixels near the synthetic edge"
    );

    let mid_row = h / 2;
    let mut changed = false;
    for col in (w / 2 - 4)..(w / 2 + 4) {
        if y[mid_row * y_stride + col] != y_orig[mid_row * y_stride + col] {
            changed = true;
        }
    }
    assert!(
        changed,
        "expected pixels around the synthetic step edge to change"
    );
}

#[test]
fn no_panic_on_partial_superblock_frame() {
    let (w, h) = (40, 24);
    let mi_rows = (h + 7) / 8;
    let mi_cols = (w + 7) / 8;
    let mi = flat_mi(mi_rows, mi_cols, 30);

    let (pad_w, pad_h) = (sb_align(w), sb_align(h));
    let (mut y, y_stride) = make_step_frame(pad_w, pad_h);
    let uv_stride = pad_w / 2;
    let mut u = vec![128u8; uv_stride * (pad_h / 2)];
    let mut v = vec![128u8; uv_stride * (pad_h / 2)];

    loop_filter_frame(
        &mut y, y_stride, &mut u, &mut v, uv_stride, w, h, &mi, mi_rows, mi_cols, 30, 2,
    );
}

#[test]
fn lf_level_applies_default_ref_deltas() {
    assert_eq!(lf_level_for_mi(10, 1, 12), 10);
    assert_eq!(lf_level_for_mi(10, 2, 10), 9);
    assert_eq!(lf_level_for_mi(10, 3, 13), 9);
    assert_eq!(lf_level_for_mi(10, 0, 0), 11);
    assert_eq!(lf_level_for_mi(0, 1, 12), 0);
}

#[test]
fn level_zero_leaves_chroma_untouched() {
    let (w, h) = (64, 64);
    let (mut y, y_stride) = make_step_frame(w, h);
    let mut u: Vec<u8> = (0..(w / 2) * (h / 2)).map(|i| (i % 7 * 30) as u8).collect();
    let mut v = u.clone();
    let (u_orig, v_orig) = (u.clone(), v.clone());
    let mi = flat_mi(h / 8, w / 8, 40);
    loop_filter_frame(&mut y, y_stride, &mut u, &mut v, w / 2, w, h, &mi, h / 8, w / 8, 0, 0);
    assert_eq!(u, u_orig);
    assert_eq!(v, v_orig);
}

#[test]
fn flat_frame_is_unchanged_by_filtering() {
    // No discontinuity anywhere: every filter's mask stays within limits and
    // every tap averages equal samples.
    let (w, h) = (64, 64);
    let mut y = vec![90u8; w * h];
    let mut u = vec![128u8; (w / 2) * (h / 2)];
    let mut v = vec![128u8; (w / 2) * (h / 2)];
    let mi = flat_mi(h / 8, w / 8, 63);
    loop_filter_frame(&mut y, w, &mut u, &mut v, w / 2, w, h, &mi, h / 8, w / 8, 63, 0);
    assert!(y.iter().all(|&p| p == 90));
    assert!(u.iter().all(|&p| p == 128));
}

#[test]
fn zero_block_levels_leave_planes_unchanged() {
    let (w, h) = (64, 64);
    let (mut y, y_stride) = make_step_frame(w, h);
    let y_orig = y.clone();
    let mut u: Vec<u8> = (0..(w / 2) * (h / 2)).map(|i| (i * 37 % 256) as u8).collect();
    let u_orig = u.clone();
    let mut v = vec![128u8; (w / 2) * (h / 2)];
    let uv_stride = w / 2;
    let mi_rows = h / 8;
    let mi_cols = w / 8;
    let mi = flat_mi(mi_rows, mi_cols, 0);

    loop_filter_frame(
        &mut y, y_stride, &mut u, &mut v, uv_stride, w, h, &mi, mi_rows, mi_cols, 63, 0,
    );

    assert_eq!(y, y_orig);
    assert_eq!(u, u_orig);
}
